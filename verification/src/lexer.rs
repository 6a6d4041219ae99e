//! The tokenizer: cuts source text into tokens.
//!
//! Between tokens spaces and tabs are skipped. At each position the kinds of
//! token are tried in a fixed order: line start, identifier, symbol, string,
//! number; the first that fits is taken. Text at which none fits is a lexical
//! error, unless it is the end of the input.
//!
//! A line start is read from one or more line breaks and the indentation
//! behind each. Its span is the indentation of the last of these lines: it
//! starts where that line begins and ends where the first token of the line
//! can start. Every other token has the span of the text it was read from.

pub use crate::blocks::arrange;
use crate::blocks::lemma_token_views_push;
pub use crate::symbol::puncts;
pub use crate::token::{Token, TokenValue};
use crate::error::{CompileError, ErrorKind};
use crate::symbol::{lemma_table_holds, symbol_entry, symbol_table, Symbol, SYMBOL_COUNT};
use crate::text::{
    digit, is_digit, is_newline, is_word_start, lemma_run_end, lemma_run_end_from, newline_char,
    run_end, scan_run, text_of, word_start, CharClass,
};
use crate::token::{token_views, TokenValueView, TokenView};
use vstd::prelude::*;

verus! {

/// What one character of indentation adds to the width of a line: a space 1,
/// a tab 8.
pub open spec fn char_width(c: char) -> int {
    if c == ' ' {
        1
    } else if c == '\t' {
        8
    } else {
        0
    }
}

/// The width of the indentation `s[from..to]`.
pub open spec fn indent_width(s: Seq<char>, from: int, to: int) -> int
    decreases to - from,
{
    if from >= to {
        0
    } else {
        indent_width(s, from, to - 1) + char_width(s[to - 1])
    }
}

/// How often `c` occurs in `s[from..to]`.
pub open spec fn count_of(s: Seq<char>, from: int, to: int, c: char) -> int
    decreases to - from,
{
    if from >= to {
        0
    } else {
        count_of(s, from, to - 1, c) + if s[to - 1] == c {
            1int
        } else {
            0int
        }
    }
}

/// The width of an indentation is the number of its spaces and eight times
/// the number of its tabs.
pub proof fn lemma_indent_width_formula(s: Seq<char>, from: int, to: int)
    ensures
        indent_width(s, from, to) == 1 * count_of(s, from, to, ' ') + 8 * count_of(
            s,
            from,
            to,
            '\t',
        ),
    decreases to - from,
{
    if from < to {
        lemma_indent_width_formula(s, from, to - 1);
    }
}

/// A line start at `p`: one or more line breaks, each followed by a run of
/// spaces and tabs. The width is that of the run behind the last break, so
/// blank lines do not count.
pub open spec fn line_at(s: Seq<char>, p: int) -> Option<(usize, int)>
    decreases s.len() - p,
{
    if 0 <= p < s.len() && is_newline(s[p]) {
        let e = run_end(s, p + 1, CharClass::Space);
        proof {
            lemma_run_end(s, p + 1, CharClass::Space);
        }
        match line_at(s, e) {
            Some(r) => Some(r),
            None => Some((indent_width(s, p + 1, e) as usize, e)),
        }
    } else {
        None
    }
}

/// Where the line begins that the line start at `p` leads to: behind its
/// last line break. `p` itself where no line start stands at `p`.
pub open spec fn line_begin(s: Seq<char>, p: int) -> int
    decreases s.len() - p,
{
    if 0 <= p < s.len() && is_newline(s[p]) {
        let e = run_end(s, p + 1, CharClass::Space);
        proof {
            lemma_run_end(s, p + 1, CharClass::Space);
        }
        if line_at(s, e) is Some {
            line_begin(s, e)
        } else {
            p + 1
        }
    } else {
        p
    }
}

/// An identifier at `p`: a letter or underscore and the run of letters,
/// digits and underscores behind it.
pub open spec fn word_at(s: Seq<char>, p: int) -> Option<(Seq<char>, int)> {
    if 0 <= p < s.len() && is_word_start(s[p]) {
        let e = run_end(s, p + 1, CharClass::Word);
        Some((s.subrange(p, e), e))
    } else {
        None
    }
}

/// The text of `sym` stands at `p`.
pub open spec fn symbol_fits(s: Seq<char>, p: int, sym: Symbol) -> bool {
    &&& 0 <= p < s.len()
    &&& s[p] == sym.head()
    &&& sym.tail() matches Some(c) ==> p + 1 < s.len() && s[p + 1] == c
}

/// The first table entry at or after index `from` whose text stands at `p`.
pub open spec fn symbol_from(s: Seq<char>, p: int, from: int) -> Option<Symbol>
    decreases symbol_table().len() - from,
{
    if from < 0 || from >= symbol_table().len() {
        None
    } else if symbol_fits(s, p, symbol_table()[from]) {
        Some(symbol_table()[from])
    } else {
        symbol_from(s, p, from + 1)
    }
}

/// A symbol at `p`: the first entry of the symbol table whose text stands
/// there.
pub open spec fn symbol_at(s: Seq<char>, p: int) -> Option<(Symbol, int)> {
    match symbol_from(s, p, 0) {
        Some(sym) => Some((sym, p + sym.text().len())),
        None => None,
    }
}

/// The character that an escape stands for, by the character behind the
/// backslash.
pub open spec fn unescape(c: char) -> Option<char> {
    if c == '\\' || c == '/' || c == '"' {
        Some(c)
    } else if c == 'b' {
        Some('\u{8}')
    } else if c == 'f' {
        Some('\u{c}')
    } else if c == 'n' {
        Some('\n')
    } else if c == 'r' {
        Some('\r')
    } else if c == 't' {
        Some('\t')
    } else {
        None
    }
}

/// The rest of a string literal from `p` on, its content gathered behind
/// `acc`: up to the closing quote. `None` when the text ends before the quote
/// or a backslash is followed by no escape character.
pub open spec fn string_body(s: Seq<char>, p: int, acc: Seq<char>) -> Option<(Seq<char>, int)>
    decreases s.len() - p,
{
    if !(0 <= p < s.len()) {
        None
    } else if s[p] == '"' {
        Some((acc, p + 1))
    } else if s[p] == '\\' {
        if p + 1 < s.len() && unescape(s[p + 1]) is Some {
            string_body(s, p + 2, acc.push(unescape(s[p + 1]).unwrap()))
        } else {
            None
        }
    } else {
        string_body(s, p + 1, acc.push(s[p]))
    }
}

/// A string literal at `p`.
pub open spec fn string_at(s: Seq<char>, p: int) -> Option<(Seq<char>, int)> {
    if 0 <= p < s.len() && s[p] == '"' {
        string_body(s, p + 1, Seq::empty())
    } else {
        None
    }
}

/// `c` stands at `p`.
pub open spec fn stands_at(s: Seq<char>, p: int, c: char) -> bool {
    0 <= p < s.len() && s[p] == c
}

/// A digit stands at `p`.
pub open spec fn digit_at(s: Seq<char>, p: int) -> bool {
    0 <= p < s.len() && is_digit(s[p])
}

/// Where the whole part of a number that starts at `p` ends: a single `0`,
/// or a digit from 1 to 9 and the digits behind it.
pub open spec fn whole_end(s: Seq<char>, p: int) -> Option<int> {
    if stands_at(s, p, '0') {
        Some(p + 1)
    } else if digit_at(s, p) {
        Some(run_end(s, p + 1, CharClass::Digit))
    } else {
        None
    }
}

/// Where the fraction ends that may start at `p`: a point and at least one
/// digit. `p` itself where there is none.
pub open spec fn fraction_end(s: Seq<char>, p: int) -> int {
    if stands_at(s, p, '.') && digit_at(s, p + 1) {
        run_end(s, p + 2, CharClass::Digit)
    } else {
        p
    }
}

/// Where the exponent ends that may start at `p`: `e` or `E`, possibly a
/// sign, and at least one digit. `p` itself where there is none.
pub open spec fn exponent_end(s: Seq<char>, p: int) -> int {
    if stands_at(s, p, 'e') || stands_at(s, p, 'E') {
        let m = if stands_at(s, p + 1, '+') || stands_at(s, p + 1, '-') {
            p + 2
        } else {
            p + 1
        };
        if digit_at(s, m) {
            run_end(s, m + 1, CharClass::Digit)
        } else {
            p
        }
    } else {
        p
    }
}

/// Where the number that starts at `p` ends: possibly a minus sign, the
/// whole part, possibly a fraction, possibly an exponent.
pub open spec fn number_end(s: Seq<char>, p: int) -> Option<int> {
    let a = if stands_at(s, p, '-') {
        p + 1
    } else {
        p
    };
    match whole_end(s, a) {
        Some(b) => Some(exponent_end(s, fraction_end(s, b))),
        None => None,
    }
}

/// A number literal at `p`, as the text it is written with.
pub open spec fn number_at(s: Seq<char>, p: int) -> Option<(Seq<char>, int)> {
    match number_end(s, p) {
        Some(e) => Some((s.subrange(p, e), e)),
        None => None,
    }
}

/// Where the span of the token at `p` starts. A line start is noted with the
/// span of the indentation it measured, which begins behind its last line
/// break; every other token with the span it was read from.
pub open spec fn span_start(s: Seq<char>, p: int) -> int {
    line_begin(s, p)
}

/// The token at `p` and the position behind it.
pub open spec fn token_at(s: Seq<char>, p: int) -> Option<(TokenValueView, int)> {
    match line_at(s, p) {
        Some((width, e)) => Some((TokenValueView::Line(width), e)),
        None => match word_at(s, p) {
            Some((name, e)) => Some((TokenValueView::Ident(name), e)),
            None => match symbol_at(s, p) {
                Some((sym, e)) => Some((TokenValueView::Punct(sym), e)),
                None => match string_at(s, p) {
                    Some((text, e)) => Some((TokenValueView::LitStr(text), e)),
                    None => match number_at(s, p) {
                        Some((text, e)) => Some((TokenValueView::LitNum(text), e)),
                        None => None,
                    },
                },
            },
        },
    }
}

/// A line start ends behind its start and inside the text. The line it leads
/// to begins behind a line break; from there to the end of the line start
/// stands the indentation, which is what the width measures.
pub proof fn lemma_line_at_bounds(s: Seq<char>, p: int)
    ensures
        line_at(s, p) matches Some((width, e)) ==> {
            &&& p < line_begin(s, p) <= e <= s.len()
            &&& is_newline(s[line_begin(s, p) - 1])
            &&& run_end(s, line_begin(s, p), CharClass::Space) == e
            &&& width == indent_width(s, line_begin(s, p), e) as usize
        },
        line_at(s, p) is None ==> line_begin(s, p) == p,
    decreases s.len() - p,
{
    if 0 <= p < s.len() && is_newline(s[p]) {
        lemma_run_end(s, p + 1, CharClass::Space);
        lemma_line_at_bounds(s, run_end(s, p + 1, CharClass::Space));
    }
}

/// A string literal ends behind its start and inside the text.
pub proof fn lemma_string_body_bounds(s: Seq<char>, p: int, acc: Seq<char>)
    ensures
        string_body(s, p, acc) matches Some((_, e)) ==> p < e <= s.len(),
    decreases s.len() - p,
{
    if 0 <= p < s.len() && s[p] != '"' {
        if s[p] == '\\' {
            if p + 1 < s.len() && unescape(s[p + 1]) is Some {
                lemma_string_body_bounds(s, p + 2, acc.push(unescape(s[p + 1]).unwrap()));
            }
        } else {
            lemma_string_body_bounds(s, p + 1, acc.push(s[p]));
        }
    }
}

/// Whatever the search finds stands at `p`.
pub proof fn lemma_symbol_from_fits(s: Seq<char>, p: int, from: int)
    ensures
        symbol_from(s, p, from) matches Some(sym) ==> symbol_fits(s, p, sym),
    decreases symbol_table().len() - from,
{
    if 0 <= from < symbol_table().len() && !symbol_fits(s, p, symbol_table()[from]) {
        lemma_symbol_from_fits(s, p, from + 1);
    }
}

/// Where the table entry at index `k` stands at `p`, the search from index
/// `from` finds the first entry between the two that stands there.
pub proof fn lemma_symbol_from_first(s: Seq<char>, p: int, k: int, from: int) -> (j: int)
    requires
        0 <= from <= k < symbol_table().len(),
        symbol_fits(s, p, symbol_table()[k]),
    ensures
        from <= j <= k,
        symbol_from(s, p, from) == Some(symbol_table()[j]),
        symbol_fits(s, p, symbol_table()[j]),
    decreases k - from,
{
    if symbol_fits(s, p, symbol_table()[from]) {
        from
    } else {
        lemma_symbol_from_first(s, p, k, from + 1)
    }
}

/// The tokenizer reads the longest symbol that stands at a position: where
/// the text of a symbol stands at `p`, a symbol is read there, and it is not
/// shorter.
pub proof fn lemma_symbol_at_longest(s: Seq<char>, p: int, sym: Symbol)
    requires
        symbol_fits(s, p, sym),
    ensures
        symbol_at(s, p) is Some,
        symbol_at(s, p).unwrap().0.text().len() >= sym.text().len(),
        symbol_fits(s, p, symbol_at(s, p).unwrap().0),
{
    let k = lemma_table_holds(sym);
    let j = lemma_symbol_from_first(s, p, k, 0);
    let found = symbol_table()[j];
    let _ = lemma_table_holds(found);
    assert(found.tail() is Some ==> found.text().len() == 2);
    assert(sym.tail() is None ==> sym.text().len() == 1);
}

/// A number ends behind its start and inside the text.
pub proof fn lemma_number_end_bounds(s: Seq<char>, p: int)
    ensures
        number_end(s, p) matches Some(e) ==> p < e <= s.len(),
{
    let a = if stands_at(s, p, '-') {
        p + 1
    } else {
        p
    };
    if whole_end(s, a) is Some {
        let b = whole_end(s, a).unwrap();
        lemma_run_end(s, a + 1, CharClass::Digit);
        let c = fraction_end(s, b);
        if stands_at(s, b, '.') && digit_at(s, b + 1) {
            lemma_run_end(s, b + 2, CharClass::Digit);
        }
        if stands_at(s, c, 'e') || stands_at(s, c, 'E') {
            let m = if stands_at(s, c + 1, '+') || stands_at(s, c + 1, '-') {
                c + 2
            } else {
                c + 1
            };
            if digit_at(s, m) {
                lemma_run_end(s, m + 1, CharClass::Digit);
            }
        }
    }
}

/// Every token ends behind its start and inside the text, and its span
/// starts between the two.
pub proof fn lemma_token_at_bounds(s: Seq<char>, p: int)
    ensures
        token_at(s, p) matches Some((_, e)) ==> p < e <= s.len() && p <= span_start(s, p) <= e,
{
    lemma_line_at_bounds(s, p);
    assert(word_at(s, p) matches Some((_, e)) ==> p < e <= s.len()) by {
        if 0 <= p < s.len() {
            lemma_run_end(s, p + 1, CharClass::Word);
        }
    }
    assert(symbol_at(s, p) matches Some((_, e)) ==> p < e <= s.len()) by {
        lemma_symbol_from_fits(s, p, 0);
        if symbol_from(s, p, 0) is Some {
            let sym = symbol_from(s, p, 0).unwrap();
            assert(sym.text().len() == if sym.tail() is Some {
                2int
            } else {
                1int
            });
        }
    }
    assert(string_at(s, p) matches Some((_, e)) ==> p < e <= s.len()) by {
        lemma_string_body_bounds(s, p + 1, Seq::empty());
    }
    assert(number_at(s, p) matches Some((_, e)) ==> p < e <= s.len()) by {
        lemma_number_end_bounds(s, p);
    }
}

/// The tokens of `s` from `p` on, gathered behind `acc`.
pub open spec fn lex_from(s: Seq<char>, p: int, acc: Seq<TokenView>) -> Result<
    Seq<TokenView>,
    CompileError,
>
    decreases s.len() - p,
{
    let start = run_end(s, p, CharClass::Space);
    match token_at(s, start) {
        Some((value, end)) => {
            proof {
                lemma_run_end_from(s, p, CharClass::Space);
                lemma_token_at_bounds(s, start);
            }
            lex_from(
                s,
                end,
                acc.push(
                    TokenView { value, span: (span_start(s, start) as usize)..(end as usize) },
                ),
            )
        },
        None => if start >= s.len() {
            Ok(acc)
        } else {
            Err(CompileError { kind: ErrorKind::Lexical, position: start as usize })
        },
    }
}

/// The tokens of `s`, or the lexical error at the first offset, behind any
/// spaces and tabs, at which no token starts.
pub open spec fn lex_spec(s: Seq<char>) -> Result<Seq<TokenView>, CompileError> {
    lex_from(s, 0, Seq::empty())
}

/// Skips the spaces and tabs at `start`.
pub fn space(input: &[char], start: usize) -> (end: usize)
    requires
        start <= input@.len(),
    ensures
        end == run_end(input@, start as int, CharClass::Space),
        start <= end <= input@.len(),
{
    scan_run(input, start, CharClass::Space)
}

/// Measures the indentation `input[from..to]`.
fn measure(input: &[char], from: usize, to: usize) -> (width: usize)
    requires
        from <= to <= input@.len(),
        input@.len() * 8 <= usize::MAX,
    ensures
        width == indent_width(input@, from as int, to as int),
{
    let mut width: usize = 0;
    let mut i = from;
    while i < to
        invariant
            from <= i <= to <= input@.len(),
            input@.len() * 8 <= usize::MAX,
            width == indent_width(input@, from as int, i as int),
            width <= 8 * (i - from),
        decreases to - i,
    {
        let c = input[i];
        let w: usize = if c == ' ' {
            1
        } else if c == '\t' {
            8
        } else {
            0
        };
        width = width + w;
        i += 1;
    }
    width
}

/// Reads a line start at `start`: the width of the indentation of the line,
/// the position where the line begins and the position behind its
/// indentation.
pub fn line(input: &[char], start: usize) -> (r: Option<(usize, usize, usize)>)
    requires
        input@.len() * 8 <= usize::MAX,
    ensures
        match r {
            Some((width, begin, end)) => line_at(input@, start as int) == Some((width, end as int))
                && begin == line_begin(input@, start as int),
            None => line_at(input@, start as int) is None,
        },
{
    if start >= input.len() || !newline_char(input[start]) {
        return None;
    }
    let mut pos = start;
    loop
        invariant
            input@.len() * 8 <= usize::MAX,
            start <= pos < input@.len(),
            is_newline(input@[pos as int]),
            line_at(input@, start as int) == line_at(input@, pos as int),
            line_begin(input@, start as int) == line_begin(input@, pos as int),
        decreases input@.len() - pos,
    {
        let end = scan_run(input, pos + 1, CharClass::Space);
        if end < input.len() && newline_char(input[end]) {
            pos = end;
        } else {
            let width = measure(input, pos + 1, end);
            proof {
                assert(line_at(input@, end as int) is None);
            }
            return Some((width, pos + 1, end));
        }
    }
}

/// Reads an identifier at `start`.
pub fn ident(input: &[char], start: usize) -> (r: Option<(String, usize)>)
    ensures
        match r {
            Some((name, end)) => word_at(input@, start as int) == Some((name@, end as int)),
            None => word_at(input@, start as int) is None,
        },
{
    if start < input.len() && word_start(input[start]) {
        let end = scan_run(input, start + 1, CharClass::Word);
        Some((text_of(input, start, end), end))
    } else {
        None
    }
}

/// Where the text of `sym` ends if it stands at `start`.
fn fits(input: &[char], start: usize, sym: Symbol) -> (r: Option<usize>)
    ensures
        r is Some == symbol_fits(input@, start as int, sym),
        r matches Some(end) ==> end == start + sym.text().len(),
{
    let n = input.len();
    let (a, b) = sym.glyphs();
    if start < n && input[start] == a {
        match b {
            Some(c) => if start + 1 < n && input[start + 1] == c {
                Some(start + 2)
            } else {
                None
            },
            None => Some(start + 1),
        }
    } else {
        None
    }
}

/// Reads a symbol at `start`: the first entry of the symbol table whose text
/// stands there.
pub fn punct(input: &[char], start: usize) -> (r: Option<(Symbol, usize)>)
    ensures
        match r {
            Some((sym, end)) => symbol_at(input@, start as int) == Some((sym, end as int)),
            None => symbol_at(input@, start as int) is None,
        },
{
    let mut i: usize = 0;
    while i < SYMBOL_COUNT
        invariant
            i <= SYMBOL_COUNT,
            symbol_from(input@, start as int, 0) == symbol_from(input@, start as int, i as int),
        decreases SYMBOL_COUNT - i,
    {
        let sym = symbol_entry(i);
        match fits(input, start, sym) {
            Some(end) => {
                return Some((sym, end));
            },
            None => {},
        }
        i += 1;
    }
    None
}

/// Executable form of [`unescape`].
fn escaped(c: char) -> (r: Option<char>)
    ensures
        r == unescape(c),
{
    if c == '\\' || c == '/' || c == '"' {
        Some(c)
    } else if c == 'b' {
        Some('\u{8}')
    } else if c == 'f' {
        Some('\u{c}')
    } else if c == 'n' {
        Some('\n')
    } else if c == 'r' {
        Some('\r')
    } else if c == 't' {
        Some('\t')
    } else {
        None
    }
}

/// Reads a string literal at `start` and resolves its escapes.
pub fn lit_string(input: &[char], start: usize) -> (r: Option<(String, usize)>)
    ensures
        match r {
            Some((text, end)) => string_at(input@, start as int) == Some((text@, end as int)),
            None => string_at(input@, start as int) is None,
        },
{
    if start >= input.len() || input[start] != '"' {
        return None;
    }
    let mut out = String::new();
    let mut pos = start + 1;
    loop
        invariant
            start < pos <= input@.len(),
            string_at(input@, start as int) == string_body(input@, pos as int, out@),
        decreases input@.len() - pos,
    {
        if pos >= input.len() {
            return None;
        }
        let c = input[pos];
        if c == '"' {
            return Some((out, pos + 1));
        }
        if c == '\\' {
            if pos + 1 >= input.len() {
                return None;
            }
            match escaped(input[pos + 1]) {
                Some(x) => {
                    out.push(x);
                    pos = pos + 2;
                },
                None => {
                    return None;
                },
            }
        } else {
            out.push(c);
            pos = pos + 1;
        }
    }
}

/// Whether `c` stands at `p`.
fn char_stands_at(input: &[char], p: usize, c: char) -> (r: bool)
    ensures
        r == stands_at(input@, p as int, c),
{
    p < input.len() && input[p] == c
}

/// Whether a digit stands at `p`.
fn digit_stands_at(input: &[char], p: usize) -> (r: bool)
    ensures
        r == digit_at(input@, p as int),
{
    p < input.len() && digit(input[p])
}

/// Reads a number literal at `start`.
pub fn lit_number(input: &[char], start: usize) -> (r: Option<(String, usize)>)
    ensures
        match r {
            Some((text, end)) => number_at(input@, start as int) == Some((text@, end as int)),
            None => number_at(input@, start as int) is None,
        },
{
    let n = input.len();
    if start >= n {
        return None;
    }
    let a = if char_stands_at(input, start, '-') {
        start + 1
    } else {
        start
    };
    let b = if char_stands_at(input, a, '0') {
        a + 1
    } else if digit_stands_at(input, a) {
        scan_run(input, a + 1, CharClass::Digit)
    } else {
        return None;
    };
    let c = if char_stands_at(input, b, '.') && digit_stands_at(input, b + 1) {
        scan_run(input, b + 2, CharClass::Digit)
    } else {
        b
    };
    let mut end = c;
    if char_stands_at(input, c, 'e') || char_stands_at(input, c, 'E') {
        let m = if char_stands_at(input, c + 1, '+') || char_stands_at(input, c + 1, '-') {
            c + 2
        } else {
            c + 1
        };
        if digit_stands_at(input, m) {
            end = scan_run(input, m + 1, CharClass::Digit);
        }
    }
    proof {
        lemma_number_end_bounds(input@, start as int);
    }
    Some((text_of(input, start, end), end))
}

/// Reads the token at `start` and notes its span: for a line start the span
/// of the indentation of the line, for every other token the span it was read
/// from.
pub fn with_pos(input: &[char], start: usize) -> (r: Option<(Token, usize)>)
    requires
        input@.len() * 8 <= usize::MAX,
    ensures
        match r {
            Some((tok, end)) => token_at(input@, start as int) == Some((tok@.value, end as int))
                && tok@.span.start == span_start(input@, start as int) && tok@.span.end == end
                && start < end <= input@.len(),
            None => token_at(input@, start as int) is None,
        },
{
    proof {
        lemma_token_at_bounds(input@, start as int);
    }
    proof {
        lemma_line_at_bounds(input@, start as int);
    }
    match line(input, start) {
        Some((width, begin, end)) => {
            return Some((Token(TokenValue::Line(width), begin..end), end));
        },
        None => {},
    }
    match ident(input, start) {
        Some((name, end)) => {
            return Some((Token(TokenValue::Ident(name), start..end), end));
        },
        None => {},
    }
    match punct(input, start) {
        Some((sym, end)) => {
            return Some((Token(TokenValue::Punct(sym), start..end), end));
        },
        None => {},
    }
    match lit_string(input, start) {
        Some((text, end)) => {
            return Some((Token(TokenValue::LitStr(text), start..end), end));
        },
        None => {},
    }
    match lit_number(input, start) {
        Some((text, end)) => Some((Token(TokenValue::LitNum(text), start..end), end)),
        None => None,
    }
}

/// Cuts `input` into tokens.
///
/// Returns the tokens in the order of the text. Every token but a line start
/// carries the span it was read from; a line start carries the span of the
/// indentation it measured, from where the line begins to where its first
/// token can start. Fails with a lexical error at the first offset, behind any
/// spaces and tabs, at which no token starts and the text has not ended.
///
/// The width of an indentation must fit the machine: the text may be at most
/// an eighth of `usize::MAX` long.
pub fn lexer(input: &[char]) -> (r: Result<Vec<Token>, CompileError>)
    requires
        input@.len() * 8 <= usize::MAX,
    ensures
        match r {
            Ok(tokens) => lex_spec(input@) == Ok::<Seq<TokenView>, CompileError>(
                token_views(tokens@),
            ),
            Err(e) => lex_spec(input@) == Err::<Seq<TokenView>, CompileError>(e),
        },
{
    let mut tokens: Vec<Token> = Vec::new();
    let mut pos: usize = 0;
    proof {
        assert(token_views(tokens@) =~= Seq::<TokenView>::empty());
    }
    loop
        invariant
            input@.len() * 8 <= usize::MAX,
            pos <= input@.len(),
            lex_spec(input@) == lex_from(input@, pos as int, token_views(tokens@)),
        decreases input@.len() - pos,
    {
        let start = space(input, pos);
        match with_pos(input, start) {
            Some((tok, end)) => {
                proof {
                    lemma_token_views_push(tokens@, tok);
                }
                tokens.push(tok);
                pos = end;
            },
            None => {
                if start >= input.len() {
                    return Ok(tokens);
                } else {
                    return Err(CompileError::lexical(start));
                }
            },
        }
    }
}

} // verus!
