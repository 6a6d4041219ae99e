//! The fixed punctuation of the language: every operator and delimiter the
//! tokenizer can produce, the order in which candidates are tried, and the
//! binding priority of the binary operators.

use vstd::prelude::*;
use vstd::string::StrSliceExecFns;

verus! {

/// A punctuation symbol. Each symbol stands for one or two characters of
/// source text, given by [`Symbol::text`].
#[derive(Clone, Copy, Debug, PartialEq, Eq, Structural)]
pub enum Symbol {
    /// `==`
    EqEq,
    /// `!=`
    NotEq,
    /// `<=`
    LessEq,
    /// `>=`
    GreaterEq,
    /// `=>`
    Arrow,
    /// `!?`
    Else,
    /// `&&`
    AndAnd,
    /// `||`
    OrOr,
    /// `;`
    Semicolon,
    /// `:`
    Colon,
    /// `?`
    Question,
    /// `^`
    Caret,
    /// `,`
    Comma,
    /// `(`
    OpenParen,
    /// `)`
    CloseParen,
    /// `+`
    Plus,
    /// `-`
    Minus,
    /// `*`
    Star,
    /// `/`
    Slash,
    /// `&`
    Amp,
    /// `|`
    Pipe,
    /// `>`
    Greater,
    /// `<`
    Less,
    /// `=`
    Assign,
    /// `.`
    Dot,
    /// `@`
    At,
    /// `[`
    OpenBracket,
    /// `]`
    CloseBracket,
    /// `{`
    OpenBrace,
    /// `}`
    CloseBrace,
}

/// The kind of a two-operand operation node.
#[derive(Clone, Copy, Debug, PartialEq, Eq, Structural)]
pub enum BinaryKind {
    If,
    While,
    Add,
    Sub,
    Mul,
    Div,
    BitAnd,
    BitOr,
    EQ,
    NE,
    GT,
    LT,
    GE,
    LE,
    And,
    Or,
    Assign,
}

/// Number of entries of the symbol table.
pub const SYMBOL_COUNT: usize = 30;

/// The priority shared by `?`, `!?`, `^` and `=`: the loosest band, the only
/// one that is reduced from right to left.
pub const LOOSE_PRIORITY: usize = 14;

/// The symbol table in the order in which candidates are tried. Every
/// two-character symbol stands before the one-character symbols, so a symbol is
/// never shadowed by one of its own prefixes.
pub open spec fn symbol_table() -> Seq<Symbol> {
    seq![
        Symbol::EqEq,
        Symbol::NotEq,
        Symbol::LessEq,
        Symbol::GreaterEq,
        Symbol::Arrow,
        Symbol::Else,
        Symbol::AndAnd,
        Symbol::OrOr,
        Symbol::Semicolon,
        Symbol::Colon,
        Symbol::Question,
        Symbol::Caret,
        Symbol::Comma,
        Symbol::OpenParen,
        Symbol::CloseParen,
        Symbol::Plus,
        Symbol::Minus,
        Symbol::Star,
        Symbol::Slash,
        Symbol::Amp,
        Symbol::Pipe,
        Symbol::Greater,
        Symbol::Less,
        Symbol::Assign,
        Symbol::Dot,
        Symbol::At,
        Symbol::OpenBracket,
        Symbol::CloseBracket,
        Symbol::OpenBrace,
        Symbol::CloseBrace,
    ]
}

impl Symbol {
    /// First character of the symbol.
    pub open spec fn head(self) -> char {
        match self {
            Symbol::EqEq => '=',
            Symbol::NotEq => '!',
            Symbol::LessEq => '<',
            Symbol::GreaterEq => '>',
            Symbol::Arrow => '=',
            Symbol::Else => '!',
            Symbol::AndAnd => '&',
            Symbol::OrOr => '|',
            Symbol::Semicolon => ';',
            Symbol::Colon => ':',
            Symbol::Question => '?',
            Symbol::Caret => '^',
            Symbol::Comma => ',',
            Symbol::OpenParen => '(',
            Symbol::CloseParen => ')',
            Symbol::Plus => '+',
            Symbol::Minus => '-',
            Symbol::Star => '*',
            Symbol::Slash => '/',
            Symbol::Amp => '&',
            Symbol::Pipe => '|',
            Symbol::Greater => '>',
            Symbol::Less => '<',
            Symbol::Assign => '=',
            Symbol::Dot => '.',
            Symbol::At => '@',
            Symbol::OpenBracket => '[',
            Symbol::CloseBracket => ']',
            Symbol::OpenBrace => '{',
            Symbol::CloseBrace => '}',
        }
    }

    /// Second character of a two-character symbol.
    pub open spec fn tail(self) -> Option<char> {
        match self {
            Symbol::EqEq => Some('='),
            Symbol::NotEq => Some('='),
            Symbol::LessEq => Some('='),
            Symbol::GreaterEq => Some('='),
            Symbol::Arrow => Some('>'),
            Symbol::Else => Some('?'),
            Symbol::AndAnd => Some('&'),
            Symbol::OrOr => Some('|'),
            _ => None,
        }
    }

    /// The source text of the symbol.
    pub open spec fn text(self) -> Seq<char> {
        match self.tail() {
            Some(c) => seq![self.head(), c],
            None => seq![self.head()],
        }
    }

    /// Priority of a binary operator; a lower number binds tighter. `None` for
    /// a symbol that is no binary operator.
    pub open spec fn priority(self) -> Option<usize> {
        match self {
            Symbol::Star | Symbol::Slash => Some(3usize),
            Symbol::Plus | Symbol::Minus => Some(4usize),
            Symbol::Greater | Symbol::Less | Symbol::GreaterEq | Symbol::LessEq => Some(6usize),
            Symbol::EqEq | Symbol::NotEq => Some(7usize),
            Symbol::Amp => Some(8usize),
            Symbol::Pipe => Some(10usize),
            Symbol::AndAnd => Some(11usize),
            Symbol::OrOr => Some(12usize),
            Symbol::Question | Symbol::Else | Symbol::Caret | Symbol::Assign => Some(
                LOOSE_PRIORITY,
            ),
            _ => None,
        }
    }

    /// The operation that a binary operator builds from its two operands.
    /// `None` for `!?`, which only ever extends a conditional, and for every
    /// symbol that is no binary operator.
    pub open spec fn binary_kind(self) -> Option<BinaryKind> {
        match self {
            Symbol::Question => Some(BinaryKind::If),
            Symbol::Caret => Some(BinaryKind::While),
            Symbol::Assign => Some(BinaryKind::Assign),
            Symbol::Plus => Some(BinaryKind::Add),
            Symbol::Minus => Some(BinaryKind::Sub),
            Symbol::Star => Some(BinaryKind::Mul),
            Symbol::Slash => Some(BinaryKind::Div),
            Symbol::Amp => Some(BinaryKind::BitAnd),
            Symbol::Pipe => Some(BinaryKind::BitOr),
            Symbol::EqEq => Some(BinaryKind::EQ),
            Symbol::NotEq => Some(BinaryKind::NE),
            Symbol::Greater => Some(BinaryKind::GT),
            Symbol::Less => Some(BinaryKind::LT),
            Symbol::GreaterEq => Some(BinaryKind::GE),
            Symbol::LessEq => Some(BinaryKind::LE),
            Symbol::AndAnd => Some(BinaryKind::And),
            Symbol::OrOr => Some(BinaryKind::Or),
            _ => None,
        }
    }

    /// The one or two characters of the symbol.
    pub fn glyphs(self) -> (r: (char, Option<char>))
        ensures
            r.0 == self.head(),
            r.1 == self.tail(),
    {
        match self {
            Symbol::EqEq => ('=', Some('=')),
            Symbol::NotEq => ('!', Some('=')),
            Symbol::LessEq => ('<', Some('=')),
            Symbol::GreaterEq => ('>', Some('=')),
            Symbol::Arrow => ('=', Some('>')),
            Symbol::Else => ('!', Some('?')),
            Symbol::AndAnd => ('&', Some('&')),
            Symbol::OrOr => ('|', Some('|')),
            Symbol::Semicolon => (';', None),
            Symbol::Colon => (':', None),
            Symbol::Question => ('?', None),
            Symbol::Caret => ('^', None),
            Symbol::Comma => (',', None),
            Symbol::OpenParen => ('(', None),
            Symbol::CloseParen => (')', None),
            Symbol::Plus => ('+', None),
            Symbol::Minus => ('-', None),
            Symbol::Star => ('*', None),
            Symbol::Slash => ('/', None),
            Symbol::Amp => ('&', None),
            Symbol::Pipe => ('|', None),
            Symbol::Greater => ('>', None),
            Symbol::Less => ('<', None),
            Symbol::Assign => ('=', None),
            Symbol::Dot => ('.', None),
            Symbol::At => ('@', None),
            Symbol::OpenBracket => ('[', None),
            Symbol::CloseBracket => (']', None),
            Symbol::OpenBrace => ('{', None),
            Symbol::CloseBrace => ('}', None),
        }
    }

    /// Executable form of [`Symbol::priority`].
    pub fn binding(self) -> (r: Option<usize>)
        ensures
            r == self.priority(),
    {
        match self {
            Symbol::Star | Symbol::Slash => Some(3),
            Symbol::Plus | Symbol::Minus => Some(4),
            Symbol::Greater | Symbol::Less | Symbol::GreaterEq | Symbol::LessEq => Some(6),
            Symbol::EqEq | Symbol::NotEq => Some(7),
            Symbol::Amp => Some(8),
            Symbol::Pipe => Some(10),
            Symbol::AndAnd => Some(11),
            Symbol::OrOr => Some(12),
            Symbol::Question | Symbol::Else | Symbol::Caret | Symbol::Assign => Some(
                LOOSE_PRIORITY,
            ),
            _ => None,
        }
    }

    /// Executable form of [`Symbol::binary_kind`].
    pub fn operation(self) -> (r: Option<BinaryKind>)
        ensures
            r == self.binary_kind(),
    {
        match self {
            Symbol::Question => Some(BinaryKind::If),
            Symbol::Caret => Some(BinaryKind::While),
            Symbol::Assign => Some(BinaryKind::Assign),
            Symbol::Plus => Some(BinaryKind::Add),
            Symbol::Minus => Some(BinaryKind::Sub),
            Symbol::Star => Some(BinaryKind::Mul),
            Symbol::Slash => Some(BinaryKind::Div),
            Symbol::Amp => Some(BinaryKind::BitAnd),
            Symbol::Pipe => Some(BinaryKind::BitOr),
            Symbol::EqEq => Some(BinaryKind::EQ),
            Symbol::NotEq => Some(BinaryKind::NE),
            Symbol::Greater => Some(BinaryKind::GT),
            Symbol::Less => Some(BinaryKind::LT),
            Symbol::GreaterEq => Some(BinaryKind::GE),
            Symbol::LessEq => Some(BinaryKind::LE),
            Symbol::AndAnd => Some(BinaryKind::And),
            Symbol::OrOr => Some(BinaryKind::Or),
            _ => None,
        }
    }
}

/// The entry of the symbol table at index `i`.
pub fn symbol_entry(i: usize) -> (s: Symbol)
    requires
        i < SYMBOL_COUNT,
    ensures
        s == symbol_table()[i as int],
{
    match i {
        0 => Symbol::EqEq,
        1 => Symbol::NotEq,
        2 => Symbol::LessEq,
        3 => Symbol::GreaterEq,
        4 => Symbol::Arrow,
        5 => Symbol::Else,
        6 => Symbol::AndAnd,
        7 => Symbol::OrOr,
        8 => Symbol::Semicolon,
        9 => Symbol::Colon,
        10 => Symbol::Question,
        11 => Symbol::Caret,
        12 => Symbol::Comma,
        13 => Symbol::OpenParen,
        14 => Symbol::CloseParen,
        15 => Symbol::Plus,
        16 => Symbol::Minus,
        17 => Symbol::Star,
        18 => Symbol::Slash,
        19 => Symbol::Amp,
        20 => Symbol::Pipe,
        21 => Symbol::Greater,
        22 => Symbol::Less,
        23 => Symbol::Assign,
        24 => Symbol::Dot,
        25 => Symbol::At,
        26 => Symbol::OpenBracket,
        27 => Symbol::CloseBracket,
        28 => Symbol::OpenBrace,
        _ => Symbol::CloseBrace,
    }
}

/// The table holds every symbol once, those of two characters before those
/// of one. The index of `s` is returned.
pub proof fn lemma_table_holds(s: Symbol) -> (k: int)
    ensures
        0 <= k < symbol_table().len(),
        symbol_table()[k] == s,
        forall|j: int| 0 <= j < symbol_table().len() && symbol_table()[j] == s ==> j == k,
        k < 8 <==> s.tail() is Some,
{
    let t = symbol_table();
    assert(t.len() == 30);
    assert(t[0] == Symbol::EqEq && t[1] == Symbol::NotEq && t[2] == Symbol::LessEq && t[3]
        == Symbol::GreaterEq && t[4] == Symbol::Arrow && t[5] == Symbol::Else && t[6]
        == Symbol::AndAnd && t[7] == Symbol::OrOr && t[8] == Symbol::Semicolon && t[9]
        == Symbol::Colon);
    assert(t[10] == Symbol::Question && t[11] == Symbol::Caret && t[12] == Symbol::Comma && t[13]
        == Symbol::OpenParen && t[14] == Symbol::CloseParen && t[15] == Symbol::Plus && t[16]
        == Symbol::Minus && t[17] == Symbol::Star && t[18] == Symbol::Slash && t[19]
        == Symbol::Amp);
    assert(t[20] == Symbol::Pipe && t[21] == Symbol::Greater && t[22] == Symbol::Less && t[23]
        == Symbol::Assign && t[24] == Symbol::Dot && t[25] == Symbol::At && t[26]
        == Symbol::OpenBracket && t[27] == Symbol::CloseBracket && t[28] == Symbol::OpenBrace
        && t[29] == Symbol::CloseBrace);
    let k = choose|k: int| 0 <= k < 30 && t[k] == s;
    k
}

/// The first table entry at or after index `from` whose text is exactly
/// `text`: same length, same characters.
pub open spec fn symbol_named_from(text: Seq<char>, from: int) -> Option<Symbol>
    decreases symbol_table().len() - from,
{
    if from < 0 || from >= symbol_table().len() {
        None
    } else if symbol_table()[from].text() == text {
        Some(symbol_table()[from])
    } else {
        symbol_named_from(text, from + 1)
    }
}

/// The symbol whose text is exactly `text`, if the table holds one.
pub open spec fn symbol_named(text: Seq<char>) -> Option<Symbol> {
    symbol_named_from(text, 0)
}

/// Whatever the search finds has the text that was asked for.
pub proof fn lemma_symbol_named_text(text: Seq<char>, from: int)
    ensures
        symbol_named_from(text, from) matches Some(s) ==> s.text() == text,
    decreases symbol_table().len() - from,
{
    if 0 <= from < symbol_table().len() && symbol_table()[from].text() != text {
        lemma_symbol_named_text(text, from + 1);
    }
}

/// Every symbol is found under its own text: no two table entries share one.
pub proof fn lemma_symbol_named_own_text(s: Symbol)
    ensures
        symbol_named(s.text()) == Some(s),
{
    reveal_with_fuel(symbol_named_from, 31);
    let t = s.text();
    assert(t.len() == 1 ==> t[0] == s.head());
    assert(t.len() == 2 ==> t[0] == s.head() && t[1] == s.tail().unwrap());
    assert forall|k: int| 0 <= k < 30 implies (#[trigger] symbol_table()[k].text() == t)
        == (symbol_table()[k] == s) by {
        let u = symbol_table()[k].text();
        if u == t {
            assert(u.len() == 1 ==> u[0] == symbol_table()[k].head());
            assert(u.len() == 2 ==> u[0] == symbol_table()[k].head() && u[1]
                == symbol_table()[k].tail().unwrap());
        }
    }
}

/// Looks up the symbol that is written `v`.
///
/// The table is searched from the top for the first entry of the same length
/// and the same characters. `v` must be the text of a symbol.
pub fn puncts(v: &str) -> (r: Symbol)
    requires
        symbol_named(v@) is Some,
    ensures
        Some(r) == symbol_named(v@),
        r.text() == v@,
{
    let n = v.unicode_len();
    let mut i: usize = 0;
    while i < SYMBOL_COUNT
        invariant
            i <= SYMBOL_COUNT,
            n == v@.len(),
            symbol_named(v@) is Some,
            symbol_named(v@) == symbol_named_from(v@, i as int),
        decreases SYMBOL_COUNT - i,
    {
        let s = symbol_entry(i);
        let (a, b) = s.glyphs();
        let same = match b {
            Some(c) => n == 2 && v.get_char(0) == a && v.get_char(1) == c,
            None => n == 1 && v.get_char(0) == a,
        };
        proof {
            let t = s.text();
            if same {
                assert(t =~= v@);
            } else {
                assert(t.len() == 1 ==> t[0] == a);
                assert(t.len() == 2 ==> t[0] == a && t[1] == b.unwrap());
                assert(t != v@);
            }
        }
        if same {
            proof {
                lemma_symbol_named_text(v@, 0);
            }
            return s;
        }
        i += 1;
    }
    proof {
        assert(symbol_named_from(v@, SYMBOL_COUNT as int) is None);
    }
    Symbol::CloseBrace
}

} // verus!
