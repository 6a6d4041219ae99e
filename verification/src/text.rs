//! Characters and character classes, and the few operations on text that the
//! tokenizer and the renderer share.

use vstd::prelude::*;

verus! {

/// `String::push` of the standard library: the character is added at the end
/// and nothing else changes.
pub assume_specification[ String::push ](s: &mut String, ch: char)
    ensures
        final(s)@ == old(s)@.push(ch),
;

/// The classes of characters of which the tokenizer reads whole runs.
#[derive(Clone, Copy, Debug, PartialEq, Eq, Structural)]
pub enum CharClass {
    /// Space and tab.
    Space,
    /// The ten decimal digits.
    Digit,
    /// What an identifier is made of behind its first character: ASCII
    /// letters, digits and the underscore.
    Word,
}

/// Space or tab.
pub open spec fn is_space(c: char) -> bool {
    c == ' ' || c == '\t'
}

/// Line feed or carriage return.
pub open spec fn is_newline(c: char) -> bool {
    c == '\n' || c == '\r'
}

/// A decimal digit.
pub open spec fn is_digit(c: char) -> bool {
    '0' <= c && c <= '9'
}

/// What an identifier can start with: an ASCII letter or the underscore.
pub open spec fn is_word_start(c: char) -> bool {
    ('a' <= c && c <= 'z') || ('A' <= c && c <= 'Z') || c == '_'
}

/// Membership in a character class.
pub open spec fn in_class(class: CharClass, c: char) -> bool {
    match class {
        CharClass::Space => is_space(c),
        CharClass::Digit => is_digit(c),
        CharClass::Word => is_word_start(c) || is_digit(c),
    }
}

/// Where the longest run of characters of `class` that starts at `p` ends.
pub open spec fn run_end(s: Seq<char>, p: int, class: CharClass) -> int
    decreases s.len() - p,
{
    if 0 <= p < s.len() && in_class(class, s[p]) {
        run_end(s, p + 1, class)
    } else {
        p
    }
}

/// A run ends at or behind its start, inside the text, and holds only
/// characters of its class; the character behind it is of another class.
pub proof fn lemma_run_end(s: Seq<char>, p: int, class: CharClass)
    requires
        0 <= p <= s.len(),
    ensures
        p <= run_end(s, p, class) <= s.len(),
        forall|i: int| p <= i < run_end(s, p, class) ==> in_class(class, #[trigger] s[i]),
        run_end(s, p, class) < s.len() ==> !in_class(class, s[run_end(s, p, class)]),
    decreases s.len() - p,
{
    if p < s.len() && in_class(class, s[p]) {
        lemma_run_end(s, p + 1, class);
    }
}

/// A run ends at or behind its start, wherever it starts.
pub proof fn lemma_run_end_from(s: Seq<char>, p: int, class: CharClass)
    ensures
        p <= run_end(s, p, class),
    decreases s.len() - p,
{
    if 0 <= p < s.len() && in_class(class, s[p]) {
        lemma_run_end_from(s, p + 1, class);
    }
}

/// A run that ends inside a part of the text is the same run in the part
/// alone.
pub proof fn lemma_run_end_in_part(s: Seq<char>, p: int, e: int, i: int, class: CharClass)
    requires
        0 <= p <= p + i <= e <= s.len(),
        run_end(s, p + i, class) <= e,
    ensures
        run_end(s.subrange(p, e), i, class) == run_end(s, p + i, class) - p,
    decreases e - (p + i),
{
    let part = s.subrange(p, e);
    lemma_run_end(s, p + i, class);
    if p + i < e {
        assert(part[i] == s[p + i]);
        if in_class(class, s[p + i]) {
            lemma_run_end_in_part(s, p, e, i + 1, class);
        }
    }
}

/// Executable form of [`is_space`].
pub fn space_char(c: char) -> (r: bool)
    ensures
        r == is_space(c),
{
    c == ' ' || c == '\t'
}

/// Executable form of [`is_newline`].
pub fn newline_char(c: char) -> (r: bool)
    ensures
        r == is_newline(c),
{
    c == '\n' || c == '\r'
}

/// Executable form of [`is_digit`].
pub fn digit(c: char) -> (r: bool)
    ensures
        r == is_digit(c),
{
    '0' <= c && c <= '9'
}

/// Executable form of [`is_word_start`].
pub fn word_start(c: char) -> (r: bool)
    ensures
        r == is_word_start(c),
{
    ('a' <= c && c <= 'z') || ('A' <= c && c <= 'Z') || c == '_'
}

/// Executable form of [`in_class`].
pub fn belongs(class: CharClass, c: char) -> (r: bool)
    ensures
        r == in_class(class, c),
{
    match class {
        CharClass::Space => space_char(c),
        CharClass::Digit => digit(c),
        CharClass::Word => word_start(c) || digit(c),
    }
}

/// Finds the end of the run of `class` that starts at `start`.
pub fn scan_run(input: &[char], start: usize, class: CharClass) -> (end: usize)
    requires
        start <= input@.len(),
    ensures
        end == run_end(input@, start as int, class),
        start <= end <= input@.len(),
{
    let mut pos = start;
    while pos < input.len() && belongs(class, input[pos])
        invariant
            start <= pos <= input@.len(),
            run_end(input@, start as int, class) == run_end(input@, pos as int, class),
        decreases input@.len() - pos,
    {
        pos += 1;
    }
    pos
}

/// The characters of `input` from `from` up to `to`, as a string.
pub fn text_of(input: &[char], from: usize, to: usize) -> (r: String)
    requires
        from <= to <= input@.len(),
    ensures
        r@ == input@.subrange(from as int, to as int),
{
    let mut out = String::new();
    let mut i = from;
    while i < to
        invariant
            from <= i <= to <= input@.len(),
            out@ == input@.subrange(from as int, i as int),
        decreases to - i,
    {
        out.push(input[i]);
        proof {
            assert(input@.subrange(from as int, i as int).push(input@[i as int])
                =~= input@.subrange(from as int, i + 1));
        }
        i += 1;
    }
    out
}

/// The characters of `s`, one by one.
pub fn chars_of(s: &str) -> (r: Vec<char>)
    ensures
        r@ == s@,
{
    let mut out: Vec<char> = Vec::new();
    for c in it: s.chars()
        invariant
            out@ == it.seq().take(it.index() as int),
    {
        out.push(c);
    }
    out
}

} // verus!
