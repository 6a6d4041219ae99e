use vyasa_compiler::error::{CompileError, ErrorKind};
use vyasa_compiler::lexer;
use vyasa_compiler::lexer::{ident, lexer, lit_number, lit_string, punct, space, with_pos};
use vyasa_compiler::symbol::{puncts, Symbol};
use vyasa_compiler::text::{chars_of, scan_run, text_of, CharClass};
use vyasa_compiler::token::{Token, TokenValue};

fn chars(s: &str) -> Vec<char> {
    s.chars().collect()
}

fn lex(s: &str) -> Vec<Token> {
    lexer(&chars(s)).unwrap()
}

fn values(s: &str) -> Vec<TokenValue> {
    lex(s).into_iter().map(|t| t.0).collect()
}

fn id(s: &str) -> TokenValue {
    TokenValue::Ident(s.to_string())
}

fn num(s: &str) -> TokenValue {
    TokenValue::LitNum(s.to_string())
}

fn string(s: &str) -> TokenValue {
    TokenValue::LitStr(s.to_string())
}

fn sym(s: &str) -> TokenValue {
    TokenValue::Punct(puncts(s))
}

#[test]
fn two_spaces_and_a_tab_are_ten_wide() {
    let tokens = lex("\n  \tx");
    assert_eq!(tokens.len(), 2);
    assert_eq!(tokens[0].0, TokenValue::Line(10));
    assert_eq!(tokens[0].1, 1..4);
    assert_eq!(tokens[1].0, id("x"));
    assert_eq!(tokens[1].1, 4..5);
}

#[test]
fn width_counts_spaces_once_and_tabs_eight_times() {
    assert_eq!(lexer::line(&chars("\n"), 0), Some((0, 1, 1)));
    assert_eq!(lexer::line(&chars("\n "), 0), Some((1, 1, 2)));
    assert_eq!(lexer::line(&chars("\n\t"), 0), Some((8, 1, 2)));
    assert_eq!(lexer::line(&chars("\n\t\t   \tx"), 0), Some((27, 1, 7)));
    assert_eq!(lexer::line(&chars("a\n\n  \r\n \tb"), 1), Some((9, 7, 9)));
    assert_eq!(lexer::line(&chars("x\n"), 0), None);
    assert_eq!(lexer::line(&chars("\n"), 1), None);
}

#[test]
fn only_the_last_of_several_blank_lines_counts() {
    assert_eq!(values("\n\n      \n  x"), vec![TokenValue::Line(2), id("x")]);
    assert_eq!(lex("\n\n      \n  x")[0].1, 9..11);
    assert_eq!(values("a\r\n b"), vec![id("a"), TokenValue::Line(1), id("b")]);
    assert_eq!(values("a\r    \n\tb"), vec![id("a"), TokenValue::Line(8), id("b")]);
}

#[test]
fn spaces_between_tokens_are_skipped() {
    assert_eq!(values("  a \t b  "), vec![id("a"), id("b")]);
    assert_eq!(values(""), vec![]);
    assert_eq!(values(" \t "), vec![]);
    assert_eq!(space(&chars("  \t x"), 0), 4);
    assert_eq!(space(&chars("x  "), 0), 0);
    assert_eq!(space(&chars("x  "), 3), 3);
}

#[test]
fn identifiers() {
    assert_eq!(values("_a1 B_2 c"), vec![id("_a1"), id("B_2"), id("c")]);
    assert_eq!(ident(&chars("abc1+"), 0), Some(("abc1".to_string(), 4)));
    assert_eq!(ident(&chars("1abc"), 0), None);
    assert_eq!(ident(&chars("a"), 1), None);
}

#[test]
fn symbols_of_two_characters_win_over_their_first_character() {
    assert_eq!(values("a==b"), vec![id("a"), sym("=="), id("b")]);
    assert_eq!(values("<=="), vec![sym("<="), sym("=")]);
    assert_eq!(values("=>="), vec![sym("=>"), sym("=")]);
    assert_eq!(values("!?!="), vec![sym("!?"), sym("!=")]);
    assert_eq!(values("&&&|||"), vec![sym("&&"), sym("&"), sym("||"), sym("|")]);
    assert_eq!(punct(&chars("=>"), 0), Some((Symbol::Arrow, 2)));
    assert_eq!(punct(&chars("=>"), 1), Some((Symbol::Greater, 2)));
    assert_eq!(punct(&chars("a"), 0), None);
    assert_eq!(punct(&chars("="), 1), None);
}

#[test]
fn every_symbol_is_read_as_itself() {
    let all = [
        "==", "!=", "<=", ">=", "=>", "!?", "&&", "||", ";", ":", "?", "^", ",", "(", ")", "+",
        "-", "*", "/", "&", "|", ">", "<", "=", ".", "@", "[", "]", "{", "}",
    ];
    for s in all {
        assert_eq!(values(s), vec![sym(s)]);
        let (a, b) = puncts(s).glyphs();
        let mut text = a.to_string();
        if let Some(c) = b {
            text.push(c);
        }
        assert_eq!(text, s);
    }
}

#[test]
fn a_lone_exclamation_mark_is_no_token() {
    assert_eq!(
        lexer(&chars("a ! b")),
        Err(CompileError { kind: ErrorKind::Lexical, position: 2 })
    );
}

#[test]
fn strings_resolve_their_escapes() {
    assert_eq!(values("\"a\\nb\""), vec![string("a\nb")]);
    assert_eq!(
        values("\"\\\\ \\/ \\\" \\b \\f \\n \\r \\t\""),
        vec![string("\\ / \" \u{8} \u{c} \n \r \t")]
    );
    assert_eq!(values("\"\""), vec![string("")]);
    assert_eq!(values("\"two\nlines\""), vec![string("two\nlines")]);
    assert_eq!(lit_string(&chars("x\"ab\"y"), 1), Some(("ab".to_string(), 5)));
    assert_eq!(lit_string(&chars("\"ab"), 0), None);
    assert_eq!(lit_string(&chars("\"a\\"), 0), None);
    assert_eq!(lit_string(&chars("\"a\\x\""), 0), None);
    assert_eq!(lit_string(&chars("ab\""), 0), None);
}

#[test]
fn numbers_keep_their_text() {
    assert_eq!(values("0"), vec![num("0")]);
    assert_eq!(values("12.5"), vec![num("12.5")]);
    assert_eq!(values("1e5 2E-3 3.25e+10"), vec![num("1e5"), num("2E-3"), num("3.25e+10")]);
    assert_eq!(values("01"), vec![num("0"), num("1")]);
    assert_eq!(values("1."), vec![num("1"), sym(".")]);
    assert_eq!(values("1.e5"), vec![num("1"), sym("."), id("e5")]);
    assert_eq!(values("1e"), vec![num("1"), id("e")]);
    assert_eq!(values("1e+"), vec![num("1"), id("e"), sym("+")]);
    assert_eq!(values("-5"), vec![sym("-"), num("5")]);
    assert_eq!(lit_number(&chars("-5.5x"), 0), Some(("-5.5".to_string(), 4)));
    assert_eq!(lit_number(&chars("x"), 0), None);
    assert_eq!(lit_number(&chars("-"), 0), None);
    assert_eq!(lit_number(&chars("5"), 1), None);
    assert_eq!("3.25e+10".parse::<f64>().unwrap(), 32500000000.0);
}

#[test]
fn every_token_carries_the_span_it_was_read_from() {
    let tokens = lex("\nab = \"x\" + 1.5");
    let spans: Vec<_> = tokens.iter().map(|t| t.1.clone()).collect();
    assert_eq!(spans, vec![1..1, 1..3, 4..5, 6..9, 10..11, 12..15]);
    assert_eq!(
        tokens,
        vec![
            TokenValue::Line(0).token(),
            id("ab").token(),
            sym("=").token(),
            string("x").token(),
            sym("+").token(),
            num("1.5").token()
        ]
    );
}

#[test]
fn with_pos_tries_the_kinds_in_order() {
    let input = chars("\n a=\"s\"-1");
    let (t, e) = with_pos(&input, 0).unwrap();
    assert_eq!((t.0, t.1, e), (TokenValue::Line(1), 1..2, 2));
    let (t, e) = with_pos(&input, 2).unwrap();
    assert_eq!((t.0, t.1, e), (id("a"), 2..3, 3));
    let (t, e) = with_pos(&input, 3).unwrap();
    assert_eq!((t.0, t.1, e), (sym("="), 3..4, 4));
    let (t, e) = with_pos(&input, 4).unwrap();
    assert_eq!((t.0, t.1, e), (string("s"), 4..7, 7));
    let (t, e) = with_pos(&input, 7).unwrap();
    assert_eq!((t.0, t.1, e), (sym("-"), 7..8, 8));
    let (t, e) = with_pos(&input, 8).unwrap();
    assert_eq!((t.0, t.1, e), (num("1"), 8..9, 9));
    assert!(with_pos(&input, 9).is_none());
    assert!(with_pos(&chars("#"), 0).is_none());
}

#[test]
fn lexical_error_behind_skipped_spaces() {
    assert_eq!(
        lexer(&chars("ab   #")),
        Err(CompileError { kind: ErrorKind::Lexical, position: 5 })
    );
    assert_eq!(
        lexer(&chars("\"never closed")),
        Err(CompileError { kind: ErrorKind::Lexical, position: 0 })
    );
}

#[test]
fn text_helpers() {
    assert_eq!(chars_of("a\u{e9}b"), vec!['a', '\u{e9}', 'b']);
    assert_eq!(text_of(&chars("hello"), 1, 4), "ell");
    assert_eq!(text_of(&chars("hello"), 2, 2), "");
    assert_eq!(scan_run(&chars("12a"), 0, CharClass::Digit), 2);
    assert_eq!(scan_run(&chars("a_1-"), 0, CharClass::Word), 3);
    assert_eq!(scan_run(&chars(" \t\n"), 0, CharClass::Space), 2);
    assert_eq!(scan_run(&chars("ab"), 2, CharClass::Word), 2);
}

#[test]
fn token_equality_ignores_the_span() {
    let a = Token(id("x"), 3..4);
    let b = id("x").token();
    assert!(a == b);
    assert_eq!(b.1, 0..0);
    let c = a.clone();
    assert!(c == a);
    assert_eq!(c.1, 3..4);
    assert!(a != id("y").token());
    assert!(num("1") != string("1"));
    assert!(TokenValue::Line(0) != TokenValue::Line(4));
    assert!(TokenValue::BeginBlock != TokenValue::EndBlock);
    assert!(sym("+") == sym("+"));
}
