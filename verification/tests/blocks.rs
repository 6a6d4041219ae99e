use vyasa_compiler::error::{CompileError, ErrorKind};
use vyasa_compiler::lexer::{arrange, lexer};
use vyasa_compiler::token::{Token, TokenValue};

fn line(width: usize, start: usize, end: usize) -> Token {
    Token(TokenValue::Line(width), start..end)
}

fn word(name: &str, start: usize, end: usize) -> Token {
    Token(TokenValue::Ident(name.to_string()), start..end)
}

fn spans(tokens: &[Token]) -> Vec<std::ops::Range<usize>> {
    tokens.iter().map(|t| t.1.clone()).collect()
}

fn values(tokens: Vec<Token>) -> Vec<TokenValue> {
    tokens.into_iter().map(|t| t.0).collect()
}

fn arranged(src: &str) -> Vec<Token> {
    let chars: Vec<char> = src.chars().collect();
    arrange(&lexer(&chars).unwrap()).unwrap()
}

/// Block starts less block ends after each token.
fn depths(tokens: &[Token]) -> Vec<i64> {
    let mut depth = 0;
    let mut out = Vec::new();
    for t in tokens {
        match t.0 {
            TokenValue::BeginBlock => depth += 1,
            TokenValue::EndBlock => depth -= 1,
            _ => {}
        }
        out.push(depth);
    }
    out
}

#[test]
fn deeper_line_opens_a_block_and_shallower_line_closes_it() {
    let input = vec![
        line(0, 0, 1),
        word("x", 1, 2),
        line(4, 2, 7),
        word("y", 7, 8),
        line(0, 8, 9),
        word("z", 9, 10),
    ];
    let out = arrange(&input).unwrap();
    assert_eq!(
        spans(&out),
        vec![0..1, 1..2, 7..7, 2..7, 7..8, 8..8, 8..9, 9..10]
    );
    assert_eq!(
        values(out),
        vec![
            TokenValue::Line(0),
            TokenValue::Ident("x".to_string()),
            TokenValue::BeginBlock,
            TokenValue::Line(0),
            TokenValue::Ident("y".to_string()),
            TokenValue::EndBlock,
            TokenValue::Line(0),
            TokenValue::Ident("z".to_string()),
        ]
    );
}

#[test]
fn one_dedent_can_close_several_blocks() {
    let input = vec![line(2, 0, 3), line(4, 3, 8), line(6, 8, 15), line(2, 15, 18)];
    let out = arrange(&input).unwrap();
    assert_eq!(
        spans(&out),
        vec![3..3, 0..3, 8..8, 3..8, 15..15, 8..15, 15..15, 15..15, 15..18, 18..18]
    );
    assert_eq!(
        values(out),
        vec![
            TokenValue::BeginBlock,
            TokenValue::Line(0),
            TokenValue::BeginBlock,
            TokenValue::Line(0),
            TokenValue::BeginBlock,
            TokenValue::Line(0),
            TokenValue::EndBlock,
            TokenValue::EndBlock,
            TokenValue::Line(0),
            TokenValue::EndBlock,
        ]
    );
}

#[test]
fn open_blocks_are_closed_at_the_end_of_the_last_token() {
    let input = vec![line(4, 0, 5), word("a", 5, 6), line(8, 6, 15), word("b", 15, 17)];
    let out = arrange(&input).unwrap();
    assert_eq!(out.len(), 8);
    assert_eq!(out[6].0, TokenValue::EndBlock);
    assert_eq!(out[6].1, 17..17);
    assert_eq!(out[7].0, TokenValue::EndBlock);
    assert_eq!(out[7].1, 17..17);
}

#[test]
fn block_start_stands_right_behind_the_indentation() {
    let input = vec![line(4, 0, 5), word("a", 5, 6)];
    let out = arrange(&input).unwrap();
    assert_eq!(out[0].0, TokenValue::BeginBlock);
    assert_eq!(out[0].1, 5..5);
    assert_eq!(out[1].0, TokenValue::Line(0));
    assert_eq!(out[1].1, 0..5);
}

#[test]
fn same_width_only_separates() {
    let input = vec![line(3, 0, 4), line(3, 4, 8), line(3, 8, 12)];
    assert_eq!(
        values(arrange(&input).unwrap()),
        vec![
            TokenValue::BeginBlock,
            TokenValue::Line(0),
            TokenValue::Line(0),
            TokenValue::Line(0),
            TokenValue::EndBlock,
        ]
    );
}

#[test]
fn nothing_in_nothing_out() {
    assert_eq!(arrange(&[]).unwrap(), vec![]);
}

#[test]
fn dedent_between_two_open_levels_is_an_error() {
    let input = vec![line(4, 0, 5), line(8, 5, 14), line(6, 14, 21)];
    assert_eq!(
        arrange(&input),
        Err(CompileError { kind: ErrorKind::Indentation, position: 14 })
    );
}

#[test]
fn dedent_below_the_first_level_is_an_error_unless_it_is_to_zero() {
    let to_two = vec![line(4, 0, 5), line(2, 5, 8)];
    assert_eq!(
        arrange(&to_two),
        Err(CompileError { kind: ErrorKind::Indentation, position: 5 })
    );
    let to_zero = vec![line(4, 0, 5), line(0, 5, 6)];
    assert_eq!(
        values(arrange(&to_zero).unwrap()),
        vec![
            TokenValue::BeginBlock,
            TokenValue::Line(0),
            TokenValue::EndBlock,
            TokenValue::Line(0)
        ]
    );
}

#[test]
fn the_error_does_not_depend_on_what_follows() {
    let input = vec![
        line(4, 0, 5),
        line(8, 5, 14),
        line(6, 14, 21),
        line(3, 21, 25),
        word("x", 25, 26),
    ];
    assert_eq!(
        arrange(&input),
        Err(CompileError { kind: ErrorKind::Indentation, position: 14 })
    );
}

#[test]
fn markers_nest() {
    let out = arranged("\na\n  b\n    c\n      d\n  e\n    f\ng\n        h");
    let depth = depths(&out);
    assert!(depth.iter().all(|d| *d >= 0));
    assert_eq!(*depth.last().unwrap(), 0);
    assert_eq!(depth.iter().copied().max(), Some(3));
    let lines = out.iter().filter(|t| matches!(t.0, TokenValue::Line(_))).count();
    assert_eq!(lines, 8);
    assert!(out.iter().all(|t| !matches!(t.0, TokenValue::Line(w) if w != 0)));
}

#[test]
fn tabs_and_spaces_of_the_same_width_are_the_same_level() {
    let out = arranged("\n\ta\n        b\n\tc");
    assert_eq!(
        values(out),
        vec![
            TokenValue::BeginBlock,
            TokenValue::Line(0),
            TokenValue::Ident("a".to_string()),
            TokenValue::Line(0),
            TokenValue::Ident("b".to_string()),
            TokenValue::Line(0),
            TokenValue::Ident("c".to_string()),
            TokenValue::EndBlock,
        ]
    );
}
