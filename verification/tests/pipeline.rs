use vyasa_compiler::ast::{Block, Expr, Operation};
use vyasa_compiler::token::TokenValue;
use vyasa_compiler::{compile, source_tokens};
use vyasa_compiler::error::{CompileError, ErrorKind};

const TEST_CODE: &str = "x: Num = 1
y = x + 2 * 3
z = \"text\\n\"
big = x > 1 && y <= 2 || z != 3
main = (a b: Num): Num =>
    t = a * b
    t ?
        @ + 1
    !? {
        0
    }
n = 10
n ^ { n = n - 1; n }";

fn text(src: &str) -> String {
    compile(src).unwrap().to_string()
}

fn error(src: &str) -> CompileError {
    match compile(src) {
        Ok(block) => panic!("compiled to {}", block.to_string()),
        Err(e) => e,
    }
}

#[test]
fn it_works() {
    let result = compile(TEST_CODE).unwrap();
    println!("{}", result.to_string());
}

#[test]
fn test_code_compiles_to_the_expected_tree() {
    assert_eq!(
        text(TEST_CODE),
        "[(x: Num = 1), (y = (x + (2 * 3))), (z = \"text\\n\"), \
         (big = (((x > 1) && (y >= 2)) || (z != 3))), \
         (main = (a, b: Num): \"Num\" => [(t = (a * b)), (t? [(@ + 1)]!? [0])]), \
         (n = 10), (n^ [(n = (n - 1)), n])]"
    );
}

#[test]
fn end_to_end_example() {
    let Block(items) = compile("x: Num = 1\ny = x + 2 * 3").unwrap();
    assert_eq!(items.len(), 2);
    match &items[0] {
        Expr::Operation(op) => match &**op {
            Operation::Assign(Expr::Var(v), Expr::LitNum(n, _)) => {
                assert_eq!(v.0 .0, "x");
                assert_eq!(v.1.as_ref().unwrap().0, "Num");
                assert_eq!(n, "1");
                assert_eq!(n.parse::<f64>().unwrap(), 1.0);
            }
            _ => panic!("first statement is no assignment of a number to a variable"),
        },
        _ => panic!("first statement is no operation"),
    }
    match &items[1] {
        Expr::Operation(op) => match &**op {
            Operation::Assign(Expr::Var(y), Expr::Operation(sum)) => {
                assert_eq!(y.0 .0, "y");
                assert!(y.1.is_none());
                match &**sum {
                    Operation::Add(Expr::Var(x), Expr::Operation(product)) => {
                        assert_eq!(x.0 .0, "x");
                        assert!(x.1.is_none());
                        match &**product {
                            Operation::Mul(Expr::LitNum(a, _), Expr::LitNum(b, _)) => {
                                assert_eq!(a, "2");
                                assert_eq!(b, "3");
                            }
                            _ => panic!("right operand of + is no product of two numbers"),
                        }
                    }
                    _ => panic!("right side of = is no sum"),
                }
            }
            _ => panic!("second statement is no assignment"),
        },
        _ => panic!("second statement is no operation"),
    }
}

#[test]
fn assignment_is_right_associative() {
    assert_eq!(text("a = b = c"), "[(a = (b = c))]");
}

#[test]
fn multiplication_binds_tighter_than_addition() {
    assert_eq!(text("1 + 2 * 3"), "[(1 + (2 * 3))]");
    assert_eq!(text("1 * 2 + 3"), "[((1 * 2) + 3)]");
}

#[test]
fn equal_priorities_fold_to_the_left() {
    assert_eq!(text("a - b + c - d"), "[(((a - b) + c) - d)]");
    assert_eq!(text("a / b * c"), "[((a / b) * c)]");
}

#[test]
fn every_band_of_priority_is_respected() {
    assert_eq!(
        text("r = a || b && c | d & e == f < g + h * i"),
        "[(r = (a || (b && (c & (d & (e == (f < (g + (h * i)))))))))]"
    );
    assert_eq!(text("a < b == c > d"), "[((a < b) == (c > d))]");
    assert_eq!(text("a >= b != c <= d"), "[((a <= b) != (c >= d))]");
}

#[test]
fn else_on_its_own_line_after_a_block_joins_the_if() {
    assert_eq!(text("cond ?\n    a\n!? b"), "[(cond? [a]!? b)]");
}

#[test]
fn else_on_its_own_line_after_a_plain_expression_is_an_error() {
    let e = error("cond ? a\n!? b");
    assert_eq!(e.kind, ErrorKind::Syntax);
    assert_eq!(e.position, 9);
}

#[test]
fn else_on_the_same_line_joins_the_if() {
    assert_eq!(text("a ? b !? c"), "[(a? b!? c)]");
    assert_eq!(text("x = a ? b !? c"), "[(x = (a? b!? c))]");
    assert_eq!(text("a ? b !? c ? d"), "[(a? b!? (c? d))]");
    assert_eq!(text("a ? b ? c !? d"), "[(a? (b? c!? d))]");
}

#[test]
fn else_arm_without_an_if_is_dropped() {
    assert_eq!(text("a !? b"), "[a]");
    assert_eq!(text("a !? b = c"), "[a]");
    assert_eq!(text("a ? b !? c !? d"), "[(a? b!? c)]");
    assert_eq!(text("a !? b ? c"), "[a]");
}

#[test]
fn while_and_if_share_the_loosest_band() {
    assert_eq!(text("a ^ b = c ? d"), "[(a^ (b = (c? d)))]");
}

#[test]
fn function_literals() {
    assert_eq!(text("() => 1"), "[() => 1]");
    assert_eq!(text("(a) => a"), "[(a) => a]");
    assert_eq!(text("(a: T b): R => a + b"), "[(a: T, b): \"R\" => (a + b)]");
    assert_eq!(text("f = (a) => (b) => a"), "[(f = (a) => (b) => a)]");
}

#[test]
fn function_with_a_colon_but_no_return_type_is_an_error() {
    assert_eq!(error("(a): 1 => a").kind, ErrorKind::Syntax);
    assert_eq!(error("(a: 1) => a").kind, ErrorKind::Syntax);
}

#[test]
fn calls() {
    assert_eq!(text("f()"), "[f()]");
    assert_eq!(text("f(a)"), "[f(a)]");
    assert_eq!(text("f(a, b + 1)"), "[f(a, (b + 1))]");
    assert_eq!(text("f(a b)"), "[f(a, b)]");
    assert_eq!(text("x = f(g(1), 2) * 3"), "[(x = (f(g(1), 2) * 3))]");
}

#[test]
fn call_without_closing_parenthesis_is_an_error() {
    let e = error("f(a");
    assert_eq!(e.kind, ErrorKind::Syntax);
    assert_eq!(e.position, 1);
}

#[test]
fn blocks() {
    assert_eq!(text("{ a }"), "[[a]]");
    assert_eq!(text("{ a; }"), "[[a]]");
    assert_eq!(text("{ a; b }"), "[[a, b]]");
    assert_eq!(text("{ a; b; }"), "[[a, b]]");
    assert_eq!(text("x = {\n    a\n    b\n}"), "[(x = [a, b])]");
    assert_eq!(text("x =\n    a\n    b"), "[(x = [a, b])]");
    assert_eq!(text("x =\n  a =\n    b\n  c"), "[(x = [(a = [b]), c])]");
    assert_eq!(text("{\n    a\n} + 1"), "[([a] + 1)]");
}

#[test]
fn empty_braces_are_an_error() {
    assert_eq!(error("{ }").kind, ErrorKind::Syntax);
    assert_eq!(error("{ a; b c }").kind, ErrorKind::Syntax);
}

#[test]
fn a_line_without_an_expression_is_an_error() {
    assert_eq!(error(""), CompileError { kind: ErrorKind::Syntax, position: 0 });
    assert_eq!(error("\n\n"), CompileError { kind: ErrorKind::Syntax, position: 2 });
    assert_eq!(error("a\n"), CompileError { kind: ErrorKind::Syntax, position: 2 });
    assert_eq!(error("   a"), CompileError { kind: ErrorKind::Syntax, position: 3 });
}

#[test]
fn deeper_line_that_continues_nothing_is_an_error() {
    assert_eq!(error("x =\n  a\n    b\n  c").kind, ErrorKind::Syntax);
}

#[test]
fn blank_lines_do_not_count() {
    assert_eq!(text("a\n\n\n    \nb"), "[a, b]");
    assert_eq!(text("a\r\nb\rc"), "[a, b, c]");
}

#[test]
fn lexical_error_carries_the_offset_of_the_offending_text() {
    assert_eq!(error("a #"), CompileError { kind: ErrorKind::Lexical, position: 2 });
    assert_eq!(error("#"), CompileError { kind: ErrorKind::Lexical, position: 0 });
    assert_eq!(error("a $ b"), CompileError { kind: ErrorKind::Lexical, position: 2 });
    assert_eq!(error("x = \"open"), CompileError { kind: ErrorKind::Lexical, position: 4 });
    assert_eq!(error("x = \"a\\q\""), CompileError { kind: ErrorKind::Lexical, position: 4 });
}

#[test]
fn syntax_error_carries_the_offset_of_the_unexpected_token() {
    assert_eq!(error("a b"), CompileError { kind: ErrorKind::Syntax, position: 2 });
    assert_eq!(error("x = (1"), CompileError { kind: ErrorKind::Syntax, position: 2 });
    assert_eq!(error("+ 1"), CompileError { kind: ErrorKind::Syntax, position: 0 });
    assert_eq!(error("a\n  b c"), CompileError { kind: ErrorKind::Syntax, position: 4 });
}

#[test]
fn malformed_dedent_example() {
    let e = error("    a\n        b\n      c");
    assert_eq!(e, CompileError { kind: ErrorKind::Indentation, position: 16 });
    assert_eq!(e.message(), "Invalid indention.");
}

#[test]
fn messages_name_the_stage() {
    assert_eq!(error("$").message(), "Unrecognized character sequence.");
    assert_eq!(error("a b").message(), "Unexpected token.");
}

#[test]
fn negative_numbers_are_a_minus_and_a_number() {
    assert_eq!(text("a - 1"), "[(a - 1)]");
    assert_eq!(text("a -1"), "[(a - 1)]");
    assert_eq!(error("-1").kind, ErrorKind::Syntax);
}

#[test]
fn indentation_error_stands_where_the_offending_line_begins() {
    assert_eq!(
        error("a\n    b\n\n\n  c"),
        CompileError { kind: ErrorKind::Indentation, position: 10 }
    );
    assert_eq!(
        error("        a\n    b"),
        CompileError { kind: ErrorKind::Indentation, position: 10 }
    );
}

#[test]
fn spans_of_the_tree_are_offsets_into_the_source() {
    let Block(items) = compile("ab = \"s\" + @\nx: T").unwrap();
    assert_eq!(items.len(), 2);
    match &items[0] {
        Expr::Operation(op) => match &**op {
            Operation::Assign(Expr::Var(v), Expr::Operation(sum)) => {
                assert_eq!(v.0 .1, 0..2);
                match &**sum {
                    Operation::Add(Expr::LitStr(s, r), Expr::LastLine(at)) => {
                        assert_eq!((s.as_str(), r.clone(), at.clone()), ("s", 5..8, 11..12));
                    }
                    _ => panic!("no sum"),
                }
            }
            _ => panic!("no assignment"),
        },
        _ => panic!("no operation"),
    }
    match &items[1] {
        Expr::Var(v) => {
            assert_eq!(v.0 .1, 13..14);
            assert_eq!(v.1.as_ref().unwrap().1, 16..17);
        }
        _ => panic!("no variable"),
    }
}

#[test]
fn source_tokens_carry_offsets_into_the_source() {
    let tokens = source_tokens("  ab\n\n\t1.5 #").err().unwrap();
    assert_eq!(tokens, CompileError { kind: ErrorKind::Lexical, position: 11 });
    let tokens = source_tokens("  ab\n\n\t1.5 == \"s\"").unwrap();
    let seen: Vec<(TokenValue, std::ops::Range<usize>)> =
        tokens.into_iter().map(|t| (t.0, t.1)).collect();
    assert_eq!(
        seen,
        vec![
            (TokenValue::Line(2), 0..2),
            (TokenValue::Ident("ab".to_string()), 2..4),
            (TokenValue::Line(8), 6..7),
            (TokenValue::LitNum("1.5".to_string()), 7..10),
            (TokenValue::Punct(vyasa_compiler::symbol::Symbol::EqEq), 11..13),
            (TokenValue::LitStr("s".to_string()), 14..17),
        ]
    );
    assert_eq!(source_tokens("").unwrap()[0].1, 0..0);
}
