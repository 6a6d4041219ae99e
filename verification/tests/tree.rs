use vyasa_compiler::ast::{clone_expr, Block, Expr, Ident, Operation, VarDef};
use vyasa_compiler::lexer::lexer;
use vyasa_compiler::parser::{
    binary, block, call_expr, expr, func, ident, is_ident, ml_block, non_left_recursive, parser,
    punct, var_def,
};
use vyasa_compiler::reduce::{reduce, reduce_binary, reduce_level, reduce_loose, Term};
use vyasa_compiler::render::{write_expr, write_quoted, write_var_defs};
use vyasa_compiler::symbol::{puncts, BinaryKind, Symbol};
use vyasa_compiler::token::{Token, TokenValue};

fn var(name: &str) -> Expr {
    Expr::Var(VarDef(Ident(name.to_string(), 0..0), None))
}

fn term(op: &str, name: &str) -> Term {
    Term { op: puncts(op), operand: var(name) }
}

fn word(name: &str) -> Token {
    TokenValue::Ident(name.to_string()).token()
}

fn sym(s: &str) -> Token {
    TokenValue::Punct(puncts(s)).token()
}

fn nl() -> Token {
    TokenValue::Line(0).token()
}

fn lexed(src: &str) -> Vec<Token> {
    let chars: Vec<char> = src.chars().collect();
    lexer(&chars).unwrap()
}

fn rendered(r: Option<(Expr, usize)>) -> Option<(String, usize)> {
    r.map(|(e, q)| (e.to_string(), q))
}

#[test]
fn reduce_binary_builds_the_node_of_each_operator() {
    let cases = [
        ("?", "(a? b)"),
        ("^", "(a^ b)"),
        ("=", "(a = b)"),
        ("+", "(a + b)"),
        ("-", "(a - b)"),
        ("*", "(a * b)"),
        ("/", "(a / b)"),
        ("&", "(a & b)"),
        ("|", "(a & b)"),
        ("==", "(a == b)"),
        ("!=", "(a != b)"),
        (">", "(a > b)"),
        ("<", "(a < b)"),
        (">=", "(a <= b)"),
        ("<=", "(a >= b)"),
        ("&&", "(a && b)"),
        ("||", "(a || b)"),
    ];
    for (op, text) in cases {
        assert_eq!(reduce_binary(var("a"), puncts(op), var("b")).to_string(), text);
    }
    match reduce_binary(var("a"), Symbol::Pipe, var("b")) {
        Expr::Operation(o) => assert!(matches!(*o, Operation::BitOr(_, _))),
        _ => panic!("no operation"),
    }
    match reduce_binary(var("a"), Symbol::GreaterEq, var("b")) {
        Expr::Operation(o) => assert!(matches!(*o, Operation::GE(_, _))),
        _ => panic!("no operation"),
    }
}

#[test]
fn symbols_know_their_priority_and_operation() {
    assert_eq!(Symbol::Star.binding(), Some(3));
    assert_eq!(Symbol::Minus.binding(), Some(4));
    assert_eq!(Symbol::LessEq.binding(), Some(6));
    assert_eq!(Symbol::NotEq.binding(), Some(7));
    assert_eq!(Symbol::Amp.binding(), Some(8));
    assert_eq!(Symbol::Pipe.binding(), Some(10));
    assert_eq!(Symbol::AndAnd.binding(), Some(11));
    assert_eq!(Symbol::OrOr.binding(), Some(12));
    assert_eq!(Symbol::Question.binding(), Some(14));
    assert_eq!(Symbol::Else.binding(), Some(14));
    assert_eq!(Symbol::Caret.binding(), Some(14));
    assert_eq!(Symbol::Assign.binding(), Some(14));
    assert_eq!(Symbol::Arrow.binding(), None);
    assert_eq!(Symbol::OpenParen.binding(), None);
    assert_eq!(Symbol::Else.operation(), None);
    assert_eq!(Symbol::Comma.operation(), None);
    assert_eq!(Symbol::Caret.operation(), Some(BinaryKind::While));
    assert_eq!(Symbol::LessEq.operation(), Some(BinaryKind::LE));
}

#[test]
fn one_level_folds_left_and_keeps_the_other_terms() {
    let rest = vec![term("+", "b"), term("*", "c"), term("*", "d"), term("-", "e"), term("/", "f")];
    let (head, rest) = reduce_level(var("a"), rest, 3);
    assert_eq!(head.to_string(), "a");
    let left: Vec<(Symbol, String)> =
        rest.iter().map(|t| (t.op, t.operand.to_string())).collect();
    assert_eq!(
        left,
        vec![
            (Symbol::Plus, "((b * c) * d)".to_string()),
            (Symbol::Minus, "(e / f)".to_string())
        ]
    );
    let (head, rest) = reduce_level(head, rest, 4);
    assert_eq!(head.to_string(), "((a + ((b * c) * d)) - (e / f))");
    assert!(rest.is_empty());
}

#[test]
fn the_loosest_band_folds_right_and_pairs_else_with_if() {
    let rest = vec![term("=", "b"), term("?", "c"), term("!?", "d")];
    assert_eq!(reduce_loose(var("a"), rest).to_string(), "(a = (b? c!? d))");
    let rest = vec![term("?", "b"), term("!?", "c"), term("!?", "d")];
    assert_eq!(reduce_loose(var("a"), rest).to_string(), "(a? b!? c)");
    let rest = vec![term("^", "b"), term("^", "c")];
    assert_eq!(reduce_loose(var("a"), rest).to_string(), "(a^ (b^ c))");
    assert_eq!(reduce_loose(var("a"), vec![]).to_string(), "a");
    assert_eq!(reduce_loose(var("a"), vec![term("!?", "b")]).to_string(), "a");
}

#[test]
fn reduce_goes_through_the_bands_from_tight_to_loose() {
    let rest = vec![
        term("=", "b"),
        term("||", "c"),
        term("&&", "d"),
        term("==", "e"),
        term("+", "f"),
        term("*", "g"),
        term("?", "h"),
        term("!?", "i"),
    ];
    assert_eq!(
        reduce(var("a"), rest).to_string(),
        "(a = ((b || (c && (d == (e + (f * g)))))? h!? i))"
    );
    assert_eq!(reduce(var("a"), vec![]).to_string(), "a");
}

#[test]
fn punct_reads_one_symbol() {
    let tokens = vec![word("a"), Token(TokenValue::Punct(Symbol::Arrow), 4..6)];
    assert_eq!(punct(&tokens, 0, "=>"), None);
    let (t, q) = punct(&tokens, 1, "=>").unwrap();
    assert_eq!(t.0, TokenValue::Punct(Symbol::Arrow));
    assert_eq!(t.1, 4..6);
    assert_eq!(q, 2);
    assert_eq!(punct(&tokens, 1, "="), None);
    assert_eq!(punct(&tokens, 2, "=>"), None);
}

#[test]
fn ident_reads_identifiers_only() {
    let tokens = vec![Token(TokenValue::Ident("ab".to_string()), 2..4), sym("+")];
    let i = ident(&tokens, 0).unwrap();
    assert_eq!((i.0.as_str(), i.1.clone()), ("ab", 2..4));
    assert_eq!(i.to_string(), "ab");
    assert!(ident(&tokens, 1).is_none());
    assert!(ident(&tokens, 2).is_none());
    assert!(is_ident(&tokens, 0));
    assert!(!is_ident(&tokens, 1));
    assert!(!is_ident(&tokens, 2));
}

#[test]
fn var_def_needs_an_identifier_behind_a_colon() {
    let typed = lexed("x: Num");
    let (d, q) = var_def(&typed, 0).unwrap();
    assert_eq!((d.to_string().as_str(), q), ("x: Num", 3));
    let bare = lexed("x y");
    let (d, q) = var_def(&bare, 0).unwrap();
    assert_eq!((d.to_string().as_str(), q), ("x", 1));
    assert!(var_def(&lexed("x: 1"), 0).is_none());
    assert!(var_def(&lexed("1: x"), 0).is_none());
    let dangling = lexed("x:");
    let (d, q) = var_def(&dangling, 0).unwrap();
    assert_eq!((d.to_string().as_str(), q), ("x", 1));
    assert!(var_def(&lexed("x"), 1).is_none());
}

#[test]
fn func_reads_a_function_literal() {
    let tokens = lexed("(a b: T): R => a + b rest");
    assert_eq!(
        rendered(func(&tokens, 0)),
        Some(("(a, b: T): \"R\" => (a + b)".to_string(), 12))
    );
    assert_eq!(rendered(func(&lexed("() => 1"), 0)), Some(("() => 1".to_string(), 4)));
    assert_eq!(rendered(func(&lexed("(a) 1"), 0)), None);
    assert_eq!(rendered(func(&lexed("(a => 1"), 0)), None);
    assert_eq!(rendered(func(&lexed("(a) =>"), 0)), None);
    assert_eq!(rendered(func(&lexed("a => 1"), 0)), None);
    assert_eq!(rendered(func(&lexed("() => 1"), 4)), None);
}

#[test]
fn atoms() {
    assert_eq!(rendered(non_left_recursive(&lexed("@ + 1"), 0)), Some(("@".to_string(), 1)));
    assert_eq!(rendered(non_left_recursive(&lexed("1.5 x"), 0)), Some(("1.5".to_string(), 1)));
    assert_eq!(
        rendered(non_left_recursive(&lexed("\"s\" x"), 0)),
        Some(("\"s\"".to_string(), 1))
    );
    assert_eq!(rendered(non_left_recursive(&lexed("x: T = 1"), 0)), Some(("x: T".to_string(), 3)));
    assert_eq!(rendered(non_left_recursive(&lexed("f(1) + 2"), 0)), Some(("f(1)".to_string(), 4)));
    assert_eq!(rendered(non_left_recursive(&lexed("{ 1 } 2"), 0)), Some(("[1]".to_string(), 3)));
    assert_eq!(rendered(non_left_recursive(&lexed("+ 1"), 0)), None);
    assert_eq!(rendered(non_left_recursive(&lexed(""), 0)), None);
}

#[test]
fn call_reads_juxtaposed_and_comma_separated_arguments() {
    assert_eq!(rendered(call_expr(&lexed("f(a b, c) d"), 0)), Some(("f(a, b, c)".to_string(), 7)));
    assert_eq!(rendered(call_expr(&lexed("f()"), 0)), Some(("f()".to_string(), 3)));
    assert_eq!(rendered(call_expr(&lexed("f (a)"), 0)), Some(("f(a)".to_string(), 4)));
    assert_eq!(rendered(call_expr(&lexed("f(a,, b)"), 0)), None);
    assert_eq!(rendered(call_expr(&lexed("f a"), 0)), None);
    assert_eq!(rendered(call_expr(&lexed("1(a)"), 0)), None);
}

#[test]
fn expressions_stop_where_no_operator_follows() {
    assert_eq!(rendered(binary(&lexed("a + b c"), 0)), Some(("(a + b)".to_string(), 3)));
    assert_eq!(rendered(expr(&lexed("a + b c"), 0)), Some(("(a + b)".to_string(), 3)));
    assert_eq!(rendered(binary(&lexed("a +"), 0)), Some(("a".to_string(), 1)));
    assert_eq!(rendered(binary(&lexed("a + b c"), 2)), Some(("b".to_string(), 3)));
    assert_eq!(rendered(binary(&lexed("a"), 1)), None);
}

#[test]
fn braced_blocks() {
    let indented = vec![
        sym("{"),
        TokenValue::BeginBlock.token(),
        nl(),
        word("a"),
        nl(),
        word("b"),
        TokenValue::EndBlock.token(),
        nl(),
        sym("}"),
    ];
    assert_eq!(rendered(block(&indented, 0)), Some(("[a, b]".to_string(), 9)));
    assert_eq!(rendered(block(&indented, 1)), Some(("[a, b]".to_string(), 7)));
    let without_line_before_brace = vec![
        sym("{"),
        TokenValue::BeginBlock.token(),
        nl(),
        word("a"),
        TokenValue::EndBlock.token(),
        sym("}"),
    ];
    assert_eq!(rendered(block(&without_line_before_brace, 0)), Some(("[[a]]".to_string(), 6)));
    assert_eq!(rendered(block(&lexed("{ a; b; c }"), 0)), Some(("[a, b, c]".to_string(), 7)));
    assert_eq!(rendered(block(&lexed("{ a; b; }"), 0)), Some(("[a, b]".to_string(), 6)));
    assert_eq!(rendered(block(&lexed("{ a b }"), 0)), None);
    assert_eq!(rendered(block(&lexed("{ a"), 0)), None);
    assert_eq!(rendered(block(&lexed("a"), 0)), None);
}

#[test]
fn ml_block_reads_lines_until_one_does_not_fit() {
    let tokens = vec![nl(), word("a"), nl(), word("b"), nl(), sym("+")];
    let (b, q) = ml_block(&tokens, 0);
    assert_eq!((b.to_string().as_str(), q), ("[a, b]", 4));
    let (b, q) = ml_block(&tokens, 1);
    assert_eq!((b.to_string().as_str(), q), ("[]", 1));
    let (b, q) = ml_block(&tokens, 6);
    assert_eq!((b.to_string().as_str(), q), ("[]", 6));
}

#[test]
fn parser_wants_all_tokens() {
    let good = vec![nl(), word("a"), nl(), word("b")];
    assert_eq!(parser(&good).unwrap().to_string(), "[a, b]");
    assert_eq!(parser(&[]).unwrap().to_string(), "[]");
    let bad = vec![nl(), word("a"), Token(TokenValue::Ident("b".to_string()), 7..8)];
    let e = parser(&bad).err().unwrap();
    assert_eq!(e.position, 7);
    let widths_left = vec![Token(TokenValue::Line(4), 3..8), word("a")];
    assert_eq!(parser(&widths_left).err().unwrap().position, 3);
}

#[test]
fn rendering() {
    let call = Expr::Call(Ident("f".to_string(), 0..1), vec![var("a"), Expr::LastLine(0..0)]);
    assert_eq!(call.to_string(), "f(a, @)");
    let nested = Expr::Block(Block(vec![
        Expr::LitNum("1e3".to_string(), 0..0),
        Expr::LitStr("q\"\\\n\r\t\u{8}\u{c}/".to_string(), 0..0),
        Expr::Block(Block(vec![])),
    ]));
    assert_eq!(nested.to_string(), "[1e3, \"q\\\"\\\\\\n\\r\\t\\b\\f/\", []]");
    let op = Operation::IfElse(var("c"), var("t"), var("e"));
    assert_eq!(op.to_string(), "(c? t!? e)");
    assert_eq!(Block(vec![var("a"), var("b")]).to_string(), "[a, b]");
    let f = Expr::Func(Box::new((
        vec![
            VarDef(Ident("a".to_string(), 0..0), Some(Ident("T".to_string(), 0..0))),
            VarDef(Ident("b".to_string(), 0..0), None),
        ],
        None,
        var("a"),
    )));
    assert_eq!(f.to_string(), "(a: T, b) => a");
    let mut out = "x".to_string();
    write_expr(&call, &mut out);
    write_quoted("a\"b", &mut out);
    write_var_defs(&vec![], &mut out);
    assert_eq!(out, "xf(a, @)\"a\\\"b\"");
}

#[test]
fn copies_keep_the_content() {
    let tokens = lexed("(a b: T): R => { f(a, 1.5); \"s\" ? @ !? b }");
    let (e, _) = func(&tokens, 0).unwrap();
    let text = e.to_string();
    assert_eq!(text, "(a, b: T): \"R\" => [f(a, 1.5), (\"s\"? @!? b)]");
    assert_eq!(clone_expr(&e).to_string(), text);
    assert_eq!(e.clone().to_string(), text);
    let b = Block(vec![e]);
    assert_eq!(b.clone().to_string(), format!("[{}]", text));
    let d = VarDef(Ident("x".to_string(), 1..2), Some(Ident("T".to_string(), 4..5)));
    let c = d.clone();
    assert_eq!((c.0 .0.as_str(), c.0 .1.clone()), ("x", 1..2));
    assert_eq!(c.1.as_ref().unwrap().1, 4..5);
    let op = Operation::Add(var("a"), var("b"));
    assert_eq!(op.clone().to_string(), "(a + b)");
}

#[test]
fn tree_nodes_carry_their_spans() {
    let tokens = lexed("ab = \"s\" + 12 * @");
    let (e, q) = binary(&tokens, 0).unwrap();
    assert_eq!(q, 7);
    match e {
        Expr::Operation(o) => match *o {
            Operation::Assign(Expr::Var(v), Expr::Operation(sum)) => {
                assert_eq!(v.0 .1, 0..2);
                match *sum {
                    Operation::Add(Expr::LitStr(s, r), Expr::Operation(product)) => {
                        assert_eq!((s.as_str(), r), ("s", 5..8));
                        match *product {
                            Operation::Mul(Expr::LitNum(n, r), Expr::LastLine(at)) => {
                                assert_eq!((n.as_str(), r, at), ("12", 11..13, 16..17));
                            }
                            _ => panic!("no product"),
                        }
                    }
                    _ => panic!("no sum"),
                }
            }
            _ => panic!("no assignment"),
        },
        _ => panic!("no operation"),
    }
}
