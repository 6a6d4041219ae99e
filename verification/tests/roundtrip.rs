use vyasa_compiler::ast::Expr;
use vyasa_compiler::compile;
use vyasa_compiler::lexer::lexer;
use vyasa_compiler::token::TokenValue;

fn relex(text: &str) -> Vec<(TokenValue, std::ops::Range<usize>)> {
    let chars: Vec<char> = text.chars().collect();
    lexer(&chars).unwrap().into_iter().map(|t| (t.0, t.1)).collect()
}

fn number_comes_back(text: &str) {
    let rendered = Expr::LitNum(text.to_string(), 0..0).to_string();
    assert_eq!(rendered, text);
    assert_eq!(relex(&rendered), vec![(TokenValue::LitNum(text.to_string()), 0..text.len())]);
}

fn string_comes_back(s: &str) {
    let rendered = Expr::LitStr(s.to_string(), 0..0).to_string();
    let n = rendered.chars().count();
    assert_eq!(relex(&rendered), vec![(TokenValue::LitStr(s.to_string()), 0..n)]);
}

#[test]
fn rendered_number_is_read_back() {
    number_comes_back("3.14");
    number_comes_back("0");
    number_comes_back("10");
    number_comes_back("0.5e-7");
    number_comes_back("6E23");
    assert_eq!("3.14".parse::<f64>().unwrap(), 3.14);
}

#[test]
fn rendered_string_is_read_back() {
    string_comes_back("a\nb");
    string_comes_back("");
    string_comes_back("\"quoted\" and \\ and /");
    string_comes_back("\u{8}\u{c}\n\r\t");
    string_comes_back("\u{0}\u{1b}\u{e9}\u{1f600}'");
    assert_eq!(Expr::LitStr("a\nb".to_string(), 0..0).to_string(), "\"a\\nb\"");
}

#[test]
fn parsed_literals_are_read_back_from_their_rendering() {
    let block = compile("3.14\n\"a\\nb\"").unwrap();
    let texts: Vec<String> = block.0.iter().map(|e| e.to_string()).collect();
    assert_eq!(texts, vec!["3.14".to_string(), "\"a\\nb\"".to_string()]);
    assert_eq!(relex(&texts[0])[0].0, TokenValue::LitNum("3.14".to_string()));
    assert_eq!(relex(&texts[1])[0].0, TokenValue::LitStr("a\nb".to_string()));
}

#[test]
fn rendered_float_is_read_back_bit_for_bit() {
    let values = [
        0.0,
        1.0,
        3.14,
        0.1,
        1e-7,
        1e21,
        123456789.125,
        f64::MAX,
        f64::MIN_POSITIVE,
        5e-324,
        f64::EPSILON,
    ];
    for n in values {
        let rendered = format!("{:?}", n);
        let tokens = relex(&rendered);
        assert_eq!(tokens.len(), 1);
        assert_eq!(tokens[0].1, 0..rendered.len());
        match &tokens[0].0 {
            TokenValue::LitNum(text) => {
                assert_eq!(Expr::LitNum(text.clone(), 0..0).to_string(), rendered);
                assert_eq!(text.parse::<f64>().unwrap().to_bits(), n.to_bits());
            }
            _ => panic!("{} is read as no number", rendered),
        }
    }
}
