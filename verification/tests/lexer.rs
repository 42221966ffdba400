use rpn_core::token::classify;
use rpn_core::token::split_line;
use rpn_core::token::BinKind;
use rpn_core::token::FoldKind;
use rpn_core::token::KeyKind;
use rpn_core::token::Tok;

fn chars(s: &str) -> Vec<char> {
    s.chars().collect()
}

fn class(s: &str) -> Tok {
    classify(&chars(s))
}

#[test]
fn classifies_operators() {
    assert_eq!(class("+"), Tok::Bin(BinKind::Plus));
    assert_eq!(class("-"), Tok::Bin(BinKind::Minus));
    assert_eq!(class("*"), Tok::Bin(BinKind::Times));
    assert_eq!(class("/"), Tok::Bin(BinKind::Slash));
    assert_eq!(class("="), Tok::Assign);
}

#[test]
fn classifies_keywords() {
    assert_eq!(class("clear"), Tok::Key(KeyKind::Clear));
    assert_eq!(class("reset"), Tok::Key(KeyKind::Reset));
    assert_eq!(class("exit"), Tok::Key(KeyKind::Exit));
    assert_eq!(class("print"), Tok::Key(KeyKind::Print));
    assert_eq!(class("dup"), Tok::Key(KeyKind::Dup));
    assert_eq!(class("drop"), Tok::Key(KeyKind::Drop));
    assert_eq!(class("swap"), Tok::Key(KeyKind::Swap));
}

#[test]
fn classifies_folds() {
    assert_eq!(class("sum"), Tok::Fold(FoldKind::Sum));
    assert_eq!(class("prod"), Tok::Fold(FoldKind::Prod));
}

#[test]
fn classifies_numeric_literals() {
    assert_eq!(class("0"), Tok::Num(0.0f64.to_bits()));
    assert_eq!(class("2.5"), Tok::Num(2.5f64.to_bits()));
    assert_eq!(class("-3"), Tok::Num((-3.0f64).to_bits()));
    assert_eq!(class("+4"), Tok::Num(4.0f64.to_bits()));
    assert_eq!(class("1e3"), Tok::Num(1000.0f64.to_bits()));
    assert_eq!(class("2.5e-1"), Tok::Num(0.25f64.to_bits()));
    assert_eq!(class(".5"), Tok::Num(0.5f64.to_bits()));
    assert_eq!(class("5."), Tok::Num(5.0f64.to_bits()));
}

#[test]
fn numeric_literal_is_correctly_rounded() {
    assert_eq!(class("0.1"), Tok::Num(0.1f64.to_bits()));
    assert_eq!(class("1e308"), Tok::Num(1e308f64.to_bits()));
    assert_eq!(class("1e309"), Tok::Num(f64::INFINITY.to_bits()));
}

#[test]
fn classifies_identifiers() {
    assert_eq!(class("x"), Tok::Var(chars("x")));
    assert_eq!(class("abc"), Tok::Var(chars("abc")));
    assert_eq!(class("x1"), Tok::Var(chars("x1")));
    assert_eq!(class("5x"), Tok::Var(chars("5x")));
}

#[test]
fn classifies_invalid_tokens() {
    assert_eq!(class("@@"), Tok::Invalid);
    assert_eq!(class("a-b"), Tok::Invalid);
    assert_eq!(class("1.2.3"), Tok::Invalid);
    assert_eq!(class("=="), Tok::Invalid);
}

#[test]
fn splits_whitespace_delimited_tokens() {
    let toks = split_line(&chars(" 2 3\t/  1 +\n"));
    let words: Vec<Vec<char>> =
        vec![chars("2"), chars("3"), chars("/"), chars("1"), chars("+")];
    assert_eq!(toks, words);
}

#[test]
fn splits_empty_line_to_no_tokens() {
    assert!(split_line(&chars("")).is_empty());
    assert!(split_line(&chars("   \t ")).is_empty());
}

#[test]
fn classifies_infinity_literal() {
    assert_eq!(class("inf"), Tok::Num(f64::INFINITY.to_bits()));
    assert_eq!(class("-inf"), Tok::Num(f64::NEG_INFINITY.to_bits()));
}

#[test]
fn classifies_nan_literal() {
    match class("nan") {
        Tok::Num(b) => assert!(f64::from_bits(b).is_nan()),
        other => panic!("nan classified as {:?}", other),
    }
}
