use letterbox::lexer::LBT;
use letterbox::num::Num;

fn num(text: &str) -> Num {
    Num::parse(text).unwrap()
}

#[test]
fn tokens_parse_correctly() {
    let mut lex = LBT::lexer("Sa4.4 Cab P'hello world' Pa i ! This is a comment".trim());
    assert_eq!(lex.next(), Some(LBT::SaveNumber(('a', num("4.4")))));
    assert_eq!(lex.slice(), "Sa4.4");
    assert_eq!(lex.next(), Some(LBT::Copy(('a', 'b'))));
    assert_eq!(lex.slice(), "Cab");
    assert_eq!(lex.next(), Some(LBT::PrintStr(String::from("hello world"))));
    assert_eq!(lex.slice(), "P'hello world'");
    assert_eq!(lex.next(), Some(LBT::PrintVar('a')));
    assert_eq!(lex.slice(), "Pa");
    assert_eq!(lex.next(), Some(LBT::Error));
    assert_eq!(lex.slice(), "i");
    assert_eq!(lex.next(), None);
}

#[test]
fn advanced_tokens() {
    let mut lex = LBT::lexer("MAbcd RA WaIcXzabcd !comment here".trim());
    assert_eq!(lex.next(), Some(LBT::MathOp(('A', 'b', 'c', 'd'))));
    assert_eq!(lex.slice(), "MAbcd");
    assert_eq!(lex.next(), Some(LBT::ResetAll));
    assert_eq!(lex.slice(), "RA");
    assert_eq!(
        lex.next(),
        Some(LBT::WhileLoop((
            'a',
            Box::new(LBT::IfStatement((
                'c',
                Box::new(LBT::Execute(('z', String::from("abcd"))))
            )))
        )))
    );
    assert_eq!(lex.slice(), "WaIcXzabcd");
    assert_eq!(lex.next(), None);
}

#[test]
fn multi_line_comments() {
    let mut lex = LBT::lexer(
        "! This program prints out n fibonacci numbers.
! Works for any number n = 0 or greater.
! Input
Sn0 ! GNn0

! variables
Sa0 Sb1"
            .trim(),
    );
    assert_eq!(lex.next(), Some(LBT::SaveNumber(('n', num("0")))));
    assert_eq!(lex.slice(), "Sn0");
    assert_eq!(lex.next(), Some(LBT::SaveNumber(('a', num("0")))));
    assert_eq!(lex.slice(), "Sa0");
    assert_eq!(lex.next(), Some(LBT::SaveNumber(('b', num("1")))));
    assert_eq!(lex.slice(), "Sb1");
    assert_eq!(lex.next(), None);
}
