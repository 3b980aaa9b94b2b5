use letterbox::argmap::apply_argmap;
use letterbox::lexer::LBT;
use letterbox::num::Num;
use letterbox::program::{run_source, Program};
use letterbox::storage::{is_var, Storage, Val};

fn outcome(src: &str, inv: Vec<String>, limit: usize) -> (Result<(), String>, String) {
    let mut data = Storage::new();
    let mut out = String::new();
    let r = run_source(src, &mut data, &inv, &mut out, limit);
    (r, out)
}

fn ok_out(src: &str) -> String {
    let (r, out) = outcome(src, Vec::new(), 1000);
    assert!(r.is_ok(), "program failed: {:?}", r);
    out
}

fn fails(src: &str, limit: usize) -> String {
    let (r, out) = outcome(src, Vec::new(), limit);
    assert!(r.is_err(), "program should fail: {}", src);
    out
}

#[test]
fn scenario_copy() {
    assert_eq!(ok_out("Sa4 Cab Pb"), "4");
}

#[test]
fn scenario_add() {
    assert_eq!(ok_out("Sa3 Sb2 MAcab Pc"), "5");
}

#[test]
fn scenario_bool_equal() {
    assert_eq!(ok_out("Sa1 Sb'x' BEcab Pc"), "1");
}

#[test]
fn scenario_decrement_loop() {
    assert_eq!(ok_out("Sa10 Sb1 WaMSaab Pa"), "0");
}

#[test]
fn scenario_stored_program() {
    assert_eq!(ok_out("Sf'MAcab' Se2 Sg4 Xfaebgcz Pz"), "6");
}

#[test]
fn scenario_finish() {
    assert_eq!(ok_out("Sa4 Pa F Sa3 Pa"), "4");
}

#[test]
fn unwritten_variables_read_zero() {
    let mut data = Storage::new();
    for c in 'a'..='z' {
        assert_eq!(data.get_var(c), Some(Val::zero()));
    }
    assert_eq!(data.get_var('A'), None);
    assert_eq!(data.get_var('1'), None);
    assert!(is_var(&'q'));
    assert!(!is_var(&'Q'));
}

#[test]
fn reset_all_reads_zero() {
    let mut data = Storage::new();
    data.set_var('a', &Val::Number(Num::parse("2").unwrap())).unwrap();
    data.set_var('z', &Val::Text(String::from("hi"))).unwrap();
    data.reset_all().unwrap();
    for c in 'a'..='z' {
        assert_eq!(data.get_var(c), Some(Val::zero()));
    }
    assert_eq!(ok_out("Sa1 Sz'q' RA Pa Pz"), "00");
}

#[test]
fn store_operations() {
    let mut data = Storage::new();
    assert!(data.set_var('B', &Val::zero()).is_err());
    data.set_var('b', &Val::Text(String::from("x"))).unwrap();
    data.copy('b', 'c').unwrap();
    assert_eq!(data.get_var('c'), Some(Val::Text(String::from("x"))));
    assert!(data.copy('b', '!').is_err());
    assert!(data.copy('%', 'c').is_err());
    data.reset_var('b').unwrap();
    assert_eq!(data.get_var('b'), Some(Val::zero()));
    assert_eq!(data.var_as_bool('?'), None);
}

#[test]
fn truthiness() {
    let mut data = Storage::new();
    data.set_var('a', &Val::Text(String::new())).unwrap();
    assert_eq!(data.var_as_bool('a'), Some(true));
    data.set_var('a', &Val::Number(Num::parse("0").unwrap())).unwrap();
    assert_eq!(data.var_as_bool('a'), Some(false));
    data.set_var('a', &Val::Number(Num::parse("-0.5").unwrap())).unwrap();
    assert_eq!(data.var_as_bool('a'), Some(true));
    assert_eq!(ok_out("Sa'' Sb'yes' IaPb"), "yes");
    assert_eq!(ok_out("Sa0 Sb'yes' IaPb"), "");
}

#[test]
fn loop_counts() {
    assert_eq!(ok_out("Sa0 Sb4 LaPb"), "");
    assert_eq!(ok_out("Sa-2.5 Sb4 LaPb"), "");
    assert_eq!(ok_out("Sa3.9 Sb4 LaPb"), "444");
    assert_eq!(ok_out("Sa0.9 Sb4 LaPb"), "");
}

#[test]
fn while_checks_before_first_round() {
    assert_eq!(ok_out("Sa0 Sb'x' WaPb"), "");
    assert_eq!(ok_out("Sa3 Sb1 Sc'y' WaMSaab Pa"), "0");
    assert_eq!(ok_out("Sa2 Sb1 Sd'Pa MSaab' WaXd"), "21");
}

#[test]
fn substitution_keeps_quoted_text() {
    let raw = String::from("Sr'ab' Pr Pa");
    let map = String::from("az");
    assert_eq!(apply_argmap(&raw, &map), "Sr'ab' Pr Pz");
    let mut data = Storage::new();
    data.set_var('f', &Val::Text(String::from("Sr'ab' Pr"))).unwrap();
    let mut out = String::new();
    let r = run_source("Xfaz", &mut data, &Vec::new(), &mut out, 1000);
    assert!(r.is_ok());
    assert_eq!(out, "ab");
}

#[test]
fn substitution_rewrites_letters() {
    let raw = String::from("MAcab");
    assert_eq!(apply_argmap(&raw, &String::from("aebgcz")), "MAzeg");
    assert_eq!(apply_argmap(&raw, &String::from("abbc")), "MAccc");
    assert_eq!(apply_argmap(&String::from("P'a' 'b"), &String::from("bx")), "P'a' 'x");
    assert_eq!(apply_argmap(&raw, &String::new()), "MAcab");
}

#[test]
fn number_formulas() {
    assert_eq!(ok_out("Sa1 Sb3 MDcab Pc"), "0.333333333");
    assert_eq!(ok_out("Sa-7 Sb3 MRcab Pc"), "-1");
    assert_eq!(ok_out("Sa7 Sb-3 MRcab Pc"), "1");
    assert_eq!(ok_out("Sa2.5 Sb-2 MMcab Pc"), "-5");
    assert_eq!(ok_out("Sa-2.5 Sb-2 MDcab Pc"), "1.25");
    assert_eq!(ok_out("Sa0.1 Sb0.2 MAcab Pc"), "0.3");
    assert_eq!(ok_out("Sa0.000000001 Pa"), "0.000000001");
    assert_eq!(ok_out("Sa0.1234567891 Pa"), "0.123456789");
    assert_eq!(ok_out("Sa-0 Pa"), "0");
    assert_eq!(ok_out("Sa100000000000000000000 Pa"), "100000000000000000000");
}

#[test]
fn number_values() {
    let n = Num::parse("-12.5").unwrap();
    assert_eq!(n.billionths(), -12500000000);
    assert_eq!(Num::parse("+3").unwrap().billionths(), 3000000000);
    assert_eq!(Num::parse("1.").map(|n| n.billionths()), None);
    assert_eq!(Num::parse(".5").map(|n| n.billionths()), None);
    assert_eq!(Num::parse("abc").map(|n| n.billionths()), None);
    assert_eq!(Num::parse("100000000000000000001").map(|n| n.billionths()), None);
    assert_eq!(Num::parse("3.9").unwrap().count(), 3);
    assert_eq!(Num::parse("-3.9").unwrap().count(), 0);
    assert_eq!(Num::from_billionths(1).unwrap().billionths(), 1);
    let mut s = String::new();
    Num::parse("-0.50").unwrap().write_to(&mut s);
    assert_eq!(s, "-0.5");
}

#[test]
fn arithmetic_errors() {
    assert_eq!(fails("Sa1 Sb0 MDcab Pc", 1000), "");
    assert_eq!(fails("Sa1 Sb0 MRcab Pc", 1000), "");
    assert_eq!(fails("Sa'x' Sb1 MAcab", 1000), "");
    assert_eq!(fails("Sa1 Sb'y' MAcab", 1000), "");
    assert_eq!(fails("MZcab", 1000), "");
    assert_eq!(fails("BZcab", 1000), "");
    assert_eq!(
        fails("Sa100000000000000000000 MMbaa Pb", 1000),
        ""
    );
    assert_eq!(fails("Sa100000000000000000000 MAbaa Pb", 1000), "");
}

#[test]
fn unrecognized_text_fails_after_earlier_effects() {
    assert_eq!(fails("Sa1 Pa Z Pa", 1000), "1");
    assert_eq!(fails("Arc Pr", 1000), "");
    assert_eq!(fails("UaPb", 1000), "");
    assert_eq!(fails("Sa1 LaZ", 1000), "");
    assert_eq!(ok_out("Sa0 LaZ"), "");
}

#[test]
fn loop_limits() {
    assert_eq!(fails("Sa11 Sb'x' LaPb", 10), "");
    let (r, out) = outcome("Sa10 Sb'x' LaPb", Vec::new(), 10);
    assert!(r.is_ok());
    assert_eq!(out, "xxxxxxxxxx");
    assert_eq!(fails("Sa1 Sb'z' WaPb", 3), "zzz");
    assert_eq!(fails("Sf'Xf' Xf", 5), "");
    assert_eq!(fails("Sf'P'x' Xf'", 1000), "");
}

#[test]
fn input_errors() {
    let (r, out) = outcome("GNa2 Pa", vec!["1".to_string()], 1000);
    assert!(r.is_err());
    assert_eq!(out, "");
    let (r, _) = outcome("GNa0", vec!["pizza".to_string()], 1000);
    assert!(r.is_err());
    let (r, _) = outcome("GXa0", vec!["1".to_string()], 1000);
    assert!(r.is_err());
    let (r, out) = outcome("GNa0 Pa", vec!["-2.25".to_string()], 1000);
    assert!(r.is_ok());
    assert_eq!(out, "-2.25");
}

#[test]
fn execute_errors() {
    assert_eq!(fails("Sf3 Xf", 1000), "");
    assert_eq!(fails("Xf", 1000), "");
}

#[test]
fn shared_store_across_calls() {
    assert_eq!(ok_out("Sf'Sz9' Xf Pz"), "9");
    assert_eq!(ok_out("Sf'F' Xf P'after'"), "after");
}

#[test]
fn stepping() {
    let mut data = Storage::new();
    let mut out = String::new();
    let inv: Vec<String> = Vec::new();
    let mut program = Program::new(LBT::lexer("Sa2 Pa F Pa"), 1000).unwrap();
    assert!(program.step(&mut data, &inv, &mut out).is_ok());
    assert!(!program.is_finished());
    assert!(program.step(&mut data, &inv, &mut out).is_ok());
    assert_eq!(out, "2");
    assert!(program.step(&mut data, &inv, &mut out).is_ok());
    assert!(program.is_finished());
    assert!(program.step(&mut data, &inv, &mut out).is_err());
    assert!(program.run(&mut data, &inv, &mut out).is_ok());
    assert_eq!(out, "2");
}

#[test]
fn empty_program() {
    assert_eq!(ok_out(""), "");
    assert_eq!(ok_out("  ! only a comment"), "");
}

#[test]
fn lexer_edges() {
    let mut lex = LBT::lexer("Sa5. Xab Sa'x");
    assert_eq!(lex.next(), Some(LBT::SaveNumber(('a', Num::parse("5").unwrap()))));
    assert_eq!(lex.next(), Some(LBT::Error));
    assert_eq!(lex.slice(), ".");
    assert_eq!(lex.next(), Some(LBT::Execute(('a', String::new()))));
    assert_eq!(lex.next(), Some(LBT::Error));
    assert_eq!(lex.slice(), "b");
    assert_eq!(lex.next(), Some(LBT::Error));
    assert_eq!(lex.slice(), "S");
    let mut lex = LBT::lexer("GNb12 LaPbPc");
    assert_eq!(lex.next(), Some(LBT::GetInput(('N', 'b', 12))));
    assert_eq!(
        lex.next(),
        Some(LBT::Loop(('a', Box::new(LBT::PrintVar('b')))))
    );
    assert_eq!(lex.slice(), "LaPbPc");
    assert_eq!(lex.next(), None);
}
