use letterbox::lexer::LBT;
use letterbox::program::Program;
use letterbox::storage::Storage;

fn run_with(src: &str, inv: Vec<String>) -> String {
    let mut data = Storage::new();
    let mut out = String::new();
    let mut program = Program::new(LBT::lexer(src), 1000).expect("Program init failed");
    let result = program.run(&mut data, &inv, &mut out);
    if let Err(msg) = result {
        panic!("Program failed: {}", msg);
    }
    out
}

fn run_out(src: &str) -> String {
    run_with(src, Vec::new())
}

#[test]
fn print_store_copy() {
    assert_eq!(run_out("Sb3"), "");
    assert_eq!(run_out("Sa4 Cab Pb"), "4");
    assert_eq!(run_out("Sa5.5 Pa"), "5.5");
    assert_eq!(run_out("Sa-6 Pa"), "-6");
    assert_eq!(run_out("Sa-6.5 Pa"), "-6.5");
    assert_eq!(run_out("P'Hello world'"), "Hello world");
    assert_eq!(run_out("Sz'This is a test' Pz"), "This is a test");
}

#[test]
fn reset_var() {
    assert_eq!(run_out("Ra"), "");
    assert_eq!(run_out("Pb P' ' Sb3 Pb Rb P' ' Pb"), "0 3 0");
    assert_eq!(run_out("Rb Pb"), "0");
}

#[test]
fn reset_all() {
    assert_eq!(run_out("RA"), "");
    assert_eq!(run_out("Sa1 Sb2 Sc'3' RA Pa Pb Pc"), "000");
}

#[test]
fn discrete_loop() {
    assert_eq!(run_out("Sa3 Sb4 LaPb"), "444");
    assert_eq!(run_out("Sa2 Sd11 LdMAbab Pb"), "22");
}

#[test]
fn while_loop() {
    assert_eq!(run_out("Sa10 Sb1 WaMSaab Pa"), "0");
}

#[test]
fn if_statement() {
    assert_eq!(run_out("IaPb"), "");
    assert_eq!(run_out("Sa0.0 Sb1 IaPb"), "");
    assert_eq!(run_out("Sa10 Sb2 IaPb"), "2");
    assert_eq!(run_out("Sa10 Sb2 MGcab IcPb"), "2");
    assert_eq!(run_out("Sa10 Sb2 MLcab IcPb"), "");
}

#[test]
fn negate() {
    assert_eq!(run_out("Na"), "");
    assert_eq!(run_out("Na Pa"), "1");
    assert_eq!(run_out("Pb P' ' Sb3 Pb Nb P' ' Pb"), "0 3 0");
    assert_eq!(run_out("Sa1 Sb2 MGcab Nc Pc"), "1");
}

#[test]
fn execute_basic() {
    assert_eq!(run_out("Sc'' Xc"), "");
    assert_eq!(run_out("Sa2 Sb'a' Sc'Pb' LaXc"), "aa");
    assert_eq!(
        run_out("Sa4 Sb'loop ' Sc1 Sd'Pb MAaac MLlaf' Sf12 MLlaf WlXd Pa"),
        "loop loop loop loop loop loop loop loop 12"
    );
}

#[test]
fn execute_with_params() {
    assert_eq!(run_out("Sa1 Sb2 Sx'Pa' Xxab"), "2");
    assert_eq!(run_out("Sf'MAcab' Se2 Sg4 Xfaebgcz Pz"), "6");
}

#[test]
fn input() {
    assert_eq!(run_with("Sa4 Pa", vec!["1".to_string(), "2".to_string()]), "4");
    assert_eq!(
        run_with("GNa0 GNb1 MAcab Pa Pb Pc", vec!["1".to_string(), "2".to_string()]),
        "123"
    );
    assert_eq!(run_with("GSa0 Pa", vec!["Pizza".to_string()]), "Pizza");
}

#[test]
fn finish() {
    assert_eq!(run_out("F"), "");
    assert_eq!(run_out("Sa4 Pa F Sa3 Pa"), "4");
    assert_eq!(run_out("Sa4 Pa IbF Sa3 Pa"), "43");
}

#[test]
fn add() {
    assert_eq!(run_out("Sa3 Sb2 MAcab Pc"), "5");
    assert_eq!(run_out("Sa3.5 Sb1 MAcab Pc"), "4.5");
}

#[test]
fn subtract() {
    assert_eq!(run_out("Sa3 Sb2 MScab Pc"), "1");
    assert_eq!(run_out("Sa3.5 Sb5 MScab Pc"), "-1.5");
}

#[test]
fn multiply() {
    assert_eq!(run_out("Sa3 Sb2 MMcab Pc"), "6");
    assert_eq!(run_out("Sa0.5 Sb5 MMcab Pc"), "2.5");
}

#[test]
fn divide() {
    assert_eq!(run_out("Sa3 Sb2 MDcab Pc"), "1.5");
    assert_eq!(run_out("Sa10 Sb5 MDcab Pc"), "2");
}

#[test]
fn equal_to() {
    assert_eq!(run_out("Sa3 Sb2 MEcab Pc"), "0");
    assert_eq!(run_out("Sa10 Sb10 MEcab Pc"), "1");
}

#[test]
fn greater_than() {
    assert_eq!(run_out("Sa3 Sb2 MGcab Pc"), "1");
    assert_eq!(run_out("Sa3 Sb2 MGcba Pc"), "0");
}

#[test]
fn less_than() {
    assert_eq!(run_out("Sa3 Sb2 MLcba Pc"), "1");
    assert_eq!(run_out("Sa3 Sb2 MLcab Pc"), "0");
}

#[test]
fn remainder() {
    assert_eq!(run_out("Sa3 Sb2 MRcab Pc"), "1");
    assert_eq!(run_out("Sa10 Sb10 MRcab Pc"), "0");
    assert_eq!(run_out("Sa5 Sb10 MRcab Pc"), "5");
}

#[test]
fn equal() {
    assert_eq!(run_out("Sa1 Sb'x' BEcab Pc"), "1");
    assert_eq!(run_out("Sa0 Sb'' BEcab Pc"), "0");
    assert_eq!(run_out("Sa'cz' Sb0 BEcab Pc"), "0");
    assert_eq!(run_out("Sa0 Sb0.0 BEcab Pc"), "1");
}

#[test]
fn and() {
    assert_eq!(run_out("Sa1 Sb'x' BAcab Pc"), "1");
    assert_eq!(run_out("Sa0 Sb'' BAcab Pc"), "0");
    assert_eq!(run_out("Sa'cz' Sb0 BAcab Pc"), "0");
    assert_eq!(run_out("Sa0 Sb0.0 BAcab Pc"), "0");
}

#[test]
fn or() {
    assert_eq!(run_out("Sa1 Sb'x' BOcab Pc"), "1");
    assert_eq!(run_out("Sa0 Sb'' BOcab Pc"), "1");
    assert_eq!(run_out("Sa'cz' Sb0 BOcab Pc"), "1");
    assert_eq!(run_out("Sa0 Sb0.0 BOcab Pc"), "0");
}

#[test]
fn xor() {
    assert_eq!(run_out("Sa1 Sb'x' BXcab Pc"), "0");
    assert_eq!(run_out("Sa0 Sb'' BXcab Pc"), "1");
    assert_eq!(run_out("Sa'cz' Sb0 BXcab Pc"), "1");
    assert_eq!(run_out("Sa0 Sb0.0 BXcab Pc"), "0");
}
