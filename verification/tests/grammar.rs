use rust_term::enums::EscapeSequence;
use rust_term::parsers::parse_escape;

fn parse(bytes: &[u8]) -> Option<(EscapeSequence, usize)> {
    parse_escape(bytes)
}

#[test]
fn cup_with_parameters() {
    assert_eq!(parse(b"\x1b[5;3H"), Some((EscapeSequence::CUP(5, 3), 6)));
}

#[test]
fn cup_defaults() {
    assert_eq!(parse(b"\x1b[H"), Some((EscapeSequence::CUP(1, 1), 3)));
}

#[test]
fn cup_first_parameter_only() {
    assert_eq!(parse(b"\x1b[53H"), Some((EscapeSequence::CUP(53, 1), 5)));
}

#[test]
fn cup_second_parameter_only() {
    assert_eq!(parse(b"\x1b[;3H"), Some((EscapeSequence::CUP(1, 3), 5)));
}

#[test]
fn ed_default_zero() {
    assert_eq!(parse(b"\x1b[J"), Some((EscapeSequence::ED(0), 3)));
}

#[test]
fn ed_explicit_mode() {
    assert_eq!(parse(b"\x1b[2J"), Some((EscapeSequence::ED(2), 4)));
}

#[test]
fn cursor_movement_defaults_to_one() {
    assert_eq!(parse(b"\x1b[A"), Some((EscapeSequence::CUU(1), 3)));
    assert_eq!(parse(b"\x1b[B"), Some((EscapeSequence::CUD(1), 3)));
    assert_eq!(parse(b"\x1b[C"), Some((EscapeSequence::CUF(1), 3)));
    assert_eq!(parse(b"\x1b[D"), Some((EscapeSequence::CUB(1), 3)));
}

#[test]
fn explicit_zero_is_kept() {
    assert_eq!(parse(b"\x1b[0A"), Some((EscapeSequence::CUU(0), 4)));
}

#[test]
fn oversized_parameter_falls_back_to_default() {
    // a field that does not fit in u32 counts as absent
    assert_eq!(parse(b"\x1b[99999999999A"), Some((EscapeSequence::CUU(1), 14)));
    assert_eq!(parse(b"\x1b[4294967295A"), Some((EscapeSequence::CUU(4294967295), 13)));
    assert_eq!(parse(b"\x1b[4294967296A"), Some((EscapeSequence::CUU(1), 13)));
}

#[test]
fn zero_parameter_functions_match_literally() {
    assert_eq!(parse(b"\x1b[R"), Some((EscapeSequence::CPR, 3)));
    assert_eq!(parse(b"\x1b[c"), Some((EscapeSequence::DA, 3)));
    assert_eq!(parse(b"\x1b[l"), Some((EscapeSequence::RM, 3)));
}

#[test]
fn zero_parameter_functions_reject_digits() {
    assert_eq!(parse(b"\x1b[5R"), None);
    assert_eq!(parse(b"\x1b[5c"), None);
}

#[test]
fn space_prefixed_family() {
    assert_eq!(parse(b"\x1b[5 @"), Some((EscapeSequence::SL(5), 5)));
    assert_eq!(parse(b"\x1b[ @"), Some((EscapeSequence::SL(1), 4)));
    assert_eq!(parse(b"\x1b[ B"), Some((EscapeSequence::GSM(100, 100), 4)));
    assert_eq!(parse(b"\x1b[1;2 D"), Some((EscapeSequence::FNT(1, 2), 7)));
    assert_eq!(parse(b"\x1b[ G"), Some((EscapeSequence::SPI(720, 720), 4)));
}

#[test]
fn margins_and_dec_functions() {
    assert_eq!(parse(b"\x1b[1;24r"), Some((EscapeSequence::DECSTBM(1, 24), 7)));
    assert_eq!(parse(b"\x1b[r"), Some((EscapeSequence::DECSTBM(1, 1), 3)));
    assert_eq!(parse(b"\x1b[t"), Some((EscapeSequence::DECSLPP(66), 3)));
    assert_eq!(parse(b"\x1b[y"), Some((EscapeSequence::DECTST(2, 1), 3)));
    assert_eq!(parse(b"\x1b[7!"), Some((EscapeSequence::DECTTC(7), 4)));
    assert_eq!(parse(b"\x1b[3~"), Some((EscapeSequence::DECKEYS(3), 4)));
}

#[test]
fn semicolon_with_one_parameter_function_fails() {
    // CUU takes one parameter, so a two-field form does not match it
    assert_eq!(parse(b"\x1b[5;3A"), None);
}

#[test]
fn unimplemented_introducers_fail() {
    // `q` ends a multi-parameter function that is out of the grammar
    assert_eq!(parse(b"\x1b[q"), None);
    assert_eq!(parse(b"\x1b[0m"), None);
    assert_eq!(parse(b"\x1b[u"), None);
}

#[test]
fn truncated_sequences_fail() {
    assert_eq!(parse(b"\x1b"), None);
    assert_eq!(parse(b"\x1b["), None);
    assert_eq!(parse(b"\x1b[5"), None);
    assert_eq!(parse(b"\x1b[5;"), None);
    assert_eq!(parse(b"\x1b[5 "), None);
}

#[test]
fn not_an_escape() {
    assert_eq!(parse(b""), None);
    assert_eq!(parse(b"[5H"), None);
    assert_eq!(parse(b"a\x1b[H"), None);
}
