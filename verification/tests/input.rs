use rust_term::input::Flags;
use rust_term::input::InputLine;

fn line_string(l: &InputLine) -> String {
    l.chars().iter().collect()
}

#[test]
fn typing_inserts_at_the_cursor() {
    let mut l = InputLine::new();
    l.input_char('a');
    l.input_char('c');
    l.cursor_left();
    l.input_char('b');
    assert_eq!(line_string(&l), "abc");
}

#[test]
fn cursor_stops_at_both_ends() {
    let mut l = InputLine::new();
    l.input_char('x');
    l.cursor_left();
    l.cursor_left();
    l.input_char('w');
    assert_eq!(line_string(&l), "wx");
    l.cursor_right();
    l.cursor_right();
    l.cursor_right();
    l.input_char('y');
    assert_eq!(line_string(&l), "wxy");
}

#[test]
fn home_and_end() {
    let mut l = InputLine::new();
    l.input_char('b');
    l.input_char('c');
    l.cursor_home();
    l.input_char('a');
    assert_eq!(line_string(&l), "abc");
    l.cursor_end();
    l.input_char('d');
    assert_eq!(line_string(&l), "abcd");
}

#[test]
fn submit_appends_newline_and_clears() {
    let mut l = InputLine::new();
    l.input_char('l');
    l.input_char('s');
    let bytes = l.submit();
    assert_eq!(bytes, b"ls\n".to_vec());
    assert_eq!(line_string(&l), "");
    let bytes2 = l.submit();
    assert_eq!(bytes2, b"\n".to_vec());
}

#[test]
fn submit_encodes_multibyte_characters() {
    let mut l = InputLine::new();
    l.input_char('é');
    l.input_char('€');
    let bytes = l.submit();
    assert_eq!(bytes, "é€\n".as_bytes().to_vec());
}

#[test]
fn default_flags_are_all_off() {
    let f = Flags::default();
    assert!(f.shell.is_none());
    assert!(!f.quiet);
    assert!(!f.verbose);
    assert!(!f.debug);
    assert!(!f.vomit);
    assert!(!f.version);
}
