use rust_term::enums::C0;
use rust_term::enums::EscapeSequence;
use rust_term::enums::Token;
use rust_term::screen::Screen;

const BLANK: u32 = 0x20;

fn text(s: &[u8]) -> Token {
    Token::Text(s.to_vec())
}

fn esc(cmd: EscapeSequence) -> Token {
    Token::EscapeSequence(cmd)
}

fn row_string(s: &Screen, r: usize) -> String {
    let (_, cols) = s.size();
    let mut out = String::new();
    let mut c: usize = 0;
    while c < cols {
        out.push(char::from_u32(s.cell(r, c)).unwrap_or('?'));
        c += 1;
    }
    out
}

#[test]
fn text_then_cr_lf_moves_to_next_row_keeping_text() {
    let mut s = Screen::new(5, 10);
    s.apply(&text(b"abc"));
    s.apply(&Token::C0(C0::CR));
    s.apply(&Token::C0(C0::LF));
    assert_eq!(s.cursor(), (1, 0));
    assert_eq!(s.cell(0, 0), 'a' as u32);
    assert_eq!(s.cell(0, 1), 'b' as u32);
    assert_eq!(s.cell(0, 2), 'c' as u32);
    assert_eq!(s.cell(0, 3), BLANK);
}

#[test]
fn cursor_up_clamps_at_top() {
    let mut s = Screen::new(5, 10);
    s.apply(&esc(EscapeSequence::CUP(3, 1)));
    assert_eq!(s.cursor(), (2, 0));
    s.apply(&esc(EscapeSequence::CUU(100)));
    assert_eq!(s.cursor(), (0, 0));
}

#[test]
fn cursor_moves_clamp_to_grid() {
    let mut s = Screen::new(4, 6);
    s.apply(&esc(EscapeSequence::CUD(100)));
    assert_eq!(s.cursor(), (3, 0));
    s.apply(&esc(EscapeSequence::CUF(100)));
    assert_eq!(s.cursor(), (3, 5));
    s.apply(&esc(EscapeSequence::CUB(2)));
    assert_eq!(s.cursor(), (3, 3));
    s.apply(&esc(EscapeSequence::CUP(100, 100)));
    assert_eq!(s.cursor(), (3, 5));
    s.apply(&esc(EscapeSequence::CUP(0, 0)));
    assert_eq!(s.cursor(), (0, 0));
    s.apply(&esc(EscapeSequence::CHA(4)));
    assert_eq!(s.cursor(), (0, 3));
    s.apply(&esc(EscapeSequence::VPA(2)));
    assert_eq!(s.cursor(), (1, 3));
}

#[test]
fn writing_into_the_corner_scrolls_one_line() {
    let mut s = Screen::new(3, 3);
    s.apply(&text(b"aaa"));
    s.apply(&text(b"bbb"));
    // after two full rows the cursor sits at the start of the last row
    assert_eq!(s.cursor(), (2, 0));
    s.apply(&text(b"cc"));
    assert_eq!(s.cursor(), (2, 2));
    // writing the last cell of the scroll region's bottom line wraps and
    // scrolls the grid up by exactly one line
    s.apply(&text(b"d"));
    assert_eq!(s.cursor(), (2, 0));
    assert_eq!(row_string(&s, 0), "bbb");
    assert_eq!(row_string(&s, 1), "ccd");
    assert_eq!(row_string(&s, 2), "   ");
    assert_eq!(s.lost_lines(), 1);
}

#[test]
fn line_feed_on_region_bottom_scrolls_and_preserves_rows_above() {
    let mut s = Screen::new(4, 4);
    s.apply_bytes(b"one\r\ntwo\r\nthr\r\nfou");
    assert_eq!(row_string(&s, 0), "one ");
    s.apply(&esc(EscapeSequence::DECSTBM(2, 3)));
    assert_eq!(s.scroll_region(), (1, 2));
    s.apply(&esc(EscapeSequence::CUP(3, 1)));
    s.apply(&Token::C0(C0::LF));
    // the region scrolled: row 1 took row 2's text, row 2 is blank,
    // rows outside the region are untouched
    assert_eq!(row_string(&s, 0), "one ");
    assert_eq!(row_string(&s, 1), "thr ");
    assert_eq!(row_string(&s, 2), "    ");
    assert_eq!(row_string(&s, 3), "fou ");
    assert_eq!(s.lost_lines(), 1);
}

#[test]
fn erase_display_modes() {
    let mut s = Screen::new(3, 4);
    s.apply_bytes(b"abc\r\ndef\r\nghi");
    s.apply(&esc(EscapeSequence::CUP(2, 2)));
    s.apply(&esc(EscapeSequence::ED(0)));
    assert_eq!(row_string(&s, 0), "abc ");
    assert_eq!(row_string(&s, 1), "d   ");
    assert_eq!(row_string(&s, 2), "    ");

    let mut s1 = Screen::new(3, 4);
    s1.apply_bytes(b"abc\r\ndef\r\nghi");
    s1.apply(&esc(EscapeSequence::CUP(2, 2)));
    s1.apply(&esc(EscapeSequence::ED(1)));
    assert_eq!(row_string(&s1, 0), "    ");
    assert_eq!(row_string(&s1, 1), "  f ");
    assert_eq!(row_string(&s1, 2), "ghi ");

    let mut s2 = Screen::new(3, 4);
    s2.apply_bytes(b"abc\r\ndef\r\nghi");
    s2.apply(&esc(EscapeSequence::ED(2)));
    assert_eq!(row_string(&s2, 0), "    ");
    assert_eq!(row_string(&s2, 1), "    ");
    assert_eq!(row_string(&s2, 2), "    ");

    // an unsupported mode is ignored
    let mut s3 = Screen::new(3, 4);
    s3.apply_bytes(b"abc\r\ndef\r\nghi");
    s3.apply(&esc(EscapeSequence::ED(7)));
    assert_eq!(row_string(&s3, 0), "abc ");
    assert_eq!(row_string(&s3, 1), "def ");
    assert_eq!(row_string(&s3, 2), "ghi ");
}

#[test]
fn erase_line_modes() {
    let mut s = Screen::new(1, 5);
    s.apply_bytes(b"abcd");
    s.apply(&esc(EscapeSequence::CHA(3)));
    s.apply(&esc(EscapeSequence::EL(0)));
    assert_eq!(row_string(&s, 0), "ab   ");

    let mut s1 = Screen::new(1, 5);
    s1.apply_bytes(b"abcd");
    s1.apply(&esc(EscapeSequence::CHA(3)));
    s1.apply(&esc(EscapeSequence::EL(1)));
    assert_eq!(row_string(&s1, 0), "   d ");

    let mut s2 = Screen::new(1, 5);
    s2.apply_bytes(b"abcd");
    s2.apply(&esc(EscapeSequence::EL(2)));
    assert_eq!(row_string(&s2, 0), "     ");
}

#[test]
fn insert_and_delete_lines() {
    let mut s = Screen::new(4, 4);
    s.apply_bytes(b"aaa\r\nbbb\r\nccc\r\nddd");
    s.apply(&esc(EscapeSequence::CUP(2, 1)));
    s.apply(&esc(EscapeSequence::IL(1)));
    assert_eq!(row_string(&s, 0), "aaa ");
    assert_eq!(row_string(&s, 1), "    ");
    assert_eq!(row_string(&s, 2), "bbb ");
    assert_eq!(row_string(&s, 3), "ccc ");

    s.apply(&esc(EscapeSequence::DL(2)));
    assert_eq!(row_string(&s, 0), "aaa ");
    assert_eq!(row_string(&s, 1), "ccc ");
    assert_eq!(row_string(&s, 2), "    ");
    assert_eq!(row_string(&s, 3), "    ");

    // IL(0) inserts nothing
    let mut s1 = Screen::new(2, 3);
    s1.apply_bytes(b"xy\r\nzw");
    s1.apply(&esc(EscapeSequence::CUP(1, 1)));
    s1.apply(&esc(EscapeSequence::IL(0)));
    assert_eq!(row_string(&s1, 0), "xy ");
    assert_eq!(row_string(&s1, 1), "zw ");
}

#[test]
fn insert_and_delete_characters() {
    let mut s = Screen::new(1, 7);
    s.apply_bytes(b"abcdef");
    s.apply(&esc(EscapeSequence::CHA(2)));
    s.apply(&esc(EscapeSequence::ICH(2)));
    assert_eq!(row_string(&s, 0), "a  bcde");

    s.apply(&esc(EscapeSequence::DCH(2)));
    assert_eq!(row_string(&s, 0), "abcde  ");
}

#[test]
fn scroll_up_and_down() {
    let mut s = Screen::new(3, 3);
    s.apply_bytes(b"aa\r\nbb\r\ncc");
    s.apply(&esc(EscapeSequence::SU(1)));
    assert_eq!(row_string(&s, 0), "bb ");
    assert_eq!(row_string(&s, 1), "cc ");
    assert_eq!(row_string(&s, 2), "   ");
    assert_eq!(s.lost_lines(), 1);

    s.apply(&esc(EscapeSequence::SD(2)));
    assert_eq!(row_string(&s, 0), "   ");
    assert_eq!(row_string(&s, 1), "   ");
    assert_eq!(row_string(&s, 2), "bb ");
    assert_eq!(s.lost_lines(), 3);
}

#[test]
fn margins_validate_their_range() {
    let mut s = Screen::new(4, 2);
    s.apply(&esc(EscapeSequence::DECSTBM(2, 3)));
    assert_eq!(s.scroll_region(), (1, 2));
    // an empty or out-of-grid range is ignored
    s.apply(&esc(EscapeSequence::DECSTBM(3, 3)));
    assert_eq!(s.scroll_region(), (1, 2));
    s.apply(&esc(EscapeSequence::DECSTBM(1, 9)));
    assert_eq!(s.scroll_region(), (1, 2));
    s.apply(&esc(EscapeSequence::DECSTBM(0, 2)));
    assert_eq!(s.scroll_region(), (1, 2));
}

#[test]
fn unimplemented_commands_are_ignored() {
    let mut s = Screen::new(2, 2);
    s.apply_bytes(b"ab");
    s.apply(&esc(EscapeSequence::DSR(6)));
    s.apply(&esc(EscapeSequence::SM(4)));
    s.apply(&esc(EscapeSequence::DECKEYS(7)));
    s.apply(&Token::C0(C0::BEL));
    assert_eq!(row_string(&s, 0), "ab");
    assert_eq!(s.cursor(), (1, 0));
}

#[test]
fn backspace_stops_at_column_zero() {
    let mut s = Screen::new(2, 4);
    s.apply_bytes(b"ab");
    s.apply(&Token::C0(C0::BS));
    assert_eq!(s.cursor(), (0, 1));
    s.apply(&Token::C0(C0::BS));
    s.apply(&Token::C0(C0::BS));
    assert_eq!(s.cursor(), (0, 0));
}

#[test]
fn apply_bytes_drives_the_whole_pipeline() {
    let mut s = Screen::new(2, 8);
    s.apply_bytes(b"hi\r\nyou\x1b[1;1Hno");
    assert_eq!(row_string(&s, 0), "no      ");
    assert_eq!(row_string(&s, 1), "you     ");
    assert_eq!(s.cursor(), (0, 2));
}

#[test]
fn replacement_character_lands_in_the_grid() {
    let mut s = Screen::new(1, 2);
    s.apply_bytes(b"\xff");
    assert_eq!(s.cell(0, 0), 0xfffd);
}
