use rust_term::enums::C0;
use rust_term::enums::EscapeSequence;
use rust_term::enums::Token;
use rust_term::scalar::head;
use rust_term::scalar::scalar_to_bytes;
use rust_term::tokenizer::AnsiParseIterator;
use rust_term::tokenizer::AnsiParser;

fn tokens(bytes: &[u8]) -> Vec<Token> {
    let mut it = AnsiParseIterator::new(bytes);
    let mut out: Vec<Token> = Vec::new();
    while let Some(t) = it.next() {
        out.push(t);
    }
    out
}

fn text(s: &[u8]) -> Token {
    Token::Text(s.to_vec())
}

#[test]
fn plain_text_is_one_run() {
    assert_eq!(tokens(b"abcd"), vec![text(b"abcd")]);
}

#[test]
fn c0_codes_are_single_tokens() {
    assert_eq!(
        tokens(b"a\r\nb"),
        vec![text(b"a"), Token::C0(C0::CR), Token::C0(C0::LF), text(b"b")]
    );
    assert_eq!(tokens(b"\x07"), vec![Token::C0(C0::BEL)]);
    assert_eq!(tokens(b"\x7f"), vec![Token::C0(C0::DEL)]);
    assert_eq!(tokens(b" "), vec![Token::C0(C0::SP)]);
}

#[test]
fn escape_sequences_are_decoded() {
    assert_eq!(
        tokens(b"ab\x1b[2Jcd"),
        vec![text(b"ab"), Token::EscapeSequence(EscapeSequence::ED(2)), text(b"cd")]
    );
}

#[test]
fn unmatched_escape_resynchronizes_after_esc() {
    // ESC [ q: the grammar has no function ending in `q`, so the ESC byte
    // alone is consumed and `[q` re-tokenizes as literal text
    assert_eq!(tokens(b"\x1b[q"), vec![Token::C0(C0::ESC), text(b"[q")]);
}

#[test]
fn multibyte_scalars_join_text_runs() {
    let euro = "a€b".as_bytes();
    assert_eq!(tokens(euro), vec![text("a€b".as_bytes())]);
}

#[test]
fn undecodable_byte_becomes_replacement_character() {
    assert_eq!(tokens(b"\xff"), vec![text(b"\xef\xbf\xbd")]);
    // a stray continuation byte after a text run
    assert_eq!(tokens(b"ab\x80"), vec![text(b"ab"), text(b"\xef\xbf\xbd")]);
    // a truncated two-byte encoding
    assert_eq!(tokens(b"\xc3"), vec![text(b"\xef\xbf\xbd")]);
    // an overlong encoding is rejected byte by byte
    assert_eq!(tokens(b"\xc0\x80"), vec![text(b"\xef\xbf\xbd"), text(b"\xef\xbf\xbd")]);
}

#[test]
fn split_at_stable_boundary_agrees_with_unsplit() {
    let whole = b"hi\n\x1b[2Jx";
    let mut split = tokens(b"hi\n");
    split.extend(tokens(b"\x1b[2Jx"));
    assert_eq!(tokens(whole), split);
}

#[test]
fn split_inside_text_run_merges() {
    // splitting inside a text run yields two runs where the unsplit buffer
    // yields one
    let whole = tokens(b"abcd");
    let mut split = tokens(b"ab");
    split.extend(tokens(b"cd"));
    assert_eq!(whole, vec![text(b"abcd")]);
    assert_eq!(split, vec![text(b"ab"), text(b"cd")]);
}

#[test]
fn split_inside_escape_sequence_is_the_documented_hazard() {
    // the unsplit buffer decodes one command; the split one falls back to a
    // literal ESC and text, re-tokenized from the byte after ESC
    let whole = tokens(b"\x1b[53H");
    let mut split = tokens(b"\x1b[5");
    split.extend(tokens(b"3H"));
    assert_eq!(whole, vec![Token::EscapeSequence(EscapeSequence::CUP(53, 1))]);
    assert_eq!(split, vec![Token::C0(C0::ESC), text(b"[5"), text(b"3H")]);
}

#[test]
fn iterator_ends_and_restarts() {
    let buf = b"a";
    let mut it = AnsiParseIterator::new(buf);
    assert_eq!(it.next(), Some(text(b"a")));
    assert_eq!(it.next(), None);
    assert_eq!(it.next(), None);
    let mut again = AnsiParseIterator::new(buf);
    assert_eq!(again.next(), Some(text(b"a")));
}

#[test]
fn ansi_parse_on_slices_and_vectors() {
    let mut it = b"ok".as_slice().ansi_parse();
    assert_eq!(it.next(), Some(text(b"ok")));
    let v: Vec<u8> = b"ok".to_vec();
    let mut it2 = v.ansi_parse();
    assert_eq!(it2.next(), Some(text(b"ok")));
}

#[test]
fn head_decodes_each_width() {
    assert_eq!(head(b"abc"), Some((1, 'a' as u32)));
    assert_eq!(head("é".as_bytes()), Some((2, 0xe9)));
    assert_eq!(head("€".as_bytes()), Some((3, 0x20ac)));
    assert_eq!(head("𝄞".as_bytes()), Some((4, 0x1d11e)));
    assert_eq!(head(b""), None);
    assert_eq!(head(b"\x80"), None);
    assert_eq!(head(b"\xc3"), None);
    assert_eq!(head(b"\xc0\x80"), None);
    assert_eq!(head(b"\xed\xa0\x80"), None);
}

#[test]
fn scalar_round_trip() {
    assert_eq!(scalar_to_bytes('a' as u32), b"a".to_vec());
    assert_eq!(scalar_to_bytes(0xe9), "é".as_bytes().to_vec());
    assert_eq!(scalar_to_bytes(0x20ac), "€".as_bytes().to_vec());
    assert_eq!(scalar_to_bytes(0x1d11e), "𝄞".as_bytes().to_vec());
    let bytes = scalar_to_bytes(0x20ac);
    assert_eq!(head(&bytes), Some((3, 0x20ac)));
}
