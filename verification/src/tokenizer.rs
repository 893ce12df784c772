//! The streaming tokenizer: classifies bytes into literal text runs, single
//! C0 control codes, and decoded escape commands.
//!
//! On ESC the escape grammar is tried against the remaining buffer; when it
//! fails, only the ESC byte is consumed and a literal `C0(ESC)` token is
//! yielded, so the bytes of the would-be sequence are re-tokenized from the
//! byte after ESC (the documented resynchronization behaviour).  A byte at
//! which no width between 1 and 4 decodes to a scalar yields a
//! replacement-character text token and the stream advances by one byte.

use vstd::prelude::*;

verus! {

use vstd::slice::slice_index_get;
use vstd::slice::slice_subrange;
use vstd::slice::slice_to_vec;
use vstd::utf8::length_of_first_scalar;
use vstd::utf8::valid_first_scalar;

use crate::enums::C0;
use crate::enums::Token;
use crate::enums::TokenView;
use crate::enums::c0_from_byte;
use crate::enums::c0_of_byte;
use crate::enums::is_c0_byte;
use crate::parsers::lemma_parse_seq_bounds;
use crate::parsers::lemma_parse_seq_concat_some;
use crate::parsers::lemma_parse_seq_concat_viable;
use crate::parsers::parse_seq;
use crate::parsers::spec_parse_seq;
use crate::scalar::lemma_invalid_head_truncated;
use crate::scalar::lemma_valid_first_scalar_extend;

/// The UTF-8 bytes of the replacement character, yielded for a byte at which
/// no scalar can be decoded.
pub open spec fn replacement_bytes() -> Seq<u8> {
    seq![0xefu8, 0xbfu8, 0xbdu8]
}

/// The length of the maximal run of printable scalars at the head of `s`: a
/// run stops at a C0 byte, at an undecodable byte, or at the end of the
/// buffer.
pub open spec fn text_run_len(s: Seq<u8>) -> int
    decreases s.len(),
{
    if s.len() > 0 && !is_c0_byte(s[0]) && valid_first_scalar(s) {
        length_of_first_scalar(s) + text_run_len(s.skip(length_of_first_scalar(s)))
    } else {
        0
    }
}

/// A text run never runs past the end of the buffer.
pub proof fn lemma_text_run_len_bounds(s: Seq<u8>)
    ensures
        0 <= text_run_len(s) <= s.len(),
    decreases s.len(),
{
    if s.len() > 0 && !is_c0_byte(s[0]) && valid_first_scalar(s) {
        lemma_text_run_len_bounds(s.skip(length_of_first_scalar(s)));
    }
}

/// How many bytes the first token of `s` consumes.
pub open spec fn spec_token_len(s: Seq<u8>) -> int
    recommends
        s.len() > 0,
{
    if s[0] == 0x1b {
        match spec_parse_seq(s.skip(1)) {
            Some((c, n)) => 1 + n,
            None => 1,
        }
    } else if is_c0_byte(s[0]) {
        1
    } else if valid_first_scalar(s) {
        text_run_len(s)
    } else {
        1
    }
}

/// The first token of `s`.
pub open spec fn spec_token1(s: Seq<u8>) -> TokenView
    recommends
        s.len() > 0,
{
    if s[0] == 0x1b {
        match spec_parse_seq(s.skip(1)) {
            Some((c, n)) => TokenView::EscapeSequence(c),
            None => TokenView::C0(C0::ESC),
        }
    } else if is_c0_byte(s[0]) {
        TokenView::C0(c0_of_byte(s[0]))
    } else if valid_first_scalar(s) {
        TokenView::Text(s.take(text_run_len(s)))
    } else {
        TokenView::Text(replacement_bytes())
    }
}

/// The first token consumes at least one byte and at most the whole buffer.
pub proof fn lemma_token_len_bounds(s: Seq<u8>)
    requires
        s.len() > 0,
    ensures
        1 <= spec_token_len(s) <= s.len(),
{
    if s[0] == 0x1b {
        lemma_parse_seq_bounds(s.skip(1));
    } else if !is_c0_byte(s[0]) && valid_first_scalar(s) {
        lemma_text_run_len_bounds(s.skip(length_of_first_scalar(s)));
    }
}

/// The token stream of a whole buffer.
pub open spec fn spec_tokens(s: Seq<u8>) -> Seq<TokenView>
    decreases s.len(),
    via spec_tokens_decreases
{
    if s.len() == 0 {
        Seq::empty()
    } else {
        seq![spec_token1(s)] + spec_tokens(s.skip(spec_token_len(s)))
    }
}

#[via_fn]
proof fn spec_tokens_decreases(s: Seq<u8>) {
    if s.len() > 0 {
        lemma_token_len_bounds(s);
    }
}

/// Unfolding the token stream one token at a time.
pub proof fn lemma_spec_tokens_step(s: Seq<u8>)
    requires
        s.len() > 0,
    ensures
        spec_tokens(s) == seq![spec_token1(s)] + spec_tokens(s.skip(spec_token_len(s))),
        spec_tokens(s).len() > 0,
{
}

/// The length in bytes of the maximal printable text run at the head of `s`.
fn text_run(s: &[u8]) -> (end: usize)
    ensures
        end == text_run_len(s@),
        end <= s@.len(),
{
    let mut cur: usize = 0;
    proof {
        assert(s@.skip(0) =~= s@);
    }
    loop
        invariant
            cur <= s@.len(),
            text_run_len(s@) == cur + text_run_len(s@.skip(cur as int)),
        decreases s@.len() - cur,
    {
        proof {
            lemma_text_run_len_bounds(s@.skip(cur as int));
        }
        if cur == s.len() {
            return cur;
        }
        let b: u8 = *slice_index_get(s, cur);
        if b <= 0x20 || b == 0x7f {
            return cur;
        }
        let sub: &[u8] = slice_subrange(s, cur, s.len());
        proof {
            assert(sub@ =~= s@.skip(cur as int));
        }
        match crate::scalar::head(sub) {
            Some((l, _)) => {
                proof {
                    assert(s@.skip(cur as int).skip(l as int) =~= s@.skip(cur + l as int));
                }
                cur = cur + l;
            },
            None => {
                return cur;
            },
        }
    }
}

/// A restartable cursor over a byte buffer, yielding its tokens on demand.
/// It is finite and forward-only: a fresh cursor over a fresh buffer is the
/// only way to start over.
#[derive(Debug)]
pub struct AnsiParseIterator<'a> {
    dat: &'a [u8],
    pos: usize,
}

impl<'a> AnsiParseIterator<'a> {
    /// The bytes not yet consumed.
    pub closed spec fn remaining(self) -> Seq<u8> {
        self.dat@.skip(self.pos as int)
    }

    /// The cursor position never passes the end of the buffer.
    pub closed spec fn wf(self) -> bool {
        self.pos <= self.dat@.len()
    }

    /// A cursor at the start of `dat`.
    pub fn new(dat: &'a [u8]) -> (r: Self)
        ensures
            r.wf(),
            r.remaining() == dat@,
    {
        let r = AnsiParseIterator { dat, pos: 0 };
        proof {
            assert(r.remaining() =~= dat@);
        }
        r
    }

    /// Yield the next token, or `None` at the end of the buffer.  The token
    /// returned is the first token of the remaining bytes, and the cursor
    /// advances past exactly the bytes that token consumed.
    pub fn next(&mut self) -> (r: Option<Token>)
        requires
            old(self).wf(),
        ensures
            final(self).wf(),
            old(self).remaining().len() == 0 ==> r is None && final(self).remaining() == old(
                self,
            ).remaining(),
            old(self).remaining().len() > 0 ==> {
                &&& r matches Some(t) && t@ == spec_token1(old(self).remaining())
                &&& final(self).remaining() == old(self).remaining().skip(
                    spec_token_len(old(self).remaining()),
                )
            },
    {
        let ghost rem = self.dat@.skip(self.pos as int);
        if self.pos >= self.dat.len() {
            return None;
        }
        let b: u8 = *slice_index_get(self.dat, self.pos);
        proof {
            assert(b == rem[0]);
        }
        if b == 0x1b {
            let tail: &[u8] = slice_subrange(self.dat, self.pos + 1, self.dat.len());
            proof {
                assert(tail@ =~= rem.skip(1));
            }
            match parse_seq(tail) {
                Some((cmd, n)) => {
                    proof {
                        assert(self.dat@.skip(self.pos + 1 + n as int) =~= rem.skip(1 + n as int));
                    }
                    self.pos = self.pos + 1 + n;
                    Some(Token::EscapeSequence(cmd))
                },
                None => {
                    proof {
                        assert(self.dat@.skip(self.pos + 1 as int) =~= rem.skip(1));
                    }
                    self.pos = self.pos + 1;
                    Some(Token::C0(C0::ESC))
                },
            }
        } else if b <= 0x20 || b == 0x7f {
            proof {
                assert(self.dat@.skip(self.pos + 1 as int) =~= rem.skip(1));
            }
            self.pos = self.pos + 1;
            Some(Token::C0(c0_from_byte(b)))
        } else {
            let sub: &[u8] = slice_subrange(self.dat, self.pos, self.dat.len());
            proof {
                assert(sub@ =~= rem);
            }
            match crate::scalar::head(sub) {
                Some((_, _)) => {
                    let runlen: usize = text_run(sub);
                    proof {
                        lemma_text_run_len_bounds(rem.skip(length_of_first_scalar(rem)));
                        assert(text_run_len(rem) >= 1);
                    }
                    let bytes: Vec<u8> = slice_to_vec(slice_subrange(sub, 0, runlen));
                    proof {
                        assert(bytes@ =~= rem.take(text_run_len(rem)));
                        assert(self.dat@.skip(self.pos + runlen as int) =~= rem.skip(
                            text_run_len(rem),
                        ));
                    }
                    self.pos = self.pos + runlen;
                    Some(Token::Text(bytes))
                },
                None => {
                    let mut bytes: Vec<u8> = Vec::new();
                    bytes.push(0xef);
                    bytes.push(0xbf);
                    bytes.push(0xbd);
                    proof {
                        assert(bytes@ =~= replacement_bytes());
                        assert(self.dat@.skip(self.pos + 1 as int) =~= rem.skip(1));
                    }
                    self.pos = self.pos + 1;
                    Some(Token::Text(bytes))
                },
            }
        }
    }
}

/// A text run whose stop is visible inside `s` (a C0 byte, or a byte that
/// stays undecodable with more input) has the same length after appending.
proof fn lemma_text_run_concat(s: Seq<u8>, ext: Seq<u8>)
    requires
        text_run_len(s) < s.len(),
        is_c0_byte(s[text_run_len(s)]) || !valid_first_scalar((s + ext).skip(text_run_len(s))),
    ensures
        text_run_len(s + ext) == text_run_len(s),
    decreases s.len(),
{
    let u = s + ext;
    assert(u[0] == s[0]);
    if s.len() > 0 && !is_c0_byte(s[0]) && valid_first_scalar(s) {
        let l = length_of_first_scalar(s);
        lemma_valid_first_scalar_extend(s, ext);
        lemma_text_run_len_bounds(s.skip(l));
        assert(u.skip(l) =~= s.skip(l) + ext);
        assert(s.skip(l)[text_run_len(s.skip(l))] == s[text_run_len(s)]) by {
            assert(text_run_len(s) == l + text_run_len(s.skip(l)));
        }
        lemma_text_run_concat(s.skip(l), ext);
    } else {
        // the run is empty, and its stop is stable at position 0
        assert(u.skip(0) =~= u);
        if is_c0_byte(s[0]) {
            assert(text_run_len(u) == 0);
        } else {
            assert(!valid_first_scalar(u));
            assert(text_run_len(u) == 0);
        }
    }
}

/// Peeling the first token: the rest of the stream is the stream of the
/// rest of the bytes.
proof fn lemma_tokens_drop_first(s: Seq<u8>)
    requires
        s.len() > 0,
    ensures
        spec_tokens(s.skip(spec_token_len(s))) =~= spec_tokens(s).drop_first(),
{
}

/// A nonempty buffer of digits, `;`, space and `[` alone tokenizes to text
/// runs and SP controls, so its last token is one of those.
proof fn lemma_charset_last_token(u: Seq<u8>)
    requires
        u.len() > 0,
        forall|k: int|
            0 <= k < u.len() ==> (#[trigger] u[k]) == 0x20 || u[k] == 0x3b || (0x30 <= u[k]
                <= 0x39) || u[k] == 0x5b,
    ensures
        spec_tokens(u).len() > 0,
        spec_tokens(u).last() is Text || spec_tokens(u).last() == TokenView::C0(C0::SP),
    decreases u.len(),
{
    assert(u[0] != 0x1b);
    if u[0] == 0x20 {
        // a single SP token
        if u.len() == 1 {
            assert(u.skip(1).len() == 0);
            assert(spec_tokens(u.skip(1)).len() == 0);
            assert(spec_tokens(u) =~= seq![spec_token1(u)]);
            assert(spec_tokens(u).last() == TokenView::C0(C0::SP));
        } else {
            let u1 = u.skip(1);
            assert forall|k: int|
                0 <= k < u1.len() implies (#[trigger] u1[k]) == 0x20 || u1[k] == 0x3b || (0x30
                <= u1[k] <= 0x39) || u1[k] == 0x5b by {
                assert(u1[k] == u[k + 1]);
            }
            lemma_charset_last_token(u1);
            lemma_tokens_drop_first(u);
            assert(spec_tokens(u).last() == spec_tokens(u1).last());
        }
    } else {
        // a printable ASCII byte: a text run begins
        let b = u[0];
        assert(!is_c0_byte(b));
        assert(valid_first_scalar(u)) by {
            assert(((b & 0x7f) as u32) < 0xd800) by (bit_vector);
        }
        assert(length_of_first_scalar(u) == 1);
        lemma_text_run_len_bounds(u.skip(1));
        lemma_text_run_len_bounds(u);
        let r = text_run_len(u);
        assert(r >= 1);
        if r == u.len() {
            assert(u.skip(r).len() == 0);
            assert(spec_tokens(u.skip(r)).len() == 0);
            assert(spec_tokens(u) =~= seq![spec_token1(u)]);
            assert(spec_tokens(u).last() is Text);
        } else {
            let u1 = u.skip(r);
            assert forall|k: int|
                0 <= k < u1.len() implies (#[trigger] u1[k]) == 0x20 || u1[k] == 0x3b || (0x30
                <= u1[k] <= 0x39) || u1[k] == 0x5b by {
                assert(u1[k] == u[k + r]);
            }
            lemma_charset_last_token(u1);
            lemma_tokens_drop_first(u);
            assert(spec_tokens(u).last() == spec_tokens(u1).last());
        }
    }
}

/// A buffer that starts with a truncated scalar encoding and continues with
/// continuation bytes alone tokenizes to replacement-character text tokens,
/// so its last token is text.
proof fn lemma_truncated_tail_tokens(u: Seq<u8>)
    requires
        u.len() > 0,
        !is_c0_byte(u[0]),
        !valid_first_scalar(u),
        forall|k: int| 1 <= k < u.len() ==> vstd::utf8::is_continuation_byte(#[trigger] u[k]),
    ensures
        spec_tokens(u).len() > 0,
        spec_tokens(u).last() is Text,
    decreases u.len(),
{
    assert(u[0] != 0x1b);
    if u.len() == 1 {
        assert(spec_tokens(u).last() is Text);
    } else {
        let u1 = u.skip(1);
        assert(u1[0] == u[1]);
        assert(vstd::utf8::is_continuation_byte(u1[0]));
        assert(!is_c0_byte(u1[0]));
        assert(!valid_first_scalar(u1));
        assert forall|k: int|
            1 <= k < u1.len() implies vstd::utf8::is_continuation_byte(#[trigger] u1[k]) by {
            assert(u1[k] == u[k + 1]);
        }
        lemma_truncated_tail_tokens(u1);
        lemma_tokens_drop_first(u);
        assert(spec_tokens(u).last() == spec_tokens(u1).last());
    }
}

/// A token other than a text run, a literal ESC or a SP ends a buffer at a
/// stable boundary.
pub open spec fn ok_last(t: TokenView) -> bool {
    match t {
        TokenView::Text(_) => false,
        TokenView::C0(c) => c != C0::ESC && c != C0::SP,
        TokenView::EscapeSequence(_) => true,
    }
}

/// The first buffer of a split ends at a stable token boundary: it is empty,
/// or its last token is neither a text run (a following printable scalar
/// would extend it), nor a literal ESC or SP (the visible part of an escape
/// sequence that may continue in the next buffer).
pub open spec fn split_ok(s: Seq<u8>) -> bool {
    s.len() == 0 || ok_last(spec_tokens(s).last())
}

/// The first token of `s1` survives appending `s2`, provided `s1` ends at a
/// stable boundary.
#[verifier::rlimit(100)]
proof fn lemma_step_stable(s1: Seq<u8>, s2: Seq<u8>)
    requires
        s1.len() > 0,
        split_ok(s1),
    ensures
        spec_token_len(s1 + s2) == spec_token_len(s1),
        spec_token1(s1 + s2) == spec_token1(s1),
{
    let u = s1 + s2;
    let b = s1[0];
    assert(u[0] == b);
    lemma_token_len_bounds(s1);
    if b == 0x1b {
        assert(u.skip(1) =~= s1.skip(1) + s2);
        match spec_parse_seq(s1.skip(1)) {
            Some((c, n)) => {
                lemma_parse_seq_concat_some(s1.skip(1), s2);
            },
            None => {
                if spec_parse_seq(u.skip(1)) is Some {
                    lemma_parse_seq_concat_viable(s1.skip(1), s2);
                    if s1.skip(1).len() == 0 {
                        assert(s1.skip(spec_token_len(s1)).len() == 0);
                        assert(spec_tokens(s1.skip(spec_token_len(s1))).len() == 0);
                        assert(spec_tokens(s1) =~= seq![spec_token1(s1)]);
                        assert(spec_tokens(s1).last() == TokenView::C0(C0::ESC));
                        assert(false);
                    } else {
                        let t1 = s1.skip(1);
                        assert forall|k: int|
                            0 <= k < t1.len() implies (#[trigger] t1[k]) == 0x20 || t1[k] == 0x3b
                            || (0x30 <= t1[k] <= 0x39) || t1[k] == 0x5b by {
                            if k >= 1 {
                                assert(t1[k] == s1[k + 1]);
                            }
                        }
                        lemma_charset_last_token(t1);
                        lemma_tokens_drop_first(s1);
                        assert(spec_tokens(s1).last() == spec_tokens(t1).last());
                        assert(!ok_last(spec_tokens(s1).last()));
                        assert(false);
                    }
                }
            },
        }
    } else if is_c0_byte(b) {
        // a single-byte control token, identical on both sides
    } else if valid_first_scalar(s1) {
        lemma_valid_first_scalar_extend(s1, s2);
        lemma_text_run_len_bounds(s1);
        let r = text_run_len(s1);
        assert(r >= 1) by {
            lemma_text_run_len_bounds(s1.skip(length_of_first_scalar(s1)));
        }
        if r == s1.len() {
            assert(s1.skip(r).len() == 0);
            assert(spec_tokens(s1).last() is Text);
            assert(false);
        } else {
            let d = s1[r];
            if is_c0_byte(d) {
                lemma_text_run_concat(s1, s2);
                assert(u.take(r) =~= s1.take(r));
            } else {
                // the run stopped at an undecodable byte
                assert(!valid_first_scalar(s1.skip(r))) by {
                    if valid_first_scalar(s1.skip(r)) {
                        assert(text_run_len(s1.skip(r)) >= 1) by {
                            lemma_text_run_len_bounds(
                                s1.skip(r).skip(length_of_first_scalar(s1.skip(r))),
                            );
                        }
                        lemma_run_stops(s1, r);
                        assert(false);
                    }
                }
                if valid_first_scalar(u.skip(r)) {
                    assert(u.skip(r) =~= s1.skip(r) + s2);
                    lemma_invalid_head_truncated(s1.skip(r), s2);
                    lemma_truncated_tail_tokens(s1.skip(r));
                    assert(spec_token_len(s1) == r);
                    lemma_tokens_drop_first(s1);
                    assert(spec_tokens(s1).last() == spec_tokens(s1.skip(r)).last());
                    assert(false);
                } else {
                    lemma_text_run_concat(s1, s2);
                    assert(u.take(r) =~= s1.take(r));
                }
            }
        }
    } else {
        // an undecodable byte: a replacement token on the left side
        if valid_first_scalar(u) {
            lemma_invalid_head_truncated(s1, s2);
            lemma_truncated_tail_tokens(s1);
            assert(false);
        }
    }
}

/// The suffix of a buffer from its text run's end on has an empty run.
proof fn lemma_run_stops(s: Seq<u8>, r: int)
    requires
        0 <= r < s.len(),
        r == text_run_len(s),
        s.len() > 0 && !is_c0_byte(s[0]) && valid_first_scalar(s),
    ensures
        text_run_len(s.skip(r)) == 0,
    decreases s.len(),
{
    let l = length_of_first_scalar(s);
    lemma_text_run_len_bounds(s.skip(l));
    if l <= r {
        let s1 = s.skip(l);
        assert(text_run_len(s1) == r - l);
        assert(s.skip(r) =~= s1.skip(r - l));
        if r - l == 0 {
            // run of the suffix is empty by definition of the stop
            assert(text_run_len(s1) == 0);
        } else {
            lemma_run_stops(s1, r - l);
        }
    }
}

/// Streaming correctness under fragmentation: tokenizing two buffers
/// separately yields the same token sequence as tokenizing their
/// concatenation, provided the first buffer ends at a stable token boundary
/// ([`split_ok`]).  Splits inside an escape sequence are the documented
/// resynchronization hazard, and splits inside a text run or a multi-byte
/// scalar merge tokens; `split_ok` excludes exactly the buffers whose last
/// token could so interact with the next buffer.
pub proof fn lemma_tokens_concat(s1: Seq<u8>, s2: Seq<u8>)
    requires
        split_ok(s1),
    ensures
        spec_tokens(s1 + s2) == spec_tokens(s1) + spec_tokens(s2),
    decreases s1.len(),
{
    if s1.len() == 0 {
        assert(s1 + s2 =~= s2);
        assert(spec_tokens(s1) + spec_tokens(s2) =~= spec_tokens(s2));
    } else {
        lemma_step_stable(s1, s2);
        lemma_token_len_bounds(s1);
        let k = spec_token_len(s1);
        let s1r = s1.skip(k);
        assert((s1 + s2).skip(k) =~= s1r + s2);
        if s1r.len() > 0 {
            lemma_tokens_drop_first(s1);
            assert(spec_tokens(s1r).len() > 0);
            assert(spec_tokens(s1r).last() == spec_tokens(s1).last());
        }
        lemma_tokens_concat(s1r, s2);
        assert(spec_tokens(s1 + s2) =~= spec_tokens(s1) + spec_tokens(s2));
    }
}

/// A value whose bytes can be tokenized.
pub trait AnsiParser {
    /// The bytes this value presents to the tokenizer.
    spec fn token_source(&self) -> Seq<u8>;

    /// A fresh cursor over this value's bytes.
    fn ansi_parse(&self) -> (r: AnsiParseIterator<'_>)
        ensures
            r.wf(),
            r.remaining() == self.token_source(),
    ;
}

impl AnsiParser for [u8] {
    open spec fn token_source(&self) -> Seq<u8> {
        self@
    }

    fn ansi_parse(&self) -> (r: AnsiParseIterator<'_>) {
        AnsiParseIterator::new(self)
    }
}

impl AnsiParser for Vec<u8> {
    open spec fn token_source(&self) -> Seq<u8> {
        self@
    }

    fn ansi_parse(&self) -> (r: AnsiParseIterator<'_>) {
        AnsiParseIterator::new(self.as_slice())
    }
}

impl AnsiParser for str {
    open spec fn token_source(&self) -> Seq<u8> {
        vstd::utf8::encode_utf8(self@)
    }

    fn ansi_parse(&self) -> (r: AnsiParseIterator<'_>) {
        AnsiParseIterator::new(self.as_bytes())
    }
}

impl AnsiParser for String {
    open spec fn token_source(&self) -> Seq<u8> {
        vstd::utf8::encode_utf8(self@)
    }

    fn ansi_parse(&self) -> (r: AnsiParseIterator<'_>) {
        AnsiParseIterator::new(self.as_str().as_bytes())
    }
}

} // verus!
