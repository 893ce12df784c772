//! The session configuration and the user's editable input line.  The
//! configuration is an explicit value threaded into whatever needs it; there
//! is no ambient state.

use vstd::prelude::*;

verus! {

use vstd::utf8::char_is_scalar;
use vstd::utf8::encode_scalar;
use vstd::utf8::encode_utf8;
use vstd::utf8::is_scalar;

/// The command-line configuration: the shell to spawn and the logging
/// switches, in increasing order of noise.
#[derive(Debug, Clone)]
pub struct Flags {
    /// Path to the shell to run on the pty.
    pub shell: Option<String>,
    /// No logging at all.
    pub quiet: bool,
    /// Log errors.
    pub verbose: bool,
    /// Log debug output.
    pub debug: bool,
    /// Log everything.
    pub vomit: bool,
    /// Display the version instead of running.
    pub version: bool,
}

impl Default for Flags {
    /// All switches off and no shell chosen.
    fn default() -> (r: Self)
        ensures
            r.shell is None,
            !r.quiet,
            !r.verbose,
            !r.debug,
            !r.vomit,
            !r.version,
    {
        Flags {
            shell: None,
            quiet: false,
            verbose: false,
            debug: false,
            vomit: false,
            version: false,
        }
    }
}

/// Appending one character extends the UTF-8 encoding by that character's
/// encoding.
proof fn lemma_encode_utf8_push(cs: Seq<char>, c: char)
    ensures
        encode_utf8(cs.push(c)) == encode_utf8(cs) + encode_scalar(c as u32),
    decreases cs.len(),
{
    if cs.len() == 0 {
        assert(cs.push(c)[0] == c);
        assert(cs.push(c).drop_first() =~= Seq::<char>::empty());
        assert(encode_utf8(cs) + encode_scalar(c as u32) =~= encode_scalar(c as u32) + encode_utf8(
            Seq::<char>::empty(),
        ));
    } else {
        lemma_encode_utf8_push(cs.drop_first(), c);
        assert(cs.push(c)[0] == cs[0]);
        assert(cs.push(c).drop_first() =~= cs.drop_first().push(c));
        assert(encode_scalar(cs[0] as u32) + (encode_utf8(cs.drop_first()) + encode_scalar(
            c as u32,
        )) =~= (encode_scalar(cs[0] as u32) + encode_utf8(cs.drop_first())) + encode_scalar(
            c as u32,
        ));
    }
}

/// The user's editable input line: the characters typed so far and the
/// cursor position within them, counted in characters.
#[derive(Debug)]
pub struct InputLine {
    chars: Vec<char>,
    cursor_index: usize,
}

impl InputLine {
    /// The characters of the line.
    pub closed spec fn text(self) -> Seq<char> {
        self.chars@
    }

    /// The cursor position, in characters from the start of the line.
    pub closed spec fn cursor(self) -> int {
        self.cursor_index as int
    }

    /// The cursor always sits between two characters of the line (or at an
    /// end).
    pub open spec fn wf(self) -> bool {
        0 <= self.cursor() <= self.text().len()
    }

    /// An empty line.
    pub fn new() -> (r: Self)
        ensures
            r.wf(),
            r.text() == Seq::<char>::empty(),
            r.cursor() == 0,
    {
        let r = InputLine { chars: Vec::new(), cursor_index: 0 };
        proof {
            assert(r.text() =~= Seq::<char>::empty());
        }
        r
    }

    /// Insert a character at the cursor and advance the cursor past it.
    pub fn input_char(&mut self, c: char)
        requires
            old(self).wf(),
        ensures
            final(self).wf(),
            final(self).text() == old(self).text().insert(old(self).cursor(), c),
            final(self).cursor() == old(self).cursor() + 1,
    {
        self.chars.insert(self.cursor_index, c);
        let n: usize = self.chars.len();
        proof {
            assert(self.cursor_index < n);
        }
        self.cursor_index = self.cursor_index + 1;
    }

    /// Move the cursor one character left, stopping at the start.
    pub fn cursor_left(&mut self)
        requires
            old(self).wf(),
        ensures
            final(self).wf(),
            final(self).text() == old(self).text(),
            final(self).cursor() == if old(self).cursor() > 0 {
                old(self).cursor() - 1
            } else {
                0int
            },
    {
        if self.cursor_index > 0 {
            self.cursor_index = self.cursor_index - 1;
        }
    }

    /// Move the cursor one character right, stopping at the end.
    pub fn cursor_right(&mut self)
        requires
            old(self).wf(),
        ensures
            final(self).wf(),
            final(self).text() == old(self).text(),
            final(self).cursor() == if old(self).cursor() < old(self).text().len() {
                old(self).cursor() + 1
            } else {
                old(self).text().len() as int
            },
    {
        if self.cursor_index < self.chars.len() {
            self.cursor_index = self.cursor_index + 1;
        }
    }

    /// Move the cursor to the start of the line.
    pub fn cursor_home(&mut self)
        requires
            old(self).wf(),
        ensures
            final(self).wf(),
            final(self).text() == old(self).text(),
            final(self).cursor() == 0,
    {
        self.cursor_index = 0;
    }

    /// Move the cursor to the end of the line.
    pub fn cursor_end(&mut self)
        requires
            old(self).wf(),
        ensures
            final(self).wf(),
            final(self).text() == old(self).text(),
            final(self).cursor() == old(self).text().len(),
    {
        self.cursor_index = self.chars.len();
    }

    /// The characters of the line, for display.
    pub fn chars(&self) -> (r: &Vec<char>)
        ensures
            r@ == self.text(),
    {
        &self.chars
    }

    /// The line as UTF-8 bytes with a trailing newline, ready to hand to the
    /// pty; the line and the cursor reset to empty.
    #[verifier::loop_isolation(false)]
    pub fn submit(&mut self) -> (out: Vec<u8>)
        requires
            old(self).wf(),
        ensures
            final(self).wf(),
            final(self).text().len() == 0,
            final(self).cursor() == 0,
            out@ == encode_utf8(old(self).text().push('\n')),
    {
        let mut out: Vec<u8> = Vec::new();
        let mut i: usize = 0;
        proof {
            assert(self.chars@.take(0) =~= Seq::<char>::empty());
            assert(out@ =~= encode_utf8(self.chars@.take(0)));
        }
        while i < self.chars.len()
            invariant
                i <= self.chars@.len(),
                self.chars@ == old(self).text(),
                self.cursor_index == old(self).cursor_index,
                out@ == encode_utf8(old(self).text().take(i as int)),
            decreases self.chars@.len() - i,
        {
            let c: char = self.chars[i];
            proof {
                char_is_scalar(c);
            }
            let mut bs: Vec<u8> = crate::scalar::scalar_to_bytes(c as u32);
            proof {
                assert(old(self).text().take(i + 1 as int) =~= old(self).text().take(
                    i as int,
                ).push(c));
                lemma_encode_utf8_push(old(self).text().take(i as int), c);
            }
            out.append(&mut bs);
            i = i + 1;
        }
        proof {
            assert(old(self).text().take(old(self).text().len() as int) =~= old(self).text());
            lemma_encode_utf8_push(old(self).text(), '\n');
            assert(('\n' as u32) == 0x0a);
            assert(is_scalar(0x0a));
        }
        let mut nl: Vec<u8> = crate::scalar::scalar_to_bytes(0x0a);
        out.append(&mut nl);
        self.chars.clear();
        self.cursor_index = 0;
        proof {
            assert(('\n' as u32) == 0x0a);
        }
        out
    }
}

} // verus!
