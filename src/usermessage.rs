use vstd::prelude::*;

verus! {

/// Who a chat line was addressed to, or that it announces a name change.
#[derive(Clone, Copy, Debug, PartialEq, Eq, Hash, Structural)]
pub enum ChatMessageKind {
    ChatAll,
    ChatTeam,
    ChatAllDead,
    ChatTeamDead,
    ChatAllSpec,
    NameChange,
    Empty,
}

/// A decoded `SayText2` user message.
#[derive(Debug)]
pub struct SayText2Message {
    pub client: u8,
    pub raw: u8,
    pub kind: ChatMessageKind,
    pub from: Option<String>,
    pub text: String,
}

/// The text of a chat line without its in-band formatting codes: the
/// characters `\u{0}` to `\u{6}` are dropped, `\u{7}` is dropped with the six
/// hex digits of the colour that follows it, `\u{8}` with the eight that
/// follow it.
pub open spec fn strip_formatting(s: Seq<char>) -> Seq<char>
    decreases s.len(),
{
    if s.len() == 0 {
        s
    } else if (s[0] as u32) <= 6 {
        strip_formatting(s.drop_first())
    } else if s[0] == '\u{7}' {
        if s.len() <= 7 {
            Seq::empty()
        } else {
            strip_formatting(s.subrange(7, s.len() as int))
        }
    } else if s[0] == '\u{8}' {
        if s.len() <= 9 {
            Seq::empty()
        } else {
            strip_formatting(s.subrange(9, s.len() as int))
        }
    } else {
        seq![s[0]] + strip_formatting(s.drop_first())
    }
}

/// Relies on std's `String::push`: appends one character at the end.
#[verifier::external_body]
fn push_char(s: &mut String, c: char)
    ensures
        final(s)@ == old(s)@.push(c),
{
    s.push(c)
}

impl SayText2Message {
    /// The message text with its formatting codes removed.
    pub fn plain_text(&self) -> (r: String)
        ensures
            r@ == strip_formatting(self.text@),
    {
        let text = self.text.as_str();
        let n = text.unicode_len();
        let mut out = String::new();
        let mut i: usize = 0;
        assert(self.text@.subrange(0, n as int) =~= self.text@);
        assert(out@ + strip_formatting(self.text@) =~= strip_formatting(self.text@));
        while i < n
            invariant
                n == self.text@.len(),
                text@ == self.text@,
                i <= n,
                out@ + strip_formatting(self.text@.subrange(i as int, n as int)) == strip_formatting(
                    self.text@,
                ),
            decreases n - i,
        {
            let ghost rest = self.text@.subrange(i as int, n as int);
            let c = text.get_char(i);
            assert(rest[0] == c);
            if (c as u32) <= 6 {
                assert(rest.drop_first() =~= self.text@.subrange(i + 1, n as int));
                i = i + 1;
            } else if c == '\u{7}' {
                if n - i <= 7 {
                    assert(strip_formatting(self.text@.subrange(n as int, n as int)) =~= Seq::empty());
                    assert(out@ + Seq::empty() =~= out@);
                    i = n;
                } else {
                    assert(rest.subrange(7, rest.len() as int) =~= self.text@.subrange(
                        i + 7,
                        n as int,
                    ));
                    i = i + 7;
                }
            } else if c == '\u{8}' {
                if n - i <= 9 {
                    assert(strip_formatting(self.text@.subrange(n as int, n as int)) =~= Seq::empty());
                    assert(out@ + Seq::empty() =~= out@);
                    i = n;
                } else {
                    assert(rest.subrange(9, rest.len() as int) =~= self.text@.subrange(
                        i + 9,
                        n as int,
                    ));
                    i = i + 9;
                }
            } else {
                let ghost before = out@;
                push_char(&mut out, c);
                assert(rest.drop_first() =~= self.text@.subrange(i + 1, n as int));
                assert(before + (seq![c] + strip_formatting(rest.drop_first())) =~= out@
                    + strip_formatting(rest.drop_first()));
                i = i + 1;
            }
        }
        assert(self.text@.subrange(n as int, n as int) =~= Seq::<char>::empty());
        assert(out@ + Seq::<char>::empty() =~= out@);
        out
    }
}

} // verus!
