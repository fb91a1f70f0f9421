//! Chat lines shown as bubbles over the speaker: plain speech, or an emote
//! written between `<i>` and `</i>`.

use vstd::prelude::*;
use vstd::string::StrSliceExecFns;

use crate::text::{chars_of, is_white_space, white_space};

verus! {

broadcast use vstd::string::group_string_axioms;

/// How a bubble is drawn.
#[derive(Debug, Clone, Copy, PartialEq, Eq, Structural)]
pub enum ChatBubbleStyle {
    Normal,
    Emote,
}

/// A bubble to show: its text, its style, and the entity it floats over
/// (by id; `None` for the local player).
#[derive(Debug, Clone)]
pub struct ChatBubbleEvent {
    pub message: String,
    pub style: ChatBubbleStyle,
    pub target: Option<u64>,
}

impl ChatBubbleEvent {
    pub fn normal(message: String) -> (r: ChatBubbleEvent)
        ensures
            r.message@ == message@,
            r.style == ChatBubbleStyle::Normal,
            r.target is None,
    {
        ChatBubbleEvent { message, style: ChatBubbleStyle::Normal, target: None }
    }

    pub fn emote(message: String) -> (r: ChatBubbleEvent)
        ensures
            r.message@ == message@,
            r.style == ChatBubbleStyle::Emote,
            r.target is None,
    {
        ChatBubbleEvent { message, style: ChatBubbleStyle::Emote, target: None }
    }

    /// An emote bubble for `<i>...</i>` input, a plain one otherwise.
    pub fn from_chat_input(input: &str) -> (r: ChatBubbleEvent)
        ensures
            r.target is None,
            match emote_text(input@) {
                Some(t) => r.style == ChatBubbleStyle::Emote && r.message@ == t,
                None => r.style == ChatBubbleStyle::Normal && r.message@ == input@,
            },
    {
        match strip_emote_tag(input) {
            Some(emote) => ChatBubbleEvent::emote(emote),
            None => ChatBubbleEvent::normal(input.to_owned()),
        }
    }
}

/// End of the white space that starts `s[i..]`.
pub open spec fn lead_end(s: Seq<char>, i: int) -> int
    decreases s.len() - i,
{
    if 0 <= i < s.len() && is_white_space(s[i]) {
        lead_end(s, i + 1)
    } else {
        i
    }
}

/// Start of the white space that ends `s[lo..j]`.
pub open spec fn trail_start(s: Seq<char>, lo: int, j: int) -> int
    decreases j - lo,
{
    if lo < j && j <= s.len() && is_white_space(s[j - 1]) {
        trail_start(s, lo, j - 1)
    } else {
        j
    }
}

/// `s` without leading and trailing white space (`str::trim`).
pub open spec fn trimmed(s: Seq<char>) -> Seq<char> {
    let a = lead_end(s, 0);
    s.subrange(a, trail_start(s, a, s.len() as int))
}

proof fn lemma_lead_end_bounds(s: Seq<char>, i: int)
    requires
        0 <= i <= s.len(),
    ensures
        i <= lead_end(s, i) <= s.len(),
    decreases s.len() - i,
{
    if i < s.len() && is_white_space(s[i]) {
        lemma_lead_end_bounds(s, i + 1);
    }
}

proof fn lemma_trail_start_bounds(s: Seq<char>, lo: int, j: int)
    requires
        0 <= lo <= j <= s.len(),
    ensures
        lo <= trail_start(s, lo, j) <= j,
    decreases j - lo,
{
    if lo < j && is_white_space(s[j - 1]) {
        lemma_trail_start_bounds(s, lo, j - 1);
    }
}

/// The bounds of `s[lo..hi]` trimmed.
fn trim_bounds(cs: &Vec<char>, lo: usize, hi: usize) -> (r: (usize, usize))
    requires
        lo <= hi <= cs@.len(),
    ensures
        lo <= r.0 <= r.1 <= hi,
        cs@.subrange(r.0 as int, r.1 as int) == trimmed(cs@.subrange(lo as int, hi as int)),
{
    let ghost s = cs@.subrange(lo as int, hi as int);
    let mut a = lo;
    while a < hi && white_space(cs[a])
        invariant
            lo <= a <= hi <= cs@.len(),
            s == cs@.subrange(lo as int, hi as int),
            lead_end(s, a - lo) == lead_end(s, 0),
        decreases hi - a,
    {
        a = a + 1;
    }
    let mut b = hi;
    while b > a && white_space(cs[b - 1])
        invariant
            lo <= a <= b <= hi <= cs@.len(),
            s == cs@.subrange(lo as int, hi as int),
            trail_start(s, a - lo, b - lo) == trail_start(s, a - lo, hi - lo),
        decreases b,
    {
        b = b - 1;
    }
    proof {
        assert(cs@.subrange(a as int, b as int) =~= s.subrange(a - lo, b - lo));
    }
    (a, b)
}

/// The text of an emote: `input` trimmed must start with `<i>` and end with
/// `</i>`; what lies between, trimmed, is the emote unless it is empty.
pub open spec fn emote_text(input: Seq<char>) -> Option<Seq<char>> {
    let t = trimmed(input);
    if t.len() >= 3 && t.subrange(0, 3) == seq!['<', 'i', '>'] && t.len() >= 4 && t.subrange(
        t.len() - 4,
        t.len() as int,
    ) == seq!['<', '/', 'i', '>'] {
        let inner = trimmed(t.subrange(3, t.len() - 4));
        if inner.len() == 0 {
            None
        } else {
            Some(inner)
        }
    } else {
        None
    }
}

/// The emote text of chat input, if it is an emote.
pub fn strip_emote_tag(input: &str) -> (r: Option<String>)
    ensures
        match emote_text(input@) {
            Some(t) => r matches Some(s) && s@ == t,
            None => r is None,
        },
{
    let cs = chars_of(input);
    let n = cs.len();
    let (a, b) = trim_bounds(&cs, 0, n);
    proof {
        assert(cs@.subrange(0, n as int) =~= input@);
    }
    let ghost t = trimmed(input@);
    let starts = b - a >= 3 && cs[a] == '<' && cs[a + 1] == 'i' && cs[a + 2] == '>';
    let ends = b - a >= 4 && cs[b - 4] == '<' && cs[b - 3] == '/' && cs[b - 2] == 'i' && cs[b - 1] == '>';
    proof {
        assert(t =~= cs@.subrange(a as int, b as int));
        if t.len() >= 3 {
            assert(starts == (t.subrange(0, 3) =~= seq!['<', 'i', '>'])) by {
                if t.subrange(0, 3) =~= seq!['<', 'i', '>'] {
                    assert(t.subrange(0, 3)[0] == '<');
                    assert(t.subrange(0, 3)[1] == 'i');
                    assert(t.subrange(0, 3)[2] == '>');
                }
            }
        }
        if t.len() >= 4 {
            let k = t.len() - 4;
            assert(ends == (t.subrange(k, t.len() as int) =~= seq!['<', '/', 'i', '>'])) by {
                if t.subrange(k, t.len() as int) =~= seq!['<', '/', 'i', '>'] {
                    assert(t.subrange(k, t.len() as int)[0] == '<');
                    assert(t.subrange(k, t.len() as int)[1] == '/');
                    assert(t.subrange(k, t.len() as int)[2] == 'i');
                    assert(t.subrange(k, t.len() as int)[3] == '>');
                }
            }
        }
    }
    if !starts || !ends {
        return None;
    }
    proof {
        // `<i>` and `</i>` cannot overlap: the tagged text is at least seven long.
        if b - a == 4 {
            assert(cs[a + 1] == 'i' && cs[(b - 3) as int] == '/');
        } else if b - a == 5 {
            assert(cs[a + 1] == 'i' && cs[(b - 4) as int] == '<');
        } else if b - a == 6 {
            assert(cs[a + 2] == '>' && cs[(b - 4) as int] == '<');
        }
    }
    let (c, d) = trim_bounds(&cs, a + 3, b - 4);
    proof {
        assert(cs@.subrange(a + 3, b - 4) =~= t.subrange(3, t.len() - 4));
    }
    if c == d {
        return None;
    }
    let inner = input.substring_char(c, d);
    Some(inner.to_owned())
}

} // verus!
