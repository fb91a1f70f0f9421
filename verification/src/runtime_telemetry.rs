//! Bookkeeping of the runtime's telemetry session: when its reports are
//! written out, and how names become safe path components.

use vstd::prelude::*;
use vstd::string::{StrSliceExecFns, StringExecFns};

use crate::text::chars_of;

verus! {

broadcast use vstd::string::group_string_axioms;

/// Characters kept in a path component: ASCII letters and digits, `-`, `_`.
pub open spec fn path_safe(c: char) -> bool {
    ('a' <= c <= 'z') || ('A' <= c <= 'Z') || ('0' <= c <= '9') || c == '-' || c == '_'
}

/// `s` with every other character replaced by `_`.
pub open spec fn sanitized(s: Seq<char>) -> Seq<char> {
    s.map_values(|c: char| if path_safe(c) { c } else { '_' })
}

/// Make a name usable as one component of a file path.
pub fn sanitize_component(value: &str) -> (r: String)
    ensures
        r@ == sanitized(value@),
{
    proof {
        reveal_strlit("_");
    }
    let cs = chars_of(value);
    let n = cs.len();
    let mut out = String::new();
    let mut i: usize = 0;
    while i < n
        invariant
            n == cs@.len(),
            cs@ == value@,
            i <= n,
            out@ == sanitized(value@.subrange(0, i as int)),
        decreases n - i,
    {
        let c = cs[i];
        let ghost before = out@;
        let keep = ('a' <= c && c <= 'z') || ('A' <= c && c <= 'Z') || ('0' <= c && c <= '9') || c == '-' || c == '_';
        if keep {
            out.append(value.substring_char(i, i + 1));
        } else {
            out.append("_");
        }
        proof {
            reveal_strlit("_");
            assert("_"@ =~= seq!['_']);
            assert(keep == path_safe(c));
            assert(out@ =~= before.push(if path_safe(c) { c } else { '_' }));
            assert(value@.subrange(0, i + 1) =~= value@.subrange(0, i as int).push(c));
            assert(value@.subrange(i as int, i + 1) =~= seq![c]);
            assert(sanitized(value@.subrange(0, i + 1)) =~= sanitized(value@.subrange(0, i as int)).push(
                if path_safe(c) { c } else { '_' },
            ));
            assert(out@ =~= sanitized(value@.subrange(0, i + 1)));
        }
        i = i + 1;
    }
    proof {
        assert(value@.subrange(0, n as int) =~= value@);
    }
    out
}

/// Whether the session's reports are written out now (native builds): at
/// the start, when its status changes, and every thirtieth frame.
pub open spec fn should_persist_spec(frame_count: usize, status_changed: bool, last_persisted_frame_count: usize) -> bool {
    frame_count == 0 || status_changed || (frame_count != last_persisted_frame_count && frame_count % 30 == 0)
}

pub fn should_persist_now(frame_count: usize, status_changed: bool, last_persisted_frame_count: usize) -> (r: bool)
    ensures
        r == should_persist_spec(frame_count, status_changed, last_persisted_frame_count),
{
    frame_count == 0 || status_changed || (frame_count != last_persisted_frame_count && frame_count % 30 == 0)
}

} // verus!
