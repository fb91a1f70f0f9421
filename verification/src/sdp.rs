//! Cleaning remote session descriptions before they reach the peer
//! connection, and recognising STUN datagrams on a shared socket.

use vstd::prelude::*;
use vstd::string::{StrSliceExecFns, StringExecFns};

use crate::text::{chars_of, is_white_space, white_space};

verus! {

broadcast use vstd::string::group_string_axioms;

/// Index of the first `'\n'` at or after `i` (the length if none).
pub open spec fn first_newline(s: Seq<char>, i: int) -> int
    decreases s.len() - i,
{
    if i >= s.len() {
        s.len() as int
    } else if s[i] == '\n' {
        i
    } else {
        first_newline(s, i + 1)
    }
}

/// `end` moved left past every `'\r'` that ends `s[start..end]`.
pub open spec fn trimmed_end(s: Seq<char>, start: int, end: int) -> int
    decreases end - start,
{
    if end > start && s[end - 1] == '\r' {
        trimmed_end(s, start, end - 1)
    } else {
        end
    }
}

/// `s` minus the prefix `p`, if `s` starts with `p`.
pub open spec fn strip_prefix(s: Seq<char>, p: Seq<char>) -> Option<Seq<char>> {
    if p.len() <= s.len() && s.subrange(0, p.len() as int) == p {
        Some(s.subrange(p.len() as int, s.len() as int))
    } else {
        None
    }
}

/// The fields of an ICE candidate line, if `line` is one.
pub open spec fn candidate_body(line: Seq<char>) -> Option<Seq<char>> {
    match strip_prefix(line, "a=candidate:"@) {
        Some(b) => Some(b),
        None => strip_prefix(line, "candidate:"@),
    }
}

/// First index at or after `i` that is not white space.
pub open spec fn skip_space(s: Seq<char>, i: int) -> int
    decreases s.len() - i,
{
    if i >= s.len() || !is_white_space(s[i]) {
        i
    } else {
        skip_space(s, i + 1)
    }
}

/// First index at or after `i` that is white space.
pub open spec fn token_end(s: Seq<char>, i: int) -> int
    decreases s.len() - i,
{
    if i >= s.len() || is_white_space(s[i]) {
        i
    } else {
        token_end(s, i + 1)
    }
}

/// The `n`-th white-space separated token of `s` from `i` on (empty if
/// there are fewer).
pub open spec fn nth_token(s: Seq<char>, i: int, n: nat) -> Seq<char>
    decreases s.len() + 1 - i, n,
{
    let a = skip_space(s, i);
    if i < 0 || a < i || a >= s.len() {
        Seq::empty()
    } else {
        let b = token_end(s, a);
        if n == 0 || b <= a || b > s.len() {
            s.subrange(a, b)
        } else {
            nth_token(s, b, (n - 1) as nat)
        }
    }
}

/// ASCII lower-casing of one character.
pub open spec fn ascii_lower(c: char) -> char {
    if 'A' <= c && c <= 'Z' {
        ((c as u32) + 32) as char
    } else {
        c
    }
}

/// `addr` ends in `.local` (ASCII case-insensitively): an mDNS host name.
pub open spec fn is_mdns_name(addr: Seq<char>) -> bool {
    &&& addr.len() >= 6
    &&& forall|k: int| 0 <= k < 6 ==> ascii_lower(#[trigger] addr[addr.len() - 6 + k]) == ".local"@[k]
}

/// `addr` contains a `':'` (an IPv6 address).
pub open spec fn has_colon(addr: Seq<char>) -> bool {
    exists|k: int| 0 <= k < addr.len() && #[trigger] addr[k] == ':'
}

/// A line survives unless it is a candidate whose address (the fifth field)
/// is an mDNS name, or an IPv6 address when IPv6 is not allowed.
pub open spec fn keep_line(allow_ipv6: bool, line: Seq<char>) -> bool {
    match candidate_body(line) {
        None => true,
        Some(body) => {
            let addr = nth_token(body, 0, 4);
            !is_mdns_name(addr) && (allow_ipv6 || !has_colon(addr))
        },
    }
}

/// The sanitized text of the lines of `s` from index `i` on: each kept line,
/// without its line terminator and trailing `'\r'`s, followed by `"\r\n"`.
pub open spec fn sanitize_from(allow_ipv6: bool, s: Seq<char>, i: int) -> Seq<char>
    decreases s.len() + 1 - i,
{
    if i < 0 || i >= s.len() {
        Seq::empty()
    } else {
        let nl = first_newline(s, i);
        if nl < i || nl > s.len() {
            Seq::empty()
        } else {
            let line = s.subrange(i, trimmed_end(s, i, nl));
            let rest = sanitize_from(allow_ipv6, s, nl + 1);
            if keep_line(allow_ipv6, line) {
                line + "\r\n"@ + rest
            } else {
                rest
            }
        }
    }
}

proof fn lemma_first_newline(s: Seq<char>, i: int)
    requires
        0 <= i,
    ensures
        i <= first_newline(s, i) <= s.len() || (i > s.len() && first_newline(s, i) == s.len()),
        first_newline(s, i) < s.len() ==> s[first_newline(s, i)] == '\n',
        forall|k: int| i <= k < first_newline(s, i) ==> s[k] != '\n',
    decreases s.len() - i,
{
    if i < s.len() && s[i] != '\n' {
        lemma_first_newline(s, i + 1);
    }
}

proof fn lemma_trimmed_end(s: Seq<char>, start: int, end: int)
    requires
        start <= end,
    ensures
        start <= trimmed_end(s, start, end) <= end,
    decreases end - start,
{
    if end > start && s[end - 1] == '\r' {
        lemma_trimmed_end(s, start, end - 1);
    }
}

/// The copy of `cs[start..end]`.
fn copy_range(cs: &Vec<char>, start: usize, end: usize) -> (r: Vec<char>)
    requires
        start <= end <= cs@.len(),
    ensures
        r@ == cs@.subrange(start as int, end as int),
{
    let mut out: Vec<char> = Vec::new();
    let mut k = start;
    while k < end
        invariant
            start <= k <= end <= cs@.len(),
            out@ == cs@.subrange(start as int, k as int),
        decreases end - k,
    {
        out.push(cs[k]);
        k = k + 1;
    }
    out
}

/// Where the fields of a candidate line begin, if it is one.
fn candidate_start(line: &Vec<char>) -> (r: Option<usize>)
    ensures
        match candidate_body(line@) {
            None => r is None,
            Some(b) => r matches Some(k) && k <= line@.len() && b == line@.subrange(
                k as int,
                line@.len() as int,
            ),
        },
{
    let long = chars_of("a=candidate:");
    let short = chars_of("candidate:");
    if starts_with(line, &long) {
        return Some(long.len());
    }
    if starts_with(line, &short) {
        return Some(short.len());
    }
    None
}

/// Whether `s` starts with `p`.
fn starts_with(s: &Vec<char>, p: &Vec<char>) -> (r: bool)
    ensures
        r == (p@.len() <= s@.len() && s@.subrange(0, p@.len() as int) == p@),
{
    let m = p.len();
    if m > s.len() {
        return false;
    }
    let mut k: usize = 0;
    while k < m
        invariant
            m == p@.len(),
            m <= s@.len(),
            k <= m,
            forall|t: int| 0 <= t < k ==> s@[t] == p@[t],
        decreases m - k,
    {
        if s[k] != p[k] {
            assert(s@.subrange(0, m as int)[k as int] != p@[k as int]);
            return false;
        }
        k = k + 1;
    }
    assert(s@.subrange(0, m as int) =~= p@);
    true
}

/// First index at or after `i` in `s` that is not white space.
fn skip_space_exec(s: &Vec<char>, i: usize) -> (r: usize)
    requires
        i <= s@.len(),
    ensures
        r == skip_space(s@, i as int),
        i <= r <= s@.len(),
{
    let mut k = i;
    while k < s.len() && white_space(s[k])
        invariant
            i <= k <= s@.len(),
            skip_space(s@, k as int) == skip_space(s@, i as int),
        decreases s@.len() - k,
    {
        k = k + 1;
    }
    k
}

/// First index at or after `i` in `s` that is white space.
fn token_end_exec(s: &Vec<char>, i: usize) -> (r: usize)
    requires
        i <= s@.len(),
    ensures
        r == token_end(s@, i as int),
        i <= r <= s@.len(),
{
    let mut k = i;
    while k < s.len() && !white_space(s[k])
        invariant
            i <= k <= s@.len(),
            token_end(s@, k as int) == token_end(s@, i as int),
        decreases s@.len() - k,
    {
        k = k + 1;
    }
    k
}

/// The fifth white-space separated token of `s[from..]`.
fn fifth_token(s: &Vec<char>, from: usize) -> (r: Vec<char>)
    requires
        from <= s@.len(),
    ensures
        r@ == nth_token(s@, from as int, 4),
{
    let mut i = from;
    let mut n: usize = 4;
    while n > 0
        invariant
            from <= i <= s@.len(),
            n <= 4,
            nth_token(s@, i as int, n as nat) == nth_token(s@, from as int, 4),
        decreases n,
    {
        let a = skip_space_exec(s, i);
        if a >= s.len() {
            return Vec::new();
        }
        let b = token_end_exec(s, a);
        if b <= a {
            return copy_range(s, a, b);
        }
        i = b;
        n = n - 1;
    }
    let a = skip_space_exec(s, i);
    if a >= s.len() {
        return Vec::new();
    }
    let b = token_end_exec(s, a);
    copy_range(s, a, b)
}

/// Whether `c` lower-cases (ASCII) to `t`.
fn lower_is(c: char, t: char) -> (r: bool)
    ensures
        r == (ascii_lower(c) == t),
{
    let cv = c as u32;
    let lv: u32 = if 65 <= cv && cv <= 90 {
        cv + 32
    } else {
        cv
    };
    lv == (t as u32)
}

/// Whether `addr` is an mDNS host name.
fn mdns_name(addr: &Vec<char>) -> (r: bool)
    ensures
        r == is_mdns_name(addr@),
{
    let suffix = chars_of(".local");
    proof {
        reveal_strlit(".local");
    }
    let n = addr.len();
    if n < 6 {
        return false;
    }
    let mut k: usize = 0;
    while k < 6
        invariant
            n == addr@.len(),
            n >= 6,
            suffix@ == ".local"@,
            suffix@.len() == 6,
            k <= 6,
            forall|t: int| 0 <= t < k ==> ascii_lower(#[trigger] addr@[n - 6 + t]) == ".local"@[t],
        decreases 6 - k,
    {
        if !lower_is(addr[n - 6 + k], suffix[k]) {
            return false;
        }
        k = k + 1;
    }
    true
}

/// Whether `addr` contains a `':'`.
fn colon_in(addr: &Vec<char>) -> (r: bool)
    ensures
        r == has_colon(addr@),
{
    let n = addr.len();
    let mut k: usize = 0;
    while k < n
        invariant
            n == addr@.len(),
            k <= n,
            forall|t: int| 0 <= t < k ==> addr@[t] != ':',
        decreases n - k,
    {
        if addr[k] == ':' {
            return true;
        }
        k = k + 1;
    }
    false
}

/// Whether a line survives sanitizing.
fn keep_line_exec(allow_ipv6: bool, line: &Vec<char>) -> (r: bool)
    ensures
        r == keep_line(allow_ipv6, line@),
{
    match candidate_start(line) {
        None => true,
        Some(k) => {
            let body = copy_range(line, k, line.len());
            let addr = fifth_token(&body, 0);
            if mdns_name(&addr) {
                return false;
            }
            if !allow_ipv6 && colon_in(&addr) {
                return false;
            }
            true
        },
    }
}

/// Drop ICE candidates the local socket cannot reach (mDNS host names, and
/// IPv6 addresses unless `allow_ipv6`), normalising every line ending to
/// `"\r\n"`.
pub fn sanitize_remote_sdp(allow_ipv6: bool, sdp: &str) -> (r: String)
    ensures
        r@ == sanitize_from(allow_ipv6, sdp@, 0),
{
    proof {
        reveal_strlit("\r\n");
    }
    let cs = chars_of(sdp);
    let n = cs.len();
    let mut out = String::new();
    let mut i: usize = 0;
    while i < n
        invariant
            n == cs@.len(),
            cs@ == sdp@,
            i <= n,
            out@ + sanitize_from(allow_ipv6, sdp@, i as int) == sanitize_from(allow_ipv6, sdp@, 0),
        decreases n - i,
    {
        let mut nl = i;
        while nl < n && cs[nl] != '\n'
            invariant
                i <= nl <= n,
                n == cs@.len(),
                first_newline(cs@, nl as int) == first_newline(cs@, i as int),
            decreases n - nl,
        {
            nl = nl + 1;
        }
        let mut e = nl;
        while e > i && cs[e - 1] == '\r'
            invariant
                i <= e <= nl <= n,
                n == cs@.len(),
                trimmed_end(cs@, i as int, e as int) == trimmed_end(cs@, i as int, nl as int),
            decreases e,
        {
            e = e - 1;
        }
        let line = copy_range(&cs, i, e);
        let ghost before = out@;
        if keep_line_exec(allow_ipv6, &line) {
            let text = sdp.substring_char(i, e);
            out.append(text);
            out.append("\r\n");
            proof {
                assert(out@ == before + line@ + "\r\n"@);
                assert(before + (line@ + "\r\n"@ + sanitize_from(allow_ipv6, sdp@, nl + 1)) =~= out@
                    + sanitize_from(allow_ipv6, sdp@, nl + 1));
            }
        }
        i = if nl < n {
            nl + 1
        } else {
            n
        };
    }
    proof {
        assert(out@ =~= out@ + sanitize_from(allow_ipv6, sdp@, i as int));
    }
    out
}

/// The fixed value of a STUN header's magic-cookie field (RFC 5389).
pub const STUN_MAGIC_COOKIE: u32 = 0x2112_A442;

/// A STUN message: at least a 20-byte header, the two top bits of the first
/// byte clear, and the magic cookie (big-endian) in bytes 4..8.
pub open spec fn stun_message_spec(buf: Seq<u8>) -> bool {
    &&& buf.len() >= 20
    &&& buf[0] < 0x40
    &&& buf[4] as int * 0x100_0000 + buf[5] as int * 0x1_0000 + buf[6] as int * 0x100 + buf[7] as int
        == STUN_MAGIC_COOKIE as int
}

/// Whether a datagram is a STUN message rather than peer traffic.
pub fn is_stun_message(buf: &[u8]) -> (r: bool)
    ensures
        r == stun_message_spec(buf@),
{
    if buf.len() < 20 {
        return false;
    }
    let b0 = buf[0];
    if b0 & 0b1100_0000u8 != 0 {
        assert(b0 >= 0x40) by (bit_vector)
            requires
                b0 & 0b1100_0000u8 != 0,
        ;
        return false;
    }
    assert(b0 < 0x40) by (bit_vector)
        requires
            b0 & 0b1100_0000u8 == 0,
    ;
    let cookie: u32 = (buf[4] as u32) * 0x100_0000 + (buf[5] as u32) * 0x1_0000 + (buf[6] as u32)
        * 0x100 + (buf[7] as u32);
    cookie == STUN_MAGIC_COOKIE
}

} // verus!
