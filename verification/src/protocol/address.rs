use vstd::prelude::*;
use crate::console::{all_digits, digits_value, is_digit};
use crate::text::{chars_of, string_from_chars};

verus! {

/// The first colon of `s` at or after `k`, or the end of `s`.
pub open spec fn colon_from(s: Seq<char>, k: int) -> int
    decreases s.len() - k,
{
    if k < 0 || k >= s.len() {
        s.len() as int
    } else if s[k] == ':' {
        k
    } else {
        colon_from(s, k + 1)
    }
}

proof fn lemma_colon_from(s: Seq<char>, k: int)
    requires
        0 <= k <= s.len(),
    ensures
        k <= colon_from(s, k) <= s.len(),
        colon_from(s, k) < s.len() ==> s[colon_from(s, k)] == ':',
        forall|j: int| k <= j < colon_from(s, k) ==> s[j] != ':',
    decreases s.len() - k,
{
    if k < s.len() && s[k] != ':' {
        lemma_colon_from(s, k + 1);
    }
}

/// The host of a `host:port` target: the text before the first colon.
pub open spec fn target_host(t: Seq<char>) -> Seq<char> {
    t.subrange(0, colon_from(t, 0))
}

/// The port text of a target: what follows the first colon, up to the next
/// one; `25565` when there is no colon.
pub open spec fn target_port(t: Seq<char>) -> Seq<char> {
    let i = colon_from(t, 0);
    if i == t.len() {
        "25565"@
    } else {
        t.subrange(i + 1, colon_from(t, i + 1))
    }
}

/// The first colon at or after `k`, or the length.
fn find_colon(c: &Vec<char>, k: usize) -> (r: usize)
    requires
        k <= c@.len(),
    ensures
        r == colon_from(c@, k as int),
{
    proof {
        lemma_colon_from(c@, k as int);
    }
    let mut i = k;
    while i < c.len()
        invariant
            k <= i <= c@.len(),
            colon_from(c@, k as int) == colon_from(c@, i as int),
        decreases c@.len() - i,
    {
        if c[i] == ':' {
            return i;
        }
        i = i + 1;
    }
    i
}

/// The characters of `c` from `from` up to `to`.
fn chars_between(c: &Vec<char>, from: usize, to: usize) -> (s: String)
    requires
        from <= to <= c@.len(),
    ensures
        s@ == c@.subrange(from as int, to as int),
{
    let mut v: Vec<char> = Vec::new();
    let mut i = from;
    while i < to
        invariant
            from <= i <= to,
            to <= c@.len(),
            v@ == c@.subrange(from as int, i as int),
        decreases to - i,
    {
        v.push(c[i]);
        proof {
            assert(v@ =~= c@.subrange(from as int, i + 1));
        }
        i = i + 1;
    }
    string_from_chars(v.as_slice())
}

/// Splits a `host:port` target into its host and port text (see
/// `target_host` and `target_port`).
pub fn split_target(target: &str) -> (r: (String, String))
    ensures
        r.0@ == target_host(target@),
        r.1@ == target_port(target@),
{
    let c = chars_of(target);
    let i = find_colon(&c, 0);
    proof {
        lemma_colon_from(c@, 0);
    }
    let host = chars_between(&c, 0, i);
    if i == c.len() {
        return (host, "25565".to_owned());
    }
    proof {
        lemma_colon_from(c@, 0);
    }
    let j = find_colon(&c, i + 1);
    proof {
        lemma_colon_from(c@, i + 1);
    }
    (host, chars_between(&c, i + 1, j))
}

/// The port a text denotes, as `str::parse::<u16>` reads it: an optional
/// `+`, then one or more decimal digits, at most 65535.
pub open spec fn port_value(s: Seq<char>) -> Option<u16> {
    let body = if s.len() > 0 && s[0] == '+' { s.drop_first() } else { s };
    if body.len() > 0 && all_digits(body) && digits_value(body) <= 65535 {
        Some(digits_value(body) as u16)
    } else {
        None
    }
}

/// Reads a port number (see `port_value`).
pub fn parse_port(s: &str) -> (r: Option<u16>)
    ensures
        r == port_value(s@),
{
    let c = chars_of(s);
    let start: usize = if c.len() > 0 && c[0] == '+' { 1 } else { 0 };
    let ghost body = if s@.len() > 0 && s@[0] == '+' { s@.drop_first() } else { s@ };
    proof {
        assert(body =~= c@.subrange(start as int, c@.len() as int));
    }
    if start == c.len() {
        return None;
    }
    let mut acc: u32 = 0;
    let mut i = start;
    while i < c.len()
        invariant
            c@ == s@,
            start <= i <= c@.len(),
            body == c@.subrange(start as int, c@.len() as int),
            body == (if s@.len() > 0 && s@[0] == '+' { s@.drop_first() } else { s@ }),
            body.len() > 0,
            all_digits(body.subrange(0, i - start)),
            acc as nat == digits_value(body.subrange(0, i - start)),
            acc <= 65535,
        decreases c@.len() - i,
    {
        let d = c[i];
        if !('0' <= d && d <= '9') {
            proof {
                assert(body[i - start] == d);
                assert(!is_digit(body[i - start]));
                assert(!all_digits(body));
            }
            return None;
        }
        proof {
            assert(body.subrange(0, i - start + 1).drop_last() =~= body.subrange(0, i - start));
            assert(body.subrange(0, i - start + 1).last() == d);
            assert(all_digits(body.subrange(0, i - start + 1)));
        }
        acc = acc * 10 + (d as u32 - 48);
        if acc > 65535 {
            proof {
                lemma_digits_prefix_bound(body, i - start + 1);
                assert(digits_value(body.subrange(0, i - start + 1)) == acc);
            }
            return None;
        }
        i = i + 1;
    }
    proof {
        assert(body.subrange(0, c@.len() - start) =~= body);
    }
    Some(acc as u16)
}

/// A run of digits is worth at least as much as any of its prefixes.
proof fn lemma_digits_prefix_bound(s: Seq<char>, k: int)
    requires
        0 <= k <= s.len(),
    ensures
        all_digits(s) ==> digits_value(s.subrange(0, k)) <= digits_value(s),
    decreases s.len() - k,
{
    if k < s.len() {
        lemma_digits_prefix_bound(s, k + 1);
        assert(s.subrange(0, k + 1).drop_last() =~= s.subrange(0, k));
    } else {
        assert(s.subrange(0, k) =~= s);
    }
}

} // verus!
