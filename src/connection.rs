//! Reading the `host[:port]` form a target's address is written in.

use vstd::prelude::*;

verus! {

/// The port an SSH server listens on unless told otherwise.
pub const DEFAULT_SSH_PORT: u16 = 22;

/// Seconds that a dial, a read or a write may stall.
pub const CONNECT_TIMEOUT_SECS: u64 = 5;

pub open spec fn is_digit(c: char) -> bool {
    '0' <= c && c <= '9'
}

pub open spec fn all_digits(s: Seq<char>) -> bool {
    forall|i: int| 0 <= i < s.len() ==> is_digit(#[trigger] s[i])
}

/// The number a string of decimal digits writes.
pub open spec fn digits_value(s: Seq<char>) -> int
    decreases s.len(),
{
    if s.len() == 0 {
        0
    } else {
        digits_value(s.drop_last()) * 10 + (s.last() as int - '0' as int)
    }
}

/// A port as `u16`'s `FromStr` reads it: an optional `+`, then one or more decimal
/// digits whose value fits in 16 bits.
pub open spec fn port_of(s: Seq<char>) -> Option<u16> {
    let body = if s.len() > 0 && s[0] == '+' { s.subrange(1, s.len() as int) } else { s };
    if body.len() > 0 && all_digits(body) && digits_value(body) <= u16::MAX as int {
        Some(digits_value(body) as u16)
    } else {
        None
    }
}

/// A longer prefix of digits is worth at least as much.
proof fn lemma_digits_monotone(s: Seq<char>, i: int)
    requires
        all_digits(s),
        0 <= i <= s.len(),
    ensures
        digits_value(s.take(i)) <= digits_value(s),
        digits_value(s) >= 0,
    decreases s.len(),
{
    if s.len() > 0 {
        let t = s.drop_last();
        assert(all_digits(t)) by {
            assert forall|k: int| 0 <= k < t.len() implies is_digit(#[trigger] t[k]) by {
                assert(t[k] == s[k]);
            }
        }
        if i < s.len() {
            assert(t.take(i) =~= s.take(i));
            lemma_digits_monotone(t, i);
        } else {
            assert(s.take(i) =~= s);
            lemma_digits_monotone(t, 0);
        }
    } else {
        assert(s.take(i) =~= s);
    }
}

/// Executable form of [`port_of`].
pub fn parse_port(s: &str) -> (r: Option<u16>)
    ensures
        r == port_of(s@),
{
    let n = s.unicode_len();
    let start: usize = if n > 0 && s.get_char(0) == '+' { 1 } else { 0 };
    let ghost body = if s@.len() > 0 && s@[0] == '+' { s@.subrange(1, s@.len() as int) } else { s@ };
    if start >= n {
        return None;
    }
    let mut acc: u32 = 0;
    let mut i: usize = start;
    proof {
        assert(body.take(0) =~= Seq::<char>::empty());
    }
    while i < n
        invariant
            start <= i <= n,
            n == s@.len(),
            body =~= s@.subrange(start as int, n as int),
            body == (if s@.len() > 0 && s@[0] == '+' { s@.subrange(1, s@.len() as int) } else { s@ }),
            all_digits(body.take(i - start)),
            acc as int == digits_value(body.take(i - start)),
            acc <= 65535,
        decreases n - i,
    {
        let c = s.get_char(i);
        if !('0' <= c && c <= '9') {
            proof {
                assert(body[i - start] == c);
                assert(!is_digit(body[i - start]));
                assert(!all_digits(body));
            }
            return None;
        }
        let next: u32 = acc * 10 + (c as u32 - '0' as u32);
        proof {
            let t = body.take(i - start + 1);
            assert(t.drop_last() =~= body.take(i - start));
            assert(t.last() == c);
            assert(all_digits(t)) by {
                assert forall|k: int| 0 <= k < t.len() implies is_digit(#[trigger] t[k]) by {
                    if k < t.len() - 1 {
                        assert(t[k] == body.take(i - start)[k]);
                    }
                }
            }
        }
        proof {
            let t = body.take(i - start + 1);
            assert(digits_value(t) == digits_value(t.drop_last()) * 10 + (c as int - '0' as int));
            assert(next as int == digits_value(t));
        }
        if next > 65535 {
            proof {
                if all_digits(body) {
                    lemma_digits_monotone(body, i - start + 1);
                }
            }
            return None;
        }
        acc = next;
        i = i + 1;
    }
    proof {
        assert(body.take(n - start) =~= body);
    }
    Some(acc as u16)
}

/// How many times `c` occurs in `s`.
pub open spec fn occurrences(s: Seq<char>, c: char) -> nat
    decreases s.len(),
{
    if s.len() == 0 {
        0
    } else {
        occurrences(s.drop_last(), c) + if s.last() == c { 1nat } else { 0nat }
    }
}

/// The position of the first `]:` in `s` at or after `i`.
pub open spec fn bracket_colon_from(s: Seq<char>, i: int) -> Option<int>
    decreases s.len() - i,
{
    if i < 0 || i + 1 >= s.len() {
        None
    } else if s[i] == ']' && s[i + 1] == ':' {
        Some(i)
    } else {
        bracket_colon_from(s, i + 1)
    }
}

/// The position of the first `]:` in `s`.
pub open spec fn first_bracket_colon(s: Seq<char>) -> Option<int> {
    bracket_colon_from(s, 0)
}

/// The position of the last `:` in `s`.
pub open spec fn last_colon(s: Seq<char>) -> Option<int>
    decreases s.len(),
{
    if s.len() == 0 {
        None
    } else if s.last() == ':' {
        Some(s.len() - 1)
    } else {
        last_colon(s.drop_last())
    }
}

/// Host and port of an address: `[addr]:port` for a bracketed literal; `name:port`
/// where one colon stands; port 22 and the address as written where no valid port
/// can be read, or where more colons stand (a bare IPv6 literal).
pub open spec fn host_port_of(h: Seq<char>) -> (Seq<char>, u16) {
    if h.len() > 0 && h[0] == '[' {
        let rest = h.subrange(1, h.len() as int);
        match first_bracket_colon(rest) {
            Some(i) => match port_of(rest.subrange(i + 2, rest.len() as int)) {
                Some(p) => (rest.subrange(0, i), p),
                None => (h, DEFAULT_SSH_PORT),
            },
            None => (h, DEFAULT_SSH_PORT),
        }
    } else if occurrences(h, ':') > 1 {
        (h, DEFAULT_SSH_PORT)
    } else {
        match last_colon(h) {
            Some(i) => match port_of(h.subrange(i + 1, h.len() as int)) {
                Some(p) => (h.subrange(0, i), p),
                None => (h, DEFAULT_SSH_PORT),
            },
            None => (h, DEFAULT_SSH_PORT),
        }
    }
}

/// Executable form of [`first_bracket_colon`].
fn find_bracket_colon(s: &str) -> (r: Option<usize>)
    ensures
        match r {
            Some(i) => first_bracket_colon(s@) == Some(i as int) && i + 1 < s@.len(),
            None => first_bracket_colon(s@) is None,
        },
{
    let n = s.unicode_len();
    let mut i: usize = 0;
    while i < n
        invariant
            i <= n,
            n == s@.len(),
            bracket_colon_from(s@, i as int) == first_bracket_colon(s@),
        decreases n - i,
    {
        if i + 1 < n && s.get_char(i) == ']' && s.get_char(i + 1) == ':' {
            return Some(i);
        }
        i = i + 1;
    }
    None
}

/// Executable form of [`last_colon`].
fn find_last_colon(s: &str) -> (r: Option<usize>)
    ensures
        match r {
            Some(i) => last_colon(s@) == Some(i as int) && i < s@.len(),
            None => last_colon(s@) is None,
        },
{
    let n = s.unicode_len();
    let mut i: usize = n;
    proof {
        assert(s@.take(n as int) =~= s@);
    }
    while i > 0
        invariant
            i <= n,
            n == s@.len(),
            last_colon(s@.take(i as int)) == last_colon(s@),
        decreases i,
    {
        proof {
            assert(s@.take(i as int).drop_last() =~= s@.take(i - 1));
        }
        if s.get_char(i - 1) == ':' {
            return Some(i - 1);
        }
        i = i - 1;
    }
    proof {
        assert(s@.take(0) =~= Seq::<char>::empty());
    }
    None
}

/// Executable form of [`occurrences`].
fn count_char(s: &str, c: char) -> (r: usize)
    ensures
        r == occurrences(s@, c),
{
    let n = s.unicode_len();
    let mut count: usize = 0;
    let mut i: usize = 0;
    proof {
        assert(s@.take(0) =~= Seq::<char>::empty());
    }
    while i < n
        invariant
            i <= n,
            n == s@.len(),
            count == occurrences(s@.take(i as int), c),
            count <= i,
        decreases n - i,
    {
        proof {
            assert(s@.take(i + 1).drop_last() =~= s@.take(i as int));
        }
        if s.get_char(i) == c {
            count = count + 1;
        }
        i = i + 1;
    }
    proof {
        assert(s@.take(n as int) =~= s@);
    }
    count
}

/// [`host_port_of`] for an address that starts with a bracket.
fn split_bracketed(host: &str) -> (r: (String, u16))
    requires
        host@.len() > 0,
        host@[0] == '[',
    ensures
        r.0@ == host_port_of(host@).0,
        r.1 == host_port_of(host@).1,
{
    let n = host.unicode_len();
    let rest = host.substring_char(1, n);
    let rl = rest.unicode_len();
    match find_bracket_colon(rest) {
        Some(i) => {
            let port_str = rest.substring_char(i + 2, rl);
            match parse_port(port_str) {
                Some(p) => {
                    let addr = rest.substring_char(0, i);
                    (addr.to_owned(), p)
                }
                None => (host.to_owned(), DEFAULT_SSH_PORT),
            }
        }
        None => (host.to_owned(), DEFAULT_SSH_PORT),
    }
}

/// [`host_port_of`] for an address with at most one colon and no leading bracket.
fn split_plain(host: &str) -> (r: (String, u16))
    requires
        !(host@.len() > 0 && host@[0] == '['),
        occurrences(host@, ':') <= 1,
    ensures
        r.0@ == host_port_of(host@).0,
        r.1 == host_port_of(host@).1,
{
    let n = host.unicode_len();
    match find_last_colon(host) {
        Some(i) => {
            let port_str = host.substring_char(i + 1, n);
            match parse_port(port_str) {
                Some(p) => {
                    let name = host.substring_char(0, i);
                    (name.to_owned(), p)
                }
                None => (host.to_owned(), DEFAULT_SSH_PORT),
            }
        }
        None => (host.to_owned(), DEFAULT_SSH_PORT),
    }
}

/// Splits an address into host and port (see [`host_port_of`]).
pub fn split_host_port(host: &str) -> (r: (String, u16))
    ensures
        r.0@ == host_port_of(host@).0,
        r.1 == host_port_of(host@).1,
{
    let n = host.unicode_len();
    if n > 0 && host.get_char(0) == '[' {
        return split_bracketed(host);
    }
    if count_char(host, ':') > 1 {
        return (host.to_owned(), DEFAULT_SSH_PORT);
    }
    split_plain(host)
}

} // verus!
