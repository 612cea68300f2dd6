//! Trust on first use: host key fingerprints and the registry that remembers them.

use vstd::prelude::*;
use sha2::Digest;

verus! {

/// The SHA-256 digest of some bytes.
pub uninterp spec fn sha256_of(data: Seq<u8>) -> Seq<u8>;

/// Relies on sha2's `Sha256::digest`: the SHA-256 digest of `data`, whose output size
/// is 32 bytes.
#[verifier::external_body]
fn sha256(data: &[u8]) -> (r: Vec<u8>)
    ensures
        r@ == sha256_of(data@),
        r@.len() == 32,
{
    sha2::Sha256::digest(data).to_vec()
}

/// The lower-case hexadecimal digit for `n`.
pub open spec fn hex_digit(n: int) -> char {
    if n < 10 {
        ('0' as int + n) as char
    } else {
        ('a' as int + n - 10) as char
    }
}

/// Two lower-case hexadecimal digits per byte, high half first.
pub open spec fn hex_of(b: Seq<u8>) -> Seq<char>
    decreases b.len(),
{
    if b.len() == 0 {
        Seq::empty()
    } else {
        hex_of(b.drop_last()) + seq![hex_digit(b.last() as int / 16), hex_digit(b.last() as int % 16)]
    }
}

/// Appends the hexadecimal digit for `n`.
fn push_hex_digit(s: &mut String, n: u8)
    requires
        n < 16,
    ensures
        final(s)@ == old(s)@ + seq![hex_digit(n as int)],
{
    let digits = "0123456789abcdef";
    proof {
        reveal_strlit("0123456789abcdef");
    }
    let d = digits.substring_char(n as usize, n as usize + 1);
    s.append(d);
    proof {
        assert(d@ =~= seq![hex_digit(n as int)]);
    }
}

/// Lower-case hexadecimal form of some bytes.
pub fn to_hex(b: &[u8]) -> (r: String)
    ensures
        r@ == hex_of(b@),
{
    let mut s = String::new();
    let mut i: usize = 0;
    proof {
        assert(b@.take(0) =~= Seq::<u8>::empty());
    }
    while i < b.len()
        invariant
            i <= b@.len(),
            s@ == hex_of(b@.take(i as int)),
        decreases b@.len() - i,
    {
        let ghost before = s@;
        push_hex_digit(&mut s, b[i] / 16);
        push_hex_digit(&mut s, b[i] % 16);
        proof {
            assert(b@.take(i + 1).drop_last() =~= b@.take(i as int));
            assert(s@ =~= before + seq![hex_digit(b[i as int] as int / 16), hex_digit(b[i as int] as int % 16)]);
        }
        i = i + 1;
    }
    proof {
        assert(b@.take(b@.len() as int) =~= b@);
    }
    s
}

/// The fingerprint of a raw host key: its SHA-256 digest in lower-case hexadecimal.
pub fn fingerprint_from_raw(key: &[u8]) -> (r: String)
    ensures
        r@ == hex_of(sha256_of(key@)),
        r@.len() == 64,
{
    let digest = sha256(key);
    let r = to_hex(digest.as_slice());
    proof {
        lemma_hex_len(digest@);
    }
    r
}

/// Two digits per byte.
proof fn lemma_hex_len(b: Seq<u8>)
    ensures
        hex_of(b).len() == 2 * b.len(),
    decreases b.len(),
{
    if b.len() > 0 {
        lemma_hex_len(b.drop_last());
    }
}

/// What the registry says of a host's key.
pub enum HostCheck {
    /// The key is the one remembered.
    Match,
    /// The host was unknown; its key is now remembered.
    New,
    /// The host is known under another key.
    Mismatch { expected: String, got: String },
}

/// The fingerprints by host; where a host is listed twice, the later one counts.
pub open spec fn hosts_map(s: Seq<(String, String)>) -> Map<Seq<char>, Seq<char>>
    decreases s.len(),
{
    if s.len() == 0 {
        Map::empty()
    } else {
        hosts_map(s.drop_last()).insert(s.last().0@, s.last().1@)
    }
}

/// The trusted fingerprint of each known host.
pub struct KnownHosts {
    entries: Vec<(String, String)>,
}

impl View for KnownHosts {
    type V = Map<Seq<char>, Seq<char>>;

    closed spec fn view(&self) -> Map<Seq<char>, Seq<char>> {
        hosts_map(self.entries@)
    }
}

impl KnownHosts {
    /// No host known.
    pub fn new() -> (r: Self)
        ensures
            r@ == Map::<Seq<char>, Seq<char>>::empty(),
    {
        KnownHosts { entries: Vec::new() }
    }

    /// A registry of `(host, fingerprint)` pairs; a later pair for a host wins.
    pub fn from_entries(entries: Vec<(String, String)>) -> (r: Self)
        ensures
            r@ == hosts_map(entries@),
    {
        KnownHosts { entries }
    }

    /// The pairs, in the order they were recorded.
    pub fn entries(&self) -> (r: &Vec<(String, String)>)
        ensures
            hosts_map(r@) == self@,
    {
        &self.entries
    }

    /// The fingerprint remembered for `host`.
    pub fn get(&self, host: &str) -> (r: Option<&String>)
        ensures
            match r {
                Some(f) => self@.contains_key(host@) && self@[host@] == f@,
                None => !self@.contains_key(host@),
            },
    {
        let key = host.to_owned();
        let ghost s = self.entries@;
        let mut i: usize = self.entries.len();
        proof {
            assert(s.take(i as int) =~= s);
        }
        while i > 0
            invariant
                i <= s.len(),
                s == self.entries@,
                key@ == host@,
                hosts_map(s).contains_key(host@) == hosts_map(s.take(i as int)).contains_key(host@),
                hosts_map(s).contains_key(host@) ==> hosts_map(s)[host@] == hosts_map(s.take(i as int))[host@],
            decreases i,
        {
            proof {
                assert(s.take(i as int).drop_last() =~= s.take(i - 1));
            }
            if self.entries[i - 1].0 == key {
                return Some(&self.entries[i - 1].1);
            }
            i = i - 1;
        }
        proof {
            assert(s.take(0) =~= Seq::<(String, String)>::empty());
        }
        None
    }
}

/// Checks a host's key fingerprint against the registry, remembering it on first
/// contact; a known host under another key is a mismatch, and nothing is changed.
pub fn verify_host(hosts: &mut KnownHosts, host: &str, fingerprint: &str) -> (r: HostCheck)
    ensures
        old(hosts)@.contains_key(host@) && old(hosts)@[host@] == fingerprint@ ==> r is Match && final(hosts)@ == old(hosts)@,
        old(hosts)@.contains_key(host@) && old(hosts)@[host@] != fingerprint@ ==> final(hosts)@ == old(hosts)@ && match r {
            HostCheck::Mismatch { expected, got } => expected@ == old(hosts)@[host@] && got@ == fingerprint@,
            _ => false,
        },
        !old(hosts)@.contains_key(host@) ==> r is New && final(hosts)@ == old(hosts)@.insert(host@, fingerprint@),
{
    let fp = fingerprint.to_owned();
    let found = match hosts.get(host) {
        Some(stored) => Some(stored.clone()),
        None => None,
    };
    match found {
        Some(stored) => {
            if stored == fp {
                HostCheck::Match
            } else {
                HostCheck::Mismatch { expected: stored, got: fp }
            }
        }
        None => {
            let ghost s = hosts.entries@;
            hosts.entries.push((host.to_owned(), fp));
            proof {
                assert(hosts.entries@.drop_last() =~= s);
            }
            HostCheck::New
        }
    }
}

} // verus!
