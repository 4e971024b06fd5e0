//! Peer bookkeeping: reconnect records and the computations behind the
//! peers file (dial-address formatting, record deduplication, and the
//! rewrite that turns concatenated records into one JSON array).

use vstd::prelude::*;

use vstd::slice::slice_index_get;
use vstd::string::StringExecFns;

verus! {

/// The byte `[`, which opens a JSON array.
pub const OPEN_BRACKET: u8 = 91;

/// The byte `]`, which closes a JSON array.
pub const CLOSE_BRACKET: u8 = 93;

/// The byte `}`, which closes a JSON record.
pub const CLOSE_BRACE: u8 = 125;

/// Mathematical content of a stored peer record.
#[verifier::ext_equal]
pub struct PeerDataModel {
    pub id: Seq<char>,
    pub ip: Seq<char>,
}

/// Data needed to reconnect to a previously known peer: its id and the
/// multiaddress it was reached at, both as plain strings. Parsing them into
/// the network library's richer types is the network layer's job.
#[derive(Debug)]
pub struct PeerData {
    id: String,
    ip: String,
}

impl View for PeerData {
    type V = PeerDataModel;

    closed spec fn view(&self) -> PeerDataModel {
        PeerDataModel { id: self.id@, ip: self.ip@ }
    }
}

impl PeerData {
    /// Records a peer under its id and the address it was reached at.
    pub fn new(id: String, ip: String) -> (r: Self)
        ensures
            r@ == (PeerDataModel { id: id@, ip: ip@ }),
    {
        PeerData { id, ip }
    }

    /// The stored peer id.
    pub fn peer_id(&self) -> (r: String)
        ensures
            r@ == self@.id,
    {
        self.id.clone()
    }

    /// The stored multiaddress.
    pub fn ip(&self) -> (r: String)
        ensures
            r@ == self@.ip,
    {
        self.ip.clone()
    }
}

/// Formats a bare IPv4 address with the protocol prefix and the fixed port
/// the node listens on: `/ip4/<ip>/tcp/4000`.
pub fn format_ip(ip: String) -> (r: String)
    ensures
        r@ == "/ip4/"@ + ip@ + "/tcp/4000"@,
{
    let mut formatted = String::from_str("/ip4/");
    formatted.append(ip.as_str());
    formatted.append("/tcp/4000");
    formatted
}

/// The bracket-wrapped form of a peers file that grew by concatenation: the
/// content goes inside `[` and `]`, shorn of its final byte (a trailing
/// comma, usually), which is kept when it closes a record.
pub open spec fn spec_json_array_of(contents: Seq<u8>) -> Seq<u8> {
    if contents.len() == 0 {
        seq![OPEN_BRACKET]
    } else {
        seq![OPEN_BRACKET] + contents.take(contents.len() - 1) + (if contents.last() == CLOSE_BRACE {
            seq![CLOSE_BRACE, CLOSE_BRACKET]
        } else {
            seq![CLOSE_BRACKET]
        })
    }
}

/// The needle occurs in the haystack starting at position `i`.
pub open spec fn spec_match_at(haystack: Seq<u8>, needle: Seq<u8>, i: int) -> bool {
    &&& 0 <= i
    &&& i + needle.len() <= haystack.len()
    &&& haystack.subrange(i, i + needle.len()) == needle
}

/// The needle occurs somewhere in the haystack.
pub open spec fn spec_contains_sub(haystack: Seq<u8>, needle: Seq<u8>) -> bool {
    exists|i: int| spec_match_at(haystack, needle, i)
}

/// Whether the needle occurs at position `i` of the haystack.
fn match_at(haystack: &[u8], needle: &[u8], i: usize) -> (r: bool)
    requires
        i + needle@.len() <= haystack@.len(),
    ensures
        r == spec_match_at(haystack@, needle@, i as int),
{
    let m = needle.len();
    let n = haystack.len();
    let mut k: usize = 0;
    while k < m
        invariant
            n == haystack@.len(),
            i + m <= n,
            m == needle@.len(),
            k <= m,
            forall|t: int| 0 <= t < k ==> haystack@[i + t] == needle@[t],
        decreases m - k,
    {
        if *slice_index_get(haystack, i + k) != *slice_index_get(needle, k) {
            proof {
                if spec_match_at(haystack@, needle@, i as int) {
                    assert(haystack@.subrange(i as int, i + m as int)[k as int] == needle@[k as int]);
                }
            }
            return false;
        }
        k = k + 1;
    }
    proof {
        assert(haystack@.subrange(i as int, i + m as int) =~= needle@);
    }
    true
}

/// Whether one byte string occurs inside another.
pub fn contains_sub(haystack: &[u8], needle: &[u8]) -> (r: bool)
    ensures
        r == spec_contains_sub(haystack@, needle@),
{
    let n = haystack.len();
    let m = needle.len();
    if m == 0 {
        proof {
            assert(haystack@.subrange(0, 0) =~= needle@);
            assert(spec_match_at(haystack@, needle@, 0));
        }
        return true;
    }
    if m > n {
        proof {
            assert forall|i: int| !spec_match_at(haystack@, needle@, i) by {}
        }
        return false;
    }
    let mut i: usize = 0;
    while i <= n - m
        invariant
            n == haystack@.len(),
            m == needle@.len(),
            0 < m <= n,
            i <= n - m + 1,
            forall|j: int| 0 <= j < i ==> !spec_match_at(haystack@, needle@, j),
        decreases n - m + 1 - i,
    {
        if match_at(haystack, needle, i) {
            return true;
        }
        i = i + 1;
    }
    proof {
        assert forall|j: int| !spec_match_at(haystack@, needle@, j) by {}
    }
    false
}

/// The decision behind recording an inbound peer message: it is appended to
/// the peers file only when the file does not already contain it.
pub fn should_record_peer(contents: &[u8], msg: &[u8]) -> (r: bool)
    ensures
        r == !spec_contains_sub(contents@, msg@),
{
    !contains_sub(contents, msg)
}

/// Rewrites a peers file holding comma-separated JSON records into one JSON
/// array, so that files holding more than one record parse correctly.
pub fn assure_json_compatibility(contents: &[u8]) -> (r: Vec<u8>)
    ensures
        r@ == spec_json_array_of(contents@),
{
    let mut clean: Vec<u8> = Vec::new();
    clean.push(OPEN_BRACKET);
    let n = contents.len();
    if n == 0 {
        proof {
            assert(clean@ =~= spec_json_array_of(contents@));
        }
        return clean;
    }
    proof {
        assert(clean@ =~= seq![OPEN_BRACKET] + contents@.take(0));
    }
    let mut i: usize = 0;
    while i < n - 1
        invariant
            n == contents@.len(),
            1 <= n,
            i <= n - 1,
            clean@ == seq![OPEN_BRACKET] + contents@.take(i as int),
        decreases n - 1 - i,
    {
        clean.push(*slice_index_get(contents, i));
        proof {
            assert(clean@ =~= seq![OPEN_BRACKET] + contents@.take(i as int + 1));
        }
        i = i + 1;
    }
    if *slice_index_get(contents, n - 1) == CLOSE_BRACE {
        clean.push(CLOSE_BRACE);
    }
    clean.push(CLOSE_BRACKET);
    proof {
        assert(clean@ =~= spec_json_array_of(contents@));
    }
    clean
}

} // verus!
