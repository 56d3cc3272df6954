//! The tracker exchange: the announce-URL query string (with the info hash
//! percent-encoded three characters per byte) and the bencoded response
//! carrying the interval and the compact peer list.

use vstd::prelude::*;

use crate::bencode::{dict_get, spec_dict_lookup, Bencode};
use crate::hashing::bytes_eq;
use crate::peers::{parse_compact_peers, spec_peers_of_compact, Peers};
use vstd::string::StringExecFns;

verus! {

/// What the client tells the tracker. The info hash travels separately,
/// percent-encoded.
#[derive(Clone, Debug)]
pub struct TrackerRequest {
    /// A 20-character identifier this client picked for itself.
    pub peer_id: String,
    /// The port the client listens on.
    pub port: u16,
    /// Total bytes uploaded so far.
    pub uploaded: usize,
    /// Total bytes downloaded so far.
    pub downloaded: usize,
    /// Bytes still missing.
    pub left: usize,
    pub no_peer_id: u8,
    /// Whether the compact peer-list form is asked for.
    pub compact: u8,
}

/// What the tracker answers: how often to ask again, and the peers.
#[derive(Clone, Debug)]
pub struct TrackerResponse {
    pub interval: usize,
    pub peers: Peers,
}

/// The decimal digits of `n` as characters, most significant first.
pub open spec fn spec_dec_chars(n: int) -> Seq<char>
    recommends
        n >= 0,
    decreases n,
{
    if n < 10 {
        seq![spec_digit_char(n)]
    } else {
        spec_dec_chars(n / 10).push(spec_digit_char(n % 10))
    }
}

/// The character for one decimal digit.
pub open spec fn spec_digit_char(d: int) -> char {
    if d == 0 {
        '0'
    } else if d == 1 {
        '1'
    } else if d == 2 {
        '2'
    } else if d == 3 {
        '3'
    } else if d == 4 {
        '4'
    } else if d == 5 {
        '5'
    } else if d == 6 {
        '6'
    } else if d == 7 {
        '7'
    } else if d == 8 {
        '8'
    } else {
        '9'
    }
}

/// The character for one hex digit, lower case.
pub open spec fn spec_hex_char(d: int) -> char {
    if d < 10 {
        spec_digit_char(d)
    } else if d == 10 {
        'a'
    } else if d == 11 {
        'b'
    } else if d == 12 {
        'c'
    } else if d == 13 {
        'd'
    } else if d == 14 {
        'e'
    } else {
        'f'
    }
}

/// The lower-case hex form of a byte sequence, two characters per byte.
pub open spec fn spec_hex(data: Seq<u8>) -> Seq<char>
    decreases data.len(),
{
    if data.len() == 0 {
        Seq::empty()
    } else {
        seq![
            spec_hex_char(data[0] as int / 16),
            spec_hex_char(data[0] as int % 16),
        ] + spec_hex(data.subrange(1, data.len() as int))
    }
}

/// Relies on hex::encode: two lower-case hex digits for each input byte, in
/// input order.
#[verifier::external_body]
fn hex_encode(data: &Vec<u8>) -> (r: String)
    ensures
        r@ == spec_hex(data@),
{
    hex::encode(data.as_slice())
}

/// The percent-encoded form of a byte sequence: `%xx` per byte, lower-case
/// hex.
pub open spec fn spec_urlencode(data: Seq<u8>) -> Seq<char>
    decreases data.len(),
{
    if data.len() == 0 {
        Seq::empty()
    } else {
        seq![
            '%',
            spec_hex_char(data[0] as int / 16),
            spec_hex_char(data[0] as int % 16),
        ] + spec_urlencode(data.subrange(1, data.len() as int))
    }
}

/// Relies on String::push: appends one character.
#[verifier::external_body]
fn string_push(s: &mut String, c: char)
    ensures
        final(s)@ == old(s)@ + seq![c],
{
    s.push(c);
}

/// Percent-encode a byte string, three characters per byte, as the tracker
/// wants the info hash.
pub fn urlencode(t: &Vec<u8>) -> (r: String)
    ensures
        r@ == spec_urlencode(t@),
{
    let mut out = String::new();
    let mut i: usize = 0;
    while i < t.len()
        invariant
            i <= t@.len(),
            out@ == spec_urlencode(t@.subrange(0, i as int)),
        decreases t@.len() - i,
    {
        let mut one: Vec<u8> = Vec::new();
        one.push(t[i]);
        let hex = hex_encode(&one);
        string_push(&mut out, '%');
        out.append(hex.as_str());
        proof {
            assert(one@.subrange(1, 1) =~= Seq::<u8>::empty());
            assert(spec_hex(Seq::<u8>::empty()) == Seq::<char>::empty());
            assert(out@ =~= spec_urlencode(t@.subrange(0, i as int)) + seq![
                '%',
                spec_hex_char(t@[i as int] as int / 16),
                spec_hex_char(t@[i as int] as int % 16),
            ]);
            lemma_urlencode_push(t@.subrange(0, i as int), t@[i as int]);
            assert(t@.subrange(0, i as int).push(t@[i as int]) =~= t@.subrange(0, i + 1));
        }
        i = i + 1;
    }
    proof {
        assert(t@.subrange(0, t@.len() as int) =~= t@);
    }
    out
}

/// Percent-encoding one more byte appends its three characters.
proof fn lemma_urlencode_push(data: Seq<u8>, b: u8)
    ensures
        spec_urlencode(data.push(b)) == spec_urlencode(data) + seq![
            '%',
            spec_hex_char(b as int / 16),
            spec_hex_char(b as int % 16),
        ],
    decreases data.len(),
{
    if data.len() == 0 {
        assert(data.push(b)[0] == b);
        assert(data.push(b).subrange(1, 1) =~= Seq::<u8>::empty());
        assert(spec_urlencode(Seq::<u8>::empty()) == Seq::<char>::empty());
        assert(data =~= Seq::<u8>::empty());
        assert(spec_urlencode(data.push(b)) =~= spec_urlencode(data) + seq![
            '%',
            spec_hex_char(b as int / 16),
            spec_hex_char(b as int % 16),
        ]);
    } else {
        let s2 = data.push(b);
        assert(s2[0] == data[0]);
        assert(s2.subrange(1, s2.len() as int) =~= data.subrange(1, data.len() as int).push(b));
        lemma_urlencode_push(data.subrange(1, data.len() as int), b);
        assert(spec_urlencode(s2) =~= spec_urlencode(data) + seq![
            '%',
            spec_hex_char(b as int / 16),
            spec_hex_char(b as int % 16),
        ]);
    }
}

/// Append the decimal digits of `n` to a string.
fn append_decimal(s: &mut String, n: u64)
    ensures
        final(s)@ == old(s)@ + spec_dec_chars(n as int),
    decreases n,
{
    if n < 10 {
        string_push(s, digit_char((n % 10) as u8));
        assert(final(s)@ =~= old(s)@ + spec_dec_chars(n as int));
    } else {
        append_decimal(s, n / 10);
        string_push(s, digit_char((n % 10) as u8));
        assert(final(s)@ =~= old(s)@ + spec_dec_chars(n as int));
    }
}

/// The character for a decimal digit.
fn digit_char(d: u8) -> (c: char)
    requires
        d < 10,
    ensures
        c == spec_digit_char(d as int),
{
    match d {
        0 => '0',
        1 => '1',
        2 => '2',
        3 => '3',
        4 => '4',
        5 => '5',
        6 => '6',
        7 => '7',
        8 => '8',
        _ => '9',
    }
}

/// The query string the tracker request amounts to, fields in wire order.
pub open spec fn spec_tracker_query(req: TrackerRequest) -> Seq<char> {
    "peer_id="@ + req.peer_id@ + "&port="@ + spec_dec_chars(req.port as int) + "&uploaded="@
        + spec_dec_chars(req.uploaded as int) + "&downloaded="@ + spec_dec_chars(
        req.downloaded as int,
    ) + "&left="@ + spec_dec_chars(req.left as int) + "&no_peer_id="@ + spec_dec_chars(
        req.no_peer_id as int,
    ) + "&compact="@ + spec_dec_chars(req.compact as int)
}

/// The whole announce URL: the tracker's base URL, the query string, and
/// the percent-encoded info hash.
pub fn build_tracker_url(announce: &String, req: &TrackerRequest, info_hash: &Vec<u8>) -> (r:
    String)
    ensures
        r@ == announce@ + "?"@ + spec_tracker_query(*req) + "&info_hash="@ + spec_urlencode(
            info_hash@,
        ),
{
    let mut url = announce.clone();
    url.append("?");
    url.append("peer_id=");
    url.append(req.peer_id.as_str());
    url.append("&port=");
    append_decimal(&mut url, req.port as u64);
    url.append("&uploaded=");
    append_decimal(&mut url, req.uploaded as u64);
    url.append("&downloaded=");
    append_decimal(&mut url, req.downloaded as u64);
    url.append("&left=");
    append_decimal(&mut url, req.left as u64);
    url.append("&no_peer_id=");
    append_decimal(&mut url, req.no_peer_id as u64);
    url.append("&compact=");
    append_decimal(&mut url, req.compact as u64);
    url.append("&info_hash=");
    let encoded = urlencode(info_hash);
    url.append(encoded.as_str());
    assert(url@ =~= announce@ + "?"@ + spec_tracker_query(*req) + "&info_hash="@ + spec_urlencode(
        info_hash@,
    ));
    url
}

/// The key `interval`.
pub open spec fn spec_key_interval() -> Seq<u8> {
    seq![105u8, 110u8, 116u8, 101u8, 114u8, 118u8, 97u8, 108u8]
}

/// The key `peers`.
pub open spec fn spec_key_peers() -> Seq<u8> {
    seq![112u8, 101u8, 101u8, 114u8, 115u8]
}

/// The wire key `interval`.
fn interval_key() -> (r: Vec<u8>)
    ensures
        r@ == spec_key_interval(),
{
    let mut out: Vec<u8> = Vec::new();
    out.push(105);
    out.push(110);
    out.push(116);
    out.push(101);
    out.push(114);
    out.push(118);
    out.push(97);
    out.push(108);
    assert(out@ =~= spec_key_interval());
    out
}

/// The wire key `peers`.
fn peers_key() -> (r: Vec<u8>)
    ensures
        r@ == spec_key_peers(),
{
    let mut out: Vec<u8> = Vec::new();
    out.push(112);
    out.push(101);
    out.push(101);
    out.push(114);
    out.push(115);
    assert(out@ =~= spec_key_peers());
    out
}

/// Read a tracker response out of a decoded dictionary: succeeds exactly
/// when `interval` is a machine-sized nonnegative integer and `peers` is a
/// byte string in the compact 6-byte-per-peer form.
pub fn tracker_response_of_dict(entries: &Vec<(Vec<u8>, Bencode)>) -> (r: Option<TrackerResponse>)
    ensures
        ({
            let li = spec_dict_lookup(entries@, spec_key_interval());
            let lp = spec_dict_lookup(entries@, spec_key_peers());
            &&& r is Some <==> ((li matches Some(Bencode::Int(n)) && 0 <= n <= usize::MAX) && (
            lp matches Some(Bencode::Bytes(pb)) && pb@.len() % 6 == 0))
            &&& r matches Some(tr) ==> ((li matches Some(Bencode::Int(n)) && tr.interval == n) && (
            lp matches Some(Bencode::Bytes(pb)) && spec_peers_of_compact(pb@, tr.peers.0@)))
        }),
{
    let ik = interval_key();
    let interval: usize = match dict_get(entries, &ik) {
        Some(Bencode::Int(n)) => {
            if *n < 0 {
                return None;
            }
            if (*n as u64) > (usize::MAX as u64) {
                return None;
            }
            *n as usize
        },
        _ => {
            return None;
        },
    };
    let pk = peers_key();
    match dict_get(entries, &pk) {
        Some(Bencode::Bytes(pb)) => {
            match parse_compact_peers(pb) {
                Some(peers) => Some(TrackerResponse { interval, peers }),
                None => None,
            }
        },
        _ => None,
    }
}

} // verus!
