//! The metainfo descriptor: file lengths, piece length, per-piece digests,
//! and the piece-size arithmetic the downloader relies on.

use vstd::prelude::*;

use crate::bencode::{
    dict_get, push_u64_decimal, spec_dec_digits, spec_dict_lookup, spec_int_bytes, Bencode,
};
use crate::bytesutil::append_bytes;
use crate::hashing::{sha1_digest, spec_sha1};

verus! {

/// One entry of a multi-file payload.
#[derive(Clone, Debug)]
pub struct File {
    /// The length of the file, in bytes.
    pub length: usize,
    /// Subdirectory names for this file, the last of which is the file name.
    pub path: Vec<String>,
}

/// Either a single file's length, or the file list whose lengths sum to the
/// payload length.
#[derive(Clone, Debug)]
pub enum Keys {
    SingleFile { length: usize },
    MultiFile { files: Vec<File> },
}

/// The info dictionary of a metainfo descriptor.
#[derive(Clone, Debug)]
pub struct Info {
    /// The suggested name to save the file (or directory) as.
    pub name: String,
    /// The number of bytes in each piece except possibly the last.
    pub plength: usize,
    /// The 20-byte SHA-1 digest of each piece, in piece order.
    pub pieces: Vec<Vec<u8>>,
    /// Single-file or multi-file payload layout.
    pub keys: Keys,
}

/// Progress counters reported to the tracker.
#[derive(Clone, Debug)]
pub struct DownloadInfo {
    pub downloaded: usize,
    pub uploaded: usize,
    pub left: usize,
}

/// A whole metainfo descriptor: the tracker URL and the info dictionary.
#[derive(Clone, Debug)]
pub struct TorrentFile {
    /// The URL of the tracker.
    pub announce: String,
    pub info: Info,
}

/// A torrent being worked on: its descriptor, the peers learned from the
/// tracker, and the info hash that identifies it.
pub struct Torrent {
    pub torrent_file: TorrentFile,
    pub peers: Vec<crate::peers::Peer>,
    pub info_hash: Vec<u8>,
}

/// The sum of the file lengths, taken from the front.
pub open spec fn spec_sum_files(s: Seq<File>) -> int
    decreases s.len(),
{
    if s.len() == 0 {
        0
    } else {
        s[0].length + spec_sum_files(s.drop_first())
    }
}

pub proof fn lemma_sum_files_nonneg(s: Seq<File>)
    ensures
        spec_sum_files(s) >= 0,
    decreases s.len(),
{
    if s.len() > 0 {
        lemma_sum_files_nonneg(s.drop_first());
    }
}

/// The total payload length `L` described by the keys.
pub open spec fn spec_total_length(keys: Keys) -> int {
    match keys {
        Keys::SingleFile { length } => length as int,
        Keys::MultiFile { files } => spec_sum_files(files@),
    }
}

/// The number of pieces a payload of length `total` splits into.
pub open spec fn spec_num_pieces(total: int, plength: int) -> int {
    (total + plength - 1) / plength
}

/// The length of piece `i`: `plength` for every piece but the last, and the
/// remainder (or a full piece when it divides evenly) for the last.
pub open spec fn spec_piece_size(total: int, plength: int, n: int, i: int) -> int {
    if i == n - 1 {
        if total % plength == 0 {
            plength
        } else {
            total % plength
        }
    } else {
        plength
    }
}

impl Info {
    /// A descriptor whose piece table matches its payload: at least one
    /// byte, at least one piece, `pieces` holds one 20-byte digest per
    /// piece, and the payload length fits the machine.
    pub open spec fn wf(&self) -> bool {
        &&& self.plength >= 1
        &&& 1 <= spec_total_length(self.keys) <= usize::MAX
        &&& self.pieces@.len() == spec_num_pieces(
            spec_total_length(self.keys),
            self.plength as int,
        )
        &&& forall|i: int| 0 <= i < self.pieces@.len() ==> self.pieces@[i]@.len() == 20
    }

    /// The total payload length `L`.
    pub fn calculate_length(&self) -> (r: usize)
        requires
            spec_total_length(self.keys) <= usize::MAX,
        ensures
            r == spec_total_length(self.keys),
    {
        match &self.keys {
            Keys::SingleFile { length } => *length,
            Keys::MultiFile { files } => {
                let ghost all = files@;
                proof {
                    assert(all.skip(0) =~= all);
                }
                let mut sum: usize = 0;
                let mut i: usize = 0;
                while i < files.len()
                    invariant
                        i <= files@.len(),
                        files@ == all,
                        spec_total_length(self.keys) == spec_sum_files(all),
                        sum + spec_sum_files(all.skip(i as int)) == spec_sum_files(all),
                        spec_sum_files(all) <= usize::MAX,
                    decreases files@.len() - i,
                {
                    proof {
                        assert(all.skip(i as int).drop_first() =~= all.skip(i + 1));
                        lemma_sum_files_nonneg(all.skip(i + 1));
                    }
                    sum = sum + files[i].length;
                    i = i + 1;
                }
                proof {
                    assert(all.skip(files@.len() as int) =~= Seq::<File>::empty());
                }
                sum
            },
        }
    }
}

impl TorrentFile {
    /// The 20-byte SHA-1 digest of the bencoded info dictionary: the
    /// torrent's identity.
    pub fn info_hash(&self) -> (r: Vec<u8>)
        ensures
            r@ == spec_sha1(spec_info_bytes(self.info)),
            r@.len() == 20,
    {
        let encoded = info_bytes(&self.info);
        sha1_digest(&encoded)
    }
}

impl Torrent {
    /// A torrent fresh from its descriptor: no peers yet, the info hash
    /// computed from the info dictionary.
    pub fn new(torrent_file: TorrentFile) -> (t: Self)
        ensures
            t.torrent_file == torrent_file,
            t.peers@.len() == 0,
            t.info_hash@ == spec_sha1(spec_info_bytes(torrent_file.info)),
            t.info_hash@.len() == 20,
    {
        let info_hash = torrent_file.info_hash();
        Torrent { torrent_file, peers: Vec::new(), info_hash }
    }
}

/// The byte length of piece `piece_index` of the payload `t` describes.
pub fn get_piece_size(piece_index: usize, t: &Info) -> (r: usize)
    requires
        t.wf(),
        piece_index < t.pieces@.len(),
    ensures
        r == spec_piece_size(
            spec_total_length(t.keys),
            t.plength as int,
            t.pieces@.len() as int,
            piece_index as int,
        ),
{
    if piece_index == t.pieces.len() - 1 {
        let md = t.calculate_length() % t.plength;
        if md == 0 {
            t.plength
        } else {
            md
        }
    } else {
        t.plength
    }
}

/// The UTF-8 bytes of a string value.
pub open spec fn spec_str_bytes(s: Seq<char>) -> Seq<u8> {
    vstd::utf8::encode_utf8(s)
}

/// A byte string on the wire: its decimal length, a colon, the bytes.
pub open spec fn spec_bstr(b: Seq<u8>) -> Seq<u8> {
    spec_dec_digits(b.len() as int) + seq![58u8] + b
}

/// An integer on the wire: `i`, the digits, `e`.
pub open spec fn spec_int_token(n: int) -> Seq<u8> {
    seq![105u8] + spec_int_bytes(n) + seq![101u8]
}

/// The key `length`.
pub open spec fn spec_key_length() -> Seq<u8> {
    seq![108u8, 101u8, 110u8, 103u8, 116u8, 104u8]
}

/// The key `name`.
pub open spec fn spec_key_name() -> Seq<u8> {
    seq![110u8, 97u8, 109u8, 101u8]
}

/// The key `piece length`.
pub open spec fn spec_key_piece_length() -> Seq<u8> {
    seq![112u8, 105u8, 101u8, 99u8, 101u8, 32u8, 108u8, 101u8, 110u8, 103u8, 116u8, 104u8]
}

/// The key `pieces`.
pub open spec fn spec_key_pieces() -> Seq<u8> {
    seq![112u8, 105u8, 101u8, 99u8, 101u8, 115u8]
}

/// The key `files`.
pub open spec fn spec_key_files() -> Seq<u8> {
    seq![102u8, 105u8, 108u8, 101u8, 115u8]
}

/// The key `path`.
pub open spec fn spec_key_path() -> Seq<u8> {
    seq![112u8, 97u8, 116u8, 104u8]
}

/// The concatenation of the 20-byte piece digests.
pub open spec fn spec_concat_bytes(s: Seq<Vec<u8>>) -> Seq<u8>
    decreases s.len(),
{
    if s.len() == 0 {
        Seq::empty()
    } else {
        s[0]@ + spec_concat_bytes(s.subrange(1, s.len() as int))
    }
}

/// Appending one vector appends its bytes to the concatenation.
pub proof fn lemma_concat_bytes_push(s: Seq<Vec<u8>>, v: Vec<u8>)
    ensures
        spec_concat_bytes(s.push(v)) == spec_concat_bytes(s) + v@,
    decreases s.len(),
{
    if s.len() == 0 {
        assert(s.push(v)[0] == v);
        assert(s.push(v).subrange(1, 1) =~= Seq::<Vec<u8>>::empty());
        assert(spec_concat_bytes(Seq::<Vec<u8>>::empty()) == Seq::<u8>::empty());
        assert(spec_concat_bytes(s.push(v)) =~= spec_concat_bytes(s) + v@);
    } else {
        let s2 = s.push(v);
        let tail = s.subrange(1, s.len() as int);
        assert(s2[0] == s[0]);
        assert(s2.subrange(1, s2.len() as int) =~= tail.push(v));
        lemma_concat_bytes_push(tail, v);
        assert(spec_concat_bytes(s2) =~= spec_concat_bytes(s) + v@);
    }
}

/// The wire bytes of one `files` entry: a dictionary holding `length` and
/// `path`.
pub open spec fn spec_file_bytes(f: File) -> Seq<u8> {
    seq![100u8] + spec_bstr(spec_key_length()) + spec_int_token(f.length as int) + spec_bstr(
        spec_key_path(),
    ) + seq![108u8] + spec_path_bytes(f.path@) + seq![101u8] + seq![101u8]
}

/// The wire bytes of a `path` list: each component a byte string.
pub open spec fn spec_path_bytes(s: Seq<String>) -> Seq<u8>
    decreases s.len(),
{
    if s.len() == 0 {
        Seq::empty()
    } else {
        spec_bstr(spec_str_bytes(s[0]@)) + spec_path_bytes(s.subrange(1, s.len() as int))
    }
}

/// Appending a path component appends its byte string.
pub proof fn lemma_path_bytes_push(s: Seq<String>, v: String)
    ensures
        spec_path_bytes(s.push(v)) == spec_path_bytes(s) + spec_bstr(spec_str_bytes(v@)),
    decreases s.len(),
{
    if s.len() == 0 {
        assert(s.push(v)[0] == v);
        assert(s.push(v).subrange(1, 1) =~= Seq::<String>::empty());
        assert(spec_path_bytes(Seq::<String>::empty()) == Seq::<u8>::empty());
        assert(spec_path_bytes(s.push(v)) =~= spec_path_bytes(s) + spec_bstr(spec_str_bytes(v@)));
    } else {
        let s2 = s.push(v);
        let tail = s.subrange(1, s.len() as int);
        assert(s2[0] == s[0]);
        assert(s2.subrange(1, s2.len() as int) =~= tail.push(v));
        lemma_path_bytes_push(tail, v);
        assert(spec_path_bytes(s2) =~= spec_path_bytes(s) + spec_bstr(spec_str_bytes(v@)));
    }
}

/// The wire bytes of the `files` list.
pub open spec fn spec_files_bytes(s: Seq<File>) -> Seq<u8>
    decreases s.len(),
{
    if s.len() == 0 {
        Seq::empty()
    } else {
        spec_file_bytes(s[0]) + spec_files_bytes(s.subrange(1, s.len() as int))
    }
}

/// Appending a file entry appends its dictionary bytes.
pub proof fn lemma_files_bytes_push(s: Seq<File>, f: File)
    ensures
        spec_files_bytes(s.push(f)) == spec_files_bytes(s) + spec_file_bytes(f),
    decreases s.len(),
{
    if s.len() == 0 {
        assert(s.push(f)[0] == f);
        assert(s.push(f).subrange(1, 1) =~= Seq::<File>::empty());
        assert(spec_files_bytes(Seq::<File>::empty()) == Seq::<u8>::empty());
        assert(spec_files_bytes(s.push(f)) =~= spec_files_bytes(s) + spec_file_bytes(f));
    } else {
        let s2 = s.push(f);
        let tail = s.subrange(1, s.len() as int);
        assert(s2[0] == s[0]);
        assert(s2.subrange(1, s2.len() as int) =~= tail.push(f));
        lemma_files_bytes_push(tail, f);
        assert(spec_files_bytes(s2) =~= spec_files_bytes(s) + spec_file_bytes(f));
    }
}

/// The canonical bencoded form of the info dictionary, keys in sorted
/// order: `length` or `files`, then `name`, `piece length`, `pieces`.
pub open spec fn spec_info_bytes(info: Info) -> Seq<u8> {
    seq![100u8] + (match info.keys {
        Keys::SingleFile { length } => spec_bstr(spec_key_length()) + spec_int_token(
            length as int,
        ),
        Keys::MultiFile { files } => spec_bstr(spec_key_files()) + seq![108u8] + spec_files_bytes(
            files@,
        ) + seq![101u8],
    }) + spec_bstr(spec_key_name()) + spec_bstr(spec_str_bytes(info.name@)) + spec_bstr(
        spec_key_piece_length(),
    ) + spec_int_token(info.plength as int) + spec_bstr(spec_key_pieces()) + spec_bstr(
        spec_concat_bytes(info.pieces@),
    ) + seq![101u8]
}

/// Append a byte string token (`<len>:<bytes>`).
fn push_bstr(out: &mut Vec<u8>, b: &Vec<u8>)
    ensures
        final(out)@ == old(out)@ + spec_bstr(b@),
{
    let bl = b.len();
    push_u64_decimal(bl as u64, out);
    out.push(58);
    append_bytes(out, b);
    assert(final(out)@ =~= old(out)@ + spec_bstr(b@));
}

/// Append an integer token (`i<digits>e`) for a nonnegative value.
fn push_int_usize(out: &mut Vec<u8>, n: usize)
    ensures
        final(out)@ == old(out)@ + spec_int_token(n as int),
{
    out.push(105);
    push_u64_decimal(n as u64, out);
    out.push(101);
    assert(final(out)@ =~= old(out)@ + spec_int_token(n as int));
}

/// The UTF-8 bytes of a string.
fn str_to_bytes(s: &String) -> (r: Vec<u8>)
    ensures
        r@ == spec_str_bytes(s@),
{
    vstd::slice::slice_to_vec(s.as_str().as_bytes())
}

/// The wire key `length`.
fn length_key() -> (r: Vec<u8>)
    ensures
        r@ == spec_key_length(),
{
    let mut out: Vec<u8> = Vec::new();
    out.push(108);
    out.push(101);
    out.push(110);
    out.push(103);
    out.push(116);
    out.push(104);
    assert(out@ =~= spec_key_length());
    out
}

/// The wire key `name`.
fn name_key() -> (r: Vec<u8>)
    ensures
        r@ == spec_key_name(),
{
    let mut out: Vec<u8> = Vec::new();
    out.push(110);
    out.push(97);
    out.push(109);
    out.push(101);
    assert(out@ =~= spec_key_name());
    out
}

/// The wire key `piece length`.
fn piece_length_key() -> (r: Vec<u8>)
    ensures
        r@ == spec_key_piece_length(),
{
    let mut out: Vec<u8> = Vec::new();
    out.push(112);
    out.push(105);
    out.push(101);
    out.push(99);
    out.push(101);
    out.push(32);
    out.push(108);
    out.push(101);
    out.push(110);
    out.push(103);
    out.push(116);
    out.push(104);
    assert(out@ =~= spec_key_piece_length());
    out
}

/// The wire key `pieces`.
fn pieces_key() -> (r: Vec<u8>)
    ensures
        r@ == spec_key_pieces(),
{
    let mut out: Vec<u8> = Vec::new();
    out.push(112);
    out.push(105);
    out.push(101);
    out.push(99);
    out.push(101);
    out.push(115);
    assert(out@ =~= spec_key_pieces());
    out
}

/// The wire key `files`.
fn files_key() -> (r: Vec<u8>)
    ensures
        r@ == spec_key_files(),
{
    let mut out: Vec<u8> = Vec::new();
    out.push(102);
    out.push(105);
    out.push(108);
    out.push(101);
    out.push(115);
    assert(out@ =~= spec_key_files());
    out
}

/// The wire key `path`.
fn path_key() -> (r: Vec<u8>)
    ensures
        r@ == spec_key_path(),
{
    let mut out: Vec<u8> = Vec::new();
    out.push(112);
    out.push(97);
    out.push(116);
    out.push(104);
    assert(out@ =~= spec_key_path());
    out
}

/// Append one `files` entry: a dictionary holding `length` and `path`.
fn push_file(out: &mut Vec<u8>, f: &File)
    ensures
        final(out)@ == old(out)@ + spec_file_bytes(*f),
{
    out.push(100);
    let kl = length_key();
    push_bstr(out, &kl);
    push_int_usize(out, f.length);
    let kp = path_key();
    push_bstr(out, &kp);
    out.push(108);
    let ghost pmark = out@;
    let mut j: usize = 0;
    #[verifier::loop_isolation(false)]
    while j < f.path.len()
        invariant
            j <= f.path@.len(),
            out@ == pmark + spec_path_bytes(f.path@.subrange(0, j as int)),
        decreases f.path@.len() - j,
    {
        let comp = str_to_bytes(&f.path[j]);
        push_bstr(out, &comp);
        proof {
            lemma_path_bytes_push(f.path@.subrange(0, j as int), f.path@[j as int]);
            assert(f.path@.subrange(0, j as int).push(f.path@[j as int]) =~= f.path@.subrange(
                0,
                j + 1,
            ));
        }
        j = j + 1;
    }
    proof {
        assert(f.path@.subrange(0, f.path@.len() as int) =~= f.path@);
    }
    out.push(101);
    out.push(101);
    assert(final(out)@ =~= old(out)@ + spec_file_bytes(*f));
}

/// Append the whole `files` list: `l`, the entries, `e`.
fn push_files(out: &mut Vec<u8>, files: &Vec<File>)
    ensures
        final(out)@ == old(out)@ + seq![108u8] + spec_files_bytes(files@) + seq![101u8],
{
    out.push(108);
    let ghost mark = out@;
    let mut i: usize = 0;
    #[verifier::loop_isolation(false)]
    while i < files.len()
        invariant
            i <= files@.len(),
            out@ == mark + spec_files_bytes(files@.subrange(0, i as int)),
        decreases files@.len() - i,
    {
        push_file(out, &files[i]);
        proof {
            lemma_files_bytes_push(files@.subrange(0, i as int), files@[i as int]);
            assert(files@.subrange(0, i as int).push(files@[i as int]) =~= files@.subrange(
                0,
                i + 1,
            ));
        }
        i = i + 1;
    }
    proof {
        assert(files@.subrange(0, files@.len() as int) =~= files@);
    }
    out.push(101);
    assert(final(out)@ =~= old(out)@ + seq![108u8] + spec_files_bytes(files@) + seq![101u8]);
}

/// The piece digests, one after another.
fn concat_hashes(pieces: &Vec<Vec<u8>>) -> (r: Vec<u8>)
    ensures
        r@ == spec_concat_bytes(pieces@),
{
    let mut digests: Vec<u8> = Vec::new();
    let mut i: usize = 0;
    while i < pieces.len()
        invariant
            i <= pieces@.len(),
            digests@ == spec_concat_bytes(pieces@.subrange(0, i as int)),
        decreases pieces@.len() - i,
    {
        append_bytes(&mut digests, &pieces[i]);
        proof {
            lemma_concat_bytes_push(pieces@.subrange(0, i as int), pieces@[i as int]);
            assert(pieces@.subrange(0, i as int).push(pieces@[i as int]) =~= pieces@.subrange(
                0,
                i + 1,
            ));
        }
        i = i + 1;
    }
    proof {
        assert(pieces@.subrange(0, pieces@.len() as int) =~= pieces@);
    }
    digests
}

/// The canonical bencoded bytes of the info dictionary.
pub fn info_bytes(info: &Info) -> (r: Vec<u8>)
    ensures
        r@ == spec_info_bytes(*info),
{
    let mut out: Vec<u8> = Vec::new();
    out.push(100);
    match &info.keys {
        Keys::SingleFile { length } => {
            let k = length_key();
            push_bstr(&mut out, &k);
            push_int_usize(&mut out, *length);
        },
        Keys::MultiFile { files } => {
            let k = files_key();
            push_bstr(&mut out, &k);
            push_files(&mut out, files);
        },
    }
    let kn = name_key();
    push_bstr(&mut out, &kn);
    let name = str_to_bytes(&info.name);
    push_bstr(&mut out, &name);
    let kp = piece_length_key();
    push_bstr(&mut out, &kp);
    push_int_usize(&mut out, info.plength);
    let kh = pieces_key();
    push_bstr(&mut out, &kh);
    let digests = concat_hashes(&info.pieces);
    push_bstr(&mut out, &digests);
    out.push(101);
    assert(out@ =~= spec_info_bytes(*info));
    out
}

/// Piece sizes partition the payload: every piece but the last is a full
/// `plength`, the last is between 1 and `plength`, and all of them together
/// cover exactly `total` bytes.
pub proof fn lemma_piece_sizes(total: int, plength: int)
    requires
        plength >= 1,
        total >= 1,
    ensures
        ({
            let n = spec_num_pieces(total, plength);
            let last = spec_piece_size(total, plength, n, n - 1);
            &&& n >= 1
            &&& 1 <= last <= plength
            &&& (n - 1) * plength + last == total
        }),
{
    let n = spec_num_pieces(total, plength);
    let q = total / plength;
    let md = total % plength;
    vstd::arithmetic::div_mod::lemma_fundamental_div_mod(total, plength);
    vstd::arithmetic::div_mod::lemma_mod_bound(total, plength);
    if md == 0 {
        assert(n == q) by {
            vstd::arithmetic::div_mod::lemma_div_multiples_vanish_fancy(q, plength - 1, plength);
        }
        assert((n - 1) * plength + plength == n * plength) by (nonlinear_arith);
        assert(n * plength == total) by {
            assert(total == plength * q + 0);
            vstd::arithmetic::mul::lemma_mul_is_commutative(q, plength);
        }
        assert(total >= 1 && total == n * plength && plength >= 1 ==> n >= 1) by (nonlinear_arith);
    } else {
        assert(n == q + 1) by {
            assert(total + plength - 1 == (q + 1) * plength + (md - 1)) by (nonlinear_arith)
                requires
                    total == plength * q + md,
            ;
            vstd::arithmetic::div_mod::lemma_fundamental_div_mod_converse(
                total + plength - 1,
                plength,
                q + 1,
                md - 1,
            );
        }
        assert(q * plength + md == total) by (nonlinear_arith)
            requires
                total == plength * q + md,
        ;
        assert(q >= 0) by {
            vstd::arithmetic::div_mod::lemma_div_pos_is_pos(total, plength);
        }
    }
}

/// The key `announce`.
pub open spec fn spec_key_announce() -> Seq<u8> {
    seq![97u8, 110u8, 110u8, 111u8, 117u8, 110u8, 99u8, 101u8]
}

/// The key `info`.
pub open spec fn spec_key_info() -> Seq<u8> {
    seq![105u8, 110u8, 102u8, 111u8]
}

/// Whether `f` is the file entry the bencoded value `v` describes.
pub open spec fn spec_file_matches(f: File, v: Bencode) -> bool {
    &&& v matches Bencode::Dict(e)
    &&& spec_dict_lookup(v->Dict_0@, spec_key_length()) matches Some(Bencode::Int(l))
        && f.length == l
    &&& spec_dict_lookup(v->Dict_0@, spec_key_path()) matches Some(Bencode::List(ps)) && (
    f.path@.len() == ps@.len() && forall|j: int|
        0 <= j < ps@.len() ==> (#[trigger] ps@[j] matches Bencode::Bytes(pb) && pb@
            == spec_str_bytes(f.path@[j]@)))
}

/// Whether `info` is the info dictionary the entries describe.
pub open spec fn spec_info_matches(info: Info, entries: Seq<(Vec<u8>, Bencode)>) -> bool {
    &&& spec_dict_lookup(entries, spec_key_name()) matches Some(Bencode::Bytes(nb))
        && spec_str_bytes(info.name@) == nb@
    &&& spec_dict_lookup(entries, spec_key_piece_length()) matches Some(Bencode::Int(pl))
        && info.plength == pl
    &&& spec_dict_lookup(entries, spec_key_pieces()) matches Some(Bencode::Bytes(hb)) && (
    hb@.len() % 20 == 0 && info.pieces@.len() == hb@.len() / 20 && forall|i: int|
        0 <= i < info.pieces@.len() ==> #[trigger] info.pieces@[i]@ == hb@.subrange(
            20 * i,
            20 * i + 20,
        ))
    &&& match info.keys {
        Keys::SingleFile { length } => spec_dict_lookup(entries, spec_key_length()) matches Some(
            Bencode::Int(l),
        ) && length == l,
        Keys::MultiFile { files } => spec_dict_lookup(entries, spec_key_files()) matches Some(
            Bencode::List(items),
        ) && (files@.len() == items@.len() && forall|i: int|
            0 <= i < files@.len() ==> spec_file_matches(#[trigger] files@[i], items@[i])),
    }
}

/// Whether `tf` is the metainfo the bencoded value `v` describes.
pub open spec fn spec_torrent_file_matches(tf: TorrentFile, v: Bencode) -> bool {
    &&& v matches Bencode::Dict(top)
    &&& spec_dict_lookup(v->Dict_0@, spec_key_announce()) matches Some(Bencode::Bytes(ab))
        && spec_str_bytes(tf.announce@) == ab@
    &&& spec_dict_lookup(v->Dict_0@, spec_key_info()) matches Some(Bencode::Dict(ie))
        && spec_info_matches(tf.info, ie@)
}

/// Whether a bencoded value has the shape of a `files` entry: a dictionary
/// whose `length` is a machine-sized integer and whose `path` is a list of
/// valid-UTF-8 byte strings.
pub open spec fn spec_file_shape_ok(v: Bencode) -> bool {
    &&& v matches Bencode::Dict(e)
    &&& spec_dict_lookup(v->Dict_0@, spec_key_length()) matches Some(Bencode::Int(l)) && 0 <= l
        <= usize::MAX
    &&& spec_dict_lookup(v->Dict_0@, spec_key_path()) matches Some(Bencode::List(ps)) && (forall|
        j: int,
    |
        0 <= j < ps@.len() ==> (#[trigger] ps@[j] matches Bencode::Bytes(pb)
            && vstd::utf8::valid_utf8(pb@)))
}

/// Whether the `length`-or-`files` alternative of an info dictionary has a
/// readable shape. A `length` entry that is an integer takes precedence;
/// otherwise a well-shaped `files` list is required.
pub open spec fn spec_keys_shape_ok(entries: Seq<(Vec<u8>, Bencode)>) -> bool {
    match spec_dict_lookup(entries, spec_key_length()) {
        Some(Bencode::Int(l)) => 0 <= l <= usize::MAX,
        _ => spec_dict_lookup(entries, spec_key_files()) matches Some(Bencode::List(items)) && (
        forall|i: int| 0 <= i < items@.len() ==> #[trigger] spec_file_shape_ok(items@[i])),
    }
}

/// Whether an info dictionary has a readable shape: `name` valid UTF-8,
/// `piece length` machine-sized, `pieces` a whole number of 20-byte
/// digests, and a readable `length` or `files`.
pub open spec fn spec_info_shape_ok(entries: Seq<(Vec<u8>, Bencode)>) -> bool {
    &&& spec_dict_lookup(entries, spec_key_name()) matches Some(Bencode::Bytes(nb))
        && vstd::utf8::valid_utf8(nb@)
    &&& spec_dict_lookup(entries, spec_key_piece_length()) matches Some(Bencode::Int(pl)) && 0
        <= pl <= usize::MAX
    &&& spec_dict_lookup(entries, spec_key_pieces()) matches Some(Bencode::Bytes(hb)) && hb@.len()
        % 20 == 0
    &&& spec_keys_shape_ok(entries)
}

/// Whether a bencoded value has the shape of a whole metainfo descriptor.
pub open spec fn spec_torrent_shape_ok(v: Bencode) -> bool {
    &&& v matches Bencode::Dict(top)
    &&& spec_dict_lookup(v->Dict_0@, spec_key_announce()) matches Some(Bencode::Bytes(ab))
        && vstd::utf8::valid_utf8(ab@)
    &&& spec_dict_lookup(v->Dict_0@, spec_key_info()) matches Some(Bencode::Dict(ie))
        && spec_info_shape_ok(ie@)
}

/// Relies on String::from_utf8: succeeds exactly on valid UTF-8, and then
/// returns the string those bytes spell.
#[verifier::external_body]
fn bytes_to_string(b: &Vec<u8>) -> (r: Option<String>)
    ensures
        r is Some <==> vstd::utf8::valid_utf8(b@),
        r matches Some(s) ==> s@ == vstd::utf8::decode_utf8(b@),
{
    String::from_utf8(b.clone()).ok()
}

/// A nonnegative machine-sized value out of a bencoded integer.
fn int_to_usize(n: i64) -> (r: Option<usize>)
    ensures
        r is Some <==> 0 <= n <= usize::MAX,
        r matches Some(u) ==> u == n,
{
    if n < 0 {
        return None;
    }
    if (n as u64) > (usize::MAX as u64) {
        return None;
    }
    Some(n as usize)
}

/// Split the `pieces` byte string into its 20-byte digests. Fails exactly
/// when the length is not a multiple of twenty.
pub fn split_piece_hashes(hb: &Vec<u8>) -> (r: Option<Vec<Vec<u8>>>)
    ensures
        hb@.len() % 20 != 0 ==> r is None,
        hb@.len() % 20 == 0 ==> (r matches Some(ps) && ps@.len() == hb@.len() / 20 && forall|
            i: int,
        |
            0 <= i < ps@.len() ==> #[trigger] ps@[i]@ == hb@.subrange(20 * i, 20 * i + 20)),
{
    if hb.len() % 20 != 0 {
        return None;
    }
    let count = hb.len() / 20;
    proof {
        vstd::arithmetic::div_mod::lemma_fundamental_div_mod(hb@.len() as int, 20);
    }
    let mut ps: Vec<Vec<u8>> = Vec::new();
    let mut i: usize = 0;
    while i < count
        invariant
            i <= count,
            count == hb@.len() / 20,
            hb@.len() == 20 * count,
            hb@.len() <= usize::MAX,
            ps@.len() == i,
            forall|j: int| 0 <= j < i ==> #[trigger] ps@[j]@ == hb@.subrange(20 * j, 20 * j + 20),
        decreases count - i,
    {
        assert(20 * (i as int) + 20 <= 20 * (count as int));
        let off: usize = 20 * i;
        let one = crate::bytesutil::copy_range(hb, off, off + 20);
        ps.push(one);
        i = i + 1;
    }
    Some(ps)
}

/// Read one `files` entry out of its bencoded dictionary. Succeeds exactly
/// when the entry has the required shape.
fn file_of_bencode(v: &Bencode) -> (r: Option<File>)
    ensures
        r matches Some(f) ==> spec_file_matches(f, *v),
        r is Some <==> spec_file_shape_ok(*v),
{
    let entries = match v {
        Bencode::Dict(e) => e,
        _ => {
            return None;
        },
    };
    let kl = length_key();
    let length = match dict_get(entries, &kl) {
        Some(Bencode::Int(n)) => {
            match int_to_usize(*n) {
                Some(u) => u,
                None => {
                    return None;
                },
            }
        },
        _ => {
            return None;
        },
    };
    let kp = path_key();
    let comps = match dict_get(entries, &kp) {
        Some(Bencode::List(items)) => items,
        _ => {
            return None;
        },
    };
    let mut path: Vec<String> = Vec::new();
    let mut j: usize = 0;
    while j < comps.len()
        invariant
            j <= comps@.len(),
            path@.len() == j,
            v is Dict,
            (spec_dict_lookup(v->Dict_0@, spec_key_length()) matches Some(Bencode::Int(l)) && 0
                <= l <= usize::MAX && l == length),
            spec_dict_lookup(v->Dict_0@, spec_key_path()) == Some(Bencode::List(*comps)),
            forall|k: int|
                0 <= k < j ==> (#[trigger] comps@[k] matches Bencode::Bytes(pb) && pb@
                    == spec_str_bytes(path@[k]@) && vstd::utf8::valid_utf8(pb@)),
        decreases comps@.len() - j,
    {
        let pb = match &comps[j] {
            Bencode::Bytes(pb) => pb,
            _ => {
                return None;
            },
        };
        let s = match bytes_to_string(pb) {
            Some(s) => s,
            None => {
                return None;
            },
        };
        proof {
            vstd::utf8::decode_utf8_encode_utf8(pb@);
        }
        path.push(s);
        j = j + 1;
    }
    Some(File { length, path })
}

/// Read the info dictionary out of its bencoded entries. Succeeds exactly
/// when the dictionary has the required shape.
pub fn info_of_bencode(entries: &Vec<(Vec<u8>, Bencode)>) -> (r: Option<Info>)
    ensures
        r matches Some(info) ==> spec_info_matches(info, entries@),
        r is Some <==> spec_info_shape_ok(entries@),
{
    let kn = name_key();
    let name = match dict_get(entries, &kn) {
        Some(Bencode::Bytes(nb)) => {
            match bytes_to_string(nb) {
                Some(s) => {
                    proof {
                        vstd::utf8::decode_utf8_encode_utf8(nb@);
                    }
                    s
                },
                None => {
                    return None;
                },
            }
        },
        _ => {
            return None;
        },
    };
    let kp = piece_length_key();
    let plength = match dict_get(entries, &kp) {
        Some(Bencode::Int(n)) => {
            match int_to_usize(*n) {
                Some(u) => u,
                None => {
                    return None;
                },
            }
        },
        _ => {
            return None;
        },
    };
    let kh = pieces_key();
    let pieces = match dict_get(entries, &kh) {
        Some(Bencode::Bytes(hb)) => {
            match split_piece_hashes(hb) {
                Some(ps) => ps,
                None => {
                    return None;
                },
            }
        },
        _ => {
            return None;
        },
    };
    let kl = length_key();
    let keys = match dict_get(entries, &kl) {
        Some(Bencode::Int(n)) => {
            match int_to_usize(*n) {
                Some(u) => Keys::SingleFile { length: u },
                None => {
                    return None;
                },
            }
        },
        _ => {
            let kf = files_key();
            match dict_get(entries, &kf) {
                Some(Bencode::List(items)) => {
                    let mut files: Vec<File> = Vec::new();
                    let mut i: usize = 0;
                    while i < items.len()
                        invariant
                            i <= items@.len(),
                            files@.len() == i,
                            (match spec_dict_lookup(entries@, spec_key_length()) {
                                Some(Bencode::Int(l)) => false,
                                _ => true,
                            }),
                            spec_dict_lookup(entries@, spec_key_files()) == Some(
                                Bencode::List(*items),
                            ),
                            forall|k: int|
                                0 <= k < i ==> spec_file_matches(
                                    #[trigger] files@[k],
                                    items@[k],
                                ),
                            forall|k: int|
                                0 <= k < i ==> spec_file_shape_ok(#[trigger] items@[k]),
                        decreases items@.len() - i,
                    {
                        match file_of_bencode(&items[i]) {
                            Some(f) => {
                                files.push(f);
                            },
                            None => {
                                proof {
                                    if spec_info_shape_ok(entries@) {
                                        assert(spec_keys_shape_ok(entries@));
                                        assert(spec_dict_lookup(entries@, spec_key_files())
                                            == Some(Bencode::List(*items)));
                                        assert(spec_dict_lookup(entries@, spec_key_files())
                                            matches Some(Bencode::List(its)) && (forall|k: int|
                                            0 <= k < its@.len()
                                                ==> #[trigger] spec_file_shape_ok(its@[k])));
                                        assert(0 <= i && (i as int) < items@.len());
                                        assert(spec_file_shape_ok(items@[i as int]));
                                    }
                                }
                                return None;
                            },
                        }
                        i = i + 1;
                    }
                    Keys::MultiFile { files }
                },
                _ => {
                    return None;
                },
            }
        },
    };
    Some(Info { name, plength, pieces, keys })
}

impl TorrentFile {
    /// Read a whole metainfo descriptor out of a decoded bencoded value.
    /// Succeeds exactly when every required key is there with the right
    /// shape.
    pub fn from_bencode(v: &Bencode) -> (r: Option<TorrentFile>)
        ensures
            r matches Some(tf) ==> spec_torrent_file_matches(tf, *v),
            r is Some <==> spec_torrent_shape_ok(*v),
    {
        let top = match v {
            Bencode::Dict(e) => e,
            _ => {
                return None;
            },
        };
        let ka = announce_key();
        let announce = match dict_get(top, &ka) {
            Some(Bencode::Bytes(ab)) => {
                match bytes_to_string(ab) {
                    Some(s) => {
                        proof {
                            vstd::utf8::decode_utf8_encode_utf8(ab@);
                        }
                        s
                    },
                    None => {
                        return None;
                    },
                }
            },
            _ => {
                return None;
            },
        };
        let ki = info_key();
        let info = match dict_get(top, &ki) {
            Some(Bencode::Dict(ie)) => {
                match info_of_bencode(ie) {
                    Some(info) => info,
                    None => {
                        return None;
                    },
                }
            },
            _ => {
                return None;
            },
        };
        Some(TorrentFile { announce, info })
    }
}

/// The wire key `announce`.
fn announce_key() -> (r: Vec<u8>)
    ensures
        r@ == spec_key_announce(),
{
    let mut out: Vec<u8> = Vec::new();
    out.push(97);
    out.push(110);
    out.push(110);
    out.push(111);
    out.push(117);
    out.push(110);
    out.push(99);
    out.push(101);
    assert(out@ =~= spec_key_announce());
    out
}

/// The wire key `info`.
fn info_key() -> (r: Vec<u8>)
    ensures
        r@ == spec_key_info(),
{
    let mut out: Vec<u8> = Vec::new();
    out.push(105);
    out.push(110);
    out.push(102);
    out.push(111);
    assert(out@ =~= spec_key_info());
    out
}

} // verus!
