//! Fingerprints of bytes, and lists of texts in one text.
use crate::hashes;
use crate::models;
use crate::text;
use crate::text::{chars_of, string_of_range};
use sha2::Digest;
use vstd::bytes::{u32_from_le_bytes, u32_to_le_bytes, u64_to_le_bytes};
use vstd::prelude::*;
use vstd::string::*;

verus! {

/// The SHA-256 digest of a row of bytes.
pub uninterp spec fn sha256(bytes: Seq<u8>) -> Seq<u8>;

/// `sha2::Sha256::digest` gives the SHA-256 digest of the bytes, which has 32 bytes and depends on
/// the bytes alone. Feeding a hasher piece by piece gives the digest of the pieces joined.
#[verifier::external_body]
fn sha256_of(bytes: &Vec<u8>) -> (r: Vec<u8>)
    ensures
        r@ == sha256(bytes@),
        r@.len() == 32,
{
    sha2::Sha256::digest(bytes).to_vec()
}

/// The two hexadecimal digits of each byte, in order.
pub open spec fn hex_text(bytes: Seq<u8>) -> Seq<char> {
    Seq::new(
        2 * bytes.len(),
        |i: int|
            hashes::hex_char(
                if i % 2 == 0 {
                    bytes[i / 2] as int / 16
                } else {
                    bytes[i / 2] as int % 16
                },
            ),
    )
}

/// `hex::encode` writes each byte with two lowercase hexadecimal digits, the high one first.
#[verifier::external_body]
fn hex_of(bytes: &Vec<u8>) -> (r: String)
    ensures
        r@ == hex_text(bytes@),
{
    hex::encode(bytes)
}

/// The fingerprint of a row of bytes: its SHA-256 digest in hexadecimal.
pub open spec fn fingerprint(bytes: Seq<u8>) -> Seq<char> {
    hex_text(sha256(bytes))
}

/// The fingerprint of a row of bytes.
pub fn fingerprint_of(bytes: &Vec<u8>) -> (r: String)
    ensures
        r@ == fingerprint(bytes@),
        r@.len() == 64,
{
    let digest = sha256_of(bytes);
    hex_of(&digest)
}

/// The first characters of a text.
pub open spec fn head(s: Seq<char>, n: int) -> Seq<char> {
    if s.len() <= n {
        s
    } else {
        s.take(n)
    }
}

/// The first `n` characters of a text.
pub fn head_of(text: &str, n: usize) -> (r: String)
    ensures
        r@ == head(text@, n as int),
{
    let chars = chars_of(text);
    let end: usize = if chars.len() <= n {
        chars.len()
    } else {
        n
    };
    let r = string_of_range(&chars, 0, end);
    assert(r@ =~= head(text@, n as int));
    r
}

/// The bytes of a text.
pub open spec fn text_bytes(s: Seq<char>) -> Seq<u8> {
    vstd::utf8::encode_utf8(s)
}

/// Appends the bytes of a text.
pub fn add_text(bytes: &mut Vec<u8>, text: &str)
    ensures
        final(bytes)@ == old(bytes)@ + text_bytes(text@),
{
    let mut own = text.as_bytes_vec();
    bytes.append(&mut own);
}

/// Appends the eight bytes of a number, the low one first.
pub fn add_number(bytes: &mut Vec<u8>, number: u64)
    ensures
        final(bytes)@ == old(bytes)@ + vstd::bytes::spec_u64_to_le_bytes(number),
{
    let mut own = u64_to_le_bytes(number);
    bytes.append(&mut own);
}

/// The places of a file whose bytes tell its content: the start, and of a file above a mebibyte
/// also the middle and the last mebibyte.
pub open spec fn sample_places(size_bytes: u64) -> Seq<u64> {
    if size_bytes > 1_048_576 {
        if size_bytes / 2 == size_bytes - 1_048_576 {
            seq![0u64, size_bytes / 2]
        } else {
            seq![0u64, size_bytes / 2, (size_bytes - 1_048_576) as u64]
        }
    } else {
        seq![0u64]
    }
}

/// The places of a file whose bytes tell its content, each once.
pub fn partial_hash_positions(size_bytes: u64) -> (r: Vec<u64>)
    ensures
        r@ == sample_places(size_bytes),
        r@.no_duplicates(),
{
    let mut out: Vec<u64> = Vec::new();
    out.push(0);
    if size_bytes > 1_048_576 {
        let middle: u64 = size_bytes / 2;
        let tail: u64 = size_bytes - 1_048_576;
        out.push(middle);
        if tail != middle {
            out.push(tail);
        }
    }
    out
}

/// The bytes at a place of a file.
#[derive(Debug, Clone)]
pub struct FilePiece {
    pub position: u64,
    pub bytes: Vec<u8>,
}

/// The places and bytes of the first `n` pieces, in order.
pub open spec fn piece_bytes(pieces: Seq<FilePiece>, n: int) -> Seq<u8>
    decreases n,
{
    if n <= 0 {
        Seq::empty()
    } else {
        piece_bytes(pieces, n - 1) + vstd::bytes::spec_u64_to_le_bytes(pieces[n - 1].position)
            + pieces[n - 1].bytes@
    }
}

/// Appends bytes to bytes.
fn add_bytes(bytes: &mut Vec<u8>, more: &Vec<u8>)
    ensures
        final(bytes)@ == old(bytes)@ + more@,
{
    let ghost start = bytes@;
    let mut i: usize = 0;
    assert(start + more@.take(0) =~= start);
    while i < more.len()
        invariant
            i <= more@.len(),
            bytes@ == start + more@.take(i as int),
        decreases more@.len() - i,
    {
        bytes.push(more[i]);
        assert(start + more@.take(i + 1) =~= (start + more@.take(i as int)).push(more@[i as int]));
        i += 1;
    }
    assert(more@.take(i as int) =~= more@);
}

/// The content hash of a file: the fingerprint of the places that were read, each with its bytes.
pub fn partial_file_hash(pieces: &Vec<FilePiece>) -> (r: String)
    ensures
        r@ == fingerprint(piece_bytes(pieces@, pieces@.len() as int)),
{
    let mut bytes: Vec<u8> = Vec::new();
    let mut i: usize = 0;
    while i < pieces.len()
        invariant
            i <= pieces@.len(),
            bytes@ == piece_bytes(pieces@, i as int),
        decreases pieces@.len() - i,
    {
        add_number(&mut bytes, pieces[i].position);
        add_bytes(&mut bytes, &pieces[i].bytes);
        i += 1;
    }
    fingerprint_of(&bytes)
}

/// What names the content of a file: its content hash, or else its path.
pub open spec fn content_name(partial_hash: Option<Seq<char>>, path: Seq<char>) -> Seq<char> {
    match partial_hash {
        Some(hash) => hash,
        None => path,
    }
}

/// The number of frames that are kept of a video, moved into its range.
pub open spec fn kept_frame_count(configured: int) -> int {
    if configured < 8 {
        8
    } else if configured > 512 {
        512
    } else {
        configured
    }
}

/// The number of frames that are kept of a video, moved into its range.
pub fn clamp_frame_count(configured: usize) -> (r: usize)
    ensures
        r == kept_frame_count(configured as int),
        8 <= r <= 512,
{
    if configured < 8 {
        8
    } else if configured > 512 {
        512
    } else {
        configured
    }
}

/// A signed number as the unsigned one with the same bits.
pub open spec fn as_bits(n: i64) -> u64 {
    if n >= 0 {
        n as u64
    } else {
        (n + 0x1_0000_0000_0000_0000) as u64
    }
}

/// A signed number as the unsigned one with the same bits.
fn bits_of(n: i64) -> (r: u64)
    ensures
        r == as_bits(n),
{
    if n >= 0 {
        n as u64
    } else if n == i64::MIN {
        0x8000_0000_0000_0000
    } else {
        0xffff_ffff_ffff_ffff - ((-n) as u64) + 1
    }
}

/// The bytes from which the name of a frame cache is made. `duration_text` is the length in
/// seconds with three decimals.
pub open spec fn frame_cache_bytes(
    path: Seq<char>,
    partial_hash: Option<Seq<char>>,
    size_bytes: u64,
    modified_unix_ms: i64,
    duration_text: Seq<char>,
    configured_frame_count: int,
) -> Seq<u8> {
    text_bytes("ai-frame-cache-v1"@) + text_bytes(content_name(partial_hash, path))
        + vstd::bytes::spec_u64_to_le_bytes(size_bytes) + vstd::bytes::spec_u64_to_le_bytes(
        as_bits(modified_unix_ms),
    ) + text_bytes(duration_text) + vstd::bytes::spec_u64_to_le_bytes(
        kept_frame_count(configured_frame_count) as u64,
    )
}

/// The name under which the frames of a video are cached: 32 digits that tell its content and how
/// many frames are kept. `duration_text` is the length in seconds with three decimals.
pub fn ai_frame_cache_key(
    path_text: &str,
    partial_hash: &Option<String>,
    size_bytes: u64,
    modified_unix_ms: i64,
    duration_text: &str,
    configured_frame_count: usize,
) -> (r: String)
    ensures
        r@ == head(
            fingerprint(
                frame_cache_bytes(
                    path_text@,
                    models::opt_text(*partial_hash),
                    size_bytes,
                    modified_unix_ms,
                    duration_text@,
                    configured_frame_count as int,
                ),
            ),
            32,
        ),
        r@.len() == 32,
{
    let mut bytes: Vec<u8> = Vec::new();
    add_text(&mut bytes, "ai-frame-cache-v1");
    match partial_hash {
        Some(hash) => {
            add_text(&mut bytes, hash.as_str());
        },
        None => {
            add_text(&mut bytes, path_text);
        },
    }
    add_number(&mut bytes, size_bytes);
    add_number(&mut bytes, bits_of(modified_unix_ms));
    add_text(&mut bytes, duration_text);
    add_number(&mut bytes, clamp_frame_count(configured_frame_count) as u64);
    assert(bytes@ =~= frame_cache_bytes(
        path_text@,
        models::opt_text(*partial_hash),
        size_bytes,
        modified_unix_ms,
        duration_text@,
        configured_frame_count as int,
    ));
    let whole = fingerprint_of(&bytes);
    head_of(whole.as_str(), 32)
}

/// Two numbers of frames that are kept alike name the same cache.
pub proof fn law_clamped_frame_counts_share_a_cache(
    path: Seq<char>,
    partial_hash: Option<Seq<char>>,
    size_bytes: u64,
    modified_unix_ms: i64,
    duration_text: Seq<char>,
    configured: int,
)
    ensures
        frame_cache_bytes(
            path,
            partial_hash,
            size_bytes,
            modified_unix_ms,
            duration_text,
            kept_frame_count(configured),
        ) == frame_cache_bytes(
            path,
            partial_hash,
            size_bytes,
            modified_unix_ms,
            duration_text,
            configured,
        ),
{
}

/// The first sixteen characters that name the previews of a video: of its content hash, or else
/// of the fingerprint of its path.
pub fn preview_stem(path_text: &str, partial_hash: &Option<String>) -> (r: String)
    ensures
        r@ == head(
            match models::opt_text(*partial_hash) {
                Some(hash) => hash,
                None => fingerprint(text_bytes(path_text@)),
            },
            16,
        ),
{
    match partial_hash {
        Some(hash) => head_of(hash.as_str(), 16),
        None => {
            let mut bytes: Vec<u8> = Vec::new();
            add_text(&mut bytes, path_text);
            assert(bytes@ =~= text_bytes(path_text@));
            let whole = fingerprint_of(&bytes);
            head_of(whole.as_str(), 16)
        },
    }
}

/// The bytes of the first `n` numbers, four of each, the low one first.
pub open spec fn blob_bytes(values: Seq<u32>, n: int) -> Seq<u8>
    decreases n,
{
    if n <= 0 {
        Seq::empty()
    } else {
        blob_bytes(values, n - 1) + vstd::bytes::spec_u32_to_le_bytes(values[n - 1])
    }
}

/// The number that four bytes from position `4 * k` on write.
pub open spec fn blob_value(blob: Seq<u8>, k: int) -> u32 {
    vstd::bytes::spec_u32_from_le_bytes(blob.subrange(4 * k, 4 * k + 4))
}

/// Writes the coordinates of an embedding, four bytes each.
pub fn encode_f32_blob(values: &Vec<u32>) -> (r: Vec<u8>)
    ensures
        r@ == blob_bytes(values@, values@.len() as int),
{
    let mut out: Vec<u8> = Vec::new();
    let mut i: usize = 0;
    while i < values.len()
        invariant
            i <= values@.len(),
            out@ == blob_bytes(values@, i as int),
        decreases values@.len() - i,
    {
        let mut own = u32_to_le_bytes(values[i]);
        out.append(&mut own);
        i += 1;
    }
    out
}

/// Reads the coordinates of an embedding, four bytes each; bytes left over are dropped.
pub fn decode_f32_blob(blob: &Vec<u8>) -> (r: Vec<u32>)
    ensures
        r@ == Seq::new(blob@.len() / 4, |k: int| blob_value(blob@, k)),
{
    let mut out: Vec<u32> = Vec::new();
    let total: usize = blob.len();
    let count: usize = total / 4;
    let mut i: usize = 0;
    while i < count
        invariant
            i <= count,
            total == blob@.len(),
            count == total / 4,
            out@.len() == i,
            forall|k: int| 0 <= k < i ==> #[trigger] out@[k] == blob_value(blob@, k),
        decreases count - i,
    {
        let mut four: Vec<u8> = Vec::new();
        four.push(blob[4 * i]);
        four.push(blob[4 * i + 1]);
        four.push(blob[4 * i + 2]);
        four.push(blob[4 * i + 3]);
        assert(four@ =~= blob@.subrange(4 * i, 4 * i + 4));
        out.push(u32_from_le_bytes(four.as_slice()));
        i += 1;
    }
    assert(out@ =~= Seq::new(blob@.len() / 4, |k: int| blob_value(blob@, k)));
    out
}

proof fn lemma_blob(values: Seq<u32>, n: int)
    requires
        0 <= n <= values.len(),
    ensures
        blob_bytes(values, n).len() == 4 * n,
        forall|k: int| 0 <= k < n ==> #[trigger] blob_value(blob_bytes(values, n), k) == values[k],
    decreases n,
{
    vstd::bytes::lemma_auto_spec_u32_to_from_le_bytes();
    if n > 0 {
        lemma_blob(values, n - 1);
        let rest = blob_bytes(values, n - 1);
        let last = vstd::bytes::spec_u32_to_le_bytes(values[n - 1]);
        let all = blob_bytes(values, n);
        assert forall|k: int| 0 <= k < n implies #[trigger] blob_value(all, k) == values[k] by {
            if k < n - 1 {
                assert(all.subrange(4 * k, 4 * k + 4) =~= rest.subrange(4 * k, 4 * k + 4));
                assert(blob_value(rest, k) == values[k]);
            } else {
                assert(all.subrange(4 * k, 4 * k + 4) =~= last);
            }
        }
    }
}

/// Reading an embedding gives back what was written.
pub proof fn law_embedding_is_read_back(values: Seq<u32>)
    ensures
        ({
            let blob = blob_bytes(values, values.len() as int);
            Seq::new(blob.len() / 4, |k: int| blob_value(blob, k)) == values
        }),
{
    lemma_blob(values, values.len() as int);
    let blob = blob_bytes(values, values.len() as int);
    assert(Seq::new(blob.len() / 4, |k: int| blob_value(blob, k)) =~= values);
}

/// The text of a list of texts, as `serde_json::to_string` writes it.
pub uninterp spec fn json_text(list: Seq<Seq<char>>) -> Seq<char>;

/// The list of texts that `serde_json::from_str` reads out of a text.
pub uninterp spec fn json_list(text: Seq<char>) -> Option<Seq<Seq<char>>>;

/// `serde_json::to_string` writes a list of strings as a JSON array; it depends on the list alone
/// and fails for no list of strings. Reading the array gives the list back.
#[verifier::external_body]
fn write_json_list(list: &Vec<String>) -> (r: String)
    ensures
        r@ == json_text(models::texts(list@)),
        json_list(r@) == Some(models::texts(list@)),
{
    serde_json::to_string(list).expect("a list of strings can be written")
}

/// `serde_json::from_str` reads a JSON array of strings, and nothing else, into a list; it depends
/// on the text alone.
#[verifier::external_body]
fn read_json_list(text: &str) -> (r: Option<Vec<String>>)
    ensures
        r is Some == json_list(text@) is Some,
        r matches Some(list) ==> json_list(text@) == Some(models::texts(list@)),
{
    serde_json::from_str::<Vec<String>>(text).ok()
}

/// Writes a list of texts into one text.
pub fn encode_list(list: &Vec<String>) -> (r: String)
    ensures
        r@ == json_text(models::texts(list@)),
        json_list(r@) == Some(models::texts(list@)),
{
    write_json_list(list)
}

/// What stands for a list that was read, or for one that could not be read.
pub open spec fn list_or_empty(read: Option<Seq<Seq<char>>>) -> Seq<Seq<char>> {
    match read {
        Some(list) => list,
        None => Seq::empty(),
    }
}

/// The list that was read, or an empty one.
pub fn or_empty(read: Option<Vec<String>>) -> (r: Vec<String>)
    ensures
        models::texts(r@) == list_or_empty(
            match read {
                Some(list) => Some(models::texts(list@)),
                None => None,
            },
        ),
{
    match read {
        Some(list) => list,
        None => {
            let none: Vec<String> = Vec::new();
            assert(models::texts(none@) =~= Seq::<Seq<char>>::empty());
            none
        },
    }
}

/// Reads a list of texts out of one text; a text that holds none gives an empty list.
pub fn decode_list(text: &str) -> (r: Vec<String>)
    ensures
        models::texts(r@) == list_or_empty(json_list(text@)),
{
    or_empty(read_json_list(text))
}

/// Writes a list of texts into one text and reads it out again.
pub fn recoded_list(list: &Vec<String>) -> (r: Vec<String>)
    ensures
        models::texts(r@) == models::texts(list@),
{
    decode_list(encode_list(list).as_str())
}

} // verus!
