//! Content fingerprints: classify a file by its extension into one of the
//! two decode paths, and digest the decoded bytes. Only pixel or sensor
//! data reaches the digest; metadata never does, because the caller hands
//! in the decoded buffer alone.

use vstd::prelude::*;
use vstd::arithmetic::mul::lemma_mul_upper_bound;
use sha2::Digest;
use crate::errors::IdError;

verus! {

// ---------------------------------------------------------------------------
// Classification by extension.
// ---------------------------------------------------------------------------

/// An ASCII letter lowered; any other byte unchanged.
pub open spec fn lower_byte(b: u8) -> u8 {
    if 65 <= b && b <= 90 {
        (b + 32) as u8
    } else {
        b
    }
}

pub open spec fn lower_bytes(s: Seq<u8>) -> Seq<u8> {
    s.map_values(|b: u8| lower_byte(b))
}

/// `pat` occurs in `s` starting at `i`.
pub open spec fn occurs_at(s: Seq<u8>, pat: Seq<u8>, i: int) -> bool {
    0 <= i && i + pat.len() <= s.len() && s.subrange(i, i + pat.len()) == pat
}

pub open spec fn contains_seq(s: Seq<u8>, pat: Seq<u8>) -> bool {
    exists|i: int| occurs_at(s, pat, i)
}

pub open spec fn jpg_bytes() -> Seq<u8> {
    seq![106u8, 112u8, 103u8]
}

pub open spec fn jpeg_bytes() -> Seq<u8> {
    seq![106u8, 112u8, 101u8, 103u8]
}

/// Whether an extension names a JPEG file: it contains `jpg` or `jpeg`,
/// letter case ignored.
pub open spec fn is_jpeg_extension(ext: Seq<u8>) -> bool {
    contains_seq(lower_bytes(ext), jpg_bytes()) || contains_seq(lower_bytes(ext), jpeg_bytes())
}

fn lower_u8(b: u8) -> (r: u8)
    ensures
        r == lower_byte(b),
{
    if 65 <= b && b <= 90 {
        b + 32
    } else {
        b
    }
}

fn jpg_at(s: &[u8], i: usize) -> (r: bool)
    requires
        i + 3 <= s@.len(),
    ensures
        r == occurs_at(lower_bytes(s@), jpg_bytes(), i as int),
{
    let r = lower_u8(s[i]) == 106 && lower_u8(s[i + 1]) == 112 && lower_u8(s[i + 2]) == 103;
    proof {
        let low = lower_bytes(s@);
        let sub = low.subrange(i as int, i + 3);
        assert(sub[0] == low[i as int] && sub[1] == low[i + 1] && sub[2] == low[i + 2]);
        if r {
            assert(sub =~= jpg_bytes());
        } else {
            assert(sub != jpg_bytes());
        }
    }
    r
}

fn jpeg_at(s: &[u8], i: usize) -> (r: bool)
    requires
        i + 4 <= s@.len(),
    ensures
        r == occurs_at(lower_bytes(s@), jpeg_bytes(), i as int),
{
    let r = lower_u8(s[i]) == 106 && lower_u8(s[i + 1]) == 112 && lower_u8(s[i + 2]) == 101
        && lower_u8(s[i + 3]) == 103;
    proof {
        let low = lower_bytes(s@);
        let sub = low.subrange(i as int, i + 4);
        assert(sub[0] == low[i as int] && sub[1] == low[i + 1] && sub[2] == low[i + 2] && sub[3]
            == low[i + 3]);
        if r {
            assert(sub =~= jpeg_bytes());
        } else {
            assert(sub != jpeg_bytes());
        }
    }
    r
}

/// Whether the extension bytes name a JPEG file.
pub fn is_jpeg_ext(ext: &[u8]) -> (r: bool)
    ensures
        r == is_jpeg_extension(ext@),
{
    let n = ext.len();
    let mut i: usize = 0;
    while i < n
        invariant
            i <= n == ext@.len(),
            forall|k: int|
                0 <= k < i ==> !(#[trigger] occurs_at(lower_bytes(ext@), jpg_bytes(), k)),
            forall|k: int|
                0 <= k < i ==> !(#[trigger] occurs_at(lower_bytes(ext@), jpeg_bytes(), k)),
        decreases n - i,
    {
        if n >= 3 && i <= n - 3 {
            if jpg_at(ext, i) {
                return true;
            }
        }
        if n >= 4 && i <= n - 4 {
            if jpeg_at(ext, i) {
                return true;
            }
        }
        i = i + 1;
    }
    proof {
        assert(forall|k: int| !(#[trigger] occurs_at(lower_bytes(ext@), jpg_bytes(), k)));
        assert(forall|k: int| !(#[trigger] occurs_at(lower_bytes(ext@), jpeg_bytes(), k)));
    }
    false
}

/// The two decode paths.
#[derive(Clone, Copy, Debug, PartialEq, Eq, Structural)]
pub enum ImageKind {
    /// A compressed image container, decoded to a pixel buffer.
    Compressed,
    /// A sensor-native RAW file, unpacked to a padded row buffer.
    RawSensor,
}

/// Classify a file by its extension, letter case ignored: extensions
/// containing `jpg` or `jpeg` go down the compressed-image path, everything
/// else — a missing extension included — down the RAW path.
pub fn classify_extension(extension: Option<&[u8]>) -> (k: ImageKind)
    ensures
        k == (match extension {
            Some(e) => if is_jpeg_extension(e@) {
                ImageKind::Compressed
            } else {
                ImageKind::RawSensor
            },
            None => ImageKind::RawSensor,
        }),
{
    match extension {
        Some(e) => if is_jpeg_ext(e) {
            ImageKind::Compressed
        } else {
            ImageKind::RawSensor
        },
        None => ImageKind::RawSensor,
    }
}

// ---------------------------------------------------------------------------
// Digests.
// ---------------------------------------------------------------------------

pub uninterp spec fn sha256_of(data: Seq<u8>) -> Seq<u8>;

/// Relies on `sha2::Sha256::digest`: the 32-byte SHA-256 digest of the
/// input, a function of the input bytes alone.
#[verifier::external_body]
fn sha256(data: &[u8]) -> (r: Vec<u8>)
    ensures
        r@ == sha256_of(data@),
        r@.len() == 32,
{
    sha2::Sha256::digest(data).to_vec()
}

/// Digest of a decoded compressed-image pixel buffer.
pub fn fingerprint_compressed(pixels: &[u8]) -> (r: Vec<u8>)
    ensures
        r@ == sha256_of(pixels@),
        r@.len() == 32,
{
    sha256(pixels)
}

/// The byte length an unpacked sensor buffer spans: row pitch times row
/// count. Padding inside each row counts; the visible width does not.
pub fn raw_buffer_len(pitch: u32, rows: u16) -> (n: u64)
    ensures
        n == pitch as int * rows as int,
{
    proof {
        lemma_mul_upper_bound(pitch as int, 0xffffffff, rows as int, 0xffff);
    }
    (pitch as u64) * (rows as u64)
}

/// Digest of an unpacked RAW sensor buffer, which must span exactly `pitch`
/// times `rows` bytes.
pub fn fingerprint_raw(buffer: &[u8], pitch: u32, rows: u16) -> (r: Result<Vec<u8>, IdError>)
    ensures
        (buffer@.len() == pitch as int * rows as int) <==> r is Ok,
        r matches Ok(d) ==> d@ == sha256_of(buffer@) && d@.len() == 32,
        buffer@.len() != pitch as int * rows as int ==> (r matches Err(e) && (e matches
        IdError::RawSizeMismatch { expected, actual } && expected == pitch as int * rows as int
            && actual == buffer@.len())),
{
    let expected = raw_buffer_len(pitch, rows);
    if (buffer.len() as u64) != expected {
        return Err(IdError::RawSizeMismatch { expected, actual: buffer.len() });
    }
    Ok(sha256(buffer))
}

// ---------------------------------------------------------------------------
// Byte reinterpretation of numeric samples.
// ---------------------------------------------------------------------------

/// The two bytes of a sixteen-bit sample, low byte first.
pub open spec fn sample_le_bytes(v: u16) -> Seq<u8> {
    seq![(v & 0xff) as u8, (v >> 8) as u8]
}

/// The byte image of a sixteen-bit sample array, low byte of each sample
/// first, as the array lies in memory on a little-endian machine.
pub open spec fn samples_as_bytes(s: Seq<u16>) -> Seq<u8>
    decreases s.len(),
{
    if s.len() == 0 {
        Seq::empty()
    } else {
        samples_as_bytes(s.drop_last()) + sample_le_bytes(s.last())
    }
}

/// Reinterpret sixteen-bit sensor samples as their byte image: two bytes
/// per sample, low byte first, total byte count preserved exactly.
pub fn sensor_samples_to_bytes(samples: &[u16]) -> (r: Vec<u8>)
    ensures
        r@ == samples_as_bytes(samples@),
        r@.len() == 2 * samples@.len(),
{
    let mut out: Vec<u8> = Vec::new();
    let mut i: usize = 0;
    while i < samples.len()
        invariant
            i <= samples@.len(),
            out@ == samples_as_bytes(samples@.subrange(0, i as int)),
            out@.len() == 2 * i,
        decreases samples@.len() - i,
    {
        let v = samples[i];
        out.push((v & 0xff) as u8);
        out.push((v >> 8) as u8);
        i = i + 1;
        proof {
            let cur = samples@.subrange(0, i as int);
            assert(cur.drop_last() =~= samples@.subrange(0, i - 1));
            assert(cur.last() == samples@[i - 1]);
            assert(out@ =~= samples_as_bytes(cur));
        }
    }
    proof {
        assert(samples@.subrange(0, samples@.len() as int) =~= samples@);
    }
    out
}

// ---------------------------------------------------------------------------
// Determinism.
// ---------------------------------------------------------------------------

/// Round-trip determinism: the fingerprint is a function of the decoded
/// bytes alone, so digesting the same buffer twice yields byte-identical
/// digests.
pub proof fn lemma_fingerprint_deterministic(a: Seq<u8>, b: Seq<u8>)
    requires
        a == b,
    ensures
        sha256_of(a) == sha256_of(b),
{
}

} // verus!
