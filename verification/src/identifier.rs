//! The sortable identifier: milliseconds since the epoch rendered as a
//! zero-padded decimal, then, when a fingerprint is present, a dash and the
//! digest in lowercase hex. Padding makes byte-wise order of identifiers
//! follow the numeric order of their timestamps.

use vstd::prelude::*;
use vstd::string::StringExecFns;
use crate::digits::{
    dec_digit_char, dec_digits_of, dec_rep, lemma_dec_rep_len, lemma_dec_rep_lt,
    lemma_dec_rep_unpadded, lemma_lex_lt_append, lemma_num_digits_bound, lemma_num_digits_mono,
    lemma_pow10_increases, lex_lt, num_digits,
};
use crate::errors::IdError;
use crate::fingerprint::{fingerprint_compressed, fingerprint_raw, sha256_of};
use crate::strutil::push_char;
use crate::timestamp::{CaptureTimestamp, ExifRecord, resolve_capture_timestamp};
use crate::timestamp::{valid_naive, valid_offset, valid_with_offset};

verus! {

// ---------------------------------------------------------------------------
// The identifier text.
// ---------------------------------------------------------------------------

/// `s` left-padded with zeros up to width `w`; unchanged when already as
/// wide, never truncated.
pub open spec fn zero_pad(s: Seq<char>, w: nat) -> Seq<char> {
    if s.len() >= w {
        s
    } else {
        Seq::new((w - s.len()) as nat, |i: int| '0') + s
    }
}

/// The timestamp segment: `n` in decimal, zero-padded to width `w`.
pub open spec fn padded_dec(n: nat, w: nat) -> Seq<char> {
    zero_pad(dec_digits_of(n), w)
}

/// The hex character of a nibble value, lowercase.
pub open spec fn hex_digit_char(v: int) -> char {
    if v < 10 {
        dec_digit_char(v)
    } else {
        ((87 + v) as u8) as char
    }
}

/// Lowercase hex of a byte sequence, two digits per byte, high nibble
/// first.
pub open spec fn hex_lower_of(data: Seq<u8>) -> Seq<char>
    decreases data.len(),
{
    if data.len() == 0 {
        Seq::empty()
    } else {
        hex_lower_of(data.drop_last())
            + seq![
            hex_digit_char((data.last() >> 4) as int),
            hex_digit_char((data.last() & 15) as int),
        ]
    }
}

/// The identifier of a millisecond timestamp and an optional digest.
pub open spec fn spec_identifier(millis: nat, width: nat, digest: Option<Seq<u8>>) -> Seq<char> {
    match digest {
        Some(d) => padded_dec(millis, width) + seq!['-'] + hex_lower_of(d),
        None => padded_dec(millis, width),
    }
}

/// Relies on `data_encoding::HEXLOWER.encode`: lowercase hexadecimal, two
/// digits per byte, high nibble first.
#[verifier::external_body]
fn hex_lower(data: &[u8]) -> (r: String)
    ensures
        r@ == hex_lower_of(data@),
{
    data_encoding::HEXLOWER.encode(data)
}

fn dec_digit(v: u8) -> (c: char)
    requires
        v < 10,
    ensures
        c == dec_digit_char(v as int),
{
    (v + 48) as char
}

/// The decimal rendering of `n`, most significant digit first.
fn dec_digits_vec(n: u64) -> (r: Vec<char>)
    ensures
        r@ == dec_digits_of(n as nat),
{
    let mut digits: Vec<char> = Vec::new();
    let mut cur: u64 = n;
    let d0 = dec_digit((cur % 10) as u8);
    digits.insert(0, d0);
    cur = cur / 10;
    proof {
        if n < 10 {
            assert(dec_digits_of(n as nat) =~= Seq::<char>::empty() + digits@);
        } else {
            assert(dec_digits_of(n as nat) =~= dec_digits_of((n / 10) as nat) + digits@);
        }
    }
    while cur > 0
        invariant
            dec_digits_of(n as nat) == (if cur > 0 {
                dec_digits_of(cur as nat)
            } else {
                Seq::<char>::empty()
            }) + digits@,
        decreases cur,
    {
        let ghost prev_cur = cur as nat;
        let ghost prev_digits = digits@;
        let d = dec_digit((cur % 10) as u8);
        digits.insert(0, d);
        cur = cur / 10;
        proof {
            if cur > 0 {
                assert(dec_digits_of(prev_cur) == dec_digits_of(cur as nat).push(
                    dec_digit_char((prev_cur % 10) as int),
                ));
                assert(dec_digits_of(cur as nat) + digits@ =~= dec_digits_of(prev_cur)
                    + prev_digits);
            } else {
                assert(dec_digits_of(prev_cur) =~= seq![dec_digit_char(prev_cur as int)]);
                assert(Seq::<char>::empty() + digits@ =~= dec_digits_of(prev_cur) + prev_digits);
            }
        }
    }
    proof {
        assert(dec_digits_of(n as nat) =~= digits@);
    }
    digits
}

/// Encode a capture timestamp and an optional digest into one identifier.
///
/// The timestamp segment is the milliseconds since the epoch of the
/// absolute instant, padded with zeros on the left to at least
/// `timestamp_digits` characters and never truncated. Instants before the
/// epoch have no encoding and are rejected.
pub fn get_identifier(
    timestamp: &CaptureTimestamp,
    timestamp_digits: usize,
    hash: Option<&[u8]>,
) -> (r: Result<String, IdError>)
    requires
        timestamp.well_formed(),
    ensures
        (timestamp.utc_millis() >= 0) <==> r is Ok,
        r matches Ok(s) ==> s@ == spec_identifier(
            timestamp.utc_millis() as nat,
            timestamp_digits as nat,
            match hash {
                Some(h) => Some(h@),
                None => None,
            },
        ),
        timestamp.utc_millis() < 0 ==> (r matches Err(e) && e is BeforeEpoch),
{
    let millis_signed = timestamp.timestamp_millis();
    if millis_signed < 0 {
        return Err(IdError::BeforeEpoch);
    }
    let millis = millis_signed as u64;
    let digits = dec_digits_vec(millis);
    let ghost width = timestamp_digits as nat;
    let ghost zeros = (if width > digits@.len() {
        (width - digits@.len()) as nat
    } else {
        0nat
    });
    let mut out = String::new();
    let pad: usize = if timestamp_digits > digits.len() {
        timestamp_digits - digits.len()
    } else {
        0
    };
    let mut p: usize = 0;
    while p < pad
        invariant
            p <= pad,
            zeros == pad,
            out@ == Seq::new(p as nat, |i: int| '0'),
        decreases pad - p,
    {
        push_char(&mut out, '0');
        p = p + 1;
        proof {
            assert(out@ =~= Seq::new(p as nat, |i: int| '0'));
        }
    }
    let mut j: usize = 0;
    while j < digits.len()
        invariant
            j <= digits@.len(),
            out@ == Seq::new(zeros, |i: int| '0') + digits@.subrange(0, j as int),
        decreases digits@.len() - j,
    {
        let c = digits[j];
        push_char(&mut out, c);
        j = j + 1;
        proof {
            assert(out@ =~= Seq::new(zeros, |i: int| '0') + digits@.subrange(0, j as int));
        }
    }
    proof {
        assert(digits@.subrange(0, digits@.len() as int) =~= digits@);
        assert(out@ =~= padded_dec(millis as nat, width));
    }
    match hash {
        Some(h) => {
            push_char(&mut out, '-');
            let hex = hex_lower(h);
            out.append(hex.as_str());
            proof {
                assert(out@ =~= spec_identifier(millis as nat, width, Some(h@)));
            }
            Ok(out)
        },
        None => Ok(out),
    }
}

// ---------------------------------------------------------------------------
// What the encoding guarantees.
// ---------------------------------------------------------------------------

/// A padded segment wide enough for its number is its fixed-width
/// rendering.
proof fn lemma_padded_is_rep(n: nat, w: nat)
    requires
        num_digits(n) <= w,
    ensures
        padded_dec(n, w) == dec_rep(n, w),
        padded_dec(n, w).len() == w,
{
    lemma_dec_rep_unpadded(n, w);
    lemma_dec_rep_len(n, w);
    assert(padded_dec(n, w) =~= dec_rep(n, w));
}

/// Monotonic encoding: when the larger of two timestamps still fits the
/// padding width, their padded decimal segments are strictly ordered,
/// byte-wise, as the timestamps are numerically.
pub proof fn lemma_encoding_monotonic(a: nat, b: nat, w: nat)
    requires
        a < b,
        num_digits(b) <= w,
    ensures
        lex_lt(padded_dec(a, w), padded_dec(b, w)),
{
    lemma_num_digits_mono(a, b);
    lemma_padded_is_rep(a, w);
    lemma_padded_is_rep(b, w);
    lemma_num_digits_bound(b);
    lemma_pow10_increases(num_digits(b), w);
    lemma_dec_rep_lt(a, b, w);
}

/// Identifier ordering: two identifiers of the same padding width compare,
/// byte-wise, as their source timestamps compare numerically, whatever
/// digest either of them carries, whenever the larger timestamp fits the
/// width.
pub proof fn lemma_identifier_ordered(
    a: nat,
    b: nat,
    w: nat,
    da: Option<Seq<u8>>,
    db: Option<Seq<u8>>,
)
    requires
        a < b,
        num_digits(b) <= w,
    ensures
        lex_lt(spec_identifier(a, w, da), spec_identifier(b, w, db)),
{
    lemma_num_digits_mono(a, b);
    lemma_padded_is_rep(a, w);
    lemma_padded_is_rep(b, w);
    lemma_encoding_monotonic(a, b, w);
    let pa = padded_dec(a, w);
    let pb = padded_dec(b, w);
    let ta = match da {
        Some(d) => seq!['-'] + hex_lower_of(d),
        None => Seq::<char>::empty(),
    };
    let tb = match db {
        Some(d) => seq!['-'] + hex_lower_of(d),
        None => Seq::<char>::empty(),
    };
    lemma_lex_lt_append(pa, pb, ta, tb);
    assert(spec_identifier(a, w, da) =~= pa + ta);
    assert(spec_identifier(b, w, db) =~= pb + tb);
}

/// Timezone neutrality: two timestamps naming the same absolute instant
/// encode identically, whatever their offsets, since only the instant's
/// milliseconds reach the encoding.
pub proof fn lemma_timezone_neutral(
    t1: CaptureTimestamp,
    t2: CaptureTimestamp,
    w: nat,
    digest: Option<Seq<u8>>,
)
    requires
        t1.utc_millis() == t2.utc_millis(),
    ensures
        spec_identifier(t1.utc_millis() as nat, w, digest) == spec_identifier(
            t2.utc_millis() as nat,
            w,
            digest,
        ),
{
}

/// Width padding: a narrow rendering is padded with zeros up to the width,
/// a rendering exactly as wide passes unchanged, and a wider one is never
/// truncated; the rendered digits are always the untouched suffix.
pub proof fn lemma_width_padding(n: nat, w: nat)
    ensures
        num_digits(n) <= w ==> padded_dec(n, w).len() == w,
        num_digits(n) >= w ==> padded_dec(n, w) == dec_digits_of(n),
        padded_dec(n, w).len() == (if num_digits(n) >= w {
            num_digits(n)
        } else {
            w
        }),
        forall|i: int|
            0 <= i < padded_dec(n, w).len() - num_digits(n) ==> padded_dec(n, w)[i] == '0',
        padded_dec(n, w).skip(padded_dec(n, w).len() - num_digits(n)) == dec_digits_of(n),
{
    let s = dec_digits_of(n);
    if s.len() >= w {
        assert(padded_dec(n, w).skip(0) =~= s);
    } else {
        assert(padded_dec(n, w).skip(padded_dec(n, w).len() - num_digits(n)) =~= s);
    }
}

// ---------------------------------------------------------------------------
// Orchestration.
// ---------------------------------------------------------------------------

/// Decoded image data, as one of the two decode paths hands it over.
pub enum DecodedImage {
    /// The canonical byte layout of a fully decoded compressed image.
    Compressed { pixels: Vec<u8> },
    /// The unpacked sensor buffer of a RAW file, with the row pitch and row
    /// count its decoder declared.
    RawSensor { buffer: Vec<u8>, pitch: u32, rows: u16 },
}

impl DecodedImage {
    /// The decoded bytes the digest covers.
    pub open spec fn digest_input(self) -> Seq<u8> {
        match self {
            DecodedImage::Compressed { pixels } => pixels@,
            DecodedImage::RawSensor { buffer, .. } => buffer@,
        }
    }

    /// Whether the decoded data is internally consistent: a sensor buffer
    /// spans exactly pitch times rows bytes.
    pub open spec fn size_consistent(self) -> bool {
        match self {
            DecodedImage::Compressed { .. } => true,
            DecodedImage::RawSensor { buffer, pitch, rows } => buffer@.len() == pitch as int
                * rows as int,
        }
    }
}

/// Derive the identifier of one file: resolve the capture timestamp from
/// the metadata records, fingerprint the decoded data when there is any,
/// and encode both. The first failing stage decides the error.
pub fn derive_identifier(
    records: &Vec<ExifRecord>,
    decoded: Option<&DecodedImage>,
    timestamp_digits: usize,
) -> (r: Result<String, IdError>)
    ensures
        (r is Ok) <==> (records@.len() == 1 && records@[0].resolvable() && (match decoded {
            Some(d) => d.size_consistent(),
            None => true,
        }) && records@[0].spec_resolve().utc_millis() >= 0),
        r matches Ok(s) ==> s@ == spec_identifier(
            records@[0].spec_resolve().utc_millis() as nat,
            timestamp_digits as nat,
            match decoded {
                Some(d) => Some(sha256_of(d.digest_input())),
                None => None,
            },
        ),
        records@.len() != 1 ==> (r matches Err(e) && (e matches IdError::AmbiguousRecords {
            count,
        } && count == records@.len())),
        records@.len() == 1 && !valid_with_offset(records@[0].date_field()) && !valid_naive(
            records@[0].date_field(),
        ) ==> (r matches Err(e) && (e matches IdError::UnparseableDate { raw } && raw@
            == records@[0].date_field())),
        records@.len() == 1 && !valid_with_offset(records@[0].date_field()) && valid_naive(
            records@[0].date_field(),
        ) && !valid_offset(records@[0].chosen_offset()) ==> (r matches Err(e) && (e matches
        IdError::UnparseableOffset { raw } && raw@ == records@[0].chosen_offset())),
        records@.len() == 1 && records@[0].resolvable() ==> (match decoded {
            Some(d) => !d.size_consistent() ==> (r matches Err(e) && e is RawSizeMismatch),
            None => true,
        }),
        records@.len() == 1 && records@[0].resolvable() && (match decoded {
            Some(d) => d.size_consistent(),
            None => true,
        }) && records@[0].spec_resolve().utc_millis() < 0 ==> (r matches Err(e)
            && e is BeforeEpoch),
{
    let timestamp = match resolve_capture_timestamp(records) {
        Ok(t) => t,
        Err(e) => {
            return Err(e);
        },
    };
    let digest: Option<Vec<u8>> = match decoded {
        None => None,
        Some(DecodedImage::Compressed { pixels }) => Some(
            fingerprint_compressed(pixels.as_slice()),
        ),
        Some(DecodedImage::RawSensor { buffer, pitch, rows }) => {
            match fingerprint_raw(buffer.as_slice(), *pitch, *rows) {
                Ok(d) => Some(d),
                Err(e) => {
                    return Err(e);
                },
            }
        },
    };
    match digest {
        Some(d) => get_identifier(&timestamp, timestamp_digits, Some(d.as_slice())),
        None => get_identifier(&timestamp, timestamp_digits, None),
    }
}

} // verus!
