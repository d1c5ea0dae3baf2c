//! Decimal digits: the value of a run of ASCII digit bytes, powers of ten,
//! and the bounds that connect them. Shared by the timestamp parser and by
//! the sortable encoder.

use vstd::prelude::*;
use vstd::arithmetic::div_mod::{
    lemma_breakdown, lemma_div_denominator, lemma_div_is_ordered, lemma_fundamental_div_mod,
    lemma_fundamental_div_mod_converse_div, lemma_mod_mod,
};
use vstd::arithmetic::mul::lemma_mul_inequality;

verus! {

/// Ten to the power `w`.
pub open spec fn pow10(w: nat) -> nat
    decreases w,
{
    if w == 0 {
        1
    } else {
        10 * pow10((w - 1) as nat)
    }
}

/// Whether `b` is the ASCII code of a decimal digit.
pub open spec fn is_digit_byte(b: u8) -> bool {
    48 <= b && b <= 57
}

/// Whether every byte of `s` is an ASCII decimal digit.
pub open spec fn all_digit_bytes(s: Seq<u8>) -> bool {
    forall|i: int| 0 <= i < s.len() ==> is_digit_byte(#[trigger] s[i])
}

/// Numeric value of a most-significant-first run of ASCII digits.
pub open spec fn digits_val(s: Seq<u8>) -> int
    decreases s.len(),
{
    if s.len() == 0 {
        0
    } else {
        digits_val(s.drop_last()) * 10 + (s.last() - 48)
    }
}

/// The ASCII character of a digit value below ten.
pub open spec fn dec_digit_char(v: int) -> char {
    ((48 + v) as u8) as char
}

/// The decimal rendering of `n`, most significant digit first, without
/// leading zeros; zero renders as the single digit 0.
pub open spec fn dec_digits_of(n: nat) -> Seq<char>
    decreases n,
{
    if n < 10 {
        seq![dec_digit_char(n as int)]
    } else {
        dec_digits_of(n / 10).push(dec_digit_char((n % 10) as int))
    }
}

/// How many characters the decimal rendering of `n` takes.
pub open spec fn num_digits(n: nat) -> nat {
    dec_digits_of(n).len()
}

pub proof fn lemma_pow10_increases(a: nat, b: nat)
    requires
        a <= b,
    ensures
        pow10(a) <= pow10(b),
    decreases b,
{
    if a < b {
        lemma_pow10_increases(a, (b - 1) as nat);
    }
}

/// The value of a digit run stays below ten to its length.
pub proof fn lemma_digits_val_bound(s: Seq<u8>)
    requires
        all_digit_bytes(s),
    ensures
        0 <= digits_val(s) < pow10(s.len()),
    decreases s.len(),
{
    if s.len() > 0 {
        assert(all_digit_bytes(s.drop_last())) by {
            assert(forall|i: int|
                0 <= i < s.len() - 1 ==> s.drop_last()[i] == #[trigger] s[i]);
        }
        lemma_digits_val_bound(s.drop_last());
        assert(is_digit_byte(s.last()));
        assert(pow10(s.len()) == 10 * pow10((s.len() - 1) as nat));
    }
}

// ---------------------------------------------------------------------------
// Lexicographic order of decimal renderings.
// ---------------------------------------------------------------------------

/// Strict lexicographic order on character sequences, each character
/// compared by its scalar value. On ASCII text this agrees with Rust's
/// byte-wise comparison of strings.
pub open spec fn lex_lt(a: Seq<char>, b: Seq<char>) -> bool
    decreases a.len(),
{
    if b.len() == 0 {
        false
    } else if a.len() == 0 {
        true
    } else if (a[0] as int) < (b[0] as int) {
        true
    } else if a[0] == b[0] {
        lex_lt(a.drop_first(), b.drop_first())
    } else {
        false
    }
}

/// `n` rendered in exactly `w` decimal digits, leading zeros included; the
/// low `w` digits when `n` is wider.
pub open spec fn dec_rep(n: nat, w: nat) -> Seq<char>
    decreases w,
{
    if w == 0 {
        Seq::empty()
    } else {
        dec_rep(n / 10, (w - 1) as nat).push(dec_digit_char((n % 10) as int))
    }
}

pub proof fn lemma_dec_rep_len(n: nat, w: nat)
    ensures
        dec_rep(n, w).len() == w,
    decreases w,
{
    if w > 0 {
        lemma_dec_rep_len(n / 10, (w - 1) as nat);
    }
}

proof fn lemma_dec_rep_zero(w: nat)
    ensures
        dec_rep(0, w) == Seq::new(w, |i: int| '0'),
    decreases w,
{
    if w == 0 {
        assert(dec_rep(0, w) =~= Seq::new(w, |i: int| '0'));
    } else {
        lemma_dec_rep_zero((w - 1) as nat);
        assert(dec_rep(0, w) =~= Seq::new(w, |i: int| '0'));
    }
}

/// Every rendering has at least one digit.
proof fn lemma_num_digits_pos(n: nat)
    ensures
        num_digits(n) >= 1,
    decreases n,
{
    if n >= 10 {
        lemma_num_digits_pos(n / 10);
    }
}

/// A number stays below ten to its own digit count.
pub proof fn lemma_num_digits_bound(n: nat)
    ensures
        n < pow10(num_digits(n)),
    decreases n,
{
    if n < 10 {
        reveal_with_fuel(pow10, 2);
        assert(pow10(1) == 10);
    } else {
        lemma_num_digits_bound(n / 10);
        assert(num_digits(n) == num_digits(n / 10) + 1);
        assert(pow10(num_digits(n)) == 10 * pow10(num_digits(n / 10)));
    }
}

/// Digit counts follow the numbers.
pub proof fn lemma_num_digits_mono(a: nat, b: nat)
    requires
        a <= b,
    ensures
        num_digits(a) <= num_digits(b),
    decreases b,
{
    if a < 10 {
        lemma_num_digits_pos(b);
    } else {
        lemma_div_is_ordered(a as int, b as int, 10);
        lemma_num_digits_mono(a / 10, b / 10);
    }
}

/// A rendering wide enough for the number is the number's own digits behind
/// leading zeros.
pub proof fn lemma_dec_rep_unpadded(n: nat, w: nat)
    requires
        num_digits(n) <= w,
    ensures
        dec_rep(n, w) == Seq::new((w - num_digits(n)) as nat, |i: int| '0') + dec_digits_of(n),
    decreases n,
{
    lemma_num_digits_pos(n);
    if n < 10 {
        lemma_dec_rep_zero((w - 1) as nat);
        assert(n / 10 == 0);
        assert(dec_rep(n, w) =~= Seq::new((w - 1) as nat, |i: int| '0') + dec_digits_of(n));
    } else {
        assert(num_digits(n) == num_digits(n / 10) + 1);
        lemma_dec_rep_unpadded(n / 10, (w - 1) as nat);
        assert(dec_rep(n, w) =~= Seq::new((w - num_digits(n)) as nat, |i: int| '0')
            + dec_digits_of(n));
    }
}

/// The first digit of a `w`-wide rendering of `n < 10^w` is the quotient by
/// `10^(w-1)`, and the rest render the remainder.
pub proof fn lemma_dec_rep_front(n: nat, w: nat)
    requires
        w >= 1,
        n < pow10(w),
    ensures
        n / pow10((w - 1) as nat) <= 9,
        dec_rep(n, w) == seq![dec_digit_char((n / pow10((w - 1) as nat)) as int)] + dec_rep(
            n % pow10((w - 1) as nat),
            (w - 1) as nat,
        ),
    decreases w,
{
    let p = pow10((w - 1) as nat) as int;
    assert(pow10(w) == 10 * pow10((w - 1) as nat));
    assert(p >= 1) by {
        lemma_pow10_increases(0, (w - 1) as nat);
    }
    // the head digit is small
    assert(n as int / p <= 9) by {
        if n as int / p >= 10 {
            lemma_fundamental_div_mod(n as int, p);
            lemma_mul_inequality(10, n as int / p, p);
        }
    }
    if w == 1 {
        assert(n < 10);
        assert(n as int / 1 == n as int);
        assert(n as int % 1 == 0);
        assert(dec_rep(n, 1) =~= seq![dec_digit_char(n as int)] + dec_rep(0, 0));
        assert(n % 10 == n);
    } else {
        let pp = pow10((w - 2) as nat) as int;
        assert(p == 10 * pp);
        // (n / 10) / pp == n / p
        lemma_div_denominator(n as int, 10, pp);
        // (n % p) % 10 == n % 10
        lemma_mod_mod(n as int, 10, pp);
        // n % p == 10 * ((n / 10) % pp) + n % 10
        lemma_breakdown(n as int, 10, pp);
        // hence (n % p) / 10 == (n / 10) % pp
        lemma_fundamental_div_mod_converse_div(
            n as int % p,
            10,
            (n as int / 10) % pp,
            n as int % 10,
        );
        // the tail renders n / 10 without its own head digit
        assert(n / 10 < pow10((w - 1) as nat));
        lemma_dec_rep_front(n / 10, (w - 1) as nat);
        assert(dec_rep(n, w) =~= seq![dec_digit_char((n as int / p) as int)] + dec_rep(
            (n as int % p) as nat,
            (w - 1) as nat,
        ));
    }
}

/// Equal-width renderings order as the numbers they render.
pub proof fn lemma_dec_rep_lt(a: nat, b: nat, w: nat)
    requires
        a < b,
        b < pow10(w),
    ensures
        lex_lt(dec_rep(a, w), dec_rep(b, w)),
    decreases w,
{
    if w == 0 {
        assert(false);
    } else {
        let p = pow10((w - 1) as nat) as int;
        assert(p >= 1) by {
            lemma_pow10_increases(0, (w - 1) as nat);
        }
        lemma_dec_rep_front(a, w);
        lemma_dec_rep_front(b, w);
        let ha = a as int / p;
        let hb = b as int / p;
        let ta = dec_rep((a as int % p) as nat, (w - 1) as nat);
        let tb = dec_rep((b as int % p) as nat, (w - 1) as nat);
        let fa = seq![dec_digit_char(ha)] + ta;
        let fb = seq![dec_digit_char(hb)] + tb;
        lemma_div_is_ordered(a as int, b as int, p);
        assert(fa[0] == dec_digit_char(ha) && fb[0] == dec_digit_char(hb));
        assert((dec_digit_char(ha) as int) == 48 + ha && (dec_digit_char(hb) as int) == 48 + hb);
        if ha < hb {
            assert(lex_lt(fa, fb));
        } else {
            // same head: the remainders still order as a and b
            lemma_fundamental_div_mod(a as int, p);
            lemma_fundamental_div_mod(b as int, p);
            assert(a as int % p < b as int % p);
            assert(b as int % p < p);
            lemma_dec_rep_lt((a as int % p) as nat, (b as int % p) as nat, (w - 1) as nat);
            assert(fa.drop_first() =~= ta);
            assert(fb.drop_first() =~= tb);
            assert(lex_lt(fa, fb));
        }
    }
}

/// A strict prefix difference decides the order whatever follows two
/// equal-length texts.
pub proof fn lemma_lex_lt_append(a: Seq<char>, b: Seq<char>, u: Seq<char>, v: Seq<char>)
    requires
        lex_lt(a, b),
        a.len() == b.len(),
    ensures
        lex_lt(a + u, b + v),
    decreases a.len(),
{
    assert(b.len() > 0);
    assert(a.len() > 0);
    let au = a + u;
    let bv = b + v;
    assert(au[0] == a[0] && bv[0] == b[0]);
    if (a[0] as int) < (b[0] as int) {
        assert(lex_lt(au, bv));
    } else {
        assert(a[0] == b[0]);
        lemma_lex_lt_append(a.drop_first(), b.drop_first(), u, v);
        assert(au.drop_first() =~= a.drop_first() + u);
        assert(bv.drop_first() =~= b.drop_first() + v);
        assert(lex_lt(au, bv));
    }
}

/// Parse the decimal value of `s[from..to]`; `None` when some byte in that
/// range is not a digit.
pub fn parse_digits(s: &[u8], from: usize, to: usize) -> (r: Option<u32>)
    requires
        from <= to <= s@.len(),
        to - from <= 9,
    ensures
        (r is Some) <==> all_digit_bytes(s@.subrange(from as int, to as int)),
        r matches Some(v) ==> v == digits_val(s@.subrange(from as int, to as int)),
{
    let ghost whole = s@.subrange(from as int, to as int);
    let mut acc: u32 = 0;
    let mut i: usize = from;
    while i < to
        invariant
            from <= i <= to <= s@.len(),
            to - from <= 9,
            whole == s@.subrange(from as int, to as int),
            all_digit_bytes(s@.subrange(from as int, i as int)),
            acc == digits_val(s@.subrange(from as int, i as int)),
            acc < pow10((i - from) as nat),
        decreases to - i,
    {
        let b = s[i];
        if b < 48 || b > 57 {
            proof {
                assert(whole[i - from] == s@[i as int]);
            }
            return None;
        }
        proof {
            lemma_pow10_increases((i - from) as nat, 8);
            reveal_with_fuel(pow10, 9);
            assert(pow10(8) == 100000000);
        }
        acc = acc * 10 + ((b - 48) as u32);
        i = i + 1;
        proof {
            let prev = s@.subrange(from as int, i - 1);
            let cur = s@.subrange(from as int, i as int);
            assert(cur.drop_last() =~= prev);
            assert(cur.last() == s@[i - 1]);
            assert(forall|j: int| 0 <= j < cur.len() ==> cur[j] == #[trigger] s@[from + j]);
            assert(pow10((i - from) as nat) == 10 * pow10((i - 1 - from) as nat));
        }
    }
    proof {
        assert(s@.subrange(from as int, i as int) =~= whole);
    }
    Some(acc)
}

} // verus!
