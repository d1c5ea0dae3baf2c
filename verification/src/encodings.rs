//! A sort-stable base-16 text encoding: each byte becomes two letters from
//! 'a' through 'p', high nibble first, so byte-wise comparison of two
//! encodings orders them exactly as the encoded byte sequences.

use vstd::prelude::*;
use crate::digits::lex_lt;
use crate::strutil::push_char;

verus! {

/// The letter standing for a nibble: 'a' for 0 up to 'p' for 15.
pub open spec fn sortable16_char(v: u8) -> char {
    ((97 + v) as u8) as char
}

/// The encoding of a byte sequence: two letters per byte, high nibble first.
pub open spec fn sortable16_of(data: Seq<u8>) -> Seq<char>
    decreases data.len(),
{
    if data.len() == 0 {
        Seq::empty()
    } else {
        sortable16_of(data.drop_last())
            + seq![sortable16_char(data.last() >> 4), sortable16_char(data.last() & 15)]
    }
}

/// Strict lexicographic order on byte sequences.
pub open spec fn bytes_lex_lt(a: Seq<u8>, b: Seq<u8>) -> bool
    decreases a.len(),
{
    if b.len() == 0 {
        false
    } else if a.len() == 0 {
        true
    } else if a[0] < b[0] {
        true
    } else if a[0] == b[0] {
        bytes_lex_lt(a.drop_first(), b.drop_first())
    } else {
        false
    }
}

proof fn lemma_sortable16_len(s: Seq<u8>)
    ensures
        sortable16_of(s).len() == 2 * s.len(),
    decreases s.len(),
{
    if s.len() > 0 {
        lemma_sortable16_len(s.drop_last());
    }
}

/// The encoding also reads off the front: the first byte's two letters,
/// then the encoding of the rest.
proof fn lemma_sortable16_front(s: Seq<u8>)
    requires
        s.len() > 0,
    ensures
        sortable16_of(s) == seq![sortable16_char(s[0] >> 4), sortable16_char(s[0] & 15)]
            + sortable16_of(s.drop_first()),
    decreases s.len(),
{
    if s.len() == 1 {
        assert(s.drop_last() =~= Seq::<u8>::empty());
        assert(s.drop_first() =~= Seq::<u8>::empty());
        assert(sortable16_of(s) =~= seq![
            sortable16_char(s[0] >> 4),
            sortable16_char(s[0] & 15),
        ] + sortable16_of(s.drop_first()));
    } else {
        lemma_sortable16_front(s.drop_last());
        assert(s.drop_last()[0] == s[0]);
        assert(s.drop_last().drop_first() =~= s.drop_first().drop_last());
        assert(s.drop_first().last() == s.last());
        assert(sortable16_of(s.drop_first()) == sortable16_of(s.drop_first().drop_last())
            + seq![
            sortable16_char(s.drop_first().last() >> 4),
            sortable16_char(s.drop_first().last() & 15),
        ]);
        assert(sortable16_of(s) =~= seq![sortable16_char(s[0] >> 4), sortable16_char(s[0] & 15)]
            + sortable16_of(s.drop_first()));
    }
}

/// A shared first character never decides the order.
proof fn lemma_lex_lt_cons(c: char, x: Seq<char>, y: Seq<char>)
    requires
        lex_lt(x, y),
    ensures
        lex_lt(seq![c] + x, seq![c] + y),
{
    let cx = seq![c] + x;
    let cy = seq![c] + y;
    assert(cx[0] == c && cy[0] == c);
    assert(cx.drop_first() =~= x);
    assert(cy.drop_first() =~= y);
}

/// The alphabet earns its name: byte-wise comparison of two encodings
/// orders them exactly as the encoded byte sequences compare.
pub proof fn lemma_sortable16_order(a: Seq<u8>, b: Seq<u8>)
    requires
        bytes_lex_lt(a, b),
    ensures
        lex_lt(sortable16_of(a), sortable16_of(b)),
    decreases a.len(),
{
    lemma_sortable16_len(a);
    lemma_sortable16_len(b);
    lemma_sortable16_front(b);
    let ea = sortable16_of(a);
    let eb = sortable16_of(b);
    if a.len() == 0 {
        assert(lex_lt(ea, eb));
    } else {
        lemma_sortable16_front(a);
        let a0 = a[0];
        let b0 = b[0];
        let ha = a0 >> 4;
        let la = a0 & 15;
        let hb = b0 >> 4;
        let lb = b0 & 15;
        assert(ha < 16 && la < 16 && hb < 16 && lb < 16) by (bit_vector)
            requires
                ha == a0 >> 4 && la == a0 & 15 && hb == b0 >> 4 && lb == b0 & 15,
        ;
        assert((sortable16_char(ha) as int) == 97 + ha);
        assert((sortable16_char(hb) as int) == 97 + hb);
        assert((sortable16_char(la) as int) == 97 + la);
        assert((sortable16_char(lb) as int) == 97 + lb);
        let ra = sortable16_of(a.drop_first());
        let rb = sortable16_of(b.drop_first());
        assert(ea =~= seq![sortable16_char(ha)] + (seq![sortable16_char(la)] + ra));
        assert(eb =~= seq![sortable16_char(hb)] + (seq![sortable16_char(lb)] + rb));
        if a0 == b0 {
            lemma_sortable16_order(a.drop_first(), b.drop_first());
            lemma_lex_lt_cons(sortable16_char(la), ra, rb);
            lemma_lex_lt_cons(
                sortable16_char(ha),
                seq![sortable16_char(la)] + ra,
                seq![sortable16_char(lb)] + rb,
            );
        } else {
            assert(a0 < b0);
            assert(a0 < b0 ==> ha <= hb) by (bit_vector)
                requires
                    ha == a0 >> 4 && hb == b0 >> 4,
            ;
            if ha == hb {
                assert(a0 < b0 && ha == hb ==> la < lb) by (bit_vector)
                    requires
                        ha == a0 >> 4 && hb == b0 >> 4 && la == a0 & 15 && lb == b0 & 15,
                ;
                assert(lex_lt(seq![sortable16_char(la)] + ra, seq![sortable16_char(lb)] + rb));
                lemma_lex_lt_cons(
                    sortable16_char(ha),
                    seq![sortable16_char(la)] + ra,
                    seq![sortable16_char(lb)] + rb,
                );
            } else {
                assert(ha < hb);
                assert(lex_lt(ea, eb));
            }
        }
    }
}

/// Encode `data` in the sort-stable base-16 alphabet.
pub fn to_sortable_base_16(data: &[u8]) -> (result: String)
    ensures
        result@ == sortable16_of(data@),
{
    let mut result = String::new();
    let mut i: usize = 0;
    while i < data.len()
        invariant
            i <= data@.len(),
            result@ == sortable16_of(data@.subrange(0, i as int)),
        decreases data@.len() - i,
    {
        let byte = data[i];
        proof {
            assert(byte >> 4 < 16 && byte & 15 < 16) by (bit_vector);
        }
        let upper = (97 + (byte >> 4)) as char;
        let lower = (97 + (byte & 0b00001111)) as char;

        push_char(&mut result, upper);
        push_char(&mut result, lower);

        i = i + 1;
        proof {
            let cur = data@.subrange(0, i as int);
            assert(cur.drop_last() =~= data@.subrange(0, i - 1));
            assert(cur.last() == data@[i - 1]);
            assert(result@ =~= sortable16_of(cur));
        }
    }
    proof {
        assert(data@.subrange(0, data@.len() as int) =~= data@);
    }
    result
}

} // verus!
