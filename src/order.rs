use vstd::prelude::*;

use core::cmp::Ordering;

use crate::value::ValueV;

verus! {

/// The order of two integers.
pub open spec fn int_order(a: int, b: int) -> Ordering {
    if a < b {
        Ordering::Less
    } else if a > b {
        Ordering::Greater
    } else {
        Ordering::Equal
    }
}

/// The lexicographic order of two sequences of integers.
pub open spec fn seq_order(a: Seq<int>, b: Seq<int>) -> Ordering
    decreases a.len(),
{
    if a.len() == 0 {
        if b.len() == 0 {
            Ordering::Equal
        } else {
            Ordering::Less
        }
    } else if b.len() == 0 {
        Ordering::Greater
    } else if a[0] != b[0] {
        int_order(a[0], b[0])
    } else {
        seq_order(a.drop_first(), b.drop_first())
    }
}

pub open spec fn char_codes(s: Seq<char>) -> Seq<int> {
    s.map_values(|c: char| c as int)
}

pub open spec fn byte_codes(s: Seq<u8>) -> Seq<int> {
    s.map_values(|b: u8| b as int)
}

/// The position of a float's class in the total order of floats: negative
/// numbers, zero, positive numbers, then NaN.
pub open spec fn float_rank(k: u64) -> u64 {
    if k & 0x8000_0000_0000_0000 != 0 {
        !k
    } else {
        k | 0x8000_0000_0000_0000
    }
}

/// The rank of a value's variant in the order across variants.
pub open spec fn variant_rank(v: ValueV) -> int {
    match v {
        ValueV::Nil => 0,
        ValueV::Bool(_) => 1,
        ValueV::Int(_) => 2,
        ValueV::Float(_) => 3,
        ValueV::Char(_) => 4,
        ValueV::Str(_) => 5,
        ValueV::Bytes(_) => 6,
        ValueV::Array(_) => 7,
        ValueV::SetRef(_) => 8,
        ValueV::MapRef(_) => 9,
        ValueV::Fun(_) => 10,
    }
}

/// The total order of values: by variant first, then within the variant by
/// its natural order; strings and byte buffers lexicographically, closures
/// by unit, entry and frame.
pub open spec fn value_order(a: ValueV, b: ValueV) -> Ordering {
    if variant_rank(a) != variant_rank(b) {
        int_order(variant_rank(a), variant_rank(b))
    } else {
        match (a, b) {
            (ValueV::Bool(x), ValueV::Bool(y)) => int_order(
                if x {
                    1
                } else {
                    0
                },
                if y {
                    1
                } else {
                    0
                },
            ),
            (ValueV::Int(x), ValueV::Int(y)) => int_order(x as int, y as int),
            (ValueV::Float(x), ValueV::Float(y)) => int_order(
                float_rank(x) as int,
                float_rank(y) as int,
            ),
            (ValueV::Char(x), ValueV::Char(y)) => int_order(x as int, y as int),
            (ValueV::Str(x), ValueV::Str(y)) => seq_order(char_codes(x), char_codes(y)),
            (ValueV::Bytes(x), ValueV::Bytes(y)) => seq_order(byte_codes(x), byte_codes(y)),
            (ValueV::Array(x), ValueV::Array(y)) => int_order(x as int, y as int),
            (ValueV::SetRef(x), ValueV::SetRef(y)) => int_order(x as int, y as int),
            (ValueV::MapRef(x), ValueV::MapRef(y)) => int_order(x as int, y as int),
            (ValueV::Fun(x), ValueV::Fun(y)) => if x.unit != y.unit {
                int_order(x.unit as int, y.unit as int)
            } else if x.entry != y.entry {
                int_order(x.entry as int, y.entry as int)
            } else {
                int_order(x.env as int, y.env as int)
            },
            _ => Ordering::Equal,
        }
    }
}

pub(crate) fn usize_order(a: usize, b: usize) -> (r: Ordering)
    ensures
        r == int_order(a as int, b as int),
{
    if a < b {
        Ordering::Less
    } else if a > b {
        Ordering::Greater
    } else {
        Ordering::Equal
    }
}

proof fn lemma_seq_order_skip(a: Seq<int>, b: Seq<int>, i: int)
    requires
        0 <= i < a.len(),
        i < b.len(),
        a[i] == b[i],
    ensures
        seq_order(a.skip(i), b.skip(i)) == seq_order(a.skip(i + 1), b.skip(i + 1)),
{
    assert(a.skip(i).drop_first() =~= a.skip(i + 1));
    assert(b.skip(i).drop_first() =~= b.skip(i + 1));
}

pub(crate) fn chars_order(a: &Vec<char>, b: &Vec<char>) -> (r: Ordering)
    ensures
        r == seq_order(char_codes(a@), char_codes(b@)),
{
    let ghost x = char_codes(a@);
    let ghost y = char_codes(b@);
    let mut i: usize = 0;
    proof {
        assert(x.skip(0) =~= x);
        assert(y.skip(0) =~= y);
    }
    while i < a.len() && i < b.len()
        invariant
            i <= a@.len(),
            i <= b@.len(),
            x == char_codes(a@),
            y == char_codes(b@),
            seq_order(x, y) == seq_order(x.skip(i as int), y.skip(i as int)),
        decreases a@.len() - i,
    {
        let c = a[i];
        let d = b[i];
        if c != d {
            proof {
                assert(x.skip(i as int)[0] == c as int);
                assert(y.skip(i as int)[0] == d as int);
            }
            return if c < d {
                Ordering::Less
            } else {
                Ordering::Greater
            };
        }
        proof {
            lemma_seq_order_skip(x, y, i as int);
        }
        i = i + 1;
    }
    usize_order(a.len() - i, b.len() - i)
}

pub(crate) fn bytes_order(a: &Vec<u8>, b: &Vec<u8>) -> (r: Ordering)
    ensures
        r == seq_order(byte_codes(a@), byte_codes(b@)),
{
    let ghost x = byte_codes(a@);
    let ghost y = byte_codes(b@);
    let mut i: usize = 0;
    proof {
        assert(x.skip(0) =~= x);
        assert(y.skip(0) =~= y);
    }
    while i < a.len() && i < b.len()
        invariant
            i <= a@.len(),
            i <= b@.len(),
            x == byte_codes(a@),
            y == byte_codes(b@),
            seq_order(x, y) == seq_order(x.skip(i as int), y.skip(i as int)),
        decreases a@.len() - i,
    {
        let c = a[i];
        let d = b[i];
        if c != d {
            proof {
                assert(x.skip(i as int)[0] == c as int);
                assert(y.skip(i as int)[0] == d as int);
            }
            return if c < d {
                Ordering::Less
            } else {
                Ordering::Greater
            };
        }
        proof {
            lemma_seq_order_skip(x, y, i as int);
        }
        i = i + 1;
    }
    usize_order(a.len() - i, b.len() - i)
}

/// Two sequences are in order `Equal` exactly when they are the same, and
/// swapping them swaps `Less` and `Greater`.
pub proof fn lemma_seq_order(a: Seq<int>, b: Seq<int>)
    ensures
        (seq_order(a, b) == Ordering::Equal) == (a == b),
        (seq_order(a, b) == Ordering::Less) == (seq_order(b, a) == Ordering::Greater),
    decreases a.len(),
{
    if a.len() > 0 && b.len() > 0 && a[0] == b[0] {
        lemma_seq_order(a.drop_first(), b.drop_first());
        if a.drop_first() == b.drop_first() {
            assert forall|i: int| 0 <= i < a.len() implies a[i] == b[i] by {
                if i > 0 {
                    assert(a[i] == a.drop_first()[i - 1]);
                    assert(b[i] == b.drop_first()[i - 1]);
                }
            }
            assert(a =~= b);
        }
    }
    if a.len() > 0 && b.len() == 0 {
        assert(a != b);
    }
    if a.len() == 0 && b.len() == 0 {
        assert(a =~= b);
    }
    if a.len() == 0 && b.len() > 0 {
        assert(a != b);
    }
    if a.len() > 0 && b.len() > 0 && a[0] != b[0] {
        assert(a != b);
    }
}

proof fn lemma_char_codes_injective(x: Seq<char>, y: Seq<char>)
    requires
        char_codes(x) == char_codes(y),
    ensures
        x == y,
{
    assert(x.len() == char_codes(x).len());
    assert(y.len() == char_codes(y).len());
    assert forall|i: int| 0 <= i < x.len() implies x[i] == y[i] by {
        assert(char_codes(x)[i] == x[i] as int);
        assert(char_codes(y)[i] == y[i] as int);
    }
    assert(x =~= y);
}

proof fn lemma_byte_codes_injective(x: Seq<u8>, y: Seq<u8>)
    requires
        byte_codes(x) == byte_codes(y),
    ensures
        x == y,
{
    assert(x.len() == byte_codes(x).len());
    assert(y.len() == byte_codes(y).len());
    assert forall|i: int| 0 <= i < x.len() implies x[i] == y[i] by {
        assert(byte_codes(x)[i] == x[i] as int);
        assert(byte_codes(y)[i] == y[i] as int);
    }
    assert(x =~= y);
}

proof fn lemma_float_rank_injective(k1: u64, k2: u64)
    requires
        float_rank(k1) == float_rank(k2),
    ensures
        k1 == k2,
{
    assert((if k1 & 0x8000_0000_0000_0000 != 0 { !k1 } else { k1 | 0x8000_0000_0000_0000 }) == (
    if k2 & 0x8000_0000_0000_0000 != 0 {
        !k2
    } else {
        k2 | 0x8000_0000_0000_0000
    }) ==> k1 == k2) by (bit_vector);
}

/// The order of values agrees with their equality: two values are in order
/// `Equal` exactly when their models are equal, and swapping two values
/// swaps `Less` and `Greater`.
pub proof fn lemma_value_order(a: ValueV, b: ValueV)
    ensures
        (value_order(a, b) == Ordering::Equal) == (a == b),
        (value_order(a, b) == Ordering::Less) == (value_order(b, a) == Ordering::Greater),
{
    match (a, b) {
        (ValueV::Float(x), ValueV::Float(y)) => {
            if float_rank(x) == float_rank(y) {
                lemma_float_rank_injective(x, y);
            }
        },
        (ValueV::Char(x), ValueV::Char(y)) => {
            if x as int == y as int {
                assert(x == y);
            }
        },
        (ValueV::Str(x), ValueV::Str(y)) => {
            lemma_seq_order(char_codes(x), char_codes(y));
            lemma_seq_order(char_codes(y), char_codes(x));
            if char_codes(x) == char_codes(y) {
                lemma_char_codes_injective(x, y);
            }
        },
        (ValueV::Bytes(x), ValueV::Bytes(y)) => {
            lemma_seq_order(byte_codes(x), byte_codes(y));
            lemma_seq_order(byte_codes(y), byte_codes(x));
            if byte_codes(x) == byte_codes(y) {
                lemma_byte_codes_injective(x, y);
            }
        },
        _ => {},
    }
}

} // verus!
