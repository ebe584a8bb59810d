use vstd::prelude::*;

use core::cmp::Ordering;

use crate::ir::IrClosure;
use crate::order::{bytes_order, chars_order, float_rank, usize_order, value_order};

verus! {

/// An immutable string, held as its characters.
pub struct Rope {
    chars: Vec<char>,
}

impl View for Rope {
    type V = Seq<char>;

    closed spec fn view(&self) -> Seq<char> {
        self.chars@
    }
}

impl Rope {
    pub fn from_chars(s: &[char]) -> (r: Rope)
        ensures
            r@ == s@,
    {
        let mut chars: Vec<char> = Vec::new();
        let mut i: usize = 0;
        while i < s.len()
            invariant
                i <= s@.len(),
                chars@ == s@.subrange(0, i as int),
            decreases s@.len() - i,
        {
            chars.push(s[i]);
            i = i + 1;
            proof {
                assert(chars@ =~= s@.subrange(0, i as int));
            }
        }
        proof {
            assert(chars@ =~= s@);
        }
        Rope { chars }
    }

    pub fn len(&self) -> (r: usize)
        ensures
            r == self@.len(),
    {
        self.chars.len()
    }

    pub fn char_at(&self, i: usize) -> (r: char)
        requires
            i < self@.len(),
        ensures
            r == self@[i as int],
    {
        self.chars[i]
    }
}

/// An immutable byte buffer.
pub struct Bytes {
    data: Vec<u8>,
}

impl View for Bytes {
    type V = Seq<u8>;

    closed spec fn view(&self) -> Seq<u8> {
        self.data@
    }
}

impl Bytes {
    pub fn from_slice(b: &[u8]) -> (r: Bytes)
        ensures
            r@ == b@,
    {
        let mut data: Vec<u8> = Vec::new();
        let mut i: usize = 0;
        while i < b.len()
            invariant
                i <= b@.len(),
                data@ == b@.subrange(0, i as int),
            decreases b@.len() - i,
        {
            data.push(b[i]);
            i = i + 1;
            proof {
                assert(data@ =~= b@.subrange(0, i as int));
            }
        }
        proof {
            assert(data@ =~= b@);
        }
        Bytes { data }
    }

    pub fn len(&self) -> (r: usize)
        ensures
            r == self@.len(),
    {
        self.data.len()
    }

    pub fn byte_at(&self, i: usize) -> (r: u8)
        requires
            i < self@.len(),
        ensures
            r == self@[i as int],
    {
        self.data[i]
    }
}

/// A runtime value. Arrays, sets and maps are handles into the heap, where
/// they are shared and reachable from several places; a float is held as the
/// bit pattern of its IEEE 754 double.
pub enum Value {
    Nil,
    Bool(bool),
    Int(i64),
    Float(u64),
    Char(char),
    String(Rope),
    Bytes(Bytes),
    Array(usize),
    SetRef(usize),
    MapRef(usize),
    Fun(IrClosure),
}

/// The bit pattern that stands for a float's equality class: every NaN is
/// one value, and negative zero is zero.
pub open spec fn float_key(bits: u64) -> u64 {
    if bits & 0x7ff0_0000_0000_0000 == 0x7ff0_0000_0000_0000 && bits & 0x000f_ffff_ffff_ffff != 0 {
        0x7ff8_0000_0000_0000
    } else if bits == 0x8000_0000_0000_0000 {
        0
    } else {
        bits
    }
}

fn float_class(bits: u64) -> (r: u64)
    ensures
        r == float_key(bits),
{
    if bits & 0x7ff0_0000_0000_0000 == 0x7ff0_0000_0000_0000 && bits & 0x000f_ffff_ffff_ffff != 0 {
        0x7ff8_0000_0000_0000
    } else if bits == 0x8000_0000_0000_0000 {
        0
    } else {
        bits
    }
}

fn float_position(bits: u64) -> (r: u64)
    ensures
        r == float_rank(float_key(bits)),
{
    let k = float_class(bits);
    if k & 0x8000_0000_0000_0000 != 0 {
        !k
    } else {
        k | 0x8000_0000_0000_0000
    }
}

fn variant_index(v: &Value) -> (r: usize)
    ensures
        r as int == crate::order::variant_rank(v@),
{
    match v {
        Value::Nil => 0,
        Value::Bool(_) => 1,
        Value::Int(_) => 2,
        Value::Float(_) => 3,
        Value::Char(_) => 4,
        Value::String(_) => 5,
        Value::Bytes(_) => 6,
        Value::Array(_) => 7,
        Value::SetRef(_) => 8,
        Value::MapRef(_) => 9,
        Value::Fun(_) => 10,
    }
}

/// The mathematical model of a `Value`. A float is modelled by its
/// equality class.
pub enum ValueV {
    Nil,
    Bool(bool),
    Int(i64),
    Float(u64),
    Char(char),
    Str(Seq<char>),
    Bytes(Seq<u8>),
    Array(usize),
    SetRef(usize),
    MapRef(usize),
    Fun(IrClosure),
}

impl View for Value {
    type V = ValueV;

    open spec fn view(&self) -> ValueV {
        match self {
            Value::Nil => ValueV::Nil,
            Value::Bool(b) => ValueV::Bool(*b),
            Value::Int(n) => ValueV::Int(*n),
            Value::Float(f) => ValueV::Float(float_key(*f)),
            Value::Char(c) => ValueV::Char(*c),
            Value::String(s) => ValueV::Str(s@),
            Value::Bytes(b) => ValueV::Bytes(b@),
            Value::Array(a) => ValueV::Array(*a),
            Value::SetRef(s) => ValueV::SetRef(*s),
            Value::MapRef(m) => ValueV::MapRef(*m),
            Value::Fun(c) => ValueV::Fun(*c),
        }
    }
}

/// Only nothing and boolean false are falsy.
pub open spec fn truthy_spec(v: ValueV) -> bool {
    match v {
        ValueV::Nil => false,
        ValueV::Bool(b) => b,
        _ => true,
    }
}

/// The models of a sequence of values.
pub open spec fn views(vs: Seq<Value>) -> Seq<ValueV> {
    vs.map_values(|v: Value| v@)
}

fn chars_equal(a: &Vec<char>, b: &Vec<char>) -> (r: bool)
    ensures
        r == (a@ == b@),
{
    if a.len() != b.len() {
        return false;
    }
    let mut i: usize = 0;
    while i < a.len()
        invariant
            a@.len() == b@.len(),
            i <= a@.len(),
            forall|j: int| 0 <= j < i ==> a@[j] == b@[j],
        decreases a@.len() - i,
    {
        if a[i] != b[i] {
            return false;
        }
        i = i + 1;
    }
    proof {
        assert(a@ =~= b@);
    }
    true
}

fn bytes_equal(a: &Vec<u8>, b: &Vec<u8>) -> (r: bool)
    ensures
        r == (a@ == b@),
{
    if a.len() != b.len() {
        return false;
    }
    let mut i: usize = 0;
    while i < a.len()
        invariant
            a@.len() == b@.len(),
            i <= a@.len(),
            forall|j: int| 0 <= j < i ==> a@[j] == b@[j],
        decreases a@.len() - i,
    {
        if a[i] != b[i] {
            return false;
        }
        i = i + 1;
    }
    proof {
        assert(a@ =~= b@);
    }
    true
}

impl Value {
    pub fn nil() -> (r: Value)
        ensures
            r@ == ValueV::Nil,
    {
        Value::Nil
    }

    pub fn truthy(&self) -> (r: bool)
        ensures
            r == truthy_spec(self@),
    {
        match self {
            Value::Nil => false,
            Value::Bool(b) => *b,
            _ => true,
        }
    }

    /// A copy of this value; handles are copied, so the copy shares the
    /// same heap-resident array, set, map or environment frame.
    pub fn copy(&self) -> (r: Value)
        ensures
            r@ == self@,
    {
        match self {
            Value::Nil => Value::Nil,
            Value::Bool(b) => Value::Bool(*b),
            Value::Int(n) => Value::Int(*n),
            Value::Float(f) => Value::Float(*f),
            Value::Char(c) => Value::Char(*c),
            Value::String(s) => {
                let chars = s.chars.clone();
                proof {
                    assert(chars@ =~= s.chars@);
                }
                Value::String(Rope { chars })
            },
            Value::Bytes(b) => {
                let data = b.data.clone();
                proof {
                    assert(data@ =~= b.data@);
                }
                Value::Bytes(Bytes { data })
            },
            Value::Array(a) => Value::Array(*a),
            Value::SetRef(s) => Value::SetRef(*s),
            Value::MapRef(m) => Value::MapRef(*m),
            Value::Fun(c) => Value::Fun(*c),
        }
    }

    /// Where this value stands against `other` in the total order of values.
    pub fn compare(&self, other: &Value) -> (r: Ordering)
        ensures
            r == value_order(self@, other@),
    {
        let ra = variant_index(self);
        let rb = variant_index(other);
        if ra != rb {
            return usize_order(ra, rb);
        }
        match (self, other) {
            (Value::Bool(a), Value::Bool(b)) => usize_order(
                if *a {
                    1
                } else {
                    0
                },
                if *b {
                    1
                } else {
                    0
                },
            ),
            (Value::Int(a), Value::Int(b)) => if *a < *b {
                Ordering::Less
            } else if *a > *b {
                Ordering::Greater
            } else {
                Ordering::Equal
            },
            (Value::Float(a), Value::Float(b)) => {
                let x = float_position(*a);
                let y = float_position(*b);
                if x < y {
                    Ordering::Less
                } else if x > y {
                    Ordering::Greater
                } else {
                    Ordering::Equal
                }
            },
            (Value::Char(a), Value::Char(b)) => {
                let x = *a;
                let y = *b;
                if x < y {
                    Ordering::Less
                } else if x > y {
                    Ordering::Greater
                } else {
                    Ordering::Equal
                }
            },
            (Value::String(a), Value::String(b)) => chars_order(&a.chars, &b.chars),
            (Value::Bytes(a), Value::Bytes(b)) => bytes_order(&a.data, &b.data),
            (Value::Array(a), Value::Array(b)) => usize_order(*a, *b),
            (Value::SetRef(a), Value::SetRef(b)) => usize_order(*a, *b),
            (Value::MapRef(a), Value::MapRef(b)) => usize_order(*a, *b),
            (Value::Fun(a), Value::Fun(b)) => if a.unit != b.unit {
                usize_order(a.unit, b.unit)
            } else if a.entry != b.entry {
                usize_order(a.entry, b.entry)
            } else {
                usize_order(a.env, b.env)
            },
            _ => Ordering::Equal,
        }
    }

    /// Key equality, as sets and maps use it: equal models. Handles compare
    /// by identity, strings and byte buffers by content, floats by class.
    pub fn same(&self, other: &Value) -> (r: bool)
        ensures
            r == (self@ == other@),
    {
        match (self, other) {
            (Value::Nil, Value::Nil) => true,
            (Value::Bool(a), Value::Bool(b)) => *a == *b,
            (Value::Int(a), Value::Int(b)) => *a == *b,
            (Value::Float(a), Value::Float(b)) => float_class(*a) == float_class(*b),
            (Value::Char(a), Value::Char(b)) => *a == *b,
            (Value::String(a), Value::String(b)) => chars_equal(&a.chars, &b.chars),
            (Value::Bytes(a), Value::Bytes(b)) => bytes_equal(&a.data, &b.data),
            (Value::Array(a), Value::Array(b)) => *a == *b,
            (Value::SetRef(a), Value::SetRef(b)) => *a == *b,
            (Value::MapRef(a), Value::MapRef(b)) => *a == *b,
            (Value::Fun(a), Value::Fun(b)) => a.unit == b.unit && a.entry == b.entry && a.env
                == b.env,
            _ => false,
        }
    }
}

} // verus!
