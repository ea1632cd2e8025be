//! Decoded values: the in-memory form of one record, and the canonical
//! text rendering of leaf values.
//!
//! Integers render as their usual decimal form, negative values with a
//! leading minus sign; flags render as `true` / `false`.
use vstd::prelude::*;
use vstd::string::StrSliceExecFns;
use vstd::string::StringExecFns;
use crate::bytes::spec_le_nat;
use crate::bytes::spec_pow256;
use crate::bytes::lemma_le_nat_bound;
use crate::bytes::ByteSource;
use crate::schema::LeafKind;
use crate::schema::spec_leaf_size;

verus! {

/// One decoded value: a primitive leaf or an ordered list of children,
/// mirroring the shape of the schema it was decoded against.
pub enum Value {
    Flag(bool),
    U8(u8),
    U16(u16),
    U32(u32),
    U64(u64),
    I8(i8),
    I16(i16),
    I32(i32),
    I64(i64),
    Composite(Vec<Value>),
}

/// A leaf value carries exactly the variant its leaf kind calls for.
pub open spec fn spec_leaf_conforms(v: Value, k: LeafKind) -> bool {
    match k {
        LeafKind::Flag => v is Flag,
        LeafKind::U8 => v is U8,
        LeafKind::U16 => v is U16,
        LeafKind::U32 => v is U32,
        LeafKind::U64 => v is U64,
        LeafKind::I8 => v is I8,
        LeafKind::I16 => v is I16,
        LeafKind::I32 => v is I32,
        LeafKind::I64 => v is I64,
    }
}

/// The two's-complement reading of a `w`-byte little-endian value `n`.
pub open spec fn spec_as_signed(n: nat, w: nat) -> int {
    if 2 * n < spec_pow256(w) {
        n as int
    } else {
        n - spec_pow256(w)
    }
}

/// The value a leaf of kind `k` decodes to from its `spec_leaf_size(k)`
/// bytes. A flag is true exactly when its byte is nonzero.
pub open spec fn spec_decode_leaf(k: LeafKind, b: Seq<u8>) -> Value {
    match k {
        LeafKind::Flag => Value::Flag(b[0] != 0),
        LeafKind::U8 => Value::U8(spec_le_nat(b) as u8),
        LeafKind::U16 => Value::U16(spec_le_nat(b) as u16),
        LeafKind::U32 => Value::U32(spec_le_nat(b) as u32),
        LeafKind::U64 => Value::U64(spec_le_nat(b) as u64),
        LeafKind::I8 => Value::I8(spec_as_signed(spec_le_nat(b), 1) as i8),
        LeafKind::I16 => Value::I16(spec_as_signed(spec_le_nat(b), 2) as i16),
        LeafKind::I32 => Value::I32(spec_as_signed(spec_le_nat(b), 4) as i32),
        LeafKind::I64 => Value::I64(spec_as_signed(spec_le_nat(b), 8) as i64),
    }
}

/// Small powers of 256, unfolded once for the width reasoning below.
proof fn lemma_pow256_vals()
    ensures
        spec_pow256(1) == 0x100,
        spec_pow256(2) == 0x1_0000,
        spec_pow256(4) == 0x1_0000_0000,
        spec_pow256(8) == 0x1_0000_0000_0000_0000,
{
    reveal_with_fuel(spec_pow256, 9);
}

/// Read one leaf of kind `k` from the stream, consuming exactly its width.
pub fn read_leaf(k: LeafKind, src: &mut ByteSource) -> (v: Value)
    requires
        old(src).wf(),
        old(src).remaining().len() >= spec_leaf_size(k),
    ensures
        final(src).wf(),
        v == spec_decode_leaf(k, old(src).remaining().subrange(0, spec_leaf_size(k) as int)),
        spec_leaf_conforms(v, k),
        final(src).remaining() == old(src).remaining().subrange(
            spec_leaf_size(k) as int,
            old(src).remaining().len() as int,
        ),
{
    proof {
        lemma_pow256_vals();
    }
    let ghost b = old(src).remaining().subrange(0, spec_leaf_size(k) as int);
    proof {
        lemma_le_nat_bound(b);
    }
    match k {
        LeafKind::Flag => {
            let x = src.read_le(1);
            proof {
                assert(b.subrange(1, 1) =~= Seq::<u8>::empty());
                assert(spec_le_nat(b) == b[0]);
            }
            Value::Flag(x != 0)
        },
        LeafKind::U8 => {
            let x = src.read_le(1);
            Value::U8(x as u8)
        },
        LeafKind::U16 => {
            let x = src.read_le(2);
            Value::U16(x as u16)
        },
        LeafKind::U32 => {
            let x = src.read_le(4);
            Value::U32(x as u32)
        },
        LeafKind::U64 => {
            let x = src.read_le(8);
            Value::U64(x)
        },
        LeafKind::I8 => {
            let x = src.read_le(1);
            let w: i64 = if x < 0x80 {
                x as i64
            } else {
                (x as i64) - 0x100
            };
            Value::I8(w as i8)
        },
        LeafKind::I16 => {
            let x = src.read_le(2);
            let w: i64 = if x < 0x8000 {
                x as i64
            } else {
                (x as i64) - 0x1_0000
            };
            Value::I16(w as i16)
        },
        LeafKind::I32 => {
            let x = src.read_le(4);
            let w: i64 = if x < 0x8000_0000 {
                x as i64
            } else {
                (x as i64) - 0x1_0000_0000
            };
            Value::I32(w as i32)
        },
        LeafKind::I64 => {
            let x = src.read_le(8);
            let w: i64 = if x < 0x8000_0000_0000_0000 {
                x as i64
            } else {
                ((x as i128) - 0x1_0000_0000_0000_0000) as i64
            };
            Value::I64(w)
        },
    }
}

/// The decimal digit character for `d`.
pub open spec fn spec_digit(d: nat) -> char {
    if d == 0 {
        '0'
    } else if d == 1 {
        '1'
    } else if d == 2 {
        '2'
    } else if d == 3 {
        '3'
    } else if d == 4 {
        '4'
    } else if d == 5 {
        '5'
    } else if d == 6 {
        '6'
    } else if d == 7 {
        '7'
    } else if d == 8 {
        '8'
    } else {
        '9'
    }
}

/// The usual decimal rendering of a natural number, without leading zeros
/// (`0` renders as `0`).
pub open spec fn spec_dec(n: nat) -> Seq<char>
    decreases n,
{
    if n < 10 {
        seq![spec_digit(n)]
    } else {
        spec_dec(n / 10).push(spec_digit(n % 10))
    }
}

/// The decimal rendering of an integer: a minus sign and then the digits
/// of its magnitude when negative.
pub open spec fn spec_int_text(v: int) -> Seq<char> {
    if v >= 0 {
        spec_dec(v as nat)
    } else {
        seq!['-'] + spec_dec((-v) as nat)
    }
}

/// The canonical text token for one leaf value. A composite has no token
/// of its own and yields the empty sequence.
pub open spec fn spec_leaf_text(v: Value) -> Seq<char> {
    match v {
        Value::Flag(b) => if b {
            "true"@
        } else {
            "false"@
        },
        Value::U8(x) => spec_dec(x as nat),
        Value::U16(x) => spec_dec(x as nat),
        Value::U32(x) => spec_dec(x as nat),
        Value::U64(x) => spec_dec(x as nat),
        Value::I8(x) => spec_int_text(x as int),
        Value::I16(x) => spec_int_text(x as int),
        Value::I32(x) => spec_int_text(x as int),
        Value::I64(x) => spec_int_text(x as int),
        Value::Composite(_) => Seq::empty(),
    }
}

/// The one-character string for a decimal digit.
fn digit_str(d: u64) -> (s: &'static str)
    requires
        d < 10,
    ensures
        s@ == seq![spec_digit(d as nat)],
{
    proof {
        reveal_strlit("0");
        reveal_strlit("1");
        reveal_strlit("2");
        reveal_strlit("3");
        reveal_strlit("4");
        reveal_strlit("5");
        reveal_strlit("6");
        reveal_strlit("7");
        reveal_strlit("8");
        reveal_strlit("9");
    }
    let s = match d {
        0 => "0",
        1 => "1",
        2 => "2",
        3 => "3",
        4 => "4",
        5 => "5",
        6 => "6",
        7 => "7",
        8 => "8",
        _ => "9",
    };
    proof {
        assert(s@ =~= seq![spec_digit(d as nat)]);
    }
    s
}

/// Render an unsigned value in decimal.
pub fn u64_text(n: u64) -> (s: String)
    ensures
        s@ == spec_dec(n as nat),
    decreases n,
{
    if n < 10 {
        String::from_str(digit_str(n))
    } else {
        let q = u64_text(n / 10);
        let s = q.concat(digit_str(n % 10));
        proof {
            assert(s@ =~= spec_dec((n / 10) as nat).push(spec_digit((n % 10) as nat)));
        }
        s
    }
}

/// Render a signed value in decimal, with a minus sign when negative.
pub fn i64_text(n: i64) -> (s: String)
    ensures
        s@ == spec_int_text(n as int),
{
    if n >= 0 {
        u64_text(n as u64)
    } else {
        let m: u64 = (-(n as i128)) as u64;
        let digits = u64_text(m);
        let mut s = String::from_str("-");
        s.append(digits.as_str());
        proof {
            reveal_strlit("-");
            assert(s@ =~= seq!['-'] + spec_dec(m as nat));
        }
        s
    }
}

impl Value {
    /// The canonical text token of this leaf value.
    pub fn leaf_text(&self) -> (s: String)
        requires
            !(*self is Composite),
        ensures
            s@ == spec_leaf_text(*self),
    {
        match self {
            Value::Flag(b) => {
                if *b {
                    String::from_str("true")
                } else {
                    String::from_str("false")
                }
            },
            Value::U8(x) => u64_text(*x as u64),
            Value::U16(x) => u64_text(*x as u64),
            Value::U32(x) => u64_text(*x as u64),
            Value::U64(x) => u64_text(*x),
            Value::I8(x) => i64_text(*x as i64),
            Value::I16(x) => i64_text(*x as i64),
            Value::I32(x) => i64_text(*x as i64),
            Value::I64(x) => i64_text(*x),
            Value::Composite(_) => String::new(),
        }
    }
}

} // verus!
