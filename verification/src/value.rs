//! The runtime value: a 64-bit payload that each instruction reads as the
//! integer or float bit pattern it expects.

use vstd::prelude::*;

verus! {

/// The signed 32-bit integer with the bit pattern of `v`.
pub open spec fn signed32(v: u32) -> int {
    if v >= 0x8000_0000 {
        v - 0x1_0000_0000
    } else {
        v as int
    }
}

/// The signed 64-bit integer with the bit pattern of `v`.
pub open spec fn signed64(v: u64) -> int {
    if v >= 0x8000_0000_0000_0000 {
        v - 0x1_0000_0000_0000_0000
    } else {
        v as int
    }
}

/// The unsigned 32-bit integer with the bit pattern of `v`.
pub open spec fn unsigned32(v: int) -> int {
    if v < 0 {
        v + 0x1_0000_0000
    } else {
        v
    }
}

/// The unsigned 64-bit integer with the bit pattern of `v`.
pub open spec fn unsigned64(v: int) -> int {
    if v < 0 {
        v + 0x1_0000_0000_0000_0000
    } else {
        v
    }
}

/// Reinterprets the bits of `v` as signed.
pub fn u32_to_i32(v: u32) -> (r: i32)
    ensures
        r == signed32(v),
{
    assert(v as i32 == (if v >= 0x8000_0000u32 { v - 0x1_0000_0000 } else { v as int }))
        by (bit_vector);
    v as i32
}

/// Reinterprets the bits of `v` as unsigned.
pub fn i32_to_u32(v: i32) -> (r: u32)
    ensures
        r == unsigned32(v as int),
{
    assert(v as u32 == (if v < 0i32 { v + 0x1_0000_0000 } else { v as int })) by (bit_vector);
    v as u32
}

/// Reinterprets the bits of `v` as signed.
pub fn u64_to_i64(v: u64) -> (r: i64)
    ensures
        r == signed64(v),
{
    assert(v as i64 == (if v >= 0x8000_0000_0000_0000u64 {
        v - 0x1_0000_0000_0000_0000
    } else {
        v as int
    })) by (bit_vector);
    v as i64
}

/// Reinterprets the bits of `v` as unsigned.
pub fn i64_to_u64(v: i64) -> (r: u64)
    ensures
        r == unsigned64(v as int),
{
    assert(v as u64 == (if v < 0i64 { v + 0x1_0000_0000_0000_0000 } else { v as int }))
        by (bit_vector);
    v as u64
}

/// A runtime value.  Integers of 32 bits and `f32` bit patterns live in
/// the low half with the high half zero when they are written by this
/// library; readers look at the low half only.
#[derive(Copy, Clone, Default, Debug, PartialEq, Eq, Structural)]
pub struct WasmValue(pub u64);

impl WasmValue {
    pub fn from_i32(v: i32) -> (r: Self)
        ensures
            r.0 == unsigned32(v as int),
    {
        Self(i32_to_u32(v) as u64)
    }

    pub open spec fn spec_as_i32(self) -> int {
        signed32((self.0 % 0x1_0000_0000) as u32)
    }

    pub fn as_i32(self) -> (r: i32)
        ensures
            r == self.spec_as_i32(),
    {
        u32_to_i32((self.0 % 0x1_0000_0000) as u32)
    }

    pub fn from_u32(v: u32) -> (r: Self)
        ensures
            r.0 == v,
    {
        Self(v as u64)
    }

    pub open spec fn spec_as_u32(self) -> u32 {
        (self.0 % 0x1_0000_0000) as u32
    }

    #[verifier::when_used_as_spec(spec_as_u32)]
    pub fn as_u32(self) -> (r: u32)
        ensures
            r == self.spec_as_u32(),
    {
        (self.0 % 0x1_0000_0000) as u32
    }

    pub fn from_i64(v: i64) -> (r: Self)
        ensures
            r.0 == unsigned64(v as int),
    {
        Self(i64_to_u64(v))
    }

    pub open spec fn spec_as_i64(self) -> int {
        signed64(self.0)
    }

    pub fn as_i64(self) -> (r: i64)
        ensures
            r == self.spec_as_i64(),
    {
        u64_to_i64(self.0)
    }

    pub fn from_u64(v: u64) -> (r: Self)
        ensures
            r.0 == v,
    {
        Self(v)
    }

    pub open spec fn spec_as_u64(self) -> u64 {
        self.0
    }

    #[verifier::when_used_as_spec(spec_as_u64)]
    pub fn as_u64(self) -> (r: u64)
        ensures
            r == self.0,
    {
        self.0
    }

    /// The value that carries the bit pattern of a 32-bit float.
    pub fn from_f32_bits(bits: u32) -> (r: Self)
        ensures
            r.0 == bits,
    {
        Self(bits as u64)
    }

    /// The bit pattern of the 32-bit float that the value carries.
    pub fn as_f32_bits(self) -> (r: u32)
        ensures
            r == self.spec_as_u32(),
    {
        (self.0 % 0x1_0000_0000) as u32
    }

    /// The value that carries the bit pattern of a 64-bit float.
    pub fn from_f64_bits(bits: u64) -> (r: Self)
        ensures
            r.0 == bits,
    {
        Self(bits)
    }

    /// The bit pattern of the 64-bit float that the value carries.
    pub fn as_f64_bits(self) -> (r: u64)
        ensures
            r == self.0,
    {
        self.0
    }
}

/// Every bit pattern survives the way into a value and back, at both
/// widths and under both readings, so a reinterpretation between an
/// integer and the float of the same width loses nothing.
pub proof fn lemma_value_round_trip(a: u32, b: u64, c: i32, d: i64)
    ensures
        WasmValue(a as u64).spec_as_u32() == a,
        WasmValue(b).spec_as_u64() == b,
        WasmValue(unsigned32(c as int) as u64).spec_as_i32() == c,
        WasmValue(unsigned64(d as int) as u64).spec_as_i64() == d,
        unsigned32(signed32(a)) == a,
        unsigned64(signed64(b)) == b,
        signed32(unsigned32(c as int) as u32) == c,
        signed64(unsigned64(d as int) as u64) == d,
{
}

} // verus!
