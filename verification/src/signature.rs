//! Value types, function signatures, and the packed runtime signature.

use vstd::prelude::*;
use crate::error::{Error, UNEXPECTED_END, INVALID_VALUE_TYPE};
use crate::leb128::{safe_read_sleb128, signed_spec};

verus! {

/// A value type.  `Any` belongs to the validator alone: it stands for a
/// value of unknown type on a polymorphic stack.
#[derive(Debug, Copy, Clone, PartialEq, Eq, Hash, Structural)]
pub enum ValType {
    I32,
    I64,
    F32,
    F64,
    Any,
}

impl ValType {
    /// The byte that encodes the type in the binary format.
    pub open spec fn spec_to_byte(self) -> u8 {
        match self {
            ValType::I32 => 0x7f,
            ValType::I64 => 0x7e,
            ValType::F32 => 0x7d,
            ValType::F64 => 0x7c,
            ValType::Any => 0xff,
        }
    }

    /// The byte that encodes the type in the binary format.
    pub fn to_byte(self) -> (b: u8)
        ensures
            b == self.spec_to_byte(),
    {
        match self {
            ValType::I32 => 0x7f,
            ValType::I64 => 0x7e,
            ValType::F32 => 0x7d,
            ValType::F64 => 0x7c,
            ValType::Any => 0xff,
        }
    }
}

/// Whether `byte` encodes one of the four numeric value types.
pub open spec fn spec_is_val_type(byte: u8) -> bool {
    0x7c <= byte <= 0x7f
}

/// Whether `byte` encodes one of the four numeric value types.
#[verifier::when_used_as_spec(spec_is_val_type)]
pub fn is_val_type(byte: u8) -> (r: bool)
    ensures
        r == spec_is_val_type(byte),
{
    0x7c <= byte && byte <= 0x7f
}

/// The type that `byte` encodes, if any.
pub open spec fn spec_val_type_from_byte(byte: u8) -> Option<ValType> {
    if byte == 0x7f {
        Some(ValType::I32)
    } else if byte == 0x7e {
        Some(ValType::I64)
    } else if byte == 0x7d {
        Some(ValType::F32)
    } else if byte == 0x7c {
        Some(ValType::F64)
    } else if byte == 0xff {
        Some(ValType::Any)
    } else {
        None
    }
}

/// The type that `byte` encodes, if any.
#[verifier::when_used_as_spec(spec_val_type_from_byte)]
pub fn val_type_from_byte(byte: u8) -> (r: Option<ValType>)
    ensures
        r == spec_val_type_from_byte(byte),
{
    if byte == 0x7f {
        Some(ValType::I32)
    } else if byte == 0x7e {
        Some(ValType::I64)
    } else if byte == 0x7d {
        Some(ValType::F32)
    } else if byte == 0x7c {
        Some(ValType::F64)
    } else if byte == 0xff {
        Some(ValType::Any)
    } else {
        None
    }
}

/// Encoding and decoding of a type are inverse to each other.
pub proof fn lemma_val_type_byte_round_trip(t: ValType, byte: u8)
    ensures
        spec_val_type_from_byte(t.spec_to_byte()) == Some(t),
        spec_val_type_from_byte(byte) matches Some(u) ==> u.spec_to_byte() == byte,
        spec_is_val_type(byte) <==> (spec_val_type_from_byte(byte) matches Some(u) && u
            != ValType::Any),
{
}

/// The mutability that `byte` encodes, if any.
pub open spec fn spec_mutability_from_byte(byte: u8) -> Option<bool> {
    if byte == 0 {
        Some(false)
    } else if byte == 1 {
        Some(true)
    } else {
        None
    }
}

/// The mutability that `byte` encodes, if any.
#[verifier::when_used_as_spec(spec_mutability_from_byte)]
pub fn mutability_from_byte(byte: u8) -> (r: Option<bool>)
    ensures
        r == spec_mutability_from_byte(byte),
{
    if byte == 0 {
        Some(false)
    } else if byte == 1 {
        Some(true)
    } else {
        None
    }
}

/// A function signature: parameter types and at most one result.
#[derive(Debug, Default, Clone, PartialEq, Eq)]
pub struct Signature {
    pub params: Vec<ValType>,
    pub result: Option<ValType>,
}

/// The mathematical content of a [`Signature`].
pub struct SignatureView {
    pub params: Seq<ValType>,
    pub result: Option<ValType>,
}

impl View for Signature {
    type V = SignatureView;

    open spec fn view(&self) -> SignatureView {
        SignatureView { params: self.params@, result: self.result }
    }
}

impl SignatureView {
    /// The signature `() -> ()`.
    pub open spec fn empty() -> SignatureView {
        SignatureView { params: Seq::empty(), result: None }
    }

    /// The signature `() -> t`.
    pub open spec fn single(t: ValType) -> SignatureView {
        SignatureView { params: Seq::empty(), result: Some(t) }
    }

    /// The result as a sequence of zero or one types.
    pub open spec fn results(self) -> Seq<ValType> {
        match self.result {
            Some(t) => seq![t],
            None => Seq::empty(),
        }
    }
}

/// The views of a sequence of signatures.
pub open spec fn signature_views(sigs: Seq<Signature>) -> Seq<SignatureView> {
    Seq::new(sigs.len(), |i: int| sigs[i]@)
}

/// What reading a block type at `pos` returns: the signature and the
/// position after it, or the error.
pub open spec fn block_type_spec(types: Seq<SignatureView>, bytes: Seq<u8>, pos: int) -> Result<
    (SignatureView, int),
    Error,
> {
    if pos < 0 || pos >= bytes.len() {
        Err(Error::Malformed(UNEXPECTED_END))
    } else if bytes[pos] == 0x40 {
        Ok((SignatureView::empty(), pos + 1))
    } else if spec_is_val_type(bytes[pos]) {
        Ok((SignatureView::single(spec_val_type_from_byte(bytes[pos]).unwrap()), pos + 1))
    } else {
        match signed_spec(bytes, pos, 33) {
            Err(e) => Err(e),
            Ok((n, p)) => if n < 0 || n >= types.len() {
                Err(Error::Malformed(INVALID_VALUE_TYPE))
            } else {
                Ok((types[n], p))
            },
        }
    }
}

impl Signature {
    /// The signature `() -> ()`.
    pub fn empty() -> (s: Signature)
        ensures
            s@ == SignatureView::empty(),
    {
        Signature { params: Vec::new(), result: None }
    }

    /// A copy of the signature.
    pub fn duplicate(&self) -> (s: Signature)
        ensures
            s@ == self@,
    {
        let mut params: Vec<ValType> = Vec::new();
        let mut i: usize = 0;
        while i < self.params.len()
            invariant
                i <= self.params@.len(),
                params@ == self.params@.subrange(0, i as int),
            decreases self.params@.len() - i,
        {
            params.push(self.params[i]);
            i = i + 1;
            assert(params@ =~= self.params@.subrange(0, i as int));
        }
        assert(params@ =~= self.params@);
        Signature { params, result: self.result }
    }

    /// The result as a list of zero or one types.
    pub fn results_view(&self) -> (r: Vec<ValType>)
        ensures
            r@ == self@.results(),
    {
        let mut r: Vec<ValType> = Vec::new();
        match self.result {
            Some(t) => {
                r.push(t);
                assert(r@ =~= seq![t]);
            },
            None => {},
        }
        r
    }

    /// Reads a block type at `*idx`: the byte `0x40` for `() -> ()`, the
    /// byte of a numeric value type `t` for `() -> t`, or the index of a
    /// signature in `types` as a signed 33-bit integer.
    pub fn read(types: &Vec<Signature>, bytes: &[u8], idx: &mut usize) -> (r: Result<
        Signature,
        Error,
    >)
        ensures
            match block_type_spec(signature_views(types@), bytes@, *old(idx) as int) {
                Ok((s, p)) => r matches Ok(sig) && sig@ == s && *final(idx) == p,
                Err(e) => r == Err::<Signature, Error>(e) && *final(idx) == *old(idx),
            },
    {
        let start: usize = *idx;
        if start >= bytes.len() {
            return Err(Error::Malformed(UNEXPECTED_END));
        }
        let byte: u8 = bytes[start];
        if byte == 0x40 {
            *idx = *idx + 1;
            Ok(Signature::empty())
        } else if is_val_type(byte) {
            *idx = *idx + 1;
            match val_type_from_byte(byte) {
                Some(vt) => Ok(Signature { params: Vec::new(), result: Some(vt) }),
                None => Err(Error::Malformed(INVALID_VALUE_TYPE)),
            }
        } else {
            match safe_read_sleb128(bytes, idx, 33) {
                Err(e) => Err(e),
                Ok(n) => {
                    if n < 0 || n as u64 >= types.len() as u64 {
                        *idx = start;
                        return Err(Error::Malformed(INVALID_VALUE_TYPE));
                    }
                    Ok(types[n as usize].duplicate())
                },
            }
        }
    }

    /// Reads a block type at `*idx`; see [`Signature::read`].
    pub fn read_blocktype(types: &Vec<Signature>, bytes: &[u8], idx: &mut usize) -> (r: Result<
        Signature,
        Error,
    >)
        ensures
            match block_type_spec(signature_views(types@), bytes@, *old(idx) as int) {
                Ok((s, p)) => r matches Ok(sig) && sig@ == s && *final(idx) == p,
                Err(e) => r == Err::<Signature, Error>(e) && *final(idx) == *old(idx),
            },
    {
        Signature::read(types, bytes, idx)
    }
}

} // verus!

verus! {

/// A signature packed into one word, for comparison in one step.
///
/// The word holds the parameter count modulo `65536` in its low sixteen
/// bits, then one flag each for: a result is present; the type `i32`,
/// `i64`, `f32`, `f64` occurs among the parameters or as the result.  The
/// top bit marks a packed block signature as present.
#[derive(Debug, Copy, Clone, Eq, PartialEq, Default, Structural)]
pub struct RuntimeSignature(pub u32);

/// Whether `t` occurs among the parameters or as the result.
pub open spec fn has_type(sig: SignatureView, t: ValType) -> bool {
    sig.params.contains(t) || sig.result == Some(t)
}

/// The word that packs the given count and flags.
pub open spec fn pack(
    n_params: nat,
    has_result: bool,
    has_i32: bool,
    has_i64: bool,
    has_f32: bool,
    has_f64: bool,
) -> u32 {
    ((n_params % 0x1_0000) + (if has_result { 0x1_0000int } else { 0 }) + (if has_i32 {
        0x2_0000int
    } else {
        0
    }) + (if has_i64 { 0x4_0000int } else { 0 }) + (if has_f32 { 0x8_0000int } else { 0 }) + (if has_f64 {
        0x10_0000int
    } else {
        0
    })) as u32
}

impl RuntimeSignature {
    /// The parameter count modulo `65536`.
    pub open spec fn spec_n_params(&self) -> u32 {
        self.0 % 0x1_0000
    }

    /// Whether a result is present.
    pub open spec fn spec_has_result(&self) -> bool {
        (self.0 / 0x1_0000) % 2 == 1
    }

    pub open spec fn spec_has_i32(&self) -> bool {
        (self.0 / 0x2_0000) % 2 == 1
    }

    pub open spec fn spec_has_i64(&self) -> bool {
        (self.0 / 0x4_0000) % 2 == 1
    }

    pub open spec fn spec_has_f32(&self) -> bool {
        (self.0 / 0x8_0000) % 2 == 1
    }

    pub open spec fn spec_has_f64(&self) -> bool {
        (self.0 / 0x10_0000) % 2 == 1
    }

    /// Whether the presence mark is set.
    pub open spec fn spec_is_present(&self) -> bool {
        self.0 >= 0x8000_0000
    }

    /// The packed form of a signature.
    pub open spec fn spec_from_signature(sig: SignatureView) -> RuntimeSignature {
        RuntimeSignature(
            pack(
                sig.params.len(),
                sig.result is Some,
                has_type(sig, ValType::I32),
                has_type(sig, ValType::I64),
                has_type(sig, ValType::F32),
                has_type(sig, ValType::F64),
            ),
        )
    }

    /// The packed form of a count and a result flag, with no type flags.
    pub open spec fn spec_from_counts(n_params: u32, has_result: bool) -> RuntimeSignature {
        RuntimeSignature(pack(n_params as nat, has_result, false, false, false, false))
    }

    /// The same word with the presence mark set.
    pub open spec fn spec_with_presence(self) -> RuntimeSignature {
        if self.0 >= 0x8000_0000 {
            self
        } else {
            RuntimeSignature((self.0 + 0x8000_0000) as u32)
        }
    }

    #[verifier::when_used_as_spec(spec_n_params)]
    pub fn n_params(&self) -> (r: u32)
        ensures
            r == self.spec_n_params(),
    {
        self.0 % 0x1_0000
    }

    #[verifier::when_used_as_spec(spec_has_result)]
    pub fn has_result(&self) -> (r: bool)
        ensures
            r == self.spec_has_result(),
    {
        (self.0 / 0x1_0000) % 2 == 1
    }

    #[verifier::when_used_as_spec(spec_has_i32)]
    pub fn has_i32(&self) -> (r: bool)
        ensures
            r == self.spec_has_i32(),
    {
        (self.0 / 0x2_0000) % 2 == 1
    }

    #[verifier::when_used_as_spec(spec_has_i64)]
    pub fn has_i64(&self) -> (r: bool)
        ensures
            r == self.spec_has_i64(),
    {
        (self.0 / 0x4_0000) % 2 == 1
    }

    #[verifier::when_used_as_spec(spec_has_f32)]
    pub fn has_f32(&self) -> (r: bool)
        ensures
            r == self.spec_has_f32(),
    {
        (self.0 / 0x8_0000) % 2 == 1
    }

    #[verifier::when_used_as_spec(spec_has_f64)]
    pub fn has_f64(&self) -> (r: bool)
        ensures
            r == self.spec_has_f64(),
    {
        (self.0 / 0x10_0000) % 2 == 1
    }

    /// Packs a signature.
    pub fn from_signature(sig: &Signature) -> (r: RuntimeSignature)
        ensures
            r == Self::spec_from_signature(sig@),
    {
        let mut i32_seen: bool = false;
        let mut i64_seen: bool = false;
        let mut f32_seen: bool = false;
        let mut f64_seen: bool = false;
        let mut i: usize = 0;
        while i < sig.params.len()
            invariant
                i <= sig.params@.len(),
                i32_seen == sig.params@.subrange(0, i as int).contains(ValType::I32),
                i64_seen == sig.params@.subrange(0, i as int).contains(ValType::I64),
                f32_seen == sig.params@.subrange(0, i as int).contains(ValType::F32),
                f64_seen == sig.params@.subrange(0, i as int).contains(ValType::F64),
            decreases sig.params@.len() - i,
        {
            let t: ValType = sig.params[i];
            proof {
                lemma_contains_step(sig.params@, i as int, ValType::I32);
                lemma_contains_step(sig.params@, i as int, ValType::I64);
                lemma_contains_step(sig.params@, i as int, ValType::F32);
                lemma_contains_step(sig.params@, i as int, ValType::F64);
            }
            match t {
                ValType::I32 => {
                    i32_seen = true;
                },
                ValType::I64 => {
                    i64_seen = true;
                },
                ValType::F32 => {
                    f32_seen = true;
                },
                ValType::F64 => {
                    f64_seen = true;
                },
                ValType::Any => {},
            }
            i = i + 1;
        }
        assert(sig.params@.subrange(0, i as int) =~= sig.params@);
        match sig.result {
            Some(ValType::I32) => {
                i32_seen = true;
            },
            Some(ValType::I64) => {
                i64_seen = true;
            },
            Some(ValType::F32) => {
                f32_seen = true;
            },
            Some(ValType::F64) => {
                f64_seen = true;
            },
            _ => {},
        }
        let mut bits: u32 = (sig.params.len() % 0x1_0000) as u32;
        if sig.result.is_some() {
            bits = bits + 0x1_0000;
        }
        if i32_seen {
            bits = bits + 0x2_0000;
        }
        if i64_seen {
            bits = bits + 0x4_0000;
        }
        if f32_seen {
            bits = bits + 0x8_0000;
        }
        if f64_seen {
            bits = bits + 0x10_0000;
        }
        RuntimeSignature(bits)
    }

    /// Packs a count and a result flag, with no type flags.
    pub fn from_counts(n_params: u32, has_result: bool) -> (r: RuntimeSignature)
        ensures
            r == Self::spec_from_counts(n_params, has_result),
    {
        let mut bits: u32 = n_params % 0x1_0000;
        if has_result {
            bits = bits + 0x1_0000;
        }
        RuntimeSignature(bits)
    }

    /// Packs a count and a result flag and sets the presence mark.
    pub fn control_from_counts(n_params: u32, has_result: bool) -> (r: RuntimeSignature)
        ensures
            r == Self::spec_from_counts(n_params, has_result).spec_with_presence(),
    {
        let base = Self::from_counts(n_params, has_result);
        base.with_presence()
    }

    /// The same word with the presence mark set.
    pub fn with_presence(self) -> (r: RuntimeSignature)
        ensures
            r == self.spec_with_presence(),
    {
        if self.0 >= 0x8000_0000 {
            self
        } else {
            RuntimeSignature(self.0 + 0x8000_0000)
        }
    }

    /// Whether the presence mark is set.
    #[verifier::when_used_as_spec(spec_is_present)]
    pub fn is_present(&self) -> (r: bool)
        ensures
            r == self.spec_is_present(),
    {
        self.0 >= 0x8000_0000
    }
}

/// Whether a prefix contains `t`, one element further.
pub proof fn lemma_contains_step(s: Seq<ValType>, i: int, t: ValType)
    requires
        0 <= i < s.len(),
    ensures
        s.subrange(0, i + 1).contains(t) == (s.subrange(0, i).contains(t) || s[i] == t),
{
    let a = s.subrange(0, i);
    let b = s.subrange(0, i + 1);
    if a.contains(t) {
        let k = choose|k: int| 0 <= k < a.len() && a[k] == t;
        assert(b[k] == t);
    }
    if s[i] == t {
        assert(b[i] == t);
    }
    if b.contains(t) {
        let k = choose|k: int| 0 <= k < b.len() && b[k] == t;
        if k < i {
            assert(a[k] == t);
        }
    }
}

/// The packed word gives back what was packed.
pub proof fn lemma_pack_fields(
    n_params: nat,
    has_result: bool,
    has_i32: bool,
    has_i64: bool,
    has_f32: bool,
    has_f64: bool,
)
    ensures
        ({
            let r = RuntimeSignature(pack(n_params, has_result, has_i32, has_i64, has_f32, has_f64));
            &&& r.spec_n_params() == n_params % 0x1_0000
            &&& r.spec_has_result() == has_result
            &&& r.spec_has_i32() == has_i32
            &&& r.spec_has_i64() == has_i64
            &&& r.spec_has_f32() == has_f32
            &&& r.spec_has_f64() == has_f64
            &&& !r.spec_is_present()
        }),
{
}

/// Two packed signatures are equal exactly when the parameter counts
/// (modulo `65536`), the presence of a result, and the four type flags
/// agree.
pub proof fn lemma_runtime_signature_eq(a: SignatureView, b: SignatureView)
    ensures
        (RuntimeSignature::spec_from_signature(a) == RuntimeSignature::spec_from_signature(b)) <==> {
            &&& a.params.len() % 0x1_0000 == b.params.len() % 0x1_0000
            &&& (a.result is Some) == (b.result is Some)
            &&& has_type(a, ValType::I32) == has_type(b, ValType::I32)
            &&& has_type(a, ValType::I64) == has_type(b, ValType::I64)
            &&& has_type(a, ValType::F32) == has_type(b, ValType::F32)
            &&& has_type(a, ValType::F64) == has_type(b, ValType::F64)
        },
{
    lemma_pack_fields(
        a.params.len(),
        a.result is Some,
        has_type(a, ValType::I32),
        has_type(a, ValType::I64),
        has_type(a, ValType::F32),
        has_type(a, ValType::F64),
    );
    lemma_pack_fields(
        b.params.len(),
        b.result is Some,
        has_type(b, ValType::I32),
        has_type(b, ValType::I64),
        has_type(b, ValType::F32),
        has_type(b, ValType::F64),
    );
}

/// The presence mark leaves the count and the flags as they are.
pub proof fn lemma_with_presence(r: RuntimeSignature)
    ensures
        r.spec_with_presence().spec_is_present(),
        r.spec_with_presence().spec_n_params() == r.spec_n_params(),
        r.spec_with_presence().spec_has_result() == r.spec_has_result(),
{
}

} // verus!
