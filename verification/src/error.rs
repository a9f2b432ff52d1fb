//! The error taxonomy: five kinds, each carrying a short message drawn
//! from a closed catalogue.

use vstd::prelude::*;

verus! {

/// A classified error.  The payload is always one of the catalogue
/// constants declared below.
#[derive(Debug, Clone, Copy, PartialEq, Eq)]
pub enum Error {
    /// The binary is structurally broken.
    Malformed(&'static str),
    /// The binary is well formed but ill typed.
    Validation(&'static str),
    /// A runtime fault.
    Trap(&'static str),
    /// Linking against the supplied imports failed.
    Link(&'static str),
    /// The start function trapped.
    Uninstantiable(&'static str),
}

impl Error {
    /// The short catalogue message, whatever the kind.
    pub open spec fn spec_message(self) -> &'static str {
        match self {
            Error::Malformed(s) => s,
            Error::Validation(s) => s,
            Error::Trap(s) => s,
            Error::Link(s) => s,
            Error::Uninstantiable(s) => s,
        }
    }

    /// The short catalogue message, whatever the kind.
    pub fn message(&self) -> (s: &'static str)
        ensures
            s == self.spec_message(),
    {
        match self {
            Error::Malformed(s) => s,
            Error::Validation(s) => s,
            Error::Trap(s) => s,
            Error::Link(s) => s,
            Error::Uninstantiable(s) => s,
        }
    }

    /// Reclassifies a trap as an instantiation failure and leaves every
    /// other error as it is.
    pub open spec fn spec_trap_to_uninstantiable(self) -> Error {
        match self {
            Error::Trap(s) => Error::Uninstantiable(s),
            e => e,
        }
    }

    /// Reclassifies a trap as an instantiation failure and leaves every
    /// other error as it is.
    pub fn trap_to_uninstantiable(self) -> (e: Error)
        ensures
            e == self.spec_trap_to_uninstantiable(),
    {
        match self {
            Error::Trap(s) => Error::Uninstantiable(s),
            e => e,
        }
    }
}

// Malformed
pub const END_EXPECTED: &'static str = "END opcode expected";
pub const FUNC_CODE_INCONSISTENT: &'static str = "function and code section have inconsistent lengths";
pub const ILLEGAL_OP: &'static str = "illegal opcode";
pub const INT_TOO_LARGE: &'static str = "integer too large";
pub const INT_TOO_LONG: &'static str = "integer representation too long";
pub const INVALID_GLOBAL_TYPE: &'static str = "invalid global type";
pub const INVALID_MUTABILITY: &'static str = "invalid mutability";
pub const INVALID_SECTION_ID: &'static str = "invalid section id";
pub const INVALID_UTF8: &'static str = "invalid UTF-8 encoding";
pub const INVALID_VALUE_TYPE: &'static str = "invalid value type";
pub const JUNK_AFTER_LAST: &'static str = "junk after last section";
pub const LENGTH_OUT_OF_BOUNDS: &'static str = "length out of bounds";
pub const NO_MAGIC_HEADER: &'static str = "magic header not detected";
pub const MALFORMED_IMPORT_KIND: &'static str = "malformed import kind";
pub const MALFORMED_REF_TYPE: &'static str = "malformed reference type";
pub const SECTION_SIZE_MISMATCH: &'static str = "section size mismatch";
pub const TOO_MANY_LOCALS: &'static str = "too many locals";
pub const UNEXPECTED_END: &'static str = "unexpected end of section or function";
pub const UNEXPECTED_END_SHORT: &'static str = "unexpected end";
pub const UNKNOWN_BINARY_VERSION: &'static str = "unknown binary version";
pub const UNKNOWN_INSTRUCTION: &'static str = "unknown instruction";
pub const ZERO_FLAG_EXPECTED: &'static str = "zero flag expected";
// Validation
pub const ALIGNMENT_TOO_LARGE: &'static str = "alignment must not be larger than natural";
pub const CONST_EXP_REQUIRED: &'static str = "constant expression required";
pub const DUP_EXPORT_NAME: &'static str = "duplicate export name";
pub const ELSE_MUST_CLOSE_IF: &'static str = "else must close an if";
pub const GLOBAL_IS_IMMUTABLE: &'static str = "global is immutable";
pub const INVALID_DATA_SEG_FLAG: &'static str = "invalid data segment flag";
pub const INVALID_ELEM_TYPE: &'static str = "invalid table element type";
pub const INVALID_EXPORT_DESC: &'static str = "invalid export description";
pub const INVALID_LOCAL_TYPE: &'static str = "invalid local type";
pub const INVALID_RESULT_ARITY: &'static str = "invalid result arity";
pub const INVALID_RESULT_TYPE: &'static str = "invalid result type";
pub const MEMORY_SIZE_LIMIT: &'static str = "memory size must be at most 65536 pages (4GiB)";
pub const MIN_GREATER_THAN_MAX: &'static str = "size minimum must not be greater than maximum";
pub const MULTIPLE_MEMORIES: &'static str = "multiple memories";
pub const MULTIPLE_TABLES: &'static str = "multiple tables";
pub const START_FUNC: &'static str = "start function";
pub const TYPE_MISMATCH: &'static str = "type mismatch";
pub const UNKNOWN_FUNC: &'static str = "unknown function";
pub const UNKNOWN_GLOBAL: &'static str = "unknown global";
pub const UNKNOWN_LABEL: &'static str = "unknown label";
pub const UNKNOWN_LOCAL: &'static str = "unknown local";
pub const UNKNOWN_MEMORY: &'static str = "unknown memory";
pub const UNKNOWN_TABLE: &'static str = "unknown table";
pub const UNKNOWN_TYPE: &'static str = "unknown type";
// Trap
pub const DIVIDE_BY_ZERO: &'static str = "integer divide by zero";
pub const FUNC_NO_IMPL: &'static str = "function has no implementation";
pub const INDIRECT_CALL_MISMATCH: &'static str = "indirect call type mismatch";
pub const INTEGER_OVERFLOW: &'static str = "integer overflow";
pub const INVALID_CONV_TO_INT: &'static str = "invalid conversion to integer";
pub const INVALID_NUM_ARG: &'static str = "invalid number of arguments";
pub const OOB_MEMORY_ACCESS: &'static str = "out of bounds memory access";
pub const OOB_TABLE_ACCESS: &'static str = "out of bounds table access";
pub const STACK_EXHAUSTED: &'static str = "call stack exhausted";
pub const STACK_UNDERFLOW: &'static str = "stack underflow";
pub const UNDEF_ELEM: &'static str = "undefined element";
pub const UNINITIALIZED_ELEM: &'static str = "uninitialized element";
pub const UNREACHABLE: &'static str = "unreachable";
// Link
pub const DATA_SEG_DNF: &'static str = "data segment does not fit";
pub const ELEM_SEG_DNF: &'static str = "elements segment does not fit";
pub const INCOMPATIBLE_IMPORT: &'static str = "incompatible import type";
pub const UNKNOWN_IMPORT: &'static str = "unknown import";

} // verus!
