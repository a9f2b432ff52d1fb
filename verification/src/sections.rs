//! The readers of the type, import, function, table, memory, export and
//! start sections.
//!
//! Each reader has a spec function from the bytes, a position and the
//! module read so far to the module and the position after the section,
//! or the error.

use vstd::prelude::*;
use crate::byte_iter::ByteIter;
use crate::error::{
    Error,
    UNEXPECTED_END,
    INT_TOO_LONG,
    INVALID_VALUE_TYPE,
    INVALID_RESULT_ARITY,
    INVALID_RESULT_TYPE,
    INVALID_GLOBAL_TYPE,
    INVALID_MUTABILITY,
    INVALID_ELEM_TYPE,
    INVALID_EXPORT_DESC,
    MALFORMED_IMPORT_KIND,
    MALFORMED_REF_TYPE,
    MEMORY_SIZE_LIMIT,
    MIN_GREATER_THAN_MAX,
    MULTIPLE_MEMORIES,
    MULTIPLE_TABLES,
    DUP_EXPORT_NAME,
    UNKNOWN_TYPE,
    UNKNOWN_FUNC,
    UNKNOWN_TABLE,
    UNKNOWN_MEMORY,
    UNKNOWN_GLOBAL,
    START_FUNC,
};
use crate::leb128::{safe_read_leb128, unsigned_spec, lemma_group_len_positive};
use crate::module::{
    Module,
    ModuleView,
    ImportRef,
    ImportRefView,
    ImportEntry,
    ImportEntryView,
    ExternType,
    Function,
    FunctionView,
    Table,
    Memory,
    LimitsView,
    Global,
    GlobalView,
    Export,
    ExportEntry,
    ExportEntryView,
    MAX_PAGES,
    read_u32,
    read_name,
    u32_spec,
    u8_spec,
    name_spec,
    cursor_ok,
    lemma2_to64_32,
};
use crate::signature::{
    Signature,
    SignatureView,
    ValType,
    is_val_type,
    val_type_from_byte,
    mutability_from_byte,
};

verus! {

/// The outcome of a section reader: the module and the position after,
/// or the error.
pub type Parsed = Result<(ModuleView, int), Error>;

/// Whether the outcome `r` of an exec reader, the module and the cursor
/// after it are what `spec` says.
pub open spec fn parsed(spec: Parsed, r: Result<(), Error>, m: ModuleView, idx: usize) -> bool {
    match spec {
        Ok((mv, p)) => r is Ok && m == mv && idx == p,
        Err(e) => r == Err::<(), Error>(e),
    }
}

/// `n` value types from `pos`, behind the types `acc`.
pub open spec fn val_types_spec(bytes: Seq<u8>, pos: int, n: nat, acc: Seq<ValType>) -> Result<
    (Seq<ValType>, int),
    Error,
>
    decreases n,
{
    if n == 0 {
        Ok((acc, pos))
    } else {
        match u8_spec(bytes, pos) {
            Err(e) => Err(e),
            Ok((b, p)) => if !is_val_type(b) {
                Err(Error::Malformed(INVALID_VALUE_TYPE))
            } else {
                val_types_spec(bytes, p, (n - 1) as nat, acc.push(val_type_from_byte(b).unwrap()))
            },
        }
    }
}

/// One entry of the type section: the byte `0x60`, the parameter types,
/// and at most one result type.
pub open spec fn type_entry_spec(bytes: Seq<u8>, pos: int) -> Result<(SignatureView, int), Error> {
    match u8_spec(bytes, pos) {
        Err(e) => Err(e),
        Ok((tag, p)) => if tag != 0x60 {
            Err(Error::Malformed(INT_TOO_LONG))
        } else {
            match u32_spec(bytes, p) {
                Err(e) => Err(e),
                Ok((n_params, p2)) => match val_types_spec(bytes, p2, n_params as nat, Seq::empty()) {
                    Err(e) => Err(e),
                    Ok((params, p3)) => match u32_spec(bytes, p3) {
                        Err(e) => Err(e),
                        Ok((n_results, p4)) => if n_results > 1 {
                            Err(Error::Validation(INVALID_RESULT_ARITY))
                        } else if n_results == 1 {
                            match u8_spec(bytes, p4) {
                                Err(e) => Err(e),
                                Ok((b, p5)) => if !is_val_type(b) {
                                    Err(Error::Malformed(INVALID_RESULT_TYPE))
                                } else {
                                    Ok((SignatureView { params, result: val_type_from_byte(b) }, p5))
                                },
                            }
                        } else {
                            Ok((SignatureView { params, result: None }, p4))
                        },
                    },
                },
            }
        },
    }
}

/// `n` entries of the type section from `pos`, behind the types `acc`.
pub open spec fn types_spec(bytes: Seq<u8>, pos: int, n: nat, acc: Seq<SignatureView>) -> Result<
    (Seq<SignatureView>, int),
    Error,
>
    decreases n,
{
    if n == 0 {
        Ok((acc, pos))
    } else {
        match type_entry_spec(bytes, pos) {
            Err(e) => Err(e),
            Ok((sig, p)) => types_spec(bytes, p, (n - 1) as nat, acc.push(sig)),
        }
    }
}

/// The type section: a count and that many entries.
pub open spec fn type_section_spec(bytes: Seq<u8>, pos: int, m: ModuleView) -> Parsed {
    match u32_spec(bytes, pos) {
        Err(e) => Err(e),
        Ok((n, p)) => match types_spec(bytes, p, n as nat, m.types) {
            Err(e) => Err(e),
            Ok((types, q)) => Ok((ModuleView { types, ..m }, q)),
        },
    }
}

/// Limits: a flag, the minimum, and the maximum where the flag is one;
/// where it is zero the maximum is `upper`.
pub open spec fn limits_spec(bytes: Seq<u8>, pos: int, upper: u32) -> Result<((u32, u32), int), Error> {
    match unsigned_spec(bytes, pos, 1) {
        Err(e) => Err(e),
        Ok((flags, p)) => match u32_spec(bytes, p) {
            Err(e) => Err(e),
            Ok((initial, p2)) => if flags == 1 {
                match u32_spec(bytes, p2) {
                    Err(e) => Err(e),
                    Ok((max, p3)) => Ok(((initial, max), p3)),
                }
            } else {
                Ok(((initial, upper), p2))
            },
        },
    }
}

/// The limits of a memory: at most `MAX_PAGES` pages, and the minimum
/// not above the maximum.
pub open spec fn memory_limits_spec(bytes: Seq<u8>, pos: int) -> Result<((u32, u32), int), Error> {
    match limits_spec(bytes, pos, MAX_PAGES) {
        Err(e) => Err(e),
        Ok(((initial, max), p)) => if initial > MAX_PAGES || max > MAX_PAGES {
            Err(Error::Validation(MEMORY_SIZE_LIMIT))
        } else if max < initial {
            Err(Error::Validation(MIN_GREATER_THAN_MAX))
        } else {
            Ok(((initial, max), p))
        },
    }
}

/// The limits of a table: the minimum not above the maximum.
pub open spec fn table_limits_spec(bytes: Seq<u8>, pos: int) -> Result<((u32, u32), int), Error> {
    match limits_spec(bytes, pos, u32::MAX) {
        Err(e) => Err(e),
        Ok(((initial, max), p)) => if max < initial {
            Err(Error::Validation(MIN_GREATER_THAN_MAX))
        } else {
            Ok(((initial, max), p))
        },
    }
}

/// The descriptor of a function of type `ty` that has no body yet.
pub open spec fn blank_function(ty: SignatureView, import: Option<ImportRefView>) -> FunctionView {
    FunctionView {
        body_start: 0,
        body_end: 0,
        ty,
        locals: Seq::empty(),
        import,
        is_declared: false,
    }
}

/// What follows the kind byte of an import, by kind: a type index for a
/// function; the reference type `0x70` and limits for a table; limits
/// for a memory; a value type and a mutability byte for a global.  A
/// module has at most one table and one memory.
pub open spec fn import_desc_spec(
    bytes: Seq<u8>,
    pos: int,
    kind: ExternType,
    name: ImportRefView,
    m: ModuleView,
) -> Parsed {
    match kind {
        ExternType::Func => match u32_spec(bytes, pos) {
            Err(e) => Err(e),
            Ok((ti, p)) => if ti >= m.types.len() {
                Err(Error::Validation(UNKNOWN_TYPE))
            } else {
                Ok(
                    (
                        ModuleView {
                            functions: m.functions.push(blank_function(m.types[ti as int], Some(name))),
                            ..m
                        },
                        p,
                    ),
                )
            },
        },
        ExternType::Table => if m.table is Some {
            Err(Error::Validation(MULTIPLE_TABLES))
        } else {
            match u32_spec(bytes, pos) {
                Err(e) => Err(e),
                Ok((reftype, p)) => if reftype != 0x70 {
                    Err(Error::Malformed(MALFORMED_REF_TYPE))
                } else {
                    match table_limits_spec(bytes, p) {
                        Err(e) => Err(e),
                        Ok(((min, max), q)) => Ok(
                            (
                                ModuleView {
                                    table: Some(LimitsView { min, max, import: Some(name) }),
                                    ..m
                                },
                                q,
                            ),
                        ),
                    }
                },
            }
        },
        ExternType::Mem => if m.memory is Some {
            Err(Error::Validation(MULTIPLE_MEMORIES))
        } else {
            match memory_limits_spec(bytes, pos) {
                Err(e) => Err(e),
                Ok(((min, max), q)) => Ok(
                    (
                        ModuleView { memory: Some(LimitsView { min, max, import: Some(name) }), ..m },
                        q,
                    ),
                ),
            }
        },
        ExternType::Global => match u32_spec(bytes, pos) {
            Err(e) => Err(e),
            Ok((ty, p)) => if !is_val_type((ty % 256) as u8) {
                Err(Error::Malformed(INVALID_GLOBAL_TYPE))
            } else {
                match u8_spec(bytes, p) {
                    Err(e) => Err(e),
                    Ok((mb, q)) => match mutability_from_byte(mb) {
                        None => Err(Error::Malformed(INVALID_MUTABILITY)),
                        Some(is_mutable) => Ok(
                            (
                                ModuleView {
                                    globals: m.globals.push(
                                        GlobalView {
                                            ty: val_type_from_byte((ty % 256) as u8).unwrap(),
                                            is_mutable,
                                            initializer_offset: 0,
                                            import: Some(name),
                                        },
                                    ),
                                    ..m
                                },
                                q,
                            ),
                        ),
                    },
                }
            },
        },
    }
}

/// One entry of the import section: the module name, the field name, the
/// kind, and the descriptor.
pub open spec fn import_entry_spec(bytes: Seq<u8>, pos: int, m: ModuleView) -> Parsed {
    match name_spec(bytes, pos) {
        Err(e) => Err(e),
        Ok((module, p1)) => match name_spec(bytes, p1) {
            Err(e) => Err(e),
            Ok((field, p2)) => match u8_spec(bytes, p2) {
                Err(e) => Err(e),
                Ok((kb, p3)) => match ExternType::from_byte(kb) {
                    None => Err(Error::Malformed(MALFORMED_IMPORT_KIND)),
                    Some(kind) => {
                        let name = ImportRefView { module, field };
                        import_desc_spec(
                            bytes,
                            p3,
                            kind,
                            name,
                            ModuleView {
                                imports: m.imports.push(ImportEntryView { name, kind }),
                                ..m
                            },
                        )
                    },
                },
            },
        },
    }
}

/// `n` times the entry `entry` from `pos`, each on the module that the
/// one before left.
pub open spec fn repeat_spec(
    entry: spec_fn(Seq<u8>, int, ModuleView) -> Parsed,
    bytes: Seq<u8>,
    pos: int,
    n: nat,
    m: ModuleView,
) -> Parsed
    decreases n,
{
    if n == 0 {
        Ok((m, pos))
    } else {
        match entry(bytes, pos, m) {
            Err(e) => Err(e),
            Ok((m2, p)) => repeat_spec(entry, bytes, p, (n - 1) as nat, m2),
        }
    }
}

/// A section that is a count and that many entries.
pub open spec fn counted_spec(
    entry: spec_fn(Seq<u8>, int, ModuleView) -> Parsed,
    bytes: Seq<u8>,
    pos: int,
    m: ModuleView,
) -> Parsed {
    match u32_spec(bytes, pos) {
        Err(e) => Err(e),
        Ok((n, p)) => repeat_spec(entry, bytes, p, n as nat, m),
    }
}

/// The import section.
pub open spec fn import_section_spec(bytes: Seq<u8>, pos: int, m: ModuleView) -> Parsed {
    counted_spec(|b: Seq<u8>, p: int, mv: ModuleView| import_entry_spec(b, p, mv), bytes, pos, m)
}

/// One entry of the function section: the index of the function's type.
pub open spec fn function_entry_spec(bytes: Seq<u8>, pos: int, m: ModuleView) -> Parsed {
    match u32_spec(bytes, pos) {
        Err(e) => Err(e),
        Ok((ti, p)) => if ti >= m.types.len() {
            Err(Error::Validation(UNKNOWN_TYPE))
        } else {
            Ok(
                (
                    ModuleView {
                        functions: m.functions.push(blank_function(m.types[ti as int], None)),
                        ..m
                    },
                    p,
                ),
            )
        },
    }
}

/// The function section.
pub open spec fn function_section_spec(bytes: Seq<u8>, pos: int, m: ModuleView) -> Parsed {
    counted_spec(|b: Seq<u8>, p: int, mv: ModuleView| function_entry_spec(b, p, mv), bytes, pos, m)
}

/// The table section: at most one table, and none beside an imported
/// one; the element type `0x70` and limits.
pub open spec fn table_section_spec(bytes: Seq<u8>, pos: int, m: ModuleView) -> Parsed {
    match u32_spec(bytes, pos) {
        Err(e) => Err(e),
        Ok((n, p)) => if n > 1 || (n == 1 && m.table is Some) {
            Err(Error::Validation(MULTIPLE_TABLES))
        } else if n == 1 {
            match u8_spec(bytes, p) {
                Err(e) => Err(e),
                Ok((elem, p2)) => if elem != 0x70 {
                    Err(Error::Validation(INVALID_ELEM_TYPE))
                } else {
                    match table_limits_spec(bytes, p2) {
                        Err(e) => Err(e),
                        Ok(((min, max), q)) => Ok(
                            (ModuleView { table: Some(LimitsView { min, max, import: None }), ..m }, q),
                        ),
                    }
                },
            }
        } else {
            Ok((m, p))
        },
    }
}

/// The memory section: at most one memory, and none beside an imported
/// one; limits.
pub open spec fn memory_section_spec(bytes: Seq<u8>, pos: int, m: ModuleView) -> Parsed {
    match u32_spec(bytes, pos) {
        Err(e) => Err(e),
        Ok((n, p)) => if n > 1 || (n == 1 && m.memory is Some) {
            Err(Error::Validation(MULTIPLE_MEMORIES))
        } else if n == 1 {
            if p >= bytes.len() {
                Err(Error::Malformed(UNEXPECTED_END))
            } else {
                match memory_limits_spec(bytes, p) {
                    Err(e) => Err(e),
                    Ok(((min, max), q)) => Ok(
                        (ModuleView { memory: Some(LimitsView { min, max, import: None }), ..m }, q),
                    ),
                }
            }
        } else {
            Ok((m, p))
        },
    }
}

/// Whether an export of the given name is among `exports`.
pub open spec fn has_export_spec(exports: Seq<ExportEntryView>, name: Seq<char>) -> bool {
    exists|i: int| 0 <= i < exports.len() && #[trigger] exports[i].name == name
}

/// The functions with function `idx` marked as declared.
pub open spec fn declare(functions: Seq<FunctionView>, idx: int) -> Seq<FunctionView> {
    functions.update(idx, FunctionView { is_declared: true, ..functions[idx] })
}

/// One entry of the export section: a name, which no earlier export has,
/// a kind, and an index, which must exist.  An exported function counts
/// as declared.
pub open spec fn export_entry_spec(bytes: Seq<u8>, pos: int, m: ModuleView) -> Parsed {
    match name_spec(bytes, pos) {
        Err(e) => Err(e),
        Ok((name, p1)) => match u8_spec(bytes, p1) {
            Err(e) => Err(e),
            Ok((kb, p2)) => match ExternType::from_byte(kb) {
                None => Err(Error::Validation(INVALID_EXPORT_DESC)),
                Some(kind) => match u32_spec(bytes, p2) {
                    Err(e) => Err(e),
                    Ok((idx, p3)) => if has_export_spec(m.exports, name) {
                        Err(Error::Validation(DUP_EXPORT_NAME))
                    } else {
                        let exports = m.exports.push(
                            ExportEntryView { name, export: Export { extern_type: kind, idx } },
                        );
                        match kind {
                            ExternType::Func => if idx >= m.functions.len() {
                                Err(Error::Validation(UNKNOWN_FUNC))
                            } else {
                                Ok(
                                    (
                                        ModuleView {
                                            exports,
                                            functions: declare(m.functions, idx as int),
                                            ..m
                                        },
                                        p3,
                                    ),
                                )
                            },
                            ExternType::Table => if idx != 0 || m.table is None {
                                Err(Error::Validation(UNKNOWN_TABLE))
                            } else {
                                Ok((ModuleView { exports, ..m }, p3))
                            },
                            ExternType::Mem => if idx != 0 || m.memory is None {
                                Err(Error::Validation(UNKNOWN_MEMORY))
                            } else {
                                Ok((ModuleView { exports, ..m }, p3))
                            },
                            ExternType::Global => if idx >= m.globals.len() {
                                Err(Error::Validation(UNKNOWN_GLOBAL))
                            } else {
                                Ok((ModuleView { exports, ..m }, p3))
                            },
                        }
                    },
                },
            },
        },
    }
}

/// The export section.
pub open spec fn export_section_spec(bytes: Seq<u8>, pos: int, m: ModuleView) -> Parsed {
    counted_spec(|b: Seq<u8>, p: int, mv: ModuleView| export_entry_spec(b, p, mv), bytes, pos, m)
}

/// The start section: the index of a function of type `() -> ()`.
pub open spec fn start_section_spec(bytes: Seq<u8>, pos: int, m: ModuleView) -> Parsed {
    match u32_spec(bytes, pos) {
        Err(e) => Err(e),
        Ok((start, p)) => if start >= m.functions.len() {
            Err(Error::Validation(UNKNOWN_FUNC))
        } else if m.functions[start as int].ty != SignatureView::empty() {
            Err(Error::Validation(START_FUNC))
        } else {
            Ok((ModuleView { start, ..m }, p))
        },
    }
}

/// Reads limits; see [`limits_spec`].
pub fn get_limits(it: &mut ByteIter, upper: u32) -> (r: Result<(u32, u32), Error>)
    requires
        cursor_ok(*old(it)),
    ensures
        final(it).bytes == old(it).bytes,
        cursor_ok(*final(it)),
        match limits_spec(old(it).bytes@, old(it).idx as int, upper) {
            Ok((v, p)) => r == Ok::<(u32, u32), Error>(v) && final(it).idx == p,
            Err(e) => r == Err::<(u32, u32), Error>(e),
        },
{
    let mut p: usize = it.idx;
    proof {
        lemma2_to64_32();
        lemma_group_len_positive(it.bytes@, p as int);
    }
    let flags: u64 = safe_read_leb128(it.bytes, &mut p, 1)?;
    it.idx = p;
    let initial: u32 = read_u32(it)?;
    let max: u32 = if flags == 1 {
        read_u32(it)?
    } else {
        upper
    };
    Ok((initial, max))
}

/// Reads the limits of a memory; see [`memory_limits_spec`].
pub fn get_memory_limits(it: &mut ByteIter) -> (r: Result<(u32, u32), Error>)
    requires
        cursor_ok(*old(it)),
    ensures
        final(it).bytes == old(it).bytes,
        cursor_ok(*final(it)),
        match memory_limits_spec(old(it).bytes@, old(it).idx as int) {
            Ok((v, p)) => r == Ok::<(u32, u32), Error>(v) && final(it).idx == p,
            Err(e) => r == Err::<(u32, u32), Error>(e),
        },
{
    let (initial, max) = get_limits(it, MAX_PAGES)?;
    if initial > MAX_PAGES || max > MAX_PAGES {
        return Err(Error::Validation(MEMORY_SIZE_LIMIT));
    }
    if max < initial {
        return Err(Error::Validation(MIN_GREATER_THAN_MAX));
    }
    Ok((initial, max))
}

/// Reads the limits of a table; see [`table_limits_spec`].
pub fn get_table_limits(it: &mut ByteIter) -> (r: Result<(u32, u32), Error>)
    requires
        cursor_ok(*old(it)),
    ensures
        final(it).bytes == old(it).bytes,
        cursor_ok(*final(it)),
        match table_limits_spec(old(it).bytes@, old(it).idx as int) {
            Ok((v, p)) => r == Ok::<(u32, u32), Error>(v) && final(it).idx == p,
            Err(e) => r == Err::<(u32, u32), Error>(e),
        },
{
    let (initial, max) = get_limits(it, u32::MAX)?;
    if max < initial {
        return Err(Error::Validation(MIN_GREATER_THAN_MAX));
    }
    Ok((initial, max))
}

/// Reads `n` value types; see [`val_types_spec`].
fn read_val_types(it: &mut ByteIter, n: u32) -> (r: Result<Vec<ValType>, Error>)
    requires
        cursor_ok(*old(it)),
    ensures
        final(it).bytes == old(it).bytes,
        cursor_ok(*final(it)),
        match val_types_spec(old(it).bytes@, old(it).idx as int, n as nat, Seq::empty()) {
            Ok((types, p)) => (r matches Ok(v) && v@ == types) && final(it).idx == p,
            Err(e) => r == Err::<Vec<ValType>, Error>(e),
        },
{
    let mut types: Vec<ValType> = Vec::new();
    let mut i: u32 = 0;
    while i < n
        invariant
            i <= n,
            it.bytes == old(it).bytes,
            cursor_ok(*it),
            val_types_spec(old(it).bytes@, old(it).idx as int, n as nat, Seq::empty())
                == val_types_spec(it.bytes@, it.idx as int, (n - i) as nat, types@),
        decreases n - i,
    {
        let b: u8 = it.read_u8()?;
        match val_type_from_byte(b) {
            Some(t) => {
                if !is_val_type(b) {
                    return Err(Error::Malformed(INVALID_VALUE_TYPE));
                }
                types.push(t);
            },
            None => {
                return Err(Error::Malformed(INVALID_VALUE_TYPE));
            },
        }
        i = i + 1;
    }
    Ok(types)
}

/// Reads one entry of the type section; see [`type_entry_spec`].
fn read_type_entry(it: &mut ByteIter) -> (r: Result<Signature, Error>)
    requires
        cursor_ok(*old(it)),
    ensures
        final(it).bytes == old(it).bytes,
        cursor_ok(*final(it)),
        match type_entry_spec(old(it).bytes@, old(it).idx as int) {
            Ok((sig, p)) => (r matches Ok(s) && s@ == sig) && final(it).idx == p,
            Err(e) => r == Err::<Signature, Error>(e),
        },
{
    let tag: u8 = it.read_u8()?;
    if tag != 0x60 {
        return Err(Error::Malformed(INT_TOO_LONG));
    }
    let n_params: u32 = read_u32(it)?;
    let params: Vec<ValType> = read_val_types(it, n_params)?;
    let n_results: u32 = read_u32(it)?;
    if n_results > 1 {
        return Err(Error::Validation(INVALID_RESULT_ARITY));
    }
    let mut result: Option<ValType> = None;
    if n_results == 1 {
        let b: u8 = it.read_u8()?;
        if !is_val_type(b) {
            return Err(Error::Malformed(INVALID_RESULT_TYPE));
        }
        result = val_type_from_byte(b);
    }
    Ok(Signature { params, result })
}

/// Whether an export of the given name is among `exports`.
pub fn has_export(exports: &Vec<ExportEntry>, name: &String) -> (r: bool)
    ensures
        r == has_export_spec(Seq::new(exports@.len(), |i: int| exports@[i]@), name@),
{
    let ghost views = Seq::new(exports@.len(), |i: int| exports@[i]@);
    let mut i: usize = 0;
    while i < exports.len()
        invariant
            i <= exports@.len(),
            views == Seq::new(exports@.len(), |i: int| exports@[i]@),
            forall|k: int| 0 <= k < i ==> (#[trigger] views[k]).name != name@,
        decreases exports@.len() - i,
    {
        if exports[i].name == *name {
            assert(views[i as int].name == name@);
            return true;
        }
        i = i + 1;
    }
    false
}

impl Module {
    /// Reads the type section; see [`type_section_spec`].
    #[verifier::loop_isolation(false)]
    pub fn parse_type_section(&mut self, it: &mut ByteIter) -> (r: Result<(), Error>)
        requires
            cursor_ok(*old(it)),
        ensures
            final(it).bytes == old(it).bytes,
            cursor_ok(*final(it)),
            final(self).bytes == old(self).bytes,
            parsed(
                type_section_spec(old(it).bytes@, old(it).idx as int, old(self)@),
                r,
                final(self)@,
                final(it).idx,
            ),
    {
        let n: u32 = read_u32(it)?;
        let ghost p0 = it.idx as int;
        let mut i: u32 = 0;
        while i < n
            invariant
                i <= n,
                it.bytes == old(it).bytes,
                cursor_ok(*it),
                self.bytes == old(self).bytes,
                self@ == (ModuleView { types: self@.types, ..old(self)@ }),
                types_spec(it.bytes@, p0, n as nat, old(self)@.types) == types_spec(
                    it.bytes@,
                    it.idx as int,
                    (n - i) as nat,
                    self@.types,
                ),
            decreases n - i,
        {
            let sig: Signature = read_type_entry(it)?;
            let ghost before = self@.types;
            self.types.push(sig);
            assert(self@.types =~= before.push(sig@));
            assert(self@ == (ModuleView { types: self@.types, ..old(self)@ }));
            i = i + 1;
        }
        Ok(())
    }

    /// Reads the descriptor of an import; see [`import_desc_spec`].
    fn parse_import_desc(&mut self, it: &mut ByteIter, kind: ExternType, name: ImportRef) -> (r:
        Result<(), Error>)
        requires
            cursor_ok(*old(it)),
        ensures
            final(it).bytes == old(it).bytes,
            cursor_ok(*final(it)),
            final(self).bytes == old(self).bytes,
            parsed(
                import_desc_spec(old(it).bytes@, old(it).idx as int, kind, name@, old(self)@),
                r,
                final(self)@,
                final(it).idx,
            ),
    {
        match kind {
            ExternType::Func => {
                let ti: u32 = read_u32(it)?;
                if ti as usize >= self.types.len() {
                    return Err(Error::Validation(UNKNOWN_TYPE));
                }
                let ty: Signature = self.types[ti as usize].duplicate();
                let f = Function {
                    body_start: 0,
                    body_end: 0,
                    ty,
                    locals: Vec::new(),
                    import: Some(name),
                    is_declared: false,
                };
                let ghost before = self@.functions;
                self.functions.push(f);
                assert(self@.functions =~= before.push(f@));
            },
            ExternType::Table => {
                if self.table.is_some() {
                    return Err(Error::Validation(MULTIPLE_TABLES));
                }
                let reftype: u32 = read_u32(it)?;
                if reftype != 0x70 {
                    return Err(Error::Malformed(MALFORMED_REF_TYPE));
                }
                let (min, max) = get_table_limits(it)?;
                self.table = Some(Table { min, max, import: Some(name) });
            },
            ExternType::Mem => {
                if self.memory.is_some() {
                    return Err(Error::Validation(MULTIPLE_MEMORIES));
                }
                let (min, max) = get_memory_limits(it)?;
                self.memory = Some(Memory { min, max, import: Some(name) });
            },
            ExternType::Global => {
                let ty: u32 = read_u32(it)?;
                let tb: u8 = (ty % 256) as u8;
                if !is_val_type(tb) {
                    return Err(Error::Malformed(INVALID_GLOBAL_TYPE));
                }
                let mb: u8 = it.read_u8()?;
                let is_mutable: bool = match mutability_from_byte(mb) {
                    Some(b) => b,
                    None => {
                        return Err(Error::Malformed(INVALID_MUTABILITY));
                    },
                };
                let vt: ValType = match val_type_from_byte(tb) {
                    Some(t) => t,
                    None => {
                        return Err(Error::Malformed(INVALID_GLOBAL_TYPE));
                    },
                };
                let g = Global { ty: vt, is_mutable, initializer_offset: 0, import: Some(name) };
                let ghost before = self@.globals;
                self.globals.push(g);
                assert(self@.globals =~= before.push(g@));
            },
        }
        Ok(())
    }

    /// Reads one entry of the import section; see [`import_entry_spec`].
    fn parse_import_entry(&mut self, it: &mut ByteIter) -> (r: Result<(), Error>)
        requires
            cursor_ok(*old(it)),
        ensures
            final(it).bytes == old(it).bytes,
            cursor_ok(*final(it)),
            final(self).bytes == old(self).bytes,
            parsed(
                import_entry_spec(old(it).bytes@, old(it).idx as int, old(self)@),
                r,
                final(self)@,
                final(it).idx,
            ),
    {
        let module: String = read_name(it)?;
        let field: String = read_name(it)?;
        let kb: u8 = it.read_u8()?;
        let kind: ExternType = match ExternType::from_byte(kb) {
            Some(k) => k,
            None => {
                return Err(Error::Malformed(MALFORMED_IMPORT_KIND));
            },
        };
        let name = ImportRef { module: module.clone(), field: field.clone() };
        let entry = ImportEntry { name: ImportRef { module, field }, kind };
        let ghost before = self@.imports;
        self.imports.push(entry);
        assert(self@.imports =~= before.push(entry@));
        self.parse_import_desc(it, kind, name)
    }

    /// Reads the import section; see [`import_section_spec`].
    #[verifier::loop_isolation(false)]
    pub fn parse_import_section(&mut self, it: &mut ByteIter) -> (r: Result<(), Error>)
        requires
            cursor_ok(*old(it)),
        ensures
            final(it).bytes == old(it).bytes,
            cursor_ok(*final(it)),
            final(self).bytes == old(self).bytes,
            parsed(
                import_section_spec(old(it).bytes@, old(it).idx as int, old(self)@),
                r,
                final(self)@,
                final(it).idx,
            ),
    {
        let n: u32 = read_u32(it)?;
        let ghost p0 = it.idx as int;
        let ghost entry = |b: Seq<u8>, p: int, mv: ModuleView| import_entry_spec(b, p, mv);
        let mut i: u32 = 0;
        while i < n
            invariant
                i <= n,
                it.bytes == old(it).bytes,
                cursor_ok(*it),
                self.bytes == old(self).bytes,
                entry == |b: Seq<u8>, p: int, mv: ModuleView| import_entry_spec(b, p, mv),
                repeat_spec(entry, it.bytes@, p0, n as nat, old(self)@) == repeat_spec(
                    entry,
                    it.bytes@,
                    it.idx as int,
                    (n - i) as nat,
                    self@,
                ),
            decreases n - i,
        {
            self.parse_import_entry(it)?;
            i = i + 1;
        }
        Ok(())
    }

    /// Reads the function section; see [`function_section_spec`].
    #[verifier::loop_isolation(false)]
    pub fn parse_function_section(&mut self, it: &mut ByteIter) -> (r: Result<(), Error>)
        requires
            cursor_ok(*old(it)),
        ensures
            final(it).bytes == old(it).bytes,
            cursor_ok(*final(it)),
            final(self).bytes == old(self).bytes,
            parsed(
                function_section_spec(old(it).bytes@, old(it).idx as int, old(self)@),
                r,
                final(self)@,
                final(it).idx,
            ),
    {
        let n: u32 = read_u32(it)?;
        let ghost p0 = it.idx as int;
        let ghost entry = |b: Seq<u8>, p: int, mv: ModuleView| function_entry_spec(b, p, mv);
        let mut i: u32 = 0;
        while i < n
            invariant
                i <= n,
                it.bytes == old(it).bytes,
                cursor_ok(*it),
                self.bytes == old(self).bytes,
                entry == |b: Seq<u8>, p: int, mv: ModuleView| function_entry_spec(b, p, mv),
                repeat_spec(entry, it.bytes@, p0, n as nat, old(self)@) == repeat_spec(
                    entry,
                    it.bytes@,
                    it.idx as int,
                    (n - i) as nat,
                    self@,
                ),
            decreases n - i,
        {
            let ti: u32 = read_u32(it)?;
            if ti as usize >= self.types.len() {
                return Err(Error::Validation(UNKNOWN_TYPE));
            }
            let ty: Signature = self.types[ti as usize].duplicate();
            let f = Function {
                body_start: 0,
                body_end: 0,
                ty,
                locals: Vec::new(),
                import: None,
                is_declared: false,
            };
            let ghost before = self@;
            self.functions.push(f);
            assert(self@.functions =~= before.functions.push(f@));
            assert(self@ == (ModuleView { functions: before.functions.push(f@), ..before }));
            i = i + 1;
        }
        Ok(())
    }

    /// Reads the table section; see [`table_section_spec`].
    pub fn parse_table_section(&mut self, it: &mut ByteIter) -> (r: Result<(), Error>)
        requires
            cursor_ok(*old(it)),
        ensures
            final(it).bytes == old(it).bytes,
            cursor_ok(*final(it)),
            final(self).bytes == old(self).bytes,
            parsed(
                table_section_spec(old(it).bytes@, old(it).idx as int, old(self)@),
                r,
                final(self)@,
                final(it).idx,
            ),
    {
        let n: u32 = read_u32(it)?;
        if n > 1 || (n == 1 && self.table.is_some()) {
            return Err(Error::Validation(MULTIPLE_TABLES));
        }
        if n == 1 {
            let elem: u8 = it.read_u8()?;
            if elem != 0x70 {
                return Err(Error::Validation(INVALID_ELEM_TYPE));
            }
            let (min, max) = get_table_limits(it)?;
            self.table = Some(Table { min, max, import: None });
        }
        Ok(())
    }

    /// Reads the memory section; see [`memory_section_spec`].
    pub fn parse_memory_section(&mut self, it: &mut ByteIter) -> (r: Result<(), Error>)
        requires
            cursor_ok(*old(it)),
        ensures
            final(it).bytes == old(it).bytes,
            cursor_ok(*final(it)),
            final(self).bytes == old(self).bytes,
            parsed(
                memory_section_spec(old(it).bytes@, old(it).idx as int, old(self)@),
                r,
                final(self)@,
                final(it).idx,
            ),
    {
        let n: u32 = read_u32(it)?;
        if n > 1 || (n == 1 && self.memory.is_some()) {
            return Err(Error::Validation(MULTIPLE_MEMORIES));
        }
        if n == 1 {
            if it.empty() {
                return Err(Error::Malformed(UNEXPECTED_END));
            }
            let (min, max) = get_memory_limits(it)?;
            self.memory = Some(Memory { min, max, import: None });
        }
        Ok(())
    }

    /// Reads one entry of the export section; see [`export_entry_spec`].
    fn parse_export_entry(&mut self, it: &mut ByteIter) -> (r: Result<(), Error>)
        requires
            cursor_ok(*old(it)),
        ensures
            final(it).bytes == old(it).bytes,
            cursor_ok(*final(it)),
            final(self).bytes == old(self).bytes,
            parsed(
                export_entry_spec(old(it).bytes@, old(it).idx as int, old(self)@),
                r,
                final(self)@,
                final(it).idx,
            ),
    {
        let name: String = read_name(it)?;
        let kb: u8 = it.read_u8()?;
        let kind: ExternType = match ExternType::from_byte(kb) {
            Some(k) => k,
            None => {
                return Err(Error::Validation(INVALID_EXPORT_DESC));
            },
        };
        let idx: u32 = read_u32(it)?;
        if has_export(&self.exports, &name) {
            return Err(Error::Validation(DUP_EXPORT_NAME));
        }
        match kind {
            ExternType::Func => {
                if idx as usize >= self.functions.len() {
                    return Err(Error::Validation(UNKNOWN_FUNC));
                }
                let ghost before = self@.functions;
                self.functions[idx as usize].is_declared = true;
                assert(self@.functions =~= declare(before, idx as int));
            },
            ExternType::Table => {
                if idx != 0 || self.table.is_none() {
                    return Err(Error::Validation(UNKNOWN_TABLE));
                }
            },
            ExternType::Mem => {
                if idx != 0 || self.memory.is_none() {
                    return Err(Error::Validation(UNKNOWN_MEMORY));
                }
            },
            ExternType::Global => {
                if idx as usize >= self.globals.len() {
                    return Err(Error::Validation(UNKNOWN_GLOBAL));
                }
            },
        }
        let entry = ExportEntry { name, export: Export { extern_type: kind, idx } };
        let ghost before = self@.exports;
        self.exports.push(entry);
        assert(self@.exports =~= before.push(entry@));
        Ok(())
    }

    /// Reads the export section; see [`export_section_spec`].
    #[verifier::loop_isolation(false)]
    pub fn parse_export_section(&mut self, it: &mut ByteIter) -> (r: Result<(), Error>)
        requires
            cursor_ok(*old(it)),
        ensures
            final(it).bytes == old(it).bytes,
            cursor_ok(*final(it)),
            final(self).bytes == old(self).bytes,
            parsed(
                export_section_spec(old(it).bytes@, old(it).idx as int, old(self)@),
                r,
                final(self)@,
                final(it).idx,
            ),
    {
        let n: u32 = read_u32(it)?;
        let ghost p0 = it.idx as int;
        let ghost entry = |b: Seq<u8>, p: int, mv: ModuleView| export_entry_spec(b, p, mv);
        let mut i: u32 = 0;
        while i < n
            invariant
                i <= n,
                it.bytes == old(it).bytes,
                cursor_ok(*it),
                self.bytes == old(self).bytes,
                entry == |b: Seq<u8>, p: int, mv: ModuleView| export_entry_spec(b, p, mv),
                repeat_spec(entry, it.bytes@, p0, n as nat, old(self)@) == repeat_spec(
                    entry,
                    it.bytes@,
                    it.idx as int,
                    (n - i) as nat,
                    self@,
                ),
            decreases n - i,
        {
            self.parse_export_entry(it)?;
            i = i + 1;
        }
        Ok(())
    }

    /// Reads the start section; see [`start_section_spec`].
    pub fn parse_start_section(&mut self, it: &mut ByteIter) -> (r: Result<(), Error>)
        requires
            cursor_ok(*old(it)),
        ensures
            final(it).bytes == old(it).bytes,
            cursor_ok(*final(it)),
            final(self).bytes == old(self).bytes,
            parsed(
                start_section_spec(old(it).bytes@, old(it).idx as int, old(self)@),
                r,
                final(self)@,
                final(it).idx,
            ),
    {
        let start: u32 = read_u32(it)?;
        if start as usize >= self.functions.len() {
            return Err(Error::Validation(UNKNOWN_FUNC));
        }
        let ty: &Signature = &self.functions[start as usize].ty;
        if ty.params.len() != 0 || ty.result.is_some() {
            return Err(Error::Validation(START_FUNC));
        }
        assert(ty@.params =~= Seq::<ValType>::empty());
        self.start = start;
        Ok(())
    }
}

} // verus!
