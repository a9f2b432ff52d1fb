//! The module: what the decoder extracts from a binary.
//!
//! Each exec type has a view that holds its mathematical content; the
//! decoder's contracts are stated over these views.

use vstd::prelude::*;
use vstd::utf8::{valid_utf8, decode_utf8};
use vstd::slice::slice_subrange;
use std::collections::HashMap;
use crate::byte_iter::ByteIter;
use crate::error::{Error, UNEXPECTED_END, INVALID_UTF8};
use crate::leb128::{safe_read_leb128, unsigned_spec};
use crate::signature::{Signature, SignatureView, ValType};

verus! {

broadcast use vstd::std_specs::hash::group_hash_axioms;
/// The largest number of pages a memory can declare: 4 GiB.
pub const MAX_PAGES: u32 = 65536;

/// The largest number of locals, parameters included, of a function.
pub const MAX_LOCALS: usize = 50000;

/// The start index of a module that has no start function.
pub const NO_START: u32 = u32::MAX;

/// The name under which an item is imported.
#[derive(Clone, Debug)]
pub struct ImportRef {
    pub module: String,
    pub field: String,
}

/// The mathematical content of an [`ImportRef`].
pub struct ImportRefView {
    pub module: Seq<char>,
    pub field: Seq<char>,
}

impl View for ImportRef {
    type V = ImportRefView;

    open spec fn view(&self) -> ImportRefView {
        ImportRefView { module: self.module@, field: self.field@ }
    }
}

/// The view of an optional import name.
pub open spec fn import_view(i: Option<ImportRef>) -> Option<ImportRefView> {
    match i {
        Some(r) => Some(r@),
        None => None,
    }
}

/// The kind of an imported or exported item.
#[derive(Clone, Copy, Debug, PartialEq, Eq, Structural)]
pub enum ExternType {
    Func,
    Table,
    Mem,
    Global,
}

impl ExternType {
    /// The kind that `byte` encodes, if any.
    pub open spec fn spec_from_byte(byte: u8) -> Option<ExternType> {
        if byte == 0 {
            Some(ExternType::Func)
        } else if byte == 1 {
            Some(ExternType::Table)
        } else if byte == 2 {
            Some(ExternType::Mem)
        } else if byte == 3 {
            Some(ExternType::Global)
        } else {
            None
        }
    }

    /// The kind that `byte` encodes, if any.
    #[verifier::when_used_as_spec(spec_from_byte)]
    pub fn from_byte(byte: u8) -> (r: Option<ExternType>)
        ensures
            r == Self::spec_from_byte(byte),
    {
        if byte == 0 {
            Some(ExternType::Func)
        } else if byte == 1 {
            Some(ExternType::Table)
        } else if byte == 2 {
            Some(ExternType::Mem)
        } else if byte == 3 {
            Some(ExternType::Global)
        } else {
            None
        }
    }
}

/// One entry of the import section.
#[derive(Clone, Debug)]
pub struct ImportEntry {
    pub name: ImportRef,
    pub kind: ExternType,
}

/// The mathematical content of an [`ImportEntry`].
pub struct ImportEntryView {
    pub name: ImportRefView,
    pub kind: ExternType,
}

impl View for ImportEntry {
    type V = ImportEntryView;

    open spec fn view(&self) -> ImportEntryView {
        ImportEntryView { name: self.name@, kind: self.kind }
    }
}

/// A function descriptor.  The body is the byte range `[body_start,
/// body_end)` of the binary; an imported function has the empty range at
/// zero.  `locals` holds the parameter types and then the declared
/// locals.
#[derive(Clone, Debug)]
pub struct Function {
    pub body_start: usize,
    pub body_end: usize,
    pub ty: Signature,
    pub locals: Vec<ValType>,
    pub import: Option<ImportRef>,
    pub is_declared: bool,
}

/// The mathematical content of a [`Function`].
pub struct FunctionView {
    pub body_start: usize,
    pub body_end: usize,
    pub ty: SignatureView,
    pub locals: Seq<ValType>,
    pub import: Option<ImportRefView>,
    pub is_declared: bool,
}

impl View for Function {
    type V = FunctionView;

    open spec fn view(&self) -> FunctionView {
        FunctionView {
            body_start: self.body_start,
            body_end: self.body_end,
            ty: self.ty@,
            locals: self.locals@,
            import: import_view(self.import),
            is_declared: self.is_declared,
        }
    }
}

/// A table descriptor.
#[derive(Clone, Debug)]
pub struct Table {
    pub min: u32,
    pub max: u32,
    pub import: Option<ImportRef>,
}

/// A memory descriptor; the limits are in pages.
#[derive(Clone, Debug)]
pub struct Memory {
    pub min: u32,
    pub max: u32,
    pub import: Option<ImportRef>,
}

/// The mathematical content of a [`Table`] or a [`Memory`].
pub struct LimitsView {
    pub min: u32,
    pub max: u32,
    pub import: Option<ImportRefView>,
}

impl View for Table {
    type V = LimitsView;

    open spec fn view(&self) -> LimitsView {
        LimitsView { min: self.min, max: self.max, import: import_view(self.import) }
    }
}

impl View for Memory {
    type V = LimitsView;

    open spec fn view(&self) -> LimitsView {
        LimitsView { min: self.min, max: self.max, import: import_view(self.import) }
    }
}

/// A global descriptor.  `initializer_offset` is where the initializer
/// expression starts in the binary; it is zero for an imported global.
#[derive(Clone, Debug)]
pub struct Global {
    pub ty: ValType,
    pub is_mutable: bool,
    pub initializer_offset: usize,
    pub import: Option<ImportRef>,
}

/// The mathematical content of a [`Global`].
pub struct GlobalView {
    pub ty: ValType,
    pub is_mutable: bool,
    pub initializer_offset: usize,
    pub import: Option<ImportRefView>,
}

impl View for Global {
    type V = GlobalView;

    open spec fn view(&self) -> GlobalView {
        GlobalView {
            ty: self.ty,
            is_mutable: self.is_mutable,
            initializer_offset: self.initializer_offset,
            import: import_view(self.import),
        }
    }
}

/// An export descriptor.
#[derive(Clone, Copy, Debug, PartialEq, Eq, Structural)]
pub struct Export {
    pub extern_type: ExternType,
    pub idx: u32,
}

/// One entry of the export section.
#[derive(Clone, Debug)]
pub struct ExportEntry {
    pub name: String,
    pub export: Export,
}

/// The mathematical content of an [`ExportEntry`].
pub struct ExportEntryView {
    pub name: Seq<char>,
    pub export: Export,
}

impl View for ExportEntry {
    type V = ExportEntryView;

    open spec fn view(&self) -> ExportEntryView {
        ExportEntryView { name: self.name@, export: self.export }
    }
}

/// A data segment: the byte range `[data_start, data_end)` of its
/// payload and the offset of its initializer expression.
#[derive(Clone, Copy, Debug, PartialEq, Eq, Structural)]
pub struct DataSegment {
    pub data_start: usize,
    pub data_end: usize,
    pub initializer_offset: usize,
}

/// The targets of an `if`: where its `else` branch and its end are.
#[derive(Clone, Copy, Debug, PartialEq, Eq, Structural)]
pub struct IfJump {
    pub else_offset: usize,
    pub end_offset: usize,
}

/// What the validator records for a `block`, `loop` or `if`: where the
/// body starts, where the construct ends, where its `else` branch
/// starts, and the arity of its block type.  `end_pc` and `else_pc` are
/// zero until the matching `end` has been seen.
#[derive(Clone, Copy, Debug, PartialEq, Eq, Structural)]
pub struct SideEntry {
    pub body_pc: usize,
    pub end_pc: usize,
    pub else_pc: usize,
    pub params_len: u16,
    pub has_result: bool,
}

impl SideEntry {
    /// The targets of the entry, read as those of an `if`.
    pub fn if_jump(&self) -> (j: IfJump)
        ensures
            j.else_offset == self.else_pc,
            j.end_offset == self.end_pc,
    {
        IfJump { else_offset: self.else_pc, end_offset: self.end_pc }
    }
}

/// The offset of the opcode whose immediate stands at `pc`.
pub open spec fn spec_opcode_offset(pc: usize) -> usize {
    if pc > 0 {
        (pc - 1) as usize
    } else {
        0
    }
}

/// The offset of the opcode whose immediate stands at `pc`.
#[verifier::when_used_as_spec(spec_opcode_offset)]
pub fn opcode_offset(pc: usize) -> (r: usize)
    ensures
        r == spec_opcode_offset(pc),
{
    if pc > 0 {
        pc - 1
    } else {
        0
    }
}

/// The side-table: the entries that the validator recorded, by the byte
/// offset of the opcode of the construct.
pub struct SideTable {
    entries: HashMap<usize, SideEntry>,
}

impl View for SideTable {
    type V = Map<usize, SideEntry>;

    closed spec fn view(&self) -> Map<usize, SideEntry> {
        self.entries@
    }
}

/// The side-table after the construct whose opcode stands at `pc` has
/// been opened.
pub open spec fn side_put_sig(
    t: Map<usize, SideEntry>,
    pc: usize,
    body_pc: usize,
    params_len: u16,
    has_result: bool,
) -> Map<usize, SideEntry> {
    t.insert(pc, SideEntry { body_pc, end_pc: 0, else_pc: 0, params_len, has_result })
}

/// The side-table after the construct whose opcode stands at `pc` has
/// been closed.
pub open spec fn side_fill(t: Map<usize, SideEntry>, pc: usize, end_pc: usize, else_pc: usize) -> Map<
    usize,
    SideEntry,
> {
    if t.contains_key(pc) {
        t.insert(pc, SideEntry { end_pc, else_pc, ..t[pc] })
    } else {
        t
    }
}

impl SideTable {
    /// The empty side-table.
    pub fn new() -> (t: Self)
        ensures
            t@ == Map::<usize, SideEntry>::empty(),
    {
        SideTable { entries: HashMap::new() }
    }

    /// Records the construct whose opcode stands at `pc`.
    pub fn put_sig(&mut self, pc: usize, body_pc: usize, params_len: u16, has_result: bool)
        ensures
            final(self)@ == side_put_sig(old(self)@, pc, body_pc, params_len, has_result),
    {
        self.entries.insert(
            pc,
            SideEntry { body_pc, end_pc: 0, else_pc: 0, params_len, has_result },
        );
    }

    /// Records where the construct whose opcode stands at `pc` ends and
    /// where its `else` branch starts.
    pub fn fill_end_else(&mut self, pc: usize, end_pc: usize, else_pc: usize)
        ensures
            final(self)@ == side_fill(old(self)@, pc, end_pc, else_pc),
    {
        let found: Option<SideEntry> = match self.entries.get(&pc) {
            Some(e) => Some(*e),
            None => None,
        };
        match found {
            Some(e) => {
                self.entries.insert(
                    pc,
                    SideEntry {
                        body_pc: e.body_pc,
                        end_pc,
                        else_pc,
                        params_len: e.params_len,
                        has_result: e.has_result,
                    },
                );
            },
            None => {},
        }
    }

    /// The entry for the construct whose opcode stands at `pc`.
    pub fn lookup(&self, pc: usize) -> (r: Option<SideEntry>)
        ensures
            r == if self@.contains_key(pc) {
                Some(self@[pc])
            } else {
                None
            },
    {
        match self.entries.get(&pc) {
            Some(e) => Some(*e),
            None => None,
        }
    }
}

/// A decoded and validated module.
pub struct Module {
    pub bytes: Vec<u8>,
    pub types: Vec<Signature>,
    pub imports: Vec<ImportEntry>,
    pub table: Option<Table>,
    pub memory: Option<Memory>,
    pub globals: Vec<Global>,
    pub exports: Vec<ExportEntry>,
    pub start: u32,
    pub element_start: usize,
    pub element_count: u32,
    pub functions: Vec<Function>,
    pub n_data: u32,
    pub data_segments: Vec<DataSegment>,
    pub side_table: SideTable,
}

/// The mathematical content of a [`Module`], but for its bytes.
pub struct ModuleView {
    pub types: Seq<SignatureView>,
    pub imports: Seq<ImportEntryView>,
    pub table: Option<LimitsView>,
    pub memory: Option<LimitsView>,
    pub globals: Seq<GlobalView>,
    pub exports: Seq<ExportEntryView>,
    pub start: u32,
    pub element_start: usize,
    pub element_count: u32,
    pub functions: Seq<FunctionView>,
    pub n_data: u32,
    pub data_segments: Seq<DataSegment>,
    pub side_table: Map<usize, SideEntry>,
}

/// The view of an optional table descriptor.
pub open spec fn table_view(t: Option<Table>) -> Option<LimitsView> {
    match t {
        Some(x) => Some(x@),
        None => None,
    }
}

/// The view of an optional memory descriptor.
pub open spec fn memory_view(t: Option<Memory>) -> Option<LimitsView> {
    match t {
        Some(x) => Some(x@),
        None => None,
    }
}

impl View for Module {
    type V = ModuleView;

    open spec fn view(&self) -> ModuleView {
        ModuleView {
            types: Seq::new(self.types@.len(), |i: int| self.types@[i]@),
            imports: Seq::new(self.imports@.len(), |i: int| self.imports@[i]@),
            table: table_view(self.table),
            memory: memory_view(self.memory),
            globals: Seq::new(self.globals@.len(), |i: int| self.globals@[i]@),
            exports: Seq::new(self.exports@.len(), |i: int| self.exports@[i]@),
            start: self.start,
            element_start: self.element_start,
            element_count: self.element_count,
            functions: Seq::new(self.functions@.len(), |i: int| self.functions@[i]@),
            n_data: self.n_data,
            data_segments: self.data_segments@,
            side_table: self.side_table@,
        }
    }
}

impl ModuleView {
    /// The module with nothing in it.
    pub open spec fn empty() -> ModuleView {
        ModuleView {
            types: Seq::empty(),
            imports: Seq::empty(),
            table: None,
            memory: None,
            globals: Seq::empty(),
            exports: Seq::empty(),
            start: NO_START,
            element_start: 0,
            element_count: 0,
            functions: Seq::empty(),
            n_data: 0,
            data_segments: Seq::empty(),
            side_table: Map::empty(),
        }
    }
}

/// Whether `bytes` is well-formed UTF-8.
///
/// Calls `core::str::from_utf8`, which accepts exactly the well-formed
/// UTF-8 sequences, and keeps only whether it succeeded.
#[verifier::external_body]
pub fn is_utf8(bytes: &[u8]) -> (r: bool)
    ensures
        r == valid_utf8(bytes@),
{
    core::str::from_utf8(bytes).is_ok()
}

/// The string that `bytes` encodes in UTF-8, if they are well formed.
///
/// Calls `String::from_utf8_lossy`, which decodes well-formed UTF-8
/// without change; the caller has checked that the bytes are well
/// formed.
#[verifier::external_body]
fn utf8_to_string(bytes: &[u8]) -> (r: String)
    requires
        valid_utf8(bytes@),
    ensures
        r@ == decode_utf8(bytes@),
{
    String::from_utf8_lossy(bytes).into_owned()
}

/// What reading a `u32` at `pos` returns.
pub open spec fn u32_spec(bytes: Seq<u8>, pos: int) -> Result<(u32, int), Error> {
    match unsigned_spec(bytes, pos, 32) {
        Ok((v, p)) => Ok((v as u32, p)),
        Err(e) => Err(e),
    }
}

/// What reading a byte at `pos` returns.
pub open spec fn u8_spec(bytes: Seq<u8>, pos: int) -> Result<(u8, int), Error> {
    if 0 <= pos < bytes.len() {
        Ok((bytes[pos], pos + 1))
    } else {
        Err(Error::Malformed(UNEXPECTED_END))
    }
}

/// What reading a length-prefixed UTF-8 name at `pos` returns.
pub open spec fn name_spec(bytes: Seq<u8>, pos: int) -> Result<(Seq<char>, int), Error> {
    match u32_spec(bytes, pos) {
        Err(e) => Err(e),
        Ok((len, p)) => if p + len > bytes.len() {
            Err(Error::Malformed(UNEXPECTED_END))
        } else if !valid_utf8(bytes.subrange(p, p + len)) {
            Err(Error::Malformed(INVALID_UTF8))
        } else {
            Ok((decode_utf8(bytes.subrange(p, p + len)), p + len))
        },
    }
}

/// A cursor that stands inside its input.
pub open spec fn cursor_ok(it: ByteIter) -> bool {
    it.idx <= it.bytes@.len()
}

/// Reads a `u32` at the cursor.
pub fn read_u32(it: &mut ByteIter) -> (r: Result<u32, Error>)
    requires
        cursor_ok(*old(it)),
    ensures
        final(it).bytes == old(it).bytes,
        cursor_ok(*final(it)),
        match u32_spec(old(it).bytes@, old(it).idx as int) {
            Ok((v, p)) => r == Ok::<u32, Error>(v) && final(it).idx == p,
            Err(e) => r == Err::<u32, Error>(e) && final(it).idx == old(it).idx,
        },
{
    let mut pos: usize = it.idx;
    proof {
        lemma2_to64_32();
        crate::leb128::lemma_group_len_positive(it.bytes@, it.idx as int);
    }
    match safe_read_leb128(it.bytes, &mut pos, 32) {
        Ok(v) => {
            it.idx = pos;
            Ok(v as u32)
        },
        Err(e) => Err(e),
    }
}

/// `2^32` and `2^1` as numbers.
pub proof fn lemma2_to64_32()
    ensures
        vstd::arithmetic::power2::pow2(32) == 0x1_0000_0000,
        vstd::arithmetic::power2::pow2(1) == 2,
{
    vstd::arithmetic::power2::lemma2_to64();
}

/// Reads a length-prefixed UTF-8 name at the cursor.
pub fn read_name(it: &mut ByteIter) -> (r: Result<String, Error>)
    requires
        cursor_ok(*old(it)),
    ensures
        final(it).bytes == old(it).bytes,
        cursor_ok(*final(it)),
        match name_spec(old(it).bytes@, old(it).idx as int) {
            Ok((s, p)) => r matches Ok(name) && name@ == s && final(it).idx == p,
            Err(e) => r == Err::<String, Error>(e),
        },
{
    let len: u32 = match read_u32(it) {
        Ok(v) => v,
        Err(e) => {
            return Err(e);
        },
    };
    let start: usize = it.idx;
    if len as usize > it.bytes.len() - start {
        return Err(Error::Malformed(UNEXPECTED_END));
    }
    let raw: &[u8] = slice_subrange(it.bytes, start, start + len as usize);
    if !is_utf8(raw) {
        return Err(Error::Malformed(INVALID_UTF8));
    }
    it.idx = start + len as usize;
    Ok(utf8_to_string(raw))
}

} // verus!
