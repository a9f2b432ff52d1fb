//! What instantiation does, step by step, as functions on the content of
//! the store.

use vstd::prelude::*;
use crate::error::{
    Error,
    UNEXPECTED_END,
    UNKNOWN_IMPORT,
    INCOMPATIBLE_IMPORT,
    ELEM_SEG_DNF,
    DATA_SEG_DNF,
    UNKNOWN_GLOBAL,
    CONST_EXP_REQUIRED,
    INVALID_VALUE_TYPE,
    STACK_UNDERFLOW,
    OOB_MEMORY_ACCESS,
    FUNC_NO_IMPL,
};
use crate::instance::{ExportValue, ImportItem, RuntimeFunction, WasmGlobal, lookup_spec};
use crate::leb128::{plain_unsigned_spec, plain_signed_spec, lemma_group_len_positive};
use crate::module::{
    DataSegment,
    ExportEntryView,
    ExternType,
    FunctionView,
    GlobalView,
    LimitsView,
    MAX_PAGES,
};
use crate::numeric::binary_spec;
use crate::semantics::MemView;
use crate::signature::RuntimeSignature;
use crate::store::{InstanceManager, Slot, total_refs};
use crate::table::{WasmTable, handle_of, owner_of};
use crate::value::{WasmValue, unsigned64};
use crate::wasm_memory::{le32, le64};

verus! {

/// The content of a table.
pub struct TableView {
    pub handles: Seq<u64>,
    pub size: u32,
    pub max: u32,
}

/// The content of a table.
pub open spec fn table_view(t: WasmTable) -> TableView {
    TableView { handles: t@, size: t.spec_size(), max: t.spec_max() }
}

/// The contents of the tables.
pub open spec fn table_views(ts: Seq<WasmTable>) -> Seq<TableView> {
    Seq::new(ts.len(), |i: int| table_view(ts[i]))
}

/// The handles of the tables.
pub open spec fn handles_of(ts: Seq<TableView>) -> Seq<Seq<u64>> {
    Seq::new(ts.len(), |i: int| ts[i].handles)
}

/// The memory of an instance: the imported memory, which must be at
/// least as large as declared and must not be allowed to grow beyond the
/// declared maximum, or a fresh zeroed memory behind the others.
pub open spec fn link_memory(decl: Option<LimitsView>, imports: Seq<ImportItem>, mems: Seq<MemView>) -> Result<
    (Seq<MemView>, Option<usize>),
    Error,
> {
    match decl {
        None => Ok((mems, None)),
        Some(l) => match l.import {
            Some(name) => match lookup_spec(imports, name.module, name.field, 0) {
                None => Err(Error::Link(UNKNOWN_IMPORT)),
                Some(ExportValue::Memory(i)) => if i >= mems.len() || mems[i as int].size < l.min
                    || mems[i as int].max > l.max {
                    Err(Error::Link(INCOMPATIBLE_IMPORT))
                } else {
                    Ok((mems, Some(i)))
                },
                Some(_) => Err(Error::Link(INCOMPATIBLE_IMPORT)),
            },
            None => Ok(
                (
                    mems.push(
                        MemView {
                            bytes: Seq::new(l.min as nat * 65536, |i: int| 0u8),
                            size: l.min,
                            max: if l.max < MAX_PAGES {
                                l.max
                            } else {
                                MAX_PAGES
                            },
                        },
                    ),
                    Some(mems.len() as usize),
                ),
            ),
        },
    }
}

/// The table of an instance: the imported table, under the same
/// conditions as a memory, or a fresh table of null slots behind the
/// others.
pub open spec fn link_table(decl: Option<LimitsView>, imports: Seq<ImportItem>, tables: Seq<TableView>) -> Result<
    (Seq<TableView>, Option<usize>),
    Error,
> {
    match decl {
        None => Ok((tables, None)),
        Some(l) => match l.import {
            Some(name) => match lookup_spec(imports, name.module, name.field, 0) {
                None => Err(Error::Link(UNKNOWN_IMPORT)),
                Some(ExportValue::Table(i)) => if i >= tables.len() || tables[i as int].size < l.min
                    || tables[i as int].max > l.max {
                    Err(Error::Link(INCOMPATIBLE_IMPORT))
                } else {
                    Ok((tables, Some(i)))
                },
                Some(_) => Err(Error::Link(INCOMPATIBLE_IMPORT)),
            },
            None => Ok(
                (
                    tables.push(
                        TableView {
                            handles: Seq::new(l.min as nat, |i: int| 0u64),
                            size: l.min,
                            max: l.max,
                        },
                    ),
                    Some(tables.len() as usize),
                ),
            ),
        },
    }
}

/// The memory and the table that linking resolves are in the store.
pub proof fn lemma_link_index(
    decl: Option<LimitsView>,
    imports: Seq<ImportItem>,
    mems: Seq<MemView>,
    tables: Seq<TableView>,
)
    ensures
        link_memory(decl, imports, mems) matches Ok((after, Some(m))) ==> m < after.len(),
        link_table(decl, imports, tables) matches Ok((after, Some(t))) ==> t < after.len(),
{
}

/// One function of an instance: the imported function, which must have
/// the packed signature of the declared type, or the function of the
/// module itself.
pub open spec fn link_function(f: FunctionView, imports: Seq<ImportItem>) -> Result<
    RuntimeFunction,
    Error,
> {
    match f.import {
        Some(name) => match lookup_spec(imports, name.module, name.field, 0) {
            None => Err(Error::Link(UNKNOWN_IMPORT)),
            Some(ExportValue::Function(g)) => if g.spec_signature()
                != RuntimeSignature::spec_from_signature(f.ty) {
                Err(Error::Link(INCOMPATIBLE_IMPORT))
            } else {
                Ok(g)
            },
            Some(_) => Err(Error::Link(INCOMPATIBLE_IMPORT)),
        },
        None => Ok(
            RuntimeFunction::OwnedWasm {
                runtime_sig: RuntimeSignature::spec_from_signature(f.ty),
                pc_start: f.body_start,
                locals_count: if f.locals.len() >= f.ty.params.len() {
                    (f.locals.len() - f.ty.params.len()) as usize
                } else {
                    0usize
                },
            },
        ),
    }
}

/// The functions of an instance from the `i`-th on, behind `acc`.
pub open spec fn link_functions(
    fs: Seq<FunctionView>,
    imports: Seq<ImportItem>,
    i: nat,
    acc: Seq<RuntimeFunction>,
) -> Result<Seq<RuntimeFunction>, Error>
    decreases fs.len() - i,
{
    if i >= fs.len() {
        Ok(acc)
    } else {
        match link_function(fs[i as int], imports) {
            Err(e) => Err(e),
            Ok(f) => link_functions(fs, imports, i + 1, acc.push(f)),
        }
    }
}

/// Linking resolves as many functions as the module has.
pub proof fn lemma_link_functions_len(
    fs: Seq<FunctionView>,
    imports: Seq<ImportItem>,
    i: nat,
    acc: Seq<RuntimeFunction>,
)
    requires
        i <= fs.len(),
        acc.len() == i,
    ensures
        link_functions(fs, imports, i, acc) matches Ok(all) ==> all.len() == fs.len(),
    decreases fs.len() - i,
{
    if i < fs.len() {
        match link_function(fs[i as int], imports) {
            Ok(f) => {
                lemma_link_functions_len(fs, imports, i + 1, acc.push(f));
            },
            Err(_) => {},
        }
    }
}

/// Whether every table has as many handles as its size says.
pub open spec fn tables_sized(tables: Seq<TableView>) -> bool {
    forall|i: int| 0 <= i < tables.len() ==> (#[trigger] tables[i]).handles.len() == tables[i].size
}

/// What one instruction of a constant expression leaves: the value of
/// the expression and the position after its `end`, or the stack and the
/// position to go on with.
pub enum Evaluated {
    Done(WasmValue, int),
    More(Seq<WasmValue>, int),
}

/// The value of the `const` instruction `op`, whose immediate stands at
/// `p`, and the position after it.
pub open spec fn const_value_spec(bytes: Seq<u8>, p: int, op: u8) -> Result<(WasmValue, int), Error> {
    if op == 0x41 || op == 0x42 {
        match plain_signed_spec(bytes, p) {
            Err(e) => Err(e),
            Ok((v, q)) => Ok(
                (
                    WasmValue(
                        if op == 0x41 {
                            (v % 0x1_0000_0000) as u64
                        } else {
                            unsigned64(v) as u64
                        },
                    ),
                    q,
                ),
            ),
        }
    } else if op == 0x43 {
        if p + 4 > bytes.len() {
            Err(Error::Malformed(UNEXPECTED_END))
        } else {
            Ok((WasmValue(le32(bytes, p) as u64), p + 4))
        }
    } else {
        if p + 8 > bytes.len() {
            Err(Error::Malformed(UNEXPECTED_END))
        } else {
            Ok((WasmValue(le64(bytes, p) as u64), p + 8))
        }
    }
}

/// The value of the global whose index stands at `p`, and the position
/// after the index.  `mine` are the globals of the instance that are
/// resolved so far, by their index in the store.
pub open spec fn global_value_spec(bytes: Seq<u8>, p: int, mine: Seq<usize>, globals: Seq<WasmGlobal>) -> Result<
    (WasmValue, int),
    Error,
> {
    match plain_unsigned_spec(bytes, p) {
        Err(e) => Err(e),
        Ok((gi, q)) => if gi % 0x1_0000_0000 >= mine.len() || mine[(gi % 0x1_0000_0000) as int]
            >= globals.len() {
            Err(Error::Validation(UNKNOWN_GLOBAL))
        } else {
            Ok((globals[mine[(gi % 0x1_0000_0000) as int] as int].value, q))
        },
    }
}

/// The stack after the binary instruction `op` has replaced the two
/// values on top by its result.
pub open spec fn fold_spec(stack: Seq<WasmValue>, op: u8) -> Result<Seq<WasmValue>, Error> {
    if stack.len() < 2 {
        Err(Error::Trap(STACK_UNDERFLOW))
    } else {
        match binary_spec(op, stack[stack.len() - 2].0, stack[stack.len() - 1].0) {
            Err(e) => Err(e),
            Ok(v) => Ok(stack.subrange(0, stack.len() - 2).push(WasmValue(v))),
        }
    }
}

/// One instruction of a constant expression at `pos`, on a stack that
/// holds `stack`: `end`, a `const` instruction, `global.get`, or `add`,
/// `sub` or `mul` on integers.
pub open spec fn eval_step_spec(
    bytes: Seq<u8>,
    pos: int,
    mine: Seq<usize>,
    globals: Seq<WasmGlobal>,
    stack: Seq<WasmValue>,
) -> Result<Evaluated, Error> {
    if pos < 0 || pos >= bytes.len() {
        Err(Error::Malformed(UNEXPECTED_END))
    } else {
        let op = bytes[pos];
        let p = pos + 1;
        if op == 0x0b {
            if stack.len() == 0 {
                Err(Error::Trap(STACK_UNDERFLOW))
            } else {
                Ok(Evaluated::Done(stack.last(), p))
            }
        } else if 0x41 <= op <= 0x44 {
            match const_value_spec(bytes, p, op) {
                Err(e) => Err(e),
                Ok((v, q)) => Ok(Evaluated::More(stack.push(v), q)),
            }
        } else if op == 0x23 {
            match global_value_spec(bytes, p, mine, globals) {
                Err(e) => Err(e),
                Ok((v, q)) => Ok(Evaluated::More(stack.push(v), q)),
            }
        } else if (0x6a <= op <= 0x6c) || (0x7c <= op <= 0x7e) {
            match fold_spec(stack, op) {
                Err(e) => Err(e),
                Ok(s) => Ok(Evaluated::More(s, p)),
            }
        } else {
            Err(Error::Validation(CONST_EXP_REQUIRED))
        }
    }
}

/// An instruction of a constant expression moves forward and stays
/// inside the input.
pub proof fn lemma_eval_step_bounds(
    bytes: Seq<u8>,
    pos: int,
    mine: Seq<usize>,
    globals: Seq<WasmGlobal>,
    stack: Seq<WasmValue>,
)
    ensures
        eval_step_spec(bytes, pos, mine, globals, stack) matches Ok(Evaluated::More(_, q)) ==> pos < q
            <= bytes.len(),
        eval_step_spec(bytes, pos, mine, globals, stack) matches Ok(Evaluated::Done(_, q)) ==> pos < q
            <= bytes.len(),
{
    lemma_group_len_positive(bytes, pos + 1);
}

/// The value of the constant expression at `pos`, on a stack that holds
/// `stack`, and the position after its `end`.
pub open spec fn eval_spec(
    bytes: Seq<u8>,
    pos: int,
    mine: Seq<usize>,
    globals: Seq<WasmGlobal>,
    stack: Seq<WasmValue>,
) -> Result<(WasmValue, int), Error>
    decreases bytes.len() - pos,
{
    match eval_step_spec(bytes, pos, mine, globals, stack) {
        Err(e) => Err(e),
        Ok(Evaluated::Done(v, p)) => Ok((v, p)),
        Ok(Evaluated::More(stack2, p)) => {
            proof {
                lemma_eval_step_bounds(bytes, pos, mine, globals, stack);
            }
            eval_spec(bytes, p, mine, globals, stack2)
        },
    }
}

/// One global of an instance: the imported global, which must have the
/// declared type and mutability, or a fresh global behind the others
/// with the value of its initializer.
pub open spec fn link_global(
    g: GlobalView,
    bytes: Seq<u8>,
    imports: Seq<ImportItem>,
    globals: Seq<WasmGlobal>,
    mine: Seq<usize>,
) -> Result<(Seq<WasmGlobal>, usize), Error> {
    match g.import {
        Some(name) => match lookup_spec(imports, name.module, name.field, 0) {
            None => Err(Error::Link(UNKNOWN_IMPORT)),
            Some(ExportValue::Global(i)) => if i >= globals.len() || globals[i as int].ty != g.ty
                || globals[i as int].mutable != g.is_mutable {
                Err(Error::Link(INCOMPATIBLE_IMPORT))
            } else {
                Ok((globals, i))
            },
            Some(_) => Err(Error::Link(INCOMPATIBLE_IMPORT)),
        },
        None => match eval_spec(bytes, g.initializer_offset as int, mine, globals, Seq::empty()) {
            Err(e) => Err(e),
            Ok((value, _)) => Ok(
                (
                    globals.push(WasmGlobal { ty: g.ty, mutable: g.is_mutable, value }),
                    globals.len() as usize,
                ),
            ),
        },
    }
}

/// The globals of an instance from the `i`-th on.
pub open spec fn link_globals(
    gs: Seq<GlobalView>,
    bytes: Seq<u8>,
    imports: Seq<ImportItem>,
    i: nat,
    globals: Seq<WasmGlobal>,
    mine: Seq<usize>,
) -> Result<(Seq<WasmGlobal>, Seq<usize>), Error>
    decreases gs.len() - i,
{
    if i >= gs.len() {
        Ok((globals, mine))
    } else {
        match link_global(gs[i as int], bytes, imports, globals, mine) {
            Err(e) => Err(e),
            Ok((globals2, index)) => link_globals(gs, bytes, imports, i + 1, globals2, mine.push(index)),
        }
    }
}

/// A write of an element segment: the table slot and the function index.
#[derive(Clone, Copy, Debug, PartialEq, Eq, Structural)]
pub struct SlotWrite {
    pub slot: u32,
    pub func_idx: u32,
}

/// The `n` function indices of an element segment from `pos`, as writes
/// to the slots from `slot` on, behind the writes `acc`.  Each index
/// must be that of one of the `count` functions of the instance.
pub open spec fn indices_spec(
    bytes: Seq<u8>,
    pos: int,
    n: nat,
    slot: int,
    count: nat,
    acc: Seq<SlotWrite>,
) -> Result<(Seq<SlotWrite>, int), Error>
    decreases n,
{
    if n == 0 {
        Ok((acc, pos))
    } else {
        match plain_unsigned_spec(bytes, pos) {
            Err(e) => Err(e),
            Ok((idx, p)) => if idx % 0x1_0000_0000 >= count {
                Err(Error::Trap(FUNC_NO_IMPL))
            } else {
                indices_spec(
                    bytes,
                    p,
                    (n - 1) as nat,
                    slot + 1,
                    count,
                    acc.push(SlotWrite { slot: slot as u32, func_idx: (idx % 0x1_0000_0000) as u32 }),
                )
            },
        }
    }
}

/// The writes of one element segment at `pos`: its flags must be zero,
/// its indices must fit the table of `size` slots from its offset on,
/// and each must be that of one of the `count` functions.
pub open spec fn element_spec(
    bytes: Seq<u8>,
    pos: int,
    mine: Seq<usize>,
    globals: Seq<WasmGlobal>,
    size: u32,
    count: nat,
    acc: Seq<SlotWrite>,
) -> Result<(Seq<SlotWrite>, int), Error> {
    match plain_unsigned_spec(bytes, pos) {
        Err(e) => Err(e),
        Ok((flags, p1)) => if flags % 0x1_0000_0000 != 0 {
            Err(Error::Malformed(INVALID_VALUE_TYPE))
        } else {
            match eval_spec(bytes, p1, mine, globals, Seq::empty()) {
                Err(e) => Err(e),
                Ok((offset, p2)) => match plain_unsigned_spec(bytes, p2) {
                    Err(e) => Err(e),
                    Ok((n, p3)) => if offset.spec_as_u32() + n % 0x1_0000_0000 > size {
                        Err(Error::Link(ELEM_SEG_DNF))
                    } else {
                        indices_spec(
                            bytes,
                            p3,
                            (n % 0x1_0000_0000) as nat,
                            offset.spec_as_u32() as int,
                            count,
                            acc,
                        )
                    },
                },
            }
        },
    }
}

/// The writes of `n` element segments from `pos`.
pub open spec fn elements_spec(
    bytes: Seq<u8>,
    pos: int,
    n: nat,
    mine: Seq<usize>,
    globals: Seq<WasmGlobal>,
    size: u32,
    count: nat,
    acc: Seq<SlotWrite>,
) -> Result<Seq<SlotWrite>, Error>
    decreases n,
{
    if n == 0 {
        Ok(acc)
    } else {
        match element_spec(bytes, pos, mine, globals, size, count, acc) {
            Err(e) => Err(e),
            Ok((acc2, p)) => elements_spec(bytes, p, (n - 1) as nat, mine, globals, size, count, acc2),
        }
    }
}

/// Whether every write is to one of the `size` slots of the table and
/// of one of the `count` functions.
pub open spec fn slot_writes_fit(writes: Seq<SlotWrite>, size: u32, count: nat) -> bool {
    forall|i: int| 0 <= i < writes.len() ==> (#[trigger] writes[i]).slot < size && writes[i].func_idx < count
}

/// The writes of function indices that are read fit, where those before
/// them do.
pub proof fn lemma_indices_fit(
    bytes: Seq<u8>,
    pos: int,
    n: nat,
    slot: int,
    size: u32,
    count: nat,
    acc: Seq<SlotWrite>,
)
    requires
        slot_writes_fit(acc, size, count),
        0 <= slot,
        slot + n <= size,
    ensures
        indices_spec(bytes, pos, n, slot, count, acc) matches Ok((writes, _)) ==> slot_writes_fit(
            writes,
            size,
            count,
        ),
    decreases n,
{
    if n > 0 {
        match plain_unsigned_spec(bytes, pos) {
            Ok((idx, p)) => {
                if idx % 0x1_0000_0000 < count {
                    let w = SlotWrite { slot: slot as u32, func_idx: (idx % 0x1_0000_0000) as u32 };
                    let acc2 = acc.push(w);
                    assert forall|i: int| 0 <= i < acc2.len() implies (#[trigger] acc2[i]).slot < size
                        && acc2[i].func_idx < count by {
                        if i < acc.len() {
                            assert(acc2[i] == acc[i]);
                        }
                    }
                    lemma_indices_fit(bytes, p, (n - 1) as nat, slot + 1, size, count, acc2);
                }
            },
            Err(_) => {},
        }
    }
}

/// The writes of element segments that are read fit, where those before
/// them do.
pub proof fn lemma_elements_fit(
    bytes: Seq<u8>,
    pos: int,
    n: nat,
    mine: Seq<usize>,
    globals: Seq<WasmGlobal>,
    size: u32,
    count: nat,
    acc: Seq<SlotWrite>,
)
    requires
        slot_writes_fit(acc, size, count),
    ensures
        elements_spec(bytes, pos, n, mine, globals, size, count, acc) matches Ok(writes)
            ==> slot_writes_fit(writes, size, count),
    decreases n,
{
    if n > 0 {
        match element_spec(bytes, pos, mine, globals, size, count, acc) {
            Ok((acc2, p)) => {
                let p1 = plain_unsigned_spec(bytes, pos)->Ok_0.1;
                let (offset, p2) = eval_spec(bytes, p1, mine, globals, Seq::empty())->Ok_0;
                let (k, p3) = plain_unsigned_spec(bytes, p2)->Ok_0;
                lemma_indices_fit(
                    bytes,
                    p3,
                    (k % 0x1_0000_0000) as nat,
                    offset.spec_as_u32() as int,
                    size,
                    count,
                    acc,
                );
                lemma_elements_fit(bytes, p, (n - 1) as nat, mine, globals, size, count, acc2);
            },
            Err(_) => {},
        }
    }
}

/// A write of a data segment: the bytes `[start, end)` of the binary go
/// to the memory at `offset`.
#[derive(Clone, Copy, Debug, PartialEq, Eq, Structural)]
pub struct DataWrite {
    pub offset: u32,
    pub start: usize,
    pub end: usize,
}

/// The writes of the data segments from the `i`-th on: each must lie in
/// the binary and fit the memory of `size` bytes.
pub open spec fn data_spec(
    bytes: Seq<u8>,
    segments: Seq<DataSegment>,
    i: nat,
    mine: Seq<usize>,
    globals: Seq<WasmGlobal>,
    size: nat,
    acc: Seq<DataWrite>,
) -> Result<Seq<DataWrite>, Error>
    decreases segments.len() - i,
{
    if i >= segments.len() {
        Ok(acc)
    } else {
        let seg = segments[i as int];
        match eval_spec(bytes, seg.initializer_offset as int, mine, globals, Seq::empty()) {
            Err(e) => Err(e),
            Ok((offset, _)) => if seg.data_start > seg.data_end || seg.data_end > bytes.len() {
                Err(Error::Malformed(UNEXPECTED_END))
            } else if offset.spec_as_u32() + (seg.data_end - seg.data_start) > size {
                Err(Error::Link(DATA_SEG_DNF))
            } else {
                data_spec(
                    bytes,
                    segments,
                    i + 1,
                    mine,
                    globals,
                    size,
                    acc.push(
                        DataWrite {
                            offset: offset.spec_as_u32(),
                            start: seg.data_start,
                            end: seg.data_end,
                        },
                    ),
                )
            },
        }
    }
}

/// The handle that an element segment writes for the function `f` with
/// the index `func_idx` of the instance `id`: a function of another
/// instance that the registry has is referred to in that instance, every
/// other function in the instance itself.
pub open spec fn element_handle(slots: Seq<Slot>, id: u32, f: RuntimeFunction, func_idx: u32) -> u64 {
    match f {
        RuntimeFunction::ImportedWasm { owner, function_index, .. } => if 1 <= owner <= slots.len()
            && slots[owner - 1].instance is Some {
            handle_of(owner, (function_index as int % 0x1_0000_0000) as u32)
        } else {
            handle_of(id, func_idx)
        },
        _ => handle_of(id, func_idx),
    }
}

/// The tables and the registry after the handle `h` has been written to
/// slot `idx` of table `t`: when the slot held the last reference to a
/// holdover, the holdover is let go.
pub open spec fn write_slot(tables: Seq<TableView>, slots: Seq<Slot>, t: int, idx: u32, h: u64) -> (
    Seq<TableView>,
    Seq<Slot>,
) {
    let before = tables[t].handles[idx as int];
    let after = tables.update(
        t,
        TableView { handles: tables[t].handles.update(idx as int, h), ..tables[t] },
    );
    (
        after,
        if before != 0 && total_refs(handles_of(after), owner_of(before)) == 0 {
            InstanceManager::swept(slots, owner_of(before))
        } else {
            slots
        },
    )
}

/// The tables and the registry after the writes from the `i`-th on have
/// been applied to table `t`.
pub open spec fn apply_elements(
    writes: Seq<SlotWrite>,
    i: nat,
    functions: Seq<RuntimeFunction>,
    id: u32,
    t: int,
    tables: Seq<TableView>,
    slots: Seq<Slot>,
) -> Result<(Seq<TableView>, Seq<Slot>), Error>
    decreases writes.len() - i,
{
    if i >= writes.len() {
        Ok((tables, slots))
    } else {
        let w = writes[i as int];
        if w.func_idx >= functions.len() {
            Err(Error::Trap(FUNC_NO_IMPL))
        } else if w.slot >= tables[t].size || w.slot >= tables[t].handles.len() {
            Err(Error::Link(ELEM_SEG_DNF))
        } else {
            let h = element_handle(slots, id, functions[w.func_idx as int], w.func_idx);
            let (tables2, slots2) = write_slot(tables, slots, t, w.slot, h);
            apply_elements(writes, i + 1, functions, id, t, tables2, slots2)
        }
    }
}

/// The memory after the writes from the `i`-th on have been applied.
pub open spec fn apply_data(bytes: Seq<u8>, writes: Seq<DataWrite>, i: nat, mem: MemView) -> Result<
    MemView,
    Error,
>
    decreases writes.len() - i,
{
    if i >= writes.len() {
        Ok(mem)
    } else {
        let w = writes[i as int];
        if w.start > w.end || w.end > bytes.len() {
            Err(Error::Malformed(UNEXPECTED_END))
        } else if w.offset + (w.end - w.start) > mem.bytes.len() {
            Err(Error::Trap(OOB_MEMORY_ACCESS))
        } else {
            apply_data(
                bytes,
                writes,
                i + 1,
                MemView {
                    bytes: mem.bytes.subrange(0, w.offset as int) + bytes.subrange(
                        w.start as int,
                        w.end as int,
                    ) + mem.bytes.subrange(w.offset + (w.end - w.start), mem.bytes.len() as int),
                    ..mem
                },
            )
        }
    }
}

/// Writes that fit are applied without an error, and leave every table
/// with its size.
pub proof fn lemma_elements_apply(
    writes: Seq<SlotWrite>,
    i: nat,
    functions: Seq<RuntimeFunction>,
    id: u32,
    t: int,
    tables: Seq<TableView>,
    slots: Seq<Slot>,
)
    requires
        0 <= t < tables.len(),
        tables[t].handles.len() == tables[t].size,
        slot_writes_fit(writes, tables[t].size, functions.len()),
    ensures
        apply_elements(writes, i, functions, id, t, tables, slots) is Ok,
    decreases writes.len() - i,
{
    if i < writes.len() {
        let w = writes[i as int];
        let h = element_handle(slots, id, functions[w.func_idx as int], w.func_idx);
        let (tables2, slots2) = write_slot(tables, slots, t, w.slot, h);
        lemma_elements_apply(writes, i + 1, functions, id, t, tables2, slots2);
    }
}

/// Whether every write lies in the binary of `len` bytes and goes to
/// the memory of `size` bytes.
pub open spec fn data_writes_fit(writes: Seq<DataWrite>, len: nat, size: nat) -> bool {
    forall|i: int|
        0 <= i < writes.len() ==> (#[trigger] writes[i]).start <= writes[i].end <= len && writes[i].offset
            + (writes[i].end - writes[i].start) <= size
}

/// The writes of data segments that are read fit, where those before
/// them do.
pub proof fn lemma_data_fit(
    bytes: Seq<u8>,
    segments: Seq<DataSegment>,
    i: nat,
    mine: Seq<usize>,
    globals: Seq<WasmGlobal>,
    size: nat,
    acc: Seq<DataWrite>,
)
    requires
        data_writes_fit(acc, bytes.len(), size),
    ensures
        data_spec(bytes, segments, i, mine, globals, size, acc) matches Ok(writes) ==> data_writes_fit(
            writes,
            bytes.len(),
            size,
        ),
    decreases segments.len() - i,
{
    if i < segments.len() {
        let seg = segments[i as int];
        match eval_spec(bytes, seg.initializer_offset as int, mine, globals, Seq::empty()) {
            Ok((offset, _)) => {
                if !(seg.data_start > seg.data_end || seg.data_end > bytes.len()) && !(
                offset.spec_as_u32() + (seg.data_end - seg.data_start) > size) {
                    let w = DataWrite {
                        offset: offset.spec_as_u32(),
                        start: seg.data_start,
                        end: seg.data_end,
                    };
                    let acc2 = acc.push(w);
                    assert forall|k: int| 0 <= k < acc2.len() implies (#[trigger] acc2[k]).start
                        <= acc2[k].end <= bytes.len() && acc2[k].offset + (acc2[k].end - acc2[k].start)
                        <= size by {
                        if k < acc.len() {
                            assert(acc2[k] == acc[k]);
                        }
                    }
                    lemma_data_fit(bytes, segments, i + 1, mine, globals, size, acc2);
                }
            },
            Err(_) => {},
        }
    }
}

/// Writes that fit are applied without an error.
pub proof fn lemma_data_apply(bytes: Seq<u8>, writes: Seq<DataWrite>, i: nat, mem: MemView)
    requires
        data_writes_fit(writes, bytes.len(), mem.bytes.len()),
    ensures
        apply_data(bytes, writes, i, mem) is Ok,
    decreases writes.len() - i,
{
    if i < writes.len() {
        let w = writes[i as int];
        let next = MemView {
            bytes: mem.bytes.subrange(0, w.offset as int) + bytes.subrange(w.start as int, w.end as int)
                + mem.bytes.subrange(w.offset + (w.end - w.start), mem.bytes.len() as int),
            ..mem
        };
        assert(next.bytes.len() == mem.bytes.len());
        lemma_data_apply(bytes, writes, i + 1, next);
    }
}

/// What an export of the module stands for in the instance, if
/// anything.
pub open spec fn export_value(
    e: ExportEntryView,
    functions: Seq<RuntimeFunction>,
    table: Option<usize>,
    memory: Option<usize>,
    mine: Seq<usize>,
) -> Option<ExportValue> {
    match e.export.extern_type {
        ExternType::Func => if e.export.idx < functions.len() {
            Some(ExportValue::Function(functions[e.export.idx as int]))
        } else {
            None
        },
        ExternType::Table => match table {
            Some(t) => Some(ExportValue::Table(t)),
            None => None,
        },
        ExternType::Mem => match memory {
            Some(m) => Some(ExportValue::Memory(m)),
            None => None,
        },
        ExternType::Global => if e.export.idx < mine.len() {
            Some(ExportValue::Global(mine[e.export.idx as int]))
        } else {
            None
        },
    }
}

} // verus!
