//! The steps of instantiation, each proved to do what
//! [`crate::link_spec`] says.

use vstd::prelude::*;
use crate::error::{
    Error,
    UNEXPECTED_END,
    UNKNOWN_IMPORT,
    INCOMPATIBLE_IMPORT,
    ELEM_SEG_DNF,
    DATA_SEG_DNF,
    UNKNOWN_GLOBAL,
    CONST_EXP_REQUIRED,
    INVALID_VALUE_TYPE,
    STACK_UNDERFLOW,
    FUNC_NO_IMPL,
};
use crate::body::function_views;
use crate::const_expr::global_views;
use crate::instance::{ExportItem, ExportValue, ImportItem, RuntimeFunction, WasmGlobal, lookup};
use crate::leb128::{read_leb128, read_sleb128, lemma_group_len_positive};
use crate::link_spec::{
    SlotWrite,
    DataWrite,
    table_view,
    table_views,
    link_memory,
    link_table,
    link_function,
    link_functions,
    eval_spec,
    eval_step_spec,
    const_value_spec,
    global_value_spec,
    fold_spec,
    lemma_eval_step_bounds,
    Evaluated,
    link_globals,
    indices_spec,
    elements_spec,
    data_spec,
    export_value,
};
use crate::module::{
    DataSegment,
    ExportEntry,
    ExternType,
    Function,
    Global,
    Memory,
    Table,
    memory_view,
    table_view as table_decl_view,
};
use crate::numeric::binary;
use crate::semantics::{mem_view, mem_views};
use crate::signature::RuntimeSignature;
use crate::store::Store;
use crate::table::WasmTable;
use crate::value::{WasmValue, i64_to_u64};
use crate::wasm_memory::{WasmMemory, le32};

verus! {

/// The number that the four bytes at `p` encode, least significant
/// byte first.
fn read_le32(bytes: &[u8], p: usize) -> (v: u64)
    requires
        p + 4 <= bytes@.len(),
    ensures
        v == le32(bytes@, p as int),
{
    bytes[p] as u64 + (bytes[p + 1] as u64) * 0x100 + (bytes[p + 2] as u64) * 0x1_0000 + (bytes[p
        + 3] as u64) * 0x100_0000
}

/// The value of a `const` instruction; see [`const_value_spec`].
fn const_value(bytes: &[u8], p: &mut usize, op: u8) -> (r: Result<WasmValue, Error>)
    requires
        0x41 <= op <= 0x44,
        *old(p) <= bytes@.len(),
    ensures
        match const_value_spec(bytes@, *old(p) as int, op) {
            Ok((v, q)) => r == Ok::<WasmValue, Error>(v) && *final(p) == q,
            Err(e) => r == Err::<WasmValue, Error>(e),
        },
{
    let total: usize = bytes.len();
    let at: usize = *p;
    if op == 0x41 || op == 0x42 {
        proof {
            lemma_group_len_positive(bytes@, at as int);
        }
        let v: i64 = read_sleb128(bytes, p)?;
        let raw: u64 = i64_to_u64(v);
        Ok(WasmValue(if op == 0x41 { raw % 0x1_0000_0000 } else { raw }))
    } else if op == 0x43 {
        if 4 > total - at {
            return Err(Error::Malformed(UNEXPECTED_END));
        }
        *p = at + 4;
        Ok(WasmValue(read_le32(bytes, at)))
    } else {
        if 8 > total - at {
            return Err(Error::Malformed(UNEXPECTED_END));
        }
        let lo: u64 = read_le32(bytes, at);
        let hi: u64 = read_le32(bytes, at + 4);
        *p = at + 8;
        Ok(WasmValue(lo + hi * 0x1_0000_0000))
    }
}

/// The value of a global; see [`global_value_spec`].
fn global_value(bytes: &[u8], p: &mut usize, mine: &Vec<usize>, globals: &Vec<WasmGlobal>) -> (r: Result<
    WasmValue,
    Error,
>)
    ensures
        match global_value_spec(bytes@, *old(p) as int, mine@, globals@) {
            Ok((v, q)) => r == Ok::<WasmValue, Error>(v) && *final(p) == q,
            Err(e) => r == Err::<WasmValue, Error>(e),
        },
{
    proof {
        lemma_group_len_positive(bytes@, *p as int);
    }
    let gi: u64 = read_leb128(bytes, p)? % 0x1_0000_0000;
    if gi >= mine.len() as u64 {
        return Err(Error::Validation(UNKNOWN_GLOBAL));
    }
    let g: usize = mine[gi as usize];
    if g >= globals.len() {
        return Err(Error::Validation(UNKNOWN_GLOBAL));
    }
    Ok(globals[g].value)
}

/// The binary instruction `op` on the two values on top of the stack;
/// see [`fold_spec`].
fn fold_binary(stack: &mut Vec<WasmValue>, op: u8) -> (r: Result<(), Error>)
    requires
        (0x6a <= op <= 0x6c) || (0x7c <= op <= 0x7e),
    ensures
        match fold_spec(old(stack)@, op) {
            Ok(s) => r is Ok && final(stack)@ == s,
            Err(e) => r == Err::<(), Error>(e),
        },
{
    let n: usize = stack.len();
    if n < 2 {
        return Err(Error::Trap(STACK_UNDERFLOW));
    }
    let a: WasmValue = stack[n - 2];
    let b: WasmValue = stack[n - 1];
    let v: u64 = binary(op, a.0, b.0)?;
    stack.truncate(n - 2);
    stack.push(WasmValue(v));
    Ok(())
}

/// One instruction of a constant expression; see [`eval_step_spec`].
/// Returns the value when the expression has ended.
fn eval_step(
    bytes: &[u8],
    pc: &mut usize,
    mine: &Vec<usize>,
    globals: &Vec<WasmGlobal>,
    stack: &mut Vec<WasmValue>,
) -> (r: Result<Option<WasmValue>, Error>)
    ensures
        match eval_step_spec(bytes@, *old(pc) as int, mine@, globals@, old(stack)@) {
            Ok(Evaluated::Done(v, p)) => r == Ok::<Option<WasmValue>, Error>(Some(v)) && *final(pc)
                == p,
            Ok(Evaluated::More(s, p)) => r == Ok::<Option<WasmValue>, Error>(None) && *final(pc) == p
                && final(stack)@ == s,
            Err(e) => r == Err::<Option<WasmValue>, Error>(e),
        },
{
    let pos: usize = *pc;
    if pos >= bytes.len() {
        return Err(Error::Malformed(UNEXPECTED_END));
    }
    let op: u8 = bytes[pos];
    let mut p: usize = pos + 1;
    if op == 0x0b {
        let n: usize = stack.len();
        if n == 0 {
            return Err(Error::Trap(STACK_UNDERFLOW));
        }
        *pc = p;
        return Ok(Some(stack[n - 1]));
    } else if 0x41 <= op && op <= 0x44 {
        let v: WasmValue = const_value(bytes, &mut p, op)?;
        stack.push(v);
    } else if op == 0x23 {
        let v: WasmValue = global_value(bytes, &mut p, mine, globals)?;
        stack.push(v);
    } else if (0x6a <= op && op <= 0x6c) || (0x7c <= op && op <= 0x7e) {
        fold_binary(stack, op)?;
    } else {
        return Err(Error::Validation(CONST_EXP_REQUIRED));
    }
    *pc = p;
    Ok(None)
}

/// Evaluates the constant expression at `*pc`; see [`eval_spec`].
pub fn eval_const(bytes: &[u8], pc: &mut usize, mine: &Vec<usize>, globals: &Vec<WasmGlobal>) -> (r:
    Result<WasmValue, Error>)
    ensures
        match eval_spec(bytes@, *old(pc) as int, mine@, globals@, Seq::empty()) {
            Ok((v, p)) => r == Ok::<WasmValue, Error>(v) && *final(pc) == p,
            Err(e) => r == Err::<WasmValue, Error>(e),
        },
{
    let mut stack: Vec<WasmValue> = Vec::new();
    loop
        invariant
            eval_spec(bytes@, *old(pc) as int, mine@, globals@, Seq::empty()) == eval_spec(
                bytes@,
                *pc as int,
                mine@,
                globals@,
                stack@,
            ),
        decreases bytes@.len() - *pc,
    {
        proof {
            lemma_eval_step_bounds(bytes@, *pc as int, mine@, globals@, stack@);
        }
        match eval_step(bytes, pc, mine, globals, &mut stack)? {
            Some(v) => {
                return Ok(v);
            },
            None => {},
        }
    }
}

/// Whether a fresh memory of the declared size can be addressed on this
/// machine.
pub open spec fn memory_fits(decl: Option<Memory>) -> bool {
    decl matches Some(m) ==> m.import is Some || m.min as nat * 65536 <= usize::MAX
}

/// The store with the objects from before and possibly more behind
/// them.
pub open spec fn grown(before: Store, after: Store) -> bool {
    &&& before.memories@.len() <= after.memories@.len()
    &&& before.tables@.len() <= after.tables@.len()
    &&& before.globals@.len() <= after.globals@.len()
    &&& forall|i: int| 0 <= i < before.memories@.len() ==> after.memories@[i] == before.memories@[i]
    &&& forall|i: int| 0 <= i < before.tables@.len() ==> after.tables@[i] == before.tables@[i]
    &&& forall|i: int| 0 <= i < before.globals@.len() ==> after.globals@[i] == before.globals@[i]
}

/// Resolves the memory of an instance; see [`link_memory`].
pub fn resolve_memory(store: &mut Store, decl: &Option<Memory>, imports: &Vec<ImportItem>) -> (r: Result<
    Option<usize>,
    Error,
>)
    requires
        old(store).wf(),
        memory_fits(*decl),
    ensures
        final(store).wf(),
        final(store).tables == old(store).tables,
        final(store).globals == old(store).globals,
        final(store).manager == old(store).manager,
        grown(*old(store), *final(store)),
        match link_memory(memory_view(*decl), imports@, mem_views(old(store).memories@)) {
            Ok((mems, index)) => r == Ok::<Option<usize>, Error>(index) && mem_views(
                final(store).memories@,
            ) == mems,
            Err(e) => r == Err::<Option<usize>, Error>(e) && final(store).memories == old(store).memories,
        },
{
    match decl {
        None => Ok(None),
        Some(m) => match &m.import {
            Some(name) => match lookup(imports, &name.module, &name.field) {
                None => Err(Error::Link(UNKNOWN_IMPORT)),
                Some(ExportValue::Memory(i)) => {
                    if i >= store.memories.len() {
                        return Err(Error::Link(INCOMPATIBLE_IMPORT));
                    }
                    if store.memories[i].size() < m.min || store.memories[i].max() > m.max {
                        return Err(Error::Link(INCOMPATIBLE_IMPORT));
                    }
                    Ok(Some(i))
                },
                Some(_) => Err(Error::Link(INCOMPATIBLE_IMPORT)),
            },
            None => {
                let ghost before = mem_views(store.memories@);
                let fresh = WasmMemory::new(m.min, m.max);
                let i: usize = store.add_memory(fresh);
                assert(mem_views(store.memories@) =~= before.push(mem_view(fresh)));
                Ok(Some(i))
            },
        },
    }
}

/// Resolves the table of an instance; see [`link_table`].
pub fn resolve_table(store: &mut Store, decl: &Option<Table>, imports: &Vec<ImportItem>) -> (r: Result<
    Option<usize>,
    Error,
>)
    requires
        old(store).wf(),
    ensures
        final(store).wf(),
        final(store).memories == old(store).memories,
        final(store).globals == old(store).globals,
        final(store).manager == old(store).manager,
        grown(*old(store), *final(store)),
        match link_table(table_decl_view(*decl), imports@, table_views(old(store).tables@)) {
            Ok((tables, index)) => r == Ok::<Option<usize>, Error>(index) && table_views(
                final(store).tables@,
            ) == tables,
            Err(e) => r == Err::<Option<usize>, Error>(e) && final(store).tables == old(store).tables,
        },
{
    match decl {
        None => Ok(None),
        Some(t) => match &t.import {
            Some(name) => match lookup(imports, &name.module, &name.field) {
                None => Err(Error::Link(UNKNOWN_IMPORT)),
                Some(ExportValue::Table(i)) => {
                    if i >= store.tables.len() {
                        return Err(Error::Link(INCOMPATIBLE_IMPORT));
                    }
                    if store.tables[i].size() < t.min || store.tables[i].max() > t.max {
                        return Err(Error::Link(INCOMPATIBLE_IMPORT));
                    }
                    Ok(Some(i))
                },
                Some(_) => Err(Error::Link(INCOMPATIBLE_IMPORT)),
            },
            None => {
                let ghost before = table_views(store.tables@);
                let fresh = WasmTable::new(t.min, t.max);
                let i: usize = store.add_table(fresh);
                assert(table_views(store.tables@) =~= before.push(table_view(fresh)));
                Ok(Some(i))
            },
        },
    }
}

/// Resolves one function of an instance; see [`link_function`].
pub fn resolve_function_decl(f: &Function, imports: &Vec<ImportItem>) -> (r: Result<
    RuntimeFunction,
    Error,
>)
    ensures
        r == link_function(f@, imports@),
{
    let runtime_sig: RuntimeSignature = RuntimeSignature::from_signature(&f.ty);
    match &f.import {
        Some(name) => match lookup(imports, &name.module, &name.field) {
            None => Err(Error::Link(UNKNOWN_IMPORT)),
            Some(ExportValue::Function(g)) => {
                if g.signature() != runtime_sig {
                    return Err(Error::Link(INCOMPATIBLE_IMPORT));
                }
                Ok(g)
            },
            Some(_) => Err(Error::Link(INCOMPATIBLE_IMPORT)),
        },
        None => {
            let locals_count: usize = if f.locals.len() >= f.ty.params.len() {
                f.locals.len() - f.ty.params.len()
            } else {
                0
            };
            Ok(RuntimeFunction::OwnedWasm { runtime_sig, pc_start: f.body_start, locals_count })
        },
    }
}

/// Resolves the functions of an instance; see [`link_functions`].
pub fn resolve_functions(functions: &Vec<Function>, imports: &Vec<ImportItem>) -> (r: Result<
    Vec<RuntimeFunction>,
    Error,
>)
    ensures
        match link_functions(function_views(functions@), imports@, 0, Seq::empty()) {
            Ok(fs) => r matches Ok(v) && v@ == fs,
            Err(e) => r matches Err(err) && err == e,
        },
{
    let mut out: Vec<RuntimeFunction> = Vec::new();
    let mut i: usize = 0;
    while i < functions.len()
        invariant
            i <= functions@.len(),
            link_functions(function_views(functions@), imports@, 0, Seq::empty()) == link_functions(
                function_views(functions@),
                imports@,
                i as nat,
                out@,
            ),
        decreases functions@.len() - i,
    {
        let f: RuntimeFunction = resolve_function_decl(&functions[i], imports)?;
        out.push(f);
        i = i + 1;
    }
    Ok(out)
}

/// Resolves the globals of an instance; see [`link_globals`].
pub fn resolve_globals(store: &mut Store, globals: &Vec<Global>, bytes: &[u8], imports: &Vec<ImportItem>) -> (r:
    Result<Vec<usize>, Error>)
    requires
        old(store).wf(),
    ensures
        final(store).wf(),
        final(store).memories == old(store).memories,
        final(store).tables == old(store).tables,
        final(store).manager == old(store).manager,
        grown(*old(store), *final(store)),
        match link_globals(
            global_views(globals@),
            bytes@,
            imports@,
            0,
            old(store).globals@,
            Seq::empty(),
        ) {
            Ok((all, mine)) => (r matches Ok(v) && v@ == mine) && final(store).globals@ == all,
            Err(e) => r matches Err(err) && err == e,
        },
{
    let mut mine: Vec<usize> = Vec::new();
    let mut i: usize = 0;
    while i < globals.len()
        invariant
            i <= globals@.len(),
            store.wf(),
            store.memories == old(store).memories,
            store.tables == old(store).tables,
            store.manager == old(store).manager,
            grown(*old(store), *store),
            link_globals(
                global_views(globals@),
                bytes@,
                imports@,
                0,
                old(store).globals@,
                Seq::empty(),
            ) == link_globals(global_views(globals@), bytes@, imports@, i as nat, store.globals@, mine@),
        decreases globals@.len() - i,
    {
        let g: &Global = &globals[i];
        let index: usize = match &g.import {
            Some(name) => match lookup(imports, &name.module, &name.field) {
                None => {
                    return Err(Error::Link(UNKNOWN_IMPORT));
                },
                Some(ExportValue::Global(k)) => {
                    if k >= store.globals.len() {
                        return Err(Error::Link(INCOMPATIBLE_IMPORT));
                    }
                    if store.globals[k].ty != g.ty || store.globals[k].mutable != g.is_mutable {
                        return Err(Error::Link(INCOMPATIBLE_IMPORT));
                    }
                    k
                },
                Some(_) => {
                    return Err(Error::Link(INCOMPATIBLE_IMPORT));
                },
            },
            None => {
                let mut pc: usize = g.initializer_offset;
                let value: WasmValue = eval_const(bytes, &mut pc, &mine, &store.globals)?;
                store.add_global(WasmGlobal { ty: g.ty, mutable: g.is_mutable, value })
            },
        };
        mine.push(index);
        i = i + 1;
    }
    Ok(mine)
}

/// Reads the writes of the element segments; see [`elements_spec`].
#[verifier::loop_isolation(false)]
pub fn collect_elements(
    bytes: &[u8],
    start: usize,
    count: u32,
    mine: &Vec<usize>,
    globals: &Vec<WasmGlobal>,
    size: u32,
    functions: usize,
) -> (r: Result<Vec<SlotWrite>, Error>)
    ensures
        match elements_spec(
            bytes@,
            start as int,
            count as nat,
            mine@,
            globals@,
            size,
            functions as nat,
            Seq::empty(),
        ) {
            Ok(writes) => r matches Ok(v) && v@ == writes,
            Err(e) => r matches Err(err) && err == e,
        },
{
    let mut writes: Vec<SlotWrite> = Vec::new();
    let mut pc: usize = start;
    let mut i: u32 = 0;
    while i < count
        invariant
            i <= count,
            elements_spec(
                bytes@,
                start as int,
                count as nat,
                mine@,
                globals@,
                size,
                functions as nat,
                Seq::empty(),
            ) == elements_spec(
                bytes@,
                pc as int,
                (count - i) as nat,
                mine@,
                globals@,
                size,
                functions as nat,
                writes@,
            ),
        decreases count - i,
    {
        proof {
            lemma_group_len_positive(bytes@, pc as int);
        }
        let flags: u64 = read_leb128(bytes, &mut pc)? % 0x1_0000_0000;
        if flags != 0 {
            return Err(Error::Malformed(INVALID_VALUE_TYPE));
        }
        let offset: u32 = eval_const(bytes, &mut pc, mine, globals)?.as_u32();
        proof {
            lemma_group_len_positive(bytes@, pc as int);
        }
        let n: u64 = read_leb128(bytes, &mut pc)? % 0x1_0000_0000;
        if offset as u64 + n > size as u64 {
            return Err(Error::Link(ELEM_SEG_DNF));
        }
        let ghost p3 = pc as int;
        let ghost acc0 = writes@;
        let mut k: u64 = 0;
        while k < n
            invariant
                k <= n,
                offset + n <= size,
                indices_spec(bytes@, p3, n as nat, offset as int, functions as nat, acc0)
                    == indices_spec(
                    bytes@,
                    pc as int,
                    (n - k) as nat,
                    offset + k,
                    functions as nat,
                    writes@,
                ),
            decreases n - k,
        {
            proof {
                lemma_group_len_positive(bytes@, pc as int);
            }
            let idx: u64 = read_leb128(bytes, &mut pc)? % 0x1_0000_0000;
            if idx >= functions as u64 {
                return Err(Error::Trap(FUNC_NO_IMPL));
            }
            writes.push(SlotWrite { slot: (offset as u64 + k) as u32, func_idx: idx as u32 });
            k = k + 1;
        }
        i = i + 1;
    }
    Ok(writes)
}

/// Reads the writes of the data segments; see [`data_spec`].
pub fn collect_data(
    bytes: &[u8],
    segments: &Vec<DataSegment>,
    mine: &Vec<usize>,
    globals: &Vec<WasmGlobal>,
    size: usize,
) -> (r: Result<Vec<DataWrite>, Error>)
    ensures
        match data_spec(bytes@, segments@, 0, mine@, globals@, size as nat, Seq::empty()) {
            Ok(writes) => r matches Ok(v) && v@ == writes,
            Err(e) => r matches Err(err) && err == e,
        },
{
    let mut writes: Vec<DataWrite> = Vec::new();
    let mut i: usize = 0;
    while i < segments.len()
        invariant
            i <= segments@.len(),
            data_spec(bytes@, segments@, 0, mine@, globals@, size as nat, Seq::empty()) == data_spec(
                bytes@,
                segments@,
                i as nat,
                mine@,
                globals@,
                size as nat,
                writes@,
            ),
        decreases segments@.len() - i,
    {
        let seg: DataSegment = segments[i];
        let mut pc: usize = seg.initializer_offset;
        let offset: u32 = eval_const(bytes, &mut pc, mine, globals)?.as_u32();
        if seg.data_start > seg.data_end || seg.data_end > bytes.len() {
            return Err(Error::Malformed(UNEXPECTED_END));
        }
        let len: usize = seg.data_end - seg.data_start;
        if offset as usize > size || len > size - offset as usize {
            return Err(Error::Link(DATA_SEG_DNF));
        }
        writes.push(DataWrite { offset, start: seg.data_start, end: seg.data_end });
        i = i + 1;
    }
    Ok(writes)
}

/// The exports of an instance, in the order of the module's export
/// section; see [`export_value`].  An export that stands for nothing is
/// left out.
pub open spec fn exports_spec(
    entries: Seq<ExportEntry>,
    i: nat,
    functions: Seq<RuntimeFunction>,
    table: Option<usize>,
    memory: Option<usize>,
    mine: Seq<usize>,
    acc: Seq<(Seq<char>, ExportValue)>,
) -> Seq<(Seq<char>, ExportValue)>
    decreases entries.len() - i,
{
    if i >= entries.len() {
        acc
    } else {
        exports_spec(
            entries,
            i + 1,
            functions,
            table,
            memory,
            mine,
            match export_value(entries[i as int]@, functions, table, memory, mine) {
                Some(v) => acc.push((entries[i as int].name@, v)),
                None => acc,
            },
        )
    }
}

/// The names and values of export items.
pub open spec fn export_items(items: Seq<ExportItem>) -> Seq<(Seq<char>, ExportValue)> {
    Seq::new(items.len(), |i: int| (items[i].name@, items[i].value))
}

/// Builds the exports of an instance; see [`exports_spec`].
pub fn build_exports(
    entries: &Vec<ExportEntry>,
    functions: &Vec<RuntimeFunction>,
    table: Option<usize>,
    memory: Option<usize>,
    mine: &Vec<usize>,
) -> (r: Vec<ExportItem>)
    ensures
        export_items(r@) == exports_spec(entries@, 0, functions@, table, memory, mine@, Seq::empty()),
{
    let mut out: Vec<ExportItem> = Vec::new();
    let mut i: usize = 0;
    assert(export_items(out@) =~= Seq::empty());
    while i < entries.len()
        invariant
            i <= entries@.len(),
            exports_spec(entries@, 0, functions@, table, memory, mine@, Seq::empty()) == exports_spec(
                entries@,
                i as nat,
                functions@,
                table,
                memory,
                mine@,
                export_items(out@),
            ),
        decreases entries@.len() - i,
    {
        let e: &ExportEntry = &entries[i];
        let idx: usize = e.export.idx as usize;
        let value: Option<ExportValue> = match e.export.extern_type {
            ExternType::Func => if idx < functions.len() {
                Some(ExportValue::Function(functions[idx]))
            } else {
                None
            },
            ExternType::Table => match table {
                Some(t) => Some(ExportValue::Table(t)),
                None => None,
            },
            ExternType::Mem => match memory {
                Some(m) => Some(ExportValue::Memory(m)),
                None => None,
            },
            ExternType::Global => if idx < mine.len() {
                Some(ExportValue::Global(mine[idx]))
            } else {
                None
            },
        };
        match value {
            Some(v) => {
                let ghost before = export_items(out@);
                let item = ExportItem { name: e.name.clone(), value: v };
                out.push(item);
                assert(export_items(out@) =~= before.push((e.name@, v)));
            },
            None => {},
        }
        i = i + 1;
    }
    out
}

} // verus!
