//! Instantiation: a module is linked against imports, its segments are
//! applied, and the instance is registered.
//!
//! The start function is handed back as a machine that is ready to run;
//! the embedder runs it and reports how it ended.

use vstd::prelude::*;
use vstd::slice::slice_subrange;
use crate::error::{Error, UNEXPECTED_END, ELEM_SEG_DNF, FUNC_NO_IMPL};
use crate::instance::RuntimeFunction;
use crate::link_spec::{
    TableView,
    SlotWrite,
    DataWrite,
    table_views,
    handles_of,
    write_slot,
    apply_elements,
    apply_data,
};

use crate::semantics::mem_view;
use crate::store::{Store, table_handles, total_refs};
use crate::table::{FuncRef, owner_of};
use crate::value::WasmValue;

verus! {

/// Applies the writes of the element segments to table `t`; see
/// [`apply_elements`].
pub fn write_elements(
    store: &mut Store,
    writes: &Vec<SlotWrite>,
    functions: &Vec<RuntimeFunction>,
    id: u32,
    t: usize,
) -> (r: Result<(), Error>)
    requires
        old(store).wf(),
        t < old(store).tables@.len(),
    ensures
        final(store).wf(),
        final(store).memories == old(store).memories,
        final(store).globals == old(store).globals,
        final(store).tables@.len() == old(store).tables@.len(),
        final(store).manager.slots@.len() == old(store).manager.slots@.len(),
        match apply_elements(
            writes@,
            0,
            functions@,
            id,
            t as int,
            table_views(old(store).tables@),
            old(store).manager.slots@,
        ) {
            Ok((tables, slots)) => r is Ok && table_views(final(store).tables@) == tables && final(store).manager.slots@ == slots,
            Err(e) => r == Err::<(), Error>(e),
        },
{
    let mut i: usize = 0;
    while i < writes.len()
        invariant
            i <= writes@.len(),
            store.wf(),
            t < store.tables@.len(),
            store.memories == old(store).memories,
            store.globals == old(store).globals,
            store.tables@.len() == old(store).tables@.len(),
            store.manager.slots@.len() == old(store).manager.slots@.len(),
            apply_elements(
                writes@,
                0,
                functions@,
                id,
                t as int,
                table_views(old(store).tables@),
                old(store).manager.slots@,
            ) == apply_elements(
                writes@,
                i as nat,
                functions@,
                id,
                t as int,
                table_views(store.tables@),
                store.manager.slots@,
            ),
        decreases writes@.len() - i,
    {
        let w: SlotWrite = writes[i];
        if w.func_idx as usize >= functions.len() {
            return Err(Error::Trap(FUNC_NO_IMPL));
        }
        proof {
            store.tables@[t as int].lemma_wf();
        }
        if w.slot >= store.tables[t].size() {
            return Err(Error::Link(ELEM_SEG_DNF));
        }
        let f: RuntimeFunction = functions[w.func_idx as usize];
        let handle: FuncRef = match f {
            RuntimeFunction::ImportedWasm { owner, function_index, .. } => {
                if store.manager.get_instance(owner).is_some() {
                    FuncRef::new(owner, (function_index as u64 % 0x1_0000_0000) as u32)
                } else {
                    FuncRef::new(id, w.func_idx)
                }
            },
            _ => FuncRef::new(id, w.func_idx),
        };
        let ghost views = table_views(store.tables@);
        let ghost slots = store.manager.slots@;
        let ghost before = store.tables@[t as int]@[w.slot as int];
        let r = store.table_set(t, w.slot, WasmValue::from_u64(handle.as_raw()));
        proof {
            let after = table_views(store.tables@);
            assert(after =~= views.update(
                t as int,
                TableView {
                    handles: views[t as int].handles.update(w.slot as int, handle.handle),
                    ..views[t as int]
                },
            ));
            assert(handles_of(after) =~= table_handles(store.tables@));
            assert(store.manager.counts.count(owner_of(before)) == total_refs(
                table_handles(store.tables@),
                owner_of(before),
            ));
            assert((after, store.manager.slots@) == write_slot(
                views,
                slots,
                t as int,
                w.slot,
                handle.handle,
            ));
        }
        i = i + 1;
    }
    Ok(())
}

/// Applies the writes of the data segments to memory `m`; see
/// [`apply_data`].
pub fn write_data(store: &mut Store, bytes: &[u8], writes: &Vec<DataWrite>, m: usize) -> (r: Result<
    (),
    Error,
>)
    requires
        old(store).wf(),
        m < old(store).memories@.len(),
    ensures
        final(store).wf(),
        final(store).tables == old(store).tables,
        final(store).globals == old(store).globals,
        final(store).manager == old(store).manager,
        final(store).memories@.len() == old(store).memories@.len(),
        forall|k: int|
            0 <= k < old(store).memories@.len() && k != m ==> final(store).memories@[k] == old(store).memories@[k],
        match apply_data(bytes@, writes@, 0, mem_view(old(store).memories@[m as int])) {
            Ok(mem) => r is Ok && mem_view(final(store).memories@[m as int]) == mem,
            Err(e) => r == Err::<(), Error>(e),
        },
{
    let mut i: usize = 0;
    while i < writes.len()
        invariant
            i <= writes@.len(),
            store.wf(),
            m < store.memories@.len(),
            store.tables == old(store).tables,
            store.globals == old(store).globals,
            store.manager == old(store).manager,
            store.memories@.len() == old(store).memories@.len(),
            forall|k: int|
                0 <= k < old(store).memories@.len() && k != m ==> store.memories@[k] == old(store).memories@[k],
            apply_data(bytes@, writes@, 0, mem_view(old(store).memories@[m as int])) == apply_data(
                bytes@,
                writes@,
                i as nat,
                mem_view(store.memories@[m as int]),
            ),
        decreases writes@.len() - i,
    {
        let w: DataWrite = writes[i];
        if w.start > w.end || w.end > bytes.len() {
            return Err(Error::Malformed(UNEXPECTED_END));
        }
        let chunk: &[u8] = slice_subrange(bytes, w.start, w.end);
        match store.memories[m].write_bytes(w.offset, chunk) {
            Ok(()) => {},
            Err(msg) => {
                return Err(Error::Trap(msg));
            },
        }
        i = i + 1;
    }
    Ok(())
}

} // verus!
