//! The life of an instance: instantiation, the end of its start
//! function, and calls of its functions.

use vstd::prelude::*;
use vstd::pervasive::unreached;
use std::rc::Rc;
use crate::body::function_views;
use crate::const_expr::global_views;
use crate::error::{Error, UNKNOWN_TABLE, START_FUNC};
use crate::instance::{ExportItem, ImportItem, Instance, RuntimeFunction, WasmGlobal};
use crate::instantiate::{write_elements, write_data};
use crate::interpreter::Machine;
use crate::link_spec::{
    TableView,
    SlotWrite,
    DataWrite,
    table_views,
    tables_sized,
    lemma_link_functions_len,
    lemma_elements_fit,
    lemma_elements_apply,
    lemma_data_fit,
    lemma_data_apply,
    link_memory,
    lemma_link_index,
    link_table,
    link_functions,
    link_globals,
    elements_spec,
    data_spec,
    apply_elements,
    apply_data,
};
use crate::linker::{
    grown,
    memory_fits,
    resolve_memory,
    resolve_table,
    resolve_functions,
    resolve_globals,
    collect_elements,
    collect_data,
    build_exports,
    exports_spec,
    export_items,
};
use crate::machine::run_state;
use crate::module::{Module, ModuleView, NO_START};
use crate::semantics::{MemView, Signal, mem_views, call_machine, run_spec};
use crate::signature::SignatureView;
use crate::store::{InstanceManager, Slot, Store};
use crate::value::WasmValue;

verus! {

/// What instantiation hands back: the id of the instance, and the
/// machine that is ready to run its start function, if it has one.
pub struct Instantiation {
    pub id: u32,
    pub start: Option<Machine>,
}

/// Whether the start function of the module, if it has one, exists and
/// has the type `() -> ()`.
pub open spec fn start_ok(mv: ModuleView) -> bool {
    mv.start == NO_START || (mv.start < mv.functions.len() && mv.functions[mv.start as int].ty
        == SignatureView::empty())
}

/// The writes of the element segments of a module: there are none
/// without segments, and segments need a table.
pub open spec fn element_writes(
    mv: ModuleView,
    bytes: Seq<u8>,
    mine: Seq<usize>,
    globals: Seq<WasmGlobal>,
    table: Option<usize>,
    tables: Seq<TableView>,
) -> Result<Seq<SlotWrite>, Error> {
    if mv.element_count == 0 {
        Ok(Seq::empty())
    } else {
        match table {
            None => Err(Error::Link(UNKNOWN_TABLE)),
            Some(t) => elements_spec(
                bytes,
                mv.element_start as int,
                mv.element_count as nat,
                mine,
                globals,
                tables[t as int].size,
                mv.functions.len(),
                Seq::empty(),
            ),
        }
    }
}

/// The writes of the data segments of a module; there are none without
/// a memory.
pub open spec fn data_writes(
    mv: ModuleView,
    bytes: Seq<u8>,
    mine: Seq<usize>,
    globals: Seq<WasmGlobal>,
    memory: Option<usize>,
    mems: Seq<MemView>,
) -> Result<Seq<DataWrite>, Error> {
    match memory {
        None => Ok(Seq::empty()),
        Some(m) => data_spec(
            bytes,
            mv.data_segments,
            0,
            mine,
            globals,
            mems[m as int].bytes.len(),
            Seq::empty(),
        ),
    }
}

/// What linking resolves and reads before anything is applied.
pub struct Linked {
    pub mems: Seq<MemView>,
    pub tables: Seq<TableView>,
    pub globals: Seq<WasmGlobal>,
    pub memory: Option<usize>,
    pub table: Option<usize>,
    pub mine: Seq<usize>,
    pub functions: Seq<RuntimeFunction>,
    pub writes: Seq<SlotWrite>,
    pub data: Seq<DataWrite>,
}

/// Links a module against imports: the start function is checked, then
/// the memory, the table, the functions and the globals are resolved in
/// this order, then the element segments and the data segments are read
/// and checked against the table and the memory.  The first failure
/// decides the error.
#[verifier::opaque]
pub open spec fn link_spec(
    mems0: Seq<MemView>,
    tables0: Seq<TableView>,
    globals0: Seq<WasmGlobal>,
    mv: ModuleView,
    bytes: Seq<u8>,
    imports: Seq<ImportItem>,
) -> Result<Linked, Error> {
    if !start_ok(mv) {
        Err(Error::Validation(START_FUNC))
    } else {
        match link_memory(mv.memory, imports, mems0) {
            Err(e) => Err(e),
            Ok((mems, memory)) => match link_table(mv.table, imports, tables0) {
                Err(e) => Err(e),
                Ok((tables, table)) => match link_functions(mv.functions, imports, 0, Seq::empty()) {
                    Err(e) => Err(e),
                    Ok(functions) => match link_globals(
                        mv.globals,
                        bytes,
                        imports,
                        0,
                        globals0,
                        Seq::empty(),
                    ) {
                        Err(e) => Err(e),
                        Ok((globals, mine)) => match element_writes(
                            mv,
                            bytes,
                            mine,
                            globals,
                            table,
                            tables,
                        ) {
                            Err(e) => Err(e),
                            Ok(writes) => match data_writes(mv, bytes, mine, globals, memory, mems) {
                                Err(e) => Err(e),
                                Ok(data) => Ok(
                                    Linked {
                                        mems,
                                        tables,
                                        globals,
                                        memory,
                                        table,
                                        mine,
                                        functions,
                                        writes,
                                        data,
                                    },
                                ),
                            },
                        },
                    },
                },
            },
        }
    }
}

/// The tables and the registry after the element segments have been
/// applied.
pub open spec fn elements_applied(l: Linked, id: u32, slots: Seq<Slot>) -> Result<
    (Seq<TableView>, Seq<Slot>),
    Error,
> {
    match l.table {
        None => Ok((l.tables, slots)),
        Some(t) => apply_elements(l.writes, 0, l.functions, id, t as int, l.tables, slots),
    }
}

/// The memories after the data segments have been applied.
pub open spec fn data_applied(l: Linked, bytes: Seq<u8>) -> Result<Seq<MemView>, Error> {
    match l.memory {
        None => Ok(l.mems),
        Some(m) => match apply_data(bytes, l.data, 0, l.mems[m as int]) {
            Err(e) => Err(e),
            Ok(mem) => Ok(l.mems.update(m as int, mem)),
        },
    }
}

/// Whether the store `after` is the store `before` with nothing written
/// and at most fresh objects behind those that were there: every memory,
/// table and global of `before` is in `after` as it was; behind them
/// stand at most one memory more, whose bytes are zero, at most one table
/// more, whose slots are null, and the globals that were made.
pub open spec fn left_behind(before: Store, after: Store) -> bool {
    &&& grown(before, after)
    &&& after.memories@.len() <= before.memories@.len() + 1
    &&& after.tables@.len() <= before.tables@.len() + 1
    &&& forall|i: int, k: int|
        before.memories@.len() <= i < after.memories@.len() && 0 <= k < after.memories@[i]@.len()
            ==> after.memories@[i]@[k] == 0
    &&& forall|i: int, k: int|
        before.tables@.len() <= i < after.tables@.len() && 0 <= k < after.tables@[i]@.len()
            ==> after.tables@[i]@[k] == 0
}

/// Segments that linking has collected are applied without an error:
/// every write of an element segment is to a slot of the table and of a
/// function of the instance, and every write of a data segment lies in
/// the binary and in the memory.
pub proof fn lemma_collected_segments_apply(
    mems0: Seq<MemView>,
    tables0: Seq<TableView>,
    globals0: Seq<WasmGlobal>,
    mv: ModuleView,
    bytes: Seq<u8>,
    imports: Seq<ImportItem>,
    id: u32,
    slots: Seq<Slot>,
)
    requires
        tables_sized(tables0),
        link_spec(mems0, tables0, globals0, mv, bytes, imports) is Ok,
    ensures
        elements_applied(link_spec(mems0, tables0, globals0, mv, bytes, imports)->Ok_0, id, slots) is Ok,
        data_applied(link_spec(mems0, tables0, globals0, mv, bytes, imports)->Ok_0, bytes) is Ok,
{
    reveal(link_spec);
    let l = link_spec(mems0, tables0, globals0, mv, bytes, imports)->Ok_0;
    lemma_link_index(mv.memory, imports, mems0, tables0);
    lemma_link_index(mv.table, imports, mems0, tables0);
    lemma_link_functions_len(mv.functions, imports, 0, Seq::empty());
    match l.table {
        Some(t) => {
            assert(l.tables[t as int].handles.len() == l.tables[t as int].size) by {
                if t < tables0.len() {
                    assert(l.tables[t as int] == tables0[t as int]);
                }
            }
            if mv.element_count != 0 {
                lemma_elements_fit(
                    bytes,
                    mv.element_start as int,
                    mv.element_count as nat,
                    l.mine,
                    l.globals,
                    l.tables[t as int].size,
                    mv.functions.len(),
                    Seq::empty(),
                );
            }
            lemma_elements_apply(l.writes, 0, l.functions, id, t as int, l.tables, slots);
        },
        None => {},
    }
    match l.memory {
        Some(m) => {
            lemma_data_fit(
                bytes,
                mv.data_segments,
                0,
                l.mine,
                l.globals,
                l.mems[m as int].bytes.len(),
                Seq::empty(),
            );
            lemma_data_apply(bytes, l.data, 0, l.mems[m as int]);
        },
        None => {},
    }
}

/// Whether `r` and the store `after` are what instantiation of `module`
/// against `imports` makes of the store `before`.
///
/// The instance gets the next id.  Linking is as [`link_spec`] says.
/// Where it fails, nothing has been written: the registry has the slot
/// of the id, empty, and is as before otherwise, the counts are as
/// before, and the store is left as [`left_behind`] says.  Where it
/// succeeds, the element segments and the data segments are applied,
/// which cannot fail (see [`lemma_collected_segments_apply`]), the
/// instance is registered with what was resolved and with its exports,
/// and the start function, if there is one, is made ready to run.
pub open spec fn instantiated(
    before: Store,
    module: Rc<Module>,
    imports: Seq<ImportItem>,
    r: Result<Instantiation, Error>,
    after: Store,
) -> bool {
    let id = before.manager.next_id() as u32;
    let slots0 = before.manager.slots@.push(Slot { instance: None, holdover: false });
    match link_spec(
        mem_views(before.memories@),
        table_views(before.tables@),
        before.globals@,
        module@,
        module.bytes@,
        imports,
    ) {
        Err(e) => {
            &&& r matches Err(err) && err == e
            &&& after.manager.slots@ == slots0
            &&& after.manager.counts == before.manager.counts
            &&& left_behind(before, after)
        },
        Ok(l) => match elements_applied(l, id, slots0) {
            Err(e) => false,
            Ok((tables, slots)) => match data_applied(l, module.bytes@) {
                Err(e) => false,
                Ok(mems) => {
                    &&& r matches Ok(out)
                    &&& r->Ok_0.id == id
                    &&& mem_views(after.memories@) == mems
                    &&& table_views(after.tables@) == tables
                    &&& after.globals@ == l.globals
                    &&& after.manager.slots@.len() == slots.len()
                    &&& forall|k: int|
                        0 <= k < slots.len() && k != id - 1 ==> after.manager.slots@[k] == slots[k]
                    &&& !after.manager.slots@[id - 1].holdover
                    &&& after.manager.slots@[id - 1].instance matches Some(inst)
                    &&& ({
                        let inst = after.manager.slots@[id - 1].instance->Some_0;
                        &&& inst.id == id
                        &&& inst.module == module
                        &&& inst.memory == l.memory
                        &&& inst.table == l.table
                        &&& inst.globals@ == l.mine
                        &&& inst.functions@ == l.functions
                        &&& export_items(inst.exports@) == exports_spec(
                            module.exports@,
                            0,
                            l.functions,
                            l.table,
                            l.memory,
                            l.mine,
                            Seq::empty(),
                        )
                    })
                    &&& match r->Ok_0.start {
                        None => module.start == NO_START || module.start >= l.functions.len(),
                        Some(m) => module.start != NO_START && module.start < l.functions.len() && m@
                            == call_machine(
                            after.manager,
                            id,
                            l.functions[module.start as int],
                            Seq::empty(),
                        ),
                    }
                },
            },
        },
    }
}

/// What the end of a start function means for instantiation: a trap
/// makes the instance uninstantiable, with the message of the trap; any
/// other error stays as it is.
pub open spec fn start_result(outcome: Signal) -> Result<(), Error> {
    match outcome {
        Signal::Failed(e) => Err(e.spec_trap_to_uninstantiable()),
        _ => Ok(()),
    }
}

/// What linking resolves and reads, as the linker holds it.
pub struct Resolved {
    pub memory: Option<usize>,
    pub table: Option<usize>,
    pub functions: Vec<RuntimeFunction>,
    pub mine: Vec<usize>,
    pub writes: Vec<SlotWrite>,
    pub data: Vec<DataWrite>,
}

/// Links `module` against `imports`; see [`link_spec`].  Fresh objects
/// go behind the others in the store; the registry stays as it is.
pub fn link(store: &mut Store, module: &Module, imports: &Vec<ImportItem>) -> (r: Result<
    Resolved,
    Error,
>)
    requires
        old(store).wf(),
        memory_fits(module.memory),
    ensures
        final(store).wf(),
        final(store).manager == old(store).manager,
        left_behind(*old(store), *final(store)),
        match link_spec(
            mem_views(old(store).memories@),
            table_views(old(store).tables@),
            old(store).globals@,
            module@,
            module.bytes@,
            imports@,
        ) {
            Err(e) => r matches Err(err) && err == e,
            Ok(l) => {
                &&& r matches Ok(x)
                &&& l == (Linked {
                    mems: mem_views(final(store).memories@),
                    tables: table_views(final(store).tables@),
                    globals: final(store).globals@,
                    memory: r->Ok_0.memory,
                    table: r->Ok_0.table,
                    mine: r->Ok_0.mine@,
                    functions: r->Ok_0.functions@,
                    writes: r->Ok_0.writes@,
                    data: r->Ok_0.data@,
                })
                &&& (l.table matches Some(t) ==> t < final(store).tables@.len())
                &&& (l.memory matches Some(m) ==> m < final(store).memories@.len())
            },
        },
{
    reveal(link_spec);
    let start: u32 = module.start;
    if start != NO_START {
        if start as usize >= module.functions.len() {
            return Err(Error::Validation(START_FUNC));
        }
        let ty = &module.functions[start as usize].ty;
        if ty.params.len() != 0 || ty.result.is_some() {
            return Err(Error::Validation(START_FUNC));
        }
        assert(ty@.params =~= Seq::empty());
    }
    assert(function_views(module.functions@) =~= module@.functions);
    assert(global_views(module.globals@) =~= module@.globals);
    let bytes: &[u8] = module.bytes.as_slice();
    proof {
        lemma_link_index(
            module@.memory,
            imports@,
            mem_views(store.memories@),
            table_views(store.tables@),
        );
        lemma_link_index(
            module@.table,
            imports@,
            mem_views(store.memories@),
            table_views(store.tables@),
        );
    }
    let memory: Option<usize> = resolve_memory(store, &module.memory, imports)?;
    proof {
        let n = old(store).memories@.len() as int;
        if store.memories@.len() > n {
            assert(mem_views(store.memories@)[n].bytes == store.memories@[n]@);
        }
    }
    let table: Option<usize> = resolve_table(store, &module.table, imports)?;
    proof {
        let n = old(store).tables@.len() as int;
        if store.tables@.len() > n {
            assert(table_views(store.tables@)[n].handles == store.tables@[n]@);
        }
    }
    let functions: Vec<RuntimeFunction> = resolve_functions(&module.functions, imports)?;
    let mine: Vec<usize> = resolve_globals(store, &module.globals, bytes, imports)?;
    let writes: Vec<SlotWrite> = if module.element_count > 0 {
        match table {
            None => {
                return Err(Error::Link(UNKNOWN_TABLE));
            },
            Some(t) => {
                let size: u32 = store.tables[t].size();
                collect_elements(
                    bytes,
                    module.element_start,
                    module.element_count,
                    &mine,
                    &store.globals,
                    size,
                    module.functions.len(),
                )?
            },
        }
    } else {
        Vec::new()
    };
    let data: Vec<DataWrite> = match memory {
        None => Vec::new(),
        Some(m) => {
            let size: usize = store.memories[m].byte_len();
            collect_data(bytes, &module.data_segments, &mine, &store.globals, size)?
        },
    };
    Ok(Resolved { memory, table, functions, mine, writes, data })
}

impl Instance {
    /// Instantiates `module` against `imports` in the store; see
    /// [`instantiated`].
    pub fn instantiate(store: &mut Store, module: Rc<Module>, imports: &Vec<ImportItem>) -> (r: Result<
        Instantiation,
        Error,
    >)
        requires
            old(store).wf(),
            memory_fits(module.memory),
            old(store).manager.next_id() <= u32::MAX,
        ensures
            final(store).wf(),
            instantiated(*old(store), module, imports@, r, *final(store)),
    {
        let id: u32 = match store.manager.allocate_id() {
            Some(id) => id,
            None => unreached(),
        };
        let ghost before = *store;
        let x: Resolved = link(store, &module, imports)?;
        proof {
            assert(tables_sized(table_views(old(store).tables@))) by {
                assert forall|i: int| 0 <= i < old(store).tables@.len() implies (#[trigger] table_views(
                    old(store).tables@,
                )[i]).handles.len() == table_views(old(store).tables@)[i].size by {
                    old(store).tables@[i].lemma_wf();
                }
            }
            lemma_collected_segments_apply(
                mem_views(old(store).memories@),
                table_views(old(store).tables@),
                old(store).globals@,
                module@,
                module.bytes@,
                imports@,
                id,
                store.manager.slots@,
            );
        }
        let ghost l = Linked {
            mems: mem_views(store.memories@),
            tables: table_views(store.tables@),
            globals: store.globals@,
            memory: x.memory,
            table: x.table,
            mine: x.mine@,
            functions: x.functions@,
            writes: x.writes@,
            data: x.data@,
        };
        match x.table {
            Some(t) => {
                write_elements(store, &x.writes, &x.functions, id, t)?;
            },
            None => {},
        }
        match x.memory {
            Some(m) => {
                let ghost before = mem_views(store.memories@);
                write_data(store, module.bytes.as_slice(), &x.data, m)?;
                assert(mem_views(store.memories@) =~= before.update(
                    m as int,
                    mem_views(store.memories@)[m as int],
                ));
            },
            None => {},
        }
        let exports: Vec<ExportItem> = build_exports(
            &module.exports,
            &x.functions,
            x.table,
            x.memory,
            &x.mine,
        );
        let start: u32 = module.start;
        let start_fn: Option<RuntimeFunction> = if start != NO_START && (start as usize)
            < x.functions.len() {
            Some(x.functions[start as usize])
        } else {
            None
        };
        let inst = Instance {
            id,
            module,
            memory: x.memory,
            table: x.table,
            globals: x.mine,
            functions: x.functions,
            exports,
        };
        store.manager.register_instance(inst);
        let machine: Option<Machine> = match start_fn {
            None => None,
            Some(f) => {
                let none: Vec<WasmValue> = Vec::new();
                Some(Machine::call(&store.manager, id, f, none.as_slice()))
            },
        };
        Ok(Instantiation { id, start: machine })
    }

    /// A machine that has run the function `func` of the instance `id` on
    /// `args` for at most `fuel` steps.  The machine's signal says how
    /// far it came: finished, with the results on its stack; failed; or
    /// waiting for the embedder.  A wrong number of arguments fails the
    /// machine at once.
    pub fn invoke(store: &mut Store, id: u32, func: &RuntimeFunction, args: &[WasmValue], fuel: u64) -> (m:
        Machine)
        requires
            old(store).wf(),
        ensures
            final(store).wf(),
            final(store).tables == old(store).tables,
            final(store).manager == old(store).manager,
            final(store).memories@.len() == old(store).memories@.len(),
            (run_state(m@, *final(store)), m.waiting) == run_spec(
                old(store).manager,
                old(store).tables@,
                run_state(call_machine(old(store).manager, id, *func, args@), *old(store)),
                fuel as nat,
            ),
    {
        let mut m = Machine::call(&store.manager, id, *func, args);
        let _signal: Signal = m.run(store, fuel);
        m
    }

    /// The function `f` of this instance, with the index `index`, as
    /// another instance imports it: a function of this instance's module
    /// is named by this instance and the index, any other function stays
    /// as it is.
    pub fn externalize(&self, f: RuntimeFunction, index: usize) -> (g: RuntimeFunction)
        ensures
            g == match f {
                RuntimeFunction::OwnedWasm { runtime_sig, .. } => RuntimeFunction::ImportedWasm {
                    runtime_sig,
                    owner: self.id,
                    function_index: index,
                },
                other => other,
            },
    {
        match f {
            RuntimeFunction::OwnedWasm { runtime_sig, .. } => RuntimeFunction::ImportedWasm {
                runtime_sig,
                owner: self.id,
                function_index: index,
            },
            other => other,
        }
    }

    /// Puts an instance that the embedder holds back into the registry
    /// of the store, under its id, which the registry must have handed
    /// out.  The store stays as it is but for that slot of the registry.
    pub fn register_external_instance(store: &mut Store, inst: Instance)
        requires
            old(store).wf(),
            1 <= inst.id < old(store).manager.next_id(),
        ensures
            final(store).wf(),
            final(store).memories == old(store).memories,
            final(store).tables == old(store).tables,
            final(store).globals == old(store).globals,
            final(store).manager.counts == old(store).manager.counts,
            final(store).manager.instance_of(inst.id) == Some(inst),
            forall|id: u32|
                id != inst.id ==> final(store).manager.instance_of(id) == old(store).manager.instance_of(id),
    {
        store.manager.register_instance(inst);
    }
}

impl Store {
    /// Reports how the start function of the instance `id` ended.  After
    /// a failure the embedder gives the instance up: it stays as a
    /// holdover while a table refers to it.  See [`start_result`].
    pub fn finish_start(&mut self, id: u32, outcome: Signal) -> (r: Result<(), Error>)
        requires
            old(self).wf(),
        ensures
            final(self).wf(),
            r == start_result(outcome),
            final(self).memories == old(self).memories,
            final(self).tables == old(self).tables,
            final(self).globals == old(self).globals,
            final(self).manager.counts == old(self).manager.counts,
            final(self).manager.slots@ == if outcome is Failed {
                InstanceManager::given_up(
                    old(self).manager.slots@,
                    id,
                    old(self).manager.counts.count(id) > 0,
                )
            } else {
                old(self).manager.slots@
            },
    {
        match outcome {
            Signal::Failed(e) => {
                self.manager.add_zombie(id);
                Err(e.trap_to_uninstantiable())
            },
            _ => Ok(()),
        }
    }
}

} // verus!
