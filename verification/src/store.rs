//! The store: the memories, tables and globals that instances share,
//! and the registry of instances.
//!
//! The registry gives each instance an id, counts the function
//! references to it that tables hold, and keeps an instance that its
//! embedder has given up for as long as a table still refers to it.

use vstd::prelude::*;
use crate::instance::{Instance, WasmGlobal};
use crate::table::{
    RefCounts,
    WasmTable,
    owner_of,
    refers_to,
    slot_refs,
    lemma_slot_refs_bound,
    lemma_slot_refs_update,
    lemma_slot_refs_extend,
};
use crate::value::WasmValue;
use crate::wasm_memory::WasmMemory;

verus! {

/// The place of one instance in the registry.  A *holdover* is an
/// instance that the registry alone keeps, because its embedder gave it
/// up, or its start function trapped, while tables still referred to it.
pub struct Slot {
    pub instance: Option<Instance>,
    pub holdover: bool,
}

/// The registry of instances.  The instance with id `k` has the slot
/// `k - 1`; there is no instance zero.
pub struct InstanceManager {
    pub slots: Vec<Slot>,
    pub counts: RefCounts,
}

impl InstanceManager {
    /// The id that the next instance gets.
    pub open spec fn next_id(&self) -> int {
        self.slots@.len() as int + 1
    }

    /// The instance with the given id, while the registry has it.
    pub open spec fn instance_of(&self, id: u32) -> Option<Instance> {
        if 1 <= id <= self.slots@.len() {
            self.slots@[id - 1].instance
        } else {
            None
        }
    }

    /// A registry without instances; the first id is one.
    pub fn new() -> (r: Self)
        ensures
            r.next_id() == 1,
            forall|id: u32| r.counts.count(id) == 0,
            forall|id: u32| r.instance_of(id) is None,
    {
        InstanceManager { slots: Vec::new(), counts: RefCounts::new() }
    }

    /// Hands out the next id, or `None` when the ids are used up.
    pub fn allocate_id(&mut self) -> (r: Option<u32>)
        ensures
            final(self).counts == old(self).counts,
            old(self).next_id() <= u32::MAX ==> r == Some(old(self).next_id() as u32) && final(self).slots@ == old(self).slots@.push(Slot { instance: None, holdover: false }),
            old(self).next_id() > u32::MAX ==> r is None && final(self).slots@ == old(self).slots@,
    {
        if self.slots.len() >= u32::MAX as usize {
            return None;
        }
        self.slots.push(Slot { instance: None, holdover: false });
        Some(self.slots.len() as u32)
    }

    /// Puts `inst` at its id, which must have been handed out.
    pub fn register_instance(&mut self, inst: Instance)
        requires
            1 <= inst.id < old(self).next_id(),
        ensures
            final(self).counts == old(self).counts,
            final(self).slots@ == old(self).slots@.update(
                inst.id - 1,
                Slot { instance: Some(inst), holdover: false },
            ),
            final(self).instance_of(inst.id) == Some(inst),
    {
        let i: usize = (inst.id - 1) as usize;
        self.slots[i] = Slot { instance: Some(inst), holdover: false };
    }

    /// The instance with the given id, while the registry has it.
    pub fn get_instance(&self, id: u32) -> (r: Option<&Instance>)
        ensures
            match self.instance_of(id) {
                Some(inst) => r == Some(&inst),
                None => r is None,
            },
    {
        if id == 0 || id as usize > self.slots.len() {
            return None;
        }
        self.slots[(id - 1) as usize].instance.as_ref()
    }

    /// Whether any table refers to the instance.
    pub fn has_refs(&self, owner_id: u32) -> (r: bool)
        ensures
            r == (self.counts.count(owner_id) > 0),
    {
        self.counts.has_refs(owner_id)
    }

    /// The registry after a holdover with the given id, if there is one,
    /// has been let go.
    pub open spec fn swept(slots: Seq<Slot>, id: u32) -> Seq<Slot> {
        if 1 <= id <= slots.len() && slots[id - 1].holdover {
            slots.update(id - 1, Slot { instance: None, holdover: false })
        } else {
            slots
        }
    }

    /// Lets go of the holdover with the given id, if there is one.
    pub fn sweep(&mut self, id: u32)
        ensures
            final(self).counts == old(self).counts,
            final(self).slots@ == Self::swept(old(self).slots@, id),
    {
        if id >= 1 && id as usize <= self.slots.len() {
            let i: usize = (id - 1) as usize;
            if self.slots[i].holdover {
                self.slots[i] = Slot { instance: None, holdover: false };
            }
        }
    }

    /// Counts one more reference to the instance.
    pub fn inc_ref(&mut self, owner_id: u32)
        requires
            old(self).counts.count(owner_id) < u128::MAX,
        ensures
            final(self).slots == old(self).slots,
            final(self).counts.count(owner_id) == old(self).counts.count(owner_id) + 1,
            forall|other: u32|
                other != owner_id ==> final(self).counts.count(other) == old(self).counts.count(other),
    {
        self.counts.inc_ref(owner_id);
    }

    /// Counts one reference to the instance less, where one is counted.
    /// When the last reference goes, a holdover is let go.
    pub fn dec_ref(&mut self, owner_id: u32)
        ensures
            final(self).counts.count(owner_id) == if old(self).counts.count(owner_id) > 0 {
                (old(self).counts.count(owner_id) - 1) as nat
            } else {
                0nat
            },
            forall|other: u32|
                other != owner_id ==> final(self).counts.count(other) == old(self).counts.count(other),
            final(self).slots@ == if old(self).counts.count(owner_id) == 1 {
                Self::swept(old(self).slots@, owner_id)
            } else {
                old(self).slots@
            },
    {
        let emptied: bool = self.counts.dec_ref(owner_id);
        if emptied {
            self.sweep(owner_id);
        }
    }

    /// The registry after the embedder, or a trapped start function, has
    /// given up the instance: it stays as a holdover while a table refers
    /// to it, and goes otherwise.
    pub open spec fn given_up(slots: Seq<Slot>, id: u32, referred: bool) -> Seq<Slot> {
        if 1 <= id <= slots.len() {
            if referred && slots[id - 1].instance is Some {
                slots.update(id - 1, Slot { instance: slots[id - 1].instance, holdover: true })
            } else {
                slots.update(id - 1, Slot { instance: None, holdover: false })
            }
        } else {
            slots
        }
    }

    /// Gives up the instance with the given id: it becomes a holdover
    /// where a table refers to it, and is let go otherwise.
    pub fn add_zombie(&mut self, id: u32)
        ensures
            final(self).counts == old(self).counts,
            final(self).slots@ == Self::given_up(
                old(self).slots@,
                id,
                old(self).counts.count(id) > 0,
            ),
    {
        if id >= 1 && id as usize <= self.slots.len() {
            let i: usize = (id - 1) as usize;
            if self.counts.has_refs(id) && self.slots[i].instance.is_some() {
                self.slots[i].holdover = true;
                assert(self.slots@ =~= Self::given_up(old(self).slots@, id, true));
            } else {
                self.slots[i] = Slot { instance: None, holdover: false };
            }
        }
    }
}

/// The handles of each table.
pub open spec fn table_handles(tables: Seq<WasmTable>) -> Seq<Seq<u64>> {
    Seq::new(tables.len(), |i: int| tables[i]@)
}

/// The number of slots in all tables that refer to instance `id`.
pub open spec fn total_refs(tables: Seq<Seq<u64>>, id: u32) -> nat
    decreases tables.len(),
{
    if tables.len() == 0 {
        0
    } else {
        total_refs(tables.drop_last(), id) + slot_refs(tables.last(), id)
    }
}

/// Replacing the handles of table `t` changes the number of references
/// by the difference between the new and the old table.
pub proof fn lemma_total_update(tables: Seq<Seq<u64>>, t: int, new: Seq<u64>, id: u32)
    requires
        0 <= t < tables.len(),
    ensures
        total_refs(tables.update(t, new), id) == total_refs(tables, id) - slot_refs(tables[t], id)
            + slot_refs(new, id),
    decreases tables.len(),
{
    let n = tables.len() - 1;
    if t == n {
        assert(tables.update(t, new).drop_last() =~= tables.drop_last());
    } else {
        assert(tables.update(t, new).drop_last() =~= tables.drop_last().update(t, new));
        lemma_total_update(tables.drop_last(), t, new, id);
    }
}

/// A further table adds its references.
pub proof fn lemma_total_push(tables: Seq<Seq<u64>>, new: Seq<u64>, id: u32)
    ensures
        total_refs(tables.push(new), id) == total_refs(tables, id) + slot_refs(new, id),
{
    assert(tables.push(new).drop_last() =~= tables);
}

/// Tables of at most `2^32` slots each hold at most `2^32` references
/// for each table.
pub proof fn lemma_total_bound(tables: Seq<Seq<u64>>, id: u32)
    requires
        forall|i: int| 0 <= i < tables.len() ==> (#[trigger] tables[i]).len() <= u32::MAX,
    ensures
        total_refs(tables, id) <= tables.len() * 0x1_0000_0000,
    decreases tables.len(),
{
    if tables.len() > 0 {
        lemma_total_bound(tables.drop_last(), id);
        lemma_slot_refs_bound(tables.last(), id);
    }
}

/// The store.
pub struct Store {
    pub memories: Vec<WasmMemory>,
    pub tables: Vec<WasmTable>,
    pub globals: Vec<WasmGlobal>,
    pub manager: InstanceManager,
}

impl Store {
    /// For every instance, the registry counts exactly the table slots
    /// that refer to it.
    pub open spec fn accounted(&self) -> bool {
        forall|id: u32|
            #[trigger] self.manager.counts.count(id) == total_refs(table_handles(self.tables@), id)
    }

    /// Every memory and table is well formed, and the reference counts
    /// are exact.
    pub open spec fn wf(&self) -> bool {
        &&& forall|i: int| 0 <= i < self.memories@.len() ==> (#[trigger] self.memories@[i]).wf()
        &&& forall|i: int| 0 <= i < self.tables@.len() ==> (#[trigger] self.tables@[i]).wf()
        &&& self.accounted()
    }

    /// A reference count fits its counter with room to spare.
    pub proof fn lemma_count_bound(&self, id: u32)
        requires
            self.wf(),
        ensures
            self.manager.counts.count(id) <= 0x1_0000_0000_0000_0000 * 0x1_0000_0000,
    {
        let handles = table_handles(self.tables@);
        assert forall|i: int| 0 <= i < handles.len() implies (#[trigger] handles[i]).len()
            <= u32::MAX by {
            self.tables@[i].lemma_wf();
        }
        lemma_total_bound(handles, id);
        assert(handles.len() == self.tables.len());
        assert(handles.len() * 0x1_0000_0000 <= 0x1_0000_0000_0000_0000 * 0x1_0000_0000)
            by (nonlinear_arith)
            requires
                handles.len() <= 0x1_0000_0000_0000_0000,
        ;
    }

    /// An empty store.
    pub fn new() -> (s: Self)
        ensures
            s.wf(),
            s.memories@.len() == 0,
            s.tables@.len() == 0,
            s.globals@.len() == 0,
            s.manager.next_id() == 1,
    {
        let s = Store {
            memories: Vec::new(),
            tables: Vec::new(),
            globals: Vec::new(),
            manager: InstanceManager::new(),
        };
        assert(table_handles(s.tables@) =~= Seq::empty());
        s
    }

    /// Adds a memory and returns its index.
    pub fn add_memory(&mut self, memory: WasmMemory) -> (i: usize)
        requires
            old(self).wf(),
            memory.wf(),
        ensures
            final(self).wf(),
            i == old(self).memories@.len(),
            final(self).memories@ == old(self).memories@.push(memory),
            final(self).tables == old(self).tables,
            final(self).globals == old(self).globals,
            final(self).manager == old(self).manager,
    {
        self.memories.push(memory);
        self.memories.len() - 1
    }

    /// Adds a table whose slots are all null and returns its index.
    pub fn add_table(&mut self, table: WasmTable) -> (i: usize)
        requires
            old(self).wf(),
            table.wf(),
            forall|k: int| 0 <= k < table@.len() ==> table@[k] == 0,
        ensures
            final(self).wf(),
            i == old(self).tables@.len(),
            final(self).tables@ == old(self).tables@.push(table),
            final(self).memories == old(self).memories,
            final(self).globals == old(self).globals,
            final(self).manager == old(self).manager,
    {
        proof {
            let handles = table_handles(self.tables@);
            assert(table_handles(self.tables@.push(table)) =~= handles.push(table@));
            assert forall|id: u32|
                total_refs(#[trigger] handles.push(table@), id) == total_refs(handles, id) by {
                lemma_total_push(handles, table@, id);
                lemma_null_refs(table@, id);
            }
        }
        self.tables.push(table);
        self.tables.len() - 1
    }

    /// Adds a global and returns its index.
    pub fn add_global(&mut self, global: WasmGlobal) -> (i: usize)
        requires
            old(self).wf(),
        ensures
            final(self).wf(),
            i == old(self).globals@.len(),
            final(self).globals@ == old(self).globals@.push(global),
            final(self).memories == old(self).memories,
            final(self).tables == old(self).tables,
            final(self).manager == old(self).manager,
    {
        self.globals.push(global);
        self.globals.len() - 1
    }

    /// Writes the handle `value` into slot `idx` of table `t`.  The
    /// reference that the slot held is given up: when it was the last to
    /// a holdover, the holdover is let go.
    pub fn table_set(&mut self, t: usize, idx: u32, value: WasmValue) -> (r: Result<(), &'static str>)
        requires
            old(self).wf(),
            t < old(self).tables@.len(),
        ensures
            final(self).wf(),
            final(self).memories == old(self).memories,
            final(self).globals == old(self).globals,
            final(self).tables@.len() == old(self).tables@.len(),
            forall|k: int|
                0 <= k < old(self).tables@.len() && k != t ==> final(self).tables@[k] == old(self).tables@[k],
            final(self).tables@[t as int].spec_size() == old(self).tables@[t as int].spec_size(),
            final(self).tables@[t as int].spec_max() == old(self).tables@[t as int].spec_max(),
            idx >= old(self).tables@[t as int].spec_size() ==> {
                &&& r == Err::<(), &'static str>(crate::error::OOB_TABLE_ACCESS)
                &&& final(self).tables@[t as int]@ == old(self).tables@[t as int]@
                &&& final(self).manager.slots@ == old(self).manager.slots@
            },
            idx < old(self).tables@[t as int].spec_size() ==> {
                &&& r == Ok::<(), &'static str>(())
                &&& final(self).tables@[t as int]@ == old(self).tables@[t as int]@.update(
                    idx as int,
                    value.0,
                )
                &&& forall|id: u32| #[trigger]
                    final(self).manager.counts.count(id) == old(self).manager.counts.count(id) - (
                    if refers_to(old(self).tables@[t as int]@[idx as int], id) {
                        1int
                    } else {
                        0int
                    }) + (if refers_to(value.0, id) {
                        1int
                    } else {
                        0int
                    })
                &&& final(self).manager.slots@ == if old(self).tables@[t as int]@[idx as int] != 0
                    && final(self).manager.counts.count(
                    owner_of(old(self).tables@[t as int]@[idx as int]),
                ) == 0 {
                    InstanceManager::swept(
                        old(self).manager.slots@,
                        owner_of(old(self).tables@[t as int]@[idx as int]),
                    )
                } else {
                    old(self).manager.slots@
                }
            },
    {
        proof {
            self.lemma_count_bound(owner_of(value.0));
            self.tables@[t as int].lemma_wf();
        }
        let before: u64 = match self.tables[t].get(idx) {
            Ok(v) => v.as_u64(),
            Err(_) => 0,
        };
        let ghost handles = table_handles(self.tables@);
        let r = self.tables[t].set(idx, value, &mut self.manager.counts);
        if r.is_ok() {
            proof {
                let after = table_handles(self.tables@);
                assert(after =~= handles.update(t as int, handles[t as int].update(idx as int, value.0)));
                assert forall|id: u32| #[trigger]
                    self.manager.counts.count(id) == total_refs(after, id) by {
                    lemma_total_update(handles, t as int, after[t as int], id);
                    lemma_slot_refs_update(handles[t as int], idx as int, value.0, id);
                    lemma_slot_refs_bound(handles[t as int], id);
                    lemma_total_floor(handles, t as int, id);
                }
                assert forall|id: u32| #[trigger]
                    self.manager.counts.count(id) == old(self).manager.counts.count(id) - (
                    if refers_to(handles[t as int][idx as int], id) {
                        1int
                    } else {
                        0int
                    }) + (if refers_to(value.0, id) {
                        1int
                    } else {
                        0int
                    }) by {
                    lemma_total_update(handles, t as int, after[t as int], id);
                    lemma_slot_refs_update(handles[t as int], idx as int, value.0, id);
                }
            }
            if before != 0 {
                let owner: u32 = (before / 0x1_0000_0000) as u32;
                if !self.manager.counts.has_refs(owner) {
                    self.manager.sweep(owner);
                }
            }
        } else {
            assert(table_handles(self.tables@) =~= handles);
        }
        r
    }

    /// Grows table `t` by `delta` slots that hold `value`; see
    /// [`WasmTable::grow`].
    pub fn table_grow(&mut self, t: usize, delta: u32, value: WasmValue) -> (r: u32)
        requires
            old(self).wf(),
            t < old(self).tables@.len(),
        ensures
            final(self).wf(),
            final(self).memories == old(self).memories,
            final(self).globals == old(self).globals,
            final(self).manager.slots == old(self).manager.slots,
            final(self).tables@.len() == old(self).tables@.len(),
            forall|k: int|
                0 <= k < old(self).tables@.len() && k != t ==> final(self).tables@[k] == old(self).tables@[k],
            final(self).tables@[t as int].spec_max() == old(self).tables@[t as int].spec_max(),
            delta == 0 || !old(self).tables@[t as int].can_grow(delta) ==> {
                &&& r == if delta == 0 {
                    old(self).tables@[t as int].spec_size()
                } else {
                    u32::MAX
                }
                &&& final(self).tables@[t as int]@ == old(self).tables@[t as int]@
                &&& final(self).tables@[t as int].spec_size() == old(self).tables@[t as int].spec_size()
            },
            delta != 0 && old(self).tables@[t as int].can_grow(delta) ==> {
                &&& r == old(self).tables@[t as int].spec_size()
                &&& final(self).tables@[t as int].spec_size() == r + delta
                &&& final(self).tables@[t as int]@ == old(self).tables@[t as int]@ + Seq::new(
                    delta as nat,
                    |i: int| value.0,
                )
            },
    {
        proof {
            self.lemma_count_bound(owner_of(value.0));
        }
        let ghost handles = table_handles(self.tables@);
        let r = self.tables[t].grow(delta, value, &mut self.manager.counts);
        proof {
            let after = table_handles(self.tables@);
            assert(after =~= handles.update(t as int, after[t as int]));
            assert forall|id: u32| #[trigger]
                self.manager.counts.count(id) == total_refs(after, id) by {
                lemma_total_update(handles, t as int, after[t as int], id);
                lemma_slot_refs_extend(handles[t as int], delta as nat, value.0, id);
            }
        }
        r
    }

    /// Whether the slot holds an instance that has not been given up and
    /// has the table `t` as its table.
    pub open spec fn uses_table(slot: Slot, t: usize) -> bool {
        !slot.holdover && slot.instance is Some && slot.instance->Some_0.table == Some(t)
    }

    /// Whether an instance that has not been given up has the table `t`
    /// as its table.
    pub open spec fn spec_table_in_use(&self, t: usize) -> bool {
        exists|k: int| 0 <= k < self.manager.slots@.len() && Self::uses_table(#[trigger] self.manager.slots@[k], t)
    }

    /// Whether an instance that has not been given up has the table `t`
    /// as its table.
    #[verifier::when_used_as_spec(spec_table_in_use)]
    pub fn table_in_use(&self, t: usize) -> (r: bool)
        ensures
            r == self.spec_table_in_use(t),
    {
        let mut k: usize = 0;
        while k < self.manager.slots.len()
            invariant
                k <= self.manager.slots@.len(),
                forall|j: int| 0 <= j < k ==> !Self::uses_table(#[trigger] self.manager.slots@[j], t),
            decreases self.manager.slots@.len() - k,
        {
            let slot: &Slot = &self.manager.slots[k];
            if !slot.holdover {
                match &slot.instance {
                    Some(inst) => match inst.table {
                        Some(x) => {
                            if x == t {
                                return true;
                            }
                        },
                        None => {},
                    },
                    None => {},
                }
            }
            k = k + 1;
        }
        false
    }

    /// The registry after references have been given up: a holdover
    /// whose last reference has gone is let go, and every other slot is
    /// as it was.
    pub open spec fn released(slots: Seq<Slot>, before: RefCounts, after: RefCounts) -> Seq<Slot> {
        Seq::new(
            slots.len(),
            |k: int|
                if slots[k].holdover && k < u32::MAX && before.count((k + 1) as u32) > 0 && after.count(
                    (k + 1) as u32,
                ) == 0 {
                    Slot { instance: None, holdover: false }
                } else {
                    slots[k]
                },
        )
    }

    /// Gives up the table `t`, which no instance may have as its table
    /// but instances that have been given up themselves: every slot of
    /// the table becomes null, each reference that a slot held is given
    /// up, and a holdover whose last reference goes with it is let go.
    /// Returns whether the table was given up; a table that is in use, or
    /// that the store does not have, stays as it is.
    pub fn retire_table(&mut self, t: usize) -> (r: bool)
        requires
            old(self).wf(),
        ensures
            final(self).wf(),
            r == (t < old(self).tables@.len() && !old(self).table_in_use(t)),
            !r ==> *final(self) == *old(self),
            final(self).memories == old(self).memories,
            final(self).globals == old(self).globals,
            final(self).tables@.len() == old(self).tables@.len(),
            forall|k: int|
                0 <= k < old(self).tables@.len() && k != t ==> final(self).tables@[k] == old(self).tables@[k],
            r ==> {
                &&& final(self).tables@[t as int].spec_size() == old(self).tables@[t as int].spec_size()
                &&& final(self).tables@[t as int].spec_max() == old(self).tables@[t as int].spec_max()
                &&& final(self).tables@[t as int]@ == Seq::new(
                    old(self).tables@[t as int]@.len(),
                    |i: int| 0u64,
                )
                &&& forall|id: u32| #[trigger]
                    final(self).manager.counts.count(id) == total_refs(
                        table_handles(old(self).tables@),
                        id,
                    ) - slot_refs(old(self).tables@[t as int]@, id)
                &&& final(self).manager.slots@ == Self::released(
                    old(self).manager.slots@,
                    old(self).manager.counts,
                    final(self).manager.counts,
                )
            },
    {
        if t >= self.tables.len() {
            return false;
        }
        if self.table_in_use(t) {
            return false;
        }
        proof {
            self.tables@[t as int].lemma_wf();
        }
        let size: u32 = self.tables[t].size();
        let ghost handles0 = self.tables@[t as int]@;
        let mut i: u32 = 0;
        assert(self.manager.slots@ =~= Self::released(
            old(self).manager.slots@,
            old(self).manager.counts,
            self.manager.counts,
        ));
        while i < size
            invariant
                i <= size,
                self.wf(),
                t < self.tables@.len(),
                self.memories == old(self).memories,
                self.globals == old(self).globals,
                self.tables@.len() == old(self).tables@.len(),
                forall|k: int|
                    0 <= k < old(self).tables@.len() && k != t ==> self.tables@[k] == old(self).tables@[k],
                self.tables@[t as int].spec_size() == size,
                self.tables@[t as int].spec_max() == old(self).tables@[t as int].spec_max(),
                handles0 == old(self).tables@[t as int]@,
                handles0.len() == size,
                self.tables@[t as int]@ == Seq::new(
                    size as nat,
                    |k: int|
                        if k < i {
                            0u64
                        } else {
                            handles0[k]
                        },
                ),
                forall|id: u32| #[trigger]
                    self.manager.counts.count(id) <= old(self).manager.counts.count(id),
                self.manager.slots@ == Self::released(
                    old(self).manager.slots@,
                    old(self).manager.counts,
                    self.manager.counts,
                ),
            decreases size - i,
        {
            let ghost before = *self;
            let ghost h = self.tables@[t as int]@[i as int];
            let _done = self.table_set(t, i, WasmValue::from_u64(0));
            proof {
                assert(self.tables@[t as int]@ =~= Seq::new(
                    size as nat,
                    |k: int|
                        if k < i + 1 {
                            0u64
                        } else {
                            handles0[k]
                        },
                ));
                let slots0 = old(self).manager.slots@;
                let now = Self::released(slots0, old(self).manager.counts, self.manager.counts);
                assert forall|k: int| 0 <= k < slots0.len() implies self.manager.slots@[k] == now[k] by {
                    if k < u32::MAX {
                        let id = (k + 1) as u32;
                        assert(self.manager.counts.count(id) == before.manager.counts.count(id) - (
                        if refers_to(h, id) {
                            1int
                        } else {
                            0int
                        }));
                    }
                }
                assert(self.manager.slots@ =~= now);
            }
            i = i + 1;
        }
        proof {
            let nulls = Seq::new(size as nat, |k: int| 0u64);
            assert(self.tables@[t as int]@ =~= nulls);
            let before = table_handles(old(self).tables@);
            let after = table_handles(self.tables@);
            assert(after =~= before.update(t as int, nulls));
            assert forall|id: u32| #[trigger]
                self.manager.counts.count(id) == total_refs(before, id) - slot_refs(handles0, id) by {
                lemma_total_update(before, t as int, nulls, id);
                lemma_null_refs(nulls, id);
            }
        }
        true
    }

    /// The embedder gives up the instance with the given id: it stays
    /// reachable as a holdover while a table refers to it, and is let go
    /// otherwise.
    pub fn drop_instance(&mut self, id: u32)
        requires
            old(self).wf(),
        ensures
            final(self).wf(),
            final(self).memories == old(self).memories,
            final(self).tables == old(self).tables,
            final(self).globals == old(self).globals,
            final(self).manager.counts == old(self).manager.counts,
            final(self).manager.slots@ == InstanceManager::given_up(
                old(self).manager.slots@,
                id,
                total_refs(table_handles(old(self).tables@), id) > 0,
            ),
    {
        self.manager.add_zombie(id);
    }
}

/// A table of null slots refers to no instance.
pub proof fn lemma_null_refs(slots: Seq<u64>, id: u32)
    requires
        forall|k: int| 0 <= k < slots.len() ==> slots[k] == 0,
    ensures
        slot_refs(slots, id) == 0,
    decreases slots.len(),
{
    if slots.len() > 0 {
        lemma_null_refs(slots.drop_last(), id);
    }
}

/// The references of all tables are at least those of one table.
pub proof fn lemma_total_floor(tables: Seq<Seq<u64>>, t: int, id: u32)
    requires
        0 <= t < tables.len(),
    ensures
        total_refs(tables, id) >= slot_refs(tables[t], id),
    decreases tables.len(),
{
    if t < tables.len() - 1 {
        lemma_total_floor(tables.drop_last(), t, id);
    }
}

} // verus!
