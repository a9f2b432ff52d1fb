//! Function references, the table that holds them, and the count of
//! references that each instance has outstanding.
//!
//! A function reference is a 64-bit handle: zero is the null reference,
//! any other handle holds the owner's instance id in its high half and
//! the function index plus one in its low half.

use vstd::prelude::*;
use std::collections::HashMap;
use crate::error::OOB_TABLE_ACCESS;
use crate::value::WasmValue;

verus! {

broadcast use vstd::std_specs::hash::group_hash_axioms;
/// The instance id in the high half of a handle.
pub open spec fn owner_of(h: u64) -> u32 {
    (h / 0x1_0000_0000) as u32
}

/// The handle for function `func_idx` of instance `owner_id`.  There is
/// no instance zero, and the largest index has no handle: both give the
/// null handle.
pub open spec fn handle_of(owner_id: u32, func_idx: u32) -> u64 {
    if owner_id == 0 || func_idx == u32::MAX {
        0
    } else {
        (owner_id * 0x1_0000_0000 + func_idx + 1) as u64
    }
}

/// Whether the handle is non-null and belongs to instance `id`.
pub open spec fn refers_to(h: u64, id: u32) -> bool {
    h != 0 && owner_of(h) == id
}

/// A function reference.
#[derive(Debug, Copy, Clone, PartialEq, Eq, Default, Structural)]
pub struct FuncRef {
    pub handle: u64,
}

impl FuncRef {
    /// The reference to function `func_idx` of instance `owner_id`.
    pub fn new(owner_id: u32, func_idx: u32) -> (r: Self)
        ensures
            r.handle == handle_of(owner_id, func_idx),
    {
        if owner_id == 0 || func_idx == u32::MAX {
            return FuncRef { handle: 0 };
        }
        FuncRef { handle: (owner_id as u64) * 0x1_0000_0000 + (func_idx as u64) + 1 }
    }

    /// The reference with the given handle.
    pub fn from_raw(handle: u64) -> (r: Self)
        ensures
            r.handle == handle,
    {
        FuncRef { handle }
    }

    /// The handle.
    pub fn as_raw(&self) -> (h: u64)
        ensures
            h == self.handle,
    {
        self.handle
    }

    /// The owner's instance id; zero for the null reference.
    pub fn owner_id(&self) -> (id: u32)
        ensures
            id == owner_of(self.handle),
    {
        (self.handle / 0x1_0000_0000) as u32
    }

    /// The function index inside the owner, or `None` when the low half
    /// of the handle is zero.
    pub fn func_index(&self) -> (r: Option<u32>)
        ensures
            self.handle % 0x1_0000_0000 == 0 ==> r is None,
            self.handle % 0x1_0000_0000 != 0 ==> r == Some(
                (self.handle % 0x1_0000_0000 - 1) as u32,
            ),
    {
        let low: u64 = self.handle % 0x1_0000_0000;
        if low == 0 {
            None
        } else {
            Some((low - 1) as u32)
        }
    }
}

/// A handle gives back the owner and the index it was made from, and it
/// is null only where `handle_of` says so.
pub proof fn lemma_handle_round_trip(owner_id: u32, func_idx: u32)
    requires
        owner_id != 0,
        func_idx != u32::MAX,
    ensures
        handle_of(owner_id, func_idx) != 0,
        owner_of(handle_of(owner_id, func_idx)) == owner_id,
        handle_of(owner_id, func_idx) % 0x1_0000_0000 - 1 == func_idx,
        refers_to(handle_of(owner_id, func_idx), owner_id),
{
}

/// The number of slots that refer to instance `id`.
pub open spec fn slot_refs(slots: Seq<u64>, id: u32) -> nat
    decreases slots.len(),
{
    if slots.len() == 0 {
        0
    } else {
        slot_refs(slots.drop_last(), id) + if refers_to(slots.last(), id) {
            1nat
        } else {
            0nat
        }
    }
}

/// No more slots refer to an instance than there are slots.
pub proof fn lemma_slot_refs_bound(slots: Seq<u64>, id: u32)
    ensures
        slot_refs(slots, id) <= slots.len(),
    decreases slots.len(),
{
    if slots.len() > 0 {
        lemma_slot_refs_bound(slots.drop_last(), id);
    }
}

/// Writing handle `h` into slot `i` moves one reference from the owner
/// of the old handle to the owner of `h`.
pub proof fn lemma_slot_refs_update(slots: Seq<u64>, i: int, h: u64, id: u32)
    requires
        0 <= i < slots.len(),
    ensures
        slot_refs(slots.update(i, h), id) == slot_refs(slots, id) - (if refers_to(slots[i], id) {
            1int
        } else {
            0int
        }) + (if refers_to(h, id) { 1int } else { 0int }),
    decreases slots.len(),
{
    let n = slots.len() - 1;
    if i == n {
        assert(slots.update(i, h).drop_last() =~= slots.drop_last());
    } else {
        assert(slots.update(i, h).drop_last() =~= slots.drop_last().update(i, h));
        lemma_slot_refs_update(slots.drop_last(), i, h, id);
    }
}

/// Appending `n` copies of `h` adds `n` references to the owner of `h`.
pub proof fn lemma_slot_refs_extend(slots: Seq<u64>, n: nat, h: u64, id: u32)
    ensures
        slot_refs(slots + Seq::new(n, |i: int| h), id) == slot_refs(slots, id) + (if refers_to(
            h,
            id,
        ) { n } else { 0nat }),
    decreases n,
{
    let ext = slots + Seq::new(n, |i: int| h);
    if n == 0 {
        assert(ext =~= slots);
    } else {
        let m = (n - 1) as nat;
        assert(ext.drop_last() =~= slots + Seq::new(m, |i: int| h));
        lemma_slot_refs_extend(slots, m, h, id);
    }
}

/// A table of null slots refers to no instance.
pub proof fn lemma_slot_refs_null(n: nat, id: u32)
    ensures
        slot_refs(Seq::new(n, |i: int| 0u64), id) == 0,
{
    lemma_slot_refs_extend(Seq::empty(), n, 0u64, id);
    assert(Seq::<u64>::empty() + Seq::new(n, |i: int| 0u64) =~= Seq::new(n, |i: int| 0u64));
}

/// For each instance id, the number of function references to it that
/// are outstanding.
pub struct RefCounts {
    counts: HashMap<u32, u128>,
}

impl RefCounts {
    /// The number of references to instance `id`.
    pub closed spec fn count(&self, id: u32) -> nat {
        if self.counts@.contains_key(id) {
            self.counts@[id] as nat
        } else {
            0
        }
    }

    /// No references to any instance.
    pub fn new() -> (r: Self)
        ensures
            forall|id: u32| r.count(id) == 0,
    {
        RefCounts { counts: HashMap::new() }
    }

    /// The number of references to instance `id`.
    pub fn get(&self, id: u32) -> (n: u128)
        ensures
            n == self.count(id),
    {
        match self.counts.get(&id) {
            Some(n) => *n,
            None => 0,
        }
    }

    /// Whether any reference to instance `id` is outstanding.
    pub fn has_refs(&self, id: u32) -> (r: bool)
        ensures
            r == (self.count(id) > 0),
    {
        self.get(id) > 0
    }

    /// Records `n` more references to instance `id`.
    pub fn add_refs(&mut self, id: u32, n: u128)
        requires
            old(self).count(id) + n <= u128::MAX,
        ensures
            final(self).count(id) == old(self).count(id) + n,
            forall|other: u32| other != id ==> final(self).count(other) == old(self).count(other),
    {
        let cur: u128 = self.get(id);
        self.counts.insert(id, cur + n);
    }

    /// Records one more reference to instance `id`.
    pub fn inc_ref(&mut self, id: u32)
        requires
            old(self).count(id) < u128::MAX,
        ensures
            final(self).count(id) == old(self).count(id) + 1,
            forall|other: u32| other != id ==> final(self).count(other) == old(self).count(other),
    {
        self.add_refs(id, 1);
    }

    /// Records one reference to instance `id` less, where one is
    /// recorded.  Returns whether the count went from one to zero.
    pub fn dec_ref(&mut self, id: u32) -> (emptied: bool)
        ensures
            final(self).count(id) == if old(self).count(id) > 0 {
                (old(self).count(id) - 1) as nat
            } else {
                0nat
            },
            emptied == (old(self).count(id) == 1),
            forall|other: u32| other != id ==> final(self).count(other) == old(self).count(other),
    {
        let cur: u128 = self.get(id);
        if cur > 0 {
            self.counts.insert(id, cur - 1);
            cur == 1
        } else {
            false
        }
    }
}

/// A table of function references.
pub struct WasmTable {
    elements: Vec<u64>,
    current: u32,
    maximum: u32,
}

impl View for WasmTable {
    type V = Seq<u64>;

    /// The handles in the slots of the table.
    closed spec fn view(&self) -> Seq<u64> {
        self.elements@
    }
}

impl WasmTable {
    /// The number of slots.
    pub closed spec fn spec_size(&self) -> u32 {
        self.current
    }

    /// The largest number of slots that the table may grow to.
    pub closed spec fn spec_max(&self) -> u32 {
        self.maximum
    }

    /// The table holds exactly `size` slots.
    pub closed spec fn wf(&self) -> bool {
        self.elements@.len() == self.current
    }

    /// A well-formed table holds one handle for each slot.
    pub proof fn lemma_wf(&self)
        requires
            self.wf(),
        ensures
            self@.len() == self.spec_size(),
    {
    }

    /// A table of `initial` null slots that may grow to `maximum` slots.
    pub fn new(initial: u32, maximum: u32) -> (t: Self)
        ensures
            t.wf(),
            t.spec_size() == initial,
            t.spec_max() == maximum,
            t@ == Seq::new(initial as nat, |i: int| 0u64),
    {
        let elements: Vec<u64> = vec![0u64; initial as usize];
        assert(elements@ =~= Seq::new(initial as nat, |i: int| 0u64));
        Self { elements, current: initial, maximum }
    }

    /// The number of slots.
    #[verifier::when_used_as_spec(spec_size)]
    pub fn size(&self) -> (r: u32)
        ensures
            r == self.spec_size(),
    {
        self.current
    }

    /// The largest number of slots that the table may grow to.
    #[verifier::when_used_as_spec(spec_max)]
    pub fn max(&self) -> (r: u32)
        ensures
            r == self.spec_max(),
    {
        self.maximum
    }

    /// Whether growing by `delta` slots stays within the maximum.
    pub open spec fn can_grow(&self, delta: u32) -> bool {
        self.spec_size() + delta <= self.spec_max()
    }

    /// Grows the table by `delta` slots that hold `value` and returns the
    /// size before, or returns `u32::MAX` and changes nothing when the
    /// table cannot grow by that much.  Growing by zero always succeeds.
    /// Each new slot that holds a non-null handle counts as a reference
    /// to its owner.
    pub fn grow(&mut self, delta: u32, value: WasmValue, counts: &mut RefCounts) -> (r: u32)
        requires
            old(self).wf(),
            old(self).can_grow(delta) && value.0 != 0 ==> old(counts).count(owner_of(value.0)) + delta
                <= u128::MAX,
        ensures
            final(self).wf(),
            final(self).spec_max() == old(self).spec_max(),
            delta == 0 || !old(self).can_grow(delta) ==> {
                &&& r == if delta == 0 { old(self).spec_size() } else { u32::MAX }
                &&& final(self)@ == old(self)@
                &&& final(self).spec_size() == old(self).spec_size()
                &&& forall|id: u32| final(counts).count(id) == old(counts).count(id)
            },
            delta != 0 && old(self).can_grow(delta) ==> {
                &&& r == old(self).spec_size()
                &&& final(self).spec_size() == old(self).spec_size() + delta
                &&& final(self)@ == old(self)@ + Seq::new(delta as nat, |i: int| value.0)
                &&& forall|id: u32|
                    final(counts).count(id) == old(counts).count(id) + if refers_to(value.0, id) {
                        delta as nat
                    } else {
                        0nat
                    }
            },
    {
        if delta == 0 {
            return self.current;
        }
        let room: u32 = if self.maximum >= self.current {
            self.maximum - self.current
        } else {
            0
        };
        if delta > room {
            return u32::MAX;
        }
        let new_current: u32 = self.current + delta;
        let func_ref = FuncRef::from_raw(value.as_u64());
        if func_ref.as_raw() != 0 {
            counts.add_refs(func_ref.owner_id(), delta as u128);
        }
        self.elements.resize(new_current as usize, func_ref.as_raw());
        assert(self.elements@ =~= old(self).elements@ + Seq::new(delta as nat, |i: int| value.0));
        let before: u32 = self.current;
        self.current = new_current;
        before
    }

    /// The handle in slot `idx`.
    pub fn get(&self, idx: u32) -> (r: Result<WasmValue, &'static str>)
        requires
            self.wf(),
        ensures
            idx < self.spec_size() ==> r == Ok::<WasmValue, &'static str>(WasmValue(self@[idx as int])),
            idx >= self.spec_size() ==> r == Err::<WasmValue, &'static str>(OOB_TABLE_ACCESS),
    {
        let i: usize = idx as usize;
        if i >= self.elements.len() {
            return Err(OOB_TABLE_ACCESS);
        }
        Ok(WasmValue::from_u64(self.elements[i]))
    }

    /// Writes the handle `value` into slot `idx`.  The reference that the
    /// slot held is given up, and the new one is counted.
    pub fn set(&mut self, idx: u32, value: WasmValue, counts: &mut RefCounts) -> (r: Result<
        (),
        &'static str,
    >)
        requires
            old(self).wf(),
            old(counts).count(owner_of(value.0)) < u128::MAX,
        ensures
            final(self).wf(),
            final(self).spec_size() == old(self).spec_size(),
            final(self).spec_max() == old(self).spec_max(),
            idx >= old(self).spec_size() ==> {
                &&& r == Err::<(), &'static str>(OOB_TABLE_ACCESS)
                &&& final(self)@ == old(self)@
                &&& forall|id: u32| final(counts).count(id) == old(counts).count(id)
            },
            idx < old(self).spec_size() ==> {
                &&& r == Ok::<(), &'static str>(())
                &&& final(self)@ == old(self)@.update(idx as int, value.0)
                &&& forall|id: u32|
                    final(counts).count(id) == moved_count(
                        old(counts).count(id),
                        refers_to(old(self)@[idx as int], id),
                        refers_to(value.0, id),
                    )
            },
    {
        let i: usize = idx as usize;
        if i >= self.elements.len() {
            return Err(OOB_TABLE_ACCESS);
        }
        let incoming = FuncRef::from_raw(value.as_u64());
        let outgoing = FuncRef::from_raw(self.elements[i]);
        if incoming.as_raw() != 0 {
            counts.inc_ref(incoming.owner_id());
        }
        self.elements[i] = incoming.as_raw();
        if outgoing.as_raw() != 0 {
            let _ = counts.dec_ref(outgoing.owner_id());
        }
        Ok(())
    }
}

/// The count after a slot write: one more where the new handle refers to
/// the instance, then one less, if any is left, where the old one did.
pub open spec fn moved_count(before: nat, gave_up: bool, gained: bool) -> nat {
    let mid = if gained { before + 1 } else { before };
    if gave_up && mid > 0 {
        (mid - 1) as nat
    } else {
        mid
    }
}

} // verus!
