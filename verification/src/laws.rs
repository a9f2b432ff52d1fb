//! Laws that relate several functions of the library.

use vstd::prelude::*;
use crate::body::{
    CtxView,
    VState,
    br_spec,
    br_if_spec,
    br_table_spec,
    return_spec,
    end_spec,
    simple_spec,
    step_spec,
    target_frame,
    labels_spec,
};
use crate::decoder::compile_spec;
use crate::error::{Error, STACK_EXHAUSTED, OOB_MEMORY_ACCESS};
use crate::instance::{Instance, RuntimeFunction, WasmGlobal};
use crate::func_validator::{start_state, lemma_step_bounds};
use crate::module::{SideEntry, u32_spec};
use crate::nesting::{next_state, state_at};
use crate::semantics::{
    MachineView,
    MemView,
    RunState,
    Signal,
    MAX_CALL_DEPTH,
    enter,
    instr_spec,
    step_spec as machine_step,
    run_spec,
    call_machine,
    load_spec,
    store_spec,
    grow_spec,
};
use crate::signature::{RuntimeSignature, ValType, block_type_spec};
use crate::store::InstanceManager;
use crate::table::WasmTable;
use crate::validator::{Action, FrameView, StackView};
use crate::value::{WasmValue, unsigned32};
use crate::wasm_memory::{access_ok, lemma_store_load, signed8, signed16};

verus! {

/// Decoding is a function of the bytes alone: equal binaries give equal
/// modules or equal errors.
pub proof fn lemma_compile_deterministic(a: Seq<u8>, b: Seq<u8>)
    requires
        a =~= b,
    ensures
        compile_spec(a) == compile_spec(b),
{
}

/// A step leaves the machine with the signal that it gives.
pub proof fn lemma_step_remembers(mgr: InstanceManager, tables: Seq<WasmTable>, st: RunState)
    ensures
        machine_step(mgr, tables, st).0.m.waiting == machine_step(mgr, tables, st).1,
{
}

/// A machine that does not signal that it can go on stays as it is,
/// however long it is run.
pub proof fn lemma_run_stays(mgr: InstanceManager, tables: Seq<WasmTable>, st: RunState, fuel: nat)
    requires
        st.m.waiting != Signal::Continue,
    ensures
        run_spec(mgr, tables, st, fuel) == (st, st.m.waiting),
{
}

/// A run is a function of the store, the machine and the fuel alone, and
/// it does not matter how the fuel is handed out: a run on `a + b` steps
/// is a run on `a` steps followed by a run on `b` steps.
pub proof fn lemma_run_split(mgr: InstanceManager, tables: Seq<WasmTable>, st: RunState, a: nat, b: nat)
    ensures
        run_spec(mgr, tables, st, a + b) == run_spec(mgr, tables, run_spec(mgr, tables, st, a).0, b),
    decreases a,
{
    if a > 0 {
        let (st2, s) = machine_step(mgr, tables, st);
        lemma_step_remembers(mgr, tables, st);
        if s == Signal::Continue {
            lemma_run_split(mgr, tables, st2, (a - 1) as nat, b);
            assert(run_spec(mgr, tables, st, a + b) == run_spec(
                mgr,
                tables,
                st2,
                ((a + b) - 1) as nat,
            ));
        } else {
            lemma_run_stays(mgr, tables, st2, b);
        }
    }
}

/// The value stack is at least as high as the entry height of every open
/// frame, and the entry heights grow from the outermost frame inwards.
pub open spec fn heights_ok(s: StackView) -> bool {
    &&& forall|i: int| 0 <= i < s.ctrls.len() ==> (#[trigger] s.ctrls[i]).height <= s.vals.len()
    &&& forall|i: int, j: int|
        0 <= i <= j < s.ctrls.len() ==> (#[trigger] s.ctrls[i]).height <= (#[trigger] s.ctrls[j]).height
}

/// Popping values keeps the frames and never takes the value stack below
/// the entry height of the innermost frame.
pub proof fn lemma_pops_keep_heights(s: StackView, types: Seq<ValType>, n: nat, acc: Seq<ValType>)
    requires
        heights_ok(s),
        n <= types.len(),
    ensures
        s.pop_vals_from(types, n, acc) matches Ok((_, after)) ==> heights_ok(after) && after.ctrls
            == s.ctrls && after.vals.len() <= s.vals.len(),
    decreases n,
{
    if n > 0 {
        match s.pop_expect(types[n - 1]) {
            Ok((t, s1)) => {
                lemma_pops_keep_heights(s1, types, (n - 1) as nat, seq![t] + acc);
            },
            Err(_) => {},
        }
    }
}

/// Stack discipline: an instruction that leaves the side-table alone
/// keeps the value stack at or above the entry height of every open
/// frame.
pub proof fn lemma_simple_keeps_heights(ctx: CtxView, bytes: Seq<u8>, op: u8, pos: int, s: StackView)
    requires
        heights_ok(s),
    ensures
        simple_spec(ctx, bytes, op, pos, s) matches Ok((_, after)) ==> heights_ok(after),
{
    match simple_spec(ctx, bytes, op, pos, s) {
        Err(_) => {},
        Ok((_, after)) => {
            if op == 0x0c || op == 0x0d {
                let depth = u32_spec(bytes, pos)->Ok_0.0;
                let s1 = if op == 0x0d {
                    s.pop_expect(ValType::I32)->Ok_0.1
                } else {
                    s
                };
                let types = target_frame(s1, depth).label_types();
                lemma_pops_keep_heights(s1, types, types.len(), Seq::empty());
            } else if op == 0x0e {
                let s1 = s.pop_expect(ValType::I32)->Ok_0.1;
                let (n, p) = u32_spec(bytes, pos)->Ok_0;
                let (labels, q) = labels_spec(bytes, p, n as nat, Seq::empty())->Ok_0;
                let default = u32_spec(bytes, q)->Ok_0.0;
                let types = target_frame(s1, default).label_types();
                lemma_pops_keep_heights(s1, types, types.len(), Seq::empty());
            } else if op == 0x10 {
                let idx = u32_spec(bytes, pos)->Ok_0.0;
                let types = ctx.functions[idx as int].ty.params;
                lemma_pops_keep_heights(s, types, types.len(), Seq::empty());
            } else if op == 0x11 {
                let idx = u32_spec(bytes, pos)->Ok_0.0;
                let types = ctx.types[idx as int].params;
                let s1 = s.pop_expect(ValType::I32)->Ok_0.1;
                lemma_pops_keep_heights(s1, types, types.len(), Seq::empty());
            }
        },
    }
}

/// Stack discipline: every instruction keeps the value stack at or above
/// the entry height of every open frame, and keeps the entry heights
/// nested.
pub proof fn lemma_step_keeps_heights(ctx: CtxView, bytes: Seq<u8>, op: u8, st: VState)
    requires
        heights_ok(st.stack),
        st.stack.vals.len() <= usize::MAX,
    ensures
        step_spec(ctx, bytes, op, st) matches Ok((after, _)) ==> heights_ok(after.stack),
{
    if 0x02 <= op <= 0x04 {
        match block_type_spec(ctx.types, bytes, st.pos) {
            Ok((sig, p)) => {
                let s1 = if op == 0x04 {
                    match st.stack.pop_expect(ValType::I32) {
                        Ok((_, s)) => s,
                        Err(_) => st.stack,
                    }
                } else {
                    st.stack
                };
                lemma_pops_keep_heights(s1, sig.params, sig.params.len(), Seq::empty());
                match s1.drop_vals(sig.params) {
                    Ok(s2) => {
                        let after = s2.push_ctrl(sig, crate::body::opened_kind(op, p as usize), st.pos as usize);
                        assert forall|i: int| 0 <= i < after.ctrls.len() implies (
                        #[trigger] after.ctrls[i]).height <= after.vals.len() by {
                            if i < s2.ctrls.len() {
                                assert(after.ctrls[i] == s2.ctrls[i]);
                            }
                        }
                        assert forall|i: int, j: int| 0 <= i <= j < after.ctrls.len() implies (
                        #[trigger] after.ctrls[i]).height <= (#[trigger] after.ctrls[j]).height by {
                            if i < s2.ctrls.len() {
                                assert(after.ctrls[i] == s2.ctrls[i]);
                            }
                            if j < s2.ctrls.len() {
                                assert(after.ctrls[j] == s2.ctrls[j]);
                            }
                        }
                    },
                    Err(_) => {},
                }
            },
            Err(_) => {},
        }
    } else if op == 0x0b {
        lemma_end_keeps_heights(ctx, st);
    } else {
        lemma_simple_keeps_heights(ctx, bytes, op, st.pos, st.stack);
    }
}

/// Stack discipline at an `end`: the frame that is closed holds exactly
/// its result above its entry height, and the frames around it keep
/// their heights.
pub proof fn lemma_end_keeps_heights(ctx: CtxView, st: VState)
    requires
        heights_ok(st.stack),
    ensures
        end_spec(ctx, st) matches Ok((after, _)) ==> heights_ok(after.stack),
        end_spec(ctx, st) matches Ok((after, Action::Continue)) ==> after.stack.vals.len()
            == st.stack.ctrls.last().height + st.stack.ctrls.last().sig.results().len(),
{
    let s = st.stack;
    match end_spec(ctx, st) {
        Ok((after, Action::Continue)) => {
            let f = s.ctrls.last();
            let s1 = s.pop_result(f.sig.result)->Ok_0;
            assert(s1.ctrls == s.ctrls);
            let closed = StackView { vals: s1.vals, ctrls: s1.ctrls.drop_last() };
            assert forall|i: int| 0 <= i < closed.ctrls.len() implies (#[trigger] closed.ctrls[i]).height
                <= closed.vals.len() by {
                assert(closed.ctrls[i] == s.ctrls[i]);
                assert(s.ctrls[i].height <= s.ctrls[s.ctrls.len() - 1].height);
            }
            assert forall|i: int, j: int| 0 <= i <= j < closed.ctrls.len() implies (
            #[trigger] closed.ctrls[i]).height <= (#[trigger] closed.ctrls[j]).height by {
                assert(closed.ctrls[i] == s.ctrls[i]);
                assert(closed.ctrls[j] == s.ctrls[j]);
            }
        },
        _ => {},
    }
}

/// Whether the value stack is within the bounds of the machine wherever
/// validation, started in `st`, stands up to the position `p`.
pub open spec fn stack_fits(ctx: CtxView, bytes: Seq<u8>, st: VState, p: int) -> bool
    decreases bytes.len() - st.pos,
{
    &&& st.stack.vals.len() <= usize::MAX
    &&& st.pos < p ==> match next_state(ctx, bytes, st) {
        Some(st2) => {
            proof {
                lemma_step_bounds(ctx, bytes, bytes[st.pos], VState { pos: st.pos + 1, ..st });
            }
            stack_fits(ctx, bytes, st2, p)
        },
        None => true,
    }
}

/// Stack discipline: validation of a function starts with the value
/// stack at the entry height of the function frame, which is the number
/// of the parameters.
pub proof fn lemma_start_heights(ctx: CtxView, side: Map<usize, SideEntry>)
    requires
        ctx.func().ty.params.len() <= usize::MAX,
    ensures
        heights_ok(start_state(ctx, side).stack),
        start_state(ctx, side).stack.vals.len() == start_state(ctx, side).stack.ctrls[0].height,
{
}

/// Stack discipline: wherever validation stands between two
/// instructions, the value stack is at or above the entry height of
/// every open frame, and the entry heights are nested.
pub proof fn lemma_heights_everywhere(ctx: CtxView, bytes: Seq<u8>, st: VState, p: int)
    requires
        heights_ok(st.stack),
        stack_fits(ctx, bytes, st, p),
        state_at(ctx, bytes, st, p) is Some,
    ensures
        heights_ok(state_at(ctx, bytes, st, p)->Some_0.stack),
    decreases bytes.len() - st.pos,
{
    if st.pos != p {
        let st1 = VState { pos: st.pos + 1, ..st };
        let st2 = next_state(ctx, bytes, st)->Some_0;
        lemma_step_bounds(ctx, bytes, bytes[st.pos], st1);
        lemma_step_keeps_heights(ctx, bytes, bytes[st.pos], st1);
        lemma_heights_everywhere(ctx, bytes, st2, p);
    }
}

/// From the bottom of an unreachable frame, popping `n` of `types`
/// yields those types and leaves the stacks as they are.
proof fn lemma_pops_from_bottom(s: StackView, types: Seq<ValType>, n: nat, acc: Seq<ValType>)
    requires
        s.ctrls.len() > 0,
        s.ctrls.last().unreachable,
        s.vals.len() == s.ctrls.last().height,
        n <= types.len(),
    ensures
        s.pop_vals_from(types, n, acc) == Ok::<(Seq<ValType>, StackView), Error>(
            (types.subrange(0, n as int) + acc, s),
        ),
    decreases n,
{
    if n > 0 {
        lemma_pops_from_bottom(s, types, (n - 1) as nat, seq![types[n - 1]] + acc);
        assert(types.subrange(0, n - 1) + (seq![types[n - 1]] + acc) =~= types.subrange(0, n as int)
            + acc);
    } else {
        assert(types.subrange(0, 0) + acc =~= acc);
    }
}

/// From a stack that holds the first `n` of `types` above the entry
/// height of the innermost frame, popping those `n` yields them and
/// leaves the value stack at the entry height.
proof fn lemma_pops_what_was_pushed(
    base: Seq<ValType>,
    ctrls: Seq<FrameView>,
    types: Seq<ValType>,
    n: nat,
    acc: Seq<ValType>,
)
    requires
        ctrls.len() > 0,
        base.len() == ctrls.last().height,
        n <= types.len(),
    ensures
        (StackView { vals: base + types.subrange(0, n as int), ctrls }).pop_vals_from(types, n, acc)
            == Ok::<(Seq<ValType>, StackView), Error>(
            (types.subrange(0, n as int) + acc, StackView { vals: base, ctrls }),
        ),
    decreases n,
{
    let s = StackView { vals: base + types.subrange(0, n as int), ctrls };
    if n > 0 {
        let t = types[n - 1];
        assert(s.vals.last() == t);
        assert(s.vals.drop_last() =~= base + types.subrange(0, n - 1));
        lemma_pops_what_was_pushed(base, ctrls, types, (n - 1) as nat, seq![t] + acc);
        assert(types.subrange(0, n - 1) + (seq![t] + acc) =~= types.subrange(0, n as int) + acc);
    } else {
        assert(base + types.subrange(0, 0) =~= base);
        assert(types.subrange(0, 0) + acc =~= acc);
    }
}

/// A branch from the bottom of an unreachable frame validates as the
/// same branch from a reachable frame that holds the label types of the
/// target: both succeed, and both leave the same state.
pub proof fn lemma_polymorphic_branch(bytes: Seq<u8>, pos: int, s: StackView)
    requires
        s.ctrls.len() > 0,
        s.ctrls.last().unreachable,
        s.vals.len() == s.ctrls.last().height,
        u32_spec(bytes, pos) matches Ok((depth, _)) && depth < s.ctrls.len(),
    ensures
        ({
            let depth = u32_spec(bytes, pos)->Ok_0.0;
            let reachable = StackView {
                vals: s.vals + target_frame(s, depth).label_types(),
                ctrls: s.ctrls.update(
                    s.ctrls.len() - 1,
                    FrameView { unreachable: false, ..s.ctrls.last() },
                ),
            };
            &&& br_spec(bytes, pos, s) is Ok
            &&& br_spec(bytes, pos, reachable) == br_spec(bytes, pos, s)
        }),
{
    let depth = u32_spec(bytes, pos)->Ok_0.0;
    let types = target_frame(s, depth).label_types();
    let ctrls = s.ctrls.update(s.ctrls.len() - 1, FrameView { unreachable: false, ..s.ctrls.last() });
    let reachable = StackView { vals: s.vals + types, ctrls };
    lemma_pops_from_bottom(s, types, types.len(), Seq::empty());
    lemma_pops_what_was_pushed(s.vals, ctrls, types, types.len(), Seq::empty());
    assert(types.subrange(0, types.len() as int) =~= types);
    assert(target_frame(reachable, depth).label_types() == types);
    let left = StackView { vals: s.vals, ctrls };
    assert(left.unreachable().vals =~= s.vals);
    assert(left.unreachable().ctrls =~= s.ctrls);
    assert(s.unreachable().vals =~= s.vals);
    assert(s.unreachable().ctrls =~= s.ctrls);
}

/// The stacks of a frame that is reachable and holds `types` above
/// what `s` holds, where `s` stands at the bottom of an unreachable
/// frame.
pub open spec fn made_reachable(s: StackView, types: Seq<ValType>) -> StackView {
    StackView {
        vals: s.vals + types,
        ctrls: s.ctrls.update(s.ctrls.len() - 1, FrameView { unreachable: false, ..s.ctrls.last() }),
    }
}

/// A `return` from the bottom of an unreachable frame validates as the
/// same `return` from a reachable frame that holds the result of the
/// function: both succeed, and both leave the same state.
pub proof fn lemma_polymorphic_return(pos: int, s: StackView)
    requires
        s.ctrls.len() > 0,
        s.ctrls.last().unreachable,
        s.vals.len() == s.ctrls.last().height,
    ensures
        return_spec(pos, s) is Ok,
        return_spec(pos, made_reachable(s, s.ctrls[0].sig.results())) == return_spec(pos, s),
{
    let types = s.ctrls[0].sig.results();
    let reachable = made_reachable(s, types);
    assert(reachable.ctrls[0].sig == s.ctrls[0].sig);
    let left = StackView { vals: s.vals, ctrls: reachable.ctrls };
    match s.ctrls[0].sig.result {
        Some(t) => {
            assert(types =~= seq![t]);
            assert(reachable.vals.last() == t);
            assert(reachable.vals.drop_last() =~= s.vals);
        },
        None => {
            assert(reachable.vals =~= s.vals);
        },
    }
    assert(left.unreachable().vals =~= s.vals);
    assert(left.unreachable().ctrls =~= s.ctrls);
    assert(s.unreachable().vals =~= s.vals);
    assert(s.unreachable().ctrls =~= s.ctrls);
}

/// A `br_if` from the bottom of an unreachable frame validates as the
/// same `br_if` from a reachable frame that holds the label types of the
/// target and the condition: both succeed, at the same position and with
/// the same value stack, and each leaves its frames as they were.
pub proof fn lemma_polymorphic_br_if(bytes: Seq<u8>, pos: int, s: StackView)
    requires
        s.ctrls.len() > 0,
        s.ctrls.last().unreachable,
        s.vals.len() == s.ctrls.last().height,
        u32_spec(bytes, pos) matches Ok((depth, _)) && depth < s.ctrls.len(),
    ensures
        ({
            let depth = u32_spec(bytes, pos)->Ok_0.0;
            let types = target_frame(s, depth).label_types();
            let reachable = made_reachable(s, types.push(ValType::I32));
            &&& br_if_spec(bytes, pos, s) matches Ok((p, after)) && after.ctrls == s.ctrls && after.vals
                == s.vals + types
            &&& br_if_spec(bytes, pos, reachable) matches Ok((q, other)) && other.ctrls == reachable.ctrls
                && other.vals == s.vals + types && q == br_if_spec(bytes, pos, s)->Ok_0.0
        }),
{
    let depth = u32_spec(bytes, pos)->Ok_0.0;
    let types = target_frame(s, depth).label_types();
    let reachable = made_reachable(s, types.push(ValType::I32));
    let ctrls = reachable.ctrls;
    assert(reachable.vals.last() == ValType::I32);
    assert(reachable.vals.drop_last() =~= s.vals + types);
    let middle = StackView { vals: s.vals + types, ctrls };
    assert(target_frame(middle, depth).label_types() == types);
    lemma_pops_from_bottom(s, types, types.len(), Seq::empty());
    lemma_pops_what_was_pushed(s.vals, ctrls, types, types.len(), Seq::empty());
    assert(types.subrange(0, types.len() as int) =~= types);
    assert(types + Seq::<ValType>::empty() =~= types);
}

/// A `br_table` from the bottom of an unreachable frame validates as the
/// same `br_table` from a reachable frame that holds the label types of
/// the default target and the index: both give the same outcome.
pub proof fn lemma_polymorphic_br_table(bytes: Seq<u8>, pos: int, s: StackView, default: u32)
    requires
        s.ctrls.len() > 0,
        s.ctrls.last().unreachable,
        s.vals.len() == s.ctrls.last().height,
        default < s.ctrls.len(),
        u32_spec(bytes, pos) matches Ok((n, p)) && (labels_spec(bytes, p, n as nat, Seq::empty()) matches Ok(
            (_, q),
        ) && (u32_spec(bytes, q) matches Ok((d, _)) && d == default)),
    ensures
        br_table_spec(
            bytes,
            pos,
            made_reachable(s, target_frame(s, default).label_types().push(ValType::I32)),
        ) == br_table_spec(bytes, pos, s),
{
    let types = target_frame(s, default).label_types();
    let reachable = made_reachable(s, types.push(ValType::I32));
    let ctrls = reachable.ctrls;
    assert(reachable.vals.last() == ValType::I32);
    assert(reachable.vals.drop_last() =~= s.vals + types);
    let middle = StackView { vals: s.vals + types, ctrls };
    assert(reachable.pop_expect(ValType::I32) == Ok::<(ValType, StackView), Error>((ValType::I32, middle)));
    assert(s.pop_expect(ValType::I32) == Ok::<(ValType, StackView), Error>((ValType::I32, s)));
    assert forall|x: u32| x < s.ctrls.len() implies #[trigger] target_frame(middle, x).label_types()
        == target_frame(s, x).label_types() by {}
    lemma_pops_from_bottom(s, types, types.len(), Seq::empty());
    lemma_pops_what_was_pushed(s.vals, ctrls, types, types.len(), Seq::empty());
    assert(types.subrange(0, types.len() as int) =~= types);
    let left = StackView { vals: s.vals, ctrls };
    assert(left.unreachable().vals =~= s.vals);
    assert(left.unreachable().ctrls =~= s.ctrls);
    assert(s.unreachable().vals =~= s.vals);
    assert(s.unreachable().ctrls =~= s.ctrls);
    let (n, p) = u32_spec(bytes, pos)->Ok_0;
    let (labels, q) = labels_spec(bytes, p, n as nat, Seq::empty())->Ok_0;
    let all = labels.push(default);
    assert((exists|i: int| 0 <= i < all.len() && all[i] >= middle.ctrls.len()) == (exists|i: int|
        0 <= i < all.len() && all[i] >= s.ctrls.len()));
    if !(exists|i: int| 0 <= i < all.len() && all[i] >= s.ctrls.len()) {
        assert forall|i: int| 0 <= i < all.len() implies #[trigger] target_frame(middle, all[i]).label_types()
            == target_frame(s, all[i]).label_types() by {
            assert(all[i] < s.ctrls.len());
        }
        if exists|i: int|
            0 <= i < all.len() && #[trigger] target_frame(middle, all[i]).label_types() != types {
            let i = choose|i: int|
                0 <= i < all.len() && #[trigger] target_frame(middle, all[i]).label_types() != types;
            assert(target_frame(s, all[i]).label_types() != types);
        }
        if exists|i: int| 0 <= i < all.len() && #[trigger] target_frame(s, all[i]).label_types() != types {
            let i = choose|i: int|
                0 <= i < all.len() && #[trigger] target_frame(s, all[i]).label_types() != types;
            assert(target_frame(middle, all[i]).label_types() != types);
        }
    }
}

/// Stack discipline after `unreachable` and after a branch: the frame
/// that is marked unreachable holds nothing above its entry height.
pub proof fn lemma_unreachable_empties(s: StackView)
    requires
        heights_ok(s),
        s.ctrls.len() > 0,
    ensures
        s.unreachable().vals.len() == s.ctrls.last().height,
        s.unreachable().ctrls.last().unreachable,
        heights_ok(s.unreachable()),
{
    let after = s.unreachable();
    assert(s.ctrls[s.ctrls.len() - 1].height <= s.vals.len());
    assert forall|i: int| 0 <= i < after.ctrls.len() implies (#[trigger] after.ctrls[i]).height
        <= after.vals.len() by {
        assert(s.ctrls[i].height <= s.ctrls[s.ctrls.len() - 1].height);
    }
    assert forall|i: int, j: int| 0 <= i <= j < after.ctrls.len() implies (#[trigger] after.ctrls[i]).height
        <= (#[trigger] after.ctrls[j]).height by {
        assert(s.ctrls[i].height <= s.ctrls[j].height);
    }
}

/// The reinterpretations between an integer and the float of the same
/// width leave the machine, the memories and the globals as they are:
/// every bit pattern, that of a NaN too, survives them in both
/// directions.
pub proof fn lemma_reinterpret_keeps_bits(
    mgr: InstanceManager,
    tables: Seq<WasmTable>,
    inst: Instance,
    op: u8,
    st: RunState,
)
    requires
        0xbc <= op <= 0xbf,
    ensures
        instr_spec(mgr, tables, inst, op, st) == Ok::<(RunState, Signal), Error>((st, Signal::Continue)),
{
}

/// `memory.grow` by zero pages leaves the memory as it is and yields its
/// size; `memory.grow` beyond the maximum leaves the memory as it is and
/// yields `u32::MAX`.
pub proof fn lemma_grow_edges(mem: MemView, delta: u32)
    ensures
        grow_spec(mem, 0) == (mem, mem.size),
        mem.size + delta > mem.max && delta != 0 ==> grow_spec(mem, delta) == (mem, u32::MAX),
{
}

/// A store followed by the load of the same width at the same place
/// yields what was stored: the whole value for `i32` and `i64`, and the
/// low byte or the low two bytes, extended by zeros or by their sign,
/// for the partial accesses of `i32`.
pub proof fn lemma_store_then_load(mem: MemView, addr: u32, offset: u32, v: u64)
    ensures
        store_spec(mem, 0x36, addr, offset, v) matches Ok(after) ==> load_spec(
            after,
            0x28,
            addr,
            offset,
        ) == Ok::<u64, Error>((v % 0x1_0000_0000) as u64),
        store_spec(mem, 0x37, addr, offset, v) matches Ok(after) ==> load_spec(
            after,
            0x29,
            addr,
            offset,
        ) == Ok::<u64, Error>(v),
        store_spec(mem, 0x3a, addr, offset, v) matches Ok(after) ==> load_spec(
            after,
            0x2d,
            addr,
            offset,
        ) == Ok::<u64, Error>((v % 0x100) as u64) && load_spec(after, 0x2c, addr, offset) == Ok::<
            u64,
            Error,
        >(unsigned32(signed8(v as int % 0x100)) as u64),
        store_spec(mem, 0x3b, addr, offset, v) matches Ok(after) ==> load_spec(
            after,
            0x2f,
            addr,
            offset,
        ) == Ok::<u64, Error>((v % 0x1_0000) as u64) && load_spec(after, 0x2e, addr, offset) == Ok::<
            u64,
            Error,
        >(unsigned32(signed16(v as int % 0x1_0000)) as u64),
        !access_ok(mem.bytes.len(), addr, offset, 4) ==> store_spec(mem, 0x36, addr, offset, v) == Err::<
            MemView,
            Error,
        >(Error::Trap(OOB_MEMORY_ACCESS)) && load_spec(mem, 0x28, addr, offset) == Err::<u64, Error>(
            Error::Trap(OOB_MEMORY_ACCESS),
        ),
{
    let a = addr + offset;
    if access_ok(mem.bytes.len(), addr, offset, 1) {
        lemma_store_load(mem.bytes, a, v as int % 0x100);
    }
    if access_ok(mem.bytes.len(), addr, offset, 2) {
        lemma_store_load(mem.bytes, a, v as int % 0x1_0000);
    }
    if access_ok(mem.bytes.len(), addr, offset, 4) {
        lemma_store_load(mem.bytes, a, v as int % 0x1_0000_0000);
    }
    if access_ok(mem.bytes.len(), addr, offset, 8) {
        lemma_store_load(mem.bytes, a, v as int);
    }
}

/// A call at the deepest nesting of calls traps: the call stack is
/// exhausted.
pub proof fn lemma_call_depth(
    m: MachineView,
    instance: u32,
    sig: RuntimeSignature,
    pc_start: usize,
    locals_count: usize,
)
    requires
        m.frames.len() >= MAX_CALL_DEPTH,
    ensures
        enter(m, instance, sig, pc_start, locals_count) == Err::<(MachineView, Signal), Error>(
            Error::Trap(STACK_EXHAUSTED),
        ),
{
}

/// The call stack never grows beyond the deepest nesting of calls: a
/// step of a machine with at most `MAX_CALL_DEPTH` call frames leaves it
/// with at most as many.
pub proof fn lemma_step_keeps_depth(mgr: InstanceManager, tables: Seq<WasmTable>, st: RunState)
    requires
        st.m.frames.len() <= MAX_CALL_DEPTH,
    ensures
        machine_step(mgr, tables, st).0.m.frames.len() <= MAX_CALL_DEPTH,
{
}

/// The call stack never grows beyond the deepest nesting of calls,
/// however long the machine runs.  With [`lemma_call_depth`]: a
/// recursion that does not end fails with the trap of the exhausted
/// call stack, and nothing else can stop it but the end of the fuel.
pub proof fn lemma_run_keeps_depth(mgr: InstanceManager, tables: Seq<WasmTable>, st: RunState, fuel: nat)
    requires
        st.m.frames.len() <= MAX_CALL_DEPTH,
    ensures
        run_spec(mgr, tables, st, fuel).0.m.frames.len() <= MAX_CALL_DEPTH,
    decreases fuel,
{
    if fuel > 0 {
        lemma_step_keeps_depth(mgr, tables, st);
        let (st2, s) = machine_step(mgr, tables, st);
        if s == Signal::Continue {
            lemma_run_keeps_depth(mgr, tables, st2, (fuel - 1) as nat);
        }
    }
}

/// A call starts with one call frame at most, and so every run of it
/// stays within the deepest nesting of calls.
pub proof fn lemma_call_keeps_depth(
    mgr: InstanceManager,
    tables: Seq<WasmTable>,
    instance: u32,
    f: RuntimeFunction,
    args: Seq<WasmValue>,
    mems: Seq<MemView>,
    globals: Seq<WasmGlobal>,
    fuel: nat,
)
    ensures
        call_machine(mgr, instance, f, args).frames.len() <= 1,
        run_spec(
            mgr,
            tables,
            RunState { m: call_machine(mgr, instance, f, args), mems, globals },
            fuel,
        ).0.m.frames.len() <= MAX_CALL_DEPTH,
{
    lemma_run_keeps_depth(
        mgr,
        tables,
        RunState { m: call_machine(mgr, instance, f, args), mems, globals },
        fuel,
    );
}

/// An instruction that fails writes nothing: a step that ends in a
/// failure leaves the memories and the globals as they were.
pub proof fn lemma_failure_writes_nothing(mgr: InstanceManager, tables: Seq<WasmTable>, st: RunState)
    requires
        st.m.waiting == Signal::Continue,
        machine_step(mgr, tables, st).1 is Failed,
    ensures
        machine_step(mgr, tables, st).0.mems == st.mems,
        machine_step(mgr, tables, st).0.globals == st.globals,
{
}

} // verus!
