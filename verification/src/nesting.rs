//! The side-table of a validated function: every `block`, `loop` and
//! `if` of the body has an entry that says where its body starts, where
//! its `else` branch starts and where it ends.

use vstd::prelude::*;
use crate::body::{
    CtxView,
    VState,
    else_spec,
    open_spec,
    end_spec,
    simple_spec,
    step_spec,
    target_frame,
    labels_spec,
};
use crate::error::Error;
use crate::func_validator::{body_spec, function_spec, start_state, lemma_step_bounds};
use crate::leb128::lemma_group_len_positive;
use crate::module::{FunctionView, ModuleView, SideEntry, opcode_offset, u32_spec};
use crate::segments::{code_entry_spec, code_entries_spec, code_section_spec, ctx_of, lemma_locals_bounds};
use crate::signature::{SignatureView, ValType, block_type_spec};
use crate::validator::{Action, ControlType, StackView};

verus! {

/// Whether the frames of `b` are those of `a` but for what they say of
/// the value stack: as many, each for the same construct.
pub open spec fn same_constructs(a: StackView, b: StackView) -> bool {
    &&& a.ctrls.len() == b.ctrls.len()
    &&& forall|i: int|
        0 <= i < a.ctrls.len() ==> (#[trigger] b.ctrls[i]).sig_pc == a.ctrls[i].sig_pc
            && b.ctrls[i].control_type == a.ctrls[i].control_type
}

/// Popping values leaves the frames as they are.
proof fn lemma_pops_keep_frames(s: StackView, types: Seq<ValType>, n: nat, acc: Seq<ValType>)
    requires
        n <= types.len(),
    ensures
        s.pop_vals_from(types, n, acc) matches Ok((_, after)) ==> after.ctrls == s.ctrls,
    decreases n,
{
    if n > 0 {
        match s.pop_expect(types[n - 1]) {
            Ok((t, s1)) => {
                lemma_pops_keep_frames(s1, types, (n - 1) as nat, seq![t] + acc);
            },
            Err(_) => {},
        }
    }
}

/// An instruction that leaves the side-table alone, other than `else`,
/// leaves every frame with its construct.
proof fn lemma_simple_keeps_constructs(ctx: CtxView, bytes: Seq<u8>, op: u8, pos: int, s: StackView)
    requires
        op != 0x05,
    ensures
        simple_spec(ctx, bytes, op, pos, s) matches Ok((_, after)) ==> same_constructs(s, after),
{
    match simple_spec(ctx, bytes, op, pos, s) {
        Err(_) => {},
        Ok((_, after)) => {
            if op == 0x0c || op == 0x0d {
                let depth = u32_spec(bytes, pos)->Ok_0.0;
                let s1 = if op == 0x0d {
                    s.pop_expect(ValType::I32)->Ok_0.1
                } else {
                    s
                };
                let types = target_frame(s1, depth).label_types();
                lemma_pops_keep_frames(s1, types, types.len(), Seq::empty());
            } else if op == 0x0e {
                let s1 = s.pop_expect(ValType::I32)->Ok_0.1;
                let (n, p) = u32_spec(bytes, pos)->Ok_0;
                let (labels, q) = labels_spec(bytes, p, n as nat, Seq::empty())->Ok_0;
                let default = u32_spec(bytes, q)->Ok_0.0;
                let types = target_frame(s1, default).label_types();
                lemma_pops_keep_frames(s1, types, types.len(), Seq::empty());
            } else if op == 0x10 {
                let idx = u32_spec(bytes, pos)->Ok_0.0;
                let types = ctx.functions[idx as int].ty.params;
                lemma_pops_keep_frames(s, types, types.len(), Seq::empty());
            } else if op == 0x11 {
                let idx = u32_spec(bytes, pos)->Ok_0.0;
                let types = ctx.types[idx as int].params;
                let s1 = s.pop_expect(ValType::I32)->Ok_0.1;
                lemma_pops_keep_frames(s1, types, types.len(), Seq::empty());
            }
        },
    }
}

/// An `else` turns the innermost frame, which is that of an `if`, into
/// the frame of its second branch, which starts at `pos`, and leaves the
/// frames around it as they are.
proof fn lemma_else_keeps_constructs(pos: int, s: StackView)
    ensures
        else_spec(pos, s) matches Ok((p, after)) ==> {
            &&& p == pos
            &&& s.ctrls.len() > 0
            &&& after.ctrls.len() == s.ctrls.len()
            &&& s.ctrls.last().control_type is If
            &&& after.ctrls.last().sig_pc == s.ctrls.last().sig_pc
            &&& after.ctrls.last().control_type matches ControlType::IfElse { else_start, .. }
                && else_start == pos as usize
            &&& forall|i: int| 0 <= i < s.ctrls.len() - 1 ==> #[trigger] after.ctrls[i] == s.ctrls[i]
        },
{
}

/// The state after the instruction that stands at `st.pos`, where it is
/// valid and does not end the body.
pub open spec fn next_state(ctx: CtxView, bytes: Seq<u8>, st: VState) -> Option<VState> {
    if st.pos < 0 || st.pos >= bytes.len() {
        None
    } else {
        match step_spec(ctx, bytes, bytes[st.pos], VState { pos: st.pos + 1, ..st }) {
            Ok((st2, Action::Continue)) => Some(st2),
            _ => None,
        }
    }
}

/// The state in which validation, started in `st`, stands before the
/// instruction at `p`; `None` where it does not come to stand there.
pub open spec fn state_at(ctx: CtxView, bytes: Seq<u8>, st: VState, p: int) -> Option<VState>
    decreases bytes.len() - st.pos,
{
    if st.pos == p {
        Some(st)
    } else if p < st.pos {
        None
    } else {
        match next_state(ctx, bytes, st) {
            Some(st2) => {
                proof {
                    lemma_step_bounds(ctx, bytes, bytes[st.pos], VState { pos: st.pos + 1, ..st });
                }
                state_at(ctx, bytes, st2, p)
            },
            None => None,
        }
    }
}

/// Whether validation, started in `st`, comes to stand before the opcode
/// `op` at `q` with `depth` open frames.
pub open spec fn stands(ctx: CtxView, bytes: Seq<u8>, st: VState, q: int, op: u8, depth: int) -> bool {
    &&& 0 <= q < bytes.len()
    &&& bytes[q] == op
    &&& state_at(ctx, bytes, st, q) matches Some(s) && s.stack.ctrls.len() == depth
}

/// An instruction moves forward by at least its opcode.
proof fn lemma_next_moves(ctx: CtxView, bytes: Seq<u8>, st: VState)
    ensures
        next_state(ctx, bytes, st) matches Some(st2) ==> 0 <= st.pos < st2.pos <= bytes.len(),
{
    if 0 <= st.pos < bytes.len() {
        lemma_step_bounds(ctx, bytes, bytes[st.pos], VState { pos: st.pos + 1, ..st });
    }
}

/// Validation stands only at positions from where it started on.
proof fn lemma_state_at_later(ctx: CtxView, bytes: Seq<u8>, st: VState, p: int)
    ensures
        state_at(ctx, bytes, st, p) matches Some(s) ==> s.pos == p && st.pos <= p,
    decreases bytes.len() - st.pos,
{
    if st.pos != p && p > st.pos {
        match next_state(ctx, bytes, st) {
            Some(st2) => {
                lemma_next_moves(ctx, bytes, st);
                lemma_state_at_later(ctx, bytes, st2, p);
            },
            None => {},
        }
    }
}

/// From a state in which validation stands it goes on as from the
/// start: it stands at the same later positions in the same states.
proof fn lemma_state_at_from(ctx: CtxView, bytes: Seq<u8>, st: VState, m: int, q: int)
    requires
        state_at(ctx, bytes, st, m) is Some,
        m <= q,
    ensures
        state_at(ctx, bytes, st, q) == state_at(ctx, bytes, state_at(ctx, bytes, st, m)->Some_0, q),
    decreases bytes.len() - st.pos,
{
    if st.pos != m {
        let st2 = next_state(ctx, bytes, st)->Some_0;
        lemma_next_moves(ctx, bytes, st);
        lemma_state_at_from(ctx, bytes, st2, m, q);
        lemma_state_at_later(ctx, bytes, st2, m);
    }
}

/// Validation does not stand inside an instruction.
proof fn lemma_not_inside(ctx: CtxView, bytes: Seq<u8>, st: VState, q: int)
    requires
        next_state(ctx, bytes, st) matches Some(st2) && st.pos < q < st2.pos,
    ensures
        state_at(ctx, bytes, st, q) is None,
{
    let st2 = next_state(ctx, bytes, st)->Some_0;
    lemma_next_moves(ctx, bytes, st);
    lemma_state_at_later(ctx, bytes, st2, q);
}

/// From a state in which validation stands it ends as from the start.
proof fn lemma_body_from(ctx: CtxView, bytes: Seq<u8>, st: VState, m: int)
    requires
        state_at(ctx, bytes, st, m) is Some,
    ensures
        body_spec(ctx, bytes, st) == body_spec(ctx, bytes, state_at(ctx, bytes, st, m)->Some_0),
    decreases bytes.len() - st.pos,
{
    if st.pos != m {
        let st2 = next_state(ctx, bytes, st)->Some_0;
        lemma_next_moves(ctx, bytes, st);
        lemma_body_from(ctx, bytes, st2, m);
    }
}

/// Whether the entry `e` says of a construct with the block type `sig`
/// that its body starts at `body`, and has the arity of `sig`.
pub open spec fn opened_as(e: SideEntry, sig: SignatureView, body: int) -> bool {
    &&& e.body_pc == body
    &&& e.params_len == sig.params.len() % 0x1_0000
    &&& e.has_result == (sig.result is Some)
}

/// Opening a construct pushes its frame and writes the entry of the
/// construct only.
proof fn lemma_open_frames(ctx: CtxView, bytes: Seq<u8>, op: u8, st: VState)
    requires
        0x02 <= op <= 0x04,
        0 < st.pos <= bytes.len() <= usize::MAX,
        open_spec(ctx, bytes, op, st) is Ok,
    ensures
        ({
            let after = open_spec(ctx, bytes, op, st)->Ok_0;
            let f = after.stack.ctrls.last();
            let key = (st.pos - 1) as usize;
            &&& block_type_spec(ctx.types, bytes, st.pos) matches Ok((sig, p)) && after.pos == p
                && after.side.contains_key(key) && opened_as(after.side[key], sig, p)
            &&& st.pos < after.pos <= bytes.len()
            &&& after.stack.ctrls.len() == st.stack.ctrls.len() + 1
            &&& forall|i: int| 0 <= i < st.stack.ctrls.len() ==> #[trigger] after.stack.ctrls[i] == st.stack.ctrls[i]
            &&& f.sig_pc == st.pos
            &&& !(f.control_type is Function) && !(f.control_type is IfElse)
            &&& forall|k: usize|
                k != key ==> after.side.contains_key(k) == st.side.contains_key(k) && (st.side.contains_key(k)
                    ==> after.side[k] == st.side[k])
        }),
{
    lemma_group_len_positive(bytes, st.pos);
    match block_type_spec(ctx.types, bytes, st.pos) {
        Ok((sig, p)) => {
            let s1 = if op == 0x04 {
                st.stack.pop_expect(ValType::I32)->Ok_0.1
            } else {
                st.stack
            };
            lemma_pops_keep_frames(s1, sig.params, sig.params.len(), Seq::empty());
        },
        Err(_) => {},
    }
}

/// Closing a construct pops its frame and fills the entry of the
/// construct only.
proof fn lemma_end_frames(ctx: CtxView, st: VState)
    requires
        end_spec(ctx, st) matches Ok((_, Action::Continue)),
    ensures
        ({
            let after = end_spec(ctx, st)->Ok_0.0;
            let f = st.stack.ctrls.last();
            let key = opcode_offset(f.sig_pc);
            &&& st.stack.ctrls.len() >= 2
            &&& after.pos == st.pos
            &&& after.stack.ctrls == st.stack.ctrls.drop_last()
            &&& forall|k: usize|
                k != key ==> after.side.contains_key(k) == st.side.contains_key(k) && (st.side.contains_key(k)
                    ==> after.side[k] == st.side[k])
            &&& after.side.contains_key(key) == st.side.contains_key(key)
            &&& st.side.contains_key(key) && !(f.control_type is Function) ==> after.side[key] == (SideEntry {
                end_pc: st.pos as usize,
                else_pc: match f.control_type {
                    ControlType::IfElse { if_start, else_start } => else_start,
                    _ => st.pos as usize,
                },
                ..st.side[key]
            })
        }),
{
}

/// Only the end of the function frame ends the body, and it leaves the
/// side-table alone.
proof fn lemma_last_step(ctx: CtxView, bytes: Seq<u8>, op: u8, st: VState)
    ensures
        step_spec(ctx, bytes, op, st) matches Ok((after, Action::End)) ==> after.side == st.side
            && st.stack.ctrls.len() == 1,
{
}

/// Whether no open construct, but the one of the frame `d`, has its
/// opcode at `key`.  The function frame, which is frame `0`, belongs to
/// no construct.
pub open spec fn others_differ(s: StackView, key: usize, d: int) -> bool {
    forall|i: int| 1 <= i < s.ctrls.len() && i != d ==> opcode_offset((#[trigger] s.ctrls[i]).sig_pc) != key
}

/// Whether every open construct has its opcode before `pos`.
pub open spec fn opened_before(s: StackView, pos: int) -> bool {
    &&& s.ctrls.len() >= 1
    &&& forall|i: int| 1 <= i < s.ctrls.len() ==> opcode_offset((#[trigger] s.ctrls[i]).sig_pc) < pos
}

/// An instruction keeps the opcodes of the open constructs before the
/// position of validation.
proof fn lemma_next_opened_before(ctx: CtxView, bytes: Seq<u8>, st: VState)
    requires
        bytes.len() <= usize::MAX,
        opened_before(st.stack, st.pos),
        next_state(ctx, bytes, st) is Some,
    ensures
        opened_before(next_state(ctx, bytes, st)->Some_0.stack, next_state(ctx, bytes, st)->Some_0.pos),
{
    let op = bytes[st.pos];
    let st1 = VState { pos: st.pos + 1, ..st };
    let st2 = next_state(ctx, bytes, st)->Some_0;
    lemma_next_moves(ctx, bytes, st);
    if 0x02 <= op <= 0x04 {
        lemma_open_frames(ctx, bytes, op, st1);
    } else if op == 0x0b {
        lemma_end_frames(ctx, st1);
    } else if op == 0x05 {
        lemma_else_keeps_constructs(st1.pos, st1.stack);
    } else {
        lemma_simple_keeps_constructs(ctx, bytes, op, st1.pos, st1.stack);
    }
}

/// Wherever validation stands, the opcodes of the open constructs lie
/// before it.
proof fn lemma_state_at_opened_before(ctx: CtxView, bytes: Seq<u8>, st: VState, p: int)
    requires
        bytes.len() <= usize::MAX,
        opened_before(st.stack, st.pos),
        state_at(ctx, bytes, st, p) is Some,
    ensures
        opened_before(state_at(ctx, bytes, st, p)->Some_0.stack, p),
    decreases bytes.len() - st.pos,
{
    if st.pos != p {
        let st2 = next_state(ctx, bytes, st)->Some_0;
        lemma_next_moves(ctx, bytes, st);
        lemma_next_opened_before(ctx, bytes, st);
        lemma_state_at_opened_before(ctx, bytes, st2, p);
    }
}

/// Once a construct is closed, its entry stays as it is to the end of
/// the body.
proof fn lemma_entry_stays(ctx: CtxView, bytes: Seq<u8>, st: VState, key: usize)
    requires
        bytes.len() <= usize::MAX,
        0 <= st.pos,
        key < st.pos,
        st.stack.ctrls.len() >= 1,
        others_differ(st.stack, key, 0),
        body_spec(ctx, bytes, st) is Ok,
    ensures
        ({
            let side = body_spec(ctx, bytes, st)->Ok_0.side;
            side.contains_key(key) == st.side.contains_key(key) && (st.side.contains_key(key) ==> side[key]
                == st.side[key])
        }),
    decreases bytes.len() - st.pos,
{
    let op = bytes[st.pos];
    let st1 = VState { pos: st.pos + 1, ..st };
    lemma_last_step(ctx, bytes, op, st1);
    match step_spec(ctx, bytes, op, st1) {
        Ok((st2, Action::Continue)) => {
            assert(next_state(ctx, bytes, st) == Some(st2));
            lemma_next_moves(ctx, bytes, st);
            if 0x02 <= op <= 0x04 {
                lemma_open_frames(ctx, bytes, op, st1);
            } else if op == 0x0b {
                lemma_end_frames(ctx, st1);
            } else if op == 0x05 {
                lemma_else_keeps_constructs(st1.pos, st1.stack);
            } else {
                lemma_simple_keeps_constructs(ctx, bytes, op, st1.pos, st1.stack);
            }
            lemma_entry_stays(ctx, bytes, st2, key);
        },
        _ => {},
    }
}

/// What the entry `e` must say of the construct whose opcode stands at
/// `p`, in a body that is validated from the state `st`.
///
/// The body of the construct starts after its block type, and the entry
/// has the arity of the block type.  The construct ends with the first
/// `end` that validation meets after `p` with the frame of the construct
/// innermost, and `end_pc` is the position after that `end`.  Where
/// validation meets an `else` before it with the frame of the construct
/// innermost, `else_pc` is the position after that `else`; otherwise it
/// is `end_pc`.
pub open spec fn records(ctx: CtxView, bytes: Seq<u8>, st: VState, p: int, e: SideEntry) -> bool {
    let depth = state_at(ctx, bytes, st, p)->Some_0.stack.ctrls.len() as int + 1;
    let end = e.end_pc - 1;
    &&& block_type_spec(ctx.types, bytes, p + 1) matches Ok((sig, body)) && opened_as(e, sig, body)
    &&& p < end
    &&& stands(ctx, bytes, st, end, 0x0b, depth)
    &&& forall|q: int| p < q < end ==> !#[trigger] stands(ctx, bytes, st, q, 0x0b, depth)
    &&& forall|q: int| p < q < end && #[trigger] stands(ctx, bytes, st, q, 0x05, depth) ==> e.else_pc == q + 1
    &&& e.else_pc == e.end_pc || (p < e.else_pc - 1 < end && stands(
        ctx,
        bytes,
        st,
        e.else_pc - 1,
        0x05,
        depth,
    ))
}

/// What holds while validation, started in `st`, stands in `cur` inside
/// the construct whose opcode stands at `p` and whose frame is frame `d`.
spec fn inside(ctx: CtxView, bytes: Seq<u8>, st: VState, p: int, d: int, cur: VState) -> bool {
    let key = p as usize;
    let f = cur.stack.ctrls[d];
    &&& 1 <= d < cur.stack.ctrls.len()
    &&& 0 <= p < cur.pos <= bytes.len()
    &&& f.sig_pc == p + 1
    &&& !(f.control_type is Function)
    &&& others_differ(cur.stack, key, d)
    &&& state_at(ctx, bytes, st, cur.pos) == Some(cur)
    &&& cur.side.contains_key(key)
    &&& block_type_spec(ctx.types, bytes, p + 1) matches Ok((sig, body)) && opened_as(cur.side[key], sig, body)
    &&& forall|q: int| p < q < cur.pos ==> !#[trigger] stands(ctx, bytes, st, q, 0x0b, d + 1)
    &&& forall|q: int|
        p < q < cur.pos && #[trigger] stands(ctx, bytes, st, q, 0x05, d + 1) ==> (
        f.control_type matches ControlType::IfElse { else_start, .. } && else_start == q + 1)
    &&& f.control_type matches ControlType::IfElse { else_start, .. } ==> p < else_start - 1 < cur.pos
        && stands(ctx, bytes, st, else_start - 1, 0x05, d + 1)
}

/// Validation stands before an instruction and after it, and nowhere in
/// between.
proof fn lemma_around(ctx: CtxView, bytes: Seq<u8>, st: VState, cur: VState, q: int)
    requires
        state_at(ctx, bytes, st, cur.pos) == Some(cur),
        next_state(ctx, bytes, cur) is Some,
        cur.pos <= q <= next_state(ctx, bytes, cur)->Some_0.pos,
    ensures
        q == cur.pos ==> state_at(ctx, bytes, st, q) == Some(cur),
        cur.pos < q < next_state(ctx, bytes, cur)->Some_0.pos ==> state_at(ctx, bytes, st, q) is None,
        q == next_state(ctx, bytes, cur)->Some_0.pos ==> state_at(ctx, bytes, st, q) == next_state(
            ctx,
            bytes,
            cur,
        ),
{
    let nxt = next_state(ctx, bytes, cur)->Some_0;
    lemma_next_moves(ctx, bytes, cur);
    lemma_state_at_from(ctx, bytes, st, cur.pos, q);
    if cur.pos < q < nxt.pos {
        lemma_not_inside(ctx, bytes, cur, q);
    } else if q == nxt.pos {
        assert(state_at(ctx, bytes, nxt, q) == Some(nxt));
    }
}

/// An instruction inside a construct that does not close it leaves
/// validation inside it.
proof fn lemma_inside_step(ctx: CtxView, bytes: Seq<u8>, st: VState, p: int, d: int, cur: VState)
    requires
        bytes.len() <= usize::MAX,
        inside(ctx, bytes, st, p, d, cur),
        next_state(ctx, bytes, cur) is Some,
        !(bytes[cur.pos] == 0x0b && cur.stack.ctrls.len() == d + 1),
    ensures
        inside(ctx, bytes, st, p, d, next_state(ctx, bytes, cur)->Some_0),
{
    let key = p as usize;
    let op = bytes[cur.pos];
    let st1 = VState { pos: cur.pos + 1, ..cur };
    let nxt = next_state(ctx, bytes, cur)->Some_0;
    let f = cur.stack.ctrls[d];
    let g = nxt.stack.ctrls[d];
    lemma_next_moves(ctx, bytes, cur);
    if 0x02 <= op <= 0x04 {
        lemma_open_frames(ctx, bytes, op, st1);
        assert(g == f);
    } else if op == 0x0b {
        lemma_end_frames(ctx, st1);
        assert(g == f);
    } else if op == 0x05 {
        lemma_else_keeps_constructs(st1.pos, st1.stack);
        if cur.stack.ctrls.len() > d + 1 {
            assert(g == f);
        }
    } else {
        lemma_simple_keeps_constructs(ctx, bytes, op, st1.pos, st1.stack);
    }
    assert(g.sig_pc == p + 1);
    assert(others_differ(nxt.stack, key, d));
    lemma_around(ctx, bytes, st, cur, nxt.pos);
    assert forall|q: int| p < q < nxt.pos implies !#[trigger] stands(ctx, bytes, st, q, 0x0b, d + 1) by {
        if q >= cur.pos {
            lemma_around(ctx, bytes, st, cur, q);
        }
    }
    assert forall|q: int| p < q < nxt.pos && #[trigger] stands(ctx, bytes, st, q, 0x05, d + 1) implies (
    g.control_type matches ControlType::IfElse { else_start, .. } && else_start == q + 1) by {
        if q >= cur.pos {
            lemma_around(ctx, bytes, st, cur, q);
        }
    }
    if op == 0x05 && cur.stack.ctrls.len() == d + 1 {
        lemma_around(ctx, bytes, st, cur, cur.pos);
        assert(stands(ctx, bytes, st, cur.pos, 0x05, d + 1));
    }
}

/// The `end` that closes a construct fills its entry, and the entry
/// stays so to the end of the body.
proof fn lemma_inside_end(ctx: CtxView, bytes: Seq<u8>, st: VState, p: int, d: int, cur: VState)
    requires
        bytes.len() <= usize::MAX,
        state_at(ctx, bytes, st, p) matches Some(s) && s.stack.ctrls.len() == d,
        inside(ctx, bytes, st, p, d, cur),
        next_state(ctx, bytes, cur) is Some,
        bytes[cur.pos] == 0x0b,
        cur.stack.ctrls.len() == d + 1,
        body_spec(ctx, bytes, next_state(ctx, bytes, cur)->Some_0) is Ok,
    ensures
        ({
            let side = body_spec(ctx, bytes, next_state(ctx, bytes, cur)->Some_0)->Ok_0.side;
            side.contains_key(p as usize) && records(ctx, bytes, st, p, side[p as usize])
        }),
{
    let key = p as usize;
    let st1 = VState { pos: cur.pos + 1, ..cur };
    let nxt = next_state(ctx, bytes, cur)->Some_0;
    let f = cur.stack.ctrls[d];
    lemma_next_moves(ctx, bytes, cur);
    lemma_end_frames(ctx, st1);
    assert(cur.stack.ctrls.last() == f);
    assert(others_differ(nxt.stack, key, 0)) by {
        assert forall|i: int| 1 <= i < nxt.stack.ctrls.len() implies opcode_offset(
            (#[trigger] nxt.stack.ctrls[i]).sig_pc,
        ) != key by {
            assert(nxt.stack.ctrls[i] == cur.stack.ctrls[i]);
        }
    }
    lemma_entry_stays(ctx, bytes, nxt, key);
    let e = body_spec(ctx, bytes, nxt)->Ok_0.side[key];
    assert(e == nxt.side[key]);
    assert(e.end_pc == cur.pos + 1);
    lemma_around(ctx, bytes, st, cur, cur.pos);
    assert(stands(ctx, bytes, st, cur.pos, 0x0b, d + 1));
}

/// From inside a construct, validation that succeeds closes it and
/// leaves its entry filled.
proof fn lemma_inside_body(ctx: CtxView, bytes: Seq<u8>, st: VState, p: int, d: int, cur: VState)
    requires
        bytes.len() <= usize::MAX,
        state_at(ctx, bytes, st, p) matches Some(s) && s.stack.ctrls.len() == d,
        inside(ctx, bytes, st, p, d, cur),
        body_spec(ctx, bytes, cur) is Ok,
    ensures
        ({
            let side = body_spec(ctx, bytes, cur)->Ok_0.side;
            side.contains_key(p as usize) && records(ctx, bytes, st, p, side[p as usize])
        }),
    decreases bytes.len() - cur.pos,
{
    let op = bytes[cur.pos];
    let st1 = VState { pos: cur.pos + 1, ..cur };
    lemma_last_step(ctx, bytes, op, st1);
    match step_spec(ctx, bytes, op, st1) {
        Ok((nxt, Action::Continue)) => {
            assert(next_state(ctx, bytes, cur) == Some(nxt));
            lemma_next_moves(ctx, bytes, cur);
            if op == 0x0b && cur.stack.ctrls.len() == d + 1 {
                lemma_inside_end(ctx, bytes, st, p, d, cur);
            } else {
                lemma_inside_step(ctx, bytes, st, p, d, cur);
                lemma_inside_body(ctx, bytes, st, p, d, nxt);
            }
        },
        _ => {},
    }
}

/// Side-table: in a body that validation accepts from the state `st`,
/// in which the opcodes of the open constructs lie before the position
/// of validation, every `block`, `loop` and `if` before whose opcode
/// validation comes to stand has an entry under the offset of its
/// opcode, and the entry says what [`records`] asks.
pub proof fn lemma_construct_recorded(ctx: CtxView, bytes: Seq<u8>, st: VState, p: int)
    requires
        bytes.len() <= usize::MAX,
        0 <= st.pos,
        opened_before(st.stack, st.pos),
        body_spec(ctx, bytes, st) is Ok,
        state_at(ctx, bytes, st, p) is Some,
        0 <= p < bytes.len(),
        0x02 <= bytes[p] <= 0x04,
    ensures
        ({
            let side = body_spec(ctx, bytes, st)->Ok_0.side;
            side.contains_key(p as usize) && records(ctx, bytes, st, p, side[p as usize])
        }),
{
    let at_p = state_at(ctx, bytes, st, p)->Some_0;
    let d = at_p.stack.ctrls.len() as int;
    let key = p as usize;
    lemma_state_at_later(ctx, bytes, st, p);
    lemma_body_from(ctx, bytes, st, p);
    lemma_state_at_opened_before(ctx, bytes, st, p);
    let st1 = VState { pos: p + 1, ..at_p };
    lemma_last_step(ctx, bytes, bytes[p], st1);
    let nxt = next_state(ctx, bytes, at_p)->Some_0;
    assert(next_state(ctx, bytes, at_p) == Some(nxt));
    lemma_open_frames(ctx, bytes, bytes[p], st1);
    lemma_around(ctx, bytes, st, at_p, nxt.pos);
    assert(others_differ(nxt.stack, key, d)) by {
        assert forall|i: int| 1 <= i < nxt.stack.ctrls.len() && i != d implies opcode_offset(
            (#[trigger] nxt.stack.ctrls[i]).sig_pc,
        ) != key by {
            assert(nxt.stack.ctrls[i] == at_p.stack.ctrls[i]);
        }
    }
    assert forall|q: int| p < q < nxt.pos implies !#[trigger] stands(ctx, bytes, st, q, 0x0b, d + 1) by {
        lemma_around(ctx, bytes, st, at_p, q);
    }
    assert forall|q: int| p < q < nxt.pos implies !#[trigger] stands(ctx, bytes, st, q, 0x05, d + 1) by {
        lemma_around(ctx, bytes, st, at_p, q);
    }
    assert(inside(ctx, bytes, st, p, d, nxt));
    lemma_inside_body(ctx, bytes, st, p, d, nxt);
}

/// Side-table: every `block`, `loop` and `if` of a validated function has
/// an entry under the offset of its opcode.  Its `body_pc` is the
/// position after the block type, its `end_pc` is the position after the
/// `end` of the construct, and its `else_pc` is the position after the
/// `else` of the construct where it has one, and `end_pc` otherwise; see
/// [`records`].
pub proof fn lemma_side_table_covers(ctx: CtxView, bytes: Seq<u8>, side: Map<usize, SideEntry>, p: int)
    requires
        bytes.len() <= usize::MAX,
        function_spec(ctx, bytes, side) is Ok,
        state_at(ctx, bytes, start_state(ctx, side), p) is Some,
        0 <= p < bytes.len(),
        0x02 <= bytes[p] <= 0x04,
    ensures
        ({
            let table = function_spec(ctx, bytes, side)->Ok_0;
            table.contains_key(p as usize) && records(ctx, bytes, start_state(ctx, side), p, table[p as usize])
        }),
{
    reveal(function_spec);
    lemma_construct_recorded(ctx, bytes, start_state(ctx, side), p);
}

/// Whether validation reads the same of two contexts: the same types,
/// globals, memory and table, the same function under validation, and
/// the same signature of every function.
pub open spec fn same_context(a: CtxView, b: CtxView) -> bool {
    &&& a.types == b.types
    &&& a.globals == b.globals
    &&& a.has_memory == b.has_memory
    &&& a.has_table == b.has_table
    &&& a.func_idx == b.func_idx
    &&& a.func() == b.func()
    &&& a.functions.len() == b.functions.len()
    &&& forall|i: int| 0 <= i < a.functions.len() ==> (#[trigger] a.functions[i]).ty == b.functions[i].ty
}

/// Whether two states differ in the side-table at most.
pub open spec fn same_but_side(a: VState, b: VState) -> bool {
    a.pos == b.pos && a.stack == b.stack
}

/// Whether two outcomes of an instruction differ in the side-table at
/// most.
pub open spec fn same_outcome(a: Result<(VState, Action), Error>, b: Result<(VState, Action), Error>) -> bool {
    match (a, b) {
        (Ok((x, f)), Ok((y, g))) => same_but_side(x, y) && f == g,
        (Err(e), Err(f)) => e == f,
        _ => false,
    }
}

/// The side-table has no part in what an instruction does to the
/// position and the stacks, and of the context only what
/// [`same_context`] compares.
proof fn lemma_step_congruent(a: CtxView, b: CtxView, bytes: Seq<u8>, op: u8, x: VState, y: VState)
    requires
        same_context(a, b),
        same_but_side(x, y),
    ensures
        same_outcome(step_spec(a, bytes, op, x), step_spec(b, bytes, op, y)),
{
    if 0x02 <= op <= 0x04 {
    } else if op == 0x0b {
    } else {
        assert(simple_spec(a, bytes, op, x.pos, x.stack) == simple_spec(b, bytes, op, y.pos, y.stack));
    }
}

/// Validation stands at the same positions, with the same stacks,
/// whatever the side-table holds when it starts.
proof fn lemma_state_at_congruent(a: CtxView, b: CtxView, bytes: Seq<u8>, x: VState, y: VState, p: int)
    requires
        same_context(a, b),
        same_but_side(x, y),
    ensures
        match (state_at(a, bytes, x, p), state_at(b, bytes, y, p)) {
            (Some(s), Some(t)) => same_but_side(s, t),
            (None, None) => true,
            _ => false,
        },
    decreases bytes.len() - x.pos,
{
    if x.pos != p && p > x.pos && 0 <= x.pos < bytes.len() {
        let x1 = VState { pos: x.pos + 1, ..x };
        let y1 = VState { pos: y.pos + 1, ..y };
        lemma_step_congruent(a, b, bytes, bytes[x.pos], x1, y1);
        match next_state(a, bytes, x) {
            Some(x2) => {
                let y2 = next_state(b, bytes, y)->Some_0;
                lemma_next_moves(a, bytes, x);
                lemma_state_at_congruent(a, b, bytes, x2, y2, p);
            },
            None => {},
        }
    }
}

/// What an entry must say does not depend on the side-table with which
/// validation starts.
proof fn lemma_records_congruent(
    a: CtxView,
    b: CtxView,
    bytes: Seq<u8>,
    x: VState,
    y: VState,
    p: int,
    e: SideEntry,
)
    requires
        same_context(a, b),
        same_but_side(x, y),
        state_at(a, bytes, x, p) is Some,
        records(a, bytes, x, p, e),
    ensures
        records(b, bytes, y, p, e),
{
    lemma_state_at_congruent(a, b, bytes, x, y, p);
    let depth = state_at(a, bytes, x, p)->Some_0.stack.ctrls.len() as int + 1;
    assert forall|q: int, op: u8| #[trigger]
        stands(b, bytes, y, q, op, depth) == stands(a, bytes, x, q, op, depth) by {
        lemma_state_at_congruent(a, b, bytes, x, y, q);
    }
    let end = e.end_pc - 1;
    assert(stands(b, bytes, y, end, 0x0b, depth));
    assert forall|q: int| p < q < end implies !#[trigger] stands(b, bytes, y, q, 0x0b, depth) by {
        assert(!stands(a, bytes, x, q, 0x0b, depth));
    }
    assert forall|q: int| p < q < end && #[trigger] stands(b, bytes, y, q, 0x05, depth) implies e.else_pc
        == q + 1 by {
        assert(stands(a, bytes, x, q, 0x05, depth));
    }
    if e.else_pc != e.end_pc {
        assert(stands(b, bytes, y, e.else_pc - 1, 0x05, depth));
    }
}

/// A body ends behind every position at which its validation stands.
proof fn lemma_body_ends_later(ctx: CtxView, bytes: Seq<u8>, st: VState, q: int)
    requires
        body_spec(ctx, bytes, st) is Ok,
        state_at(ctx, bytes, st, q) is Some,
    ensures
        q < body_spec(ctx, bytes, st)->Ok_0.pos <= bytes.len(),
    decreases bytes.len() - st.pos,
{
    let st1 = VState { pos: st.pos + 1, ..st };
    lemma_step_bounds(ctx, bytes, bytes[st.pos], st1);
    match step_spec(ctx, bytes, bytes[st.pos], st1) {
        Ok((st2, Action::Continue)) => {
            assert(next_state(ctx, bytes, st) == Some(st2));
            if st.pos == q {
                assert(state_at(ctx, bytes, st2, st2.pos) == Some(st2));
                lemma_body_ends_later(ctx, bytes, st2, st2.pos);
            } else {
                lemma_body_ends_later(ctx, bytes, st2, q);
            }
        },
        Ok((st2, Action::End)) => {
            if st.pos != q {
                assert(next_state(ctx, bytes, st) is None);
            }
        },
        Err(_) => {},
    }
}

/// Validating a function leaves the entries before the start of its
/// body as they are.
pub proof fn lemma_function_keeps_earlier(ctx: CtxView, bytes: Seq<u8>, side: Map<usize, SideEntry>, key: usize)
    requires
        bytes.len() <= usize::MAX,
        function_spec(ctx, bytes, side) is Ok,
        key < ctx.func().body_start,
    ensures
        ({
            let table = function_spec(ctx, bytes, side)->Ok_0;
            table.contains_key(key) == side.contains_key(key) && (side.contains_key(key) ==> table[key]
                == side[key])
        }),
{
    reveal(function_spec);
    lemma_entry_stays(ctx, bytes, start_state(ctx, side), key);
}

/// Validation of a function stands inside its body only.
proof fn lemma_key_inside(ctx: CtxView, bytes: Seq<u8>, side: Map<usize, SideEntry>, p: int)
    requires
        bytes.len() <= usize::MAX,
        function_spec(ctx, bytes, side) is Ok,
        state_at(ctx, bytes, start_state(ctx, side), p) is Some,
    ensures
        ctx.func().body_start <= p < ctx.func().body_end,
{
    reveal(function_spec);
    lemma_state_at_later(ctx, bytes, start_state(ctx, side), p);
    lemma_body_ends_later(ctx, bytes, start_state(ctx, side), p);
}

/// Whether the code section has left of the module `a`, in `b`, what
/// validation reads of it but for the bodies: the types, the globals,
/// the memory, the table, and the signature and the import of every
/// function.
pub open spec fn same_declarations(a: ModuleView, b: ModuleView) -> bool {
    &&& a.types == b.types
    &&& a.globals == b.globals
    &&& a.memory == b.memory
    &&& a.table == b.table
    &&& a.functions.len() == b.functions.len()
    &&& forall|j: int|
        0 <= j < a.functions.len() ==> (#[trigger] b.functions[j]).ty == a.functions[j].ty
            && b.functions[j].import == a.functions[j].import
}

/// Whether the entries of the side-tables `a` and `b` up to the offset
/// `pos` are the same.
pub open spec fn same_entries_up_to(a: Map<usize, SideEntry>, b: Map<usize, SideEntry>, pos: int) -> bool {
    forall|key: usize|
        key <= pos ==> #[trigger] b.contains_key(key) == a.contains_key(key) && (a.contains_key(key) ==> b[key]
            == a[key])
}

/// The module in which the function `i` is validated, while the code
/// section is read: `m` with the locals and the body of the function.
pub open spec fn with_body(m: ModuleView, i: int, locals: Seq<ValType>, start: int, end: int) -> ModuleView {
    ModuleView {
        functions: m.functions.update(
            i,
            FunctionView { locals, body_start: start as usize, body_end: end as usize, ..m.functions[i] },
        ),
        ..m
    }
}

/// One entry of the code section gives the function its locals and its
/// body, behind the position of the entry, and the side-table that the
/// validation of the function leaves.
proof fn lemma_code_entry(bytes: Seq<u8>, pos: int, m: ModuleView, i: int)
    requires
        0 <= pos <= bytes.len() <= usize::MAX,
        0 <= i < m.functions.len(),
        code_entry_spec(bytes, pos, m, i) is Ok,
    ensures
        ({
            let (m2, end) = code_entry_spec(bytes, pos, m, i)->Ok_0;
            let f = m2.functions[i];
            let m1 = with_body(m, i, f.locals, f.body_start as int, end);
            &&& pos < f.body_start <= end <= bytes.len()
            &&& f.body_end == end
            &&& function_spec(ctx_of(m1, i as usize), bytes, m.side_table) == Ok::<Map<usize, SideEntry>, Error>(
                m2.side_table,
            )
            &&& m2 == ModuleView { side_table: m2.side_table, ..m1 }
        }),
{
    reveal(code_entry_spec);
    lemma_group_len_positive(bytes, pos);
    let (length, p1) = u32_spec(bytes, pos)->Ok_0;
    lemma_group_len_positive(bytes, p1);
    let (n_groups, p2) = u32_spec(bytes, p1)->Ok_0;
    lemma_locals_bounds(bytes, p2, n_groups as nat, m.functions[i].ty.params);
}

/// The entries of the code section leave the declarations of the module,
/// the functions before them, and the side-table up to their position as
/// they are.
proof fn lemma_code_entries_keep(bytes: Seq<u8>, pos: int, m: ModuleView, i: nat, n: nat)
    requires
        0 <= pos <= bytes.len() <= usize::MAX,
        i <= n <= m.functions.len() <= usize::MAX,
        code_entries_spec(bytes, pos, m, i, n) is Ok,
    ensures
        ({
            let (after, end) = code_entries_spec(bytes, pos, m, i, n)->Ok_0;
            &&& pos <= end <= bytes.len()
            &&& same_declarations(m, after)
            &&& same_entries_up_to(m.side_table, after.side_table, pos)
            &&& forall|j: int| 0 <= j < i ==> #[trigger] after.functions[j] == m.functions[j]
        }),
    decreases n - i,
{
    if i < n {
        if m.functions[i as int].import is Some {
            lemma_code_entries_keep(bytes, pos, m, i + 1, n);
        } else {
            lemma_code_entry(bytes, pos, m, i as int);
            let (m2, p) = code_entry_spec(bytes, pos, m, i as int)->Ok_0;
            let f = m2.functions[i as int];
            let m1 = with_body(m, i as int, f.locals, f.body_start as int, p);
            lemma_code_entries_keep(bytes, p, m2, i + 1, n);
            let (after, end) = code_entries_spec(bytes, p, m2, i + 1, n)->Ok_0;
            assert forall|key: usize| key <= pos implies #[trigger] after.side_table.contains_key(key)
                == m.side_table.contains_key(key) && (m.side_table.contains_key(key) ==> after.side_table[key]
                == m.side_table[key]) by {
                lemma_function_keeps_earlier(ctx_of(m1, i as usize), bytes, m.side_table, key);
                assert(m2.side_table.contains_key(key) == m.side_table.contains_key(key));
            }
            assert forall|j: int| 0 <= j < m.functions.len() implies (#[trigger] after.functions[j]).ty
                == m.functions[j].ty && after.functions[j].import == m.functions[j].import by {
                assert(m2.functions[j].ty == m.functions[j].ty);
            }
            assert forall|j: int| 0 <= j < i implies #[trigger] after.functions[j] == m.functions[j] by {
                assert(m2.functions[j] == m.functions[j]);
            }
        }
    }
}

/// Whether the side-table `table` has, for the construct whose opcode
/// stands at `p` in the body of the function `k` of the module `m`, the
/// entry that [`records`] asks.
pub open spec fn construct_covered(m: ModuleView, bytes: Seq<u8>, k: int, p: int) -> bool {
    let ctx = ctx_of(m, k as usize);
    m.side_table.contains_key(p as usize) && records(
        ctx,
        bytes,
        start_state(ctx, m.side_table),
        p,
        m.side_table[p as usize],
    )
}

/// Whether validation of the function `k` of the module `m` comes to
/// stand before a `block`, `loop` or `if` at `p`.
pub open spec fn construct_at(m: ModuleView, bytes: Seq<u8>, k: int, p: int) -> bool {
    let ctx = ctx_of(m, k as usize);
    &&& 0 <= p < bytes.len()
    &&& 0x02 <= bytes[p] <= 0x04
    &&& state_at(ctx, bytes, start_state(ctx, m.side_table), p) is Some
}

/// The entries of the code section leave, for every construct of every
/// function that they validate, its entry in the side-table.
proof fn lemma_code_entries_cover(bytes: Seq<u8>, pos: int, m: ModuleView, i: nat, n: nat, k: int, p: int)
    requires
        0 <= pos <= bytes.len() <= usize::MAX,
        i <= k < n <= m.functions.len() <= usize::MAX,
        m.functions[k].import is None,
        code_entries_spec(bytes, pos, m, i, n) is Ok,
        construct_at(code_entries_spec(bytes, pos, m, i, n)->Ok_0.0, bytes, k, p),
    ensures
        construct_covered(code_entries_spec(bytes, pos, m, i, n)->Ok_0.0, bytes, k, p),
    decreases n - i,
{
    let key = p as usize;
    if m.functions[i as int].import is Some {
        lemma_code_entries_cover(bytes, pos, m, i + 1, n, k, p);
    } else {
        lemma_code_entry(bytes, pos, m, i as int);
        let (m2, p2) = code_entry_spec(bytes, pos, m, i as int)->Ok_0;
        let f = m2.functions[i as int];
        let m1 = with_body(m, i as int, f.locals, f.body_start as int, p2);
        if i < k {
            lemma_code_entries_cover(bytes, p2, m2, i + 1, n, k, p);
        } else {
            lemma_code_entries_keep(bytes, p2, m2, i + 1, n);
            let after = code_entries_spec(bytes, p2, m2, i + 1, n)->Ok_0.0;
            let a = ctx_of(m1, k as usize);
            let b = ctx_of(after, k as usize);
            let x = start_state(a, m.side_table);
            let y = start_state(b, after.side_table);
            assert(after.functions[k] == m2.functions[k]);
            assert(m1.functions[k] == m2.functions[k]);
            assert(same_context(a, b)) by {
                assert forall|j: int| 0 <= j < a.functions.len() implies (#[trigger] a.functions[j]).ty
                    == b.functions[j].ty by {
                    assert(m2.functions[j].ty == m.functions[j].ty);
                    assert(after.functions[j].ty == m2.functions[j].ty);
                }
            }
            lemma_state_at_congruent(a, b, bytes, x, y, p);
            lemma_side_table_covers(a, bytes, m.side_table, p);
            lemma_key_inside(a, bytes, m.side_table, p);
            assert(after.side_table.contains_key(key) == m2.side_table.contains_key(key));
            lemma_records_congruent(a, b, bytes, x, y, p, m2.side_table[key]);
        }
    }
}

/// Side-table: once the code section is read, the side-table has an
/// entry for every `block`, `loop` and `if` in the body of every
/// function of the module that is not imported, under the offset of the
/// opcode of the construct.  Its `body_pc` is the position after the
/// block type, its `end_pc` is the position after the `end` of the
/// construct, and its `else_pc` is the position after the `else` of the
/// construct where it has one, and `end_pc` otherwise; see [`records`].
pub proof fn lemma_code_section_covers(bytes: Seq<u8>, pos: int, m: ModuleView, k: int, p: int)
    requires
        0 <= pos <= bytes.len() <= usize::MAX,
        0 <= k < m.functions.len() <= usize::MAX,
        m.functions[k].import is None,
        code_section_spec(bytes, pos, m) is Ok,
        construct_at(code_section_spec(bytes, pos, m)->Ok_0.0, bytes, k, p),
    ensures
        construct_covered(code_section_spec(bytes, pos, m)->Ok_0.0, bytes, k, p),
{
    lemma_group_len_positive(bytes, pos);
    let start = u32_spec(bytes, pos)->Ok_0.1;
    lemma_code_entries_cover(bytes, start, m, 0, m.functions.len(), k, p);
}

/// The code section leaves the declarations of the module as they are.
pub proof fn lemma_code_section_keeps(bytes: Seq<u8>, pos: int, m: ModuleView)
    requires
        0 <= pos <= bytes.len() <= usize::MAX,
        m.functions.len() <= usize::MAX,
        code_section_spec(bytes, pos, m) is Ok,
    ensures
        same_declarations(m, code_section_spec(bytes, pos, m)->Ok_0.0),
{
    lemma_group_len_positive(bytes, pos);
    let start = u32_spec(bytes, pos)->Ok_0.1;
    lemma_code_entries_keep(bytes, start, m, 0, m.functions.len());
}

/// The entries of the code section give the module no function and take
/// none away, and leave every function imported or not as it was.
pub proof fn lemma_code_entries_same_length(bytes: Seq<u8>, pos: int, m: ModuleView, i: nat, n: nat)
    requires
        i <= n <= m.functions.len(),
        code_entries_spec(bytes, pos, m, i, n) is Ok,
    ensures
        ({
            let after = code_entries_spec(bytes, pos, m, i, n)->Ok_0.0;
            &&& after.functions.len() == m.functions.len()
            &&& forall|j: int|
                0 <= j < m.functions.len() ==> (#[trigger] after.functions[j]).import == m.functions[j].import
        }),
    decreases n - i,
{
    if i < n {
        if m.functions[i as int].import is Some {
            lemma_code_entries_same_length(bytes, pos, m, i + 1, n);
        } else {
            reveal(code_entry_spec);
            let (m2, p) = code_entry_spec(bytes, pos, m, i as int)->Ok_0;
            lemma_code_entries_same_length(bytes, p, m2, i + 1, n);
            let after = code_entries_spec(bytes, p, m2, i + 1, n)->Ok_0.0;
            assert forall|j: int| 0 <= j < m.functions.len() implies (#[trigger] after.functions[j]).import
                == m.functions[j].import by {
                assert(m2.functions[j].import == m.functions[j].import);
            }
        }
    }
}

} // verus!
