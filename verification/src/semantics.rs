//! What one instruction does to a running machine.
//!
//! A machine is a program counter, the id of the instance whose code
//! runs, a value stack, a stack of labels, and a stack of call frames.
//! The semantics is a function from the state before an instruction to
//! the state after it and a signal: go on, finished, or a request to the
//! embedder for a host call or a float operation.

use vstd::prelude::*;
use crate::error::{
    Error,
    UNEXPECTED_END,
    UNKNOWN_INSTRUCTION,
    UNREACHABLE,
    STACK_UNDERFLOW,
    STACK_EXHAUSTED,
    FUNC_NO_IMPL,
    UNDEF_ELEM,
    UNINITIALIZED_ELEM,
    INDIRECT_CALL_MISMATCH,
    UNKNOWN_GLOBAL,
    UNKNOWN_MEMORY,
    OOB_MEMORY_ACCESS,
    INVALID_NUM_ARG,
};
use crate::instance::{Instance, RuntimeFunction, WasmGlobal};
use crate::instructions::natural_align_spec;
use crate::leb128::{plain_unsigned_spec, plain_signed_spec};
use crate::floats::{is_truncation, truncate_spec};
use crate::module::{SideEntry, opcode_offset};
use crate::numeric::{
    is_unary_spec,
    is_binary_spec,
    is_float_op_spec,
    float_op_arity_spec,
    unary_spec,
    binary_spec,
};
use crate::signature::RuntimeSignature;
use crate::store::InstanceManager;
use crate::table::{WasmTable, owner_of};
use crate::value::{WasmValue, signed32, unsigned32, unsigned64};
use crate::wasm_memory::{
    WasmMemory,
    access_ok,
    le16,
    le32,
    le64,
    put8,
    put16,
    put32,
    put64,
    signed8,
    signed16,
};

verus! {

/// The deepest nesting of calls.
pub const MAX_CALL_DEPTH: usize = 1000;

/// The deepest nesting of labels.
pub const MAX_CONTROL_DEPTH: usize = 1000;

/// A label: the height to which a branch cuts the value stack, where it
/// continues, and how many values it carries.
#[derive(Clone, Copy, Debug, PartialEq, Eq, Structural)]
pub struct Label {
    pub stack_len: usize,
    pub dest_pc: usize,
    pub arity: u32,
    pub has_result: bool,
}

/// A call frame: where the locals of the call start on the value stack,
/// which label is its return label, and the instance of the caller.
#[derive(Clone, Copy, Debug, PartialEq, Eq, Structural)]
pub struct CallFrame {
    pub locals_start: usize,
    pub ctrl_base: usize,
    pub caller: u32,
}

/// What a machine tells its embedder after a step.
#[derive(Clone, Copy, Debug, PartialEq, Eq)]
pub enum Signal {
    /// The next instruction can run.
    Continue,
    /// The outermost function has returned; its results are on the stack.
    Finished,
    /// The machine failed with a trap or another error and stays so.
    Failed(Error),
    /// The host function `callback` is called.  Its arguments are the top
    /// `n_params` values of the stack.
    Host { callback: usize, n_params: usize },
    /// The float instruction `op` needs its result for the operands `a`
    /// and `b`; a unary instruction has `b` zero.
    Float { op: u8, a: WasmValue, b: WasmValue },
}

/// The state of a machine.
pub struct MachineView {
    pub pc: usize,
    pub instance: u32,
    pub stack: Seq<WasmValue>,
    pub control: Seq<Label>,
    pub frames: Seq<CallFrame>,
    pub waiting: Signal,
}

/// The content of a memory.
pub struct MemView {
    pub bytes: Seq<u8>,
    pub size: u32,
    pub max: u32,
}

/// The content of a memory.
pub open spec fn mem_view(m: WasmMemory) -> MemView {
    MemView { bytes: m@, size: m.spec_size(), max: m.spec_max() }
}

/// The contents of the memories.
pub open spec fn mem_views(ms: Seq<WasmMemory>) -> Seq<MemView> {
    Seq::new(ms.len(), |i: int| mem_view(ms[i]))
}

/// What an instruction can change: the machine, the memories and the
/// globals.
pub struct RunState {
    pub m: MachineView,
    pub mems: Seq<MemView>,
    pub globals: Seq<WasmGlobal>,
}

/// The outcome of an instruction that touches the machine alone.
pub type Stepped = Result<(MachineView, Signal), Error>;

/// `s` cut to `n` values, where it has more.
pub open spec fn truncate(s: Seq<WasmValue>, n: int) -> Seq<WasmValue> {
    if 0 <= n <= s.len() {
        s.subrange(0, n)
    } else {
        s
    }
}

/// Goes on with the machine `m`.
pub open spec fn go(m: MachineView) -> Stepped {
    Ok((m, Signal::Continue))
}

/// Pops a value.
pub open spec fn pop(m: MachineView) -> Result<(WasmValue, MachineView), Error> {
    if m.stack.len() == 0 {
        Err(Error::Trap(STACK_UNDERFLOW))
    } else {
        Ok((m.stack.last(), MachineView { stack: m.stack.drop_last(), ..m }))
    }
}

/// Pushes a value.
pub open spec fn push(m: MachineView, v: WasmValue) -> MachineView {
    MachineView { stack: m.stack.push(v), ..m }
}

/// Reads an unsigned immediate at the program counter.
pub open spec fn imm_u32(bytes: Seq<u8>, m: MachineView) -> Result<(u32, MachineView), Error> {
    match plain_unsigned_spec(bytes, m.pc as int) {
        Err(e) => Err(e),
        Ok((v, p)) => Ok(((v % 0x1_0000_0000) as u32, MachineView { pc: p as usize, ..m })),
    }
}

/// Steps over the flag byte that follows some opcodes.
pub open spec fn skip_flag(bytes: Seq<u8>, m: MachineView) -> Result<MachineView, Error> {
    if m.pc >= bytes.len() {
        Err(Error::Malformed(UNEXPECTED_END))
    } else {
        Ok(MachineView { pc: (m.pc + 1) as usize, ..m })
    }
}

/// The machine after a jump to the label `depth` levels up: the labels
/// from there on are gone, the value stack is cut to the height of the
/// label with the values that the label carries on top, and the program
/// counter is at the label's target.
pub open spec fn jump(m: MachineView, depth: u32) -> MachineView {
    let len = m.control.len();
    if depth >= len {
        m
    } else {
        let target = m.control[len - depth - 1];
        let arity = target.arity as int;
        let n = m.stack.len() as int;
        let src = if n >= arity { n - arity } else { 0 };
        let stack = if arity > 0 && src > target.stack_len {
            m.stack.subrange(0, target.stack_len as int) + m.stack.subrange(src, n)
        } else {
            truncate(m.stack, target.stack_len + arity)
        };
        MachineView {
            pc: target.dest_pc,
            stack,
            control: m.control.subrange(0, len - depth - 1),
            ..m
        }
    }
}

/// The machine after the call frame on top has been left, where its
/// return label is gone: the caller's instance runs again.
pub open spec fn unwind(m: MachineView) -> MachineView {
    if m.frames.len() > 0 && m.frames.last().ctrl_base >= m.control.len() {
        MachineView { instance: m.frames.last().caller, frames: m.frames.drop_last(), ..m }
    } else {
        m
    }
}

/// A branch to the label `depth` levels up.  The machine has finished
/// when no label is left, or when there is no such label.
pub open spec fn branch(m: MachineView, depth: u32) -> Stepped {
    let after = unwind(jump(m, depth));
    if depth >= m.control.len() || after.control.len() == 0 {
        Ok((after, Signal::Finished))
    } else {
        Ok((after, Signal::Continue))
    }
}

/// The machine after a call of a function of `instance` has been
/// entered: the locals after the parameters are zero, the return label
/// carries the result to the caller, and the body starts.
pub open spec fn enter(
    m: MachineView,
    instance: u32,
    sig: RuntimeSignature,
    pc_start: usize,
    locals_count: usize,
) -> Stepped {
    let n_params = sig.spec_n_params() as int;
    if m.frames.len() >= MAX_CALL_DEPTH || m.control.len() >= MAX_CONTROL_DEPTH {
        Err(Error::Trap(STACK_EXHAUSTED))
    } else if m.stack.len() < n_params {
        Err(Error::Trap(STACK_UNDERFLOW))
    } else if m.stack.len() + locals_count > usize::MAX {
        Err(Error::Trap(STACK_EXHAUSTED))
    } else {
        let locals_start = (m.stack.len() - n_params) as usize;
        go(
            MachineView {
                pc: pc_start,
                instance,
                stack: m.stack + Seq::new(locals_count as nat, |i: int| WasmValue(0)),
                control: m.control.push(
                    Label {
                        stack_len: locals_start,
                        dest_pc: m.pc,
                        arity: if sig.spec_has_result() { 1 } else { 0 },
                        has_result: sig.spec_has_result(),
                    },
                ),
                frames: m.frames.push(
                    CallFrame {
                        locals_start,
                        ctrl_base: m.control.len() as usize,
                        caller: m.instance,
                    },
                ),
                waiting: m.waiting,
            },
        )
    }
}

/// The function that `f`, held by `instance`, stands for, and the
/// instance that owns it: an imported function is followed to its owner,
/// over at most `hops` instances.
pub open spec fn resolve(mgr: InstanceManager, instance: u32, f: RuntimeFunction, hops: nat) -> Result<
    (u32, RuntimeFunction),
    Error,
>
    decreases hops,
{
    match f {
        RuntimeFunction::ImportedWasm { owner, function_index, .. } => if hops == 0 {
            Err(Error::Trap(FUNC_NO_IMPL))
        } else {
            match mgr.instance_of(owner) {
                None => Err(Error::Trap(FUNC_NO_IMPL)),
                Some(inst) => if function_index >= inst.functions@.len() {
                    Err(Error::Trap(FUNC_NO_IMPL))
                } else {
                    resolve(mgr, owner, inst.functions@[function_index as int], (hops - 1) as nat)
                },
            }
        },
        _ => Ok((instance, f)),
    }
}

/// A call of the function `f` that `holder` holds: a function of a
/// module is entered in its owner, a host function is asked of the
/// embedder.
pub open spec fn invoke_spec(mgr: InstanceManager, m: MachineView, holder: u32, f: RuntimeFunction) -> Stepped {
    match resolve(mgr, holder, f, mgr.slots@.len()) {
        Err(e) => Err(e),
        Ok((owner, g)) => match g {
            RuntimeFunction::OwnedWasm { runtime_sig, pc_start, locals_count } => enter(
                m,
                owner,
                runtime_sig,
                pc_start,
                locals_count,
            ),
            RuntimeFunction::Host { callback, runtime_sig } => if m.stack.len()
                < runtime_sig.spec_n_params() {
                Err(Error::Trap(STACK_UNDERFLOW))
            } else {
                Ok((m, Signal::Host { callback, n_params: runtime_sig.spec_n_params() as usize }))
            },
            RuntimeFunction::ImportedWasm { .. } => Err(Error::Trap(FUNC_NO_IMPL)),
        },
    }
}

/// The entry of the side-table for the construct whose opcode stands
/// before the program counter.
pub open spec fn side_entry(inst: Instance, m: MachineView) -> Option<SideEntry> {
    if inst.module.side_table@.contains_key(opcode_offset(m.pc)) {
        Some(inst.module.side_table@[opcode_offset(m.pc)])
    } else {
        None
    }
}

/// `block` (`0x02`), `loop` (`0x03`) and `if` (`0x04`): the targets come
/// from the side-table.  A label is pushed at the height below the
/// parameters; a branch to it goes to the end and carries the result,
/// or, for a loop, goes to the `loop` opcode and carries the parameters.
/// An `if` pops its condition and enters the body or the `else` branch;
/// without an `else` branch a zero condition skips the construct.
pub open spec fn open_spec(inst: Instance, op: u8, m: MachineView) -> Stepped {
    match side_entry(inst, m) {
        None => Err(Error::Malformed(UNKNOWN_INSTRUCTION)),
        Some(e) => {
            let cond = if op == 0x04 {
                pop(m)
            } else {
                Ok((WasmValue(1), m))
            };
            match cond {
                Err(err) => Err(err),
                Ok((c, m1)) => if m1.stack.len() < e.params_len {
                    Err(Error::Trap(STACK_UNDERFLOW))
                } else if op == 0x04 && c.spec_as_u32() == 0 && e.else_pc == e.end_pc {
                    go(MachineView { pc: e.end_pc, ..m1 })
                } else if m1.control.len() >= MAX_CONTROL_DEPTH {
                    Err(Error::Trap(STACK_EXHAUSTED))
                } else {
                    let label = Label {
                        stack_len: (m1.stack.len() - e.params_len) as usize,
                        dest_pc: if op == 0x03 {
                            (m.pc - 1) as usize
                        } else {
                            e.end_pc
                        },
                        arity: if op == 0x03 {
                            e.params_len as u32
                        } else if e.has_result {
                            1
                        } else {
                            0
                        },
                        has_result: e.has_result,
                    };
                    go(
                        MachineView {
                            pc: if op == 0x04 && c.spec_as_u32() == 0 {
                                e.else_pc
                            } else {
                                e.body_pc
                            },
                            control: m1.control.push(label),
                            ..m1
                        },
                    )
                },
            }
        },
    }
}

/// `end`: at the return label of the call frame on top, the function
/// returns; elsewhere the label on top is popped and the value stack is
/// cut to its height, with the result on top where it has one.
pub open spec fn end_spec(m: MachineView) -> Stepped {
    if m.frames.len() > 0 && m.frames.last().ctrl_base + 1 == m.control.len() {
        branch(m, 0)
    } else if m.control.len() == 0 {
        Ok((m, Signal::Finished))
    } else {
        let target = m.control.last();
        let control = m.control.drop_last();
        if target.has_result {
            if m.stack.len() == 0 {
                Err(Error::Trap(STACK_UNDERFLOW))
            } else {
                go(
                    MachineView {
                        stack: truncate(m.stack, target.stack_len as int).push(m.stack.last()),
                        control,
                        ..m
                    },
                )
            }
        } else {
            go(MachineView { stack: truncate(m.stack, target.stack_len as int), control, ..m })
        }
    }
}

/// `return`: a branch to the return label of the call frame on top.
pub open spec fn return_spec(m: MachineView) -> Stepped {
    if m.control.len() == 0 {
        Ok((m, Signal::Finished))
    } else if m.frames.len() == 0 {
        Err(Error::Trap(STACK_UNDERFLOW))
    } else {
        let base = m.frames.last().ctrl_base;
        let top = m.control.len() - 1;
        if top - base > u32::MAX {
            Err(Error::Trap(STACK_EXHAUSTED))
        } else {
            branch(m, if top >= base { (top - base) as u32 } else { 0u32 })
        }
    }
}

/// The label that a `br_table` picks: the `v`-th of its `n` labels, read
/// from `pos` on with `i` of them read already, or none where `v` is not
/// below `n`; and the position after the labels.
pub open spec fn pick_label(bytes: Seq<u8>, pos: int, n: nat, v: nat, i: nat, chosen: Option<u32>) -> Result<
    (Option<u32>, int),
    Error,
>
    decreases n - i,
{
    if i >= n {
        Ok((chosen, pos))
    } else {
        match plain_unsigned_spec(bytes, pos) {
            Err(e) => Err(e),
            Ok((t, p)) => pick_label(
                bytes,
                p,
                n,
                v,
                i + 1,
                if i == v { Some((t % 0x1_0000_0000) as u32) } else { chosen },
            ),
        }
    }
}

/// `br` (`0x0c`), `br_if` (`0x0d`), `br_table` (`0x0e`) and `return`
/// (`0x0f`).
pub open spec fn br_spec(bytes: Seq<u8>, op: u8, m: MachineView) -> Stepped {
    if op == 0x0f {
        return_spec(m)
    } else if op == 0x0c {
        match imm_u32(bytes, m) {
            Err(e) => Err(e),
            Ok((depth, m1)) => branch(m1, depth),
        }
    } else if op == 0x0d {
        match imm_u32(bytes, m) {
            Err(e) => Err(e),
            Ok((depth, m1)) => match pop(m1) {
                Err(e) => Err(e),
                Ok((c, m2)) => if c.spec_as_u32() != 0 {
                    branch(m2, depth)
                } else {
                    go(m2)
                },
            },
        }
    } else {
        match pop(m) {
            Err(e) => Err(e),
            Ok((v, m1)) => match imm_u32(bytes, m1) {
                Err(e) => Err(e),
                Ok((n, m2)) => match pick_label(
                    bytes,
                    m2.pc as int,
                    n as nat,
                    v.spec_as_u32() as nat,
                    0,
                    None,
                ) {
                    Err(e) => Err(e),
                    Ok((chosen, p)) => match imm_u32(bytes, MachineView { pc: p as usize, ..m2 }) {
                        Err(e) => Err(e),
                        Ok((default, m3)) => branch(
                            m3,
                            match chosen {
                                Some(d) => d,
                                None => default,
                            },
                        ),
                    },
                },
            },
        }
    }
}

/// `call`: the function index follows.
pub open spec fn call_spec(mgr: InstanceManager, inst: Instance, bytes: Seq<u8>, m: MachineView) -> Stepped {
    match imm_u32(bytes, m) {
        Err(e) => Err(e),
        Ok((fi, m1)) => if fi >= inst.functions@.len() {
            Err(Error::Trap(FUNC_NO_IMPL))
        } else {
            invoke_spec(mgr, m1, m.instance, inst.functions@[fi as int])
        },
    }
}

/// `call_indirect`: a type index and a flag byte follow.  The table
/// index is popped; the slot must exist and hold a handle, whose owner
/// must be registered and whose function must have the packed signature
/// of the type.  The function is called in its owner.
pub open spec fn call_indirect_spec(
    mgr: InstanceManager,
    tables: Seq<WasmTable>,
    inst: Instance,
    bytes: Seq<u8>,
    m: MachineView,
) -> Stepped {
    match imm_u32(bytes, m) {
        Err(e) => Err(e),
        Ok((type_idx, m1)) => match skip_flag(bytes, m1) {
            Err(e) => Err(e),
            Ok(m2) => match pop(m2) {
                Err(e) => Err(e),
                Ok((elem, m3)) => match inst.table {
                    None => Err(Error::Trap(UNDEF_ELEM)),
                    Some(t) => if t >= tables.len() || elem.spec_as_u32() >= tables[t as int].spec_size()
                        || elem.spec_as_u32() >= tables[t as int]@.len() {
                        Err(Error::Trap(UNDEF_ELEM))
                    } else {
                        let handle = tables[t as int]@[elem.spec_as_u32() as int];
                        let low = handle % 0x1_0000_0000;
                        let owner = if owner_of(handle) == m.instance {
                            Some(inst)
                        } else {
                            mgr.instance_of(owner_of(handle))
                        };
                        if handle == 0 {
                            Err(Error::Trap(UNINITIALIZED_ELEM))
                        } else if low == 0 {
                            Err(Error::Trap(FUNC_NO_IMPL))
                        } else if type_idx >= inst.module.types@.len() {
                            Err(Error::Trap(INDIRECT_CALL_MISMATCH))
                        } else {
                            match owner {
                                None => Err(Error::Trap(FUNC_NO_IMPL)),
                                Some(o) => if low - 1 >= o.functions@.len() {
                                    Err(Error::Trap(FUNC_NO_IMPL))
                                } else if o.functions@[low - 1].spec_signature()
                                    != RuntimeSignature::spec_from_signature(
                                    inst.module.types@[type_idx as int]@,
                                ) {
                                    Err(Error::Trap(INDIRECT_CALL_MISMATCH))
                                } else {
                                    invoke_spec(mgr, m3, owner_of(handle), o.functions@[low - 1])
                                },
                            }
                        }
                    },
                },
            },
        },
    }
}

/// `drop` (`0x1a`) and `select` (`0x1b`).
pub open spec fn parametric_spec(op: u8, m: MachineView) -> Stepped {
    if op == 0x1a {
        match pop(m) {
            Err(e) => Err(e),
            Ok((_, m1)) => go(m1),
        }
    } else {
        match pop(m) {
            Err(e) => Err(e),
            Ok((c, m1)) => match pop(m1) {
                Err(e) => Err(e),
                Ok((v2, m2)) => match pop(m2) {
                    Err(e) => Err(e),
                    Ok((v1, m3)) => go(push(m3, if c.spec_as_u32() != 0 { v1 } else { v2 })),
                },
            },
        }
    }
}

/// `local.get` (`0x20`), `local.set` (`0x21`) and `local.tee` (`0x22`):
/// local `i` is the value `i` places above the start of the locals of
/// the call frame on top.
pub open spec fn local_spec(bytes: Seq<u8>, op: u8, m: MachineView) -> Stepped {
    match imm_u32(bytes, m) {
        Err(e) => Err(e),
        Ok((idx, m1)) => if m1.frames.len() == 0 {
            Err(Error::Trap(STACK_UNDERFLOW))
        } else {
            let i = m1.frames.last().locals_start + idx;
            if op == 0x20 {
                if i >= m1.stack.len() {
                    Err(Error::Trap(STACK_UNDERFLOW))
                } else {
                    go(push(m1, m1.stack[i]))
                }
            } else if op == 0x21 {
                match pop(m1) {
                    Err(e) => Err(e),
                    Ok((v, m2)) => if i >= m2.stack.len() {
                        Err(Error::Trap(STACK_UNDERFLOW))
                    } else {
                        go(MachineView { stack: m2.stack.update(i, v), ..m2 })
                    },
                }
            } else {
                if m1.stack.len() == 0 || i >= m1.stack.len() {
                    Err(Error::Trap(STACK_UNDERFLOW))
                } else {
                    go(MachineView { stack: m1.stack.update(i, m1.stack.last()), ..m1 })
                }
            }
        },
    }
}

/// The four `const` instructions, `0x41` to `0x44`.
pub open spec fn const_spec(bytes: Seq<u8>, op: u8, m: MachineView) -> Stepped {
    if op == 0x41 || op == 0x42 {
        match plain_signed_spec(bytes, m.pc as int) {
            Err(e) => Err(e),
            Ok((v, p)) => go(
                push(
                    MachineView { pc: p as usize, ..m },
                    WasmValue(
                        if op == 0x41 {
                            (v % 0x1_0000_0000) as u64
                        } else {
                            unsigned64(v) as u64
                        },
                    ),
                ),
            ),
        }
    } else {
        let width: int = if op == 0x43 { 4 } else { 8 };
        if m.pc + width > bytes.len() {
            Err(Error::Malformed(UNEXPECTED_END))
        } else {
            go(
                push(
                    MachineView { pc: (m.pc + width) as usize, ..m },
                    WasmValue(
                        if op == 0x43 {
                            le32(bytes, m.pc as int) as u64
                        } else {
                            le64(bytes, m.pc as int) as u64
                        },
                    ),
                ),
            )
        }
    }
}

/// The numeric instructions that the machine evaluates, and the
/// requests to the float unit.
pub open spec fn numeric_spec(op: u8, m: MachineView) -> Stepped {
    if is_unary_spec(op) {
        match pop(m) {
            Err(e) => Err(e),
            Ok((a, m1)) => go(push(m1, WasmValue(unary_spec(op, a.0)))),
        }
    } else if is_truncation(op) {
        match pop(m) {
            Err(e) => Err(e),
            Ok((a, m1)) => match truncate_spec(op, a.0) {
                Err(e) => Err(e),
                Ok(v) => go(push(m1, WasmValue(v))),
            },
        }
    } else if is_binary_spec(op) {
        match pop(m) {
            Err(e) => Err(e),
            Ok((b, m1)) => match pop(m1) {
                Err(e) => Err(e),
                Ok((a, m2)) => match binary_spec(op, a.0, b.0) {
                    Err(e) => Err(e),
                    Ok(v) => go(push(m2, WasmValue(v))),
                },
            },
        }
    } else if float_op_arity_spec(op) == 2 {
        match pop(m) {
            Err(e) => Err(e),
            Ok((b, m1)) => match pop(m1) {
                Err(e) => Err(e),
                Ok((a, m2)) => Ok((m2, Signal::Float { op, a, b })),
            },
        }
    } else {
        match pop(m) {
            Err(e) => Err(e),
            Ok((a, m1)) => Ok((m1, Signal::Float { op, a, b: WasmValue(0) })),
        }
    }
}

/// The width in bytes of the access of a load or a store.
pub open spec fn access_width(op: u8) -> nat {
    let k = natural_align_spec(op);
    if k == 0 {
        1
    } else if k == 1 {
        2
    } else if k == 2 {
        4
    } else {
        8
    }
}

/// The unsigned number of the given width at `a`.
pub open spec fn le_at(bytes: Seq<u8>, a: int, width: nat) -> int {
    if width == 1 {
        bytes[a] as int
    } else if width == 2 {
        le16(bytes, a)
    } else if width == 4 {
        le32(bytes, a)
    } else {
        le64(bytes, a)
    }
}

/// Whether the load `op` extends the sign of what it reads.
pub open spec fn load_is_signed(op: u8) -> bool {
    op == 0x2c || op == 0x2e || op == 0x30 || op == 0x32 || op == 0x34
}

/// Whether the load `op` leaves a 32-bit value.
pub open spec fn load_is_narrow(op: u8) -> bool {
    op == 0x28 || op == 0x2a || (0x2c <= op <= 0x2f)
}

/// `raw`, an unsigned number of the given width, extended to the payload
/// of a value: by its sign or by zeros, to 32 or to 64 bits.
pub open spec fn extend(raw: int, width: nat, signed: bool, narrow: bool) -> u64 {
    let v = if !signed {
        raw
    } else if width == 1 {
        signed8(raw)
    } else if width == 2 {
        signed16(raw)
    } else {
        signed32(raw as u32)
    };
    if narrow {
        unsigned32(v) as u64
    } else {
        unsigned64(v) as u64
    }
}

/// The payload that the load `op` reads at `addr + offset`, or the trap.
pub open spec fn load_spec(mem: MemView, op: u8, addr: u32, offset: u32) -> Result<u64, Error> {
    let width = access_width(op);
    if !access_ok(mem.bytes.len(), addr, offset, width) {
        Err(Error::Trap(OOB_MEMORY_ACCESS))
    } else {
        Ok(extend(le_at(mem.bytes, addr + offset, width), width, load_is_signed(op), load_is_narrow(op)))
    }
}

/// The memory after the store `op` has written the low bytes of `v` at
/// `addr + offset`, or the trap.
pub open spec fn store_spec(mem: MemView, op: u8, addr: u32, offset: u32, v: u64) -> Result<
    MemView,
    Error,
> {
    let width = access_width(op);
    let a = addr + offset;
    if !access_ok(mem.bytes.len(), addr, offset, width) {
        Err(Error::Trap(OOB_MEMORY_ACCESS))
    } else {
        Ok(
            MemView {
                bytes: if width == 1 {
                    put8(mem.bytes, a, v as int % 0x100)
                } else if width == 2 {
                    put16(mem.bytes, a, v as int % 0x1_0000)
                } else if width == 4 {
                    put32(mem.bytes, a, v as int % 0x1_0000_0000)
                } else {
                    put64(mem.bytes, a, v as int)
                },
                ..mem
            },
        )
    }
}

/// The memory after `memory.grow` by `delta` pages, and the value that
/// the instruction leaves: the size before, or `u32::MAX` where the
/// memory cannot grow by that much.
pub open spec fn grow_spec(mem: MemView, delta: u32) -> (MemView, u32) {
    if delta == 0 {
        (mem, mem.size)
    } else if mem.size + delta <= mem.max && (mem.size + delta) * 65536 <= usize::MAX {
        (
            MemView {
                bytes: mem.bytes + Seq::new(delta as nat * 65536, |i: int| 0u8),
                size: (mem.size + delta) as u32,
                max: mem.max,
            },
            mem.size,
        )
    } else {
        (mem, u32::MAX)
    }
}

/// The outcome of an instruction that may touch the memories or the
/// globals.
pub type Ran = Result<(RunState, Signal), Error>;

/// Lifts the outcome of an instruction that touches the machine alone.
pub open spec fn lift(r: Stepped, st: RunState) -> Ran {
    match r {
        Ok((m, s)) => Ok((RunState { m, ..st }, s)),
        Err(e) => Err(e),
    }
}

/// The index in the store of the memory of the instance.
pub open spec fn memory_of(inst: Instance, st: RunState) -> Result<int, Error> {
    match inst.memory {
        None => Err(Error::Validation(UNKNOWN_MEMORY)),
        Some(i) => if i >= st.mems.len() {
            Err(Error::Validation(UNKNOWN_MEMORY))
        } else {
            Ok(i as int)
        },
    }
}

/// The loads (`0x28` to `0x35`) and stores (`0x36` to `0x3e`): an
/// alignment and an offset follow; a store pops the value, and both pop
/// the address.
pub open spec fn access_spec(inst: Instance, bytes: Seq<u8>, op: u8, st: RunState) -> Ran {
    match imm_u32(bytes, st.m) {
        Err(e) => Err(e),
        Ok((_, m1)) => match imm_u32(bytes, m1) {
            Err(e) => Err(e),
            Ok((offset, m2)) => if op >= 0x36 {
                match pop(m2) {
                    Err(e) => Err(e),
                    Ok((v, m3)) => match pop(m3) {
                        Err(e) => Err(e),
                        Ok((addr, m4)) => match memory_of(inst, st) {
                            Err(e) => Err(e),
                            Ok(i) => match store_spec(st.mems[i], op, addr.spec_as_u32(), offset, v.0) {
                                Err(e) => Err(e),
                                Ok(mem) => Ok(
                                    (
                                        RunState { m: m4, mems: st.mems.update(i, mem), ..st },
                                        Signal::Continue,
                                    ),
                                ),
                            },
                        },
                    },
                }
            } else {
                match pop(m2) {
                    Err(e) => Err(e),
                    Ok((addr, m3)) => match memory_of(inst, st) {
                        Err(e) => Err(e),
                        Ok(i) => match load_spec(st.mems[i], op, addr.spec_as_u32(), offset) {
                            Err(e) => Err(e),
                            Ok(v) => Ok(
                                (RunState { m: push(m3, WasmValue(v)), ..st }, Signal::Continue),
                            ),
                        },
                    },
                }
            },
        },
    }
}

/// `memory.size` (`0x3f`) and `memory.grow` (`0x40`): a flag byte
/// follows.
pub open spec fn memory_spec(inst: Instance, bytes: Seq<u8>, op: u8, st: RunState) -> Ran {
    match skip_flag(bytes, st.m) {
        Err(e) => Err(e),
        Ok(m1) => if op == 0x3f {
            match memory_of(inst, st) {
                Err(e) => Err(e),
                Ok(i) => Ok(
                    (
                        RunState { m: push(m1, WasmValue(st.mems[i].size as u64)), ..st },
                        Signal::Continue,
                    ),
                ),
            }
        } else {
            match pop(m1) {
                Err(e) => Err(e),
                Ok((delta, m2)) => match memory_of(inst, st) {
                    Err(e) => Err(e),
                    Ok(i) => {
                        let (mem, old) = grow_spec(st.mems[i], delta.spec_as_u32());
                        Ok(
                            (
                                RunState {
                                    m: push(m2, WasmValue(old as u64)),
                                    mems: st.mems.update(i, mem),
                                    ..st
                                },
                                Signal::Continue,
                            ),
                        )
                    },
                },
            }
        },
    }
}

/// `global.get` (`0x23`) and `global.set` (`0x24`).
pub open spec fn global_spec(inst: Instance, bytes: Seq<u8>, op: u8, st: RunState) -> Ran {
    match imm_u32(bytes, st.m) {
        Err(e) => Err(e),
        Ok((gi, m1)) => if gi >= inst.globals@.len() || inst.globals@[gi as int] >= st.globals.len() {
            Err(Error::Trap(UNKNOWN_GLOBAL))
        } else {
            let g = inst.globals@[gi as int] as int;
            if op == 0x23 {
                Ok((RunState { m: push(m1, st.globals[g].value), ..st }, Signal::Continue))
            } else {
                match pop(m1) {
                    Err(e) => Err(e),
                    Ok((v, m2)) => Ok(
                        (
                            RunState {
                                m: m2,
                                globals: st.globals.update(g, WasmGlobal { value: v, ..st.globals[g] }),
                                ..st
                            },
                            Signal::Continue,
                        ),
                    ),
                }
            }
        },
    }
}

/// The instruction `op` of the instance `inst`; the program counter
/// stands after the opcode.
pub open spec fn instr_spec(
    mgr: InstanceManager,
    tables: Seq<WasmTable>,
    inst: Instance,
    op: u8,
    st: RunState,
) -> Ran {
    let bytes = inst.module.bytes@;
    let m = st.m;
    if op == 0x00 {
        Err(Error::Trap(UNREACHABLE))
    } else if op == 0x01 || (0xbc <= op <= 0xbf) {
        Ok((st, Signal::Continue))
    } else if 0x02 <= op <= 0x04 {
        lift(open_spec(inst, op, m), st)
    } else if op == 0x05 {
        lift(go(unwind(jump(m, 0))), st)
    } else if op == 0x0b {
        lift(end_spec(m), st)
    } else if 0x0c <= op <= 0x0f {
        lift(br_spec(bytes, op, m), st)
    } else if op == 0x10 {
        lift(call_spec(mgr, inst, bytes, m), st)
    } else if op == 0x11 {
        lift(call_indirect_spec(mgr, tables, inst, bytes, m), st)
    } else if op == 0x1a || op == 0x1b {
        lift(parametric_spec(op, m), st)
    } else if 0x20 <= op <= 0x22 {
        lift(local_spec(bytes, op, m), st)
    } else if op == 0x23 || op == 0x24 {
        global_spec(inst, bytes, op, st)
    } else if 0x28 <= op <= 0x3e {
        access_spec(inst, bytes, op, st)
    } else if op == 0x3f || op == 0x40 {
        memory_spec(inst, bytes, op, st)
    } else if 0x41 <= op <= 0x44 {
        lift(const_spec(bytes, op, m), st)
    } else if is_unary_spec(op) || is_truncation(op) || is_binary_spec(op) || is_float_op_spec(op) {
        lift(numeric_spec(op, m), st)
    } else {
        Err(Error::Malformed(UNKNOWN_INSTRUCTION))
    }
}

/// One step of the machine.  A machine that waits for its embedder, has
/// finished or has failed stays as it is and repeats its signal; a
/// machine that can go on runs the instruction at its program counter
/// and remembers the signal.
pub open spec fn step_spec(mgr: InstanceManager, tables: Seq<WasmTable>, st: RunState) -> (
    RunState,
    Signal,
) {
    if st.m.waiting != Signal::Continue {
        (st, st.m.waiting)
    } else {
        match fetch_spec(mgr, tables, st) {
            Err(e) => (RunState { m: failed(st.m, e), ..st }, Signal::Failed(e)),
            Ok((st2, s)) => (RunState { m: MachineView { waiting: s, ..st2.m }, ..st2 }, s),
        }
    }
}

/// The instruction at the program counter of a machine that can go on.
pub open spec fn fetch_spec(mgr: InstanceManager, tables: Seq<WasmTable>, st: RunState) -> Ran {
    match mgr.instance_of(st.m.instance) {
        None => Err(Error::Trap(FUNC_NO_IMPL)),
        Some(inst) => if st.m.pc >= inst.module.bytes@.len() {
            Err(Error::Malformed(UNEXPECTED_END))
        } else {
            instr_spec(
                mgr,
                tables,
                inst,
                inst.module.bytes@[st.m.pc as int],
                RunState { m: MachineView { pc: (st.m.pc + 1) as usize, ..st.m }, ..st },
            )
        },
    }
}

/// The machine after it has failed: it gives up its stacks and stays
/// failed.  The memories and the globals are as before the instruction
/// that failed.
pub open spec fn failed(m: MachineView, e: Error) -> MachineView {
    MachineView {
        pc: m.pc,
        instance: m.instance,
        stack: Seq::empty(),
        control: Seq::empty(),
        frames: Seq::empty(),
        waiting: Signal::Failed(e),
    }
}

/// At most `fuel` steps of the machine, until it signals anything but
/// that it can go on.
pub open spec fn run_spec(mgr: InstanceManager, tables: Seq<WasmTable>, st: RunState, fuel: nat) -> (
    RunState,
    Signal,
)
    decreases fuel,
{
    if fuel == 0 {
        (st, st.m.waiting)
    } else {
        let (st2, s) = step_spec(mgr, tables, st);
        if s == Signal::Continue {
            run_spec(mgr, tables, st2, (fuel - 1) as nat)
        } else {
            (st2, s)
        }
    }
}

/// The machine after the embedder has answered a host call: the
/// arguments are gone and the result, if any, is on the stack.  A machine
/// that has no caller left has finished.  A machine that did not ask is
/// as it was.
pub open spec fn resume_host_spec(m: MachineView, result: Option<WasmValue>) -> MachineView {
    match m.waiting {
        Signal::Host { callback, n_params } => {
            let base = truncate(m.stack, m.stack.len() - n_params);
            MachineView {
                stack: match result {
                    Some(v) => base.push(v),
                    None => base,
                },
                waiting: if m.control.len() == 0 {
                    Signal::Finished
                } else {
                    Signal::Continue
                },
                ..m
            }
        },
        _ => m,
    }
}

/// The machine after the embedder has answered a float instruction: the
/// result is on the stack, or the machine has failed with the trap of
/// the instruction.  A machine that did not ask is as it was.
pub open spec fn resume_float_spec(m: MachineView, result: Result<WasmValue, Error>) -> MachineView {
    match m.waiting {
        Signal::Float { .. } => match result {
            Ok(v) => MachineView { stack: m.stack.push(v), waiting: Signal::Continue, ..m },
            Err(e) => failed(m, e),
        },
        _ => m,
    }
}

/// The machine that is ready to run the function `f` of `instance` on
/// the arguments `args`: the number of arguments must be the number of
/// parameters.
pub open spec fn call_machine(mgr: InstanceManager, instance: u32, f: RuntimeFunction, args: Seq<WasmValue>) -> MachineView {
    let blank = MachineView {
        pc: 0,
        instance,
        stack: args,
        control: Seq::empty(),
        frames: Seq::empty(),
        waiting: Signal::Continue,
    };
    if f.spec_param_count() != args.len() {
        failed(blank, Error::Trap(INVALID_NUM_ARG))
    } else {
        match invoke_spec(mgr, blank, instance, f) {
            Err(e) => failed(blank, e),
            Ok((m, s)) => MachineView { waiting: s, ..m },
        }
    }
}

} // verus!
