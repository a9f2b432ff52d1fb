//! The machine that runs validated code, one instruction at a time.
//!
//! Every function here is proved to do to the machine what
//! [`crate::semantics`] says.  The machine never runs on its own: its
//! embedder calls [`Machine::run`] with an amount of fuel, answers the
//! requests that come back, and calls again.

use vstd::prelude::*;
use crate::error::{Error, UNEXPECTED_END, STACK_UNDERFLOW, STACK_EXHAUSTED, FUNC_NO_IMPL};
use crate::instance::RuntimeFunction;
use crate::leb128::{read_leb128, lemma_group_len_positive};
use crate::semantics::{
    Label,
    CallFrame,
    Signal,
    MachineView,
    Stepped,
    MAX_CALL_DEPTH,
    MAX_CONTROL_DEPTH,
    mem_view,
    truncate,
    pop,
    push,
    imm_u32,
    skip_flag,
    jump,
    unwind,
    branch,
    enter,
    resolve,
    invoke_spec,
    load_spec,
    store_spec,
    grow_spec,
};
use crate::signature::RuntimeSignature;
use crate::store::InstanceManager;
use crate::value::{WasmValue, i32_to_u32, i64_to_u64};
use crate::wasm_memory::WasmMemory;

verus! {

/// A machine.
pub struct Machine {
    pub pc: usize,
    pub instance: u32,
    pub stack: Vec<WasmValue>,
    pub control: Vec<Label>,
    pub frames: Vec<CallFrame>,
    pub waiting: Signal,
}

impl View for Machine {
    type V = MachineView;

    open spec fn view(&self) -> MachineView {
        MachineView {
            pc: self.pc,
            instance: self.instance,
            stack: self.stack@,
            control: self.control@,
            frames: self.frames@,
            waiting: self.waiting,
        }
    }
}

/// Whether the outcome `r` of an exec instruction and the machine after
/// it are what `spec` says.
pub open spec fn stepped(spec: Stepped, r: Result<Signal, Error>, after: MachineView) -> bool {
    match spec {
        Ok((m, s)) => r == Ok::<Signal, Error>(s) && after == m,
        Err(e) => r == Err::<Signal, Error>(e),
    }
}

/// The payload that the load `op` reads; see [`load_spec`].
pub fn load(mem: &WasmMemory, op: u8, addr: u32, offset: u32) -> (r: Result<u64, Error>)
    requires
        mem.wf(),
        0x28 <= op <= 0x35,
    ensures
        r == load_spec(mem_view(*mem), op, addr, offset),
{
    if op == 0x28 || op == 0x2a || op == 0x35 {
        match mem.load_u32(addr, offset) {
            Ok(v) => Ok(v as u64),
            Err(msg) => Err(Error::Trap(msg)),
        }
    } else if op == 0x29 || op == 0x2b {
        match mem.load_u64(addr, offset) {
            Ok(v) => Ok(v),
            Err(msg) => Err(Error::Trap(msg)),
        }
    } else if op == 0x2c {
        match mem.load_i8(addr, offset) {
            Ok(v) => Ok(i32_to_u32(v as i32) as u64),
            Err(msg) => Err(Error::Trap(msg)),
        }
    } else if op == 0x2d || op == 0x31 {
        match mem.load_u8(addr, offset) {
            Ok(v) => Ok(v as u64),
            Err(msg) => Err(Error::Trap(msg)),
        }
    } else if op == 0x2e {
        match mem.load_i16(addr, offset) {
            Ok(v) => Ok(i32_to_u32(v as i32) as u64),
            Err(msg) => Err(Error::Trap(msg)),
        }
    } else if op == 0x2f || op == 0x33 {
        match mem.load_u16(addr, offset) {
            Ok(v) => Ok(v as u64),
            Err(msg) => Err(Error::Trap(msg)),
        }
    } else if op == 0x30 {
        match mem.load_i8(addr, offset) {
            Ok(v) => Ok(i64_to_u64(v as i64)),
            Err(msg) => Err(Error::Trap(msg)),
        }
    } else if op == 0x32 {
        match mem.load_i16(addr, offset) {
            Ok(v) => Ok(i64_to_u64(v as i64)),
            Err(msg) => Err(Error::Trap(msg)),
        }
    } else {
        match mem.load_i32(addr, offset) {
            Ok(v) => Ok(i64_to_u64(v as i64)),
            Err(msg) => Err(Error::Trap(msg)),
        }
    }
}

/// Writes the low bytes of `v` as the store `op` does; see
/// [`store_spec`].
pub fn store(mem: &mut WasmMemory, op: u8, addr: u32, offset: u32, v: u64) -> (r: Result<(), Error>)
    requires
        old(mem).wf(),
        0x36 <= op <= 0x3e,
    ensures
        final(mem).wf(),
        match store_spec(mem_view(*old(mem)), op, addr, offset, v) {
            Ok(after) => r is Ok && mem_view(*final(mem)) == after,
            Err(e) => r == Err::<(), Error>(e) && mem_view(*final(mem)) == mem_view(*old(mem)),
        },
{
    let r = if op == 0x36 || op == 0x38 || op == 0x3e {
        mem.store_u32(addr, offset, (v % 0x1_0000_0000) as u32)
    } else if op == 0x37 || op == 0x39 {
        mem.store_u64(addr, offset, v)
    } else if op == 0x3a || op == 0x3c {
        mem.store_u8(addr, offset, (v % 0x100) as u8)
    } else {
        mem.store_u16(addr, offset, (v % 0x1_0000) as u16)
    };
    match r {
        Ok(()) => Ok(()),
        Err(msg) => Err(Error::Trap(msg)),
    }
}

/// Grows the memory as `memory.grow` does; see [`grow_spec`].
pub fn grow(mem: &mut WasmMemory, delta: u32) -> (r: u32)
    requires
        old(mem).wf(),
    ensures
        final(mem).wf(),
        (mem_view(*final(mem)), r) == grow_spec(mem_view(*old(mem)), delta),
{
    mem.grow(delta)
}

/// The function that `f` stands for and its owner; see [`resolve`].
pub fn resolve_function(mgr: &InstanceManager, holder: u32, f: RuntimeFunction) -> (r: Result<
    (u32, RuntimeFunction),
    Error,
>)
    ensures
        r == resolve(*mgr, holder, f, mgr.slots@.len()),
{
    let mut owner: u32 = holder;
    let mut cur: RuntimeFunction = f;
    let mut hops: usize = mgr.slots.len();
    loop
        invariant
            resolve(*mgr, holder, f, mgr.slots@.len()) == resolve(*mgr, owner, cur, hops as nat),
        decreases hops,
    {
        match cur {
            RuntimeFunction::ImportedWasm { owner: next, function_index, .. } => {
                if hops == 0 {
                    return Err(Error::Trap(FUNC_NO_IMPL));
                }
                match mgr.get_instance(next) {
                    None => {
                        return Err(Error::Trap(FUNC_NO_IMPL));
                    },
                    Some(inst) => {
                        if function_index >= inst.functions.len() {
                            return Err(Error::Trap(FUNC_NO_IMPL));
                        }
                        cur = inst.functions[function_index];
                        owner = next;
                        hops = hops - 1;
                    },
                }
            },
            _ => {
                return Ok((owner, cur));
            },
        }
    }
}

impl Machine {
    /// Pops a value; see [`pop`].
    pub fn pop(&mut self) -> (r: Result<WasmValue, Error>)
        ensures
            match pop(old(self)@) {
                Ok((v, m)) => r == Ok::<WasmValue, Error>(v) && final(self)@ == m,
                Err(e) => r == Err::<WasmValue, Error>(e) && final(self)@ == old(self)@,
            },
    {
        match self.stack.pop() {
            Some(v) => Ok(v),
            None => Err(Error::Trap(STACK_UNDERFLOW)),
        }
    }

    /// Pushes a value; see [`push`].
    pub fn push(&mut self, v: WasmValue)
        ensures
            final(self)@ == push(old(self)@, v),
    {
        self.stack.push(v);
    }

    /// Reads an unsigned immediate; see [`imm_u32`].
    pub fn imm_u32(&mut self, bytes: &[u8]) -> (r: Result<u32, Error>)
        ensures
            match imm_u32(bytes@, old(self)@) {
                Ok((v, m)) => r == Ok::<u32, Error>(v) && final(self)@ == m,
                Err(e) => r == Err::<u32, Error>(e) && final(self)@ == old(self)@,
            },
    {
        let mut p: usize = self.pc;
        proof {
            lemma_group_len_positive(bytes@, p as int);
        }
        let v: u64 = read_leb128(bytes, &mut p)?;
        self.pc = p;
        Ok((v % 0x1_0000_0000) as u32)
    }

    /// Steps over a flag byte; see [`skip_flag`].
    pub fn skip_flag(&mut self, bytes: &[u8]) -> (r: Result<(), Error>)
        ensures
            match skip_flag(bytes@, old(self)@) {
                Ok(m) => r is Ok && final(self)@ == m,
                Err(e) => r == Err::<(), Error>(e) && final(self)@ == old(self)@,
            },
    {
        if self.pc >= bytes.len() {
            return Err(Error::Malformed(UNEXPECTED_END));
        }
        self.pc = self.pc + 1;
        Ok(())
    }

    /// Jumps to the label `depth` levels up; see [`jump`].
    pub fn jump(&mut self, depth: u32)
        ensures
            final(self)@ == jump(old(self)@, depth),
    {
        let len: usize = self.control.len();
        if depth as usize >= len {
            return ;
        }
        let keep: usize = len - depth as usize - 1;
        let target: Label = self.control[keep];
        self.control.truncate(keep);
        let arity: usize = target.arity as usize;
        let n: usize = self.stack.len();
        let src: usize = if n >= arity { n - arity } else { 0 };
        let dst: usize = target.stack_len;
        if arity > 0 && src > dst {
            let mut k: usize = 0;
            while k < arity
                invariant
                    k <= arity,
                    arity == n - src,
                    dst < src,
                    n == self.stack@.len(),
                    n == old(self).stack@.len(),
                    self.pc == old(self).pc,
                    self.instance == old(self).instance,
                    self.waiting == old(self).waiting,
                    self.frames == old(self).frames,
                    self.control@ == old(self).control@.subrange(0, keep as int),
                    forall|j: int| 0 <= j < dst ==> self.stack@[j] == old(self).stack@[j],
                    forall|j: int|
                        dst <= j < dst + k ==> #[trigger] self.stack@[j] == old(self).stack@[j - dst
                            + src],
                    forall|j: int| dst + k <= j < n ==> self.stack@[j] == old(self).stack@[j],
                decreases arity - k,
            {
                let v: WasmValue = self.stack[src + k];
                self.stack[dst + k] = v;
                k = k + 1;
            }
            self.stack.truncate(dst + arity);
            assert(self.stack@ =~= old(self).stack@.subrange(0, dst as int) + old(self).stack@.subrange(src as int, n as int));
        } else {
            if arity <= usize::MAX - dst {
                self.stack.truncate(dst + arity);
            }
        }
        self.pc = target.dest_pc;
    }

    /// Leaves the call frame on top where its return label is gone; see
    /// [`unwind`].
    pub fn unwind(&mut self)
        ensures
            final(self)@ == unwind(old(self)@),
    {
        let n: usize = self.frames.len();
        if n > 0 && self.frames[n - 1].ctrl_base >= self.control.len() {
            self.instance = self.frames[n - 1].caller;
            self.frames.pop();
        }
    }

    /// Branches to the label `depth` levels up; see [`branch`].
    pub fn branch(&mut self, depth: u32) -> (r: Result<Signal, Error>)
        ensures
            stepped(branch(old(self)@, depth), r, final(self)@),
    {
        let gone: bool = depth as usize >= self.control.len();
        self.jump(depth);
        self.unwind();
        if gone || self.control.len() == 0 {
            Ok(Signal::Finished)
        } else {
            Ok(Signal::Continue)
        }
    }

    /// Enters a call of a function of `instance`; see [`enter`].
    pub fn enter(
        &mut self,
        instance: u32,
        sig: RuntimeSignature,
        pc_start: usize,
        locals_count: usize,
    ) -> (r: Result<Signal, Error>)
        ensures
            stepped(enter(old(self)@, instance, sig, pc_start, locals_count), r, final(self)@),
    {
        let n_params: usize = sig.n_params() as usize;
        if self.frames.len() >= MAX_CALL_DEPTH || self.control.len() >= MAX_CONTROL_DEPTH {
            return Err(Error::Trap(STACK_EXHAUSTED));
        }
        let n: usize = self.stack.len();
        if n < n_params {
            return Err(Error::Trap(STACK_UNDERFLOW));
        }
        if locals_count > usize::MAX - n {
            return Err(Error::Trap(STACK_EXHAUSTED));
        }
        let locals_start: usize = n - n_params;
        self.stack.resize(n + locals_count, WasmValue(0));
        assert(self.stack@ =~= old(self).stack@ + Seq::new(
            locals_count as nat,
            |i: int| WasmValue(0),
        ));
        let has_result: bool = sig.has_result();
        self.control.push(
            Label {
                stack_len: locals_start,
                dest_pc: self.pc,
                arity: if has_result { 1 } else { 0 },
                has_result,
            },
        );
        self.frames.push(
            CallFrame { locals_start, ctrl_base: self.control.len() - 1, caller: self.instance },
        );
        self.instance = instance;
        self.pc = pc_start;
        Ok(Signal::Continue)
    }

    /// Calls the function `f` that `holder` holds; see [`invoke_spec`].
    pub fn invoke(&mut self, mgr: &InstanceManager, holder: u32, f: RuntimeFunction) -> (r: Result<
        Signal,
        Error,
    >)
        ensures
            stepped(invoke_spec(*mgr, old(self)@, holder, f), r, final(self)@),
    {
        let (owner, g) = resolve_function(mgr, holder, f)?;
        match g {
            RuntimeFunction::OwnedWasm { runtime_sig, pc_start, locals_count } => self.enter(
                owner,
                runtime_sig,
                pc_start,
                locals_count,
            ),
            RuntimeFunction::Host { callback, runtime_sig } => {
                let n_params: usize = runtime_sig.n_params() as usize;
                if self.stack.len() < n_params {
                    return Err(Error::Trap(STACK_UNDERFLOW));
                }
                Ok(Signal::Host { callback, n_params })
            },
            RuntimeFunction::ImportedWasm { .. } => Err(Error::Trap(FUNC_NO_IMPL)),
        }
    }
}

} // verus!
