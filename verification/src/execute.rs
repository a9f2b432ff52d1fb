//! The instructions of the machine, the step, and the run.

use vstd::prelude::*;
use crate::error::{
    Error,
    UNEXPECTED_END,
    UNKNOWN_INSTRUCTION,
    STACK_UNDERFLOW,
    STACK_EXHAUSTED,
    FUNC_NO_IMPL,
    UNDEF_ELEM,
    UNINITIALIZED_ELEM,
    INDIRECT_CALL_MISMATCH,
    UNKNOWN_GLOBAL,
    UNKNOWN_MEMORY,
};
use crate::instance::{Instance, RuntimeFunction, WasmGlobal};
use crate::interpreter::{Machine, stepped, load, store, grow};
use crate::leb128::{read_leb128, read_sleb128, lemma_group_len_positive};
use crate::floats::{is_truncation, truncate};
use crate::module::{SideEntry, opcode_offset};
use crate::numeric::{unary, binary, is_float_op, float_op_arity, is_unary_spec, is_binary_spec};
use crate::semantics::{
    Label,
    Signal,
    MachineView,
    MemView,
    RunState,
    Ran,
    MAX_CONTROL_DEPTH,
    mem_view,
    mem_views,
    pop,
    push,
    branch,
    open_spec,
    end_spec,
    return_spec,
    pick_label,
    br_spec,
    call_spec,
    call_indirect_spec,
    parametric_spec,
    local_spec,
    const_spec,
    numeric_spec,
    access_spec,
    memory_spec,
    global_spec,
};
use crate::signature::RuntimeSignature;
use crate::store::InstanceManager;
use crate::table::WasmTable;
use crate::value::{WasmValue, i64_to_u64};
use crate::wasm_memory::WasmMemory;

verus! {

/// Whether the outcome `r` of an exec instruction and the state after it
/// are what `spec` says.  After a failure the memories and the globals
/// are as they were before.
pub open spec fn ran(
    spec: Ran,
    r: Result<Signal, Error>,
    before: RunState,
    m: MachineView,
    mems: Seq<MemView>,
    globals: Seq<WasmGlobal>,
) -> bool {
    match spec {
        Ok((st, s)) => r == Ok::<Signal, Error>(s) && m == st.m && mems == st.mems && globals
            == st.globals,
        Err(e) => r == Err::<Signal, Error>(e) && mems == before.mems && globals == before.globals,
    }
}

/// Every memory is well formed.
pub open spec fn memories_wf(ms: Seq<WasmMemory>) -> bool {
    forall|i: int| 0 <= i < ms.len() ==> (#[trigger] ms[i]).wf()
}

/// Every table is well formed.
pub open spec fn tables_wf(ts: Seq<WasmTable>) -> bool {
    forall|i: int| 0 <= i < ts.len() ==> (#[trigger] ts[i]).wf()
}

impl Machine {
    /// `block`, `loop` and `if`; see [`open_spec`].
    pub fn exec_open(&mut self, inst: &Instance, op: u8) -> (r: Result<Signal, Error>)
        requires
            0x02 <= op <= 0x04,
            old(self).pc >= 1,
        ensures
            stepped(open_spec(*inst, op, old(self)@), r, final(self)@),
    {
        let e: SideEntry = match inst.module.side_table.lookup(opcode_offset(self.pc)) {
            Some(e) => e,
            None => {
                return Err(Error::Malformed(UNKNOWN_INSTRUCTION));
            },
        };
        let opcode_pc: usize = self.pc - 1;
        let cond: u32 = if op == 0x04 {
            self.pop()?.as_u32()
        } else {
            1
        };
        let n: usize = self.stack.len();
        if n < e.params_len as usize {
            return Err(Error::Trap(STACK_UNDERFLOW));
        }
        if op == 0x04 && cond == 0 && e.else_pc == e.end_pc {
            self.pc = e.end_pc;
            return Ok(Signal::Continue);
        }
        if self.control.len() >= MAX_CONTROL_DEPTH {
            return Err(Error::Trap(STACK_EXHAUSTED));
        }
        self.control.push(
            Label {
                stack_len: n - e.params_len as usize,
                dest_pc: if op == 0x03 {
                    opcode_pc
                } else {
                    e.end_pc
                },
                arity: if op == 0x03 {
                    e.params_len as u32
                } else if e.has_result {
                    1
                } else {
                    0
                },
                has_result: e.has_result,
            },
        );
        self.pc = if op == 0x04 && cond == 0 {
            e.else_pc
        } else {
            e.body_pc
        };
        Ok(Signal::Continue)
    }

    /// `end`; see [`end_spec`].
    pub fn exec_end(&mut self) -> (r: Result<Signal, Error>)
        ensures
            stepped(end_spec(old(self)@), r, final(self)@),
    {
        let nf: usize = self.frames.len();
        let nc: usize = self.control.len();
        if nf > 0 && nc > 0 && self.frames[nf - 1].ctrl_base == nc - 1 {
            return self.branch(0);
        }
        if nc == 0 {
            return Ok(Signal::Finished);
        }
        let target: Label = self.control[nc - 1];
        self.control.pop();
        if target.has_result {
            let n: usize = self.stack.len();
            if n == 0 {
                return Err(Error::Trap(STACK_UNDERFLOW));
            }
            let result: WasmValue = self.stack[n - 1];
            self.stack.truncate(target.stack_len);
            self.stack.push(result);
        } else {
            self.stack.truncate(target.stack_len);
        }
        Ok(Signal::Continue)
    }

    /// `return`; see [`return_spec`].
    pub fn exec_return(&mut self) -> (r: Result<Signal, Error>)
        ensures
            stepped(return_spec(old(self)@), r, final(self)@),
    {
        let nc: usize = self.control.len();
        if nc == 0 {
            return Ok(Signal::Finished);
        }
        let nf: usize = self.frames.len();
        if nf == 0 {
            return Err(Error::Trap(STACK_UNDERFLOW));
        }
        let base: usize = self.frames[nf - 1].ctrl_base;
        let top: usize = nc - 1;
        let depth: usize = if top >= base { top - base } else { 0 };
        if depth > u32::MAX as usize {
            return Err(Error::Trap(STACK_EXHAUSTED));
        }
        self.branch(depth as u32)
    }

    /// `br`, `br_if`, `br_table` and `return`; see [`br_spec`].
    #[verifier::loop_isolation(false)]
    pub fn exec_br(&mut self, bytes: &[u8], op: u8) -> (r: Result<Signal, Error>)
        requires
            0x0c <= op <= 0x0f,
        ensures
            stepped(br_spec(bytes@, op, old(self)@), r, final(self)@),
    {
        if op == 0x0f {
            self.exec_return()
        } else if op == 0x0c {
            let depth: u32 = self.imm_u32(bytes)?;
            self.branch(depth)
        } else if op == 0x0d {
            let depth: u32 = self.imm_u32(bytes)?;
            let cond: u32 = self.pop()?.as_u32();
            if cond != 0 {
                self.branch(depth)
            } else {
                Ok(Signal::Continue)
            }
        } else {
            let v: u32 = self.pop()?.as_u32();
            let n: u32 = self.imm_u32(bytes)?;
            let ghost p0 = self.pc as int;
            let mut chosen: Option<u32> = None;
            let mut p: usize = self.pc;
            let mut i: u32 = 0;
            while i < n
                invariant
                    i <= n,
                    pick_label(bytes@, p0, n as nat, v as nat, 0, None) == pick_label(
                        bytes@,
                        p as int,
                        n as nat,
                        v as nat,
                        i as nat,
                        chosen,
                    ),
                decreases n - i,
            {
                proof {
                    lemma_group_len_positive(bytes@, p as int);
                }
                let t: u64 = read_leb128(bytes, &mut p)?;
                if i == v {
                    chosen = Some((t % 0x1_0000_0000) as u32);
                }
                i = i + 1;
            }
            self.pc = p;
            let default: u32 = self.imm_u32(bytes)?;
            self.branch(
                match chosen {
                    Some(d) => d,
                    None => default,
                },
            )
        }
    }

    /// `call`; see [`call_spec`].
    pub fn exec_call(&mut self, mgr: &InstanceManager, inst: &Instance, bytes: &[u8]) -> (r: Result<
        Signal,
        Error,
    >)
        ensures
            stepped(call_spec(*mgr, *inst, bytes@, old(self)@), r, final(self)@),
    {
        let holder: u32 = self.instance;
        let fi: u32 = self.imm_u32(bytes)?;
        if fi as usize >= inst.functions.len() {
            return Err(Error::Trap(FUNC_NO_IMPL));
        }
        self.invoke(mgr, holder, inst.functions[fi as usize])
    }

    /// `call_indirect`; see [`call_indirect_spec`].
    pub fn exec_call_indirect(
        &mut self,
        mgr: &InstanceManager,
        tables: &Vec<WasmTable>,
        inst: &Instance,
        bytes: &[u8],
    ) -> (r: Result<Signal, Error>)
        requires
            tables_wf(tables@),
        ensures
            stepped(call_indirect_spec(*mgr, tables@, *inst, bytes@, old(self)@), r, final(self)@),
    {
        let here: u32 = self.instance;
        let type_idx: u32 = self.imm_u32(bytes)?;
        self.skip_flag(bytes)?;
        let elem: u32 = self.pop()?.as_u32();
        let t: usize = match inst.table {
            Some(t) => t,
            None => {
                return Err(Error::Trap(UNDEF_ELEM));
            },
        };
        if t >= tables.len() {
            return Err(Error::Trap(UNDEF_ELEM));
        }
        proof {
            tables@[t as int].lemma_wf();
        }
        let handle: u64 = match tables[t].get(elem) {
            Ok(v) => v.as_u64(),
            Err(_) => {
                return Err(Error::Trap(UNDEF_ELEM));
            },
        };
        if handle == 0 {
            return Err(Error::Trap(UNINITIALIZED_ELEM));
        }
        let low: u64 = handle % 0x1_0000_0000;
        if low == 0 {
            return Err(Error::Trap(FUNC_NO_IMPL));
        }
        if type_idx as usize >= inst.module.types.len() {
            return Err(Error::Trap(INDIRECT_CALL_MISMATCH));
        }
        let owner_id: u32 = (handle / 0x1_0000_0000) as u32;
        let owner: &Instance = if owner_id == here {
            inst
        } else {
            match mgr.get_instance(owner_id) {
                Some(o) => o,
                None => {
                    return Err(Error::Trap(FUNC_NO_IMPL));
                },
            }
        };
        let func_idx: u64 = low - 1;
        if func_idx >= owner.functions.len() as u64 {
            return Err(Error::Trap(FUNC_NO_IMPL));
        }
        let callee: RuntimeFunction = owner.functions[func_idx as usize];
        let expected: RuntimeSignature = RuntimeSignature::from_signature(
            &inst.module.types[type_idx as usize],
        );
        if callee.signature() != expected {
            return Err(Error::Trap(INDIRECT_CALL_MISMATCH));
        }
        self.invoke(mgr, owner_id, callee)
    }

    /// `drop` and `select`; see [`parametric_spec`].
    pub fn exec_parametric(&mut self, op: u8) -> (r: Result<Signal, Error>)
        requires
            op == 0x1a || op == 0x1b,
        ensures
            stepped(parametric_spec(op, old(self)@), r, final(self)@),
    {
        if op == 0x1a {
            self.pop()?;
        } else {
            let cond: u32 = self.pop()?.as_u32();
            let v2: WasmValue = self.pop()?;
            let v1: WasmValue = self.pop()?;
            self.push(if cond != 0 { v1 } else { v2 });
        }
        Ok(Signal::Continue)
    }

    /// `local.get`, `local.set` and `local.tee`; see [`local_spec`].
    pub fn exec_local(&mut self, bytes: &[u8], op: u8) -> (r: Result<Signal, Error>)
        requires
            0x20 <= op <= 0x22,
        ensures
            stepped(local_spec(bytes@, op, old(self)@), r, final(self)@),
    {
        let idx: u32 = self.imm_u32(bytes)?;
        let nf: usize = self.frames.len();
        if nf == 0 {
            return Err(Error::Trap(STACK_UNDERFLOW));
        }
        let base: usize = self.frames[nf - 1].locals_start;
        if op == 0x20 {
            let n: usize = self.stack.len();
            if base >= n || idx as usize >= n - base {
                return Err(Error::Trap(STACK_UNDERFLOW));
            }
            let v: WasmValue = self.stack[base + idx as usize];
            self.push(v);
        } else if op == 0x21 {
            let v: WasmValue = self.pop()?;
            let n: usize = self.stack.len();
            if base >= n || idx as usize >= n - base {
                return Err(Error::Trap(STACK_UNDERFLOW));
            }
            self.stack[base + idx as usize] = v;
        } else {
            let n: usize = self.stack.len();
            if n == 0 || base >= n || idx as usize >= n - base {
                return Err(Error::Trap(STACK_UNDERFLOW));
            }
            let v: WasmValue = self.stack[n - 1];
            self.stack[base + idx as usize] = v;
        }
        Ok(Signal::Continue)
    }

    /// The four `const` instructions; see [`const_spec`].
    pub fn exec_const(&mut self, bytes: &[u8], op: u8) -> (r: Result<Signal, Error>)
        requires
            0x41 <= op <= 0x44,
        ensures
            stepped(const_spec(bytes@, op, old(self)@), r, final(self)@),
    {
        if op == 0x41 || op == 0x42 {
            let mut p: usize = self.pc;
            proof {
                lemma_group_len_positive(bytes@, p as int);
            }
            let v: i64 = read_sleb128(bytes, &mut p)?;
            self.pc = p;
            let raw: u64 = i64_to_u64(v);
            self.push(WasmValue(if op == 0x41 { raw % 0x1_0000_0000 } else { raw }));
        } else {
            let width: usize = if op == 0x43 { 4 } else { 8 };
            let pc: usize = self.pc;
            let total: usize = bytes.len();
            if pc > total || width > total - pc {
                return Err(Error::Malformed(UNEXPECTED_END));
            }
            let lo: u64 = bytes[pc] as u64 + (bytes[pc + 1] as u64) * 0x100 + (bytes[pc + 2] as u64)
                * 0x1_0000 + (bytes[pc + 3] as u64) * 0x100_0000;
            let payload: u64 = if op == 0x43 {
                lo
            } else {
                let hi: u64 = bytes[pc + 4] as u64 + (bytes[pc + 5] as u64) * 0x100 + (bytes[pc
                    + 6] as u64) * 0x1_0000 + (bytes[pc + 7] as u64) * 0x100_0000;
                lo + hi * 0x1_0000_0000
            };
            self.pc = pc + width;
            self.push(WasmValue(payload));
        }
        Ok(Signal::Continue)
    }

    /// The numeric instructions; see [`numeric_spec`].
    pub fn exec_numeric(&mut self, op: u8) -> (r: Result<Signal, Error>)
        requires
            is_unary_spec(op) || is_truncation(op) || is_binary_spec(op) || is_float_op(op),
        ensures
            stepped(numeric_spec(op, old(self)@), r, final(self)@),
    {
        if op == 0x45 || op == 0x50 || (0x67 <= op && op <= 0x69) || (0x79 <= op && op <= 0x7b) || op
            == 0x8b || op == 0x8c || op == 0x99 || op == 0x9a || op == 0xa7 || op == 0xac || op
            == 0xad || (0x8d <= op && op <= 0x90) || (0x9b <= op && op <= 0x9e) {
            let a: WasmValue = self.pop()?;
            self.push(WasmValue(unary(op, a.0)));
            Ok(Signal::Continue)
        } else if (0xa8 <= op && op <= 0xab) || (0xae <= op && op <= 0xb1) {
            let a: WasmValue = self.pop()?;
            let v: u64 = truncate(op, a.0)?;
            self.push(WasmValue(v));
            Ok(Signal::Continue)
        } else if (0x46 <= op && op <= 0x4f) || (0x51 <= op && op <= 0x5a) || (0x6a <= op && op
            <= 0x78) || (0x7c <= op && op <= 0x8a) || op == 0x98 || op == 0xa6 || (0x5b <= op && op
            <= 0x66) || op == 0x96 || op == 0x97 || op == 0xa4 || op == 0xa5 {
            let b: WasmValue = self.pop()?;
            let a: WasmValue = self.pop()?;
            let v: u64 = binary(op, a.0, b.0)?;
            self.push(WasmValue(v));
            Ok(Signal::Continue)
        } else if float_op_arity(op) == 2 {
            let b: WasmValue = self.pop()?;
            let a: WasmValue = self.pop()?;
            Ok(Signal::Float { op, a, b })
        } else {
            let a: WasmValue = self.pop()?;
            Ok(Signal::Float { op, a, b: WasmValue(0) })
        }
    }

    /// Loads and stores; see [`access_spec`].
    pub fn exec_access(
        &mut self,
        inst: &Instance,
        bytes: &[u8],
        op: u8,
        memories: &mut Vec<WasmMemory>,
        globals: &Vec<WasmGlobal>,
    ) -> (r: Result<Signal, Error>)
        requires
            0x28 <= op <= 0x3e,
            memories_wf(old(memories)@),
        ensures
            memories_wf(final(memories)@),
            final(memories)@.len() == old(memories)@.len(),
            ran(
                access_spec(
                    *inst,
                    bytes@,
                    op,
                    RunState { m: old(self)@, mems: mem_views(old(memories)@), globals: globals@ },
                ),
                r,
                RunState { m: old(self)@, mems: mem_views(old(memories)@), globals: globals@ },
                final(self)@,
                mem_views(final(memories)@),
                globals@,
            ),
    {
        let _align: u32 = self.imm_u32(bytes)?;
        let offset: u32 = self.imm_u32(bytes)?;
        if op >= 0x36 {
            let v: WasmValue = self.pop()?;
            let addr: u32 = self.pop()?.as_u32();
            let i: usize = match inst.memory {
                Some(i) => i,
                None => {
                    return Err(Error::Validation(UNKNOWN_MEMORY));
                },
            };
            if i >= memories.len() {
                return Err(Error::Validation(UNKNOWN_MEMORY));
            }
            let ghost before = mem_views(memories@);
            let r = store(&mut memories[i], op, addr, offset, v.0);
            proof {
                if r is Ok {
                    assert(mem_views(memories@) =~= before.update(i as int, mem_view(memories@[i as int])));
                } else {
                    assert(mem_views(memories@) =~= before);
                }
            }
            r?;
            Ok(Signal::Continue)
        } else {
            let addr: u32 = self.pop()?.as_u32();
            let i: usize = match inst.memory {
                Some(i) => i,
                None => {
                    return Err(Error::Validation(UNKNOWN_MEMORY));
                },
            };
            if i >= memories.len() {
                return Err(Error::Validation(UNKNOWN_MEMORY));
            }
            let v: u64 = load(&memories[i], op, addr, offset)?;
            self.push(WasmValue(v));
            Ok(Signal::Continue)
        }
    }

    /// `memory.size` and `memory.grow`; see [`memory_spec`].
    pub fn exec_memory(
        &mut self,
        inst: &Instance,
        bytes: &[u8],
        op: u8,
        memories: &mut Vec<WasmMemory>,
        globals: &Vec<WasmGlobal>,
    ) -> (r: Result<Signal, Error>)
        requires
            op == 0x3f || op == 0x40,
            memories_wf(old(memories)@),
        ensures
            memories_wf(final(memories)@),
            final(memories)@.len() == old(memories)@.len(),
            ran(
                memory_spec(
                    *inst,
                    bytes@,
                    op,
                    RunState { m: old(self)@, mems: mem_views(old(memories)@), globals: globals@ },
                ),
                r,
                RunState { m: old(self)@, mems: mem_views(old(memories)@), globals: globals@ },
                final(self)@,
                mem_views(final(memories)@),
                globals@,
            ),
    {
        self.skip_flag(bytes)?;
        if op == 0x3f {
            let i: usize = match inst.memory {
                Some(i) => i,
                None => {
                    return Err(Error::Validation(UNKNOWN_MEMORY));
                },
            };
            if i >= memories.len() {
                return Err(Error::Validation(UNKNOWN_MEMORY));
            }
            let size: u32 = memories[i].size();
            self.push(WasmValue(size as u64));
        } else {
            let delta: u32 = self.pop()?.as_u32();
            let i: usize = match inst.memory {
                Some(i) => i,
                None => {
                    return Err(Error::Validation(UNKNOWN_MEMORY));
                },
            };
            if i >= memories.len() {
                return Err(Error::Validation(UNKNOWN_MEMORY));
            }
            let ghost before = mem_views(memories@);
            let old_size: u32 = grow(&mut memories[i], delta);
            proof {
                assert(mem_views(memories@) =~= before.update(i as int, mem_view(memories@[i as int])));
            }
            self.push(WasmValue(old_size as u64));
        }
        Ok(Signal::Continue)
    }

    /// `global.get` and `global.set`; see [`global_spec`].
    pub fn exec_global(
        &mut self,
        inst: &Instance,
        bytes: &[u8],
        op: u8,
        memories: &Vec<WasmMemory>,
        globals: &mut Vec<WasmGlobal>,
    ) -> (r: Result<Signal, Error>)
        requires
            op == 0x23 || op == 0x24,
        ensures
            ran(
                global_spec(
                    *inst,
                    bytes@,
                    op,
                    RunState { m: old(self)@, mems: mem_views(memories@), globals: old(globals)@ },
                ),
                r,
                RunState { m: old(self)@, mems: mem_views(memories@), globals: old(globals)@ },
                final(self)@,
                mem_views(memories@),
                final(globals)@,
            ),
    {
        let gi: u32 = self.imm_u32(bytes)?;
        if gi as usize >= inst.globals.len() {
            return Err(Error::Trap(UNKNOWN_GLOBAL));
        }
        let g: usize = inst.globals[gi as usize];
        if g >= globals.len() {
            return Err(Error::Trap(UNKNOWN_GLOBAL));
        }
        if op == 0x23 {
            let v: WasmValue = globals[g].value;
            self.push(v);
        } else {
            let v: WasmValue = self.pop()?;
            let cur: WasmGlobal = globals[g];
            globals[g] = WasmGlobal { ty: cur.ty, mutable: cur.mutable, value: v };
        }
        Ok(Signal::Continue)
    }
}

} // verus!
