//! The step and the run of a machine, and the answers of the embedder.

use vstd::prelude::*;
use crate::error::{
    Error,
    UNEXPECTED_END,
    UNKNOWN_INSTRUCTION,
    UNREACHABLE,
    FUNC_NO_IMPL,
    INVALID_NUM_ARG,
    STACK_UNDERFLOW,
};
use crate::execute::{ran, memories_wf, tables_wf};
use crate::instance::{Instance, RuntimeFunction, WasmGlobal};
use crate::interpreter::Machine;

use crate::semantics::{
    Signal,
    MachineView,
    RunState,
    mem_views,
    truncate,
    go,
    jump,
    unwind,
    instr_spec,
    fetch_spec,
    step_spec,
    run_spec,
    failed,
    resume_host_spec,
    resume_float_spec,
    call_machine,
};
use crate::store::{InstanceManager, Store};
use crate::table::WasmTable;
use crate::value::WasmValue;
use crate::wasm_memory::WasmMemory;

verus! {

/// What a machine can change of a store.
pub open spec fn run_state(m: MachineView, store: Store) -> RunState {
    RunState { m, mems: mem_views(store.memories@), globals: store.globals@ }
}

/// What a call has come to, for a function with or without a result:
/// nothing yet, while the machine can go on or waits for the embedder;
/// the error, once it has failed; and once it has finished, the result,
/// which is the value on top of the stack, or no value.
pub open spec fn outcome_spec(m: MachineView, has_result: bool) -> Option<Result<Seq<WasmValue>, Error>> {
    match m.waiting {
        Signal::Finished => if !has_result {
            Some(Ok(Seq::empty()))
        } else if m.stack.len() == 0 {
            Some(Err(Error::Trap(STACK_UNDERFLOW)))
        } else {
            Some(Ok(seq![m.stack.last()]))
        },
        Signal::Failed(e) => Some(Err(e)),
        _ => None,
    }
}

impl Machine {
    /// A machine that can go on, with empty stacks.
    pub fn new(instance: u32) -> (m: Self)
        ensures
            m@ == (MachineView {
                pc: 0,
                instance,
                stack: Seq::empty(),
                control: Seq::empty(),
                frames: Seq::empty(),
                waiting: Signal::Continue,
            }),
    {
        Machine {
            pc: 0,
            instance,
            stack: Vec::new(),
            control: Vec::new(),
            frames: Vec::new(),
            waiting: Signal::Continue,
        }
    }

    /// The machine fails with `e`; see [`failed`].
    pub fn fail(&mut self, e: Error)
        ensures
            final(self)@ == failed(old(self)@, e),
    {
        self.stack.clear();
        self.control.clear();
        self.frames.clear();
        self.waiting = Signal::Failed(e);
    }

    /// The instruction `op`, by opcode; the program counter stands after
    /// the opcode.  See [`instr_spec`].
    pub fn exec_instr(
        &mut self,
        mgr: &InstanceManager,
        tables: &Vec<WasmTable>,
        inst: &Instance,
        op: u8,
        memories: &mut Vec<WasmMemory>,
        globals: &mut Vec<WasmGlobal>,
    ) -> (r: Result<Signal, Error>)
        requires
            memories_wf(old(memories)@),
            tables_wf(tables@),
            old(self).pc >= 1,
        ensures
            memories_wf(final(memories)@),
            final(memories)@.len() == old(memories)@.len(),
            ran(
                instr_spec(
                    *mgr,
                    tables@,
                    *inst,
                    op,
                    RunState {
                        m: old(self)@,
                        mems: mem_views(old(memories)@),
                        globals: old(globals)@,
                    },
                ),
                r,
                RunState { m: old(self)@, mems: mem_views(old(memories)@), globals: old(globals)@ },
                final(self)@,
                mem_views(final(memories)@),
                final(globals)@,
            ),
    {
        let bytes: &[u8] = inst.code();
        if op == 0x00 {
            Err(Error::Trap(UNREACHABLE))
        } else if op == 0x01 || (0xbc <= op && op <= 0xbf) {
            Ok(Signal::Continue)
        } else if 0x02 <= op && op <= 0x04 {
            self.exec_open(inst, op)
        } else if op == 0x05 {
            self.jump(0);
            self.unwind();
            Ok(Signal::Continue)
        } else if op == 0x0b {
            self.exec_end()
        } else if 0x0c <= op && op <= 0x0f {
            self.exec_br(bytes, op)
        } else if op == 0x10 {
            self.exec_call(mgr, inst, bytes)
        } else if op == 0x11 {
            self.exec_call_indirect(mgr, tables, inst, bytes)
        } else if op == 0x1a || op == 0x1b {
            self.exec_parametric(op)
        } else if 0x20 <= op && op <= 0x22 {
            self.exec_local(bytes, op)
        } else if op == 0x23 || op == 0x24 {
            self.exec_global(inst, bytes, op, memories, globals)
        } else if 0x28 <= op && op <= 0x3e {
            self.exec_access(inst, bytes, op, memories, globals)
        } else if op == 0x3f || op == 0x40 {
            self.exec_memory(inst, bytes, op, memories, globals)
        } else if 0x41 <= op && op <= 0x44 {
            self.exec_const(bytes, op)
        } else if 0x45 <= op && op <= 0xbb {
            self.exec_numeric(op)
        } else {
            Err(Error::Malformed(UNKNOWN_INSTRUCTION))
        }
    }

    /// Fetches and runs the instruction at the program counter; see
    /// [`fetch_spec`].
    fn fetch(
        &mut self,
        mgr: &InstanceManager,
        tables: &Vec<WasmTable>,
        memories: &mut Vec<WasmMemory>,
        globals: &mut Vec<WasmGlobal>,
    ) -> (r: Result<Signal, Error>)
        requires
            memories_wf(old(memories)@),
            tables_wf(tables@),
        ensures
            memories_wf(final(memories)@),
            final(memories)@.len() == old(memories)@.len(),
            ran(
                fetch_spec(
                    *mgr,
                    tables@,
                    RunState {
                        m: old(self)@,
                        mems: mem_views(old(memories)@),
                        globals: old(globals)@,
                    },
                ),
                r,
                RunState { m: old(self)@, mems: mem_views(old(memories)@), globals: old(globals)@ },
                final(self)@,
                mem_views(final(memories)@),
                final(globals)@,
            ),
    {
        let inst: &Instance = match mgr.get_instance(self.instance) {
            Some(i) => i,
            None => {
                return Err(Error::Trap(FUNC_NO_IMPL));
            },
        };
        let bytes: &[u8] = inst.code();
        if self.pc >= bytes.len() {
            return Err(Error::Malformed(UNEXPECTED_END));
        }
        let op: u8 = bytes[self.pc];
        self.pc = self.pc + 1;
        self.exec_instr(mgr, tables, inst, op, memories, globals)
    }

    /// One step of the machine; see [`step_spec`].
    pub fn step(
        &mut self,
        mgr: &InstanceManager,
        tables: &Vec<WasmTable>,
        memories: &mut Vec<WasmMemory>,
        globals: &mut Vec<WasmGlobal>,
    ) -> (r: Signal)
        requires
            memories_wf(old(memories)@),
            tables_wf(tables@),
        ensures
            memories_wf(final(memories)@),
            final(memories)@.len() == old(memories)@.len(),
            (
                RunState {
                    m: final(self)@,
                    mems: mem_views(final(memories)@),
                    globals: final(globals)@,
                },
                r,
            ) == step_spec(
                *mgr,
                tables@,
                RunState { m: old(self)@, mems: mem_views(old(memories)@), globals: old(globals)@ },
            ),
    {
        match self.waiting {
            Signal::Continue => {},
            other => {
                return other;
            },
        }
        let pc: usize = self.pc;
        let instance: u32 = self.instance;
        match self.fetch(mgr, tables, memories, globals) {
            Ok(s) => {
                self.waiting = s;
                s
            },
            Err(e) => {
                self.pc = pc;
                self.instance = instance;
                self.fail(e);
                Signal::Failed(e)
            },
        }
    }

    /// At most `fuel` steps of the machine on the store, until it signals
    /// anything but that it can go on; see [`run_spec`].  The tables and
    /// the registry stay as they are.
    pub fn run(&mut self, store: &mut Store, fuel: u64) -> (r: Signal)
        requires
            old(store).wf(),
        ensures
            final(store).wf(),
            final(store).tables == old(store).tables,
            final(store).manager == old(store).manager,
            final(store).memories@.len() == old(store).memories@.len(),
            r == final(self).waiting,
            (run_state(final(self)@, *final(store)), r) == run_spec(
                old(store).manager,
                old(store).tables@,
                run_state(old(self)@, *old(store)),
                fuel as nat,
            ),
    {
        let mut left: u64 = fuel;
        loop
            invariant_except_break
                run_spec(
                    old(store).manager,
                    old(store).tables@,
                    run_state(old(self)@, *old(store)),
                    fuel as nat,
                ) == run_spec(
                    old(store).manager,
                    old(store).tables@,
                    run_state(self@, *store),
                    left as nat,
                ),
            invariant
                store.wf(),
                store.tables == old(store).tables,
                store.manager == old(store).manager,
                store.memories@.len() == old(store).memories@.len(),
            ensures
                run_spec(
                    old(store).manager,
                    old(store).tables@,
                    run_state(old(self)@, *old(store)),
                    fuel as nat,
                ) == (run_state(self@, *store), self.waiting),
            decreases left,
        {
            if left == 0 {
                break ;
            }
            let s: Signal = self.step(
                &store.manager,
                &store.tables,
                &mut store.memories,
                &mut store.globals,
            );
            match s {
                Signal::Continue => {},
                _ => {
                    break ;
                },
            }
            left = left - 1;
        }
        self.waiting
    }

    /// Answers a host call; see [`resume_host_spec`].
    pub fn resume_host(&mut self, result: Option<WasmValue>)
        ensures
            final(self)@ == resume_host_spec(old(self)@, result),
    {
        match self.waiting {
            Signal::Host { callback, n_params } => {
                let n: usize = self.stack.len();
                if n_params <= n {
                    self.stack.truncate(n - n_params);
                }
                match result {
                    Some(v) => {
                        self.stack.push(v);
                    },
                    None => {},
                }
                self.waiting = if self.control.len() == 0 {
                    Signal::Finished
                } else {
                    Signal::Continue
                };
            },
            _ => {},
        }
    }

    /// Answers a float instruction; see [`resume_float_spec`].
    pub fn resume_float(&mut self, result: Result<WasmValue, Error>)
        ensures
            final(self)@ == resume_float_spec(old(self)@, result),
    {
        match self.waiting {
            Signal::Float { .. } => {
                match result {
                    Ok(v) => {
                        self.stack.push(v);
                        self.waiting = Signal::Continue;
                    },
                    Err(e) => {
                        self.fail(e);
                    },
                }
            },
            _ => {},
        }
    }

    /// The arguments of the host call that the machine waits for: the top
    /// `n_params` values of the stack, first argument first.  Empty where
    /// the machine does not wait for a host call.
    pub fn host_args(&self) -> (args: Vec<WasmValue>)
        ensures
            args@ == match self@.waiting {
                Signal::Host { callback, n_params } => if n_params <= self@.stack.len() {
                    self@.stack.subrange(self@.stack.len() - n_params, self@.stack.len() as int)
                } else {
                    Seq::empty()
                },
                _ => Seq::empty(),
            },
    {
        let mut args: Vec<WasmValue> = Vec::new();
        match self.waiting {
            Signal::Host { callback, n_params } => {
                let n: usize = self.stack.len();
                if n_params <= n {
                    let start: usize = n - n_params;
                    let mut i: usize = start;
                    while i < n
                        invariant
                            start <= i <= n,
                            n == self.stack@.len(),
                            args@ == self.stack@.subrange(start as int, i as int),
                        decreases n - i,
                    {
                        args.push(self.stack[i]);
                        i = i + 1;
                        assert(args@ =~= self.stack@.subrange(start as int, i as int));
                    }
                }
            },
            _ => {},
        }
        args
    }

    /// The values on the stack: the results, once the machine has
    /// finished.
    pub fn results(&self) -> (values: Vec<WasmValue>)
        ensures
            values@ == self@.stack,
    {
        let mut values: Vec<WasmValue> = Vec::new();
        let mut i: usize = 0;
        while i < self.stack.len()
            invariant
                i <= self.stack@.len(),
                values@ == self.stack@.subrange(0, i as int),
            decreases self.stack@.len() - i,
        {
            values.push(self.stack[i]);
            i = i + 1;
            assert(values@ =~= self.stack@.subrange(0, i as int));
        }
        assert(self.stack@.subrange(0, i as int) =~= self.stack@);
        values
    }

    /// What a call of `func` has come to, once the machine has run it to
    /// its end; see [`outcome_spec`].
    pub fn outcome(&self, func: &RuntimeFunction) -> (r: Option<Result<Vec<WasmValue>, Error>>)
        ensures
            match outcome_spec(self@, func.signature().has_result()) {
                None => r is None,
                Some(Err(e)) => r == Some(Err::<Vec<WasmValue>, Error>(e)),
                Some(Ok(values)) => r matches Some(Ok(v)) && v@ == values,
            },
    {
        match self.waiting {
            Signal::Finished => {
                let mut values: Vec<WasmValue> = Vec::new();
                if func.signature().has_result() {
                    let n: usize = self.stack.len();
                    if n == 0 {
                        return Some(Err(Error::Trap(STACK_UNDERFLOW)));
                    }
                    values.push(self.stack[n - 1]);
                }
                Some(Ok(values))
            },
            Signal::Failed(e) => Some(Err(e)),
            _ => None,
        }
    }

    /// A machine that is ready to run the function `f` of `instance` on
    /// `args`; see [`call_machine`].
    pub fn call(mgr: &InstanceManager, instance: u32, f: RuntimeFunction, args: &[WasmValue]) -> (m: Machine)
        ensures
            m@ == call_machine(*mgr, instance, f, args@),
    {
        let mut m = Machine::new(instance);
        let mut i: usize = 0;
        while i < args.len()
            invariant
                i <= args@.len(),
                m.pc == 0,
                m.instance == instance,
                m.control@.len() == 0,
                m.frames@.len() == 0,
                m.waiting == Signal::Continue,
                m.stack@ == args@.subrange(0, i as int),
            decreases args@.len() - i,
        {
            m.stack.push(args[i]);
            i = i + 1;
            assert(m.stack@ =~= args@.subrange(0, i as int));
        }
        assert(args@.subrange(0, i as int) =~= args@);
        assert(m.control@ =~= Seq::empty());
        assert(m.frames@ =~= Seq::empty());
        if f.param_count() != args.len() {
            m.fail(Error::Trap(INVALID_NUM_ARG));
            return m;
        }
        match m.invoke(mgr, instance, f) {
            Ok(s) => {
                m.waiting = s;
            },
            Err(e) => {
                m.pc = 0;
                m.instance = instance;
                m.fail(e);
            },
        }
        m
    }
}

} // verus!
