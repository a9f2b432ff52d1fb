//! The readers of the global, element, code and data sections: the
//! sections that hold expressions and function bodies, which are
//! validated as they are read.

use vstd::prelude::*;
use crate::body::{Context, CtxView, function_views};
use crate::byte_iter::ByteIter;
use crate::const_expr::{validate_const, const_expr_spec, global_views};
use crate::error::{
    Error,
    UNEXPECTED_END,
    INVALID_VALUE_TYPE,
    INVALID_GLOBAL_TYPE,
    INVALID_MUTABILITY,
    INVALID_LOCAL_TYPE,
    INVALID_DATA_SEG_FLAG,
    TOO_MANY_LOCALS,
    FUNC_CODE_INCONSISTENT,
    UNKNOWN_TABLE,
    UNKNOWN_MEMORY,
    UNKNOWN_FUNC,
};
use crate::func_validator::{validate_body, function_spec};
use crate::leb128::lemma_group_len_positive;
use crate::module::{
    Module,
    ModuleView,
    Function,
    FunctionView,
    Global,
    GlobalView,
    DataSegment,
    MAX_LOCALS,
    read_u32,
    u32_spec,
    u8_spec,
    cursor_ok,
};
use crate::sections::{Parsed, parsed, repeat_spec, counted_spec, declare};
use crate::signature::{ValType, is_val_type, val_type_from_byte, mutability_from_byte};

verus! {

/// One entry of the global section: a value type, a mutability byte, and
/// the initializer, a constant expression of that type.
pub open spec fn global_entry_spec(bytes: Seq<u8>, pos: int, m: ModuleView) -> Parsed {
    match u8_spec(bytes, pos) {
        Err(e) => Err(e),
        Ok((tb, p1)) => if !is_val_type(tb) {
            Err(Error::Malformed(INVALID_GLOBAL_TYPE))
        } else {
            match u8_spec(bytes, p1) {
                Err(e) => Err(e),
                Ok((mb, p2)) => match mutability_from_byte(mb) {
                    None => Err(Error::Malformed(INVALID_MUTABILITY)),
                    Some(is_mutable) => {
                        let ty = val_type_from_byte(tb).unwrap();
                        let globals = m.globals.push(
                            GlobalView {
                                ty,
                                is_mutable,
                                initializer_offset: p2 as usize,
                                import: None,
                            },
                        );
                        match const_expr_spec(bytes, p2, ty, globals) {
                            Err(e) => Err(e),
                            Ok(p3) => Ok((ModuleView { globals, ..m }, p3)),
                        }
                    },
                },
            }
        },
    }
}

/// The global section.
pub open spec fn global_section_spec(bytes: Seq<u8>, pos: int, m: ModuleView) -> Parsed {
    counted_spec(|b: Seq<u8>, p: int, mv: ModuleView| global_entry_spec(b, p, mv), bytes, pos, m)
}

/// `n` function indices of an element segment from `pos`: each must
/// exist, and marks its function as declared.
pub open spec fn elems_spec(bytes: Seq<u8>, pos: int, n: nat, functions: Seq<FunctionView>) -> Result<
    (Seq<FunctionView>, int),
    Error,
>
    decreases n,
{
    if n == 0 {
        Ok((functions, pos))
    } else {
        match u32_spec(bytes, pos) {
            Err(e) => Err(e),
            Ok((idx, p)) => if idx >= functions.len() {
                Err(Error::Validation(UNKNOWN_FUNC))
            } else {
                elems_spec(bytes, p, (n - 1) as nat, declare(functions, idx as int))
            },
        }
    }
}

/// One entry of the element section: the flags, which must be zero, an
/// `i32` constant expression for the offset, and the function indices.
/// The module must have a table.
pub open spec fn element_entry_spec(bytes: Seq<u8>, pos: int, m: ModuleView) -> Parsed {
    match u32_spec(bytes, pos) {
        Err(e) => Err(e),
        Ok((flags, p1)) => if flags != 0 {
            Err(Error::Malformed(INVALID_VALUE_TYPE))
        } else if m.table is None {
            Err(Error::Validation(UNKNOWN_TABLE))
        } else {
            match const_expr_spec(bytes, p1, ValType::I32, m.globals) {
                Err(e) => Err(e),
                Ok(p2) => match u32_spec(bytes, p2) {
                    Err(e) => Err(e),
                    Ok((n, p3)) => match elems_spec(bytes, p3, n as nat, m.functions) {
                        Err(e) => Err(e),
                        Ok((functions, p4)) => Ok((ModuleView { functions, ..m }, p4)),
                    },
                },
            }
        },
    }
}

/// The element section.  The module keeps where its entries start and
/// how many there are.
pub open spec fn element_section_spec(bytes: Seq<u8>, pos: int, m: ModuleView) -> Parsed {
    match u32_spec(bytes, pos) {
        Err(e) => Err(e),
        Ok((n, p)) => repeat_spec(
            |b: Seq<u8>, q: int, mv: ModuleView| element_entry_spec(b, q, mv),
            bytes,
            p,
            n as nat,
            ModuleView { element_start: p as usize, element_count: n, ..m },
        ),
    }
}

/// One entry of the data section: the flags, which must be zero, an
/// `i32` constant expression for the offset, and the length-prefixed
/// payload.  The module must have a memory.
pub open spec fn data_entry_spec(bytes: Seq<u8>, pos: int, m: ModuleView) -> Parsed {
    match u32_spec(bytes, pos) {
        Err(e) => Err(e),
        Ok((flags, p1)) => if flags != 0 {
            Err(Error::Validation(INVALID_DATA_SEG_FLAG))
        } else if m.memory is None {
            Err(Error::Validation(UNKNOWN_MEMORY))
        } else {
            match const_expr_spec(bytes, p1, ValType::I32, m.globals) {
                Err(e) => Err(e),
                Ok(p2) => match u32_spec(bytes, p2) {
                    Err(e) => Err(e),
                    Ok((len, p3)) => if p3 + len > bytes.len() {
                        Err(Error::Malformed(UNEXPECTED_END))
                    } else {
                        Ok(
                            (
                                ModuleView {
                                    data_segments: m.data_segments.push(
                                        DataSegment {
                                            data_start: p3 as usize,
                                            data_end: (p3 + len) as usize,
                                            initializer_offset: p1 as usize,
                                        },
                                    ),
                                    ..m
                                },
                                p3 + len,
                            ),
                        )
                    },
                },
            }
        },
    }
}

/// The data section.  The module keeps the number of its entries.
pub open spec fn data_section_spec(bytes: Seq<u8>, pos: int, m: ModuleView) -> Parsed {
    match u32_spec(bytes, pos) {
        Err(e) => Err(e),
        Ok((n, p)) => repeat_spec(
            |b: Seq<u8>, q: int, mv: ModuleView| data_entry_spec(b, q, mv),
            bytes,
            p,
            n as nat,
            ModuleView { n_data: n, ..m },
        ),
    }
}

/// The number of imported functions among the first `n`.
pub open spec fn imported_count(functions: Seq<FunctionView>, n: nat) -> nat
    decreases n,
{
    if n == 0 {
        0
    } else {
        imported_count(functions, (n - 1) as nat) + if functions[n - 1].import is Some {
            1nat
        } else {
            0nat
        }
    }
}

/// `n` groups of local declarations from `pos`, behind the locals
/// `acc`.  A group is a count and a value type.  A function has at most
/// `MAX_LOCALS` locals, its parameters included.
pub open spec fn locals_spec(bytes: Seq<u8>, pos: int, n: nat, acc: Seq<ValType>) -> Result<
    (Seq<ValType>, int),
    Error,
>
    decreases n,
{
    if n == 0 {
        Ok((acc, pos))
    } else {
        match u32_spec(bytes, pos) {
            Err(e) => Err(e),
            Ok((count, p1)) => match u8_spec(bytes, p1) {
                Err(e) => Err(e),
                Ok((tb, p2)) => if !is_val_type(tb) {
                    Err(Error::Validation(INVALID_LOCAL_TYPE))
                } else if count > 0 && acc.len() + count > MAX_LOCALS {
                    Err(Error::Malformed(TOO_MANY_LOCALS))
                } else {
                    locals_spec(
                        bytes,
                        p2,
                        (n - 1) as nat,
                        acc + Seq::new(count as nat, |i: int| val_type_from_byte(tb).unwrap()),
                    )
                },
            },
        }
    }
}

/// Reading local declarations moves forward.
pub proof fn lemma_locals_bounds(bytes: Seq<u8>, pos: int, n: nat, acc: Seq<ValType>)
    requires
        0 <= pos <= bytes.len(),
    ensures
        locals_spec(bytes, pos, n, acc) matches Ok((_, p)) ==> pos <= p <= bytes.len(),
    decreases n,
{
    if n > 0 {
        lemma_group_len_positive(bytes, pos);
        match u32_spec(bytes, pos) {
            Ok((count, p1)) => match u8_spec(bytes, p1) {
                Ok((tb, p2)) => {
                    lemma_locals_bounds(
                        bytes,
                        p2,
                        (n - 1) as nat,
                        acc + Seq::new(count as nat, |i: int| val_type_from_byte(tb).unwrap()),
                    );
                },
                Err(_) => {},
            },
            Err(_) => {},
        }
    }
}

/// What the validator reads of the module `m` for its function `i`.
pub open spec fn ctx_of(m: ModuleView, i: usize) -> CtxView {
    CtxView {
        types: m.types,
        functions: m.functions,
        globals: m.globals,
        has_memory: m.memory is Some,
        has_table: m.table is Some,
        func_idx: i,
    }
}

/// One entry of the code section, for function `i`: the length of the
/// entry, the local declarations, and the body, which ends where the
/// entry ends and is validated at once.
#[verifier::opaque]
pub open spec fn code_entry_spec(bytes: Seq<u8>, pos: int, m: ModuleView, i: int) -> Parsed {
    match u32_spec(bytes, pos) {
        Err(e) => Err(e),
        Ok((length, p1)) => match u32_spec(bytes, p1) {
            Err(e) => Err(e),
            Ok((n_groups, p2)) => match locals_spec(
                bytes,
                p2,
                n_groups as nat,
                m.functions[i].ty.params,
            ) {
                Err(e) => Err(e),
                Ok((locals, p3)) => if p3 - p1 > length || p1 + length > bytes.len() {
                    Err(Error::Malformed(UNEXPECTED_END))
                } else {
                    let f = FunctionView {
                        locals,
                        body_start: p3 as usize,
                        body_end: (p1 + length) as usize,
                        ..m.functions[i]
                    };
                    let m1 = ModuleView { functions: m.functions.update(i, f), ..m };
                    match function_spec(ctx_of(m1, i as usize), bytes, m1.side_table) {
                        Err(e) => Err(e),
                        Ok(side_table) => Ok((ModuleView { side_table, ..m1 }, p1 + length)),
                    }
                },
            },
        },
    }
}

/// The entries of the code section for the functions from `i` up to
/// `n`; imported functions have none.
pub open spec fn code_entries_spec(bytes: Seq<u8>, pos: int, m: ModuleView, i: nat, n: nat) -> Parsed
    decreases n - i,
{
    if i >= n {
        Ok((m, pos))
    } else if m.functions[i as int].import is Some {
        code_entries_spec(bytes, pos, m, i + 1, n)
    } else {
        match code_entry_spec(bytes, pos, m, i as int) {
            Err(e) => Err(e),
            Ok((m2, p)) => code_entries_spec(bytes, p, m2, i + 1, n),
        }
    }
}

/// The code section: a count, which must be the number of functions
/// that are not imported, and one entry for each of them.
pub open spec fn code_section_spec(bytes: Seq<u8>, pos: int, m: ModuleView) -> Parsed {
    match u32_spec(bytes, pos) {
        Err(e) => Err(e),
        Ok((n, p)) => if n + imported_count(m.functions, m.functions.len()) != m.functions.len() {
            Err(Error::Malformed(FUNC_CODE_INCONSISTENT))
        } else {
            code_entries_spec(bytes, p, m, 0, m.functions.len())
        },
    }
}

/// Reads `n` groups of local declarations; see [`locals_spec`].
fn read_locals(it: &mut ByteIter, n: u32, locals: &mut Vec<ValType>) -> (r: Result<(), Error>)
    requires
        cursor_ok(*old(it)),
    ensures
        final(it).bytes == old(it).bytes,
        cursor_ok(*final(it)),
        match locals_spec(old(it).bytes@, old(it).idx as int, n as nat, old(locals)@) {
            Ok((all, p)) => r is Ok && final(locals)@ == all && final(it).idx == p,
            Err(e) => r == Err::<(), Error>(e),
        },
{
    let mut i: u32 = 0;
    while i < n
        invariant
            i <= n,
            it.bytes == old(it).bytes,
            cursor_ok(*it),
            locals_spec(old(it).bytes@, old(it).idx as int, n as nat, old(locals)@) == locals_spec(
                it.bytes@,
                it.idx as int,
                (n - i) as nat,
                locals@,
            ),
        decreases n - i,
    {
        let count: u32 = read_u32(it)?;
        let tb: u8 = it.read_u8()?;
        let vt: ValType = match val_type_from_byte(tb) {
            Some(t) => t,
            None => {
                return Err(Error::Validation(INVALID_LOCAL_TYPE));
            },
        };
        if !is_val_type(tb) {
            return Err(Error::Validation(INVALID_LOCAL_TYPE));
        }
        if count > 0 && (locals.len() > MAX_LOCALS || count as usize > MAX_LOCALS - locals.len()) {
            return Err(Error::Malformed(TOO_MANY_LOCALS));
        }
        let ghost before = locals@;
        let mut k: u32 = 0;
        while k < count
            invariant
                k <= count,
                locals@ == before + Seq::new(k as nat, |j: int| vt),
            decreases count - k,
        {
            locals.push(vt);
            k = k + 1;
            assert(locals@ =~= before + Seq::new(k as nat, |j: int| vt));
        }
        assert(locals@ =~= before + Seq::new(count as nat, |j: int| val_type_from_byte(tb).unwrap()));
        i = i + 1;
    }
    Ok(())
}

/// Counts the imported functions.
fn count_imported(functions: &Vec<Function>) -> (n: usize)
    ensures
        n == imported_count(function_views(functions@), functions@.len()),
        n <= functions@.len(),
{
    let mut n: usize = 0;
    let mut i: usize = 0;
    while i < functions.len()
        invariant
            i <= functions@.len(),
            n <= i,
            n == imported_count(function_views(functions@), i as nat),
        decreases functions@.len() - i,
    {
        if functions[i].import.is_some() {
            n = n + 1;
        }
        i = i + 1;
    }
    n
}

impl Module {
    /// Reads one entry of the global section; see
    /// [`global_entry_spec`].
    fn parse_global_entry(&mut self, it: &mut ByteIter) -> (r: Result<(), Error>)
        requires
            cursor_ok(*old(it)),
        ensures
            final(it).bytes == old(it).bytes,
            cursor_ok(*final(it)),
            final(self).bytes == old(self).bytes,
            parsed(
                global_entry_spec(old(it).bytes@, old(it).idx as int, old(self)@),
                r,
                final(self)@,
                final(it).idx,
            ),
    {
        let tb: u8 = it.read_u8()?;
        if !is_val_type(tb) {
            return Err(Error::Malformed(INVALID_GLOBAL_TYPE));
        }
        let mb: u8 = it.read_u8()?;
        let is_mutable: bool = match mutability_from_byte(mb) {
            Some(b) => b,
            None => {
                return Err(Error::Malformed(INVALID_MUTABILITY));
            },
        };
        let ty: ValType = match val_type_from_byte(tb) {
            Some(t) => t,
            None => {
                return Err(Error::Malformed(INVALID_GLOBAL_TYPE));
            },
        };
        let g = Global { ty, is_mutable, initializer_offset: it.cur(), import: None };
        let ghost before = self@.globals;
        self.globals.push(g);
        assert(self@.globals =~= before.push(g@));
        assert(global_views(self.globals@) =~= self@.globals);
        validate_const(it, ty, &self.globals)
    }

    /// Reads the global section; see [`global_section_spec`].
    #[verifier::loop_isolation(false)]
    pub fn parse_global_section(&mut self, it: &mut ByteIter) -> (r: Result<(), Error>)
        requires
            cursor_ok(*old(it)),
        ensures
            final(it).bytes == old(it).bytes,
            cursor_ok(*final(it)),
            final(self).bytes == old(self).bytes,
            parsed(
                global_section_spec(old(it).bytes@, old(it).idx as int, old(self)@),
                r,
                final(self)@,
                final(it).idx,
            ),
    {
        let n: u32 = read_u32(it)?;
        let ghost p0 = it.idx as int;
        let ghost entry = |b: Seq<u8>, p: int, mv: ModuleView| global_entry_spec(b, p, mv);
        let mut i: u32 = 0;
        while i < n
            invariant
                i <= n,
                it.bytes == old(it).bytes,
                cursor_ok(*it),
                self.bytes == old(self).bytes,
                repeat_spec(entry, it.bytes@, p0, n as nat, old(self)@) == repeat_spec(
                    entry,
                    it.bytes@,
                    it.idx as int,
                    (n - i) as nat,
                    self@,
                ),
            decreases n - i,
        {
            self.parse_global_entry(it)?;
            i = i + 1;
        }
        Ok(())
    }

    /// Reads the function indices of an element segment; see
    /// [`elems_spec`].
    #[verifier::loop_isolation(false)]
    fn parse_elems(&mut self, it: &mut ByteIter, n: u32) -> (r: Result<(), Error>)
        requires
            cursor_ok(*old(it)),
        ensures
            final(it).bytes == old(it).bytes,
            cursor_ok(*final(it)),
            final(self).bytes == old(self).bytes,
            match elems_spec(old(it).bytes@, old(it).idx as int, n as nat, old(self)@.functions) {
                Ok((functions, p)) => r is Ok && final(self)@ == (ModuleView {
                    functions,
                    ..old(self)@
                }) && final(it).idx == p,
                Err(e) => r == Err::<(), Error>(e),
            },
    {
        let mut i: u32 = 0;
        while i < n
            invariant
                i <= n,
                it.bytes == old(it).bytes,
                cursor_ok(*it),
                self.bytes == old(self).bytes,
                self@ == (ModuleView { functions: self@.functions, ..old(self)@ }),
                elems_spec(old(it).bytes@, old(it).idx as int, n as nat, old(self)@.functions)
                    == elems_spec(it.bytes@, it.idx as int, (n - i) as nat, self@.functions),
            decreases n - i,
        {
            let idx: u32 = read_u32(it)?;
            if idx as usize >= self.functions.len() {
                return Err(Error::Validation(UNKNOWN_FUNC));
            }
            let ghost before = self@.functions;
            self.functions[idx as usize].is_declared = true;
            assert(self@.functions =~= declare(before, idx as int));
            i = i + 1;
        }
        Ok(())
    }

    /// Reads one entry of the element section; see
    /// [`element_entry_spec`].
    fn parse_element_entry(&mut self, it: &mut ByteIter) -> (r: Result<(), Error>)
        requires
            cursor_ok(*old(it)),
        ensures
            final(it).bytes == old(it).bytes,
            cursor_ok(*final(it)),
            final(self).bytes == old(self).bytes,
            parsed(
                element_entry_spec(old(it).bytes@, old(it).idx as int, old(self)@),
                r,
                final(self)@,
                final(it).idx,
            ),
    {
        let flags: u32 = read_u32(it)?;
        if flags != 0 {
            return Err(Error::Malformed(INVALID_VALUE_TYPE));
        }
        if self.table.is_none() {
            return Err(Error::Validation(UNKNOWN_TABLE));
        }
        assert(global_views(self.globals@) =~= self@.globals);
        validate_const(it, ValType::I32, &self.globals)?;
        let n: u32 = read_u32(it)?;
        self.parse_elems(it, n)
    }

    /// Reads the element section; see [`element_section_spec`].
    #[verifier::loop_isolation(false)]
    pub fn parse_element_section(&mut self, it: &mut ByteIter) -> (r: Result<(), Error>)
        requires
            cursor_ok(*old(it)),
        ensures
            final(it).bytes == old(it).bytes,
            cursor_ok(*final(it)),
            final(self).bytes == old(self).bytes,
            parsed(
                element_section_spec(old(it).bytes@, old(it).idx as int, old(self)@),
                r,
                final(self)@,
                final(it).idx,
            ),
    {
        let n: u32 = read_u32(it)?;
        self.element_start = it.cur();
        self.element_count = n;
        let ghost p0 = it.idx as int;
        let ghost m0 = self@;
        let ghost entry = |b: Seq<u8>, p: int, mv: ModuleView| element_entry_spec(b, p, mv);
        let mut i: u32 = 0;
        while i < n
            invariant
                i <= n,
                it.bytes == old(it).bytes,
                cursor_ok(*it),
                self.bytes == old(self).bytes,
                repeat_spec(entry, it.bytes@, p0, n as nat, m0) == repeat_spec(
                    entry,
                    it.bytes@,
                    it.idx as int,
                    (n - i) as nat,
                    self@,
                ),
            decreases n - i,
        {
            self.parse_element_entry(it)?;
            i = i + 1;
        }
        Ok(())
    }

    /// Reads one entry of the data section; see [`data_entry_spec`].
    fn parse_data_entry(&mut self, it: &mut ByteIter) -> (r: Result<(), Error>)
        requires
            cursor_ok(*old(it)),
        ensures
            final(it).bytes == old(it).bytes,
            cursor_ok(*final(it)),
            final(self).bytes == old(self).bytes,
            parsed(
                data_entry_spec(old(it).bytes@, old(it).idx as int, old(self)@),
                r,
                final(self)@,
                final(it).idx,
            ),
    {
        let flags: u32 = read_u32(it)?;
        if flags != 0 {
            return Err(Error::Validation(INVALID_DATA_SEG_FLAG));
        }
        if self.memory.is_none() {
            return Err(Error::Validation(UNKNOWN_MEMORY));
        }
        let initializer_offset: usize = it.cur();
        assert(global_views(self.globals@) =~= self@.globals);
        validate_const(it, ValType::I32, &self.globals)?;
        let len: u32 = read_u32(it)?;
        if !it.has_n_left(len as usize) {
            return Err(Error::Malformed(UNEXPECTED_END));
        }
        let data_start: usize = it.cur();
        let _total: usize = it.bytes.len();
        it.advance(len as usize);
        let data_end: usize = it.cur();
        self.data_segments.push(DataSegment { data_start, data_end, initializer_offset });
        Ok(())
    }

    /// Reads the data section; see [`data_section_spec`].
    #[verifier::loop_isolation(false)]
    pub fn parse_data_section(&mut self, it: &mut ByteIter) -> (r: Result<(), Error>)
        requires
            cursor_ok(*old(it)),
        ensures
            final(it).bytes == old(it).bytes,
            cursor_ok(*final(it)),
            final(self).bytes == old(self).bytes,
            parsed(
                data_section_spec(old(it).bytes@, old(it).idx as int, old(self)@),
                r,
                final(self)@,
                final(it).idx,
            ),
    {
        let n: u32 = read_u32(it)?;
        self.n_data = n;
        let ghost p0 = it.idx as int;
        let ghost m0 = self@;
        let ghost entry = |b: Seq<u8>, p: int, mv: ModuleView| data_entry_spec(b, p, mv);
        let mut i: u32 = 0;
        while i < n
            invariant
                i <= n,
                it.bytes == old(it).bytes,
                cursor_ok(*it),
                self.bytes == old(self).bytes,
                repeat_spec(entry, it.bytes@, p0, n as nat, m0) == repeat_spec(
                    entry,
                    it.bytes@,
                    it.idx as int,
                    (n - i) as nat,
                    self@,
                ),
            decreases n - i,
        {
            self.parse_data_entry(it)?;
            i = i + 1;
        }
        Ok(())
    }

    /// Reads the entry of the code section for function `i`; see
    /// [`code_entry_spec`].
    fn parse_code_entry(&mut self, it: &mut ByteIter, i: usize) -> (r: Result<(), Error>)
        requires
            cursor_ok(*old(it)),
            i < old(self).functions@.len(),
        ensures
            final(it).bytes == old(it).bytes,
            cursor_ok(*final(it)),
            final(self).bytes == old(self).bytes,
            parsed(
                code_entry_spec(old(it).bytes@, old(it).idx as int, old(self)@, i as int),
                r,
                final(self)@,
                final(it).idx,
            ),
            final(self).functions@.len() == old(self).functions@.len(),
    {
        reveal(code_entry_spec);
        let length: u32 = read_u32(it)?;
        let func_start: usize = it.cur();
        proof {
            lemma_group_len_positive(it.bytes@, func_start as int);
        }
        let n_groups: u32 = read_u32(it)?;
        let mut locals: Vec<ValType> = self.functions[i].ty.duplicate().params;
        proof {
            lemma_locals_bounds(it.bytes@, it.idx as int, n_groups as nat, locals@);
        }
        read_locals(it, n_groups, &mut locals)?;
        let body_start: usize = it.cur();
        let total: usize = it.bytes.len();
        if body_start - func_start > length as usize || length as usize > total - func_start {
            return Err(Error::Malformed(UNEXPECTED_END));
        }
        let body_end: usize = func_start + length as usize;
        let ghost before = self@;
        self.functions[i].locals = locals;
        self.functions[i].body_start = body_start;
        self.functions[i].body_end = body_end;
        let ghost f = FunctionView {
            locals: locals@,
            body_start,
            body_end,
            ..before.functions[i as int]
        };
        assert(self@.functions =~= before.functions.update(i as int, f));
        let ghost m1 = self@;
        let ctx = Context {
            types: &self.types,
            functions: &self.functions,
            globals: &self.globals,
            has_memory: self.memory.is_some(),
            has_table: self.table.is_some(),
            func_idx: i,
        };
        assert(ctx@.types =~= m1.types);
        assert(ctx@.functions =~= m1.functions);
        assert(ctx@.globals =~= m1.globals);
        assert(ctx@ == ctx_of(m1, i));
        validate_body(&ctx, it.bytes, &mut self.side_table)?;
        it.idx = body_end;
        Ok(())
    }

    /// Reads the code section; see [`code_section_spec`].
    #[verifier::loop_isolation(false)]
    pub fn parse_code_section(&mut self, it: &mut ByteIter) -> (r: Result<(), Error>)
        requires
            cursor_ok(*old(it)),
        ensures
            final(it).bytes == old(it).bytes,
            cursor_ok(*final(it)),
            final(self).bytes == old(self).bytes,
            parsed(
                code_section_spec(old(it).bytes@, old(it).idx as int, old(self)@),
                r,
                final(self)@,
                final(it).idx,
            ),
    {
        let n: u32 = read_u32(it)?;
        let n_imports: usize = count_imported(&self.functions);
        assert(function_views(self.functions@) =~= self@.functions);
        let total: usize = self.functions.len();
        if (total - n_imports) as u64 != n as u64 {
            return Err(Error::Malformed(FUNC_CODE_INCONSISTENT));
        }
        let ghost p0 = it.idx as int;
        let mut i: usize = 0;
        while i < total
            invariant
                i <= total,
                total == self.functions@.len(),
                it.bytes == old(it).bytes,
                cursor_ok(*it),
                self.bytes == old(self).bytes,
                code_entries_spec(it.bytes@, p0, old(self)@, 0, total as nat) == code_entries_spec(
                    it.bytes@,
                    it.idx as int,
                    self@,
                    i as nat,
                    total as nat,
                ),
            decreases total - i,
        {
            if self.functions[i].import.is_none() {
                self.parse_code_entry(it, i)?;
            }
            i = i + 1;
        }
        Ok(())
    }
}

} // verus!
