//! The decoder: the header, the section stream, and the module that
//! comes out of it.

use vstd::prelude::*;
use vstd::utf8::valid_utf8;
use vstd::slice::slice_subrange;
use crate::byte_iter::ByteIter;
use crate::error::{
    Error,
    UNEXPECTED_END,
    UNEXPECTED_END_SHORT,
    NO_MAGIC_HEADER,
    UNKNOWN_BINARY_VERSION,
    INVALID_UTF8,
    INVALID_SECTION_ID,
    SECTION_SIZE_MISMATCH,
    JUNK_AFTER_LAST,
    LENGTH_OUT_OF_BOUNDS,
    FUNC_CODE_INCONSISTENT,
};
use crate::code_laws::lemma_module_covers;
use crate::leb128::lemma_group_len_positive;
use crate::nesting::{construct_at, construct_covered};
use crate::module::{
    Module,
    ModuleView,
    FunctionView,
    SideTable,
    NO_START,
    is_utf8,
    read_u32,
    u32_spec,
    cursor_ok,
};
use crate::sections::{
    Parsed,
    parsed,
    type_section_spec,
    import_section_spec,
    function_section_spec,
    table_section_spec,
    memory_section_spec,
    export_section_spec,
    start_section_spec,
};
use crate::segments::{
    global_section_spec,
    element_section_spec,
    code_section_spec,
    data_section_spec,
};
use crate::wasm_memory::le32;

verus! {

/// Whether the four bytes at `pos` are the magic header `\0asm`.
pub open spec fn has_magic(bytes: Seq<u8>, pos: int) -> bool {
    pos + 4 <= bytes.len() && bytes[pos] == 0x00 && bytes[pos + 1] == 0x61 && bytes[pos + 2] == 0x73
        && bytes[pos + 3] == 0x6d
}

/// The position after the custom sections that start at `pos`.
///
/// A custom section is the id zero, the length of the section, and a
/// length-prefixed UTF-8 name inside the section; the rest of the section
/// is skipped.  Skipping stops before a magic header.
pub open spec fn customs_spec(bytes: Seq<u8>, pos: int) -> Result<int, Error>
    decreases bytes.len() - pos,
{
    if pos < 0 || pos >= bytes.len() || bytes[pos] != 0 || has_magic(bytes, pos) {
        Ok(pos)
    } else {
        match u32_spec(bytes, pos + 1) {
            Err(e) => Err(e),
            Ok((slen, start)) => if start + slen > bytes.len() {
                Err(Error::Malformed(UNEXPECTED_END))
            } else {
                match u32_spec(bytes, start) {
                    Err(e) => Err(e),
                    Ok((nlen, nstart)) => if nstart + nlen > bytes.len() {
                        Err(Error::Malformed(UNEXPECTED_END))
                    } else if !valid_utf8(bytes.subrange(nstart, nstart + nlen)) {
                        Err(Error::Malformed(INVALID_UTF8))
                    } else if start + slen < nstart + nlen {
                        Err(Error::Malformed(UNEXPECTED_END))
                    } else {
                        proof {
                            lemma_group_len_positive(bytes, pos + 1);
                        }
                        customs_spec(bytes, start + slen)
                    },
                }
            },
        }
    }
}

/// The reader of the standard section `id`.
pub open spec fn reader_spec(id: u8, bytes: Seq<u8>, pos: int, m: ModuleView) -> Parsed {
    if id == 1 {
        type_section_spec(bytes, pos, m)
    } else if id == 2 {
        import_section_spec(bytes, pos, m)
    } else if id == 3 {
        function_section_spec(bytes, pos, m)
    } else if id == 4 {
        table_section_spec(bytes, pos, m)
    } else if id == 5 {
        memory_section_spec(bytes, pos, m)
    } else if id == 6 {
        global_section_spec(bytes, pos, m)
    } else if id == 7 {
        export_section_spec(bytes, pos, m)
    } else if id == 8 {
        start_section_spec(bytes, pos, m)
    } else if id == 9 {
        element_section_spec(bytes, pos, m)
    } else if id == 10 {
        code_section_spec(bytes, pos, m)
    } else {
        data_section_spec(bytes, pos, m)
    }
}

/// The standard section `id`, if it stands at `pos`, and the custom
/// sections behind it.
///
/// The section is its id, its length, and its content, which the reader
/// must consume exactly; the same id must not follow again.  Where
/// another id stands at `pos`, it must be a later standard section or a
/// custom section: an id above eleven or below `id` is refused.
pub open spec fn section_spec(bytes: Seq<u8>, pos: int, id: u8, m: ModuleView) -> Parsed {
    if 0 <= pos < bytes.len() && bytes[pos] == id {
        match u32_spec(bytes, pos + 1) {
            Err(e) => Err(e),
            Ok((slen, start)) => if start + slen > bytes.len() {
                Err(Error::Malformed(UNEXPECTED_END))
            } else {
                match reader_spec(id, bytes, start, m) {
                    Err(e) => Err(e),
                    Ok((m2, p)) => if p - start != slen {
                        Err(Error::Malformed(SECTION_SIZE_MISMATCH))
                    } else if p < bytes.len() && bytes[p] == id {
                        Err(Error::Malformed(JUNK_AFTER_LAST))
                    } else {
                        match customs_spec(bytes, p) {
                            Err(e) => Err(e),
                            Ok(q) => Ok((m2, q)),
                        }
                    },
                }
            },
        }
    } else if 0 <= pos < bytes.len() && (bytes[pos] > 11 || 1 <= bytes[pos] < id) {
        Err(Error::Malformed(INVALID_SECTION_ID))
    } else {
        match customs_spec(bytes, pos) {
            Err(e) => Err(e),
            Ok(q) => Ok((m, q)),
        }
    }
}

/// The standard sections from `id` to eleven, in this order.
pub open spec fn sections_spec(bytes: Seq<u8>, pos: int, id: nat, m: ModuleView) -> Parsed
    decreases 12 - id,
{
    if id > 11 {
        Ok((m, pos))
    } else {
        match section_spec(bytes, pos, id as u8, m) {
            Err(e) => Err(e),
            Ok((m2, p)) => sections_spec(bytes, p, id + 1, m2),
        }
    }
}

/// Whether a function that is not imported has no body.
pub open spec fn lacks_code(functions: Seq<FunctionView>) -> bool {
    exists|i: int|
        0 <= i < functions.len() && (#[trigger] functions[i]).import is None && functions[i].body_start
            == 0 && functions[i].body_end == 0
}

/// The module that `bytes` encode, or the error.
///
/// The binary is the magic header, the version one, and the standard
/// sections in ascending order of their ids, each at most once, with
/// custom sections between them.  Every function that is not imported
/// must have a body, and nothing may follow the last section.
pub open spec fn compile_spec(bytes: Seq<u8>) -> Result<ModuleView, Error> {
    if bytes.len() < 4 {
        Err(Error::Malformed(UNEXPECTED_END_SHORT))
    } else if !has_magic(bytes, 0) {
        Err(Error::Malformed(NO_MAGIC_HEADER))
    } else if bytes.len() < 8 {
        Err(Error::Malformed(UNEXPECTED_END_SHORT))
    } else if le32(bytes, 4) != 1 {
        Err(Error::Malformed(UNKNOWN_BINARY_VERSION))
    } else {
        match sections_spec(bytes, 8, 1, ModuleView::empty()) {
            Err(e) => Err(e),
            Ok((m, p)) => if lacks_code(m.functions) {
                Err(Error::Malformed(FUNC_CODE_INCONSISTENT))
            } else if p < bytes.len() {
                if bytes[p] == 0 {
                    Err(Error::Malformed(LENGTH_OUT_OF_BOUNDS))
                } else {
                    Err(Error::Malformed(INVALID_SECTION_ID))
                }
            } else {
                Ok(m)
            },
        }
    }
}

/// Skips the custom sections at the cursor; see [`customs_spec`].
pub fn ignore_custom_section(it: &mut ByteIter) -> (r: Result<(), Error>)
    requires
        cursor_ok(*old(it)),
    ensures
        final(it).bytes == old(it).bytes,
        cursor_ok(*final(it)),
        match customs_spec(old(it).bytes@, old(it).idx as int) {
            Ok(p) => r is Ok && final(it).idx == p,
            Err(e) => r == Err::<(), Error>(e),
        },
{
    let total: usize = it.bytes.len();
    loop
        invariant_except_break
            customs_spec(old(it).bytes@, old(it).idx as int) == customs_spec(it.bytes@, it.idx as int),
        invariant
            it.bytes == old(it).bytes,
            total == it.bytes@.len(),
            cursor_ok(*it),
        ensures
            customs_spec(old(it).bytes@, old(it).idx as int) == Ok::<int, Error>(it.idx as int),
        decreases it.bytes@.len() - it.idx,
    {
        let pos: usize = it.idx;
        if pos >= total || it.bytes[pos] != 0 {
            break ;
        }
        if total - pos >= 4 && it.bytes[pos + 1] == 0x61 && it.bytes[pos + 2] == 0x73 && it.bytes[pos
            + 3] == 0x6d {
            break ;
        }
        it.advance(1);
        proof {
            lemma_group_len_positive(it.bytes@, it.idx as int);
        }
        let slen: u32 = read_u32(it)?;
        let start: usize = it.cur();
        if slen as usize > total - start {
            return Err(Error::Malformed(UNEXPECTED_END));
        }
        let nlen: u32 = read_u32(it)?;
        let nstart: usize = it.cur();
        if nlen as usize > total - nstart {
            return Err(Error::Malformed(UNEXPECTED_END));
        }
        if !is_utf8(slice_subrange(it.bytes, nstart, nstart + nlen as usize)) {
            return Err(Error::Malformed(INVALID_UTF8));
        }
        if start + (slen as usize) < nstart + nlen as usize {
            return Err(Error::Malformed(UNEXPECTED_END));
        }
        it.idx = start + slen as usize;
    }
    Ok(())
}

impl Module {
    /// A module with nothing in it.
    pub fn blank() -> (m: Module)
        ensures
            m@ == ModuleView::empty(),
            m.bytes@ == Seq::<u8>::empty(),
    {
        let m = Module {
            bytes: Vec::new(),
            types: Vec::new(),
            imports: Vec::new(),
            table: None,
            memory: None,
            globals: Vec::new(),
            exports: Vec::new(),
            start: NO_START,
            element_start: 0,
            element_count: 0,
            functions: Vec::new(),
            n_data: 0,
            data_segments: Vec::new(),
            side_table: SideTable::new(),
        };
        assert(m@.types =~= Seq::empty());
        assert(m@.imports =~= Seq::empty());
        assert(m@.globals =~= Seq::empty());
        assert(m@.exports =~= Seq::empty());
        assert(m@.functions =~= Seq::empty());
        m
    }

    /// Reads the content of the standard section `id`; see
    /// [`reader_spec`].
    fn read_section(&mut self, it: &mut ByteIter, id: u8) -> (r: Result<(), Error>)
        requires
            cursor_ok(*old(it)),
            1 <= id <= 11,
        ensures
            final(it).bytes == old(it).bytes,
            cursor_ok(*final(it)),
            final(self).bytes == old(self).bytes,
            parsed(
                reader_spec(id, old(it).bytes@, old(it).idx as int, old(self)@),
                r,
                final(self)@,
                final(it).idx,
            ),
    {
        if id == 1 {
            self.parse_type_section(it)
        } else if id == 2 {
            self.parse_import_section(it)
        } else if id == 3 {
            self.parse_function_section(it)
        } else if id == 4 {
            self.parse_table_section(it)
        } else if id == 5 {
            self.parse_memory_section(it)
        } else if id == 6 {
            self.parse_global_section(it)
        } else if id == 7 {
            self.parse_export_section(it)
        } else if id == 8 {
            self.parse_start_section(it)
        } else if id == 9 {
            self.parse_element_section(it)
        } else if id == 10 {
            self.parse_code_section(it)
        } else {
            self.parse_data_section(it)
        }
    }

    /// Reads the header and the sections of `bytes` into this module,
    /// which must be blank; see [`compile_spec`].
    #[verifier::loop_isolation(false)]
    pub fn initialize(&mut self, bytes: &[u8]) -> (r: Result<(), Error>)
        requires
            old(self)@ == ModuleView::empty(),
        ensures
            final(self).bytes == old(self).bytes,
            match compile_spec(bytes@) {
                Ok(m) => r is Ok && final(self)@ == m,
                Err(e) => r == Err::<(), Error>(e),
            },
    {
        if bytes.len() < 4 {
            return Err(Error::Malformed(UNEXPECTED_END_SHORT));
        }
        if !(bytes[0] == 0x00 && bytes[1] == 0x61 && bytes[2] == 0x73 && bytes[3] == 0x6d) {
            return Err(Error::Malformed(NO_MAGIC_HEADER));
        }
        if bytes.len() < 8 {
            return Err(Error::Malformed(UNEXPECTED_END_SHORT));
        }
        if !(bytes[4] == 1 && bytes[5] == 0 && bytes[6] == 0 && bytes[7] == 0) {
            return Err(Error::Malformed(UNKNOWN_BINARY_VERSION));
        }
        let mut it = ByteIter::new(bytes, 8);
        let mut id: u8 = 1;
        while id <= 11
            invariant
                1 <= id <= 12,
                it.bytes == bytes,
                cursor_ok(it),
                self.bytes == old(self).bytes,
                sections_spec(bytes@, 8, 1, ModuleView::empty()) == sections_spec(
                    bytes@,
                    it.idx as int,
                    id as nat,
                    self@,
                ),
                bytes@.len() >= 8,
                has_magic(bytes@, 0),
                le32(bytes@, 4) == 1,
            decreases 12 - id,
        {
            section(&mut it, id, self)?;
            id = id + 1;
        }
        let mut i: usize = 0;
        while i < self.functions.len()
            invariant
                i <= self.functions@.len(),
                forall|k: int|
                    0 <= k < i ==> !((#[trigger] self@.functions[k]).import is None
                        && self@.functions[k].body_start == 0 && self@.functions[k].body_end == 0),
            decreases self.functions@.len() - i,
        {
            let f = &self.functions[i];
            if f.import.is_none() && f.body_start == 0 && f.body_end == 0 {
                assert(self@.functions[i as int].import is None);
                return Err(Error::Malformed(FUNC_CODE_INCONSISTENT));
            }
            i = i + 1;
        }
        if !it.empty() {
            if bytes[it.idx] == 0 {
                return Err(Error::Malformed(LENGTH_OUT_OF_BOUNDS));
            }
            return Err(Error::Malformed(INVALID_SECTION_ID));
        }
        Ok(())
    }

    /// Decodes and validates the binary `bytes`; see [`compile_spec`].
    ///
    /// The side-table of the module that comes out has an entry for every
    /// `block`, `loop` and `if` of every function that is not imported:
    /// wherever validation of the function comes to stand before such an
    /// opcode, the entry under the offset of the opcode says where the
    /// body of the construct starts, where its `else` branch starts, and
    /// where it ends; see [`crate::nesting::records`].
    pub fn compile(bytes: Vec<u8>) -> (r: Result<Module, Error>)
        ensures
            match compile_spec(bytes@) {
                Ok(m) => (r matches Ok(module) && module@ == m && module.bytes@ == bytes@),
                Err(e) => r matches Err(err) && err == e,
            },
            r matches Ok(module) ==> forall|k: int, p: int|
                0 <= k < module@.functions.len() && module@.functions[k].import is None
                    && #[trigger] construct_at(module@, bytes@, k, p) ==> construct_covered(
                    module@,
                    bytes@,
                    k,
                    p,
                ),
    {
        let mut m = Module::blank();
        m.initialize(bytes.as_slice())?;
        let _len: usize = bytes.len();
        let _count: usize = m.functions.len();
        proof {
            assert(m@.functions.len() == m.functions@.len());
            assert forall|k: int, p: int|
                0 <= k < m@.functions.len() && m@.functions[k].import is None && #[trigger] construct_at(
                    m@,
                    bytes@,
                    k,
                    p,
                ) implies construct_covered(m@, bytes@, k, p) by {
                lemma_module_covers(bytes@, k, p);
            }
        }
        m.bytes = bytes;
        Ok(m)
    }
}

/// Reads the standard section `id`, if it stands at the cursor, into `m`
/// and skips the custom sections behind it; see [`section_spec`].
pub fn section(it: &mut ByteIter, id: u8, m: &mut Module) -> (r: Result<(), Error>)
    requires
        cursor_ok(*old(it)),
        1 <= id <= 11,
    ensures
        final(it).bytes == old(it).bytes,
        cursor_ok(*final(it)),
        final(m).bytes == old(m).bytes,
        parsed(
            section_spec(old(it).bytes@, old(it).idx as int, id, old(m)@),
            r,
            final(m)@,
            final(it).idx,
        ),
{
    let total: usize = it.bytes.len();
    if it.idx < total && it.bytes[it.idx] == id {
        it.advance(1);
        let slen: u32 = read_u32(it)?;
        let start: usize = it.cur();
        if slen as usize > total - start {
            return Err(Error::Malformed(UNEXPECTED_END));
        }
        m.read_section(it, id)?;
        if it.cur() < start || it.cur() - start != slen as usize {
            return Err(Error::Malformed(SECTION_SIZE_MISMATCH));
        }
        if it.idx < total && it.bytes[it.idx] == id {
            return Err(Error::Malformed(JUNK_AFTER_LAST));
        }
    } else if it.idx < total && (it.bytes[it.idx] > 11 || (1 <= it.bytes[it.idx] && it.bytes[it.idx]
        < id)) {
        return Err(Error::Malformed(INVALID_SECTION_ID));
    }
    ignore_custom_section(it)
}

} // verus!
