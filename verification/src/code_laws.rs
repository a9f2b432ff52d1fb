//! The side-table of a decoded module: the sections before the code
//! section give no function a body, the code section validates every
//! function that is not imported, and the data section leaves the
//! side-table alone.

use vstd::prelude::*;
use crate::const_expr::const_expr_spec;
use crate::decoder::{compile_spec, lacks_code, reader_spec, section_spec, sections_spec};
use crate::leb128::lemma_group_len_positive;
use crate::module::{FunctionView, ModuleView, u32_spec};
use crate::nesting::{
    construct_at,
    construct_covered,
    same_declarations,
    lemma_code_entries_same_length,
    lemma_code_section_covers,
    lemma_code_section_keeps,
};
use crate::sections::{
    Parsed,
    repeat_spec,
    declare,
    import_entry_spec,
    function_entry_spec,
    export_entry_spec,
};
use crate::segments::{
    code_section_spec,
    ctx_of,
    data_entry_spec,
    element_entry_spec,
    elems_spec,
    global_entry_spec,
};
use crate::signature::ValType;

verus! {

/// Repeating an entry keeps what every single entry keeps.
proof fn lemma_repeat_keeps(
    entry: spec_fn(Seq<u8>, int, ModuleView) -> Parsed,
    inv: spec_fn(ModuleView) -> bool,
    bytes: Seq<u8>,
    pos: int,
    n: nat,
    m: ModuleView,
)
    requires
        inv(m),
        forall|p: int, mv: ModuleView|
            inv(mv) ==> (#[trigger] entry(bytes, p, mv) matches Ok((m2, _)) ==> inv(m2)),
    ensures
        repeat_spec(entry, bytes, pos, n, m) matches Ok((m2, _)) ==> inv(m2),
    decreases n,
{
    if n > 0 {
        match entry(bytes, pos, m) {
            Ok((m2, p)) => {
                lemma_repeat_keeps(entry, inv, bytes, p, (n - 1) as nat, m2);
            },
            Err(_) => {},
        }
    }
}

/// Whether no function that is not imported has a body.
pub open spec fn unread(functions: Seq<FunctionView>) -> bool {
    forall|j: int|
        0 <= j < functions.len() ==> (#[trigger] functions[j]).import is Some || (functions[j].body_start == 0
            && functions[j].body_end == 0)
}

/// Marking functions as declared gives none a body.
proof fn lemma_elems_unread(bytes: Seq<u8>, pos: int, n: nat, functions: Seq<FunctionView>)
    requires
        unread(functions),
    ensures
        elems_spec(bytes, pos, n, functions) matches Ok((after, _)) ==> unread(after),
    decreases n,
{
    if n > 0 {
        match u32_spec(bytes, pos) {
            Ok((idx, p)) => {
                if idx < functions.len() {
                    let next = declare(functions, idx as int);
                    assert forall|j: int| 0 <= j < next.len() implies (#[trigger] next[j]).import is Some || (
                    next[j].body_start == 0 && next[j].body_end == 0) by {
                        assert(functions[j].import is Some || functions[j].body_start == 0);
                    }
                    lemma_elems_unread(bytes, p, (n - 1) as nat, next);
                }
            },
            Err(_) => {},
        }
    }
}

/// No section before the code section gives a function a body.
proof fn lemma_reader_unread(id: u8, bytes: Seq<u8>, pos: int, m: ModuleView)
    requires
        1 <= id <= 9,
        unread(m.functions),
    ensures
        reader_spec(id, bytes, pos, m) matches Ok((after, _)) ==> unread(after.functions),
{
    let inv = |mv: ModuleView| unread(mv.functions);
    let start = u32_spec(bytes, pos);
    if start is Ok {
        let (n, p) = start->Ok_0;
        if id == 2 {
            let entry = |b: Seq<u8>, q: int, mv: ModuleView| import_entry_spec(b, q, mv);
            assert forall|q: int, mv: ModuleView| inv(mv) implies (#[trigger] entry(bytes, q, mv) matches Ok(
                (m2, _),
            ) ==> inv(m2)) by {
                match import_entry_spec(bytes, q, mv) {
                    Ok((m2, _)) => {
                        assert forall|j: int| 0 <= j < m2.functions.len() implies (
                        #[trigger] m2.functions[j]).import is Some || (m2.functions[j].body_start == 0
                            && m2.functions[j].body_end == 0) by {
                            if j < mv.functions.len() {
                                assert(m2.functions[j] == mv.functions[j]);
                            }
                        }
                    },
                    Err(_) => {},
                }
            }
            lemma_repeat_keeps(entry, inv, bytes, p, n as nat, m);
        } else if id == 3 {
            let entry = |b: Seq<u8>, q: int, mv: ModuleView| function_entry_spec(b, q, mv);
            assert forall|q: int, mv: ModuleView| inv(mv) implies (#[trigger] entry(bytes, q, mv) matches Ok(
                (m2, _),
            ) ==> inv(m2)) by {
                match function_entry_spec(bytes, q, mv) {
                    Ok((m2, _)) => {
                        assert forall|j: int| 0 <= j < m2.functions.len() implies (
                        #[trigger] m2.functions[j]).import is Some || (m2.functions[j].body_start == 0
                            && m2.functions[j].body_end == 0) by {
                            if j < mv.functions.len() {
                                assert(m2.functions[j] == mv.functions[j]);
                            }
                        }
                    },
                    Err(_) => {},
                }
            }
            lemma_repeat_keeps(entry, inv, bytes, p, n as nat, m);
        } else if id == 6 {
            let entry = |b: Seq<u8>, q: int, mv: ModuleView| global_entry_spec(b, q, mv);
            lemma_repeat_keeps(entry, inv, bytes, p, n as nat, m);
        } else if id == 7 {
            let entry = |b: Seq<u8>, q: int, mv: ModuleView| export_entry_spec(b, q, mv);
            assert forall|q: int, mv: ModuleView| inv(mv) implies (#[trigger] entry(bytes, q, mv) matches Ok(
                (m2, _),
            ) ==> inv(m2)) by {
                match export_entry_spec(bytes, q, mv) {
                    Ok((m2, _)) => {
                        assert forall|j: int| 0 <= j < m2.functions.len() implies (
                        #[trigger] m2.functions[j]).import is Some || (m2.functions[j].body_start == 0
                            && m2.functions[j].body_end == 0) by {
                            assert(mv.functions[j].import is Some || mv.functions[j].body_start == 0);
                        }
                    },
                    Err(_) => {},
                }
            }
            lemma_repeat_keeps(entry, inv, bytes, p, n as nat, m);
        } else if id == 9 {
            let entry = |b: Seq<u8>, q: int, mv: ModuleView| element_entry_spec(b, q, mv);
            assert forall|q: int, mv: ModuleView| inv(mv) implies (#[trigger] entry(bytes, q, mv) matches Ok(
                (m2, _),
            ) ==> inv(m2)) by {
                match element_entry_spec(bytes, q, mv) {
                    Ok((m2, _)) => {
                        let p1 = u32_spec(bytes, q)->Ok_0.1;
                        let p2 = const_expr_spec(bytes, p1, ValType::I32, mv.globals)->Ok_0;
                        let (k, p3) = u32_spec(bytes, p2)->Ok_0;
                        lemma_elems_unread(bytes, p3, k as nat, mv.functions);
                    },
                    Err(_) => {},
                }
            }
            lemma_repeat_keeps(
                entry,
                inv,
                bytes,
                p,
                n as nat,
                ModuleView { element_start: p as usize, element_count: n, ..m },
            );
        }
    }
}

/// The sections before the code section, from the section `id` on: the
/// module and the position with which the code section is reached.
proof fn lemma_sections_unread(bytes: Seq<u8>, pos: int, id: nat, m: ModuleView) -> (r: (ModuleView, int))
    requires
        1 <= id <= 10,
        unread(m.functions),
        sections_spec(bytes, pos, id, m) is Ok,
    ensures
        unread(r.0.functions),
        sections_spec(bytes, r.1, 10, r.0) == sections_spec(bytes, pos, id, m),
    decreases 10 - id,
{
    if id == 10 {
        (m, pos)
    } else {
        let (m2, p) = section_spec(bytes, pos, id as u8, m)->Ok_0;
        if 0 <= pos < bytes.len() && bytes[pos] == id as u8 {
            let start = u32_spec(bytes, pos + 1)->Ok_0.1;
            lemma_reader_unread(id as u8, bytes, start, m);
        }
        lemma_sections_unread(bytes, p, id + 1, m2)
    }
}

/// Whether `b` is `a` but for the data segments.
pub open spec fn same_but_data(a: ModuleView, b: ModuleView) -> bool {
    b == (ModuleView { n_data: b.n_data, data_segments: b.data_segments, ..a })
}

/// The data section changes the data segments only.
proof fn lemma_data_keeps(bytes: Seq<u8>, pos: int, m: ModuleView)
    ensures
        reader_spec(11, bytes, pos, m) matches Ok((after, _)) ==> same_but_data(m, after),
{
    let inv = |mv: ModuleView| same_but_data(m, mv);
    let entry = |b: Seq<u8>, q: int, mv: ModuleView| data_entry_spec(b, q, mv);
    match u32_spec(bytes, pos) {
        Ok((n, p)) => {
            lemma_repeat_keeps(entry, inv, bytes, p, n as nat, ModuleView { n_data: n, ..m });
        },
        Err(_) => {},
    }
}

/// The data section, where the module has one, changes the data
/// segments only.
proof fn lemma_data_section(bytes: Seq<u8>, pos: int, m: ModuleView)
    ensures
        section_spec(bytes, pos, 11, m) matches Ok((after, _)) ==> same_but_data(m, after),
{
    if 0 <= pos < bytes.len() && bytes[pos] == 11 {
        match u32_spec(bytes, pos + 1) {
            Ok((_, start)) => {
                lemma_data_keeps(bytes, start, m);
            },
            Err(_) => {},
        }
    }
}

/// The code section, where the module has one, leaves an entry for
/// every construct of every function that is not imported; where the
/// module has none, no function has a body.
proof fn lemma_code_section(bytes: Seq<u8>, pos: int, m: ModuleView, k: int, p: int)
    requires
        bytes.len() <= usize::MAX,
        unread(m.functions),
        0 <= k < m.functions.len() <= usize::MAX,
        m.functions[k].import is None,
        section_spec(bytes, pos, 10, m) is Ok,
    ensures
        ({
            let after = section_spec(bytes, pos, 10, m)->Ok_0.0;
            &&& same_declarations(m, after)
            &&& (after.functions[k].body_start == 0 && after.functions[k].body_end == 0) || (construct_at(
                after,
                bytes,
                k,
                p,
            ) ==> construct_covered(after, bytes, k, p))
        }),
{
    if 0 <= pos < bytes.len() && bytes[pos] == 10 {
        lemma_group_len_positive(bytes, pos + 1);
        let start = u32_spec(bytes, pos + 1)->Ok_0.1;
        lemma_code_section_keeps(bytes, start, m);
        if construct_at(code_section_spec(bytes, start, m)->Ok_0.0, bytes, k, p) {
            lemma_code_section_covers(bytes, start, m, k, p);
        }
    }
}

/// The code section and the data section together.
proof fn lemma_code_and_data(bytes: Seq<u8>, pos: int, m: ModuleView, k: int, p: int)
    requires
        bytes.len() <= usize::MAX,
        unread(m.functions),
        sections_spec(bytes, pos, 10, m) is Ok,
        0 <= k < sections_spec(bytes, pos, 10, m)->Ok_0.0.functions.len() <= usize::MAX,
        sections_spec(bytes, pos, 10, m)->Ok_0.0.functions[k].import is None,
        !lacks_code(sections_spec(bytes, pos, 10, m)->Ok_0.0.functions),
        construct_at(sections_spec(bytes, pos, 10, m)->Ok_0.0, bytes, k, p),
    ensures
        construct_covered(sections_spec(bytes, pos, 10, m)->Ok_0.0, bytes, k, p),
{
    let after = sections_spec(bytes, pos, 10, m)->Ok_0.0;
    let (m10, p10) = section_spec(bytes, pos, 10, m)->Ok_0;
    let (m11, p11) = section_spec(bytes, p10, 11, m10)->Ok_0;
    assert(sections_spec(bytes, pos, 10, m) == sections_spec(bytes, p10, 11, m10));
    assert(sections_spec(bytes, p10, 11, m10) == sections_spec(bytes, p11, 12, m11));
    assert(m11 == after);
    lemma_data_section(bytes, p10, m10);
    assert(m10.functions == after.functions);
    assert(m10.side_table == after.side_table);
    assert(ctx_of(m10, k as usize) == ctx_of(after, k as usize));
    assert(m.functions.len() == m10.functions.len() && m.functions[k].import is None) by {
        if 0 <= pos < bytes.len() && bytes[pos] == 10 {
            lemma_group_len_positive(bytes, pos + 1);
            let start = u32_spec(bytes, pos + 1)->Ok_0.1;
            lemma_same_length(bytes, start, m);
        }
    }
    lemma_code_section(bytes, pos, m, k, p);
}

/// The code section gives the module no function and takes none away,
/// and leaves every function imported or not as it was.
proof fn lemma_same_length(bytes: Seq<u8>, pos: int, m: ModuleView)
    requires
        code_section_spec(bytes, pos, m) is Ok,
    ensures
        ({
            let after = code_section_spec(bytes, pos, m)->Ok_0.0;
            &&& after.functions.len() == m.functions.len()
            &&& forall|j: int|
                0 <= j < m.functions.len() ==> (#[trigger] after.functions[j]).import == m.functions[j].import
        }),
{
    let start = u32_spec(bytes, pos)->Ok_0.1;
    lemma_code_entries_same_length(bytes, start, m, 0, m.functions.len());
}

/// Side-table: the side-table of a decoded module has an entry for every
/// `block`, `loop` and `if` in the body of every function of the module
/// that is not imported, under the offset of the opcode of the
/// construct.  Its `body_pc` is the position after the block type, its
/// `end_pc` is the position after the `end` of the construct, and its
/// `else_pc` is the position after the `else` of the construct where it
/// has one, and `end_pc` otherwise; see [`crate::nesting::records`].
pub proof fn lemma_module_covers(bytes: Seq<u8>, k: int, p: int)
    requires
        bytes.len() <= usize::MAX,
        compile_spec(bytes) is Ok,
        0 <= k < compile_spec(bytes)->Ok_0.functions.len() <= usize::MAX,
        compile_spec(bytes)->Ok_0.functions[k].import is None,
        construct_at(compile_spec(bytes)->Ok_0, bytes, k, p),
    ensures
        construct_covered(compile_spec(bytes)->Ok_0, bytes, k, p),
{
    assert(unread(ModuleView::empty().functions));
    let (m9, p9) = lemma_sections_unread(bytes, 8, 1, ModuleView::empty());
    lemma_code_and_data(bytes, p9, m9, k, p);
}

} // verus!
