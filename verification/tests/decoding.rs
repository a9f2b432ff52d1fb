use wagmi::error::Error;
use wagmi::func_validator::Validator;
use wagmi::module::{is_utf8, ExternType, Module};
use wagmi::signature::ValType;

fn leb(mut v: u32) -> Vec<u8> {
    let mut out = Vec::new();
    loop {
        let b = (v & 0x7f) as u8;
        v >>= 7;
        if v == 0 {
            out.push(b);
            return out;
        }
        out.push(b | 0x80);
    }
}

fn section(id: u8, content: Vec<u8>) -> Vec<u8> {
    let mut out = vec![id];
    out.extend(leb(content.len() as u32));
    out.extend(content);
    out
}

fn name(s: &[u8]) -> Vec<u8> {
    let mut out = leb(s.len() as u32);
    out.extend(s);
    out
}

fn body(locals: Vec<u8>, code: Vec<u8>) -> Vec<u8> {
    let mut inner = locals;
    inner.extend(code);
    let mut out = leb(inner.len() as u32);
    out.extend(inner);
    out
}

fn module(sections: Vec<Vec<u8>>) -> Vec<u8> {
    let mut out = vec![0x00, 0x61, 0x73, 0x6d, 0x01, 0x00, 0x00, 0x00];
    for s in sections {
        out.extend(s);
    }
    out
}

fn one_function(params: Vec<u8>, results: Vec<u8>, locals: Vec<u8>, code: Vec<u8>) -> Vec<u8> {
    let mut ty = vec![1, 0x60];
    ty.extend(leb(params.len() as u32));
    ty.extend(params);
    ty.extend(leb(results.len() as u32));
    ty.extend(results);
    module(vec![section(1, ty), section(3, vec![1, 0]), section(10, {
        let mut c = vec![1];
        c.extend(body(locals, code));
        c
    })])
}

fn with_memory(code: Vec<u8>) -> Vec<u8> {
    module(vec![
        section(1, vec![1, 0x60, 0, 0]),
        section(3, vec![1, 0]),
        section(5, vec![1, 0, 1]),
        section(10, {
            let mut c = vec![1];
            c.extend(body(vec![0], code));
            c
        }),
    ])
}

fn error_of(bytes: Vec<u8>) -> Option<Error> {
    Module::compile(bytes).err()
}

#[test]
fn header() {
    assert_eq!(error_of(vec![]), Some(Error::Malformed("unexpected end")));
    assert_eq!(error_of(vec![0, 0x61, 0x73]), Some(Error::Malformed("unexpected end")));
    assert_eq!(error_of(vec![1, 0x61, 0x73, 0x6d, 1, 0, 0, 0]), Some(Error::Malformed("magic header not detected")));
    assert_eq!(error_of(vec![0, 0x61, 0x73, 0x6d]), Some(Error::Malformed("unexpected end")));
    assert_eq!(error_of(vec![0, 0x61, 0x73, 0x6d, 1, 0, 0]), Some(Error::Malformed("unexpected end")));
    assert_eq!(error_of(vec![0, 0x61, 0x73, 0x6d, 2, 0, 0, 0]), Some(Error::Malformed("unknown binary version")));
    assert_eq!(error_of(vec![0, 0x61, 0x73, 0x6d, 1, 0, 0, 1]), Some(Error::Malformed("unknown binary version")));
    let empty = Module::compile(module(vec![])).unwrap();
    assert_eq!(empty.types.len(), 0);
    assert_eq!(empty.functions.len(), 0);
    assert!(empty.memory.is_none());
    assert!(empty.table.is_none());
    assert_eq!(empty.start, u32::MAX);
    assert_eq!(empty.bytes, module(vec![]));
}

#[test]
fn section_stream() {
    let ty = section(1, vec![1, 0x60, 0, 0]);
    let func = section(3, vec![0]);
    // out of order
    assert_eq!(error_of(module(vec![func.clone(), ty.clone()])), Some(Error::Malformed("invalid section id")));
    // repeated
    assert_eq!(error_of(module(vec![ty.clone(), ty.clone()])), Some(Error::Malformed("junk after last section")));
    // unknown id
    assert_eq!(error_of(module(vec![ty.clone(), vec![12, 0]])), Some(Error::Malformed("invalid section id")));
    assert_eq!(error_of(module(vec![vec![0x40, 0]])), Some(Error::Malformed("invalid section id")));
    // declared size too large or too small
    assert_eq!(
        error_of(module(vec![vec![1, 5, 1, 0x60, 0, 0]])),
        Some(Error::Malformed("unexpected end of section or function"))
    );
    assert_eq!(error_of(module(vec![vec![1, 5, 1, 0x60, 0, 0, 0]])), Some(Error::Malformed("section size mismatch")));
    assert_eq!(error_of(module(vec![vec![1, 3, 1, 0x60, 0, 0]])), Some(Error::Malformed("section size mismatch")));
    // a section id without a length
    assert_eq!(error_of(module(vec![vec![1]])), Some(Error::Malformed("unexpected end of section or function")));
    // custom sections between and after standard sections
    let custom = section(0, {
        let mut c = name(b"note");
        c.extend(vec![1, 2, 3]);
        c
    });
    let m = Module::compile(module(vec![ty.clone(), custom.clone(), func.clone(), custom.clone(), custom.clone()]));
    assert_eq!(m.unwrap().types.len(), 1);
    // a custom section with a name that is no UTF-8
    let bad = section(0, name(&[0xff, 0xfe]));
    assert_eq!(error_of(module(vec![ty.clone(), bad])), Some(Error::Malformed("invalid UTF-8 encoding")));
    // a custom section whose name overruns it
    assert_eq!(
        error_of(module(vec![ty.clone(), vec![0, 2, 4, b'a', b'b', b'c', b'd']])),
        Some(Error::Malformed("unexpected end of section or function"))
    );
    // a second binary behind the first
    let mut twice = module(vec![ty.clone()]);
    twice.extend(module(vec![]));
    assert_eq!(error_of(twice), Some(Error::Malformed("length out of bounds")));
}

#[test]
fn type_section() {
    assert_eq!(error_of(module(vec![section(1, vec![1, 0x61, 0, 0])])), Some(Error::Malformed("integer representation too long")));
    assert_eq!(error_of(module(vec![section(1, vec![1, 0x60, 1, 0x7b, 0])])), Some(Error::Malformed("invalid value type")));
    assert_eq!(error_of(module(vec![section(1, vec![1, 0x60, 0, 2, 0x7f, 0x7f])])), Some(Error::Validation("invalid result arity")));
    assert_eq!(error_of(module(vec![section(1, vec![1, 0x60, 0, 1, 0x40])])), Some(Error::Malformed("invalid result type")));
    assert_eq!(
        error_of(module(vec![section(1, vec![2, 0x60, 0, 0])])),
        Some(Error::Malformed("unexpected end of section or function"))
    );
    let m = Module::compile(module(vec![section(1, vec![2, 0x60, 2, 0x7f, 0x7c, 1, 0x7e, 0x60, 0, 0])])).unwrap();
    assert_eq!(m.types[0].params, vec![ValType::I32, ValType::F64]);
    assert_eq!(m.types[0].result, Some(ValType::I64));
    assert_eq!(m.types[1].params, vec![]);
    assert_eq!(m.types[1].result, None);
}

fn import(module_name: &[u8], field: &[u8], desc: Vec<u8>) -> Vec<u8> {
    let mut e = name(module_name);
    e.extend(name(field));
    e.extend(desc);
    e
}

fn imports(entries: Vec<Vec<u8>>) -> Vec<u8> {
    let mut c = leb(entries.len() as u32);
    for e in entries {
        c.extend(e);
    }
    section(2, c)
}

#[test]
fn import_section() {
    let ty = section(1, vec![1, 0x60, 0, 0]);
    let m = Module::compile(module(vec![
        ty.clone(),
        imports(vec![
            import(b"env", b"f", vec![0, 0]),
            import(b"env", b"t", vec![1, 0x70, 1, 2, 5]),
            import(b"env", b"m", vec![2, 0, 3]),
            import(b"env", b"g", vec![3, 0x7e, 1]),
        ]),
    ]))
    .unwrap();
    assert_eq!(m.imports.len(), 4);
    assert_eq!(m.imports[0].name.module, "env");
    assert_eq!(m.imports[3].name.field, "g");
    assert_eq!(m.imports[1].kind, ExternType::Table);
    assert_eq!(m.functions.len(), 1);
    assert_eq!(m.functions[0].import.as_ref().unwrap().field, "f");
    assert_eq!((m.functions[0].body_start, m.functions[0].body_end), (0, 0));
    let t = m.table.as_ref().unwrap();
    assert_eq!((t.min, t.max), (2, 5));
    let mem = m.memory.as_ref().unwrap();
    assert_eq!((mem.min, mem.max), (3, 65536));
    assert_eq!(mem.import.as_ref().unwrap().module, "env");
    assert_eq!(m.globals[0].ty, ValType::I64);
    assert!(m.globals[0].is_mutable);

    let fails = |entry: Vec<u8>| error_of(module(vec![ty.clone(), imports(vec![entry])]));
    assert_eq!(fails(import(&[0xc0, 0x80], b"f", vec![0, 0])), Some(Error::Malformed("invalid UTF-8 encoding")));
    assert_eq!(fails(import(b"env", &[0xed, 0xa0, 0x80], vec![0, 0])), Some(Error::Malformed("invalid UTF-8 encoding")));
    assert_eq!(fails(import(b"env", b"f", vec![4, 0])), Some(Error::Malformed("malformed import kind")));
    assert_eq!(fails(import(b"env", b"f", vec![0, 1])), Some(Error::Validation("unknown type")));
    assert_eq!(fails(import(b"env", b"t", vec![1, 0x6f, 0, 1])), Some(Error::Malformed("malformed reference type")));
    assert_eq!(fails(import(b"env", b"t", vec![1, 0x70, 1, 2, 1])), Some(Error::Validation("size minimum must not be greater than maximum")));
    assert_eq!(fails(import(b"env", b"t", vec![1, 0x70, 2, 1])), Some(Error::Malformed("integer too large")));
    assert_eq!(
        fails(import(b"env", b"m", vec![2, 0, 0x81, 0x80, 0x04])),
        Some(Error::Validation("memory size must be at most 65536 pages (4GiB)"))
    );
    assert_eq!(
        fails(import(b"env", b"m", vec![2, 1, 0, 0x81, 0x80, 0x04])),
        Some(Error::Validation("memory size must be at most 65536 pages (4GiB)"))
    );
    assert_eq!(fails(import(b"env", b"g", vec![3, 0x7b, 0])), Some(Error::Malformed("invalid global type")));
    assert_eq!(fails(import(b"env", b"g", vec![3, 0x7f, 2])), Some(Error::Malformed("invalid mutability")));
    assert_eq!(
        error_of(module(vec![imports(vec![import(b"e", b"a", vec![2, 0, 1]), import(b"e", b"b", vec![2, 0, 1])])])),
        Some(Error::Validation("multiple memories"))
    );
    assert_eq!(
        error_of(module(vec![imports(vec![import(b"e", b"a", vec![1, 0x70, 0, 1]), import(b"e", b"b", vec![1, 0x70, 0, 1])])])),
        Some(Error::Validation("multiple tables"))
    );
}

#[test]
fn tables_and_memories() {
    assert_eq!(error_of(module(vec![section(4, vec![2, 0x70, 0, 1, 0x70, 0, 1])])), Some(Error::Validation("multiple tables")));
    assert_eq!(error_of(module(vec![section(5, vec![2, 0, 1, 0, 1])])), Some(Error::Validation("multiple memories")));
    assert_eq!(
        error_of(module(vec![imports(vec![import(b"e", b"m", vec![2, 0, 1])]), section(5, vec![1, 0, 1])])),
        Some(Error::Validation("multiple memories"))
    );
    assert_eq!(
        error_of(module(vec![imports(vec![import(b"e", b"t", vec![1, 0x70, 0, 1])]), section(4, vec![1, 0x70, 0, 1])])),
        Some(Error::Validation("multiple tables"))
    );
    assert_eq!(error_of(module(vec![section(4, vec![1, 0x6f, 0, 1])])), Some(Error::Validation("invalid table element type")));
    assert_eq!(error_of(module(vec![section(5, vec![1, 1, 2, 1])])), Some(Error::Validation("size minimum must not be greater than maximum")));
    let m = Module::compile(module(vec![section(4, vec![1, 0x70, 0, 7]), section(5, vec![1, 1, 1, 2])])).unwrap();
    assert_eq!((m.table.as_ref().unwrap().min, m.table.as_ref().unwrap().max), (7, u32::MAX));
    assert_eq!((m.memory.as_ref().unwrap().min, m.memory.as_ref().unwrap().max), (1, 2));
    let none = Module::compile(module(vec![section(4, vec![0]), section(5, vec![0])])).unwrap();
    assert!(none.table.is_none() && none.memory.is_none());
}

#[test]
fn globals_and_constant_expressions() {
    let global = |ty: u8, init: Vec<u8>| {
        let mut c = vec![1, ty, 0];
        c.extend(init);
        error_of(module(vec![section(6, c)]))
    };
    assert_eq!(global(0x7f, vec![0x41, 5, 0x0b]), None);
    assert_eq!(global(0x7e, vec![0x42, 0x7f, 0x0b]), None);
    assert_eq!(global(0x7d, vec![0x43, 0, 0, 0, 0, 0x0b]), None);
    assert_eq!(global(0x7c, vec![0x44, 0, 0, 0, 0, 0, 0, 0, 0, 0x0b]), None);
    assert_eq!(global(0x7f, vec![0x41, 1, 0x41, 2, 0x6a, 0x0b]), None);
    assert_eq!(global(0x7e, vec![0x42, 1, 0x42, 2, 0x7e, 0x0b]), None);
    assert_eq!(global(0x7f, vec![0x42, 5, 0x0b]), Some(Error::Validation("type mismatch")));
    assert_eq!(global(0x7f, vec![0x0b]), Some(Error::Validation("type mismatch")));
    assert_eq!(global(0x7f, vec![0x41, 1, 0x41, 2, 0x0b]), Some(Error::Validation("type mismatch")));
    assert_eq!(global(0x7f, vec![0x41, 1, 0x6a, 0x0b]), Some(Error::Validation("type mismatch")));
    assert_eq!(global(0x7f, vec![0x41, 1, 0x42, 1, 0x6a, 0x0b]), Some(Error::Validation("type mismatch")));
    assert_eq!(global(0x7e, vec![0x42, 1, 0x7a, 0x0b]), Some(Error::Validation("constant expression required")));
    assert_eq!(global(0x7f, vec![0x41, 1, 0x45, 0x0b]), Some(Error::Validation("constant expression required")));
    assert_eq!(global(0x7f, vec![0x01, 0x0b]), Some(Error::Validation("constant expression required")));
    assert_eq!(global(0x7f, vec![0x06, 0x0b]), Some(Error::Malformed("illegal opcode")));
    assert_eq!(global(0x7f, vec![0xc0, 0x0b]), Some(Error::Malformed("illegal opcode")));
    assert_eq!(global(0x7f, vec![0x23, 0, 0x0b]), Some(Error::Validation("unknown global")));
    assert_eq!(global(0x7f, vec![0x41, 5]), Some(Error::Malformed("unexpected end of section or function")));
    assert_eq!(global(0x7d, vec![0x43, 0, 0]), Some(Error::Malformed("unexpected end of section or function")));
    assert_eq!(global(0x7a, vec![0x41, 5, 0x0b]), Some(Error::Malformed("invalid global type")));
    assert_eq!(error_of(module(vec![section(6, vec![1, 0x7f, 3, 0x41, 5, 0x0b])])), Some(Error::Malformed("invalid mutability")));
    // global.get of an imported immutable global
    let imported = |mutable: u8| {
        error_of(module(vec![
            imports(vec![import(b"e", b"g", vec![3, 0x7f, mutable])]),
            section(6, vec![1, 0x7f, 0, 0x23, 0, 0x0b]),
        ]))
    };
    assert_eq!(imported(0), None);
    assert_eq!(imported(1), Some(Error::Validation("constant expression required")));
    let m = Module::compile(module(vec![section(6, vec![2, 0x7f, 1, 0x41, 5, 0x0b, 0x7e, 0, 0x42, 1, 0x0b])])).unwrap();
    assert_eq!(m.globals.len(), 2);
    assert_eq!(m.globals[0].initializer_offset, 13);
    assert!(m.globals[0].is_mutable);
    assert_eq!(m.globals[1].initializer_offset, 18);
    assert_eq!(m.globals[1].ty, ValType::I64);
}

#[test]
fn exports_and_start() {
    let ty = section(1, vec![2, 0x60, 0, 0, 0x60, 1, 0x7f, 0]);
    let funcs = section(3, vec![2, 0, 1]);
    let code = section(10, {
        let mut c = vec![2];
        c.extend(body(vec![0], vec![0x0b]));
        c.extend(body(vec![0], vec![0x0b]));
        c
    });
    let export = |entries: Vec<Vec<u8>>| {
        let mut c = leb(entries.len() as u32);
        for e in entries {
            c.extend(e);
        }
        error_of(module(vec![ty.clone(), funcs.clone(), section(5, vec![1, 0, 1]), section(7, c), code.clone()]))
    };
    let entry = |n: &[u8], kind: u8, idx: u8| {
        let mut e = name(n);
        e.push(kind);
        e.push(idx);
        e
    };
    assert_eq!(export(vec![entry(b"a", 0, 0), entry(b"b", 0, 1), entry(b"m", 2, 0)]), None);
    assert_eq!(export(vec![entry(b"a", 0, 0), entry(b"a", 2, 0)]), Some(Error::Validation("duplicate export name")));
    assert_eq!(export(vec![entry(b"a", 0, 2)]), Some(Error::Validation("unknown function")));
    assert_eq!(export(vec![entry(b"a", 1, 0)]), Some(Error::Validation("unknown table")));
    assert_eq!(export(vec![entry(b"a", 2, 1)]), Some(Error::Validation("unknown memory")));
    assert_eq!(export(vec![entry(b"a", 3, 0)]), Some(Error::Validation("unknown global")));
    assert_eq!(export(vec![entry(b"a", 4, 0)]), Some(Error::Validation("invalid export description")));
    assert_eq!(export(vec![entry(&[0xff], 0, 0)]), Some(Error::Malformed("invalid UTF-8 encoding")));
    let start = |idx: u8| error_of(module(vec![ty.clone(), funcs.clone(), section(8, vec![idx]), code.clone()]));
    assert_eq!(start(0), None);
    assert_eq!(start(1), Some(Error::Validation("start function")));
    assert_eq!(start(2), Some(Error::Validation("unknown function")));
    let m = Module::compile(module(vec![ty.clone(), funcs.clone(), section(8, vec![0]), code.clone()])).unwrap();
    assert_eq!(m.start, 0);
    assert!(!m.functions[0].is_declared);
}

#[test]
fn element_and_data_sections() {
    let ty = section(1, vec![1, 0x60, 0, 0]);
    let funcs = section(3, vec![1, 0]);
    let code = section(10, {
        let mut c = vec![1];
        c.extend(body(vec![0], vec![0x0b]));
        c
    });
    let table = section(4, vec![1, 0x70, 0, 2]);
    let memory = section(5, vec![1, 0, 1]);
    let elem = |c: Vec<u8>, with_table: bool| {
        let mut s = vec![ty.clone(), funcs.clone()];
        if with_table {
            s.push(table.clone());
        }
        s.push(section(9, c));
        s.push(code.clone());
        Module::compile(module(s))
    };
    let ok = elem(vec![1, 0, 0x41, 1, 0x0b, 1, 0], true).unwrap();
    assert_eq!(ok.element_count, 1);
    assert!(ok.functions[0].is_declared);
    assert_eq!(ok.bytes[ok.element_start], 0);
    assert_eq!(elem(vec![1, 0, 0x41, 1, 0x0b, 1, 0], false).err(), Some(Error::Validation("unknown table")));
    assert_eq!(elem(vec![1, 1, 0x41, 1, 0x0b, 1, 0], true).err(), Some(Error::Malformed("invalid value type")));
    assert_eq!(elem(vec![1, 0, 0x41, 1, 0x0b, 1, 1], true).err(), Some(Error::Validation("unknown function")));
    assert_eq!(elem(vec![1, 0, 0x42, 1, 0x0b, 1, 0], true).err(), Some(Error::Validation("type mismatch")));
    let data = |c: Vec<u8>, with_memory: bool| {
        let mut s = vec![];
        if with_memory {
            s.push(memory.clone());
        }
        s.push(section(11, c));
        Module::compile(module(s))
    };
    let ok = data(vec![2, 0, 0x41, 0, 0x0b, 3, 7, 8, 9, 0, 0x41, 9, 0x0b, 0], true).unwrap();
    assert_eq!(ok.data_segments.len(), 2);
    assert_eq!(ok.n_data, 2);
    let seg = ok.data_segments[0];
    assert_eq!(&ok.bytes[seg.data_start..seg.data_end], &[7, 8, 9]);
    assert_eq!(ok.bytes[seg.initializer_offset], 0x41);
    assert_eq!(ok.data_segments[1].data_start, ok.data_segments[1].data_end);
    assert_eq!(data(vec![1, 0, 0x41, 0, 0x0b, 0], false).err(), Some(Error::Validation("unknown memory")));
    assert_eq!(data(vec![1, 1, 0x41, 0, 0x0b, 0], true).err(), Some(Error::Validation("invalid data segment flag")));
    assert_eq!(
        data(vec![1, 0, 0x41, 0, 0x0b, 5, 1], true).err(),
        Some(Error::Malformed("unexpected end of section or function"))
    );
}

#[test]
fn code_section() {
    let ty = section(1, vec![1, 0x60, 0, 0]);
    assert_eq!(
        error_of(module(vec![ty.clone(), section(3, vec![1, 0])])),
        Some(Error::Malformed("function and code section have inconsistent lengths"))
    );
    assert_eq!(
        error_of(module(vec![ty.clone(), section(3, vec![1, 0]), section(10, vec![0])])),
        Some(Error::Malformed("function and code section have inconsistent lengths"))
    );
    assert_eq!(
        error_of(module(vec![ty.clone(), section(10, vec![1, 2, 0, 0x0b])])),
        Some(Error::Malformed("function and code section have inconsistent lengths"))
    );
    assert_eq!(error_of(module(vec![ty.clone(), section(3, vec![1, 1])])), Some(Error::Validation("unknown type")));
    let code = |entry: Vec<u8>| {
        let mut c = vec![1];
        c.extend(entry);
        error_of(module(vec![ty.clone(), section(3, vec![1, 0]), section(10, c)]))
    };
    assert_eq!(code(body(vec![0], vec![0x0b])), None);
    assert_eq!(code(body(vec![1, 2, 0x7f], vec![0x0b])), None);
    assert_eq!(code(body(vec![1, 2, 0x7b], vec![0x0b])), Some(Error::Validation("invalid local type")));
    assert_eq!(code(body(vec![1, 0xd1, 0x86, 0x03, 0x7f], vec![0x0b])), Some(Error::Malformed("too many locals")));
    assert_eq!(code(body(vec![1, 0xd0, 0x86, 0x03, 0x7f], vec![0x0b])), None);
    assert_eq!(code(body(vec![2, 0xd0, 0x86, 0x03, 0x7f, 1, 0x7e], vec![0x0b])), Some(Error::Malformed("too many locals")));
    assert_eq!(code(vec![3, 0, 0x0b]), Some(Error::Malformed("unexpected end of section or function")));
    assert_eq!(code(vec![3, 0, 0x0b, 0x0b]), Some(Error::Malformed("section size mismatch")));
    assert_eq!(code(vec![1, 0, 0x0b]), Some(Error::Malformed("section size mismatch")));
    assert_eq!(code(vec![0, 0, 0x0b]), Some(Error::Malformed("unexpected end of section or function")));
    assert_eq!(code(body(vec![0], vec![0x01, 0x01])), Some(Error::Malformed("unexpected end of section or function")));
    assert_eq!(code(body(vec![0], vec![0x06, 0x0b])), Some(Error::Malformed("unknown instruction")));
    assert_eq!(code(body(vec![0], vec![0xc0, 0x0b])), Some(Error::Malformed("unknown instruction")));
}

#[test]
fn function_bodies() {
    let f = |code: Vec<u8>| error_of(one_function(vec![0x7f], vec![0x7f], vec![1, 1, 0x7e], code));
    assert_eq!(f(vec![0x20, 0, 0x0b]), None);
    assert_eq!(f(vec![0x20, 1, 0x0b]), Some(Error::Validation("type mismatch")));
    assert_eq!(f(vec![0x20, 2, 0x0b]), Some(Error::Validation("unknown local")));
    assert_eq!(f(vec![0x21, 2, 0x0b]), Some(Error::Validation("unknown local")));
    assert_eq!(f(vec![0x22, 2, 0x0b]), Some(Error::Validation("unknown local")));
    assert_eq!(f(vec![0x0b]), Some(Error::Validation("type mismatch")));
    assert_eq!(f(vec![0x41, 1, 0x41, 2, 0x0b]), Some(Error::Validation("type mismatch")));
    assert_eq!(f(vec![0x42, 0, 0x21, 1, 0x20, 0, 0x22, 0, 0x0b]), None);
    assert_eq!(f(vec![0x41, 0, 0x21, 1, 0x20, 0, 0x0b]), Some(Error::Validation("type mismatch")));
    assert_eq!(f(vec![0x1a, 0x20, 0, 0x0b]), Some(Error::Validation("type mismatch")));
    assert_eq!(f(vec![0x20, 0, 0x20, 0, 0x20, 0, 0x1b, 0x0b]), None);
    assert_eq!(f(vec![0x20, 0, 0x20, 1, 0x20, 0, 0x1b, 0x0b]), Some(Error::Validation("type mismatch")));
    assert_eq!(f(vec![0x23, 0, 0x0b]), Some(Error::Validation("unknown global")));
    assert_eq!(f(vec![0x24, 0, 0x0b]), Some(Error::Validation("unknown global")));
    assert_eq!(f(vec![0x10, 0, 0x0b]), Some(Error::Validation("type mismatch")));
    assert_eq!(f(vec![0x20, 0, 0x10, 0, 0x0b]), None);
    assert_eq!(f(vec![0x10, 1, 0x0b]), Some(Error::Validation("unknown function")));
    assert_eq!(f(vec![0x20, 0, 0x11, 0, 0, 0x0b]), Some(Error::Validation("unknown table")));
    assert_eq!(f(vec![0x20, 0, 0x11, 1, 0, 0x0b]), Some(Error::Validation("unknown type")));
    assert_eq!(f(vec![0x20, 0, 0x11, 0, 1, 0x0b]), Some(Error::Malformed("zero flag expected")));
    assert_eq!(f(vec![0x3f, 0, 0x0b]), Some(Error::Validation("unknown memory")));
    assert_eq!(f(vec![0x3f, 1, 0x0b]), Some(Error::Malformed("zero flag expected")));
    assert_eq!(f(vec![0x20, 0, 0x28, 2, 0, 0x0b]), Some(Error::Validation("unknown memory")));
    assert_eq!(f(vec![0x20, 0, 0x45, 0x0b]), None);
    assert_eq!(f(vec![0x20, 1, 0x50, 0x0b]), None);
    assert_eq!(f(vec![0x20, 1, 0xa7, 0x0b]), None);
    assert_eq!(f(vec![0x20, 0, 0xb2, 0xbc, 0x0b]), None);
    assert_eq!(f(vec![0x20, 0, 0xb7, 0xbd, 0xa7, 0x0b]), None);
    assert_eq!(f(vec![0x20, 0, 0xbd, 0x0b]), Some(Error::Validation("type mismatch")));
    assert_eq!(f(vec![0x43, 0, 0, 0x0b]), Some(Error::Malformed("unexpected end of section or function")));
    assert_eq!(f(vec![0x41, 0x80, 0x80, 0x80, 0x80, 0x10, 0x0b]), Some(Error::Malformed("integer too large")));
    assert_eq!(f(vec![0x42, 0x80, 0x80, 0x80, 0x80, 0x80, 0x80, 0x80, 0x80, 0x80, 0x80, 0, 0x0b]), Some(Error::Malformed("integer representation too long")));
}

#[test]
fn globals_in_function_bodies() {
    let build = |code: Vec<u8>| {
        error_of(module(vec![
            section(1, vec![1, 0x60, 0, 0]),
            section(3, vec![1, 0]),
            section(6, vec![2, 0x7f, 0, 0x41, 1, 0x0b, 0x7e, 1, 0x42, 1, 0x0b]),
            section(10, {
                let mut c = vec![1];
                c.extend(body(vec![0], code));
                c
            }),
        ]))
    };
    assert_eq!(build(vec![0x23, 0, 0x1a, 0x0b]), None);
    assert_eq!(build(vec![0x42, 0, 0x24, 1, 0x0b]), None);
    assert_eq!(build(vec![0x41, 0, 0x24, 0, 0x0b]), Some(Error::Validation("global is immutable")));
    assert_eq!(build(vec![0x41, 0, 0x24, 1, 0x0b]), Some(Error::Validation("type mismatch")));
    assert_eq!(build(vec![0x23, 2, 0x1a, 0x0b]), Some(Error::Validation("unknown global")));
}

#[test]
fn memory_instructions() {
    assert_eq!(error_of(with_memory(vec![0x41, 0, 0x28, 2, 0, 0x1a, 0x0b])), None);
    assert_eq!(error_of(with_memory(vec![0x41, 0, 0x28, 3, 0, 0x1a, 0x0b])), Some(Error::Validation("alignment must not be larger than natural")));
    assert_eq!(error_of(with_memory(vec![0x41, 0, 0x2d, 1, 0, 0x1a, 0x0b])), Some(Error::Validation("alignment must not be larger than natural")));
    assert_eq!(error_of(with_memory(vec![0x41, 0, 0x29, 3, 0, 0x1a, 0x0b])), None);
    assert_eq!(error_of(with_memory(vec![0x41, 0, 0x29, 4, 0, 0x1a, 0x0b])), Some(Error::Validation("alignment must not be larger than natural")));
    assert_eq!(error_of(with_memory(vec![0x41, 0, 0x28, 32, 0, 0x1a, 0x0b])), Some(Error::Malformed("integer too large")));
    assert_eq!(error_of(with_memory(vec![0x41, 0, 0x41, 1, 0x36, 2, 0, 0x0b])), None);
    assert_eq!(error_of(with_memory(vec![0x41, 0, 0x42, 1, 0x36, 2, 0, 0x0b])), Some(Error::Validation("type mismatch")));
    assert_eq!(error_of(with_memory(vec![0x41, 0, 0x42, 1, 0x3e, 2, 0, 0x0b])), None);
    assert_eq!(error_of(with_memory(vec![0x41, 0, 0x42, 1, 0x3e, 3, 0, 0x0b])), Some(Error::Validation("alignment must not be larger than natural")));
    assert_eq!(error_of(with_memory(vec![0x41, 0, 0x43, 0, 0, 0, 0, 0x38, 2, 0, 0x0b])), None);
    assert_eq!(error_of(with_memory(vec![0x3f, 0, 0x40, 0, 0x1a, 0x0b])), None);
    assert_eq!(error_of(with_memory(vec![0x40, 0, 0x1a, 0x0b])), Some(Error::Validation("type mismatch")));
}

#[test]
fn structured_control() {
    let f = |code: Vec<u8>| error_of(one_function(vec![0x7f], vec![0x7f], vec![0], code));
    assert_eq!(f(vec![0x02, 0x7f, 0x20, 0, 0x0b, 0x0b]), None);
    assert_eq!(f(vec![0x02, 0x7f, 0x0b, 0x0b]), Some(Error::Validation("type mismatch")));
    assert_eq!(f(vec![0x02, 0x40, 0x20, 0, 0x0b, 0x20, 0, 0x0b]), Some(Error::Validation("type mismatch")));
    assert_eq!(f(vec![0x02, 0x7e, 0x20, 0, 0x0b, 0x0b]), Some(Error::Validation("type mismatch")));
    assert_eq!(f(vec![0x20, 0, 0x04, 0x7f, 0x41, 1, 0x05, 0x41, 2, 0x0b, 0x0b]), None);
    assert_eq!(f(vec![0x20, 0, 0x04, 0x7f, 0x41, 1, 0x0b, 0x0b]), Some(Error::Validation("type mismatch")));
    assert_eq!(f(vec![0x20, 0, 0x04, 0x40, 0x0b, 0x20, 0, 0x0b]), None);
    assert_eq!(f(vec![0x04, 0x40, 0x0b, 0x20, 0, 0x0b]), Some(Error::Validation("type mismatch")));
    assert_eq!(f(vec![0x05, 0x20, 0, 0x0b]), Some(Error::Validation("else must close an if")));
    assert_eq!(f(vec![0x02, 0x40, 0x05, 0x0b, 0x20, 0, 0x0b]), Some(Error::Validation("else must close an if")));
    assert_eq!(f(vec![0x20, 0, 0x04, 0x40, 0x05, 0x05, 0x0b, 0x20, 0, 0x0b]), Some(Error::Validation("else must close an if")));
    assert_eq!(f(vec![0x03, 0x40, 0x0c, 0, 0x0b, 0x20, 0, 0x0b]), None);
    assert_eq!(f(vec![0x20, 0, 0x0c, 0, 0x0b]), None);
    assert_eq!(f(vec![0x0c, 0, 0x0b]), Some(Error::Validation("type mismatch")));
    assert_eq!(f(vec![0x20, 0, 0x0c, 1, 0x0b]), Some(Error::Validation("unknown label")));
    assert_eq!(f(vec![0x02, 0x40, 0x20, 0, 0x0c, 1, 0x0b, 0x20, 0, 0x0b]), None);
    assert_eq!(f(vec![0x20, 0, 0x20, 0, 0x0d, 0, 0x0b]), None);
    assert_eq!(f(vec![0x20, 0, 0x0d, 0, 0x20, 0, 0x0b]), Some(Error::Validation("type mismatch")));
    assert_eq!(f(vec![0x20, 0, 0x0d, 2, 0x0b]), Some(Error::Validation("unknown label")));
    assert_eq!(f(vec![0x20, 0, 0x0f, 0x0b]), None);
    assert_eq!(f(vec![0x0f, 0x0b]), Some(Error::Validation("type mismatch")));
    assert_eq!(f(vec![0x00, 0x0b]), None);
    assert_eq!(f(vec![0x00, 0x1a, 0x45, 0x0b]), None);
    assert_eq!(f(vec![0x00, 0x42, 0, 0x0b]), Some(Error::Validation("type mismatch")));
    assert_eq!(f(vec![0x02, 0x7f, 0x20, 0, 0x20, 0, 0x0e, 1, 0, 1, 0x0b, 0x0b]), None);
    assert_eq!(f(vec![0x02, 0x40, 0x20, 0, 0x0e, 1, 0, 1, 0x0b, 0x20, 0, 0x0b]), Some(Error::Validation("type mismatch")));
    assert_eq!(f(vec![0x20, 0, 0x20, 0, 0x0e, 1, 0, 5, 0x0b]), Some(Error::Validation("unknown label")));
    assert_eq!(f(vec![0x20, 0, 0x20, 0, 0x0e, 0, 0x0b]), Some(Error::Malformed("unexpected end of section or function")));
    assert_eq!(f(vec![0x02, 0x01, 0x0b, 0x20, 0, 0x0b]), Some(Error::Malformed("invalid value type")));
}

#[test]
fn branches_in_unreachable_code() {
    let f = |code: Vec<u8>| error_of(one_function(vec![0x7f], vec![0x7f], vec![0], code));
    // the same branch from a reachable and from an unreachable place
    assert_eq!(f(vec![0x02, 0x7f, 0x20, 0, 0x0c, 0, 0x0b, 0x0b]), None);
    assert_eq!(f(vec![0x02, 0x7f, 0x00, 0x0c, 0, 0x0b, 0x0b]), None);
    assert_eq!(f(vec![0x02, 0x7f, 0x20, 0, 0x0c, 0, 0x0c, 0, 0x0b, 0x0b]), None);
    assert_eq!(f(vec![0x02, 0x7f, 0x00, 0x20, 0, 0x0c, 0, 0x0b, 0x0b]), None);
    assert_eq!(f(vec![0x02, 0x7f, 0x00, 0x42, 0, 0x0c, 0, 0x0b, 0x0b]), Some(Error::Validation("type mismatch")));
    assert_eq!(f(vec![0x02, 0x7f, 0x42, 0, 0x0c, 0, 0x0b, 0x0b]), Some(Error::Validation("type mismatch")));
}

#[test]
fn other_branches_in_unreachable_code() {
    let f = |code: Vec<u8>| error_of(one_function(vec![0x7f], vec![0x7f], vec![0], code));
    // br_if: with its operands, and with none behind `unreachable`
    assert_eq!(f(vec![0x02, 0x7f, 0x20, 0, 0x20, 0, 0x0d, 0, 0x0b, 0x0b]), None);
    assert_eq!(f(vec![0x02, 0x7f, 0x00, 0x0d, 0, 0x0b, 0x0b]), None);
    assert_eq!(f(vec![0x02, 0x7f, 0x00, 0x20, 0, 0x0d, 0, 0x0b, 0x0b]), None);
    assert_eq!(f(vec![0x02, 0x7f, 0x00, 0x42, 0, 0x0d, 0, 0x0b, 0x0b]), Some(Error::Validation("type mismatch")));
    assert_eq!(f(vec![0x02, 0x7f, 0x0d, 0, 0x0b, 0x0b]), Some(Error::Validation("type mismatch")));
    // br_table
    assert_eq!(f(vec![0x02, 0x7f, 0x20, 0, 0x20, 0, 0x0e, 1, 0, 1, 0x0b, 0x0b]), None);
    assert_eq!(f(vec![0x02, 0x7f, 0x00, 0x0e, 1, 0, 1, 0x0b, 0x0b]), None);
    assert_eq!(f(vec![0x02, 0x7f, 0x00, 0x0e, 1, 0, 2, 0x0b, 0x0b]), Some(Error::Validation("unknown label")));
    assert_eq!(f(vec![0x02, 0x7f, 0x20, 0, 0x20, 0, 0x0e, 1, 0, 2, 0x0b, 0x0b]), Some(Error::Validation("unknown label")));
    assert_eq!(f(vec![0x02, 0x7f, 0x0e, 1, 0, 1, 0x0b, 0x0b]), Some(Error::Validation("type mismatch")));
    // return
    assert_eq!(f(vec![0x02, 0x40, 0x20, 0, 0x0f, 0x0b, 0x20, 0, 0x0b]), None);
    assert_eq!(f(vec![0x02, 0x40, 0x00, 0x0f, 0x0b, 0x20, 0, 0x0b]), None);
    assert_eq!(f(vec![0x02, 0x40, 0x00, 0x42, 0, 0x0f, 0x0b, 0x20, 0, 0x0b]), Some(Error::Validation("type mismatch")));
    assert_eq!(f(vec![0x02, 0x40, 0x0f, 0x0b, 0x20, 0, 0x0b]), Some(Error::Validation("type mismatch")));
}

#[test]
fn side_table_entries() {
    // header 8 bytes, type section 8, function section 4, then 5 bytes up to the first instruction
    let code = vec![
        0x02, 0x40, // block at 25, block type at 26, body at 27
        0x20, 0, 0x04, 0x7f, // if at 29, block type at 30, body at 31
        0x41, 1, 0x05, // else at 33, else branch at 34
        0x41, 2, 0x0b, // end at 36
        0x1a, 0x03, 0x40, // loop at 38, block type at 39, body at 40
        0x0b, 0x0b, // end of loop at 40, end of block at 41
        0x20, 0, 0x04, 0x40, 0x0b, // if at 44, block type at 45, end at 46
        0x20, 0, 0x0b,
    ];
    let mut m = Module::compile(one_function(vec![0x7f], vec![0x7f], vec![0], code)).unwrap();
    assert_eq!(m.functions[0].body_start, 25);
    let block = m.side_table.lookup(25).unwrap();
    assert_eq!((block.body_pc, block.end_pc, block.else_pc), (27, 42, 42));
    assert_eq!((block.params_len, block.has_result), (0, false));
    let cond = m.side_table.lookup(29).unwrap();
    assert_eq!((cond.body_pc, cond.end_pc, cond.else_pc), (31, 37, 34));
    assert_eq!((cond.params_len, cond.has_result), (0, true));
    assert_eq!(cond.if_jump().else_offset, 34);
    assert_eq!(cond.if_jump().end_offset, 37);
    let lp = m.side_table.lookup(38).unwrap();
    assert_eq!((lp.body_pc, lp.end_pc, lp.else_pc), (40, 41, 41));
    let plain = m.side_table.lookup(44).unwrap();
    assert_eq!((plain.body_pc, plain.end_pc, plain.else_pc), (46, 47, 47));
    // the entries stand under the opcodes, not under what follows them
    assert!(m.side_table.lookup(24).is_none());
    assert!(m.side_table.lookup(26).is_none());
    assert!(m.side_table.lookup(27).is_none());
    // validating again writes the same entries
    assert_eq!(Validator::new(&mut m).validate_function(0), Ok(()));
    assert_eq!(m.side_table.lookup(29), Some(cond));
    assert_eq!(m.validate_function(0), Ok(()));
    assert_eq!(m.side_table.lookup(25), Some(block));
}

#[test]
fn compile_is_a_function_of_the_bytes() {
    let bytes = one_function(vec![0x7f], vec![0x7f], vec![1, 1, 0x7f], vec![0x02, 0x7f, 0x20, 0, 0x0b, 0x0b]);
    let a = Module::compile(bytes.clone()).unwrap();
    let b = Module::compile(bytes.clone()).unwrap();
    assert_eq!(a.types, b.types);
    assert_eq!(a.functions.len(), b.functions.len());
    assert_eq!(a.functions[0].locals, b.functions[0].locals);
    assert_eq!((a.functions[0].body_start, a.functions[0].body_end), (b.functions[0].body_start, b.functions[0].body_end));
    assert_eq!(a.side_table.lookup(27), b.side_table.lookup(27));
    assert!(a.side_table.lookup(27).is_some());
    let mut broken = bytes.clone();
    let last = broken.len() - 1;
    broken[last] = 0x01;
    assert_eq!(Module::compile(broken.clone()).err(), Module::compile(broken).err());
}

#[test]
fn utf8() {
    assert!(is_utf8(b""));
    assert!(is_utf8(b"plain"));
    assert!(is_utf8("gr\u{fc}\u{df}e \u{1f600}".as_bytes()));
    assert!(!is_utf8(&[0x80]));
    assert!(!is_utf8(&[0xc0, 0x80]));
    assert!(!is_utf8(&[0xed, 0xa0, 0x80]));
    assert!(!is_utf8(&[0xe2, 0x82]));
    assert!(!is_utf8(&[0xf4, 0x90, 0x80, 0x80]));
    let mut export = vec![1];
    export.extend(name("gr\u{fc}\u{df}e".as_bytes()));
    export.extend(vec![2, 0]);
    let m = Module::compile(module(vec![section(5, vec![1, 0, 1]), section(7, export)])).unwrap();
    assert_eq!(m.exports[0].name, "gr\u{fc}\u{df}e");
}
