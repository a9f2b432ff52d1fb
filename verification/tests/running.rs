use std::rc::Rc;
use wagmi::error::Error;
use wagmi::instance::{ExportValue, ImportItem, Instance, RuntimeFunction, WasmGlobal};
use wagmi::interpreter::Machine;
use wagmi::module::Module;
use wagmi::semantics::Signal;
use wagmi::signature::ValType;
use wagmi::store::Store;
use wagmi::value::WasmValue;
use wagmi::wasm_memory::WasmMemory;

fn leb(mut v: u32) -> Vec<u8> {
    let mut out = Vec::new();
    loop {
        let b = (v & 0x7f) as u8;
        v >>= 7;
        if v == 0 {
            out.push(b);
            return out;
        }
        out.push(b | 0x80);
    }
}

fn section(id: u8, content: Vec<u8>) -> Vec<u8> {
    let mut out = vec![id];
    out.extend(leb(content.len() as u32));
    out.extend(content);
    out
}

fn name(s: &str) -> Vec<u8> {
    let mut out = leb(s.len() as u32);
    out.extend(s.as_bytes());
    out
}

fn module(sections: Vec<Vec<u8>>) -> Vec<u8> {
    let mut out = vec![0x00, 0x61, 0x73, 0x6d, 0x01, 0x00, 0x00, 0x00];
    for s in sections {
        out.extend(s);
    }
    out
}

fn list(entries: Vec<Vec<u8>>) -> Vec<u8> {
    let mut out = leb(entries.len() as u32);
    for e in entries {
        out.extend(e);
    }
    out
}

fn func_type(params: &[u8], results: &[u8]) -> Vec<u8> {
    let mut t = vec![0x60];
    t.extend(leb(params.len() as u32));
    t.extend(params);
    t.extend(leb(results.len() as u32));
    t.extend(results);
    t
}

fn export(n: &str, kind: u8, idx: u8) -> Vec<u8> {
    let mut e = name(n);
    e.push(kind);
    e.push(idx);
    e
}

fn import(m: &str, f: &str, desc: Vec<u8>) -> Vec<u8> {
    let mut e = name(m);
    e.extend(name(f));
    e.extend(desc);
    e
}

fn body(locals: Vec<u8>, code: Vec<u8>) -> Vec<u8> {
    let mut inner = locals;
    inner.extend(code);
    let mut out = leb(inner.len() as u32);
    out.extend(inner);
    out
}

/// A module with one exported function `f` and, on demand, a memory of one to two pages.
fn single(params: &[u8], results: &[u8], locals: Vec<u8>, code: Vec<u8>, memory: bool) -> Vec<u8> {
    let mut s = vec![section(1, list(vec![func_type(params, results)])), section(3, vec![1, 0])];
    if memory {
        s.push(section(5, vec![1, 1, 1, 2]));
    }
    s.push(section(7, list(vec![export("f", 0, 0)])));
    s.push(section(10, list(vec![body(locals, code)])));
    module(s)
}

fn item(m: &str, f: &str, value: ExportValue) -> ImportItem {
    ImportItem { module: m.to_string(), field: f.to_string(), value }
}

fn drive(store: &mut Store, m: &mut Machine) -> Signal {
    loop {
        match m.run(store, 10_000) {
            Signal::Continue => continue,
            other => return other,
        }
    }
}

fn instantiate(store: &mut Store, bytes: Vec<u8>, imports: &Vec<ImportItem>) -> Result<u32, Error> {
    let m = Rc::new(Module::compile(bytes)?);
    let out = Instance::instantiate(store, m, imports)?;
    match out.start {
        None => {}
        Some(mut machine) => {
            let signal = drive(store, &mut machine);
            store.finish_start(out.id, signal)?;
        }
    }
    Ok(out.id)
}

fn exported(store: &Store, id: u32, n: &str) -> ExportValue {
    store.manager.get_instance(id).unwrap().export(n).unwrap()
}

fn function(store: &Store, id: u32, n: &str) -> RuntimeFunction {
    match exported(store, id, n) {
        ExportValue::Function(f) => f,
        _ => panic!("no function {}", n),
    }
}

fn call(store: &mut Store, id: u32, n: &str, args: &[WasmValue]) -> Result<Vec<WasmValue>, Error> {
    let f = function(store, id, n);
    let mut m = Instance::invoke(store, id, &f, args, 0);
    match drive(store, &mut m) {
        Signal::Finished | Signal::Failed(_) => m.outcome(&f).unwrap(),
        other => panic!("unexpected signal {:?}", other),
    }
}

fn run1(code: Vec<u8>, params: &[u8], results: &[u8], args: &[WasmValue]) -> Result<Vec<WasmValue>, Error> {
    let mut store = Store::new();
    let id = instantiate(&mut store, single(params, results, vec![0], code, true), &vec![]).unwrap();
    call(&mut store, id, "f", args)
}

fn i32s(v: i32) -> WasmValue {
    WasmValue::from_i32(v)
}

const I32: u8 = 0x7f;
const I64: u8 = 0x7e;
const F32: u8 = 0x7d;

#[test]
fn integer_instructions_in_a_function() {
    let bin = |op: u8, a: i32, b: i32| run1(vec![0x20, 0, 0x20, 1, op, 0x0b], &[I32, I32], &[I32], &[i32s(a), i32s(b)]);
    assert_eq!(bin(0x6b, 3, 5), Ok(vec![i32s(-2)]));
    assert_eq!(bin(0x6c, -3, 5), Ok(vec![i32s(-15)]));
    assert_eq!(bin(0x6d, -7, 2), Ok(vec![i32s(-3)]));
    assert_eq!(bin(0x6f, -7, 2), Ok(vec![i32s(-1)]));
    assert_eq!(bin(0x6e, -1, 2), Ok(vec![i32s(0x7fff_ffff)]));
    assert_eq!(bin(0x6d, 1, 0), Err(Error::Trap("integer divide by zero")));
    assert_eq!(bin(0x6e, 1, 0), Err(Error::Trap("integer divide by zero")));
    assert_eq!(bin(0x6f, 1, 0), Err(Error::Trap("integer divide by zero")));
    assert_eq!(bin(0x70, 1, 0), Err(Error::Trap("integer divide by zero")));
    assert_eq!(bin(0x6d, i32::MIN, -1), Err(Error::Trap("integer overflow")));
    assert_eq!(bin(0x6f, i32::MIN, -1), Ok(vec![i32s(0)]));
    assert_eq!(bin(0x74, 1, 33), Ok(vec![i32s(2)]));
    assert_eq!(bin(0x75, -8, 1), Ok(vec![i32s(-4)]));
    assert_eq!(bin(0x76, -8, 1), Ok(vec![i32s(0x7fff_fffc)]));
    assert_eq!(bin(0x48, -1, 0), Ok(vec![i32s(1)]));
    assert_eq!(bin(0x49, -1, 0), Ok(vec![i32s(0)]));
    let wide = |op: u8, a: i64, b: i64| {
        run1(vec![0x20, 0, 0x20, 1, op, 0x0b], &[I64, I64], &[I64], &[WasmValue::from_i64(a), WasmValue::from_i64(b)])
    };
    assert_eq!(wide(0x7c, i64::MAX, 1), Ok(vec![WasmValue::from_i64(i64::MIN)]));
    assert_eq!(wide(0x7f, i64::MIN, -1), Err(Error::Trap("integer overflow")));
    assert_eq!(wide(0x81, i64::MIN, -1), Ok(vec![WasmValue::from_i64(0)]));
    assert_eq!(wide(0x80, -1, 0), Err(Error::Trap("integer divide by zero")));
    let un = |op: u8, a: i32| run1(vec![0x20, 0, op, 0x0b], &[I32], &[I32], &[i32s(a)]);
    assert_eq!(un(0x67, 1), Ok(vec![i32s(31)]));
    assert_eq!(un(0x68, 0), Ok(vec![i32s(32)]));
    assert_eq!(un(0x69, -1), Ok(vec![i32s(32)]));
    assert_eq!(un(0x45, 0), Ok(vec![i32s(1)]));
    // i64.extend_i32_s, i64.extend_i32_u and i32.wrap_i64
    assert_eq!(run1(vec![0x20, 0, 0xac, 0x0b], &[I32], &[I64], &[i32s(-1)]), Ok(vec![WasmValue::from_i64(-1)]));
    assert_eq!(run1(vec![0x20, 0, 0xad, 0x0b], &[I32], &[I64], &[i32s(-1)]), Ok(vec![WasmValue::from_u64(0xffff_ffff)]));
    assert_eq!(
        run1(vec![0x20, 0, 0xa7, 0x0b], &[I64], &[I32], &[WasmValue::from_u64(0x1_2345_6789)]),
        Ok(vec![WasmValue::from_u32(0x2345_6789)])
    );
}

#[test]
fn constants_and_locals() {
    assert_eq!(run1(vec![0x41, 0x7f, 0x0b], &[], &[I32], &[]), Ok(vec![i32s(-1)]));
    assert_eq!(run1(vec![0x41, 0xc0, 0x00, 0x0b], &[], &[I32], &[]), Ok(vec![i32s(64)]));
    assert_eq!(run1(vec![0x42, 0x80, 0x7f, 0x0b], &[], &[I64], &[]), Ok(vec![WasmValue::from_i64(-128)]));
    assert_eq!(
        run1(vec![0x43, 0, 0, 0x80, 0x3f, 0x0b], &[], &[F32], &[]),
        Ok(vec![WasmValue::from_f32_bits(0x3f80_0000)])
    );
    assert_eq!(
        run1(vec![0x44, 1, 2, 3, 4, 5, 6, 7, 8, 0x0b], &[], &[0x7c], &[]),
        Ok(vec![WasmValue::from_f64_bits(0x0807_0605_0403_0201)])
    );
    let mut store = Store::new();
    let code = vec![0x20, 1, 0x20, 0, 0x22, 1, 0x6a, 0x20, 1, 0x6a, 0x0b];
    let id = instantiate(&mut store, single(&[I32], &[I32], vec![1, 1, I32], code, false), &vec![]).unwrap();
    // local 1 starts as zero: 0 + x + x
    assert_eq!(call(&mut store, id, "f", &[i32s(21)]), Ok(vec![i32s(42)]));
}

#[test]
fn branches_and_selection() {
    // if x then 10 else 20
    let cond = vec![0x20, 0, 0x04, I32, 0x41, 10, 0x05, 0x41, 20, 0x0b, 0x0b];
    assert_eq!(run1(cond.clone(), &[I32], &[I32], &[i32s(1)]), Ok(vec![i32s(10)]));
    assert_eq!(run1(cond, &[I32], &[I32], &[i32s(0)]), Ok(vec![i32s(20)]));
    // an if without else leaves the local as it was
    let plain = vec![0x20, 0, 0x04, 0x40, 0x41, 5, 0x21, 0, 0x0b, 0x20, 0, 0x0b];
    assert_eq!(run1(plain.clone(), &[I32], &[I32], &[i32s(7)]), Ok(vec![i32s(5)]));
    assert_eq!(run1(plain, &[I32], &[I32], &[i32s(0)]), Ok(vec![i32s(0)]));
    // select
    let sel = vec![0x41, 1, 0x41, 2, 0x20, 0, 0x1b, 0x0b];
    assert_eq!(run1(sel.clone(), &[I32], &[I32], &[i32s(5)]), Ok(vec![i32s(1)]));
    assert_eq!(run1(sel, &[I32], &[I32], &[i32s(0)]), Ok(vec![i32s(2)]));
    // br_table over three blocks
    let table = vec![
        0x02, 0x40, 0x02, 0x40, 0x02, 0x40, 0x20, 0, 0x0e, 2, 0, 1, 2, 0x0b, 0x41, 10, 0x0f, 0x0b, 0x41, 11, 0x0f, 0x0b, 0x41, 12,
        0x0b,
    ];
    assert_eq!(run1(table.clone(), &[I32], &[I32], &[i32s(0)]), Ok(vec![i32s(10)]));
    assert_eq!(run1(table.clone(), &[I32], &[I32], &[i32s(1)]), Ok(vec![i32s(11)]));
    assert_eq!(run1(table.clone(), &[I32], &[I32], &[i32s(2)]), Ok(vec![i32s(12)]));
    assert_eq!(run1(table, &[I32], &[I32], &[i32s(-1)]), Ok(vec![i32s(12)]));
    // a branch with a value drops what lies between
    let carry = vec![0x02, I32, 0x41, 1, 0x41, 2, 0x41, 3, 0x0c, 0, 0x0b, 0x0b];
    assert_eq!(run1(carry, &[], &[I32], &[]), Ok(vec![i32s(3)]));
    // br_if that is not taken
    let maybe = vec![0x02, I32, 0x41, 1, 0x20, 0, 0x0d, 0, 0x1a, 0x41, 9, 0x0b, 0x0b];
    assert_eq!(run1(maybe.clone(), &[I32], &[I32], &[i32s(1)]), Ok(vec![i32s(1)]));
    assert_eq!(run1(maybe, &[I32], &[I32], &[i32s(0)]), Ok(vec![i32s(9)]));
    // return from inside blocks
    let ret = vec![0x02, 0x40, 0x03, 0x40, 0x41, 4, 0x0f, 0x0b, 0x0b, 0x41, 5, 0x0b];
    assert_eq!(run1(ret, &[], &[I32], &[]), Ok(vec![i32s(4)]));
    assert_eq!(run1(vec![0x00, 0x0b], &[], &[], &[]), Err(Error::Trap("unreachable")));
    assert_eq!(run1(vec![0x01, 0x0b], &[], &[], &[]), Ok(vec![]));
}

#[test]
fn loads_and_stores() {
    let mut store = Store::new();
    let types = list(vec![func_type(&[I32, I64], &[]), func_type(&[I32], &[I64]), func_type(&[I32], &[I32])]);
    let load = |op: u8| body(vec![0], vec![0x20, 0, op, 0, 0, 0x0b]);
    let bytes = module(vec![
        section(1, types),
        section(3, vec![8, 0, 1, 1, 1, 1, 2, 2, 2]),
        section(5, vec![1, 0, 1]),
        section(
            7,
            list(vec![
                export("store", 0, 0),
                export("load", 0, 1),
                export("load8_s", 0, 2),
                export("load16_u", 0, 3),
                export("load32_s", 0, 4),
                export("i32_load8_s", 0, 5),
                export("i32_load8_u", 0, 6),
                export("i32_load16_s", 0, 7),
                export("mem", 2, 0),
            ]),
        ),
        section(
            10,
            list(vec![
                body(vec![0], vec![0x20, 0, 0x20, 1, 0x37, 0, 0, 0x0b]),
                load(0x29),
                load(0x30),
                load(0x33),
                load(0x34),
                load(0x2c),
                load(0x2d),
                load(0x2e),
            ]),
        ),
    ]);
    let id = instantiate(&mut store, bytes, &vec![]).unwrap();
    let v = 0x8182_8384_8586_8788u64;
    assert_eq!(call(&mut store, id, "store", &[i32s(16), WasmValue::from_u64(v)]), Ok(vec![]));
    assert_eq!(call(&mut store, id, "load", &[i32s(16)]), Ok(vec![WasmValue::from_u64(v)]));
    assert_eq!(call(&mut store, id, "load8_s", &[i32s(16)]), Ok(vec![WasmValue::from_i64(-0x78)]));
    assert_eq!(call(&mut store, id, "load16_u", &[i32s(16)]), Ok(vec![WasmValue::from_u64(0x8788)]));
    assert_eq!(call(&mut store, id, "load32_s", &[i32s(16)]), Ok(vec![WasmValue::from_i64(0x8586_8788u32 as i32 as i64)]));
    assert_eq!(call(&mut store, id, "i32_load8_s", &[i32s(23)]), Ok(vec![i32s(0x81u8 as i8 as i32)]));
    assert_eq!(call(&mut store, id, "i32_load8_u", &[i32s(23)]), Ok(vec![i32s(0x81)]));
    assert_eq!(call(&mut store, id, "i32_load16_s", &[i32s(22)]), Ok(vec![i32s(0x8182u16 as i16 as i32)]));
    assert_eq!(call(&mut store, id, "load", &[i32s(65528)]), Ok(vec![WasmValue::from_u64(0)]));
    assert_eq!(call(&mut store, id, "load", &[i32s(65529)]), Err(Error::Trap("out of bounds memory access")));
    assert_eq!(call(&mut store, id, "load", &[i32s(-1)]), Err(Error::Trap("out of bounds memory access")));
    assert_eq!(call(&mut store, id, "i32_load8_u", &[i32s(65535)]), Ok(vec![i32s(0)]));
    assert_eq!(call(&mut store, id, "i32_load8_u", &[i32s(65536)]), Err(Error::Trap("out of bounds memory access")));
    assert_eq!(
        call(&mut store, id, "store", &[i32s(65529), WasmValue::from_u64(1)]),
        Err(Error::Trap("out of bounds memory access"))
    );
    let mem = match exported(&store, id, "mem") {
        ExportValue::Memory(i) => i,
        _ => panic!("no memory"),
    };
    assert_eq!(store.memories[mem].load_u8(16, 0), Ok(0x88));
    assert_eq!(store.memories[mem].load_u8(65529, 0), Ok(0));
}

#[test]
fn offsets_add_to_the_address() {
    // i32.store offset=4 and i32.load offset=0xffffffff
    let code = vec![0x20, 0, 0x41, 0x2a, 0x36, 2, 4, 0x20, 0, 0x28, 2, 4, 0x0b];
    assert_eq!(run1(code.clone(), &[I32], &[I32], &[i32s(8)]), Ok(vec![i32s(42)]));
    assert_eq!(run1(code.clone(), &[I32], &[I32], &[i32s(65528)]), Ok(vec![i32s(42)]));
    assert_eq!(run1(code, &[I32], &[I32], &[i32s(65529)]), Err(Error::Trap("out of bounds memory access")));
    let far = vec![0x20, 0, 0x28, 2, 0xff, 0xff, 0xff, 0xff, 0x0f, 0x0b];
    assert_eq!(run1(far.clone(), &[I32], &[I32], &[i32s(1)]), Err(Error::Trap("out of bounds memory access")));
    assert_eq!(run1(far, &[I32], &[I32], &[i32s(-1)]), Err(Error::Trap("out of bounds memory access")));
}

#[test]
fn memory_size_and_grow() {
    let mut store = Store::new();
    let types = list(vec![func_type(&[], &[I32]), func_type(&[I32], &[I32])]);
    let bytes = module(vec![
        section(1, types),
        section(3, vec![2, 0, 1]),
        section(5, vec![1, 1, 1, 2]),
        section(7, list(vec![export("size", 0, 0), export("grow", 0, 1)])),
        section(10, list(vec![body(vec![0], vec![0x3f, 0, 0x0b]), body(vec![0], vec![0x20, 0, 0x40, 0, 0x0b])])),
    ]);
    let id = instantiate(&mut store, bytes, &vec![]).unwrap();
    assert_eq!(call(&mut store, id, "size", &[]), Ok(vec![i32s(1)]));
    assert_eq!(call(&mut store, id, "grow", &[i32s(0)]), Ok(vec![i32s(1)]));
    assert_eq!(call(&mut store, id, "grow", &[i32s(2)]), Ok(vec![i32s(-1)]));
    assert_eq!(call(&mut store, id, "size", &[]), Ok(vec![i32s(1)]));
    assert_eq!(call(&mut store, id, "grow", &[i32s(1)]), Ok(vec![i32s(1)]));
    assert_eq!(call(&mut store, id, "size", &[]), Ok(vec![i32s(2)]));
    assert_eq!(call(&mut store, id, "grow", &[i32s(1)]), Ok(vec![i32s(-1)]));
    assert_eq!(call(&mut store, id, "grow", &[i32s(0)]), Ok(vec![i32s(2)]));
    assert_eq!(call(&mut store, id, "grow", &[i32s(-1)]), Ok(vec![i32s(-1)]));
}

#[test]
fn globals_are_read_and_written() {
    let mut store = Store::new();
    let types = list(vec![func_type(&[], &[I32])]);
    let bytes = module(vec![
        section(1, types),
        section(3, vec![1, 0]),
        section(6, list(vec![vec![I32, 1, 0x41, 40, 0x0b], vec![I64, 0, 0x42, 0x7f, 0x0b]])),
        section(7, list(vec![export("next", 0, 0), export("counter", 3, 0), export("fixed", 3, 1)])),
        section(10, list(vec![body(vec![0], vec![0x23, 0, 0x41, 1, 0x6a, 0x24, 0, 0x23, 0, 0x0b])])),
    ]);
    let id = instantiate(&mut store, bytes, &vec![]).unwrap();
    assert_eq!(call(&mut store, id, "next", &[]), Ok(vec![i32s(41)]));
    assert_eq!(call(&mut store, id, "next", &[]), Ok(vec![i32s(42)]));
    let counter = match exported(&store, id, "counter") {
        ExportValue::Global(g) => g,
        _ => panic!("no global"),
    };
    assert_eq!(store.globals[counter], WasmGlobal { ty: ValType::I32, mutable: true, value: i32s(42) });
    let fixed = match exported(&store, id, "fixed") {
        ExportValue::Global(g) => g,
        _ => panic!("no global"),
    };
    assert_eq!(store.globals[fixed], WasmGlobal { ty: ValType::I64, mutable: false, value: WasmValue::from_i64(-1) });
    assert!(store.manager.get_instance(id).unwrap().export("absent").is_none());
}

fn host_module() -> Vec<u8> {
    module(vec![
        section(1, list(vec![func_type(&[I32, I32], &[I32]), func_type(&[I32], &[I32]), func_type(&[], &[])])),
        section(2, list(vec![import("env", "mix", vec![0, 0]), import("env", "note", vec![0, 2])])),
        section(3, vec![1, 1]),
        section(7, list(vec![export("f", 0, 2), export("mix", 0, 0)])),
        section(
            10,
            list(vec![body(vec![0], vec![0x41, 0xe4, 0, 0x10, 1, 0x20, 0, 0x41, 3, 0x10, 0, 0x41, 1, 0x6a, 0x6a, 0x0b])]),
        ),
    ])
}

fn host_imports() -> Vec<ImportItem> {
    vec![
        item("env", "mix", ExportValue::Function(RuntimeFunction::new_host(vec![ValType::I32, ValType::I32], Some(ValType::I32), 11))),
        item("env", "note", ExportValue::Function(RuntimeFunction::new_host(vec![], None, 12))),
    ]
}

#[test]
fn host_functions_are_asked_for() {
    let mut store = Store::new();
    let id = instantiate(&mut store, host_module(), &host_imports()).unwrap();
    let f = function(&store, id, "f");
    let mut m = Instance::invoke(&mut store, id, &f, &[i32s(5)], 0);
    assert_eq!(drive(&mut store, &mut m), Signal::Host { callback: 12, n_params: 0 });
    assert_eq!(m.host_args(), vec![]);
    assert_eq!(m.outcome(&f), None);
    m.resume_host(None);
    assert_eq!(drive(&mut store, &mut m), Signal::Host { callback: 11, n_params: 2 });
    assert_eq!(m.host_args(), vec![i32s(5), i32s(3)]);
    m.resume_host(Some(i32s(50)));
    // 100 + (50 + 1)
    assert_eq!(drive(&mut store, &mut m), Signal::Finished);
    assert_eq!(m.results(), vec![i32s(151)]);
    assert_eq!(m.outcome(&f), Some(Ok(vec![i32s(151)])));
    assert_eq!(m.host_args(), vec![]);

    // the host function itself, called from outside
    let mix = function(&store, id, "mix");
    let mut m = Instance::invoke(&mut store, id, &mix, &[i32s(1), i32s(2)], 0);
    assert_eq!(drive(&mut store, &mut m), Signal::Host { callback: 11, n_params: 2 });
    assert_eq!(m.host_args(), vec![i32s(1), i32s(2)]);
    m.resume_host(Some(i32s(9)));
    assert_eq!(drive(&mut store, &mut m), Signal::Finished);
    assert_eq!(m.results(), vec![i32s(9)]);
}

fn float_unit(op: u8, a: WasmValue, b: WasmValue) -> Result<WasmValue, Error> {
    let x = f32::from_bits(a.as_f32_bits());
    let y = f32::from_bits(b.as_f32_bits());
    match op {
        0x92 => Ok(WasmValue::from_f32_bits((x + y).to_bits())),
        0x94 => Ok(WasmValue::from_f32_bits((x * y).to_bits())),
        0x91 if x < 0.0 => Err(Error::Trap("invalid conversion to integer")),
        0x91 => Ok(WasmValue::from_f32_bits(x.sqrt().to_bits())),
        0xb2 => Ok(WasmValue::from_f32_bits((a.as_i32() as f32).to_bits())),
        _ => panic!("float instruction {:#x} is not part of this test", op),
    }
}

fn call_with_floats(code: Vec<u8>, params: &[u8], results: &[u8], args: &[WasmValue]) -> (Result<Vec<WasmValue>, Error>, Vec<u8>) {
    let mut store = Store::new();
    let id = instantiate(&mut store, single(params, results, vec![0], code, false), &vec![]).unwrap();
    let f = function(&store, id, "f");
    let mut m = Instance::invoke(&mut store, id, &f, args, 0);
    let mut asked = Vec::new();
    loop {
        match m.run(&mut store, 3) {
            Signal::Continue => assert_eq!(m.outcome(&f), None),
            Signal::Finished | Signal::Failed(_) => return (m.outcome(&f).unwrap(), asked),
            Signal::Float { op, a, b } => {
                assert_eq!(m.outcome(&f), None);
                asked.push(op);
                m.resume_float(float_unit(op, a, b));
            }
            other => panic!("unexpected signal {:?}", other),
        }
    }
}

fn f32v(x: f32) -> WasmValue {
    WasmValue::from_f32_bits(x.to_bits())
}

#[test]
fn float_instructions_are_asked_for() {
    // (a + b) * b
    let code = vec![0x20, 0, 0x20, 1, 0x92, 0x20, 1, 0x94, 0x0b];
    let (r, asked) = call_with_floats(code, &[F32, F32], &[F32], &[f32v(1.5), f32v(2.0)]);
    assert_eq!(r, Ok(vec![f32v(7.0)]));
    assert_eq!(asked, vec![0x92, 0x94]);
    // the machine hands the operand out and takes the answer, or the failure, back
    let root = vec![0x20, 0, 0x91, 0x0b];
    assert_eq!(call_with_floats(root.clone(), &[F32], &[F32], &[f32v(6.25)]), (Ok(vec![f32v(2.5)]), vec![0x91]));
    assert_eq!(
        call_with_floats(root, &[F32], &[F32], &[f32v(-1.0)]).0,
        Err(Error::Trap("invalid conversion to integer"))
    );
    let convert = vec![0x20, 0, 0xb2, 0x0b];
    assert_eq!(call_with_floats(convert, &[I32], &[F32], &[i32s(-3)]), (Ok(vec![f32v(-3.0)]), vec![0xb2]));
}

#[test]
fn float_instructions_that_are_decided_on_the_bits() {
    let less = vec![0x20, 0, 0x20, 1, 0x5d, 0x0b];
    assert_eq!(call_with_floats(less.clone(), &[F32, F32], &[I32], &[f32v(1.0), f32v(2.0)]), (Ok(vec![i32s(1)]), vec![]));
    assert_eq!(call_with_floats(less.clone(), &[F32, F32], &[I32], &[f32v(-0.0), f32v(0.0)]).0, Ok(vec![i32s(0)]));
    assert_eq!(call_with_floats(less, &[F32, F32], &[I32], &[f32v(f32::NAN), f32v(2.0)]).0, Ok(vec![i32s(0)]));
    let trunc = vec![0x20, 0, 0xa8, 0x0b];
    assert_eq!(call_with_floats(trunc.clone(), &[F32], &[I32], &[f32v(-3.9)]), (Ok(vec![i32s(-3)]), vec![]));
    assert_eq!(
        call_with_floats(trunc.clone(), &[F32], &[I32], &[f32v(f32::NAN)]).0,
        Err(Error::Trap("invalid conversion to integer"))
    );
    assert_eq!(call_with_floats(trunc.clone(), &[F32], &[I32], &[f32v(3.0e9)]).0, Err(Error::Trap("integer overflow")));
    assert_eq!(call_with_floats(trunc, &[F32], &[I32], &[f32v(f32::INFINITY)]).0, Err(Error::Trap("integer overflow")));
    // f32.nearest rounds halves to the even integer
    let near = vec![0x20, 0, 0x90, 0x0b];
    let nearest = |x: f32| call_with_floats(near.clone(), &[F32], &[F32], &[f32v(x)]);
    assert_eq!(nearest(0.5), (Ok(vec![f32v(0.0)]), vec![]));
    assert_eq!(nearest(-0.5), (Ok(vec![f32v(-0.0)]), vec![]));
    assert_eq!(nearest(1.5).0, Ok(vec![f32v(2.0)]));
    assert_eq!(nearest(2.5).0, Ok(vec![f32v(2.0)]));
    // f64.min and f64.max of the two zeros
    let f64v = |x: f64| WasmValue::from_f64_bits(x.to_bits());
    let min = vec![0x20, 0, 0x20, 1, 0xa4, 0x0b];
    let max = vec![0x20, 0, 0x20, 1, 0xa5, 0x0b];
    assert_eq!(call_with_floats(min.clone(), &[0x7c, 0x7c], &[0x7c], &[f64v(0.0), f64v(-0.0)]), (Ok(vec![f64v(-0.0)]), vec![]));
    assert_eq!(call_with_floats(max.clone(), &[0x7c, 0x7c], &[0x7c], &[f64v(0.0), f64v(-0.0)]), (Ok(vec![f64v(0.0)]), vec![]));
    assert_eq!(call_with_floats(min, &[0x7c, 0x7c], &[0x7c], &[f64v(1.0), f64v(f64::NAN)]).0, Ok(vec![f64v(f64::NAN)]));
    assert_eq!(call_with_floats(max, &[0x7c, 0x7c], &[0x7c], &[f64v(-1.0), f64v(-2.0)]).0, Ok(vec![f64v(-1.0)]));
}

#[test]
fn float_signs_and_reinterpretations_need_no_float_unit() {
    // f32.neg, f32.abs, f32.copysign, i32.reinterpret_f32, f32.reinterpret_i32
    let (r, asked) = call_with_floats(vec![0x20, 0, 0x8c, 0x0b], &[F32], &[F32], &[f32v(1.5)]);
    assert_eq!((r, asked), (Ok(vec![f32v(-1.5)]), vec![]));
    let (r, asked) = call_with_floats(vec![0x20, 0, 0x8b, 0x0b], &[F32], &[F32], &[WasmValue::from_f32_bits(0xffc0_0001)]);
    assert_eq!((r, asked), (Ok(vec![WasmValue::from_f32_bits(0x7fc0_0001)]), vec![]));
    let (r, asked) = call_with_floats(vec![0x20, 0, 0x20, 1, 0x98, 0x0b], &[F32, F32], &[F32], &[f32v(2.0), f32v(-0.0)]);
    assert_eq!((r, asked), (Ok(vec![f32v(-2.0)]), vec![]));
    let (r, asked) = call_with_floats(vec![0x20, 0, 0xbc, 0x0b], &[F32], &[I32], &[WasmValue::from_f32_bits(0x7fa0_0000)]);
    assert_eq!((r, asked), (Ok(vec![WasmValue::from_u32(0x7fa0_0000)]), vec![]));
    let (r, asked) = call_with_floats(vec![0x20, 0, 0xbe, 0x0b], &[I32], &[F32], &[WasmValue::from_u32(0xff80_0001)]);
    assert_eq!((r, asked), (Ok(vec![WasmValue::from_f32_bits(0xff80_0001)]), vec![]));
    let d = 0xfff0_0000_0000_0001u64;
    let (r, asked) = call_with_floats(vec![0x20, 0, 0xbd, 0xbf, 0x9a, 0x0b], &[0x7c], &[0x7c], &[WasmValue::from_f64_bits(d)]);
    assert_eq!((r, asked), (Ok(vec![WasmValue::from_f64_bits(d & 0x7fff_ffff_ffff_ffff)]), vec![]));
}

fn table_module() -> Vec<u8> {
    module(vec![
        section(1, list(vec![func_type(&[], &[I32]), func_type(&[I32], &[I32]), func_type(&[], &[I64])])),
        section(3, vec![3, 0, 2, 1]),
        section(4, vec![1, 0x70, 1, 4, 8]),
        section(7, list(vec![export("pick", 0, 2), export("table", 1, 0), export("one", 0, 0)])),
        section(9, list(vec![vec![0, 0x41, 1, 0x0b, 2, 0, 1]])),
        section(
            10,
            list(vec![
                body(vec![0], vec![0x41, 1, 0x0b]),
                body(vec![0], vec![0x42, 2, 0x0b]),
                body(vec![0], vec![0x20, 0, 0x11, 0, 0, 0x0b]),
            ]),
        ),
    ])
}

#[test]
fn indirect_calls() {
    let mut store = Store::new();
    let id = instantiate(&mut store, table_module(), &vec![]).unwrap();
    assert_eq!(call(&mut store, id, "pick", &[i32s(1)]), Ok(vec![i32s(1)]));
    assert_eq!(call(&mut store, id, "pick", &[i32s(2)]), Err(Error::Trap("indirect call type mismatch")));
    assert_eq!(call(&mut store, id, "pick", &[i32s(0)]), Err(Error::Trap("uninitialized element")));
    assert_eq!(call(&mut store, id, "pick", &[i32s(3)]), Err(Error::Trap("uninitialized element")));
    assert_eq!(call(&mut store, id, "pick", &[i32s(4)]), Err(Error::Trap("undefined element")));
    assert_eq!(call(&mut store, id, "pick", &[i32s(-1)]), Err(Error::Trap("undefined element")));
    assert_eq!(store.manager.counts.get(id), 2);
    let t = match exported(&store, id, "table") {
        ExportValue::Table(t) => t,
        _ => panic!("no table"),
    };
    assert_eq!(store.tables[t].size(), 4);
    assert_eq!(store.tables[t].max(), 8);
    // growing the table with a reference to the first function
    let first = store.tables[t].get(1).unwrap();
    assert_eq!(store.table_grow(t, 2, first), 4);
    assert_eq!(store.manager.counts.get(id), 4);
    assert_eq!(call(&mut store, id, "pick", &[i32s(5)]), Ok(vec![i32s(1)]));
    assert_eq!(store.table_grow(t, 3, first), u32::MAX);
    assert_eq!(store.tables[t].size(), 6);
    assert_eq!(store.manager.counts.get(id), 4);
}

#[test]
fn calls_between_functions() {
    // f(x) = g(x, 2) + 1 where g(a, b) = a * b
    let bytes = module(vec![
        section(1, list(vec![func_type(&[I32, I32], &[I32]), func_type(&[I32], &[I32])])),
        section(3, vec![2, 0, 1]),
        section(7, list(vec![export("f", 0, 1)])),
        section(
            10,
            list(vec![
                body(vec![1, 1, I32], vec![0x20, 0, 0x20, 1, 0x6c, 0x22, 2, 0x0b]),
                body(vec![0], vec![0x41, 9, 0x20, 0, 0x41, 2, 0x10, 0, 0x41, 1, 0x6a, 0x6a, 0x0b]),
            ]),
        ),
    ]);
    let mut store = Store::new();
    let id = instantiate(&mut store, bytes, &vec![]).unwrap();
    assert_eq!(call(&mut store, id, "f", &[i32s(6)]), Ok(vec![i32s(22)]));
}

#[test]
fn start_function_and_data_segments() {
    // the start function copies the first data byte, plus one, to address 100
    let bytes = module(vec![
        section(1, list(vec![func_type(&[], &[]), func_type(&[I32], &[I32])])),
        section(3, vec![2, 0, 1]),
        section(5, vec![1, 0, 1]),
        section(7, list(vec![export("f", 0, 1)])),
        section(8, vec![0]),
        section(
            10,
            list(vec![
                body(vec![0], vec![0x41, 0xe4, 0, 0x41, 4, 0x2d, 0, 0, 0x41, 1, 0x6a, 0x3a, 0, 0, 0x0b]),
                body(vec![0], vec![0x20, 0, 0x28, 0, 0, 0x0b]),
            ]),
        ),
        section(11, list(vec![vec![0, 0x41, 4, 0x0b, 4, 1, 2, 3, 4], vec![0, 0x41, 6, 0x0b, 1, 9], vec![0, 0x41, 0x80, 0x80, 0x04, 0x0b, 0]])),
    ]);
    let mut store = Store::new();
    let id = instantiate(&mut store, bytes, &vec![]).unwrap();
    assert_eq!(call(&mut store, id, "f", &[i32s(4)]), Ok(vec![WasmValue::from_u32(0x0409_0201)]));
    assert_eq!(call(&mut store, id, "f", &[i32s(100)]), Ok(vec![i32s(2)]));
    assert_eq!(call(&mut store, id, "f", &[i32s(0)]), Ok(vec![WasmValue::from_u32(0)]));
}

fn provider() -> Vec<u8> {
    module(vec![
        section(1, list(vec![func_type(&[I32], &[I32])])),
        section(3, vec![1, 0]),
        section(4, vec![1, 0x70, 1, 2, 4]),
        section(5, vec![1, 1, 1, 3]),
        section(6, list(vec![vec![I32, 0, 0x41, 8, 0x0b], vec![I64, 1, 0x42, 5, 0x0b]])),
        section(
            7,
            list(vec![
                export("load", 0, 0),
                export("table", 1, 0),
                export("memory", 2, 0),
                export("base", 3, 0),
                export("mutable", 3, 1),
            ]),
        ),
        section(10, list(vec![body(vec![0], vec![0x20, 0, 0x28, 0, 0, 0x0b])])),
    ])
}

fn consumer(memory_limits: Vec<u8>, table_limits: Vec<u8>, global: Vec<u8>, elem_at: u8, data_at: Vec<u8>) -> Vec<u8> {
    let mut mem = vec![2];
    mem.extend(memory_limits);
    let mut table = vec![1, 0x70];
    table.extend(table_limits);
    let mut glob = vec![3];
    glob.extend(global);
    let mut data = vec![0, 0x41];
    data.extend(data_at);
    data.extend(vec![0x0b, 2, 0xaa, 0xbb]);
    module(vec![
        section(1, list(vec![func_type(&[], &[I32])])),
        section(2, list(vec![import("p", "memory", mem), import("p", "table", table), import("p", "base", glob)])),
        section(3, vec![1, 0]),
        section(6, list(vec![vec![I32, 0, 0x23, 0, 0x41, 2, 0x6c, 0x0b]])),
        section(7, list(vec![export("twice", 0, 0), export("own", 3, 1)])),
        section(9, list(vec![vec![0, 0x41, elem_at, 0x0b, 1, 0]])),
        section(10, list(vec![body(vec![0], vec![0x23, 1, 0x0b])])),
        section(11, list(vec![data])),
    ])
}

fn provided(store: &Store, p: u32) -> Vec<ImportItem> {
    vec![
        item("p", "memory", exported(store, p, "memory")),
        item("p", "table", exported(store, p, "table")),
        item("p", "base", exported(store, p, "base")),
        item("p", "mutable", exported(store, p, "mutable")),
        item("p", "load", exported(store, p, "load")),
    ]
}

#[test]
fn imports_are_shared() {
    let mut store = Store::new();
    let p = instantiate(&mut store, provider(), &vec![]).unwrap();
    let imports = provided(&store, p);
    let c = instantiate(&mut store, consumer(vec![0, 1], vec![0, 2], vec![I32, 0], 1, vec![16]), &imports).unwrap();
    // the consumer's own global is twice the imported one
    assert_eq!(call(&mut store, c, "twice", &[]), Ok(vec![i32s(16)]));
    // the data segment went to the provider's memory
    assert_eq!(call(&mut store, p, "load", &[i32s(16)]), Ok(vec![WasmValue::from_u32(0xbbaa)]));
    // the element went to the provider's table and refers to the consumer
    let t = match exported(&store, p, "table") {
        ExportValue::Table(t) => t,
        _ => panic!("no table"),
    };
    assert_eq!(store.manager.get_instance(c).unwrap().table, Some(t));
    assert_eq!(store.manager.counts.get(c), 1);
    assert_eq!(store.manager.counts.get(p), 0);
    assert_eq!(store.tables[t].get(0), Ok(WasmValue::from_u64(0)));
    let slot = store.tables[t].get(1).unwrap();
    assert_ne!(slot, WasmValue::from_u64(0));
    assert_eq!(slot.as_u64() >> 32, c as u64);
    store.drop_instance(c);
    assert!(store.manager.get_instance(c).is_some());
    store.drop_instance(p);
    assert!(store.manager.get_instance(p).is_none());
}

#[test]
fn link_errors() {
    let mut store = Store::new();
    let p = instantiate(&mut store, provider(), &vec![]).unwrap();
    let imports = provided(&store, p);
    let try_link = |store: &mut Store, bytes: Vec<u8>, imports: &Vec<ImportItem>| instantiate(store, bytes, imports).err();
    let good = || consumer(vec![0, 1], vec![0, 2], vec![I32, 0], 1, vec![16]);
    assert_eq!(try_link(&mut store, good(), &vec![]), Some(Error::Link("unknown import")));
    assert_eq!(try_link(&mut store, good(), &imports[1..].to_vec()), Some(Error::Link("unknown import")));
    // a name that is offered as another kind
    let mut swapped = imports.clone();
    swapped[0].value = exported(&store, p, "base");
    assert_eq!(try_link(&mut store, good(), &swapped), Some(Error::Link("incompatible import type")));
    // memory: more pages wanted than there are, or a maximum that the memory exceeds
    assert_eq!(
        try_link(&mut store, consumer(vec![0, 2], vec![0, 2], vec![I32, 0], 1, vec![16]), &imports),
        Some(Error::Link("incompatible import type"))
    );
    assert_eq!(
        try_link(&mut store, consumer(vec![1, 1, 2], vec![0, 2], vec![I32, 0], 1, vec![16]), &imports),
        Some(Error::Link("incompatible import type"))
    );
    assert_eq!(try_link(&mut store, consumer(vec![1, 1, 3], vec![0, 2], vec![I32, 0], 1, vec![16]), &imports), None);
    // table
    assert_eq!(
        try_link(&mut store, consumer(vec![0, 1], vec![0, 3], vec![I32, 0], 1, vec![16]), &imports),
        Some(Error::Link("incompatible import type"))
    );
    assert_eq!(
        try_link(&mut store, consumer(vec![0, 1], vec![1, 2, 3], vec![I32, 0], 1, vec![16]), &imports),
        Some(Error::Link("incompatible import type"))
    );
    // global: type and mutability
    let mut other = imports.clone();
    other[2].value = exported(&store, p, "mutable");
    assert_eq!(
        try_link(&mut store, consumer(vec![0, 1], vec![0, 2], vec![I32, 0], 1, vec![16]), &other),
        Some(Error::Link("incompatible import type"))
    );
    assert_eq!(
        try_link(&mut store, consumer(vec![0, 1], vec![0, 2], vec![I64, 0], 1, vec![16]), &imports),
        Some(Error::Validation("type mismatch"))
    );
    // segments
    assert_eq!(
        try_link(&mut store, consumer(vec![0, 1], vec![0, 2], vec![I32, 0], 2, vec![16]), &imports),
        Some(Error::Link("elements segment does not fit"))
    );
    assert_eq!(
        try_link(&mut store, consumer(vec![0, 1], vec![0, 2], vec![I32, 0], 1, vec![0xff, 0xff, 0x03]), &imports),
        Some(Error::Link("data segment does not fit"))
    );
    assert_eq!(try_link(&mut store, consumer(vec![0, 1], vec![0, 2], vec![I32, 0], 1, vec![0xfe, 0xff, 0x03]), &imports), None);
}

#[test]
fn imported_function_signatures_must_agree() {
    let mut store = Store::new();
    let p = instantiate(&mut store, provider(), &vec![]).unwrap();
    let load = function(&store, p, "load");
    let shared = store.manager.get_instance(p).unwrap().externalize(load, 0);
    let user = |ty: Vec<u8>| {
        module(vec![
            section(1, list(vec![ty, func_type(&[], &[I32])])),
            section(2, list(vec![import("p", "load", vec![0, 0])])),
            section(3, vec![1, 1]),
            section(7, list(vec![export("f", 0, 1)])),
            section(10, list(vec![body(vec![0], vec![0x41, 0, 0x10, 0, 0x0b])])),
        ])
    };
    let imports = vec![item("p", "load", ExportValue::Function(shared))];
    assert_eq!(
        instantiate(&mut store, user(func_type(&[I64], &[I32])), &imports).err(),
        Some(Error::Validation("type mismatch"))
    );
    let wrong = |ty: Vec<u8>| {
        module(vec![
            section(1, list(vec![ty])),
            section(2, list(vec![import("p", "load", vec![0, 0])])),
        ])
    };
    assert_eq!(instantiate(&mut store, wrong(func_type(&[I64], &[I32])), &imports).err(), Some(Error::Link("incompatible import type")));
    assert_eq!(instantiate(&mut store, wrong(func_type(&[I32], &[])), &imports).err(), Some(Error::Link("incompatible import type")));
    assert_eq!(instantiate(&mut store, wrong(func_type(&[I32, I32], &[I32])), &imports).err(), Some(Error::Link("incompatible import type")));
    let c = instantiate(&mut store, user(func_type(&[I32], &[I32])), &imports).unwrap();
    assert_eq!(call(&mut store, c, "f", &[]), Ok(vec![i32s(0)]));
}

#[test]
fn fuel_only_splits_a_run() {
    // sum of 1..=n with a loop
    let code = vec![
        0x02, 0x40, 0x03, 0x40, 0x20, 0, 0x45, 0x0d, 1, 0x20, 1, 0x20, 0, 0x6a, 0x21, 1, 0x20, 0, 0x41, 1, 0x6b, 0x21, 0, 0x0c, 0, 0x0b,
        0x0b, 0x20, 1, 0x0b,
    ];
    let bytes = single(&[I32], &[I32], vec![1, 1, I32], code, false);
    let mut whole = Store::new();
    let id = instantiate(&mut whole, bytes.clone(), &vec![]).unwrap();
    let f = function(&whole, id, "f");
    let mut m = Instance::invoke(&mut whole, id, &f, &[i32s(100)], 0);
    assert_eq!(m.run(&mut whole, 1_000_000), Signal::Finished);
    assert_eq!(m.results(), vec![i32s(5050)]);
    assert_eq!(m.run(&mut whole, 10), Signal::Finished);
    assert_eq!(m.results(), vec![i32s(5050)]);

    for fuel in [1u64, 2, 7, 64] {
        let mut parts = Store::new();
        let id = instantiate(&mut parts, bytes.clone(), &vec![]).unwrap();
        let f = function(&parts, id, "f");
        let mut n = Instance::invoke(&mut parts, id, &f, &[i32s(100)], 0);
        let mut rounds = 0u64;
        while n.run(&mut parts, fuel) == Signal::Continue {
            rounds += 1;
        }
        assert!(rounds > 0);
        assert_eq!(n.results(), m.results());
        assert_eq!(n.pc, m.pc);
    }
    let mut idle = Instance::invoke(&mut whole, id, &f, &[i32s(100)], 0);
    assert_eq!(idle.run(&mut whole, 0), Signal::Continue);
    // the argument and the local, before the first instruction
    assert_eq!(idle.results(), vec![i32s(100), i32s(0)]);
}

#[test]
fn a_failed_machine_stays_failed() {
    let mut store = Store::new();
    let id = instantiate(&mut store, single(&[], &[], vec![0], vec![0x00, 0x0b], false), &vec![]).unwrap();
    let f = function(&store, id, "f");
    let mut m = Instance::invoke(&mut store, id, &f, &[], 0);
    assert_eq!(m.run(&mut store, 100), Signal::Failed(Error::Trap("unreachable")));
    assert_eq!(m.run(&mut store, 100), Signal::Failed(Error::Trap("unreachable")));
    assert_eq!(m.step(&store.manager, &store.tables, &mut store.memories, &mut store.globals), Signal::Failed(Error::Trap("unreachable")));
    m.resume_host(Some(i32s(1)));
    m.resume_float(Ok(i32s(1)));
    assert_eq!(m.run(&mut store, 1), Signal::Failed(Error::Trap("unreachable")));
    assert_eq!(m.results(), vec![]);
    assert_eq!(m.outcome(&f), Some(Err(Error::Trap("unreachable"))));
}

#[test]
fn traps_do_not_undo_what_was_written() {
    // writes 7 to address 0, then traps
    let code = vec![0x41, 0, 0x41, 7, 0x36, 2, 0, 0x00, 0x0b];
    let bytes = module(vec![
        section(1, list(vec![func_type(&[], &[]), func_type(&[], &[I32])])),
        section(3, vec![2, 0, 1]),
        section(5, vec![1, 0, 1]),
        section(7, list(vec![export("f", 0, 0), export("g", 0, 1)])),
        section(10, list(vec![body(vec![0], code), body(vec![0], vec![0x41, 0, 0x28, 2, 0, 0x0b])])),
    ]);
    let mut store = Store::new();
    let id = instantiate(&mut store, bytes, &vec![]).unwrap();
    assert_eq!(call(&mut store, id, "g", &[]), Ok(vec![i32s(0)]));
    assert_eq!(call(&mut store, id, "f", &[]), Err(Error::Trap("unreachable")));
    assert_eq!(call(&mut store, id, "g", &[]), Ok(vec![i32s(7)]));
}

#[test]
fn memories_can_be_made_by_the_embedder() {
    let mut store = Store::new();
    let mut memory = WasmMemory::new(1, 2);
    assert_eq!(memory.store_u32(8, 0, 0xdead_beef), Ok(()));
    let mem = store.add_memory(memory);
    let g = store.add_global(WasmGlobal { ty: ValType::I32, mutable: false, value: i32s(8) });
    let bytes = module(vec![
        section(1, list(vec![func_type(&[], &[I32])])),
        section(2, list(vec![import("env", "memory", vec![2, 1, 1, 2]), import("env", "at", vec![3, I32, 0])])),
        section(3, vec![1, 0]),
        section(7, list(vec![export("f", 0, 0)])),
        section(10, list(vec![body(vec![0], vec![0x23, 0, 0x28, 2, 0, 0x0b])])),
    ]);
    let imports = vec![item("env", "memory", ExportValue::Memory(mem)), item("env", "at", ExportValue::Global(g))];
    let id = instantiate(&mut store, bytes, &imports).unwrap();
    assert_eq!(call(&mut store, id, "f", &[]), Ok(vec![WasmValue::from_u32(0xdead_beef)]));
}

#[test]
fn functions_without_an_owner_have_no_implementation() {
    let mut store = Store::new();
    let p = instantiate(&mut store, provider(), &vec![]).unwrap();
    let load = function(&store, p, "load");
    let shared = store.manager.get_instance(p).unwrap().externalize(load, 0);
    let user = module(vec![
        section(1, list(vec![func_type(&[I32], &[I32]), func_type(&[], &[I32])])),
        section(2, list(vec![import("p", "load", vec![0, 0])])),
        section(3, vec![1, 1]),
        section(7, list(vec![export("f", 0, 1)])),
        section(10, list(vec![body(vec![0], vec![0x41, 0, 0x10, 0, 0x0b])])),
    ]);
    let c = instantiate(&mut store, user, &vec![item("p", "load", ExportValue::Function(shared))]).unwrap();
    assert_eq!(call(&mut store, c, "f", &[]), Ok(vec![i32s(0)]));
    // the provider goes: no table refers to it
    store.drop_instance(p);
    assert!(store.manager.get_instance(p).is_none());
    assert_eq!(call(&mut store, c, "f", &[]), Err(Error::Trap("function has no implementation")));
    // a call into an instance that the registry does not have
    let f = function(&store, c, "f");
    let mut m = Instance::invoke(&mut store, 77, &f, &[], 0);
    assert_eq!(drive(&mut store, &mut m), Signal::Failed(Error::Trap("function has no implementation")));
}

#[test]
fn a_machine_without_operands_fails() {
    let mut store = Store::new();
    let code = vec![0x20, 0, 0x20, 1, 0x6a, 0x0b];
    let id = instantiate(&mut store, single(&[I32, I32], &[I32], vec![0], code, false), &vec![]).unwrap();
    let real = function(&store, id, "f");
    let (sig, start) = match real {
        RuntimeFunction::OwnedWasm { runtime_sig, pc_start, locals_count } => {
            assert_eq!(locals_count, 0);
            (runtime_sig, pc_start)
        }
        _ => panic!("not a function of the instance"),
    };
    assert_eq!((sig.n_params(), sig.has_result()), (2, true));
    // a function that the embedder made up, which starts at the addition with nothing on the stack
    let forged = RuntimeFunction::OwnedWasm {
        runtime_sig: wagmi::signature::RuntimeSignature::from_counts(0, true),
        pc_start: start + 4,
        locals_count: 0,
    };
    let mut m = Instance::invoke(&mut store, id, &forged, &[], 0);
    assert_eq!(drive(&mut store, &mut m), Signal::Failed(Error::Trap("stack underflow")));
    assert_eq!(m.outcome(&forged), Some(Err(Error::Trap("stack underflow"))));
}

fn two_segments(second_slot: u8, second_data_at: Vec<u8>) -> Vec<u8> {
    let mut far = vec![0, 0x41];
    far.extend(second_data_at);
    far.extend(vec![0x0b, 2, 0xcc, 0xdd]);
    module(vec![
        section(1, list(vec![func_type(&[], &[I32])])),
        section(2, list(vec![import("p", "memory", vec![2, 0, 1]), import("p", "table", vec![1, 0x70, 0, 2])])),
        section(3, vec![1, 0]),
        section(9, list(vec![vec![0, 0x41, 0, 0x0b, 1, 0], vec![0, 0x41, second_slot, 0x0b, 1, 0]])),
        section(10, list(vec![body(vec![0], vec![0x41, 1, 0x0b])])),
        section(11, list(vec![vec![0, 0x41, 16, 0x0b, 2, 0xaa, 0xbb], far])),
    ])
}

#[test]
fn a_failed_instantiation_writes_nothing() {
    let mut store = Store::new();
    let p = instantiate(&mut store, provider(), &vec![]).unwrap();
    let imports = provided(&store, p);
    let t = match exported(&store, p, "table") {
        ExportValue::Table(t) => t,
        _ => panic!("no table"),
    };
    let m = match exported(&store, p, "memory") {
        ExportValue::Memory(m) => m,
        _ => panic!("no memory"),
    };
    let unchanged = |store: &Store, id: u32| {
        assert_eq!(store.tables[t].size(), 2);
        assert_eq!(store.tables[t].get(0), Ok(WasmValue::from_u64(0)));
        assert_eq!(store.tables[t].get(1), Ok(WasmValue::from_u64(0)));
        assert_eq!(store.memories[m].load_u32(16, 0), Ok(0));
        assert_eq!(store.memories[m].load_u16(65534, 0), Ok(0));
        assert_eq!(store.manager.counts.get(id), 0);
        assert_eq!(store.manager.counts.get(p), 0);
        assert!(store.manager.get_instance(id).is_none());
        assert_eq!((store.tables.len(), store.memories.len()), (1, 1));
    };
    // the second element segment does not fit: the first, which fits, is not written either
    let r = instantiate(&mut store, two_segments(2, vec![20]), &imports);
    assert_eq!(r, Err(Error::Link("elements segment does not fit")));
    unchanged(&store, 2);
    // the second data segment does not fit: no element and no byte is written
    let r = instantiate(&mut store, two_segments(1, vec![0xff, 0xff, 0x03]), &imports);
    assert_eq!(r, Err(Error::Link("data segment does not fit")));
    unchanged(&store, 3);
    // the ids of the failed instantiations are not handed out again
    let c = instantiate(&mut store, two_segments(1, vec![20]), &imports).unwrap();
    assert_eq!(c, 4);
    assert_eq!(store.manager.counts.get(c), 2);
    assert_eq!(store.memories[m].load_u16(16, 0), Ok(0xbbaa));
    assert_eq!(store.memories[m].load_u16(20, 0), Ok(0xddcc));
    assert_ne!(store.tables[t].get(1), Ok(WasmValue::from_u64(0)));
}

#[test]
fn a_table_that_is_given_up_lets_its_references_go() {
    let mut store = Store::new();
    let a = instantiate(&mut store, table_module(), &vec![]).unwrap();
    let t = match exported(&store, a, "table") {
        ExportValue::Table(t) => t,
        _ => panic!("no table"),
    };
    assert_eq!(store.manager.counts.get(a), 2);
    // a table that an instance uses stays
    assert!(store.table_in_use(t));
    assert!(!store.retire_table(t));
    assert!(!store.retire_table(t + 1));
    assert_eq!(store.manager.counts.get(a), 2);
    assert_eq!(call(&mut store, a, "pick", &[i32s(1)]), Ok(vec![i32s(1)]));
    // the instance is given up: its own table keeps it
    store.drop_instance(a);
    assert!(store.manager.get_instance(a).is_some());
    assert!(!store.table_in_use(t));
    // the table is given up: its slots are null, nothing is counted, and the instance goes
    assert!(store.retire_table(t));
    assert_eq!(store.tables[t].size(), 4);
    for i in 0..4 {
        assert_eq!(store.tables[t].get(i), Ok(WasmValue::from_u64(0)));
    }
    assert_eq!(store.manager.counts.get(a), 0);
    assert!(store.manager.get_instance(a).is_none());
    // once more changes nothing
    assert!(store.retire_table(t));
    assert_eq!(store.manager.counts.get(a), 0);
}

#[test]
fn a_retired_table_lets_only_its_own_references_go() {
    let mut store = Store::new();
    let p = instantiate(&mut store, provider(), &vec![]).unwrap();
    let imports = provided(&store, p);
    // the consumer puts a reference to itself into the provider's table
    let c = instantiate(&mut store, consumer(vec![0, 1], vec![0, 2], vec![I32, 0], 1, vec![16]), &imports).unwrap();
    let a = instantiate(&mut store, table_module(), &vec![]).unwrap();
    let shared = match exported(&store, p, "table") {
        ExportValue::Table(t) => t,
        _ => panic!("no table"),
    };
    let own = match exported(&store, a, "table") {
        ExportValue::Table(t) => t,
        _ => panic!("no table"),
    };
    assert_eq!((store.manager.counts.get(c), store.manager.counts.get(a)), (1, 2));
    store.drop_instance(a);
    store.drop_instance(c);
    assert!(store.manager.get_instance(c).is_some());
    // the provider still uses the shared table
    assert!(!store.retire_table(shared));
    assert!(store.retire_table(own));
    assert!(store.manager.get_instance(a).is_none());
    assert!(store.manager.get_instance(c).is_some());
    assert_eq!(store.manager.counts.get(c), 1);
    store.drop_instance(p);
    assert!(store.retire_table(shared));
    assert!(store.manager.get_instance(c).is_none());
    assert_eq!(store.manager.counts.get(c), 0);
}
