use std::rc::Rc;
use wagmi::error::Error;
use wagmi::instance::{ExportValue, ImportItem, Instance, RuntimeFunction};
use wagmi::interpreter::Machine;
use wagmi::module::Module;
use wagmi::semantics::Signal;
use wagmi::store::Store;
use wagmi::value::WasmValue;

fn leb(mut v: u32) -> Vec<u8> {
    let mut out = Vec::new();
    loop {
        let b = (v & 0x7f) as u8;
        v >>= 7;
        if v == 0 {
            out.push(b);
            return out;
        }
        out.push(b | 0x80);
    }
}

fn section(id: u8, content: Vec<u8>) -> Vec<u8> {
    let mut out = vec![id];
    out.extend(leb(content.len() as u32));
    out.extend(content);
    out
}

fn name(s: &str) -> Vec<u8> {
    let mut out = leb(s.len() as u32);
    out.extend(s.as_bytes());
    out
}

fn body(locals: Vec<u8>, code: Vec<u8>) -> Vec<u8> {
    let mut inner = locals;
    inner.extend(code);
    let mut out = leb(inner.len() as u32);
    out.extend(inner);
    out
}

fn module(sections: Vec<Vec<u8>>) -> Vec<u8> {
    let mut out = vec![0x00, 0x61, 0x73, 0x6d, 0x01, 0x00, 0x00, 0x00];
    for s in sections {
        out.extend(s);
    }
    out
}

fn export_func(n: &str, idx: u8) -> Vec<u8> {
    let mut e = vec![1];
    e.extend(name(n));
    e.push(0);
    e.push(idx);
    e
}

fn instantiate(store: &mut Store, bytes: Vec<u8>, imports: &Vec<ImportItem>) -> Result<u32, Error> {
    let m = Rc::new(Module::compile(bytes)?);
    let out = Instance::instantiate(store, m, imports)?;
    match out.start {
        None => {}
        Some(mut machine) => {
            let signal = drive(store, &mut machine);
            store.finish_start(out.id, signal)?;
        }
    }
    Ok(out.id)
}

fn drive(store: &mut Store, m: &mut Machine) -> Signal {
    loop {
        match m.run(store, 10_000) {
            Signal::Continue => continue,
            other => return other,
        }
    }
}

fn function(store: &Store, id: u32, n: &str) -> RuntimeFunction {
    match store.manager.get_instance(id).unwrap().export(n) {
        Some(ExportValue::Function(f)) => f,
        _ => panic!("no function {}", n),
    }
}

fn call(store: &mut Store, id: u32, n: &str, args: &[WasmValue]) -> Result<Vec<WasmValue>, Error> {
    let f = function(store, id, n);
    let mut m = Instance::invoke(store, id, &f, args, 0);
    match drive(store, &mut m) {
        Signal::Finished | Signal::Failed(_) => m.outcome(&f).unwrap(),
        other => panic!("unexpected signal {:?}", other),
    }
}

fn add_module() -> Vec<u8> {
    module(vec![
        section(1, vec![1, 0x60, 2, 0x7f, 0x7f, 1, 0x7f]),
        section(3, vec![1, 0]),
        section(7, export_func("add", 0)),
        section(10, {
            let mut c = vec![1];
            c.extend(body(vec![0], vec![0x20, 0, 0x20, 1, 0x6a, 0x0b]));
            c
        }),
    ])
}

#[test]
fn arithmetic_round_trip() {
    let mut store = Store::new();
    let id = instantiate(&mut store, add_module(), &vec![]).unwrap();
    let r = call(&mut store, id, "add", &[WasmValue::from_u32(0x7fff_ffff), WasmValue::from_u32(1)]);
    assert_eq!(r, Ok(vec![WasmValue::from_u32(0x8000_0000)]));
    let r = call(&mut store, id, "add", &[WasmValue::from_i32(-1), WasmValue::from_i32(1)]);
    assert_eq!(r, Ok(vec![WasmValue::from_u32(0)]));
}

#[test]
fn invoke_checks_the_number_of_arguments() {
    let mut store = Store::new();
    let id = instantiate(&mut store, add_module(), &vec![]).unwrap();
    let r = call(&mut store, id, "add", &[WasmValue::from_u32(1)]);
    assert_eq!(r, Err(Error::Trap("invalid number of arguments")));
}

fn fib_module() -> Vec<u8> {
    let code = vec![
        0x41, 0x00, 0x21, 0x01, // a = 0
        0x41, 0x01, 0x21, 0x02, // b = 1
        0x02, 0x40, // block
        0x03, 0x40, // loop
        0x20, 0x00, 0x45, 0x0d, 0x01, // if n == 0 leave
        0x20, 0x01, 0x20, 0x02, 0x6a, 0x21, 0x03, // t = a + b
        0x20, 0x02, 0x21, 0x01, // a = b
        0x20, 0x03, 0x21, 0x02, // b = t
        0x20, 0x00, 0x41, 0x01, 0x6b, 0x21, 0x00, // n = n - 1
        0x0c, 0x00, // again
        0x0b, 0x0b, // end loop, end block
        0x20, 0x01, // a
        0x0b,
    ];
    module(vec![
        section(1, vec![1, 0x60, 1, 0x7f, 1, 0x7f]),
        section(3, vec![1, 0]),
        section(7, export_func("fib", 0)),
        section(10, {
            let mut c = vec![1];
            c.extend(body(vec![1, 3, 0x7f], code));
            c
        }),
    ])
}

#[test]
fn control_flow_fibonacci() {
    let mut store = Store::new();
    let id = instantiate(&mut store, fib_module(), &vec![]).unwrap();
    for (n, expected) in [(0u32, 0u32), (1, 1), (10, 55), (20, 6765)] {
        let r = call(&mut store, id, "fib", &[WasmValue::from_u32(n)]);
        assert_eq!(r, Ok(vec![WasmValue::from_u32(expected)]));
    }
}

fn store_load_module() -> Vec<u8> {
    let code = vec![0x20, 0, 0x20, 1, 0x36, 2, 0, 0x20, 0, 0x28, 2, 0, 0x0b];
    module(vec![
        section(1, vec![1, 0x60, 2, 0x7f, 0x7f, 1, 0x7f]),
        section(3, vec![1, 0]),
        section(5, vec![1, 0, 1]),
        section(7, export_func("store_load", 0)),
        section(10, {
            let mut c = vec![1];
            c.extend(body(vec![0], code));
            c
        }),
    ])
}

#[test]
fn memory_bounds() {
    let mut store = Store::new();
    let id = instantiate(&mut store, store_load_module(), &vec![]).unwrap();
    let ok = call(&mut store, id, "store_load", &[WasmValue::from_u32(0), WasmValue::from_u32(42)]);
    assert_eq!(ok, Ok(vec![WasmValue::from_u32(42)]));
    let last = call(&mut store, id, "store_load", &[WasmValue::from_u32(65532), WasmValue::from_u32(7)]);
    assert_eq!(last, Ok(vec![WasmValue::from_u32(7)]));
    let past = call(&mut store, id, "store_load", &[WasmValue::from_u32(65533), WasmValue::from_u32(7)]);
    assert_eq!(past, Err(Error::Trap("out of bounds memory access")));
    let far = call(&mut store, id, "store_load", &[WasmValue::from_u32(65536), WasmValue::from_u32(42)]);
    assert_eq!(far, Err(Error::Trap("out of bounds memory access")));
}

fn seven_module() -> Vec<u8> {
    module(vec![
        section(1, vec![1, 0x60, 0, 1, 0x7f]),
        section(3, vec![1, 0]),
        section(7, export_func("impl", 0)),
        section(10, {
            let mut c = vec![1];
            c.extend(body(vec![0], vec![0x41, 7, 0x0b]));
            c
        }),
    ])
}

fn dispatch_module() -> Vec<u8> {
    let mut import = vec![1];
    import.extend(name("a"));
    import.extend(name("impl"));
    import.extend(vec![0, 0]);
    module(vec![
        section(1, vec![1, 0x60, 0, 1, 0x7f]),
        section(2, import),
        section(3, vec![1, 0]),
        section(4, vec![1, 0x70, 0, 1]),
        section(7, export_func("dispatch", 1)),
        section(9, vec![1, 0, 0x41, 0, 0x0b, 1, 0]),
        section(10, {
            let mut c = vec![1];
            c.extend(body(vec![0], vec![0x41, 0, 0x11, 0, 0, 0x0b]));
            c
        }),
    ])
}

#[test]
fn indirect_call_across_instances() {
    let mut store = Store::new();
    let a = instantiate(&mut store, seven_module(), &vec![]).unwrap();
    let f = function(&store, a, "impl");
    let shared = store.manager.get_instance(a).unwrap().externalize(f, 0);
    let imports = vec![ImportItem {
        module: "a".to_string(),
        field: "impl".to_string(),
        value: ExportValue::Function(shared),
    }];
    let b = instantiate(&mut store, dispatch_module(), &imports).unwrap();
    assert_eq!(call(&mut store, b, "dispatch", &[]), Ok(vec![WasmValue::from_u32(7)]));
    assert_eq!(store.manager.counts.get(a), 1);
    assert_eq!(store.manager.counts.get(b), 0);

    // The embedder gives A up; the reference in B's table keeps it.
    store.drop_instance(a);
    assert!(store.manager.get_instance(a).is_some());
    assert_eq!(call(&mut store, b, "dispatch", &[]), Ok(vec![WasmValue::from_u32(7)]));

    // The slot is overwritten: A goes.
    let table = store.manager.get_instance(b).unwrap().table.unwrap();
    assert_eq!(store.table_set(table, 0, WasmValue::from_u64(0)), Ok(()));
    assert_eq!(store.manager.counts.get(a), 0);
    assert!(store.manager.get_instance(a).is_none());
    assert_eq!(call(&mut store, b, "dispatch", &[]), Err(Error::Trap("uninitialized element")));
}

fn trap_in_start_module(with_element: bool) -> Vec<u8> {
    let mut sections = vec![
        section(1, vec![1, 0x60, 0, 0]),
        section(3, vec![1, 0]),
    ];
    if with_element {
        sections.push(section(4, vec![1, 0x70, 0, 1]));
    }
    sections.push(section(8, vec![0]));
    if with_element {
        sections.push(section(9, vec![1, 0, 0x41, 0, 0x0b, 1, 0]));
    }
    sections.push(section(10, {
        let mut c = vec![1];
        c.extend(body(vec![0], vec![0x00, 0x0b]));
        c
    }));
    module(sections)
}

#[test]
fn trap_in_start() {
    let mut store = Store::new();
    let r = instantiate(&mut store, trap_in_start_module(false), &vec![]);
    assert_eq!(r, Err(Error::Uninstantiable("unreachable")));
    assert!(store.manager.get_instance(1).is_none());
}

#[test]
fn trap_in_start_keeps_a_referenced_instance() {
    let mut store = Store::new();
    let r = instantiate(&mut store, trap_in_start_module(true), &vec![]);
    assert_eq!(r, Err(Error::Uninstantiable("unreachable")));
    assert!(store.manager.get_instance(1).is_some());
    assert_eq!(store.manager.counts.get(1), 1);
    assert_eq!(store.table_set(0, 0, WasmValue::from_u64(0)), Ok(()));
    assert!(store.manager.get_instance(1).is_none());
}

#[test]
fn validation_rejection() {
    let bytes = module(vec![
        section(1, vec![1, 0x60, 0, 0]),
        section(3, vec![1, 0]),
        section(10, {
            let mut c = vec![1];
            c.extend(body(vec![0], vec![0x42, 0, 0x6a, 0x0b]));
            c
        }),
    ]);
    assert_eq!(Module::compile(bytes).err(), Some(Error::Validation("type mismatch")));
}

fn recursion_module() -> Vec<u8> {
    module(vec![
        section(1, vec![1, 0x60, 0, 0]),
        section(3, vec![1, 0]),
        section(7, export_func("forever", 0)),
        section(10, {
            let mut c = vec![1];
            c.extend(body(vec![0], vec![0x10, 0, 0x0b]));
            c
        }),
    ])
}

#[test]
fn call_depth_is_capped() {
    let mut store = Store::new();
    let id = instantiate(&mut store, recursion_module(), &vec![]).unwrap();
    assert_eq!(call(&mut store, id, "forever", &[]), Err(Error::Trap("call stack exhausted")));
}
