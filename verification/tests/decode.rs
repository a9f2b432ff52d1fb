use wagmi::error::Error;
use wagmi::module::{ExternType, Module};
use wagmi::signature::ValType;

fn add_module() -> Vec<u8> {
    vec![
        0x00, 0x61, 0x73, 0x6d, 0x01, 0x00, 0x00, 0x00, // header
        0x01, 0x07, 0x01, 0x60, 0x02, 0x7f, 0x7f, 0x01, 0x7f, // type (i32, i32) -> i32
        0x03, 0x02, 0x01, 0x00, // one function of type 0
        0x07, 0x07, 0x01, 0x03, 0x61, 0x64, 0x64, 0x00, 0x00, // export "add"
        0x0a, 0x09, 0x01, 0x07, 0x00, 0x20, 0x00, 0x20, 0x01, 0x6a, 0x0b, // body
    ]
}

#[test]
fn compile_add_module() {
    let m = Module::compile(add_module()).unwrap();
    assert_eq!(m.types.len(), 1);
    assert_eq!(m.types[0].params, vec![ValType::I32, ValType::I32]);
    assert_eq!(m.types[0].result, Some(ValType::I32));
    assert_eq!(m.functions.len(), 1);
    assert_eq!(m.functions[0].body_start, 35);
    assert_eq!(m.functions[0].body_end, 41);
    assert_eq!(m.functions[0].locals, vec![ValType::I32, ValType::I32]);
    assert!(m.functions[0].is_declared);
    assert_eq!(m.exports.len(), 1);
    assert_eq!(m.exports[0].name, "add");
    assert_eq!(m.exports[0].export.extern_type, ExternType::Func);
    assert_eq!(m.exports[0].export.idx, 0);
    assert_eq!(m.start, u32::MAX);
}

#[test]
fn compile_rejects_bad_magic() {
    let mut bytes = add_module();
    bytes[1] = 0x62;
    assert_eq!(Module::compile(bytes).err(), Some(Error::Malformed("magic header not detected")));
}

#[test]
fn compile_rejects_type_mismatch() {
    // body: i64.const 0; i32.add; end
    let bytes = vec![
        0x00, 0x61, 0x73, 0x6d, 0x01, 0x00, 0x00, 0x00,
        0x01, 0x04, 0x01, 0x60, 0x00, 0x00,
        0x03, 0x02, 0x01, 0x00,
        0x0a, 0x07, 0x01, 0x05, 0x00, 0x42, 0x00, 0x6a, 0x0b,
    ];
    assert_eq!(Module::compile(bytes).err(), Some(Error::Validation("type mismatch")));
}
