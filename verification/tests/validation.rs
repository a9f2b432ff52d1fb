use wagmi::byte_iter::ByteIter;
use wagmi::const_expr::validate_const;
use wagmi::error::Error;
use wagmi::instance::WasmGlobal;
use wagmi::instructions::{access_type, is_instruction, natural_align, numeric_is_binary, numeric_operand, numeric_result};
use wagmi::link_spec::SlotWrite;
use wagmi::linker::{collect_elements, eval_const};
use wagmi::module::{opcode_offset, Global, ImportRef};
use wagmi::signature::{Signature, ValType};
use wagmi::validator::{ControlType, ValidatorStack};
use wagmi::validators::{label_types_of, types_equal, validate_br, validate_drop, validate_else, validate_numeric, validate_select};
use wagmi::value::WasmValue;

fn sig(params: Vec<ValType>, result: Option<ValType>) -> Signature {
    Signature { params, result }
}

#[test]
fn value_stack_stays_above_the_frame() {
    let mut vs = ValidatorStack::new();
    assert_eq!((vs.size(), vs.frame_count()), (0, 0));
    assert_eq!(vs.pop_val(), Err(Error::Validation("type mismatch")));
    vs.push_ctrl(sig(vec![ValType::I32], Some(ValType::I64)), ControlType::Function, 0);
    // the parameters are pushed above the entry height
    assert_eq!((vs.size(), vs.frame_count()), (1, 1));
    assert_eq!(vs.last_frame().unwrap().height, 0);
    vs.push_val(ValType::F32);
    vs.push_ctrl(sig(vec![], None), ControlType::Block { start: 9 }, 7);
    assert_eq!(vs.last_frame().unwrap().height, 2);
    assert_eq!(vs.last_frame().unwrap().sig_pc, 7);
    assert_eq!(vs.get_frame(0).unwrap().control_type, ControlType::Function);
    assert!(vs.get_frame(2).is_none());
    // nothing of the frame below can be popped
    assert_eq!(vs.pop_val(), Err(Error::Validation("type mismatch")));
    assert_eq!(vs.size(), 2);
    vs.push_val(ValType::I64);
    assert_eq!(vs.pop_val_expect(ValType::I64), Ok(ValType::I64));
    assert_eq!(vs.size(), 2);
    let frame = vs.pop_frame().unwrap();
    assert_eq!((frame.height, frame.unreachable), (2, false));
    assert_eq!(vs.pop_val(), Ok(ValType::F32));
    assert_eq!(vs.pop_val(), Ok(ValType::I32));
    assert_eq!(vs.pop_val(), Err(Error::Validation("type mismatch")));
    vs.push_val(ValType::I64);
    assert_eq!(vs.pop_val_expect(ValType::I32), Err(Error::Validation("type mismatch")));
}

#[test]
fn unreachable_frames_give_what_is_asked() {
    let mut vs = ValidatorStack::new();
    vs.push_ctrl(sig(vec![], None), ControlType::Function, 0);
    vs.push_val(ValType::I32);
    vs.push_val(ValType::I64);
    vs.push_ctrl(sig(vec![], Some(ValType::I32)), ControlType::Loop, 3);
    vs.push_val(ValType::F64);
    vs.unreachable();
    // the stack is cut back to the entry height of the frame
    assert_eq!(vs.size(), 2);
    assert!(vs.last_frame().unwrap().unreachable);
    assert!(!vs.get_frame(0).unwrap().unreachable);
    assert_eq!(vs.pop_val(), Ok(ValType::Any));
    assert_eq!(vs.pop_val_expect(ValType::F32), Ok(ValType::F32));
    assert_eq!(vs.pop_vals(&vec![ValType::I32, ValType::I64]), Ok(vec![ValType::I32, ValType::I64]));
    assert_eq!(vs.size(), 2);
    // what is pushed is popped as what it is
    vs.push_val(ValType::I64);
    assert_eq!(vs.pop_val_expect(ValType::I32), Err(Error::Validation("type mismatch")));
    assert_eq!(vs.pop_vals(&vec![ValType::F32, ValType::I64]), Ok(vec![ValType::F32, ValType::I64]));
    assert_eq!(vs.pop_result(Some(ValType::I32)), Ok(()));
    assert_eq!(vs.pop_result(None), Ok(()));
    vs.push_result(Some(ValType::I32));
    vs.push_result(None);
    assert_eq!(vs.size(), 3);
    vs.push_vals(&vec![ValType::I32, ValType::F32]);
    assert_eq!(vs.pop_vals(&vec![ValType::I32, ValType::I32, ValType::F32]), Ok(vec![ValType::I32, ValType::I32, ValType::F32]));
}

#[test]
fn label_types() {
    let mut vs = ValidatorStack::new();
    vs.push_ctrl(sig(vec![ValType::I32], Some(ValType::I64)), ControlType::Function, 0);
    vs.pop_val().unwrap();
    // the parameter of the loop is popped before the frame is opened, and pushed again with it
    vs.push_ctrl(sig(vec![ValType::F32], Some(ValType::F64)), ControlType::Loop, 3);
    assert_eq!((vs.size(), vs.last_frame().unwrap().height), (1, 0));
    // a branch to a loop carries its parameters, a branch to anything else the result
    assert_eq!(label_types_of(&vs, 1), vec![ValType::F32]);
    assert_eq!(label_types_of(&vs, 0), vec![ValType::I64]);
    assert!(types_equal(&vec![], &vec![]));
    assert!(types_equal(&vec![ValType::I32, ValType::F64], &vec![ValType::I32, ValType::F64]));
    assert!(!types_equal(&vec![ValType::I32], &vec![ValType::I64]));
    assert!(!types_equal(&vec![ValType::I32], &vec![ValType::I32, ValType::I32]));

    // br 0 to the loop pops an f32 and leaves the frame unreachable
    let code = [0u8, 1, 5];
    let mut it = ByteIter::new(&code, 0);
    assert_eq!(validate_br(&mut it, &mut vs), Ok(()));
    assert_eq!(it.cur(), 1);
    assert!(vs.last_frame().unwrap().unreachable);
    assert_eq!(vs.size(), 0);
    // br 1 to the function frame wants an i64, and gets it from the unreachable frame
    assert_eq!(validate_br(&mut it, &mut vs), Ok(()));
    assert_eq!(validate_br(&mut it, &mut vs), Err(Error::Validation("unknown label")));
    assert_eq!(validate_br(&mut it, &mut vs), Err(Error::Malformed("unexpected end of section or function")));
}

#[test]
fn single_instructions() {
    let code = [0u8; 4];
    let mut vs = ValidatorStack::new();
    vs.push_ctrl(sig(vec![ValType::I32, ValType::I32], Some(ValType::I32)), ControlType::Function, 0);
    let mut it = ByteIter::new(&code, 0);
    assert_eq!(validate_numeric(&mut it, &mut vs, 0x6a), Ok(()));
    assert_eq!(vs.size(), 1);
    assert_eq!(validate_numeric(&mut it, &mut vs, 0xac), Ok(()));
    assert_eq!(vs.pop_val(), Ok(ValType::I64));
    vs.push_val(ValType::I64);
    assert_eq!(validate_numeric(&mut it, &mut vs, 0x6a), Err(Error::Validation("type mismatch")));
    while vs.size() > 0 {
        vs.pop_val().unwrap();
    }
    vs.push_val(ValType::F32);
    vs.push_val(ValType::F32);
    vs.push_val(ValType::I32);
    assert_eq!(validate_select(&mut it, &mut vs), Ok(()));
    assert_eq!(vs.size(), 1);
    assert_eq!(validate_drop(&mut it, &mut vs), Ok(()));
    assert_eq!(validate_drop(&mut it, &mut vs), Err(Error::Validation("type mismatch")));
    assert_eq!(validate_else(&mut it, &mut vs), Err(Error::Validation("else must close an if")));
    assert_eq!(it.cur(), 0);

    vs.push_ctrl(sig(vec![ValType::I32], Some(ValType::I64)), ControlType::If { start: 2 }, 1);
    vs.pop_val().unwrap();
    vs.push_val(ValType::I64);
    assert_eq!(validate_else(&mut it, &mut vs), Ok(()));
    // the second branch starts with the parameters again
    assert_eq!(vs.size(), 1);
    assert_eq!(vs.pop_val(), Ok(ValType::I32));
    assert_eq!(vs.last_frame().unwrap().control_type, ControlType::IfElse { if_start: 2, else_start: 0 });
    assert_eq!(vs.last_frame().unwrap().sig_pc, 1);
}

fn imported(ty: ValType, is_mutable: bool) -> Global {
    Global {
        ty,
        is_mutable,
        initializer_offset: 0,
        import: Some(ImportRef { module: "env".to_string(), field: "g".to_string() }),
    }
}

#[test]
fn constant_expressions_are_validated() {
    let globals = vec![imported(ValType::I64, false), imported(ValType::I32, true), Global {
        ty: ValType::I32,
        is_mutable: false,
        initializer_offset: 0,
        import: None,
    }];
    let check = |code: &[u8], expected: ValType| {
        let mut it = ByteIter::new(code, 0);
        let r = validate_const(&mut it, expected, &globals);
        (r, it.cur())
    };
    assert_eq!(check(&[0x41, 0x2a, 0x0b, 0xff], ValType::I32), (Ok(()), 3));
    assert_eq!(check(&[0x23, 0, 0x42, 1, 0x7c, 0x0b], ValType::I64), (Ok(()), 6));
    assert_eq!(check(&[0x23, 0, 0x0b], ValType::I32).0, Err(Error::Validation("type mismatch")));
    assert_eq!(check(&[0x23, 1, 0x0b], ValType::I32).0, Err(Error::Validation("constant expression required")));
    // only imported globals can be read
    assert_eq!(check(&[0x23, 2, 0x0b], ValType::I32).0, Err(Error::Validation("unknown global")));
    assert_eq!(check(&[0x23, 3, 0x0b], ValType::I32).0, Err(Error::Validation("unknown global")));
    assert_eq!(check(&[0x41, 1, 0x41, 2, 0x6b, 0x41, 3, 0x6c, 0x0b], ValType::I32).0, Ok(()));
    assert_eq!(check(&[0x41, 1, 0x42, 2, 0x6b, 0x0b], ValType::I32).0, Err(Error::Validation("type mismatch")));
    assert_eq!(check(&[0x44, 0, 0, 0, 0, 0, 0, 0, 0, 0x0b], ValType::F64), (Ok(()), 10));
    assert_eq!(check(&[0x20, 0, 0x0b], ValType::I32).0, Err(Error::Validation("constant expression required")));
    assert_eq!(check(&[0xd0, 0x0b], ValType::I32).0, Err(Error::Malformed("illegal opcode")));
    assert_eq!(check(&[], ValType::I32).0, Err(Error::Malformed("unexpected end of section or function")));
}

#[test]
fn constant_expressions_are_evaluated() {
    let globals = vec![
        WasmGlobal { ty: ValType::I32, mutable: false, value: WasmValue::from_i32(-7) },
        WasmGlobal { ty: ValType::I64, mutable: false, value: WasmValue::from_i64(1 << 40) },
    ];
    // the instance's globals are the second and the first of the store
    let mine = vec![1usize, 0];
    let eval = |code: &[u8]| {
        let mut pc = 0usize;
        let r = eval_const(code, &mut pc, &mine, &globals);
        (r, pc)
    };
    assert_eq!(eval(&[0x41, 0x2a, 0x0b, 0x41]), (Ok(WasmValue::from_i32(42)), 3));
    assert_eq!(eval(&[0x41, 0x7f, 0x0b]).0, Ok(WasmValue::from_u32(u32::MAX)));
    assert_eq!(eval(&[0x42, 0x7f, 0x0b]).0, Ok(WasmValue::from_i64(-1)));
    assert_eq!(eval(&[0x43, 0, 0, 0x80, 0x3f, 0x0b]), (Ok(WasmValue::from_f32_bits(0x3f80_0000)), 6));
    assert_eq!(eval(&[0x44, 1, 0, 0, 0, 0, 0, 0xf0, 0x7f, 0x0b]).0, Ok(WasmValue::from_f64_bits(0x7ff0_0000_0000_0001)));
    assert_eq!(eval(&[0x23, 1, 0x0b]).0, Ok(WasmValue::from_i32(-7)));
    assert_eq!(eval(&[0x23, 0, 0x0b]).0, Ok(WasmValue::from_i64(1 << 40)));
    // i32 arithmetic wraps
    let max = [0x41, 0xff, 0xff, 0xff, 0xff, 0x07];
    let mut add = max.to_vec();
    add.extend([0x41, 1, 0x6a, 0x0b]);
    assert_eq!(eval(&add).0, Ok(WasmValue::from_i32(i32::MIN)));
    assert_eq!(eval(&[0x41, 3, 0x41, 5, 0x6b, 0x0b]).0, Ok(WasmValue::from_i32(-2)));
    assert_eq!(eval(&[0x41, 3, 0x41, 5, 0x6c, 0x41, 1, 0x6a, 0x0b]).0, Ok(WasmValue::from_i32(16)));
    assert_eq!(eval(&[0x42, 3, 0x23, 0, 0x7e, 0x0b]).0, Ok(WasmValue::from_i64(3 << 40)));
    assert_eq!(eval(&[0x42, 0, 0x42, 1, 0x7d, 0x0b]).0, Ok(WasmValue::from_i64(-1)));
    assert_eq!(eval(&[0x42, 1, 0x42, 1, 0x7c, 0x0b]).0, Ok(WasmValue::from_i64(2)));
}

#[test]
fn instruction_tables() {
    assert!(is_instruction(0x00) && is_instruction(0x0b) && is_instruction(0x1b) && is_instruction(0xbf));
    assert!(!is_instruction(0x06) && !is_instruction(0x12) && !is_instruction(0x1c) && !is_instruction(0x25) && !is_instruction(0xc0));
    assert_eq!(natural_align(0x28), 2);
    assert_eq!(natural_align(0x29), 3);
    assert_eq!(natural_align(0x2a), 2);
    assert_eq!(natural_align(0x2b), 3);
    assert_eq!(natural_align(0x2c), 0);
    assert_eq!(natural_align(0x2f), 1);
    assert_eq!(natural_align(0x35), 2);
    assert_eq!(natural_align(0x3a), 0);
    assert_eq!(natural_align(0x3d), 1);
    assert_eq!(natural_align(0x3e), 2);
    assert_eq!(access_type(0x28), ValType::I32);
    assert_eq!(access_type(0x30), ValType::I64);
    assert_eq!(access_type(0x2a), ValType::F32);
    assert_eq!(access_type(0x39), ValType::F64);
    assert_eq!(access_type(0x3c), ValType::I64);
    assert_eq!((numeric_operand(0x45), numeric_result(0x45), numeric_is_binary(0x45)), (ValType::I32, ValType::I32, false));
    assert_eq!((numeric_operand(0x51), numeric_result(0x51), numeric_is_binary(0x51)), (ValType::I64, ValType::I32, true));
    assert_eq!((numeric_operand(0x5b), numeric_result(0x5b), numeric_is_binary(0x5b)), (ValType::F32, ValType::I32, true));
    assert_eq!((numeric_operand(0x99), numeric_result(0x99), numeric_is_binary(0x99)), (ValType::F64, ValType::F64, false));
    assert_eq!((numeric_operand(0xa7), numeric_result(0xa7)), (ValType::I64, ValType::I32));
    assert_eq!((numeric_operand(0xb6), numeric_result(0xb6)), (ValType::F64, ValType::F32));
    assert_eq!((numeric_operand(0xbf), numeric_result(0xbf)), (ValType::I64, ValType::F64));
    assert_eq!(opcode_offset(0), 0);
    assert_eq!(opcode_offset(1), 0);
    assert_eq!(opcode_offset(26), 25);
}

#[test]
fn element_segments_are_checked_while_they_are_collected() {
    let globals: Vec<WasmGlobal> = vec![];
    let mine: Vec<usize> = vec![];
    // one segment: offset 1, the functions 0 and 1
    let bytes = [0u8, 0x41, 1, 0x0b, 2, 0, 1];
    assert_eq!(
        collect_elements(&bytes, 0, 1, &mine, &globals, 4, 2),
        Ok(vec![SlotWrite { slot: 1, func_idx: 0 }, SlotWrite { slot: 2, func_idx: 1 }])
    );
    assert_eq!(collect_elements(&bytes, 0, 1, &mine, &globals, 3, 2).map(|w| w.len()), Ok(2));
    // the table is too small
    assert_eq!(collect_elements(&bytes, 0, 1, &mine, &globals, 2, 2), Err(Error::Link("elements segment does not fit")));
    // the instance has no function 1
    assert_eq!(
        collect_elements(&bytes, 0, 1, &mine, &globals, 4, 1),
        Err(Error::Trap("function has no implementation"))
    );
    assert_eq!(collect_elements(&bytes, 0, 0, &mine, &globals, 0, 0), Ok(vec![]));
    assert_eq!(
        collect_elements(&bytes[..5], 0, 1, &mine, &globals, 4, 2),
        Err(Error::Malformed("unexpected end of section or function"))
    );
}
