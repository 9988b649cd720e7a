use jazz_vm::error::VmError;
use jazz_vm::frame::{pop_call_args, scan_labels, CallFrame};
use jazz_vm::instruction::Instruction::{
    Call, Div, Goto, GotoF, GotoT, Isa, Label, LoadArg, LoadAt, LoadBool, LoadConst, LoadDouble, LoadFloat,
    LoadGlobal, LoadInt, LoadLong, LoadString, Not, Rem, Ret, Ret0, Shl, StoreAt, StoreGlobal,
};
use jazz_vm::instruction::{disassemble, DebugCode, Instruction};
use jazz_vm::machine::{FloatOp, Host, Machine};
use jazz_vm::object::{Array, Class, Function, Object, StaticRoot};
use jazz_vm::pool::ObjectPool;
use jazz_vm::text::parse_long;
use jazz_vm::value::{ArithOp, CompareOp, Evaluation, Value};

/// A host without natives or objects that refuses floating-point work.
struct Bare;

impl Host for Bare {
    fn call_native(&mut self, _m: &mut Machine, _id: usize, _args: Vec<Value>) -> Result<Value, VmError> {
        Err(VmError::NotCallable)
    }
    fn load_at(&mut self, _m: &mut Machine, _id: usize, _args: Vec<Value>) -> Result<Value, VmError> {
        Err(VmError::NotCallable)
    }
    fn store_at(&mut self, _m: &mut Machine, _id: usize, _args: Vec<Value>) -> Result<(), VmError> {
        Err(VmError::NotCallable)
    }
    fn float_op(&mut self, _op: FloatOp, _a: Value, _b: Value) -> Result<Value, VmError> {
        Err(VmError::Arithmetic)
    }
}

fn run_in(m: &mut Machine, code: Vec<Instruction>) -> Result<Value, VmError> {
    let f = Value::Object(m.pool.allocate(Object::Function(Function::from_instructions(code, 0))));
    m.invoke(&mut Bare, f, vec![Value::Null])
}

fn run(code: Vec<Instruction>) -> Result<Value, VmError> {
    run_in(&mut Machine::new(), code)
}

fn handle(v: Value) -> usize {
    match v {
        Value::Object(h) => h,
        _ => panic!("expected an object"),
    }
}

#[test]
fn allocate_then_get() {
    let mut pool = ObjectPool::new();
    let a = pool.allocate(Object::Text("a".to_string()));
    let b = pool.allocate(Object::Text("b".to_string()));
    assert_eq!((a, b), (1, 2));
    assert_eq!(pool.get_typed::<String>(a).unwrap(), "a");
    pool.deallocate(a);
    assert!(!pool.is_occupied(a));
    assert_eq!(pool.get_typed::<String>(b).unwrap(), "b");
    let c = pool.allocate(Object::Text("c".to_string()));
    assert_eq!(c, a);
    assert_eq!(pool.get_typed::<String>(c).unwrap(), "c");
    assert_eq!(pool.get_typed::<String>(b).unwrap(), "b");
    assert_eq!(pool.get_alloc_count(), 3);
    pool.reset_alloc_count();
    assert_eq!(pool.get_alloc_count(), 0);
    assert!(pool.get_typed::<Class>(b).is_none());
    assert_eq!(pool.must_get_typed::<String>(b), "b");
}

#[test]
fn static_root_in_slot_zero() {
    let pool = ObjectPool::new();
    assert_eq!(pool.size(), 1);
    assert_eq!(pool.get_static_root().get_children().len(), 0);
    let mut root = StaticRoot::new();
    root.append_child(4);
    root.append_child(2);
    assert_eq!(root.get_children(), vec![4, 2]);
}

#[test]
fn labels_resolve_to_first_occurrence() {
    let code = vec![Label(3), LoadInt(1, 0), Label(5), Label(3), Ret0];
    let labels = scan_labels(&code);
    assert_eq!(labels.get(&3), Some(&0));
    assert_eq!(labels.get(&5), Some(&2));
    assert_eq!(labels.get(&4), None);
}

#[test]
fn goto_jumps_after_first_label() {
    let code = vec![
        Goto(7),
        Label(7),
        LoadInt(1, 1),
        GotoT(2, 8),
        Ret(1),
        Label(7),
        LoadInt(1, 2),
        Ret(1),
        Label(8),
    ];
    let mut m = Machine::new();
    let f = Value::Object(m.pool.allocate(Object::Function(Function::from_instructions(code, 0))));
    // Register 2 is not a Bool: GotoT reports it.
    match m.invoke(&mut Bare, f, vec![Value::Null]) {
        Err(VmError::Expected(e, found)) => assert_eq!((e.as_str(), found.as_str()), ("Bool", "Null")),
        other => panic!("unexpected {:?}", other),
    }
    assert_eq!(run(vec![Goto(7), Label(7), LoadInt(1, 1), Ret(1), Label(7), LoadInt(1, 2), Ret(1)]).unwrap(), Value::Int(1));
}

#[test]
fn gotof_jumps_on_null() {
    assert_eq!(run(vec![GotoF(1, 0), LoadInt(2, 1), Ret(2), Label(0), LoadInt(2, 2), Ret(2)]).unwrap(), Value::Int(2));
}

#[test]
fn call_args_fill_with_null() {
    let mut stack = vec![Value::Int(1), Value::Int(2)];
    let args = pop_call_args(&mut stack, 3);
    assert_eq!(args, vec![Value::Int(2), Value::Int(1), Value::Null, Value::Null]);
    assert!(stack.is_empty());
    let mut stack = vec![Value::Int(1), Value::Int(2), Value::Int(3)];
    let args = pop_call_args(&mut stack, 1);
    assert_eq!(args, vec![Value::Int(3), Value::Int(2)]);
    assert_eq!(stack, vec![Value::Int(1)]);
}

#[test]
fn callee_frame_receives_receiver_in_register_zero() {
    let args = vec![Value::Bool(true), Value::Int(4)];
    let frame = CallFrame::enter(vec![Ret(0)], &args, 3, None);
    assert_eq!(frame.get(0), Value::Bool(true));
    assert_eq!(frame.get(1), Value::Int(4));
    assert_eq!(frame.get(2), Value::Null);
    assert_eq!(frame.arg_stack, args);
    assert_eq!(frame.stack.len(), 256);
    assert_eq!(frame.ip, 0);
    assert_eq!(CallFrame::new().stack.len(), 256);
}

#[test]
fn receiver_reaches_callee() {
    // The callee returns its receiver.
    let mut m = Machine::new();
    let callee = Value::Object(m.pool.allocate(Object::Function(Function::from_instructions(vec![Ret(0)], 0))));
    m.set_global(0, callee);
    let main = vec![LoadInt(1, 99), LoadArg(1), LoadGlobal(2, 0), Call(3, 2, 0), Ret(3)];
    assert_eq!(run_in(&mut m, main).unwrap(), Value::Int(99));
}

#[test]
fn class_fields_store_then_load() {
    let mut c = Class::new();
    assert_eq!(c.get_field("x"), None);
    c.set_field("x", Value::Int(1));
    c.set_field("y", Value::Int(2));
    c.set_field("x", Value::Int(3));
    assert_eq!(c.get_field("x"), Some(Value::Int(3)));
    assert_eq!(c.get_field("y"), Some(Value::Int(2)));
    assert_eq!(c.fields.len(), 2);
    let d = c.duplicate();
    assert_eq!(d.get_field("x"), Some(Value::Int(3)));
}

#[test]
fn array_store_then_load() {
    let mut m = Machine::new();
    let mut a = Array::new();
    a.push(Value::Int(10));
    a.push(Value::Int(20));
    let arr = m.pool.allocate(Object::Array(a));
    let code = vec![
        LoadConst(1, arr),
        LoadInt(2, 1),
        LoadLong(3, 77),
        StoreAt(3, 1, 2),
        LoadAt(4, 1, 2),
        Ret(4),
    ];
    assert_eq!(run_in(&mut m, code).unwrap(), Value::Long(77));
    let code = vec![LoadConst(1, arr), LoadInt(2, 5), LoadAt(4, 1, 2), Ret(4)];
    match run_in(&mut m, code) {
        Err(VmError::RuntimeError(_)) => {}
        other => panic!("unexpected {:?}", other),
    }
    let mut b = Array::new();
    assert_eq!(b.pop(), Value::Null);
    b.push(Value::Bool(true));
    assert_eq!(b.get(0), Some(Value::Bool(true)));
    assert!(!b.set(1, Value::Null));
    assert_eq!(b.len(), 1);
    assert_eq!(b.pop(), Value::Bool(true));
}

#[test]
fn class_field_missing() {
    let mut m = Machine::new();
    let class = m.pool.allocate(Object::Class(Class::new()));
    let code = vec![LoadConst(1, class), LoadString(2, "nope".to_string()), LoadAt(3, 1, 2), Ret(3)];
    match run_in(&mut m, code) {
        Err(VmError::FieldNotFound(name)) => assert_eq!(name, "nope"),
        other => panic!("unexpected {:?}", other),
    }
}

#[test]
fn class_without_initializer_is_reported() {
    let mut m = Machine::new();
    let class = Value::Object(m.pool.allocate(Object::Class(Class::new())));
    match m.invoke(&mut Bare, class, vec![]) {
        Err(VmError::FieldNotFound(name)) => assert_eq!(name, "init"),
        other => panic!("unexpected {:?}", other),
    }
}

#[test]
fn clone_object_copies_fields() {
    let mut m = Machine::new();
    let mut c = Class::new();
    c.set_field("k", Value::Long(5));
    let h = m.pool.allocate(Object::Class(c));
    let copy = m.clone_object(Value::Object(h)).unwrap();
    assert_ne!(copy, Value::Object(h));
    let d = m.pool.get_typed::<Class>(handle(copy)).unwrap();
    assert_eq!(d.get_field("k"), Some(Value::Long(5)));
    assert_eq!(m.clone_object(Value::Int(3)).unwrap(), Value::Int(3));
}

#[test]
fn instruction_text() {
    assert_eq!(LoadInt(1, -42).to_text(), "LoadInt 1 -42");
    assert_eq!(LoadLong(0, 9_000_000_000).to_text(), "LoadLong 0 9000000000");
    assert_eq!(LoadBool(3, false).to_text(), "LoadBool 3 false");
    assert_eq!(LoadFloat(2, 1.0f32.to_bits()).to_text(), "LoadFloat 2 0x3f800000");
    assert_eq!(LoadDouble(2, 0).to_text(), "LoadDouble 2 0x0");
    assert_eq!(LoadString(1, "hi".to_string()).to_text(), "LoadString 1 \"hi\"");
    assert_eq!(Ret0.to_text(), "Ret0");
    assert_eq!(Call(2, 3, 1).to_text(), "Call 2 3 1");
    let code = vec![Label(1), Ret0];
    assert_eq!(disassemble(&code), "0000 Label 1\n0001 Ret0\n");
    assert_eq!(disassemble(&code), disassemble(&vec![Label(1), Ret0]));
    assert_ne!(disassemble(&code), disassemble(&vec![Label(2), Ret0]));
    assert_eq!(disassemble(&vec![]), "");
}

#[test]
fn error_messages() {
    assert_eq!(VmError::LabelNotFound(12).as_str(), "Label `12` not found");
    assert_eq!(VmError::GlobalNotFound(0).as_str(), "Global `0` not found");
    assert_eq!(VmError::RuntimeError("x".to_string()).as_str(), "Runtime Error: `x`");
    assert_eq!(VmError::Expected("Bool".to_string(), "Int".to_string()).as_str(), "Expected `Bool` found `Int`");
    assert_eq!(VmError::Arithmetic.as_str(), "Arithmetic error");
    assert_eq!(VmError::NotCallable.as_str(), "Value is not callable");
    assert_eq!(VmError::FieldNotFound("f".to_string()).as_str(), "Field `f` not found");
    assert_eq!(VmError::StackOverflow.as_str(), "Stack overflow");
}

#[test]
fn string_operand_reads_as_number() {
    assert_eq!(parse_long("-17"), Some(-17));
    assert_eq!(parse_long("+5"), Some(5));
    assert_eq!(parse_long("x5"), None);
    assert_eq!(parse_long(""), None);
    assert_eq!(parse_long("9223372036854775808"), None);
    let code = vec![LoadInt(1, 1), LoadString(2, "41".to_string()), jazz_vm::instruction::Instruction::Add(3, 1, 2), Ret(3)];
    assert_eq!(run(code).unwrap(), Value::Int(42));
    let code = vec![LoadInt(1, 1), LoadString(2, "forty".to_string()), jazz_vm::instruction::Instruction::Add(3, 1, 2), Ret(3)];
    match run(code) {
        Err(VmError::Arithmetic) => {}
        other => panic!("unexpected {:?}", other),
    }
    let m = Machine::new();
    assert_eq!(m.to_long(Value::Bool(true)), Some(1));
    assert_eq!(m.to_int(Value::Long(1 << 33 | 5)), Some(5));
    assert_eq!(m.to_long(Value::Double(0)), None);
}

#[test]
fn arithmetic_rules() {
    assert_eq!(Value::arith(ArithOp::Add, Value::Null, Value::Int(4), Some(0)), Evaluation::Done(Value::Int(4)));
    assert_eq!(Value::arith(ArithOp::Div, Value::Int(4), Value::Null, Some(0)), Evaluation::Done(Value::Int(4)));
    assert_eq!(Value::arith(ArithOp::Div, Value::Long(7), Value::Int(2), Some(0)), Evaluation::Done(Value::Long(3)));
    assert_eq!(Value::arith(ArithOp::Rem, Value::Int(-7), Value::Int(2), Some(0)), Evaluation::Done(Value::Int(-1)));
    assert_eq!(Value::arith(ArithOp::Add, Value::Int(i32::MAX), Value::Int(1), Some(0)), Evaluation::Done(Value::Int(i32::MIN)));
    assert_eq!(Value::arith(ArithOp::Mul, Value::Int(3), Value::Bool(true), Some(0)), Evaluation::Done(Value::Int(3)));
    assert_eq!(Value::arith(ArithOp::Div, Value::Int(3), Value::Int(0), Some(0)), Evaluation::Unsupported);
    assert_eq!(Value::arith(ArithOp::Rem, Value::Long(3), Value::Long(0), Some(0)), Evaluation::Unsupported);
    assert_eq!(Value::arith(ArithOp::Add, Value::Bool(true), Value::Int(1), Some(0)), Evaluation::Unsupported);
    assert_eq!(Value::arith(ArithOp::Add, Value::Float(0), Value::Int(1), Some(0)), Evaluation::Floating);
    assert_eq!(Value::compare(CompareOp::Lt, Value::Int(1), Value::Long(2), Some(0)), Evaluation::Done(Value::Bool(true)));
    assert_eq!(Value::compare(CompareOp::Eq, Value::Null, Value::Null, Some(0)), Evaluation::Done(Value::Bool(false)));
    assert_eq!(Value::compare(CompareOp::Neq, Value::Long(2), Value::Int(2), Some(0)), Evaluation::Done(Value::Bool(false)));
    assert_eq!(run(vec![LoadInt(1, 7), LoadInt(2, 0), Rem(3, 1, 2), Ret(3)]).unwrap_err().as_str(), "Arithmetic error");
    assert_eq!(run(vec![LoadLong(1, 1), LoadLong(2, 40), Shl(3, 1, 2), Ret(3)]).unwrap(), Value::Long(1 << 40));
    match run(vec![LoadInt(1, 1), LoadLong(2, 4), Shl(3, 1, 2), Ret(3)]) {
        Err(VmError::Arithmetic) => {}
        other => panic!("unexpected {:?}", other),
    }
}

#[test]
fn logical_negation() {
    assert!(Value::Null.not());
    assert!(Value::Int(0).not());
    assert!(!Value::Long(3).not());
    assert!(Value::Float((-0.0f32).to_bits()).not());
    assert!(!Value::Double(0.5f64.to_bits()).not());
    assert!(Value::Bool(false).not());
    assert!(!Value::Object(1).not());
    assert_eq!(run(vec![LoadDouble(1, 0), Not(2, 1), Ret(2)]).unwrap(), Value::Bool(true));
}

#[test]
fn isa_compares_type_names() {
    let code = vec![
        LoadString(1, "a".to_string()),
        LoadString(2, "b".to_string()),
        Isa(3, 1, 2),
        LoadFloat(4, 0),
        Isa(5, 1, 4),
        StoreGlobal(3, 0),
        StoreGlobal(5, 1),
        Ret0,
    ];
    let mut m = Machine::new();
    assert_eq!(run_in(&mut m, code).unwrap(), Value::Null);
    assert_eq!(m.get_global(0), Some(Value::Bool(true)));
    assert_eq!(m.get_global(1), Some(Value::Bool(false)));
}

#[test]
fn code_exhausted_returns_null() {
    assert_eq!(run(vec![LoadInt(1, 3)]).unwrap(), Value::Null);
    assert_eq!(run(vec![]).unwrap(), Value::Null);
}

#[test]
fn floating_pair_goes_to_host() {
    match run(vec![LoadFloat(1, 0), LoadFloat(2, 0), Div(3, 1, 2), Ret(3)]) {
        Err(VmError::Arithmetic) => {}
        other => panic!("unexpected {:?}", other),
    }
}

#[test]
fn runaway_recursion_overflows() {
    let mut m = Machine::new();
    let code = vec![LoadGlobal(1, 0), LoadArg(1), Call(2, 1, 0), Ret(2)];
    let f = Value::Object(m.pool.allocate(Object::Function(Function::from_instructions(code, 0))));
    m.set_global(0, f);
    match m.invoke(&mut Bare, f, vec![Value::Null]) {
        Err(VmError::StackOverflow) => {}
        other => panic!("unexpected {:?}", other),
    }
    assert_eq!(m.stack.len(), 0);
}

#[test]
fn register_out_of_range_is_reported() {
    match run(vec![LoadInt(300, 1), Ret(300)]) {
        Err(VmError::RuntimeError(_)) => {}
        other => panic!("unexpected {:?}", other),
    }
}

#[test]
fn registers_from_host_api() {
    let mut m = Machine::new();
    m.stack.push(CallFrame::new());
    m.set(4, Value::Int(8));
    m.set_this(Value::Bool(true));
    assert_eq!(m.get(4), Value::Int(8));
    assert_eq!(m.last_frame().get(0), Value::Bool(true));
    assert_eq!(m.typename(Value::Long(1)), "Long");
}

#[test]
fn run_code_in_current_frame() {
    let mut m = Machine::new();
    m.stack.push(CallFrame::new());
    assert_eq!(m.run_code(&mut Bare, vec![LoadInt(1, 5), Ret(1)]).unwrap(), Value::Int(5));
    assert_eq!(m.stack.len(), 0);
    match m.run_code(&mut Bare, vec![Ret0]) {
        Err(VmError::RuntimeError(_)) => {}
        other => panic!("unexpected {:?}", other),
    }
}

#[test]
fn listing_through_debug_code() {
    assert_eq!(vec![LoadInt(0, 7), Ret0].toString(), "0000 LoadInt 0 7\n0001 Ret0\n");
}

#[test]
fn branch_and_dispatch_move_the_instruction_pointer() {
    let mut m = Machine::new();
    let args = vec![Value::Null];
    m.stack.push(CallFrame::enter(vec![Ret0, Ret0, Ret0], &args, 0, None));
    m.dispatch();
    assert_eq!(m.last_frame().ip, 1);
    m.branch(0);
    assert_eq!(m.last_frame().ip, 0);
    m.last_frame_mut().ip = 2;
    assert_eq!(m.last_frame().ip, 2);
}

#[test]
fn store_past_array_end_keeps_array() {
    let mut m = Machine::new();
    let mut a = Array::new();
    a.push(Value::Int(1));
    let arr = m.pool.allocate(Object::Array(a));
    let code = vec![LoadConst(1, arr), LoadInt(2, 3), LoadInt(3, 9), StoreAt(3, 1, 2), Ret0];
    match run_in(&mut m, code) {
        Err(VmError::RuntimeError(_)) => {}
        other => panic!("unexpected {:?}", other),
    }
    assert_eq!(m.pool.get_typed::<Array>(arr).unwrap().elements, vec![Value::Int(1)]);
}

#[test]
fn neq_is_the_negation_of_eq() {
    let code = vec![
        LoadLong(1, 2),
        LoadInt(2, 2),
        jazz_vm::instruction::Instruction::Neq(3, 1, 2),
        Ret(3),
    ];
    assert_eq!(run(code).unwrap(), Value::Bool(false));
}

#[test]
fn gt_text_ends_with_a_space() {
    assert_eq!(jazz_vm::instruction::Instruction::Gt(1, 2, 3).to_text(), "Gt 1 2 3 ");
    assert_eq!(jazz_vm::instruction::Instruction::Ge(1, 2, 3).to_text(), "Ge 1 2 3");
}

#[test]
fn non_object_receiver_is_reported_with_its_debug_text() {
    match run(vec![LoadInt(1, 5), LoadInt(2, 0), LoadAt(3, 1, 2), Ret(3)]) {
        Err(VmError::Expected(e, found)) => assert_eq!((e.as_str(), found.as_str()), ("Value::Object", "Int(5)")),
        other => panic!("unexpected {:?}", other),
    }
    match run(vec![LoadBool(1, true), StoreAt(1, 1, 1), Ret0]) {
        Err(VmError::Expected(e, found)) => assert_eq!((e.as_str(), found.as_str()), ("Value::Object", "Bool(true)")),
        other => panic!("unexpected {:?}", other),
    }
}

#[test]
fn failing_run_keeps_its_frames() {
    let mut m = Machine::new();
    m.stack.push(CallFrame::new());
    match m.run_code(&mut Bare, vec![LoadInt(1, 5), Goto(9), Ret(1)]) {
        Err(VmError::LabelNotFound(9)) => {}
        other => panic!("unexpected {:?}", other),
    }
    assert_eq!(m.stack.len(), 1);
    assert_eq!(m.get(1), Value::Int(5));
    assert_eq!(m.last_frame().ip, 1);
}

#[test]
fn array_store_key_reads_as_integer() {
    let mut m = Machine::new();
    let mut a = Array::new();
    a.push(Value::Int(1));
    a.push(Value::Int(2));
    let arr = m.pool.allocate(Object::Array(a));
    let code = vec![LoadConst(1, arr), LoadBool(2, true), LoadInt(3, 9), StoreAt(3, 1, 2), Ret0];
    assert_eq!(run_in(&mut m, code).unwrap(), Value::Null);
    assert_eq!(m.pool.get_typed::<Array>(arr).unwrap().elements, vec![Value::Int(1), Value::Int(9)]);
}
