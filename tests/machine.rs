use std::collections::HashMap;

use jazz_vm::error::VmError;
use jazz_vm::instruction::Instruction;
use jazz_vm::instruction::Instruction::{
    Add, Call, Div, Goto, GotoF, Label, LoadArg, LoadAt, LoadConst, LoadDouble, LoadFloat, LoadGlobal, LoadInt,
    LoadLong, Lt, Mul, Ret, StoreAt, Sub,
};
use jazz_vm::machine::{FloatOp, Host, Machine};
use jazz_vm::object::{Class, Function, Object};
use jazz_vm::value::{ArithOp, CompareOp, Value};

/// A host with one kind of object: a table from integer keys to values.
struct TestHost {
    tables: HashMap<usize, HashMap<usize, Value>>,
}

impl TestHost {
    fn new() -> TestHost {
        TestHost { tables: HashMap::new() }
    }
}

fn key_of(v: Value) -> Result<usize, VmError> {
    match v {
        Value::Int(i) => Ok(i as usize),
        Value::Long(l) => Ok(l as usize),
        _ => Err(VmError::Expected("Int".to_string(), "other".to_string())),
    }
}

fn float_arith(op: ArithOp, x: f64, y: f64) -> f64 {
    match op {
        ArithOp::Add => x + y,
        ArithOp::Sub => x - y,
        ArithOp::Mul => x * y,
        ArithOp::Div => x / y,
        ArithOp::Rem => x % y,
    }
}

fn as_f64(v: Value) -> f64 {
    match v {
        Value::Int(i) => i as f64,
        Value::Long(l) => l as f64,
        Value::Float(b) => f32::from_bits(b) as f64,
        Value::Double(b) => f64::from_bits(b),
        Value::Bool(b) => {
            if b {
                1.0
            } else {
                0.0
            }
        }
        _ => 0.0,
    }
}

impl Host for TestHost {
    fn call_native(&mut self, m: &mut Machine, id: usize, args: Vec<Value>) -> Result<Value, VmError> {
        match id {
            // Returns its first argument after the receiver, doubled.
            0 => match args.get(1) {
                Some(Value::Int(i)) => Ok(Value::Int(i * 2)),
                _ => Ok(Value::Null),
            },
            // Calls its first argument back through the machine.
            1 => {
                let f = args[1];
                m.invoke(self, f, vec![f])
            }
            _ => Err(VmError::NotCallable),
        }
    }

    fn load_at(&mut self, _m: &mut Machine, id: usize, args: Vec<Value>) -> Result<Value, VmError> {
        let k = key_of(args[1])?;
        match self.tables.get(&id).and_then(|t| t.get(&k)) {
            Some(v) => Ok(*v),
            None => Err(VmError::FieldNotFound(k.to_string())),
        }
    }

    fn store_at(&mut self, _m: &mut Machine, id: usize, args: Vec<Value>) -> Result<(), VmError> {
        let k = key_of(args[1])?;
        self.tables.entry(id).or_default().insert(k, args[2]);
        Ok(())
    }

    fn float_op(&mut self, op: FloatOp, a: Value, b: Value) -> Result<Value, VmError> {
        let single = matches!(a, Value::Float(_)) && !matches!(b, Value::Double(_));
        let (x, y) = (as_f64(a), as_f64(b));
        match op {
            FloatOp::Arith(op) => {
                if matches!(a, Value::Int(_)) {
                    return Ok(Value::Int(float_arith(op, x, y.trunc()) as i32));
                }
                if matches!(a, Value::Long(_)) {
                    return Ok(Value::Long(float_arith(op, x, y.trunc()) as i64));
                }
                let r = float_arith(op, x, y);
                if single {
                    Ok(Value::Float((r as f32).to_bits()))
                } else {
                    Ok(Value::Double(r.to_bits()))
                }
            }
            FloatOp::Compare(op) => Ok(Value::Bool(match op {
                CompareOp::Gt => x > y,
                CompareOp::Ge => x >= y,
                CompareOp::Lt => x < y,
                CompareOp::Le => x <= y,
                CompareOp::Eq => x == y,
                CompareOp::Neq => x != y,
            })),
        }
    }
}

fn function(m: &mut Machine, code: Vec<Instruction>, argc: usize) -> Value {
    Value::Object(m.pool.allocate(Object::Function(Function::from_instructions(code, argc))))
}

fn text(m: &mut Machine, s: &str) -> Value {
    Value::Object(m.pool.allocate(Object::Text(s.to_string())))
}

fn run(code: Vec<Instruction>) -> Result<Value, VmError> {
    let mut m = Machine::new();
    let mut host = TestHost::new();
    let f = function(&mut m, code, 0);
    m.invoke(&mut host, f, vec![Value::Null])
}

#[test]
fn load_at() {
    let mut machine = Machine::new();
    let mut host = TestHost::new();
    let string = match text(&mut machine, "disassemble") {
        Value::Object(h) => h,
        _ => unreachable!(),
    };
    let code = vec![LoadInt(2, 2), Add(2, 1, 2), Ret(2)];
    let func = match function(&mut machine, code, 1) {
        Value::Object(h) => h,
        _ => unreachable!(),
    };
    let code = vec![
        LoadConst(2, func),
        LoadConst(1, string),
        LoadArg(2),
        LoadAt(2, 2, 1),
        LoadArg(2),
        Call(2, 2, 0),
        Ret(2),
    ];
    let main = function(&mut machine, code, 0);
    let v = machine.invoke(&mut host, main, vec![]).unwrap();
    let listing = match v {
        Value::Object(id) => machine.pool.get_typed::<String>(id).unwrap().clone(),
        _ => panic!("expected a string object"),
    };
    println!("{}", listing);
    assert_eq!(listing, "0000 LoadInt 2 2\n0001 Add 2 1 2\n0002 Ret 2\n");
}

#[test]
fn load_at_and_store_at() {
    let mut m = Machine::new();
    let mut host = TestHost::new();
    let obj = m.pool.allocate(Object::Host(7));
    let code = vec![
        LoadConst(1, obj),
        LoadInt(2, 1),
        LoadFloat(3, 2.6f32.to_bits()),
        StoreAt(3, 1, 2),
        LoadArg(1),
        LoadAt(4, 1, 2),
        Ret(4),
    ];
    let func = function(&mut m, code, 0);
    let value = m.invoke(&mut host, func, vec![]).unwrap();
    if let Value::Float(f) = value {
        assert_eq!(f32::from_bits(f), 2.6);
    } else {
        panic!("");
    }
}

#[test]
fn integer_return() {
    assert_eq!(run(vec![LoadInt(1, 42), Ret(1)]).unwrap(), Value::Int(42));
}

fn factorial_machine() -> (Machine, Value) {
    const G_FACT: usize = 1;
    let mut m = Machine::new();
    let fact = vec![
        LoadInt(2, 0),
        Instruction::Eq(2, 1, 2),
        GotoF(2, 1),
        LoadInt(2, 1),
        Ret(2),
        Label(1),
        LoadGlobal(3, G_FACT),
        LoadInt(5, 1),
        Sub(5, 1, 5),
        LoadArg(5),
        LoadArg(3),
        Call(3, 3, 1),
        Mul(3, 3, 1),
        Ret(3),
    ];
    let fact = function(&mut m, fact, 1);
    m.set_global(G_FACT, fact);
    let main = vec![
        LoadLong(1, 12),
        LoadArg(1),
        LoadGlobal(2, G_FACT),
        LoadArg(2),
        Call(2, 2, 1),
        Ret(2),
    ];
    let main = function(&mut m, main, 0);
    (m, main)
}

#[test]
fn factorial() {
    let (mut m, main) = factorial_machine();
    let mut host = TestHost::new();
    assert_eq!(m.invoke(&mut host, main, vec![Value::Null]).unwrap(), Value::Long(479001600));
    assert_eq!(m.stack.len(), 0);
}

#[test]
fn mixed_width_addition() {
    assert_eq!(run(vec![LoadInt(1, 3), LoadLong(2, 4), Add(3, 1, 2), Ret(3)]).unwrap(), Value::Long(7));
}

#[test]
fn class_construction() {
    let mut m = Machine::new();
    let mut host = TestHost::new();
    let x = match text(&mut m, "x") {
        Value::Object(h) => h,
        _ => unreachable!(),
    };
    let init = vec![LoadConst(1, x), LoadInt(2, 7), StoreAt(2, 0, 1), Ret(0)];
    let init = function(&mut m, init, 0);
    let call = vec![LoadConst(1, x), LoadAt(2, 0, 1), Ret(2)];
    let call = function(&mut m, call, 0);
    let mut class = Class::new();
    class.set_field("init", init);
    class.set_field("__call__", call);
    let class = Value::Object(m.pool.allocate(Object::Class(class)));
    let first = m.invoke(&mut host, class, vec![Value::Null]).unwrap();
    assert_eq!(first, class);
    let second = m.invoke(&mut host, class, vec![]).unwrap();
    assert_eq!(second, Value::Int(7));
}

#[test]
fn label_resolved_loop() {
    let code = vec![
        LoadInt(1, 0),
        LoadInt(2, 1_000_000),
        LoadInt(3, 1),
        Label(0),
        Lt(4, 1, 2),
        GotoF(4, 1),
        Add(1, 1, 3),
        Goto(0),
        Label(1),
        Ret(1),
    ];
    assert_eq!(run(code).unwrap(), Value::Int(1_000_000));
}

#[test]
fn goto_undefined_label() {
    match run(vec![LoadInt(1, 5), Goto(9), Ret(1)]) {
        Err(VmError::LabelNotFound(9)) => {}
        _ => panic!("expected LabelNotFound"),
    }
}

#[test]
fn missing_arguments_are_null() {
    let mut m = Machine::new();
    let mut host = TestHost::new();
    // Returns its second argument, which the caller never pushed.
    let callee = function(&mut m, vec![Ret(2)], 2);
    m.set_global(0, callee);
    let main = vec![LoadInt(1, 5), LoadArg(1), LoadGlobal(2, 0), LoadArg(2), Call(3, 2, 2), Ret(3)];
    let main = function(&mut m, main, 0);
    assert_eq!(m.invoke(&mut host, main, vec![Value::Null]).unwrap(), Value::Null);
}

#[test]
fn null_operand_yields_the_other() {
    assert_eq!(run(vec![LoadInt(1, 9), Mul(3, 1, 2), Ret(3)]).unwrap(), Value::Int(9));
    assert_eq!(run(vec![LoadLong(2, 4), Div(3, 1, 2), Ret(3)]).unwrap(), Value::Long(4));
    assert_eq!(run(vec![Sub(3, 1, 2), Ret(3)]).unwrap(), Value::Null);
}

#[test]
fn integer_division_by_zero() {
    match run(vec![LoadInt(1, 9), LoadInt(2, 0), Div(3, 1, 2), Ret(3)]) {
        Err(VmError::Arithmetic) => {}
        _ => panic!("expected an arithmetic error"),
    }
}

#[test]
fn float_division_by_zero() {
    let v = run(vec![LoadDouble(1, 1.0f64.to_bits()), LoadDouble(2, 0.0f64.to_bits()), Div(3, 1, 2), Ret(3)])
        .unwrap();
    match v {
        Value::Double(b) => assert_eq!(f64::from_bits(b), f64::INFINITY),
        _ => panic!("expected a double"),
    }
}

#[test]
fn not_callable() {
    let mut m = Machine::new();
    let mut host = TestHost::new();
    match m.invoke(&mut host, Value::Int(3), vec![]) {
        Err(VmError::NotCallable) => {}
        _ => panic!("expected NotCallable"),
    }
}

#[test]
fn native_reenters_machine() {
    let mut m = Machine::new();
    let mut host = TestHost::new();
    let native = Value::Object(m.pool.allocate(Object::Function(Function::from_native(1))));
    let inner = function(&mut m, vec![LoadInt(1, 11), Ret(1)], 0);
    m.set_global(0, native);
    m.set_global(1, inner);
    let main = vec![LoadGlobal(1, 1), LoadArg(1), LoadGlobal(2, 0), LoadArg(2), Call(3, 2, 1), Ret(3)];
    let main = function(&mut m, main, 0);
    assert_eq!(m.invoke(&mut host, main, vec![Value::Null]).unwrap(), Value::Int(11));
}

#[test]
fn global_not_found() {
    match run(vec![LoadGlobal(1, 3), Ret(1)]) {
        Err(VmError::GlobalNotFound(3)) => {}
        _ => panic!("expected GlobalNotFound"),
    }
}
