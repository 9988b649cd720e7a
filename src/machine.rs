use vstd::hash_map::HashMapWithView;
use vstd::prelude::*;
use vstd::string::StringExecFns;

use crate::error::VmError;
use crate::frame::{after_call_args, call_args, labels_resolved, pop_call_args, seeded_registers, CallFrame};
use crate::instruction::{disassemble, Instruction};
use crate::text::{
    decimal, hexadecimal, parse_long, push_decimal, push_hexadecimal, push_signed, signed_decimal,
};
use crate::run::{
    int_of,
    law_run_keeps_frames,
    lemma_fields_view, slots_view,
    frames_view,
    installed, label_map,
    lemma_tracks_after, lemma_tracks_limit, Fault, MachineView, lemma_tracks_start, tracks,
    run_spec,
    load_at_spec, read_spec, step_spec, store_at_spec, type_name_in, FrameView, Read,
    enter_spec, fault, lemma_frames_push, lemma_label_map, resolve_spec, with_receiver, Target,
    arith_step, binary_spec, bit_step, compare_step, finish_spec, goto_spec, lemma_frames_drop, logic_step, coerced_in, frame_view, index_of, lemma_frames_top, machine_view, moved, next, outcome, set_next, text_in, top,
    with_top, written,
};
use crate::object::{Function, Object, VirtualFunction};
use crate::pool::{array_changed, class_changed, ObjectPool};
use crate::value::{floating_drives, arith_spec, bit_spec, compare_spec, not_spec, ArithOp, BitOp, CompareOp, Evaluation, Value};

verus! {

broadcast use vstd::std_specs::hash::group_hash_axioms;

/// Deepest call stack the machine allows.
pub const STACK_LIMIT: usize = 4096;

/// An operation on floating-point operands, computed by the host.
#[derive(Clone, Copy, Debug, PartialEq, Eq, Structural)]
pub enum FloatOp {
    Arith(ArithOp),
    Compare(CompareOp),
}

/// What the embedding program provides: native functions, objects of its
/// own, and floating-point arithmetic.
///
/// The machine makes no assumption on what these methods do; a method that
/// receives the machine may call `invoke` on it again.
pub trait Host {
    /// Runs the native function `id`; `args` holds the receiver first.
    fn call_native(&mut self, m: &mut Machine, id: usize, args: Vec<Value>) -> Result<Value, VmError>;

    /// Reads `args[1]` from the host object `id`; `args[0]` is the object.
    fn load_at(&mut self, m: &mut Machine, id: usize, args: Vec<Value>) -> Result<Value, VmError>;

    /// Stores `args[2]` at `args[1]` in the host object `id`; `args[0]` is the object.
    fn store_at(&mut self, m: &mut Machine, id: usize, args: Vec<Value>) -> Result<(), VmError>;

    /// Computes `op` when a `Float` or `Double` operand drives the result,
    /// following IEEE 754.
    fn float_op(&mut self, op: FloatOp, a: Value, b: Value) -> Result<Value, VmError>;
}

/// How the current invocation stands after one step.
#[derive(Clone, Copy, Debug, PartialEq, Eq, Structural)]
pub enum Status {
    /// Instructions remain to be run.
    Running,
    /// The invocation returned this value.
    Returned(Value),
}

/// The interpreter: the heap, the call stack and the globals.
pub struct Machine {
    pub stack: Vec<CallFrame>,
    pub pool: ObjectPool,
    pub globals: HashMapWithView<usize, Value>,
}

/// Whether every register operand of `i` is below `n`.
pub open spec fn registers_below(i: Instruction, n: nat) -> bool {
    match i {
        Instruction::LoadString(a, _) | Instruction::LoadBool(a, _) | Instruction::LoadInt(a, _)
        | Instruction::LoadLong(a, _) | Instruction::LoadFloat(a, _) | Instruction::LoadDouble(a, _)
        | Instruction::LoadConst(a, _) | Instruction::LoadGlobal(a, _) | Instruction::StoreGlobal(a, _)
        | Instruction::LoadArg(a) | Instruction::JumpT(a, _) | Instruction::JumpF(a, _)
        | Instruction::GotoT(a, _) | Instruction::GotoF(a, _) | Instruction::Ret(a) => a < n,
        Instruction::Move(a, b) | Instruction::Not(a, b) | Instruction::Call(a, b, _) => a < n && b < n,
        Instruction::LoadAt(a, b, c) | Instruction::StoreAt(a, b, c) | Instruction::Add(a, b, c)
        | Instruction::Sub(a, b, c) | Instruction::Mul(a, b, c) | Instruction::Div(a, b, c)
        | Instruction::Rem(a, b, c) | Instruction::Gt(a, b, c) | Instruction::Ge(a, b, c)
        | Instruction::Lt(a, b, c) | Instruction::Le(a, b, c) | Instruction::Eq(a, b, c)
        | Instruction::Neq(a, b, c) | Instruction::And(a, b, c) | Instruction::Or(a, b, c)
        | Instruction::BitAnd(a, b, c) | Instruction::BitOr(a, b, c) | Instruction::BitXor(a, b, c)
        | Instruction::Shl(a, b, c) | Instruction::Shr(a, b, c) | Instruction::Isa(a, b, c) => a < n && b < n
            && c < n,
        Instruction::Jump(_) | Instruction::Goto(_) | Instruction::Label(_) | Instruction::Ret0 => true,
    }
}

fn registers_in_range(i: &Instruction, n: usize) -> (r: bool)
    ensures
        r == registers_below(*i, n as nat),
{
    match i {
        Instruction::LoadString(a, _) | Instruction::LoadBool(a, _) | Instruction::LoadInt(a, _)
        | Instruction::LoadLong(a, _) | Instruction::LoadFloat(a, _) | Instruction::LoadDouble(a, _)
        | Instruction::LoadConst(a, _) | Instruction::LoadGlobal(a, _) | Instruction::StoreGlobal(a, _)
        | Instruction::LoadArg(a) | Instruction::JumpT(a, _) | Instruction::JumpF(a, _)
        | Instruction::GotoT(a, _) | Instruction::GotoF(a, _) | Instruction::Ret(a) => *a < n,
        Instruction::Move(a, b) | Instruction::Not(a, b) | Instruction::Call(a, b, _) => *a < n && *b < n,
        Instruction::LoadAt(a, b, c) | Instruction::StoreAt(a, b, c) | Instruction::Add(a, b, c)
        | Instruction::Sub(a, b, c) | Instruction::Mul(a, b, c) | Instruction::Div(a, b, c)
        | Instruction::Rem(a, b, c) | Instruction::Gt(a, b, c) | Instruction::Ge(a, b, c)
        | Instruction::Lt(a, b, c) | Instruction::Le(a, b, c) | Instruction::Eq(a, b, c)
        | Instruction::Neq(a, b, c) | Instruction::And(a, b, c) | Instruction::Or(a, b, c)
        | Instruction::BitAnd(a, b, c) | Instruction::BitOr(a, b, c) | Instruction::BitXor(a, b, c)
        | Instruction::Shl(a, b, c) | Instruction::Shr(a, b, c) | Instruction::Isa(a, b, c) => *a < n && *b < n
            && *c < n,
        Instruction::Jump(_) | Instruction::Goto(_) | Instruction::Label(_) | Instruction::Ret0 => true,
    }
}

/// The name of a value's variant.
pub open spec fn kind_name(v: Value) -> Seq<char> {
    match v {
        Value::Int(_) => "Int"@,
        Value::Long(_) => "Long"@,
        Value::Float(_) => "Float"@,
        Value::Double(_) => "Double"@,
        Value::Object(_) => "Object"@,
        Value::Null => "Null"@,
        Value::Bool(_) => "Bool"@,
    }
}

/// The name of a value's variant.
pub fn kind_of(v: Value) -> (r: String)
    ensures
        r@ == kind_name(v),
{
    match v {
        Value::Int(_) => String::from_str("Int"),
        Value::Long(_) => String::from_str("Long"),
        Value::Float(_) => String::from_str("Float"),
        Value::Double(_) => String::from_str("Double"),
        Value::Object(_) => String::from_str("Object"),
        Value::Null => String::from_str("Null"),
        Value::Bool(_) => String::from_str("Bool"),
    }
}

/// The debug text of a value: its variant and payload, floating payloads
/// as their bit patterns.
pub open spec fn debug_text(v: Value) -> Seq<char> {
    match v {
        Value::Int(i) => "Int("@ + signed_decimal(i as int) + ")"@,
        Value::Long(l) => "Long("@ + signed_decimal(l as int) + ")"@,
        Value::Float(b) => "Float(0x"@ + hexadecimal(b as nat) + ")"@,
        Value::Double(b) => "Double(0x"@ + hexadecimal(b as nat) + ")"@,
        Value::Object(h) => "Object("@ + decimal(h as nat) + ")"@,
        Value::Null => "Null"@,
        Value::Bool(b) => if b {
            "Bool(true)"@
        } else {
            "Bool(false)"@
        },
    }
}

/// The debug text of a value.
pub fn debug_of(v: Value) -> (r: String)
    ensures
        r@ == debug_text(v),
{
    let mut s = String::new();
    match v {
        Value::Int(i) => {
            s.append("Int(");
            push_signed(&mut s, i as i64);
            s.append(")");
        },
        Value::Long(l) => {
            s.append("Long(");
            push_signed(&mut s, l);
            s.append(")");
        },
        Value::Float(b) => {
            s.append("Float(0x");
            push_hexadecimal(&mut s, b as u64);
            s.append(")");
        },
        Value::Double(b) => {
            s.append("Double(0x");
            push_hexadecimal(&mut s, b);
            s.append(")");
        },
        Value::Object(h) => {
            s.append("Object(");
            push_decimal(&mut s, h as u64);
            s.append(")");
        },
        Value::Null => s.append("Null"),
        Value::Bool(b) => {
            if b {
                s.append("Bool(true)");
            } else {
                s.append("Bool(false)");
            }
        },
    }
    assert(s@ =~= debug_text(v));
    s
}

fn expected(what: &str, found: Value) -> (e: VmError)
    ensures
        e matches VmError::Expected(x, y) && x@ == what@ && y@ == kind_name(found),
{
    VmError::Expected(String::from_str(what), kind_of(found))
}

fn runtime(cause: &str) -> (e: VmError)
    ensures
        e matches VmError::RuntimeError(c) && c@ == cause@,
{
    VmError::RuntimeError(String::from_str(cause))
}

fn copy_code(code: &Vec<Instruction>) -> (r: Vec<Instruction>)
    ensures
        r@ == code@,
{
    let mut r: Vec<Instruction> = Vec::new();
    let mut k: usize = 0;
    while k < code.len()
        invariant
            k <= code@.len(),
            r@ == code@.take(k as int),
        decreases code@.len() - k,
    {
        r.push(code[k].duplicate());
        k = k + 1;
        assert(r@ =~= code@.take(k as int));
    }
    assert(r@ =~= code@);
    r
}

/// Whether `v` names a slot of `pool` that can be called: a function or a
/// class.
pub open spec fn callable_in(pool: &ObjectPool, v: Value) -> bool {
    &&& v is Object
    &&& pool.occupied(v->Object_0)
    &&& (pool.slots()[v->Object_0 as int].unwrap() is Function || pool.slots()[v->Object_0 as int].unwrap() is Class)
}

/// Whether an exec callee is the target `t`.
spec fn callee_is(c: Callee, t: Target) -> bool {
    match (c, t) {
        (Callee::Code(v), Target::Code(s)) => v@ == s,
        (Callee::Native(a), Target::Native(b)) => a == b,
        _ => false,
    }
}

/// What a callable value resolves to once classes have delegated.
enum Callee {
    Code(Vec<Instruction>),
    Native(usize),
}

impl Machine {
    /// The current frame.
    pub open spec fn top(&self) -> CallFrame {
        self.stack@.last()
    }

    /// Whether the current frame exists and register `r` is in its file.
    pub open spec fn has_register(&self, r: usize) -> bool {
        self.stack@.len() > 0 && r < self.top().stack@.len()
    }

    /// Whether the machine is `old` with register `r` of the current frame
    /// set to `v` and nothing else changed.
    pub open spec fn register_set(old: Machine, new: Machine, r: usize, v: Value) -> bool {
        &&& old.has_register(r)
        &&& new.stack@.len() == old.stack@.len()
        &&& forall|i: int| 0 <= i < old.stack@.len() - 1 ==> new.stack@[i] == old.stack@[i]
        &&& new.top().stack@ == old.top().stack@.update(r as int, v)
        &&& new.top().ip == old.top().ip
        &&& new.top().code == old.top().code
        &&& new.top().arg_stack == old.top().arg_stack
        &&& new.top().labels == old.top().labels
        &&& new.top().dest == old.top().dest
        &&& new.top().init_of == old.top().init_of
        &&& new.pool == old.pool
        &&& new.globals == old.globals
    }

    /// A machine with an empty call stack, a fresh pool and no globals.
    pub fn new() -> (r: Machine)
        ensures
            r.stack@.len() == 0,
            r.pool.slots()[0] matches Some(Object::Root(root)) && root.children@.len() == 0,
            r.pool.freed().len() == 0,
            r.pool.count() == 0,
            r.pool.wf(),
            r.pool.slots().len() == 1,
            r.globals@ == Map::<usize, Value>::empty(),
    {
        Machine { stack: Vec::new(), pool: ObjectPool::new(), globals: HashMapWithView::new() }
    }

    /// The current frame.
    pub fn last_frame(&self) -> (r: &CallFrame)
        requires
            self.stack@.len() > 0,
        ensures
            *r == self.top(),
    {
        let n = self.stack.len();
        &self.stack[n - 1]
    }

    /// The current frame, for changing it in place.
    pub fn last_frame_mut(&mut self) -> (r: &mut CallFrame)
        requires
            old(self).stack@.len() > 0,
        ensures
            *r == old(self).top(),
            final(self).stack@ == old(self).stack@.update(old(self).stack@.len() - 1, *final(r)),
            final(self).pool == old(self).pool,
            final(self).globals == old(self).globals,
    {
        let n = self.stack.len();
        &mut self.stack[n - 1]
    }

    /// Register `r` of the current frame.
    pub fn get(&self, r: usize) -> (v: Value)
        requires
            self.has_register(r),
        ensures
            v == self.top().stack@[r as int],
    {
        let n = self.stack.len();
        self.stack[n - 1].get(r)
    }

    /// Sets register `r` of the current frame to `v`.
    pub fn set(&mut self, r: usize, v: Value)
        requires
            old(self).has_register(r),
        ensures
            Machine::register_set(*old(self), *final(self), r, v),
            machine_view(*final(self)) == with_top(
                machine_view(*old(self)),
                written(top(machine_view(*old(self))), r, v),
            ),
    {
        let n = self.stack.len();
        self.stack[n - 1].set(r, v);
        proof {
            let mv = machine_view(*old(self));
            lemma_frames_top(old(self).stack@, self.stack@, written(top(mv), r, v));
            assert(frame_view(self.stack@.last()) == written(top(mv), r, v));
        }
    }

    /// Sets the receiver register of the current frame.
    pub fn set_this(&mut self, v: Value)
        requires
            old(self).has_register(0),
        ensures
            Machine::register_set(*old(self), *final(self), 0, v),
    {
        self.set(0, v);
    }

    /// Stores `v` as global `id`.
    pub fn set_global(&mut self, id: usize, v: Value)
        ensures
            final(self).globals@ == old(self).globals@.insert(id, v),
            final(self).stack == old(self).stack,
            final(self).pool == old(self).pool,
    {
        self.globals.insert(id, v);
    }

    /// Global `id`, if it was stored.
    pub fn get_global(&self, id: usize) -> (r: Option<Value>)
        ensures
            r == (if self.globals@.contains_key(id) { Some(self.globals@[id]) } else { None }),
    {
        match self.globals.get(&id) {
            Some(v) => Some(*v),
            None => None,
        }
    }

    /// Moves the instruction pointer of the current frame past the current
    /// instruction.
    pub fn dispatch(&mut self)
        requires
            old(self).stack@.len() > 0,
            old(self).top().ip < usize::MAX,
        ensures
            final(self).stack@.len() == old(self).stack@.len(),
            forall|i: int| 0 <= i < old(self).stack@.len() - 1 ==> final(self).stack@[i] == old(self).stack@[i],
            final(self).top().ip == old(self).top().ip + 1,
            final(self).top().stack == old(self).top().stack,
            final(self).top().code == old(self).top().code,
            final(self).top().arg_stack == old(self).top().arg_stack,
            final(self).top().labels == old(self).top().labels,
            final(self).top().dest == old(self).top().dest,
            final(self).top().init_of == old(self).top().init_of,
            final(self).pool == old(self).pool,
            final(self).globals == old(self).globals,
            machine_view(*final(self)) == next(machine_view(*old(self))),
    {
        let n = self.stack.len();
        let ip = self.stack[n - 1].ip;
        self.stack[n - 1].ip = ip + 1;
        proof {
            let mv = machine_view(*old(self));
            lemma_frames_top(old(self).stack@, self.stack@, moved(top(mv), top(mv).ip + 1));
        }
    }

    /// Sets the instruction pointer of the current frame to `idx`.
    pub fn branch(&mut self, idx: usize)
        requires
            old(self).stack@.len() > 0,
        ensures
            final(self).stack@.len() == old(self).stack@.len(),
            forall|i: int| 0 <= i < old(self).stack@.len() - 1 ==> final(self).stack@[i] == old(self).stack@[i],
            final(self).top().ip == idx,
            final(self).top().stack == old(self).top().stack,
            final(self).top().code == old(self).top().code,
            final(self).top().arg_stack == old(self).top().arg_stack,
            final(self).top().labels == old(self).top().labels,
            final(self).pool == old(self).pool,
            final(self).globals == old(self).globals,
            machine_view(*final(self)) == with_top(machine_view(*old(self)), moved(top(machine_view(*old(self))), idx as int)),
    {
        let n = self.stack.len();
        self.stack[n - 1].ip = idx;
        proof {
            let mv = machine_view(*old(self));
            lemma_frames_top(old(self).stack@, self.stack@, moved(top(mv), idx as int));
        }
    }

    /// Pushes `v` onto the argument stack of the current frame.
    fn push_arg(&mut self, v: Value)
        requires
            old(self).stack@.len() > 0,
        ensures
            machine_view(*final(self)) == with_top(
                machine_view(*old(self)),
                FrameView { args: top(machine_view(*old(self))).args.push(v), ..top(machine_view(*old(self))) },
            ),
            final(self).stack@.len() == old(self).stack@.len(),
            final(self).top().ip == old(self).top().ip,
            final(self).top().code == old(self).top().code,
            final(self).top().stack == old(self).top().stack,
    {
        let n = self.stack.len();
        self.stack[n - 1].arg_stack.push(v);
        proof {
            let mv = machine_view(*old(self));
            lemma_frames_top(old(self).stack@, self.stack@, FrameView { args: top(mv).args.push(v), ..top(mv) });
        }
    }

    /// Pops the receiver and `n` arguments of a call off the current frame's
    /// argument stack.
    fn take_call_args(&mut self, n: usize) -> (r: Vec<Value>)
        requires
            old(self).stack@.len() > 0,
            n < usize::MAX,
        ensures
            r@ == call_args(top(machine_view(*old(self))).args, n as nat),
            machine_view(*final(self)) == with_top(
                machine_view(*old(self)),
                FrameView {
                    args: after_call_args(top(machine_view(*old(self))).args, n as nat),
                    ..top(machine_view(*old(self)))
                },
            ),
            final(self).stack@.len() == old(self).stack@.len(),
            final(self).top().ip == old(self).top().ip,
            final(self).top().code == old(self).top().code,
            final(self).top().stack == old(self).top().stack,
    {
        let k = self.stack.len();
        let r = pop_call_args(&mut self.stack[k - 1].arg_stack, n);
        proof {
            let mv = machine_view(*old(self));
            lemma_frames_top(
                old(self).stack@,
                self.stack@,
                FrameView { args: after_call_args(top(mv).args, n as nat), ..top(mv) },
            );
        }
        r
    }

    /// Sets register `r` and moves past the current instruction.
    fn set_and_advance(&mut self, r: usize, v: Value) -> (s: Result<Status, VmError>)
        requires
            old(self).has_register(r),
            old(self).top().ip < usize::MAX,
        ensures
            s == Ok::<Status, VmError>(Status::Running),
            final(self).stack@.len() == old(self).stack@.len(),
            forall|i: int| 0 <= i < old(self).stack@.len() - 1 ==> final(self).stack@[i] == old(self).stack@[i],
            final(self).top().stack@ == old(self).top().stack@.update(r as int, v),
            final(self).top().ip == old(self).top().ip + 1,
            final(self).top().code == old(self).top().code,
            final(self).top().arg_stack == old(self).top().arg_stack,
            final(self).top().labels == old(self).top().labels,
            final(self).pool == old(self).pool,
            final(self).globals == old(self).globals,
            machine_view(*final(self)) == set_next(machine_view(*old(self)), r, v),
    {
        self.set(r, v);
        self.dispatch();
        proof {
            let mv = machine_view(*old(self));
            assert(machine_view(*self).frames =~= set_next(mv, r, v).frames);
        }
        Ok(Status::Running)
    }

    /// Resolves `callable`, letting classes delegate to their `init` or
    /// `__call__` field with the class itself as receiver.
    fn resolve(&mut self, callable: Value, args: &mut Vec<Value>) -> (r: Result<(Callee, Option<usize>), VmError>)
        ensures
            !callable_in(&old(self).pool, callable) ==> (r matches Err(VmError::NotCallable)),
            final(args)@.len() == old(args)@.len() || (old(args)@.len() == 0 && final(args)@.len() == 1),
            match resolve_spec(slots_view(old(self).pool.slots()), callable, old(args)@, None, 0) {
                Err(e) => r is Err && fault(r->Err_0) == e,
                Ok((t, init, args2)) => r is Ok && final(args)@ == args2 && r->Ok_0.1 == init && callee_is(r->Ok_0.0, t),
            },
            final(self).stack == old(self).stack,
            final(self).globals == old(self).globals,
            final(self).pool == old(self).pool,
    {
        let mut target = callable;
        let mut init_of: Option<usize> = None;
        let mut hops: usize = 0;
        loop
            invariant
                self.stack == old(self).stack,
                self.globals == old(self).globals,
                self.pool == old(self).pool,
                hops <= STACK_LIMIT,
                args@.len() == old(args)@.len() || (old(args)@.len() == 0 && args@.len() == 1),
                hops == 0 ==> target == callable,
                hops > 0 ==> callable_in(&self.pool, callable),
                resolve_spec(slots_view(self.pool.slots()), callable, old(args)@, None, 0) == resolve_spec(
                    slots_view(self.pool.slots()),
                    target,
                    args@,
                    init_of,
                    hops as nat,
                ),
            decreases STACK_LIMIT - hops,
        {
            let h = match target {
                Value::Object(h) => h,
                _ => return Err(VmError::NotCallable),
            };
            if !self.pool.is_occupied(h) {
                return Err(VmError::NotCallable);
            }
            match self.pool.get(h) {
                Object::Function(Function::Virtual(vf)) => {
                    return Ok((Callee::Code(copy_code(&vf.code)), init_of));
                },
                Object::Function(Function::Native(nf)) => {
                    return Ok((Callee::Native(nf.0), init_of));
                },
                Object::Class(c) => {
                    proof {
                        lemma_fields_view(c.fields@);
                    }
                    if hops + 1 >= STACK_LIMIT {
                        return Err(VmError::StackOverflow);
                    }
                    hops = hops + 1;
                    let field = if c.initialized {
                        "__call__"
                    } else {
                        "init"
                    };
                    match c.get_field(field) {
                        Some(f) => {
                            if !c.initialized {
                                init_of = Some(h);
                            }
                            let ghost before = args@;
                            if args.len() > 0 {
                                args.set(0, Value::Object(h));
                            } else {
                                args.push(Value::Object(h));
                            }
                            assert(args@ =~= with_receiver(before, h));
                            target = f;
                        },
                        None => return Err(VmError::FieldNotFound(String::from_str(field))),
                    }
                },
                _ => return Err(VmError::NotCallable),
            }
        }
    }

    /// Calls `callable` with `args` (receiver first); its result goes to
    /// register `dest` of the frame that is current now.
    ///
    /// Bytecode gets a new frame and `Ok(None)`; a native function runs to
    /// completion here and gives `Ok(Some(result))`.
    fn enter<H: Host>(&mut self, host: &mut H, callable: Value, args: Vec<Value>, dest: usize) -> (r: Result<
        Option<Value>,
        VmError,
    >)
        ensures
            !callable_in(&old(self).pool, callable) ==> (r matches Err(VmError::NotCallable)),
            r matches Ok(Some(_)) ==> final(self).stack@.len() == old(self).stack@.len(),
            enter_spec(machine_view(*old(self)), callable, args@, dest) matches Some(res) ==> match res {
                Ok(v2) => r == Ok::<Option<Value>, VmError>(None) && machine_view(*final(self)) == v2,
                Err(e) => r is Err && fault(r->Err_0) == e && machine_view(*final(self)) == machine_view(*old(self)),
            },
            r matches Ok(None) ==> final(self).top().arg_stack@.len() == (if args@.len() == 0 {
                1
            } else {
                args@.len()
            }),
            r matches Ok(None) ==> final(self).stack@.len() == old(self).stack@.len() + 1
                && final(self).stack@.drop_last() == old(self).stack@
                && final(self).top().arg_stack@.len() > 0
                && final(self).top().stack@ == seeded_registers(final(self).top().arg_stack@)
                && final(self).top().ip == 0
                && labels_resolved(final(self).top().code@, final(self).top().labels@),
    {
        let ghost given = args@;
        let mut args = args;
        let (callee, init_of) = match self.resolve(callable, &mut args) {
            Ok(x) => x,
            Err(e) => return Err(e),
        };
        if self.stack.len() >= STACK_LIMIT {
            return Err(VmError::StackOverflow);
        }
        if args.len() == 0 {
            args.push(Value::Null);
            assert(args@ =~= seq![Value::Null]);
        }
        match callee {
            Callee::Code(code) => {
                let frame = CallFrame::enter(code, &args, dest, init_of);
                proof {
                    lemma_label_map(frame.code@, frame.labels@);
                    lemma_frames_push(self.stack@, frame);
                }
                self.stack.push(frame);
                Ok(None)
            },
            Callee::Native(id) => {
                match self.native_call(host, id, args, dest, init_of, Ghost(callable), Ghost(given)) {
                    Ok(v) => Ok(Some(v)),
                    Err(e) => Err(e),
                }
            },
        }
    }

    /// Runs the native function `id` that `callable` with `given` resolved to,
    /// in a frame of its own: the host receives the resolved arguments,
    /// receiver first.
    fn native_call<H: Host>(
        &mut self,
        host: &mut H,
        id: usize,
        args: Vec<Value>,
        dest: usize,
        init_of: Option<usize>,
        callable: Ghost<Value>,
        given: Ghost<Seq<Value>>,
    ) -> (r: Result<Value, VmError>)
        requires
            old(self).stack@.len() < STACK_LIMIT,
            resolve_spec(slots_view(old(self).pool.slots()), callable@, given@, None, 0) matches Ok((Target::Native(n), i, a2))
                && n == id && i == init_of && args@ == (if a2.len() == 0 {
                seq![Value::Null]
            } else {
                a2
            }),
        ensures
            r is Ok ==> final(self).stack@.len() == old(self).stack@.len(),
    {
        let frame = CallFrame::enter(Vec::new(), &args, dest, init_of);
        self.stack.push(frame);
        let depth = self.stack.len();
        let r = host.call_native(self, id, args);
        if self.stack.len() != depth {
            return Err(runtime("native function left the call stack changed"));
        }
        self.stack.pop();
        if let Some(c) = init_of {
            self.pool.mark_initialized(c);
        }
        r
    }

    /// Ends the current invocation with result `v`: pops its frame, marks
    /// the class it initialized, and hands `v` to the caller's destination
    /// register, or out of the run when the caller is below `base`.
    fn finish(&mut self, v: Value, base: usize) -> (r: Result<Status, VmError>)
        requires
            old(self).stack@.len() > base,
        ensures
            final(self).stack@.len() == old(self).stack@.len() - 1,
            final(self).stack@.len() == base ==> r == Ok::<Status, VmError>(Status::Returned(v)),
            r matches Ok(Status::Returned(_)) ==> final(self).stack@.len() == base,
            finish_spec(machine_view(*old(self)), v, base as nat) == Some((machine_view(*final(self)), outcome(r))),
            final(self).stack@.len() > base && r is Ok ==> r == Ok::<Status, VmError>(Status::Running)
                && final(self).top().stack@ == old(self).stack@[old(self).stack@.len() - 2].stack@.update(
                old(self).top().dest as int,
                v,
            ) && final(self).top().ip == old(self).stack@[old(self).stack@.len() - 2].ip,
    {
        let frame = self.stack.pop().unwrap();
        proof {
            lemma_frames_drop(old(self).stack@);
        }
        if let Some(c) = frame.init_of {
            self.pool.mark_initialized(c);
        }
        let n = self.stack.len();
        if n <= base {
            return Ok(Status::Returned(v));
        }
        if frame.dest >= self.stack[n - 1].stack.len() {
            return Err(runtime("result register out of range"));
        }
        self.set(frame.dest, v);
        Ok(Status::Running)
    }

    /// Jumps to the instruction after `Label(l)`.
    ///
    /// An undefined label fails with `LabelNotFound` and leaves the machine
    /// as it was.
    pub fn goto(&mut self, l: usize) -> (r: Result<Status, VmError>)
        requires
            old(self).stack@.len() > 0,
        ensures
            r is Ok ==> r == Ok::<Status, VmError>(Status::Running),
            !old(self).top().labels@.contains_key(l) ==> (r matches Err(VmError::LabelNotFound(x)) && x == l)
                && *final(self) == *old(self),
            old(self).top().labels@.contains_key(l) ==> r == Ok::<Status, VmError>(Status::Running)
                && final(self).stack@.len() == old(self).stack@.len()
                && final(self).top().code == old(self).top().code
                && final(self).top().stack == old(self).top().stack
                && (old(self).top().labels@[l] < usize::MAX ==> final(self).top().ip == old(self).top().labels@[l]
                + 1),
            goto_spec(machine_view(*old(self)), l) == Some((machine_view(*final(self)), outcome(r))),
    {
        let n = self.stack.len();
        match self.stack[n - 1].labels.get(&l) {
            Some(i) => {
                let i = *i;
                let target = if i < usize::MAX {
                    i + 1
                } else {
                    i
                };
                self.branch(target);
                Ok(Status::Running)
            },
            None => Err(VmError::LabelNotFound(l)),
        }
    }

    /// Writes the result of a binary operator to register `a`; the host
    /// computes it when a floating-point operand drives it.
    fn binary<H: Host>(&mut self, host: &mut H, e: Evaluation, op: FloatOp, a: usize, b: usize, c: usize) -> (r:
        Result<Status, VmError>)
        requires
            old(self).has_register(a),
            old(self).has_register(b),
            old(self).has_register(c),
            old(self).top().ip < usize::MAX,
            e is Floating ==> floating_drives(old(self).top().stack@[b as int], old(self).top().stack@[c as int]),
        ensures
            e is Floating && r is Ok ==> exists|z: Value|
                machine_view(*final(self)) == #[trigger] set_next(machine_view(*old(self)), a, z),
            e is Floating && r is Err ==> machine_view(*final(self)) == machine_view(*old(self)),
            r is Ok ==> r == Ok::<Status, VmError>(Status::Running),
            e matches Evaluation::Done(v) ==> r == Ok::<Status, VmError>(Status::Running)
                && final(self).stack@.len() == old(self).stack@.len()
                && final(self).top().stack@ == old(self).top().stack@.update(a as int, v)
                && final(self).top().ip == old(self).top().ip + 1,
            e is Unsupported ==> (r matches Err(VmError::Arithmetic)) && *final(self) == *old(self),
            !(e is Floating) ==> binary_spec(machine_view(*old(self)), a, e) == Some((machine_view(*final(self)), outcome(r))),
    {
        match e {
            Evaluation::Done(v) => self.set_and_advance(a, v),
            Evaluation::Unsupported => Err(VmError::Arithmetic),
            Evaluation::Floating => match self.float_result(host, op, b, c) {
                Ok(v) => self.set_and_advance(a, v),
                Err(e) => Err(e),
            },
        }
    }

    /// Asks the host for `op` on registers `b` and `c` of the current frame,
    /// where a floating-point operand drives the result.
    fn float_result<H: Host>(&self, host: &mut H, op: FloatOp, b: usize, c: usize) -> (r: Result<Value, VmError>)
        requires
            self.has_register(b),
            self.has_register(c),
            floating_drives(self.top().stack@[b as int], self.top().stack@[c as int]),
    {
        host.float_op(op, self.get(b), self.get(c))
    }

    /// Reads from the host object `id` that register `b` names, with the key
    /// in register `c`: the host receives `[R(b), R(c)]`.
    fn host_load<H: Host>(&mut self, host: &mut H, id: usize, b: usize, c: usize) -> (r: Result<Value, VmError>)
        requires
            old(self).has_register(b),
            old(self).has_register(c),
            old(self).top().stack@[b as int] matches Value::Object(h) && old(self).pool.occupied(h)
                && old(self).pool.slots()[h as int] == Some(Object::Host(id)),
        ensures
            r is Ok ==> final(self).stack@.len() == old(self).stack@.len(),
    {
        let args = vec![self.get(b), self.get(c)];
        let depth = self.stack.len();
        let r = host.load_at(self, id, args);
        if self.stack.len() != depth {
            return Err(runtime("host object left the call stack changed"));
        }
        r
    }

    /// Stores into the host object `id` that register `b` names: the host
    /// receives `[R(b), R(c), R(a)]`.
    fn host_store<H: Host>(&mut self, host: &mut H, id: usize, a: usize, b: usize, c: usize) -> (r: Result<(), VmError>)
        requires
            old(self).has_register(a),
            old(self).has_register(b),
            old(self).has_register(c),
            old(self).top().stack@[b as int] matches Value::Object(h) && old(self).pool.occupied(h)
                && old(self).pool.slots()[h as int] == Some(Object::Host(id)),
        ensures
            r is Ok ==> final(self).stack@.len() == old(self).stack@.len(),
    {
        let args = vec![self.get(b), self.get(c), self.get(a)];
        let depth = self.stack.len();
        let r = host.store_at(self, id, args);
        if self.stack.len() != depth {
            return Err(runtime("host object left the call stack changed"));
        }
        r
    }

    /// What an operand converts to under the object protocol.
    fn coerce(&self, v: Value) -> (r: Option<i64>)
        ensures
            r == coerced_of(&self.pool, v),
    {
        match v {
            Value::Object(h) => match self.pool.get_typed::<String>(h) {
                Some(s) => parse_long(s.as_str()),
                None => Some(0),
            },
            _ => Some(0),
        }
    }

    /// The type name of a value, as `Isa` compares it.
    pub fn typename(&self, v: Value) -> (r: String)
        ensures
            v is Object && self.pool.occupied(v->Object_0) ==> r@ == crate::object::typename_spec(
                &self.pool.slots()[v->Object_0 as int].unwrap(),
            ),
            !(v is Object) ==> r@ == kind_name(v),
            r@ == type_name_in(slots_view(self.pool.slots()), v),
    {
        proof {
            reveal_strlit("Object");
        }
        match v {
            Value::Object(h) => {
                if self.pool.is_occupied(h) {
                    self.pool.get(h).typename()
                } else {
                    String::from_str("Object")
                }
            },
            _ => kind_of(v),
        }
    }

    /// Resolves a read of `key` from the object at `h`.
    fn read_at(&self, h: usize, key: Value) -> (r: Result<Access, VmError>)
        requires
            self.pool.occupied(h),
        ensures
            match read_spec(slots_view(self.pool.slots()), h, key) {
                Ok(Read::Value(x)) => r == Ok::<Access, VmError>(Access::Value(x)),
                Ok(Read::Delegate(g)) => r == Ok::<Access, VmError>(Access::Delegate(g)),
                Ok(Read::Host(id)) => r == Ok::<Access, VmError>(Access::Host(id)),
                Ok(Read::Listing(t)) => r is Ok && r->Ok_0 is Listing && r->Ok_0->Listing_0@ == t,
                Err(e) => r is Err && fault(r->Err_0) == e,
            },
            self.pool.slots()[h as int] matches Some(Object::Class(cl)) ==> (text_at(&self.pool, key) matches Some(
                name,
            ) ==> (cl.field(name) matches Some(v) ==> r == Ok::<Access, VmError>(Access::Value(v))) && (cl.field(
                name,
            ) is None ==> r is Err)),
            self.pool.slots()[h as int] matches Some(Object::Array(arr)) ==> (index_of(key) matches Some(i) ==> (i
                < arr.elements@.len() ==> r == Ok::<Access, VmError>(Access::Value(arr.elements@[i]))) && (i
                >= arr.elements@.len() ==> r is Err)),
    {
        proof {
            reveal_strlit("<native function>");
            reveal_strlit("disassemble");
        }
        match self.pool.get(h) {
            Object::Class(cl) => {
                proof {
                    lemma_fields_view(cl.fields@);
                }
                match key {
                Value::Object(kh) => match self.pool.get_typed::<String>(kh) {
                    Some(name) => match cl.get_field(name.as_str()) {
                        Some(v) => Ok(Access::Value(v)),
                        None => Err(VmError::FieldNotFound(name.clone())),
                    },
                    None => Err(expected("String", key)),
                },
                Value::Int(_) | Value::Long(_) => match cl.get_field("__get__") {
                    Some(f) => Ok(Access::Delegate(f)),
                    None => Err(VmError::FieldNotFound(String::from_str("__get__"))),
                },
                _ => Err(expected("String", key)),
            }
            },
            Object::Array(arr) => match index(key) {
                Some(i) => {
                    if i < arr.elements.len() as u64 {
                        Ok(Access::Value(arr.elements[i as usize]))
                    } else {
                        Err(runtime("array index out of range"))
                    }
                },
                None => Err(expected("Int", key)),
            },
            Object::Function(f) => match key {
                Value::Object(kh) => match self.pool.get_typed::<String>(kh) {
                    Some(name) => {
                        if *name == String::from_str("disassemble") {
                            match f {
                                Function::Virtual(vf) => Ok(Access::Listing(disassemble(&vf.code))),
                                Function::Native(_) => Ok(Access::Listing(String::from_str("<native function>"))),
                            }
                        } else {
                            Err(VmError::FieldNotFound(name.clone()))
                        }
                    },
                    None => Err(expected("String", key)),
                },
                _ => Err(expected("String", key)),
            },
            Object::Host(id) => Ok(Access::Host(*id)),
            o => Err(VmError::Expected(String::from_str("indexable object"), o.typename())),
        }
    }

    /// `R(a) <- R(b)[R(c)]`.
    fn load_at<H: Host>(&mut self, host: &mut H, a: usize, b: usize, c: usize) -> (r: Result<Status, VmError>)
        requires
            old(self).has_register(a),
            old(self).has_register(b),
            old(self).has_register(c),
            old(self).top().ip < usize::MAX,
        ensures
            load_at_spec(machine_view(*old(self)), a, b, c) matches Some(p) ==> p == (machine_view(*final(self)), outcome(r)),
            r is Ok ==> r == Ok::<Status, VmError>(Status::Running),
            ({
                let target = old(self).top().stack@[b as int];
                let key = old(self).top().stack@[c as int];
                let h = target->Object_0;
                let name = text_at(&old(self).pool, key).unwrap();
                (target is Object && old(self).pool.occupied(h) && old(self).pool.slots()[h as int].unwrap() is Class
                    && text_at(&old(self).pool, key) is Some && old(self).pool.slots()[h as int].unwrap()->Class_0.field(name) is Some)
                    ==> (r == Ok::<Status, VmError>(Status::Running) && final(self).top().stack@
                    == old(self).top().stack@.update(a as int, old(self).pool.slots()[h as int].unwrap()->Class_0.field(name).unwrap()))
            }),
    {
        let target = self.get(b);
        let key = self.get(c);
        let h = match target {
            Value::Object(h) => h,
            _ => return Err(VmError::Expected(String::from_str("Value::Object"), debug_of(target))),
        };
        if !self.pool.is_occupied(h) {
            return Err(runtime("handle of a freed object"));
        }
        match self.read_at(h, key) {
            Err(e) => Err(e),
            Ok(Access::Value(v)) => self.set_and_advance(a, v),
            Ok(Access::Listing(text)) => {
                if self.pool.size() >= usize::MAX - 1 {
                    return Err(runtime("object pool is full"));
                }
                let text_h = self.pool.allocate(Object::Text(text));
                let code = vec![Instruction::LoadConst(1, text_h), Instruction::Ret(1)];
                let f = self.pool.allocate(Object::Function(Function::Virtual(VirtualFunction { code, argc: 0 })));
                self.set_and_advance(a, Value::Object(f))
            },
            Ok(Access::Delegate(f)) => {
                self.dispatch();
                let args = vec![target, key];
                assert(args@ =~= seq![target, key]);
                match self.enter(host, f, args, a) {
                    Ok(Some(v)) => self.deliver(a, v),
                    Ok(None) => Ok(Status::Running),
                    Err(e) => Err(e),
                }
            },
            Ok(Access::Host(id)) => {
                self.dispatch();
                let r = self.host_load(host, id, b, c);
                match r {
                    Ok(v) => self.deliver(a, v),
                    Err(e) => Err(e),
                }
            },
        }
    }

    /// Writes `v` to register `a` of the current frame after a call that
    /// the machine cannot see into.
    fn deliver(&mut self, a: usize, v: Value) -> (r: Result<Status, VmError>)
        ensures
            old(self).has_register(a) ==> r is Ok,
            r is Ok ==> r == Ok::<Status, VmError>(Status::Running) && Machine::register_set(
                *old(self),
                *final(self),
                a,
                v,
            ),
    {
        let n = self.stack.len();
        if n == 0 || a >= self.stack[n - 1].stack.len() {
            return Err(runtime("result register out of range"));
        }
        self.set(a, v);
        Ok(Status::Running)
    }

    /// `R(b)[R(c)] <- R(a)`.
    fn store_at<H: Host>(&mut self, host: &mut H, a: usize, b: usize, c: usize) -> (r: Result<Status, VmError>)
        requires
            old(self).has_register(a),
            old(self).has_register(b),
            old(self).has_register(c),
            old(self).top().ip < usize::MAX,
        ensures
            store_at_spec(machine_view(*old(self)), a, b, c) matches Some(p) ==> p == (machine_view(*final(self)), outcome(r)),
            r is Ok ==> r == Ok::<Status, VmError>(Status::Running),
            ({
                let value = old(self).top().stack@[a as int];
                let target = old(self).top().stack@[b as int];
                let key = old(self).top().stack@[c as int];
                let h = target->Object_0;
                (target is Object && old(self).pool.occupied(h) && old(self).pool.slots()[h as int].unwrap() is Class
                    && text_at(&old(self).pool, key) is Some) ==> (r == Ok::<Status, VmError>(Status::Running)
                    && class_changed(
                    old(self).pool.slots(),
                    final(self).pool.slots(),
                    h as int,
                    text_at(&old(self).pool, key).unwrap(),
                    value,
                ))
            }),
    {
        let value = self.get(a);
        let target = self.get(b);
        let key = self.get(c);
        let h = match target {
            Value::Object(h) => h,
            _ => return Err(VmError::Expected(String::from_str("Value::Object"), debug_of(target))),
        };
        if !self.pool.is_occupied(h) {
            return Err(runtime("handle of a freed object"));
        }
        let r = match self.pool.get(h) {
            Object::Class(_) => match self.text(key) {
                Some(name) => {
                    self.pool.store_field(h, name.as_str(), value);
                    Ok(())
                },
                None => Err(expected("String", key)),
            },
            Object::Array(arr) => {
                let len = arr.elements.len();
                match self.to_int(key) {
                    Some(i) => {
                        let stored = if i >= 0 && (i as u64) < len as u64 {
                            self.pool.store_element(h, i as usize, value)
                        } else {
                            None
                        };
                        match stored {
                            Some(true) => Ok(()),
                            _ => Err(runtime("array index out of range")),
                        }
                    },
                    None => Err(expected("Int", key)),
                }
            },
            Object::Host(id) => {
                let id = *id;
                self.host_store(host, id, a, b, c)
            },
            o => Err(VmError::Expected(String::from_str("indexable object"), o.typename())),
        };
        match r {
            Ok(()) => {
                let n = self.stack.len();
                if n == 0 || self.stack[n - 1].ip == usize::MAX {
                    return Err(runtime("frame changed during a store"));
                }
                self.dispatch();
                Ok(Status::Running)
            },
            Err(e) => Err(e),
        }
    }

    /// Runs one instruction of the current frame; `base` is the depth of
    /// the call stack below the invocation being run.
    ///
    /// When the code is exhausted the frame returns null.
    pub fn step<H: Host>(&mut self, host: &mut H, base: usize) -> (r: Result<Status, VmError>)
        ensures
            step_spec(machine_view(*old(self)), base as nat) matches Some((v2, s)) ==> machine_view(*final(self)) == v2
                && outcome(r) == s,
            r matches Ok(Status::Returned(_)) ==> final(self).stack@.len() == base,
            ({
                let f = old(self).top();
                (old(self).stack@.len() > base && f.ip < f.code@.len() && registers_below(
                    f.code@[f.ip as int],
                    f.stack@.len() as nat,
                ) && f.code@[f.ip as int] is Goto && !f.labels@.contains_key(f.code@[f.ip as int]->Goto_0)) ==> (
                r matches Err(VmError::LabelNotFound(l)) && l == f.code@[f.ip as int]->Goto_0 && *final(self)
                    == *old(self))
            }),
            ({
                let f = old(self).top();
                (old(self).stack@.len() > base && f.ip < f.code@.len() && registers_below(
                    f.code@[f.ip as int],
                    f.stack@.len() as nat,
                ) && register_effect(*old(self), f.code@[f.ip as int]) is Some) ==> {
                    let (a, v) = register_effect(*old(self), f.code@[f.ip as int]).unwrap();
                    &&& r == Ok::<Status, VmError>(Status::Running)
                    &&& final(self).stack@.len() == old(self).stack@.len()
                    &&& final(self).top().stack@ == f.stack@.update(a as int, v)
                    &&& final(self).top().ip == f.ip + 1
                }
            }),
            ({
                let f = old(self).top();
                (old(self).stack@.len() > base && f.ip < f.code@.len() && registers_below(
                    f.code@[f.ip as int],
                    f.stack@.len() as nat,
                ) && arith_of(f.code@[f.ip as int]) is Some) ==> {
                    let (op, a, b, c) = arith_of(f.code@[f.ip as int]).unwrap();
                    let e = arith_spec(op, f.stack@[b as int], f.stack@[c as int], coerced_of(&old(self).pool, f.stack@[c as int]));
                    e is Unsupported ==> (r matches Err(VmError::Arithmetic))
                }
            }),
            ({
                let f = old(self).top();
                (old(self).stack@.len() > base && f.ip >= f.code@.len()) ==> final(self).stack@.len()
                    == old(self).stack@.len() - 1
            }),
            ({
                let f = old(self).top();
                (old(self).stack@.len() == base + 1 && f.ip >= f.code@.len()) ==> r == Ok::<Status, VmError>(
                    Status::Returned(Value::Null),
                )
            }),
            ({
                let f = old(self).top();
                (old(self).stack@.len() == base + 1 && f.ip < f.code@.len() && registers_below(
                    f.code@[f.ip as int],
                    f.stack@.len() as nat,
                ) && f.code@[f.ip as int] is Ret) ==> r == Ok::<Status, VmError>(
                    Status::Returned(f.stack@[f.code@[f.ip as int]->Ret_0 as int]),
                )
            }),
            ({
                let f = old(self).top();
                (old(self).stack@.len() > base && f.ip < f.code@.len() && registers_below(
                    f.code@[f.ip as int],
                    f.stack@.len() as nat,
                ) && f.code@[f.ip as int] is Call && r is Ok && final(self).stack@.len() == old(self).stack@.len()
                    + 1) ==> {
                    let n = f.code@[f.ip as int]->Call_2;
                    &&& final(self).top().arg_stack@.len() == n + 1
                    &&& final(self).top().stack@ == seeded_registers(final(self).top().arg_stack@)
                    &&& final(self).top().ip == 0
                }
            }),
    {
        proof {
            reveal(step_spec);
        }
        let n = self.stack.len();
        if n <= base || n == 0 {
            return Err(runtime("no frame to run"));
        }
        let ip = self.stack[n - 1].ip;
        if ip >= self.stack[n - 1].code.len() {
            return self.finish(Value::Null, base);
        }
        let instr = self.stack[n - 1].code[ip].duplicate();
        if !registers_in_range(&instr, self.stack[n - 1].stack.len()) {
            return Err(runtime("register out of range"));
        }
        match instr {
            Instruction::Label(_) => {
                self.dispatch();
                Ok(Status::Running)
            },
            Instruction::LoadArg(a) => {
                let v = self.get(a);
                self.push_arg(v);
                self.dispatch();
                proof {
                    let mv = machine_view(*old(self));
                    let f = top(mv);
                    assert(machine_view(*self).frames =~= with_top(
                        mv,
                        moved(FrameView { args: f.args.push(v), ..f }, f.ip + 1),
                    ).frames);
                }
                Ok(Status::Running)
            },
            Instruction::LoadBool(a, x) => self.set_and_advance(a, Value::Bool(x)),
            Instruction::LoadInt(a, x) => self.set_and_advance(a, Value::Int(x)),
            Instruction::LoadLong(a, x) => self.set_and_advance(a, Value::Long(x)),
            Instruction::LoadFloat(a, x) => self.set_and_advance(a, Value::Float(x)),
            Instruction::LoadDouble(a, x) => self.set_and_advance(a, Value::Double(x)),
            Instruction::LoadConst(a, k) => self.set_and_advance(a, Value::Object(k)),
            Instruction::LoadString(a, text) => {
                if self.pool.size() == usize::MAX {
                    return Err(runtime("object pool is full"));
                }
                let h = self.pool.allocate(Object::Text(text));
                self.set_and_advance(a, Value::Object(h))
            },
            Instruction::LoadGlobal(a, g) => match self.get_global(g) {
                Some(v) => self.set_and_advance(a, v),
                None => Err(VmError::GlobalNotFound(g)),
            },
            Instruction::StoreGlobal(a, g) => {
                let v = self.get(a);
                self.globals.insert(g, v);
                self.dispatch();
                Ok(Status::Running)
            },
            Instruction::Move(a, b) => {
                let v = self.get(b);
                self.set_and_advance(a, v)
            },
            Instruction::Add(a, b, c) => self.arith(host, ArithOp::Add, a, b, c),
            Instruction::Sub(a, b, c) => self.arith(host, ArithOp::Sub, a, b, c),
            Instruction::Mul(a, b, c) => self.arith(host, ArithOp::Mul, a, b, c),
            Instruction::Div(a, b, c) => self.arith(host, ArithOp::Div, a, b, c),
            Instruction::Rem(a, b, c) => self.arith(host, ArithOp::Rem, a, b, c),
            Instruction::Gt(a, b, c) => self.compare(host, CompareOp::Gt, a, b, c),
            Instruction::Ge(a, b, c) => self.compare(host, CompareOp::Ge, a, b, c),
            Instruction::Lt(a, b, c) => self.compare(host, CompareOp::Lt, a, b, c),
            Instruction::Le(a, b, c) => self.compare(host, CompareOp::Le, a, b, c),
            Instruction::Eq(a, b, c) => self.compare(host, CompareOp::Eq, a, b, c),
            Instruction::Neq(a, b, c) => self.compare(host, CompareOp::Neq, a, b, c),
            Instruction::And(a, b, c) => self.logic(true, a, b, c),
            Instruction::Or(a, b, c) => self.logic(false, a, b, c),
            Instruction::BitAnd(a, b, c) => self.bitwise(BitOp::And, a, b, c),
            Instruction::BitOr(a, b, c) => self.bitwise(BitOp::Or, a, b, c),
            Instruction::BitXor(a, b, c) => self.bitwise(BitOp::Xor, a, b, c),
            Instruction::Shl(a, b, c) => self.bitwise(BitOp::Shl, a, b, c),
            Instruction::Shr(a, b, c) => self.bitwise(BitOp::Shr, a, b, c),
            Instruction::Not(a, b) => {
                let v = self.get(b);
                self.set_and_advance(a, Value::Bool(v.not()))
            },
            Instruction::Jump(idx) => {
                self.branch(idx);
                Ok(Status::Running)
            },
            Instruction::JumpT(a, idx) | Instruction::JumpF(a, idx) => {
                let want = if let Instruction::JumpT(..) = instr {
                    true
                } else {
                    false
                };
                match self.get(a) {
                    Value::Bool(x) => {
                        if x == want {
                            self.branch(idx);
                        } else {
                            self.dispatch();
                        }
                        Ok(Status::Running)
                    },
                    v => Err(expected("Bool", v)),
                }
            },
            Instruction::Goto(l) => self.goto(l),
            Instruction::GotoT(a, l) => match self.get(a) {
                Value::Bool(true) => self.goto(l),
                Value::Bool(false) => {
                    self.dispatch();
                    Ok(Status::Running)
                },
                v => Err(expected("Bool", v)),
            },
            Instruction::GotoF(a, l) => match self.get(a) {
                Value::Bool(false) | Value::Null => self.goto(l),
                Value::Bool(true) => {
                    self.dispatch();
                    Ok(Status::Running)
                },
                v => Err(expected("Bool", v)),
            },
            Instruction::Ret(a) => {
                let v = self.get(a);
                self.finish(v, base)
            },
            Instruction::Ret0 => self.finish(Value::Null, base),
            Instruction::Isa(a, b, c) => {
                let x = self.typename(self.get(b));
                let y = self.typename(self.get(c));
                self.set_and_advance(a, Value::Bool(x == y))
            },
            Instruction::LoadAt(a, b, c) => self.load_at(host, a, b, c),
            Instruction::StoreAt(a, b, c) => self.store_at(host, a, b, c),
            Instruction::Call(a, b, argc) => {
                if argc == usize::MAX {
                    return Err(runtime("argument count out of range"));
                }
                let callee = self.get(b);
                let args = self.take_call_args(argc);
                self.dispatch();
                proof {
                    let mv = machine_view(*old(self));
                    let f = top(mv);
                    assert(machine_view(*self).frames =~= with_top(
                        mv,
                        moved(FrameView { args: after_call_args(f.args, argc as nat), ..f }, f.ip + 1),
                    ).frames);
                }
                match self.enter(host, callee, args, a) {
                    Ok(Some(v)) => self.deliver(a, v),
                    Ok(None) => Ok(Status::Running),
                    Err(e) => Err(e),
                }
            },
        }
    }

    fn arith<H: Host>(&mut self, host: &mut H, op: ArithOp, a: usize, b: usize, c: usize) -> (r: Result<
        Status,
        VmError,
    >)
        requires
            old(self).has_register(a),
            old(self).has_register(b),
            old(self).has_register(c),
            old(self).top().ip < usize::MAX,
        ensures
            arith_step(machine_view(*old(self)), op, a, b, c) matches Some(p) ==> p == (machine_view(*final(self)), outcome(r)),
            r is Ok ==> r == Ok::<Status, VmError>(Status::Running),
            ({
                let e = arith_spec(
                    op,
                    old(self).top().stack@[b as int],
                    old(self).top().stack@[c as int],
                    coerced_of(&old(self).pool, old(self).top().stack@[c as int]),
                );
                &&& e matches Evaluation::Done(v) ==> r == Ok::<Status, VmError>(Status::Running)
                    && final(self).stack@.len() == old(self).stack@.len()
                    && final(self).top().stack@ == old(self).top().stack@.update(a as int, v)
                    && final(self).top().ip == old(self).top().ip + 1
                &&& e is Unsupported ==> (r matches Err(VmError::Arithmetic))
            }),
    {
        let x = self.get(b);
        let y = self.get(c);
        let k = self.coerce(y);
        let e = Value::arith(op, x, y, k);
        self.binary(host, e, FloatOp::Arith(op), a, b, c)
    }

    fn compare<H: Host>(&mut self, host: &mut H, op: CompareOp, a: usize, b: usize, c: usize) -> (r: Result<
        Status,
        VmError,
    >)
        requires
            old(self).has_register(a),
            old(self).has_register(b),
            old(self).has_register(c),
            old(self).top().ip < usize::MAX,
        ensures
            compare_step(machine_view(*old(self)), op, a, b, c) matches Some(p) ==> p == (machine_view(*final(self)), outcome(r)),
            r is Ok ==> r == Ok::<Status, VmError>(Status::Running),
            ({
                let e = compare_spec(
                    op,
                    old(self).top().stack@[b as int],
                    old(self).top().stack@[c as int],
                    coerced_of(&old(self).pool, old(self).top().stack@[c as int]),
                );
                &&& e matches Evaluation::Done(v) ==> r == Ok::<Status, VmError>(Status::Running)
                    && final(self).stack@.len() == old(self).stack@.len()
                    && final(self).top().stack@ == old(self).top().stack@.update(a as int, v)
                    && final(self).top().ip == old(self).top().ip + 1
                &&& e is Unsupported ==> (r matches Err(VmError::Arithmetic))
            }),
    {
        let x = self.get(b);
        let y = self.get(c);
        let k = self.coerce(y);
        let e = Value::compare(op, x, y, k);
        self.binary(host, e, FloatOp::Compare(op), a, b, c)
    }

    /// `And` (when `conj`) or `Or` of two booleans.
    fn logic(&mut self, conj: bool, a: usize, b: usize, c: usize) -> (r: Result<Status, VmError>)
        requires
            old(self).has_register(a),
            old(self).has_register(b),
            old(self).has_register(c),
            old(self).top().ip < usize::MAX,
        ensures
            logic_step(machine_view(*old(self)), conj, a, b, c) matches Some(p) ==> p == (machine_view(*final(self)), outcome(r)),
            r is Ok ==> r == Ok::<Status, VmError>(Status::Running),
            old(self).top().stack@[b as int] matches Value::Bool(p) ==> old(self).top().stack@[c as int] matches Value::Bool(q)
                ==> r == Ok::<Status, VmError>(Status::Running) && final(self).stack@.len() == old(self).stack@.len()
                && final(self).top().stack@ == old(self).top().stack@.update(a as int, Value::Bool(if conj { p && q } else { p || q }))
                && final(self).top().ip == old(self).top().ip + 1,
    {
        let x = self.get(b);
        let y = self.get(c);
        match (x, y) {
            (Value::Bool(p), Value::Bool(q)) => self.set_and_advance(a, Value::Bool(if conj { p && q } else { p || q })),
            (Value::Bool(_), _) => Err(expected("Bool", y)),
            _ => Err(expected("Bool", x)),
        }
    }

    fn bitwise(&mut self, op: BitOp, a: usize, b: usize, c: usize) -> (r: Result<Status, VmError>)
        requires
            old(self).has_register(a),
            old(self).has_register(b),
            old(self).has_register(c),
            old(self).top().ip < usize::MAX,
        ensures
            bit_step(machine_view(*old(self)), op, a, b, c) matches Some(p) ==> p == (machine_view(*final(self)), outcome(r)),
            r is Ok ==> r == Ok::<Status, VmError>(Status::Running),
            ({
                let e = bit_spec(op, old(self).top().stack@[b as int], old(self).top().stack@[c as int]);
                &&& e matches Some(v) ==> r == Ok::<Status, VmError>(Status::Running)
                    && final(self).stack@.len() == old(self).stack@.len() && final(self).top().stack@
                    == old(self).top().stack@.update(a as int, v) && final(self).top().ip == old(self).top().ip + 1
                &&& e is None ==> (r matches Err(VmError::Arithmetic))
            }),
    {
        let x = self.get(b);
        let y = self.get(c);
        match Value::bitwise(op, x, y) {
            Some(v) => self.set_and_advance(a, v),
            None => Err(VmError::Arithmetic),
        }
    }

    /// Invokes `callable` with `args` (the receiver first) and runs it to
    /// completion; the frames it pushed are gone when it returns, with a
    /// value or an error.
    ///
    /// When entering the call fails (`enter_spec`), that error is the result
    /// and the machine is unchanged. Otherwise, whenever `run_spec` from the
    /// state with the callee's frame entered ends, its outcome is the result
    /// and the machine is its last state with the caller's frames as they
    /// were: pool, class flags and globals as the run left them.
    pub fn invoke<H: Host>(&mut self, host: &mut H, callable: Value, args: Vec<Value>) -> (r: Result<Value, VmError>)
        ensures
            !callable_in(&old(self).pool, callable) ==> (r matches Err(VmError::NotCallable)),
            final(self).stack@.len() <= old(self).stack@.len(),
            r is Ok ==> final(self).stack@.len() == old(self).stack@.len(),
            enter_spec(machine_view(*old(self)), callable, args@, 0) matches Some(Err(e)) ==> r is Err && fault(r->Err_0)
                == e && machine_view(*final(self)) == machine_view(*old(self)),
            enter_spec(machine_view(*old(self)), callable, args@, 0) matches Some(Ok(v1)) ==> forall|k: nat|
                k <= u64::MAX && #[trigger] run_spec(v1, old(self).stack@.len() as nat, k) is Some ==> {
                    let (vf, x) = run_spec(v1, old(self).stack@.len() as nat, k).unwrap();
                    outcome(r) == x && machine_view(*final(self)) == MachineView {
                        frames: machine_view(*old(self)).frames,
                        ..vf
                    }
                },
    {
        let base = self.stack.len();
        match self.enter(host, callable, args, 0) {
            Err(e) => {
                let ghost mid = machine_view(*self);
                let ghost before = self.stack@;
                proof {
                    assert(frames_view(before).len() == before.len());
                }
                self.stack.truncate(base);
                proof {
                    if machine_view(*self) != mid {
                        assert(frames_view(old(self).stack@).len() == old(self).stack@.len());
                        if before.len() == base {
                            assert(self.stack@ =~= before);
                            assert(machine_view(*self) == mid);
                        }
                    }
                }
                Err(e)
            },
            Ok(Some(v)) => {
                self.stack.truncate(base);
                Ok(v)
            },
            Ok(None) => {
                let ghost entered_stack = self.stack@;
                let ghost v1 = machine_view(*self);
                let r = self.execute_op(host, base);
                let ghost after = self.stack@;
                self.stack.truncate(base);
                proof {
                    assert forall|k: nat|
                        k <= u64::MAX && #[trigger] run_spec(v1, base as nat, k) is Some implies {
                        let (vf, x) = run_spec(v1, base as nat, k).unwrap();
                        outcome(r) == x && machine_view(*self) == MachineView {
                            frames: machine_view(*old(self)).frames,
                            ..vf
                        }
                    } by {
                        law_run_keeps_frames(v1, base as nat, k);
                        let vf = run_spec(v1, base as nat, k).unwrap().0;
                        assert(frames_view(after) == vf.frames);
                        assert(self.stack@ =~= after.subrange(0, base as int));
                        assert forall|i: int| 0 <= i < base implies frames_view(self.stack@)[i] == frames_view(
                            old(self).stack@,
                        )[i] by {
                            assert(frames_view(after)[i] == vf.frames[i]);
                            assert(vf.frames[i] == v1.frames[i]);
                            assert(entered_stack[i] == old(self).stack@[i]);
                        }
                        assert(frames_view(self.stack@) =~= frames_view(old(self).stack@));
                    }
                }
                r
            },
        }
    }

    /// Installs `code` in the current frame, resolves its labels, and runs
    /// it from its first instruction until the frame returns or fails: the
    /// result is the outcome of `run_spec` from the state `installed` gives.
    pub fn run_code<H: Host>(&mut self, host: &mut H, code: Vec<Instruction>) -> (r: Result<Value, VmError>)
        ensures
            old(self).stack@.len() == 0 ==> r is Err,
            r is Ok ==> final(self).stack@.len() == old(self).stack@.len() - 1,
            old(self).stack@.len() > 0 ==> forall|k: nat|
                k <= u64::MAX && #[trigger] run_spec(
                    installed(machine_view(*old(self)), code@),
                    (old(self).stack@.len() - 1) as nat,
                    k,
                ) is Some ==> run_spec(
                    installed(machine_view(*old(self)), code@),
                    (old(self).stack@.len() - 1) as nat,
                    k,
                ) == Some((machine_view(*final(self)), outcome(r))),
    {
        let n = self.stack.len();
        if n == 0 {
            return Err(runtime("no frame to run the code in"));
        }
        let labels = crate::frame::scan_labels(&code);
        proof {
            lemma_label_map(code@, labels@);
        }
        let ghost c = code@;
        self.stack[n - 1].code = code;
        self.stack[n - 1].labels = labels;
        self.stack[n - 1].ip = 0;
        proof {
            let mv = machine_view(*old(self));
            lemma_frames_top(old(self).stack@, self.stack@, FrameView { ip: 0, code: c, labels: label_map(c), ..top(mv) });
        }
        self.execute_op(host, n - 1)
    }

    /// One step of a run that started in `v0` and has taken `t` steps.
    fn tracked_step<H: Host>(&mut self, host: &mut H, base: usize, v0: Ghost<MachineView>, t: Ghost<nat>) -> (r: Result<
        Status,
        VmError,
    >)
        requires
            tracks(v0@, machine_view(*old(self)), base as nat, t@),
        ensures
            r == Ok::<Status, VmError>(Status::Running) ==> tracks(v0@, machine_view(*final(self)), base as nat, t@ + 1),
            r matches Ok(Status::Returned(_)) ==> final(self).stack@.len() == base,
            r matches Ok(Status::Returned(x)) ==> forall|k: nat|
                k <= u64::MAX && #[trigger] run_spec(v0@, base as nat, k) is Some ==> run_spec(v0@, base as nat, k) == Some(
                    (machine_view(*final(self)), Ok::<Value, Fault>(x)),
                ),
            r matches Err(e) ==> forall|k: nat|
                k <= u64::MAX && #[trigger] run_spec(v0@, base as nat, k) is Some ==> run_spec(v0@, base as nat, k) == Some(
                    (machine_view(*final(self)), Err::<Value, Fault>(fault(e))),
                ),
    {
        let r = self.step(host, base);
        proof {
            lemma_tracks_after(v0@, machine_view(*old(self)), base as nat, t@, machine_view(*self), r);
        }
        r
    }

    /// Steps until the invocation above `base` returns or fails.
    ///
    /// Whenever the run described by `run_spec` ends within `u64::MAX`
    /// steps, its outcome is the result and its last state is the machine's.
    /// A failing run pops no frames: the machine stays as the failing step
    /// left it.
    pub fn execute_op<H: Host>(&mut self, host: &mut H, base: usize) -> (r: Result<Value, VmError>)
        ensures
            r is Ok ==> final(self).stack@.len() == base,
            forall|k: nat|
                k <= u64::MAX && #[trigger] run_spec(machine_view(*old(self)), base as nat, k) is Some ==> run_spec(
                    machine_view(*old(self)),
                    base as nat,
                    k,
                ) == Some((machine_view(*final(self)), outcome(r))),
    {
        let ghost v0 = machine_view(*old(self));
        let mut fuel: u64 = u64::MAX;
        let ghost mut t: nat = 0;
        proof {
            lemma_tracks_start(v0, base as nat);
        }
        loop
            invariant
                v0 == machine_view(*old(self)),
                t + fuel == u64::MAX,
                tracks(v0, machine_view(*self), base as nat, t),
            decreases fuel,
        {
            if fuel == 0 {
                proof {
                    lemma_tracks_limit(v0, machine_view(*self), base as nat);
                }
                return Err(runtime("step limit reached"));
            }
            fuel = fuel - 1;
            let r = self.tracked_step(host, base, Ghost(v0), Ghost(t));
            match r {
                Ok(Status::Running) => {
                    proof {
                        t = t + 1;
                    }
                },
                Ok(Status::Returned(v)) => {
                    return Ok(v);
                },
                Err(e) => {
                    return Err(e);
                },
            }
        }
    }

    /// A copy of a value that can be treated as a fresh instance: scalars
    /// are their own copy, a class is copied field by field into a new slot.
    pub fn clone_object(&mut self, v: Value) -> (r: Result<Value, VmError>)
        requires
            old(self).pool.slots().len() < usize::MAX,
        ensures
            !(v is Object) ==> r == Ok::<Value, VmError>(v),
            (v is Object && old(self).pool.occupied(v->Object_0) && old(self).pool.slots()[v->Object_0 as int].unwrap() is Class)
                ==> {
                let c = old(self).pool.slots()[v->Object_0 as int].unwrap()->Class_0;
                &&& r matches Ok(Value::Object(h))
                &&& final(self).pool.slots().len() >= old(self).pool.slots().len()
                &&& forall|i: int| 0 <= i < old(self).pool.slots().len() && i != r->Ok_0->Object_0 ==> final(self).pool.slots()[i]
                    == old(self).pool.slots()[i]
                &&& (old(self).pool.slots().len() > r->Ok_0->Object_0 ==> old(self).pool.slots()[r->Ok_0->Object_0 as int] is None)
                &&& final(self).pool.slots()[r->Ok_0->Object_0 as int] matches Some(Object::Class(d)) && d.name == c.name
                    && d.fields@ == c.fields@ && d.initialized == c.initialized
            },
            final(self).stack == old(self).stack,
    {
        let h = match v {
            Value::Object(h) => h,
            _ => return Ok(v),
        };
        if !self.pool.is_occupied(h) {
            return Err(runtime("handle of a freed object"));
        }
        let copy = match self.pool.get(h) {
            Object::Class(c) => c.duplicate(),
            o => return Err(VmError::Expected(String::from_str("class"), o.typename())),
        };
        let n = self.pool.allocate(Object::Class(copy));
        Ok(Value::Object(n))
    }

    /// The value as a 64-bit integer: integers widen, booleans read as 0 or
    /// 1, null as 0, objects under the object protocol; `None` for floating
    /// values, which the host converts, and for objects with no numeric
    /// reading.
    pub fn to_long(&self, v: Value) -> (r: Option<i64>)
        ensures
            r == match v {
                Value::Int(i) => Some(i as i64),
                Value::Long(l) => Some(l),
                Value::Bool(b) => Some(if b { 1i64 } else { 0i64 }),
                Value::Null => Some(0i64),
                Value::Object(_) => coerced_of(&self.pool, v),
                Value::Float(_) | Value::Double(_) => None,
            },
    {
        match v {
            Value::Int(i) => Some(i as i64),
            Value::Long(l) => Some(l),
            Value::Bool(b) => Some(if b { 1 } else { 0 }),
            Value::Null => Some(0),
            Value::Object(_) => self.coerce(v),
            Value::Float(_) | Value::Double(_) => None,
        }
    }

    /// The value as a 32-bit integer: a `Long` is truncated to its low 32
    /// bits, otherwise as `to_long`, with objects whose number does not fit
    /// giving `None`.
    pub fn to_int(&self, v: Value) -> (r: Option<i32>)
        ensures
            r == int_of(slots_view(self.pool.slots()), v),
            r == match v {
                Value::Int(i) => Some(i),
                Value::Long(l) => Some(l as i32),
                Value::Bool(b) => Some(if b { 1i32 } else { 0i32 }),
                Value::Null => Some(0i32),
                Value::Object(_) => match coerced_of(&self.pool, v) {
                    Some(c) => if i32::MIN <= c <= i32::MAX { Some(c as i32) } else { None },
                    None => None,
                },
                Value::Float(_) | Value::Double(_) => None,
            },
    {
        match v {
            Value::Int(i) => Some(i),
            Value::Long(l) => Some(l as i32),
            Value::Bool(b) => Some(if b { 1 } else { 0 }),
            Value::Null => Some(0),
            Value::Object(_) => match self.coerce(v) {
                Some(c) => if i32::MIN as i64 <= c && c <= i32::MAX as i64 {
                    Some(c as i32)
                } else {
                    None
                },
                None => None,
            },
            Value::Float(_) | Value::Double(_) => None,
        }
    }

    /// The text of a string object, copied.
    fn text(&self, key: Value) -> (r: Option<String>)
        ensures
            match r {
                Some(s) => text_at(&self.pool, key) == Some(s@),
                None => text_at(&self.pool, key) is None,
            },
    {
        match key {
            Value::Object(kh) => match self.pool.get_typed::<String>(kh) {
                Some(s) => Some(s.clone()),
                None => None,
            },
            _ => None,
        }
    }
}

/// How a read from an object resolves.
enum Access {
    /// The value read.
    Value(Value),
    /// A callable that computes the value from the receiver and the key.
    Delegate(Value),
    /// The read goes to the host object with this id.
    Host(usize),
    /// A function's listing, to be handed out behind a function that returns it.
    Listing(String),
}

/// The register write of an instruction that only computes a value into a
/// register of the current frame of `m`: the register and the value. `None`
/// for the other instructions and when the computation does not succeed in
/// the machine itself.
pub open spec fn register_effect(m: Machine, i: Instruction) -> Option<(usize, Value)> {
    let f = m.top();
    let done = |a: usize, e: Evaluation|
        match e {
            Evaluation::Done(v) => Some((a, v)),
            _ => None,
        };
    let arith = |op: ArithOp, a: usize, b: usize, c: usize|
        done(a, arith_spec(op, f.stack@[b as int], f.stack@[c as int], coerced_of(&m.pool, f.stack@[c as int])));
    let compare = |op: CompareOp, a: usize, b: usize, c: usize|
        done(a, compare_spec(op, f.stack@[b as int], f.stack@[c as int], coerced_of(&m.pool, f.stack@[c as int])));
    let bits = |op: BitOp, a: usize, b: usize, c: usize|
        match bit_spec(op, f.stack@[b as int], f.stack@[c as int]) {
            Some(v) => Some((a, v)),
            None => None,
        };
    match i {
        Instruction::LoadBool(a, x) => Some((a, Value::Bool(x))),
        Instruction::LoadInt(a, x) => Some((a, Value::Int(x))),
        Instruction::LoadLong(a, x) => Some((a, Value::Long(x))),
        Instruction::LoadFloat(a, x) => Some((a, Value::Float(x))),
        Instruction::LoadDouble(a, x) => Some((a, Value::Double(x))),
        Instruction::LoadConst(a, k) => Some((a, Value::Object(k))),
        Instruction::LoadGlobal(a, g) => if m.globals@.contains_key(g) {
            Some((a, m.globals@[g]))
        } else {
            None
        },
        Instruction::Move(a, b) => Some((a, f.stack@[b as int])),
        Instruction::Not(a, b) => Some((a, Value::Bool(not_spec(f.stack@[b as int])))),
        Instruction::Add(a, b, c) => arith(ArithOp::Add, a, b, c),
        Instruction::Sub(a, b, c) => arith(ArithOp::Sub, a, b, c),
        Instruction::Mul(a, b, c) => arith(ArithOp::Mul, a, b, c),
        Instruction::Div(a, b, c) => arith(ArithOp::Div, a, b, c),
        Instruction::Rem(a, b, c) => arith(ArithOp::Rem, a, b, c),
        Instruction::Gt(a, b, c) => compare(CompareOp::Gt, a, b, c),
        Instruction::Ge(a, b, c) => compare(CompareOp::Ge, a, b, c),
        Instruction::Lt(a, b, c) => compare(CompareOp::Lt, a, b, c),
        Instruction::Le(a, b, c) => compare(CompareOp::Le, a, b, c),
        Instruction::Eq(a, b, c) => compare(CompareOp::Eq, a, b, c),
        Instruction::Neq(a, b, c) => compare(CompareOp::Neq, a, b, c),
        Instruction::BitAnd(a, b, c) => bits(BitOp::And, a, b, c),
        Instruction::BitOr(a, b, c) => bits(BitOp::Or, a, b, c),
        Instruction::BitXor(a, b, c) => bits(BitOp::Xor, a, b, c),
        Instruction::Shl(a, b, c) => bits(BitOp::Shl, a, b, c),
        Instruction::Shr(a, b, c) => bits(BitOp::Shr, a, b, c),
        Instruction::And(a, b, c) => match (f.stack@[b as int], f.stack@[c as int]) {
            (Value::Bool(p), Value::Bool(q)) => Some((a, Value::Bool(p && q))),
            _ => None,
        },
        Instruction::Or(a, b, c) => match (f.stack@[b as int], f.stack@[c as int]) {
            (Value::Bool(p), Value::Bool(q)) => Some((a, Value::Bool(p || q))),
            _ => None,
        },
        _ => None,
    }
}

/// The operator and registers of an arithmetic instruction.
pub open spec fn arith_of(i: Instruction) -> Option<(ArithOp, usize, usize, usize)> {
    match i {
        Instruction::Add(a, b, c) => Some((ArithOp::Add, a, b, c)),
        Instruction::Sub(a, b, c) => Some((ArithOp::Sub, a, b, c)),
        Instruction::Mul(a, b, c) => Some((ArithOp::Mul, a, b, c)),
        Instruction::Div(a, b, c) => Some((ArithOp::Div, a, b, c)),
        Instruction::Rem(a, b, c) => Some((ArithOp::Rem, a, b, c)),
        _ => None,
    }
}

/// The text of `key` when it is a handle of a string object.
pub open spec fn text_at(pool: &ObjectPool, key: Value) -> Option<Seq<char>> {
    text_in(slots_view(pool.slots()), key)
}

/// What an operand converts to under the object protocol.
pub open spec fn coerced_of(pool: &ObjectPool, v: Value) -> Option<i64> {
    coerced_in(slots_view(pool.slots()), v)
}

fn index(key: Value) -> (r: Option<u64>)
    ensures
        match r {
            Some(i) => index_of(key) == Some(i as int),
            None => index_of(key) is None,
        },
{
    match key {
        Value::Int(i) => if i >= 0 { Some(i as u64) } else { None },
        Value::Long(l) => if l >= 0 { Some(l as u64) } else { None },
        _ => None,
    }
}

} // verus!
