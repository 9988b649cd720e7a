use vstd::prelude::*;

use crate::error::VmError;
use crate::frame::{after_call_args, call_args, first_label, is_label, labels_resolved, seeded_registers, CallFrame};
use crate::instruction::{listing, Instruction};
use crate::machine::{debug_text, kind_name, registers_below, Machine, Status, STACK_LIMIT};
use crate::object::{field_value, is_first_key, Field, Function, Object};
use crate::text::decimal_i64;
use crate::value::{
    arith_spec, bit_spec, compare_spec, not_spec, ArithOp, BitOp, CompareOp, Evaluation, Value,
};

verus! {

/// The contents of a call frame as plain values.
pub struct FrameView {
    pub ip: usize,
    pub code: Seq<Instruction>,
    pub regs: Seq<Value>,
    pub args: Seq<Value>,
    pub labels: Map<usize, usize>,
    pub dest: usize,
    pub init_of: Option<usize>,
}

/// The state of a machine as plain values: its frames, the pool's slots and
/// freed handles, and the globals.
pub struct MachineView {
    pub frames: Seq<FrameView>,
    pub slots: Seq<Option<ObjView>>,
    pub free: Seq<usize>,
    pub globals: Map<usize, Value>,
}

/// An error of the machine, its texts as character sequences.
pub enum Fault {
    Runtime(Seq<char>),
    LabelNotFound(usize),
    GlobalNotFound(usize),
    Expected(Seq<char>, Seq<char>),
    Arithmetic,
    NotCallable,
    FieldNotFound(Seq<char>),
    StackOverflow,
}

pub open spec fn fault(e: VmError) -> Fault {
    match e {
        VmError::RuntimeError(s) => Fault::Runtime(s@),
        VmError::LabelNotFound(l) => Fault::LabelNotFound(l),
        VmError::GlobalNotFound(g) => Fault::GlobalNotFound(g),
        VmError::Expected(x, y) => Fault::Expected(x@, y@),
        VmError::Arithmetic => Fault::Arithmetic,
        VmError::NotCallable => Fault::NotCallable,
        VmError::FieldNotFound(s) => Fault::FieldNotFound(s@),
        VmError::StackOverflow => Fault::StackOverflow,
    }
}

/// A result with its error seen as a `Fault`.
pub open spec fn outcome<T>(r: Result<T, VmError>) -> Result<T, Fault> {
    match r {
        Ok(x) => Ok(x),
        Err(e) => Err(fault(e)),
    }
}

/// The contents of a pool object as plain values.
pub enum ObjView {
    Root(Seq<usize>),
    Text(Seq<char>),
    /// A bytecode function: its code and argument count.
    Code(Seq<Instruction>, usize),
    Native(usize),
    /// A class: its name, its fields in order, and whether it is initialized.
    Class(Seq<char>, Seq<(Seq<char>, Value)>, bool),
    Array(Seq<Value>),
    Host(usize),
}

pub open spec fn field_pair(f: Field) -> (Seq<char>, Value) {
    (f.name@, f.value)
}

pub open spec fn fields_view(fs: Seq<Field>) -> Seq<(Seq<char>, Value)> {
    fs.map_values(|f: Field| field_pair(f))
}

pub open spec fn obj_view(o: Object) -> ObjView {
    match o {
        Object::Root(r) => ObjView::Root(r.children@),
        Object::Text(t) => ObjView::Text(t@),
        Object::Function(Function::Virtual(vf)) => ObjView::Code(vf.code@, vf.argc),
        Object::Function(Function::Native(nf)) => ObjView::Native(nf.0),
        Object::Class(c) => ObjView::Class(c.name@, fields_view(c.fields@), c.initialized),
        Object::Array(a) => ObjView::Array(a.elements@),
        Object::Host(id) => ObjView::Host(id),
    }
}

pub open spec fn slot_view(o: Option<Object>) -> Option<ObjView> {
    match o {
        Some(x) => Some(obj_view(x)),
        None => None,
    }
}

pub open spec fn slots_view(s: Seq<Option<Object>>) -> Seq<Option<ObjView>> {
    s.map_values(|o: Option<Object>| slot_view(o))
}

pub proof fn lemma_reuses_view(s: Seq<Option<Object>>, free: Seq<usize>)
    ensures
        reuses(slots_view(s), free) == reuses(s, free),
        alloc_handle(slots_view(s), free) == alloc_handle(s, free),
{
}

pub proof fn lemma_slots_update(s: Seq<Option<Object>>, i: int, o: Option<Object>)
    requires
        0 <= i < s.len(),
    ensures
        slots_view(s.update(i, o)) == slots_view(s).update(i, slot_view(o)),
{
    assert(slots_view(s.update(i, o)) =~= slots_view(s).update(i, slot_view(o)));
}

pub proof fn lemma_slots_push(s: Seq<Option<Object>>, o: Option<Object>)
    ensures
        slots_view(s.push(o)) == slots_view(s).push(slot_view(o)),
{
    assert(slots_view(s.push(o)) =~= slots_view(s).push(slot_view(o)));
}

/// Whether `i` is the first position of `fs` named `k`.
pub open spec fn first_pair(fs: Seq<(Seq<char>, Value)>, k: Seq<char>, i: int) -> bool {
    &&& 0 <= i < fs.len()
    &&& fs[i].0 == k
    &&& forall|j: int| 0 <= j < i ==> fs[j].0 != k
}

/// The value of the first field named `k`.
pub open spec fn field_in(fs: Seq<(Seq<char>, Value)>, k: Seq<char>) -> Option<Value> {
    if exists|i: int| first_pair(fs, k, i) {
        Some(fs[choose|i: int| first_pair(fs, k, i)].1)
    } else {
        None
    }
}

/// The fields with `k` set to `v`: the first field of that name is
/// overwritten, or a field is added at the end.
pub open spec fn field_set(fs: Seq<(Seq<char>, Value)>, k: Seq<char>, v: Value) -> Seq<(Seq<char>, Value)> {
    if exists|i: int| first_pair(fs, k, i) {
        fs.update(choose|i: int| first_pair(fs, k, i), (k, v))
    } else {
        fs.push((k, v))
    }
}

pub proof fn lemma_first_pair_unique(fs: Seq<(Seq<char>, Value)>, k: Seq<char>, i: int, j: int)
    requires
        first_pair(fs, k, i),
        first_pair(fs, k, j),
    ensures
        i == j,
{
    if i < j {
        assert(fs[i].0 != k);
    } else if j < i {
        assert(fs[j].0 != k);
    }
}

/// The fields of a class read through its view as through the class.
pub proof fn lemma_fields_view(fs: Seq<Field>)
    ensures
        forall|k: Seq<char>| #[trigger] field_in(fields_view(fs), k) == field_value(fs, k),
        forall|k: Seq<char>, i: int| #[trigger] first_pair(fields_view(fs), k, i) <==> is_first_key(fs, k, i),
{
    let vs = fields_view(fs);
    assert forall|j: int| 0 <= j < fs.len() implies #[trigger] vs[j].0 == fs[j].name@ by {
        assert(vs[j] == field_pair(fs[j]));
    }
    assert forall|k: Seq<char>, i: int| #[trigger] first_pair(vs, k, i) <==> is_first_key(fs, k, i) by {
        if 0 <= i < fs.len() {
            assert(vs[i].0 == fs[i].name@);
            if first_pair(vs, k, i) {
                assert forall|j: int| 0 <= j < i implies fs[j].name@ != k by {
                    assert(vs[j].0 == fs[j].name@);
                }
            }
            if is_first_key(fs, k, i) {
                assert forall|j: int| 0 <= j < i implies vs[j].0 != k by {
                    assert(vs[j].0 == fs[j].name@);
                }
            }
        }
    }
    assert forall|k: Seq<char>| #[trigger] field_in(vs, k) == field_value(fs, k) by {
        if exists|i: int| is_first_key(fs, k, i) {
            let i = choose|i: int| is_first_key(fs, k, i);
            assert(first_pair(vs, k, i));
            let j = choose|j: int| first_pair(vs, k, j);
            lemma_first_pair_unique(vs, k, i, j);
        } else {
            if exists|i: int| first_pair(vs, k, i) {
                let i = choose|i: int| first_pair(vs, k, i);
                assert(is_first_key(fs, k, i));
            }
        }
    }
}

pub open spec fn frame_view(f: CallFrame) -> FrameView {
    FrameView {
        ip: f.ip,
        code: f.code@,
        regs: f.stack@,
        args: f.arg_stack@,
        labels: f.labels@,
        dest: f.dest,
        init_of: f.init_of,
    }
}

pub open spec fn frames_view(s: Seq<CallFrame>) -> Seq<FrameView> {
    s.map_values(|f: CallFrame| frame_view(f))
}

pub open spec fn machine_view(m: Machine) -> MachineView {
    MachineView {
        frames: frames_view(m.stack@),
        slots: slots_view(m.pool.slots()),
        free: m.pool.freed(),
        globals: m.globals@,
    }
}

/// Frames that keep all but the last frame and whose last frame reads as `f`.
pub proof fn lemma_frames_top(old: Seq<CallFrame>, new: Seq<CallFrame>, f: FrameView)
    requires
        old.len() > 0,
        new.len() == old.len(),
        forall|i: int| 0 <= i < old.len() - 1 ==> new[i] == old[i],
        frame_view(new.last()) == f,
    ensures
        frames_view(new) == frames_view(old).update(old.len() - 1, f),
{
    assert(frames_view(new) =~= frames_view(old).update(old.len() - 1, f));
}

pub proof fn lemma_frames_push(old: Seq<CallFrame>, f: CallFrame)
    ensures
        frames_view(old.push(f)) == frames_view(old).push(frame_view(f)),
{
    assert(frames_view(old.push(f)) =~= frames_view(old).push(frame_view(f)));
}

pub proof fn lemma_frames_drop(old: Seq<CallFrame>)
    requires
        old.len() > 0,
    ensures
        frames_view(old.drop_last()) == frames_view(old).drop_last(),
{
    assert(frames_view(old.drop_last()) =~= frames_view(old).drop_last());
}

/// The label table of `code`: each label id to the index of its first `Label`.
pub open spec fn label_map(code: Seq<Instruction>) -> Map<usize, usize> {
    Map::new(
        |l: usize| exists|i: int| is_label(code, i, l),
        |l: usize| (choose|i: int| first_label(code, l, i)) as usize,
    )
}

pub proof fn lemma_label_map(code: Seq<Instruction>, m: Map<usize, usize>)
    requires
        labels_resolved(code, m),
    ensures
        m == label_map(code),
{
    assert forall|l: usize| #[trigger] m.contains_key(l) implies m[l] == label_map(code)[l] by {
        let i = choose|i: int| first_label(code, l, i);
        assert(first_label(code, l, m[l] as int));
        if i < m[l] {
            assert(!is_label(code, i, l));
        } else if m[l] < i {
            assert(!is_label(code, m[l] as int, l));
        }
    }
    assert(m =~= label_map(code));
}

/// The text of a string object that `key` names.
pub open spec fn text_in(slots: Seq<Option<ObjView>>, key: Value) -> Option<Seq<char>> {
    match key {
        Value::Object(kh) => if kh < slots.len() && slots[kh as int] is Some && slots[kh as int].unwrap() is Text {
            Some(slots[kh as int].unwrap()->Text_0)
        } else {
            None
        },
        _ => None,
    }
}

/// What an operand converts to under the object protocol: a string object
/// reads as the decimal integer it spells, any other value as zero.
pub open spec fn coerced_in(slots: Seq<Option<ObjView>>, v: Value) -> Option<i64> {
    match text_in(slots, v) {
        Some(s) => decimal_i64(s),
        None => Some(0),
    }
}

/// The type name of a value, as `Isa` compares it.
/// A value read as a 32-bit integer: a `Long` truncated, booleans as 0 or 1,
/// null as 0, objects under the object protocol; `None` for floating values
/// and for objects with no 32-bit reading.
pub open spec fn int_of(slots: Seq<Option<ObjView>>, v: Value) -> Option<i32> {
    match v {
        Value::Int(i) => Some(i),
        Value::Long(l) => Some(l as i32),
        Value::Bool(b) => Some(if b { 1i32 } else { 0i32 }),
        Value::Null => Some(0i32),
        Value::Object(_) => match coerced_in(slots, v) {
            Some(c) => if i32::MIN <= c <= i32::MAX { Some(c as i32) } else { None },
            None => None,
        },
        Value::Float(_) | Value::Double(_) => None,
    }
}

/// The type name of an object.
pub open spec fn view_typename(o: ObjView) -> Seq<char> {
    match o {
        ObjView::Text(_) => "String"@,
        ObjView::Code(..) | ObjView::Native(_) => "Func"@,
        ObjView::Class(name, _, _) => name,
        ObjView::Array(_) => "Array"@,
        _ => "Object"@,
    }
}

pub open spec fn type_name_in(slots: Seq<Option<ObjView>>, v: Value) -> Seq<char> {
    match v {
        Value::Object(h) => if h < slots.len() && slots[h as int] is Some {
            view_typename(slots[h as int].unwrap())
        } else {
            "Object"@
        },
        _ => kind_name(v),
    }
}

/// The element index that `key` denotes, when it is a non-negative integer.
pub open spec fn index_of(key: Value) -> Option<int> {
    match key {
        Value::Int(i) => if i >= 0 { Some(i as int) } else { None },
        Value::Long(l) => if l >= 0 { Some(l as int) } else { None },
        _ => None,
    }
}

pub open spec fn top(v: MachineView) -> FrameView {
    v.frames.last()
}

pub open spec fn with_top(v: MachineView, f: FrameView) -> MachineView {
    MachineView { frames: v.frames.update(v.frames.len() - 1, f), ..v }
}

pub open spec fn moved(f: FrameView, ip: int) -> FrameView {
    FrameView { ip: ip as usize, ..f }
}

pub open spec fn written(f: FrameView, r: usize, x: Value) -> FrameView {
    FrameView { regs: f.regs.update(r as int, x), ..f }
}

/// `v` with register `r` of the current frame set to `x` and the
/// instruction pointer moved on.
pub open spec fn set_next(v: MachineView, r: usize, x: Value) -> MachineView {
    with_top(v, moved(written(top(v), r, x), top(v).ip + 1))
}

/// `v` with the instruction pointer of the current frame moved on.
pub open spec fn next(v: MachineView) -> MachineView {
    with_top(v, moved(top(v), top(v).ip + 1))
}

pub open spec fn running(v: MachineView) -> Option<(MachineView, Result<Status, Fault>)> {
    Some((v, Ok(Status::Running)))
}

pub open spec fn failing(v: MachineView, e: Fault) -> Option<(MachineView, Result<Status, Fault>)> {
    Some((v, Err(e)))
}

/// The slots with the class at `c` marked initialized.
pub open spec fn marked(slots: Seq<Option<ObjView>>, c: usize) -> Seq<Option<ObjView>> {
    match if c < slots.len() { slots[c as int] } else { None } {
        Some(ObjView::Class(name, fs, _)) => slots.update(c as int, Some(ObjView::Class(name, fs, true))),
        _ => slots,
    }
}

/// The slots with field `k` of the class at `h` set to `v`.
pub open spec fn stored_field(slots: Seq<Option<ObjView>>, h: usize, k: Seq<char>, v: Value) -> Seq<Option<ObjView>> {
    match if h < slots.len() { slots[h as int] } else { None } {
        Some(ObjView::Class(name, fs, init)) => slots.update(h as int, Some(ObjView::Class(name, field_set(fs, k, v), init))),
        _ => slots,
    }
}

/// The slots with element `i` of the array at `h` set to `v`.
pub open spec fn stored_element(slots: Seq<Option<ObjView>>, h: usize, i: int, v: Value) -> Seq<Option<ObjView>> {
    match if h < slots.len() { slots[h as int] } else { None } {
        Some(ObjView::Array(es)) => slots.update(h as int, Some(ObjView::Array(es.update(i, v)))),
        _ => slots,
    }
}

/// Whether the most recently freed handle names an empty slot.
pub open spec fn reuses<T>(slots: Seq<Option<T>>, free: Seq<usize>) -> bool {
    free.len() > 0 && free.last() < slots.len() && slots[free.last() as int] is None
}

/// The handle that an allocation gives.
pub open spec fn alloc_handle<T>(slots: Seq<Option<T>>, free: Seq<usize>) -> usize {
    if reuses(slots, free) {
        free.last()
    } else {
        slots.len() as usize
    }
}

/// `v` after pinning `o` to the pool.
pub open spec fn allocated(v: MachineView, o: ObjView) -> MachineView {
    let h = alloc_handle(v.slots, v.free);
    MachineView {
        slots: if reuses(v.slots, v.free) {
            v.slots.update(h as int, Some(o))
        } else {
            v.slots.push(Some(o))
        },
        free: if v.free.len() > 0 {
            v.free.drop_last()
        } else {
            v.free
        },
        ..v
    }
}

/// The receiver of a delegated call: the class itself.
pub open spec fn with_receiver(args: Seq<Value>, h: usize) -> Seq<Value> {
    if args.len() > 0 {
        args.update(0, Value::Object(h))
    } else {
        seq![Value::Object(h)]
    }
}

/// What a call reaches.
pub enum Target {
    Code(Seq<Instruction>),
    Native(usize),
}

/// Follows classes to the function a call reaches: an uninitialized class
/// delegates to its `init` field, an initialized one to `__call__`, each
/// with the class as receiver. The result holds the class being
/// initialized, if any, and the arguments.
pub open spec fn resolve_spec(
    slots: Seq<Option<ObjView>>,
    target: Value,
    args: Seq<Value>,
    init_of: Option<usize>,
    hops: nat,
) -> Result<(Target, Option<usize>, Seq<Value>), Fault>
    decreases STACK_LIMIT - hops,
{
    match target {
        Value::Object(h) => if h < slots.len() && slots[h as int] is Some {
            match slots[h as int].unwrap() {
                ObjView::Code(code, _) => Ok((Target::Code(code), init_of, args)),
                ObjView::Native(n) => Ok((Target::Native(n), init_of, args)),
                ObjView::Class(_, fs, initialized) => if hops + 1 >= STACK_LIMIT {
                    Err(Fault::StackOverflow)
                } else {
                    let name = if initialized {
                        "__call__"@
                    } else {
                        "init"@
                    };
                    match field_in(fs, name) {
                        Some(f) => resolve_spec(
                            slots,
                            f,
                            with_receiver(args, h),
                            if initialized {
                                init_of
                            } else {
                                Some(h)
                            },
                            hops + 1,
                        ),
                        None => Err(Fault::FieldNotFound(name)),
                    }
                },
                _ => Err(Fault::NotCallable),
            }
        } else {
            Err(Fault::NotCallable)
        },
        _ => Err(Fault::NotCallable),
    }
}

/// The frame that a call of `code` with `args` enters.
pub open spec fn entered(code: Seq<Instruction>, args: Seq<Value>, dest: usize, init_of: Option<usize>) -> FrameView {
    FrameView {
        ip: 0,
        code,
        regs: seeded_registers(args),
        args,
        labels: label_map(code),
        dest,
        init_of,
    }
}

/// Entering a call of `callable` with `args` (receiver first) whose result
/// goes to register `dest`: the new state, an error with the state
/// unchanged, or `None` when a native function decides.
pub open spec fn enter_spec(v: MachineView, callable: Value, args: Seq<Value>, dest: usize) -> Option<
    Result<MachineView, Fault>,
> {
    match resolve_spec(v.slots, callable, args, None, 0) {
        Err(e) => Some(Err(e)),
        Ok((t, init_of, args2)) => if v.frames.len() >= STACK_LIMIT {
            Some(Err(Fault::StackOverflow))
        } else {
            let args3 = if args2.len() == 0 {
                seq![Value::Null]
            } else {
                args2
            };
            match t {
                Target::Code(code) => Some(
                    Ok(MachineView { frames: v.frames.push(entered(code, args3, dest, init_of)), ..v }),
                ),
                Target::Native(_) => None,
            }
        },
    }
}

/// `v` with `code` installed in the current frame, its labels resolved and
/// its instruction pointer at the start.
pub open spec fn installed(v: MachineView, code: Seq<Instruction>) -> MachineView {
    with_top(v, FrameView { ip: 0, code, labels: label_map(code), ..top(v) })
}

/// A call from the current instruction: `v1` is the state with the
/// instruction pointer already moved on.
pub open spec fn call_spec(v1: MachineView, callable: Value, args: Seq<Value>, dest: usize) -> Option<
    (MachineView, Result<Status, Fault>),
> {
    match enter_spec(v1, callable, args, dest) {
        None => None,
        Some(Ok(v2)) => running(v2),
        Some(Err(e)) => failing(v1, e),
    }
}

/// Ending the current frame with result `x`.
pub open spec fn finish_spec(v: MachineView, x: Value, base: nat) -> Option<(MachineView, Result<Status, Fault>)> {
    let p = v.frames.last();
    let rest = v.frames.drop_last();
    let slots = match p.init_of {
        Some(c) => marked(v.slots, c),
        None => v.slots,
    };
    let v1 = MachineView { frames: rest, slots, ..v };
    if rest.len() <= base {
        Some((v1, Ok(Status::Returned(x))))
    } else if p.dest < rest.last().regs.len() {
        running(with_top(v1, written(rest.last(), p.dest, x)))
    } else {
        failing(v1, Fault::Runtime("result register out of range"@))
    }
}

/// Jumping to the instruction after `Label(l)`.
pub open spec fn goto_spec(v: MachineView, l: usize) -> Option<(MachineView, Result<Status, Fault>)> {
    let f = top(v);
    if f.labels.contains_key(l) {
        let i = f.labels[l];
        running(with_top(v, moved(f, if i < usize::MAX { i + 1 } else { i as int })))
    } else {
        failing(v, Fault::LabelNotFound(l))
    }
}

/// The result of a binary operator written to register `a`; `None` when the
/// host computes it.
pub open spec fn binary_spec(v: MachineView, a: usize, e: Evaluation) -> Option<(MachineView, Result<Status, Fault>)> {
    match e {
        Evaluation::Done(x) => running(set_next(v, a, x)),
        Evaluation::Unsupported => failing(v, Fault::Arithmetic),
        Evaluation::Floating => None,
    }
}

pub open spec fn arith_step(v: MachineView, op: ArithOp, a: usize, b: usize, c: usize) -> Option<
    (MachineView, Result<Status, Fault>),
> {
    let f = top(v);
    binary_spec(v, a, arith_spec(op, f.regs[b as int], f.regs[c as int], coerced_in(v.slots, f.regs[c as int])))
}

pub open spec fn compare_step(v: MachineView, op: CompareOp, a: usize, b: usize, c: usize) -> Option<
    (MachineView, Result<Status, Fault>),
> {
    let f = top(v);
    binary_spec(v, a, compare_spec(op, f.regs[b as int], f.regs[c as int], coerced_in(v.slots, f.regs[c as int])))
}

pub open spec fn bit_step(v: MachineView, op: BitOp, a: usize, b: usize, c: usize) -> Option<
    (MachineView, Result<Status, Fault>),
> {
    let f = top(v);
    match bit_spec(op, f.regs[b as int], f.regs[c as int]) {
        Some(x) => running(set_next(v, a, x)),
        None => failing(v, Fault::Arithmetic),
    }
}

pub open spec fn logic_step(v: MachineView, conj: bool, a: usize, b: usize, c: usize) -> Option<
    (MachineView, Result<Status, Fault>),
> {
    let f = top(v);
    match (f.regs[b as int], f.regs[c as int]) {
        (Value::Bool(p), Value::Bool(q)) => running(set_next(v, a, Value::Bool(if conj { p && q } else { p || q }))),
        (Value::Bool(_), y) => failing(v, Fault::Expected("Bool"@, kind_name(y))),
        (x, _) => failing(v, Fault::Expected("Bool"@, kind_name(x))),
    }
}

/// A conditional jump to index `idx` when `R(a)` is `want`.
pub open spec fn jump_if(v: MachineView, a: usize, idx: usize, want: bool) -> Option<(MachineView, Result<Status, Fault>)> {
    let f = top(v);
    match f.regs[a as int] {
        Value::Bool(x) => if x == want {
            running(with_top(v, moved(f, idx as int)))
        } else {
            running(next(v))
        },
        y => failing(v, Fault::Expected("Bool"@, kind_name(y))),
    }
}

/// How a read of `key` from an occupied slot resolves.
pub enum Read {
    Value(Value),
    Delegate(Value),
    Host(usize),
    /// A function's listing.
    Listing(Seq<char>),
}

pub open spec fn read_spec(slots: Seq<Option<ObjView>>, h: usize, key: Value) -> Result<Read, Fault> {
    match slots[h as int].unwrap() {
        ObjView::Class(_, fs, _) => match key {
            Value::Object(_) => match text_in(slots, key) {
                Some(name) => match field_in(fs, name) {
                    Some(x) => Ok(Read::Value(x)),
                    None => Err(Fault::FieldNotFound(name)),
                },
                None => Err(Fault::Expected("String"@, kind_name(key))),
            },
            Value::Int(_) | Value::Long(_) => match field_in(fs, "__get__"@) {
                Some(g) => Ok(Read::Delegate(g)),
                None => Err(Fault::FieldNotFound("__get__"@)),
            },
            _ => Err(Fault::Expected("String"@, kind_name(key))),
        },
        ObjView::Array(es) => match index_of(key) {
            Some(i) => if i < es.len() {
                Ok(Read::Value(es[i]))
            } else {
                Err(Fault::Runtime("array index out of range"@))
            },
            None => Err(Fault::Expected("Int"@, kind_name(key))),
        },
        ObjView::Code(..) | ObjView::Native(_) => match key {
            Value::Object(_) => match text_in(slots, key) {
                Some(name) => if name == "disassemble"@ {
                    Ok(Read::Listing(match slots[h as int].unwrap() {
                        ObjView::Code(code, _) => listing(code),
                        _ => "<native function>"@,
                    }))
                } else {
                    Err(Fault::FieldNotFound(name))
                },
                None => Err(Fault::Expected("String"@, kind_name(key))),
            },
            _ => Err(Fault::Expected("String"@, kind_name(key))),
        },
        ObjView::Host(id) => Ok(Read::Host(id)),
        o => Err(Fault::Expected("indexable object"@, view_typename(o))),
    }
}

/// `LoadAt(a, b, c)`: `None` where the host decides and for a function's
/// listing, which is built as new objects.
pub open spec fn load_at_spec(v: MachineView, a: usize, b: usize, c: usize) -> Option<(MachineView, Result<Status, Fault>)> {
    let f = top(v);
    let target = f.regs[b as int];
    let key = f.regs[c as int];
    match target {
        Value::Object(h) => if h < v.slots.len() && v.slots[h as int] is Some {
            match read_spec(v.slots, h, key) {
                Ok(Read::Value(x)) => running(set_next(v, a, x)),
                Ok(Read::Delegate(g)) => call_spec(next(v), g, seq![target, key], a),
                Ok(Read::Listing(text)) => if v.slots.len() >= usize::MAX - 1 {
                    failing(v, Fault::Runtime("object pool is full"@))
                } else {
                    let th = alloc_handle(v.slots, v.free);
                    let v1 = allocated(v, ObjView::Text(text));
                    let fh = alloc_handle(v1.slots, v1.free);
                    let v2 = allocated(v1, ObjView::Code(seq![Instruction::LoadConst(1, th), Instruction::Ret(1)], 0));
                    running(set_next(v2, a, Value::Object(fh)))
                },
                Ok(Read::Host(_)) => None,
                Err(e) => failing(v, e),
            }
        } else {
            failing(v, Fault::Runtime("handle of a freed object"@))
        },
        _ => failing(v, Fault::Expected("Value::Object"@, debug_text(target))),
    }
}

/// `StoreAt(a, b, c)`: every failure, the machine unchanged; `None` where
/// the host decides and for a successful store into a class or an array.
pub open spec fn store_at_spec(v: MachineView, a: usize, b: usize, c: usize) -> Option<(MachineView, Result<Status, Fault>)> {
    let f = top(v);
    let value = f.regs[a as int];
    let target = f.regs[b as int];
    let key = f.regs[c as int];
    match target {
        Value::Object(h) => if h < v.slots.len() && v.slots[h as int] is Some {
            match v.slots[h as int].unwrap() {
                ObjView::Class(..) => match text_in(v.slots, key) {
                    Some(name) => running(next(MachineView { slots: stored_field(v.slots, h, name, value), ..v })),
                    None => failing(v, Fault::Expected("String"@, kind_name(key))),
                },
                ObjView::Array(es) => match int_of(v.slots, key) {
                    Some(i) => if 0 <= i < es.len() {
                        running(next(MachineView { slots: stored_element(v.slots, h, i as int, value), ..v }))
                    } else {
                        failing(v, Fault::Runtime("array index out of range"@))
                    },
                    None => failing(v, Fault::Expected("Int"@, kind_name(key))),
                },
                ObjView::Host(_) => None,
                o => failing(v, Fault::Expected("indexable object"@, view_typename(o))),
            }
        } else {
            failing(v, Fault::Runtime("handle of a freed object"@))
        },
        _ => failing(v, Fault::Expected("Value::Object"@, debug_text(target))),
    }
}

/// One instruction `i` of the current frame, whose registers are in range.
pub open spec fn instruction_step(v: MachineView, i: Instruction, base: nat) -> Option<(MachineView, Result<Status, Fault>)> {
    let f = top(v);
    match i {
        Instruction::Label(_) => running(next(v)),
        Instruction::LoadArg(a) => running(with_top(v, moved(FrameView { args: f.args.push(f.regs[a as int]), ..f }, f.ip + 1))),
        Instruction::LoadBool(a, x) => running(set_next(v, a, Value::Bool(x))),
        Instruction::LoadInt(a, x) => running(set_next(v, a, Value::Int(x))),
        Instruction::LoadLong(a, x) => running(set_next(v, a, Value::Long(x))),
        Instruction::LoadFloat(a, x) => running(set_next(v, a, Value::Float(x))),
        Instruction::LoadDouble(a, x) => running(set_next(v, a, Value::Double(x))),
        Instruction::LoadConst(a, k) => running(set_next(v, a, Value::Object(k))),
        Instruction::LoadString(a, s) => if v.slots.len() == usize::MAX {
            failing(v, Fault::Runtime("object pool is full"@))
        } else {
            running(set_next(allocated(v, ObjView::Text(s@)), a, Value::Object(alloc_handle(v.slots, v.free))))
        },
        Instruction::LoadGlobal(a, g) => if v.globals.contains_key(g) {
            running(set_next(v, a, v.globals[g]))
        } else {
            failing(v, Fault::GlobalNotFound(g))
        },
        Instruction::StoreGlobal(a, g) => running(next(MachineView { globals: v.globals.insert(g, f.regs[a as int]), ..v })),
        Instruction::Move(a, b) => running(set_next(v, a, f.regs[b as int])),
        Instruction::Add(a, b, c) => arith_step(v, ArithOp::Add, a, b, c),
        Instruction::Sub(a, b, c) => arith_step(v, ArithOp::Sub, a, b, c),
        Instruction::Mul(a, b, c) => arith_step(v, ArithOp::Mul, a, b, c),
        Instruction::Div(a, b, c) => arith_step(v, ArithOp::Div, a, b, c),
        Instruction::Rem(a, b, c) => arith_step(v, ArithOp::Rem, a, b, c),
        Instruction::Gt(a, b, c) => compare_step(v, CompareOp::Gt, a, b, c),
        Instruction::Ge(a, b, c) => compare_step(v, CompareOp::Ge, a, b, c),
        Instruction::Lt(a, b, c) => compare_step(v, CompareOp::Lt, a, b, c),
        Instruction::Le(a, b, c) => compare_step(v, CompareOp::Le, a, b, c),
        Instruction::Eq(a, b, c) => compare_step(v, CompareOp::Eq, a, b, c),
        Instruction::Neq(a, b, c) => compare_step(v, CompareOp::Neq, a, b, c),
        Instruction::And(a, b, c) => logic_step(v, true, a, b, c),
        Instruction::Or(a, b, c) => logic_step(v, false, a, b, c),
        Instruction::BitAnd(a, b, c) => bit_step(v, BitOp::And, a, b, c),
        Instruction::BitOr(a, b, c) => bit_step(v, BitOp::Or, a, b, c),
        Instruction::BitXor(a, b, c) => bit_step(v, BitOp::Xor, a, b, c),
        Instruction::Shl(a, b, c) => bit_step(v, BitOp::Shl, a, b, c),
        Instruction::Shr(a, b, c) => bit_step(v, BitOp::Shr, a, b, c),
        Instruction::Not(a, b) => running(set_next(v, a, Value::Bool(not_spec(f.regs[b as int])))),
        Instruction::Jump(idx) => running(with_top(v, moved(f, idx as int))),
        Instruction::JumpT(a, idx) => jump_if(v, a, idx, true),
        Instruction::JumpF(a, idx) => jump_if(v, a, idx, false),
        Instruction::Goto(l) => goto_spec(v, l),
        Instruction::GotoT(a, l) => match f.regs[a as int] {
            Value::Bool(true) => goto_spec(v, l),
            Value::Bool(false) => running(next(v)),
            y => failing(v, Fault::Expected("Bool"@, kind_name(y))),
        },
        Instruction::GotoF(a, l) => match f.regs[a as int] {
            Value::Bool(false) | Value::Null => goto_spec(v, l),
            Value::Bool(true) => running(next(v)),
            y => failing(v, Fault::Expected("Bool"@, kind_name(y))),
        },
        Instruction::Ret(a) => finish_spec(v, f.regs[a as int], base),
        Instruction::Ret0 => finish_spec(v, Value::Null, base),
        Instruction::Isa(a, b, c) => running(
            set_next(v, a, Value::Bool(type_name_in(v.slots, f.regs[b as int]) == type_name_in(v.slots, f.regs[c as int]))),
        ),
        Instruction::LoadAt(a, b, c) => load_at_spec(v, a, b, c),
        Instruction::StoreAt(a, b, c) => store_at_spec(v, a, b, c),
        Instruction::Call(a, b, n) => if n == usize::MAX {
            failing(v, Fault::Runtime("argument count out of range"@))
        } else {
            let v1 = with_top(v, moved(FrameView { args: after_call_args(f.args, n as nat), ..f }, f.ip + 1));
            call_spec(v1, f.regs[b as int], call_args(f.args, n as nat), a)
        },
    }
}

/// One step of the machine above call depth `base`: the next state and how
/// the run stands, or `None` when the host decides the outcome (a native
/// call, a host object, floating-point arithmetic).
#[verifier::opaque]
pub open spec fn step_spec(v: MachineView, base: nat) -> Option<(MachineView, Result<Status, Fault>)> {
    if v.frames.len() <= base {
        failing(v, Fault::Runtime("no frame to run"@))
    } else {
        let f = top(v);
        if f.ip >= f.code.len() {
            finish_spec(v, Value::Null, base)
        } else if !registers_below(f.code[f.ip as int], f.regs.len()) {
            failing(v, Fault::Runtime("register out of range"@))
        } else {
            instruction_step(v, f.code[f.ip as int], base)
        }
    }
}

/// The end of a run from `v` of at most `fuel` steps, until the invocation
/// above depth `base` returns or fails: the state reached and the outcome.
/// `None` when the steps run out or reach a step that `step_spec` leaves to
/// the host.
#[verifier::opaque]
pub open spec fn run_spec(v: MachineView, base: nat, fuel: nat) -> Option<(MachineView, Result<Value, Fault>)>
    decreases fuel,
{
    if fuel == 0 {
        None
    } else {
        match step_spec(v, base) {
            None => None,
            Some((v2, Ok(Status::Running))) => run_spec(v2, base, (fuel - 1) as nat),
            Some((v2, Ok(Status::Returned(x)))) => Some((v2, Ok(x))),
            Some((v2, Err(e))) => Some((v2, Err(e))),
        }
    }
}

/// Whether, after `t` steps from `v0`, the state `cur` still leads to every
/// end that a run from `v0` reaches within `u64::MAX` steps.
#[verifier::opaque]
pub open spec fn tracks(v0: MachineView, cur: MachineView, base: nat, t: nat) -> bool {
    forall|k: nat|
        k <= u64::MAX && #[trigger] run_spec(v0, base, k) is Some ==> k > t && run_spec(cur, base, (k - t) as nat)
            == run_spec(v0, base, k)
}

pub proof fn lemma_tracks_start(v0: MachineView, base: nat)
    ensures
        tracks(v0, v0, base, 0),
{
    reveal(tracks);
    reveal_with_fuel(run_spec, 2);
}

/// One step taken from a tracked state: the run goes on from the next
/// state, or ends where the step ends.
pub proof fn lemma_tracks_after(
    v0: MachineView,
    cur: MachineView,
    base: nat,
    t: nat,
    after: MachineView,
    r: Result<Status, VmError>,
)
    requires
        tracks(v0, cur, base, t),
        step_spec(cur, base) matches Some((v2, s)) ==> after == v2 && outcome(r) == s,
    ensures
        r == Ok::<Status, VmError>(Status::Running) ==> tracks(v0, after, base, t + 1),
        r matches Ok(Status::Returned(x)) ==> forall|k: nat|
            k <= u64::MAX && #[trigger] run_spec(v0, base, k) is Some ==> run_spec(v0, base, k) == Some(
                (after, Ok::<Value, Fault>(x)),
            ),
        r matches Err(e) ==> forall|k: nat|
            k <= u64::MAX && #[trigger] run_spec(v0, base, k) is Some ==> run_spec(v0, base, k) == Some(
                (after, Err::<Value, Fault>(fault(e))),
            ),
{
    reveal(tracks);
    reveal_with_fuel(run_spec, 2);
    assert forall|k: nat| k <= u64::MAX && #[trigger] run_spec(v0, base, k) is Some implies run_spec(
        cur,
        base,
        (k - t) as nat,
    ) == match step_spec(cur, base) {
        None => None,
        Some((v2, Ok(Status::Running))) => run_spec(v2, base, (k - t - 1) as nat),
        Some((v2, Ok(Status::Returned(x)))) => Some((v2, Ok(x))),
        Some((v2, Err(e))) => Some((v2, Err(e))),
    } by {
        assert(k > t);
    }
    if step_spec(cur, base) is None {
        assert forall|k: nat| k <= u64::MAX implies #[trigger] run_spec(v0, base, k) is None by {
        }
    } else if r == Ok::<Status, VmError>(Status::Running) {
        assert forall|k: nat| k <= u64::MAX && #[trigger] run_spec(v0, base, k) is Some implies k > t + 1
            && run_spec(after, base, (k - (t + 1)) as nat) == run_spec(v0, base, k) by {
            assert(k > t);
            assert((k - t - 1) as nat == (k - (t + 1)) as nat);
            if k == t + 1 {
                assert(run_spec(after, base, 0) is None);
            }
        }
    }
}

pub proof fn lemma_tracks_limit(v0: MachineView, cur: MachineView, base: nat)
    requires
        tracks(v0, cur, base, u64::MAX as nat),
    ensures
        forall|k: nat| k <= u64::MAX ==> #[trigger] run_spec(v0, base, k) is None,
{
    reveal(tracks);
    reveal_with_fuel(run_spec, 2);
}

/// Whether `v2` has at least `base` frames and keeps the first `base`
/// frames of `v`.
pub open spec fn keeps_below(v: MachineView, v2: MachineView, base: nat) -> bool {
    &&& v2.frames.len() >= base
    &&& forall|i: int| 0 <= i < base ==> #[trigger] v2.frames[i] == v.frames[i]
}

/// A step never touches the frames below the invocation being run.
#[verifier::rlimit(100)]
pub proof fn lemma_step_keeps(v: MachineView, base: nat)
    requires
        v.frames.len() >= base,
    ensures
        step_spec(v, base) matches Some((v2, _)) ==> keeps_below(v, v2, base),
{
    reveal(step_spec);
}

/// A run never touches the frames below the invocation being run.
pub proof fn law_run_keeps_frames(v: MachineView, base: nat, fuel: nat)
    requires
        v.frames.len() >= base,
    ensures
        run_spec(v, base, fuel) matches Some((v2, _)) ==> keeps_below(v, v2, base),
    decreases fuel,
{
    reveal_with_fuel(run_spec, 2);
    if fuel > 0 {
        lemma_step_keeps(v, base);
        if step_spec(v, base) is Some && step_spec(v, base).unwrap().1 == Ok::<Status, Fault>(Status::Running) {
            let v2 = step_spec(v, base).unwrap().0;
            law_run_keeps_frames(v2, base, (fuel - 1) as nat);
        }
    }
}

} // verus!
