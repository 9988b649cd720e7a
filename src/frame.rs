use vstd::hash_map::HashMapWithView;
use vstd::prelude::*;

use crate::instruction::Instruction;
use crate::value::Value;

verus! {

broadcast use vstd::std_specs::hash::group_hash_axioms;

/// Size of the register file of every frame.
pub const REGISTER_COUNT: usize = 256;

/// Whether instruction `i` of `code` is `Label(l)`.
pub open spec fn is_label(code: Seq<Instruction>, i: int, l: usize) -> bool {
    0 <= i < code.len() && (code[i] matches Instruction::Label(x) && x == l)
}

/// Whether `i` is the index of the first `Label(l)` in `code`.
pub open spec fn first_label(code: Seq<Instruction>, l: usize, i: int) -> bool {
    is_label(code, i, l) && forall|j: int| 0 <= j < i ==> !is_label(code, j, l)
}

/// Whether `labels` maps exactly the label ids of `code`, each to the index
/// of its first occurrence.
pub open spec fn labels_resolved(code: Seq<Instruction>, labels: Map<usize, usize>) -> bool {
    &&& forall|l: usize| #[trigger]
        labels.contains_key(l) <==> exists|i: int| is_label(code, i, l)
    &&& forall|l: usize| #[trigger] labels.contains_key(l) ==> first_label(code, l, labels[l] as int)
}

/// Scans `code` once and records, for every label id, the index of its first
/// `Label` instruction.
pub fn scan_labels(code: &Vec<Instruction>) -> (r: HashMapWithView<usize, usize>)
    ensures
        labels_resolved(code@, r@),
{
    let mut labels: HashMapWithView<usize, usize> = HashMapWithView::new();
    let mut i: usize = 0;
    while i < code.len()
        invariant
            i <= code@.len(),
            labels_resolved(code@.take(i as int), labels@),
        decreases code@.len() - i,
    {
        let ghost prefix = code@.take(i as int);
        let ghost next = code@.take(i + 1);
        assert(forall|j: int| 0 <= j < i ==> next[j] == prefix[j]);
        if let Instruction::Label(l) = &code[i] {
            let l = *l;
            if !labels.contains_key(&l) {
                labels.insert(l, i);
                proof {
                    assert(is_label(next, i as int, l));
                    assert forall|j: int| 0 <= j < i implies !is_label(next, j, l) by {
                        if is_label(next, j, l) {
                            assert(is_label(prefix, j, l));
                        }
                    }
                }
            } else {
                proof {
                    let w = choose|w: int| is_label(prefix, w, l);
                    assert(is_label(next, w, l));
                }
            }
        }
        proof {
            let m = labels@;
            assert forall|l: usize| #[trigger] m.contains_key(l) <==> exists|j: int| is_label(next, j, l) by {
                if exists|j: int| is_label(next, j, l) {
                    let j = choose|j: int| is_label(next, j, l);
                    if j < i {
                        assert(is_label(prefix, j, l));
                    }
                }
                if exists|j: int| is_label(prefix, j, l) {
                    let j = choose|j: int| is_label(prefix, j, l);
                    assert(is_label(next, j, l));
                }
            }
            assert forall|l: usize| #[trigger] m.contains_key(l) implies first_label(next, l, m[l] as int) by {
                if m[l] < i {
                    assert(first_label(prefix, l, m[l] as int));
                    assert forall|j: int| 0 <= j < m[l] implies !is_label(next, j, l) by {
                        assert(!is_label(prefix, j, l));
                    }
                }
            }
        }
        i = i + 1;
    }
    assert(code@.take(i as int) =~= code@);
    labels
}

/// The state of one invocation: instruction pointer, code, register file,
/// argument stack and label table, plus where its result goes.
pub struct CallFrame {
    pub ip: usize,
    pub code: Vec<Instruction>,
    /// The register file; register 0 holds the receiver.
    pub stack: Vec<Value>,
    /// Values pushed by `LoadArg` for the next call.
    pub arg_stack: Vec<Value>,
    /// Label id to index of its `Label` instruction in `code`.
    pub labels: HashMapWithView<usize, usize>,
    /// Register of the calling frame that receives the result.
    pub dest: usize,
    /// The class whose initializer this invocation runs, if any.
    pub init_of: Option<usize>,
}

/// The register file of a frame entered with `args`: the arguments in the
/// first registers, null in the others.
pub open spec fn seeded_registers(args: Seq<Value>) -> Seq<Value> {
    Seq::new(REGISTER_COUNT as nat, |k: int| if k < args.len() { args[k] } else { Value::Null })
}

impl CallFrame {
    /// A frame with no code, no arguments and every register null.
    pub fn new() -> (r: CallFrame)
        ensures
            r.ip == 0,
            r.code@.len() == 0,
            r.stack@ == seeded_registers(seq![]),
            r.arg_stack@.len() == 0,
            r.labels@ == Map::<usize, usize>::empty(),
    {
        let args: Vec<Value> = Vec::new();
        CallFrame::enter(Vec::new(), &args, 0, None)
    }

    /// The frame of a call: `args` (receiver first) seeds both the argument
    /// stack and the first registers, the labels of `code` are resolved and
    /// the instruction pointer is at the start.
    pub fn enter(code: Vec<Instruction>, args: &Vec<Value>, dest: usize, init_of: Option<usize>) -> (r: CallFrame)
        ensures
            r.ip == 0,
            r.code@ == code@,
            r.stack@ == seeded_registers(args@),
            r.arg_stack@ == args@,
            labels_resolved(code@, r.labels@),
            r.dest == dest,
            r.init_of == init_of,
    {
        let mut stack: Vec<Value> = Vec::new();
        let mut k: usize = 0;
        while k < REGISTER_COUNT
            invariant
                k <= REGISTER_COUNT,
                stack@ == seeded_registers(args@).take(k as int),
            decreases REGISTER_COUNT - k,
        {
            if k < args.len() {
                stack.push(args[k]);
            } else {
                stack.push(Value::Null);
            }
            k = k + 1;
            assert(stack@ =~= seeded_registers(args@).take(k as int));
        }
        assert(stack@ =~= seeded_registers(args@));
        let mut arg_stack: Vec<Value> = Vec::new();
        let mut k: usize = 0;
        while k < args.len()
            invariant
                k <= args@.len(),
                arg_stack@ == args@.take(k as int),
            decreases args@.len() - k,
        {
            arg_stack.push(args[k]);
            k = k + 1;
            assert(arg_stack@ =~= args@.take(k as int));
        }
        assert(arg_stack@ =~= args@);
        let labels = scan_labels(&code);
        CallFrame { ip: 0, code, stack, arg_stack, labels, dest, init_of }
    }

    /// Register `r`.
    pub fn get(&self, r: usize) -> (v: Value)
        requires
            r < self.stack@.len(),
        ensures
            v == self.stack@[r as int],
    {
        self.stack[r]
    }

    /// Sets register `r` to `v`.
    pub fn set(&mut self, r: usize, v: Value)
        requires
            r < old(self).stack@.len(),
        ensures
            final(self).stack@ == old(self).stack@.update(r as int, v),
            final(self).ip == old(self).ip,
            final(self).code == old(self).code,
            final(self).arg_stack == old(self).arg_stack,
            final(self).labels == old(self).labels,
            final(self).dest == old(self).dest,
            final(self).init_of == old(self).init_of,
    {
        self.stack.set(r, v);
    }

    /// Pushes the values of `args` onto the argument stack, in order.
    pub fn init_with_args(&mut self, args: &Vec<Value>)
        ensures
            final(self).arg_stack@ == old(self).arg_stack@ + args@,
            final(self).stack == old(self).stack,
            final(self).ip == old(self).ip,
            final(self).code == old(self).code,
    {
        let mut k: usize = 0;
        while k < args.len()
            invariant
                k <= args@.len(),
                self.arg_stack@ == old(self).arg_stack@ + args@.take(k as int),
                self.stack == old(self).stack,
                self.ip == old(self).ip,
                self.code == old(self).code,
            decreases args@.len() - k,
        {
            self.arg_stack.push(args[k]);
            k = k + 1;
            assert(self.arg_stack@ =~= old(self).arg_stack@ + args@.take(k as int));
        }
        assert(args@.take(k as int) =~= args@);
    }
}

/// The arguments of a call with `n` declared arguments, taken from the top of
/// `stack`: the receiver first, then the arguments, null where the stack ran
/// out.
pub open spec fn call_args(stack: Seq<Value>, n: nat) -> Seq<Value> {
    Seq::new(n + 1, |k: int| if k < stack.len() { stack[stack.len() - 1 - k] } else { Value::Null })
}

/// What is left of `stack` after a call with `n` declared arguments.
pub open spec fn after_call_args(stack: Seq<Value>, n: nat) -> Seq<Value> {
    if stack.len() > n + 1 { stack.take(stack.len() - (n + 1)) } else { seq![] }
}

/// Pops the receiver and `n` arguments off `stack`; missing ones are null.
pub fn pop_call_args(stack: &mut Vec<Value>, n: usize) -> (r: Vec<Value>)
    requires
        n < usize::MAX,
    ensures
        r@ == call_args(old(stack)@, n as nat),
        r@.len() == n + 1,
        final(stack)@ == after_call_args(old(stack)@, n as nat),
{
    let mut r: Vec<Value> = Vec::new();
    let mut k: usize = 0;
    while k <= n
        invariant
            n < usize::MAX,
            k <= n + 1,
            r@ == call_args(old(stack)@, n as nat).take(k as int),
            stack@ == (if old(stack)@.len() > k { old(stack)@.take(old(stack)@.len() - k) } else { seq![] }),
        decreases n + 1 - k,
    {
        match stack.pop() {
            Some(v) => r.push(v),
            None => r.push(Value::Null),
        }
        k = k + 1;
        assert(r@ =~= call_args(old(stack)@, n as nat).take(k as int));
        assert(stack@ =~= (if old(stack)@.len() > k { old(stack)@.take(old(stack)@.len() - k) } else { seq![] }));
    }
    assert(r@ =~= call_args(old(stack)@, n as nat));
    r
}

} // verus!
