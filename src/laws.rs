use vstd::prelude::*;

use crate::frame::{call_args, first_label, labels_resolved, seeded_registers};
use crate::instruction::{
    index_text, instruction_text, trailer, listing, listing_from, mnemonic, operand_text, operands, operands_text,
    Instruction, Operand,
};
use crate::text::{decimal, digit_char, hexadecimal, signed_decimal};
use crate::object::Object;
use crate::run::{alloc_handle, reuses};
use crate::pool::{array_changed, class_changed, placed};
use crate::value::{arith_spec, ArithOp, Evaluation, Value};

verus! {

/// An object placed by `allocate` at handle `h` stays there while other
/// slots are filled or emptied: here, after a later allocation that placed
/// `o2` at `h2` and the freeing of a handle `d` other than `h`.
pub proof fn law_allocation_persists(
    s0: Seq<Option<Object>>,
    s1: Seq<Option<Object>>,
    s2: Seq<Option<Object>>,
    s3: Seq<Option<Object>>,
    o: Object,
    h: int,
    o2: Object,
    h2: int,
    d: int,
)
    requires
        placed(s0, s1, o, h),
        placed(s1, s2, o2, h2),
        0 <= d < s2.len(),
        d != h,
        s3 == s2.update(d, None),
    ensures
        s1[h] == Some(o),
        s2[h] == Some(o),
        s3[h] == Some(o),
{
    assert(h != h2);
}

/// An operation on the pool's slots and freed handles.
pub enum PoolOp {
    Allocate(Object),
    Deallocate(usize),
}

/// The slots and freed handles after one operation, as `ObjectPool::allocate`
/// and `ObjectPool::deallocate` state them.
pub open spec fn apply_op(slots: Seq<Option<Object>>, free: Seq<usize>, op: PoolOp) -> (Seq<Option<Object>>, Seq<usize>) {
    match op {
        PoolOp::Allocate(o) => (
            if reuses(slots, free) {
                slots.update(alloc_handle(slots, free) as int, Some(o))
            } else {
                slots.push(Some(o))
            },
            if free.len() > 0 {
                free.drop_last()
            } else {
                free
            },
        ),
        PoolOp::Deallocate(d) => if d < slots.len() {
            (slots.update(d as int, None), free.push(d))
        } else {
            (slots, free)
        },
    }
}

/// The slots and freed handles after a sequence of operations.
pub open spec fn apply_ops(slots: Seq<Option<Object>>, free: Seq<usize>, ops: Seq<PoolOp>) -> (Seq<Option<Object>>, Seq<usize>)
    decreases ops.len(),
{
    if ops.len() == 0 {
        (slots, free)
    } else {
        let (s2, f2) = apply_op(slots, free, ops[0]);
        apply_ops(s2, f2, ops.drop_first())
    }
}

/// An object in slot `h` stays there through any sequence of allocations
/// and deallocations that does not free `h`.
pub proof fn law_get_until_deallocate(slots: Seq<Option<Object>>, free: Seq<usize>, ops: Seq<PoolOp>, h: int, o: Object)
    requires
        0 <= h < slots.len(),
        slots[h] == Some(o),
        forall|k: int| 0 <= k < ops.len() ==> #[trigger] ops[k] != PoolOp::Deallocate(h as usize),
    ensures
        0 <= h < apply_ops(slots, free, ops).0.len(),
        apply_ops(slots, free, ops).0[h] == Some(o),
    decreases ops.len(),
{
    if ops.len() > 0 {
        let (s2, f2) = apply_op(slots, free, ops[0]);
        assert(ops[0] != PoolOp::Deallocate(h as usize));
        assert(s2[h] == Some(o));
        assert forall|k: int| 0 <= k < ops.drop_first().len() implies #[trigger] ops.drop_first()[k]
            != PoolOp::Deallocate(h as usize) by {
            assert(ops.drop_first()[k] == ops[k + 1]);
        }
        law_get_until_deallocate(s2, f2, ops.drop_first(), h, o);
    }
}

/// After the label scan, every label id of the code maps to the index of its
/// first `Label` instruction, and ids the code does not define are absent.
pub proof fn law_labels_first_occurrence(code: Seq<Instruction>, labels: Map<usize, usize>, l: usize, i: int)
    requires
        labels_resolved(code, labels),
        first_label(code, l, i),
    ensures
        labels.contains_key(l),
        labels[l] == i,
{
    assert(labels.contains_key(l));
    let k = labels[l] as int;
    assert(first_label(code, l, k));
    if k < i {
        assert(!crate::frame::is_label(code, k, l));
    } else if i < k {
        assert(!crate::frame::is_label(code, i, l));
    }
}

/// A call with `n` declared arguments hands the callee `n + 1` values, the
/// receiver first, and the callee's register 0 holds that receiver before
/// any instruction runs.
pub proof fn law_callee_frame(arg_stack: Seq<Value>, n: nat)
    ensures
        call_args(arg_stack, n).len() == n + 1,
        arg_stack.len() > 0 ==> call_args(arg_stack, n)[0] == arg_stack.last(),
        seeded_registers(call_args(arg_stack, n))[0] == call_args(arg_stack, n)[0],
{
}

/// Positions that the caller did not push are null.
pub proof fn law_missing_arguments_are_null(arg_stack: Seq<Value>, n: nat, k: int)
    requires
        arg_stack.len() <= k <= n,
    ensures
        call_args(arg_stack, n)[k] == Value::Null,
{
}

/// Storing `v` under `key` in a class and then loading `key` gives `v`;
/// every other field keeps its value.
pub proof fn law_class_store_then_load(s0: Seq<Option<Object>>, s1: Seq<Option<Object>>, h: int, key: Seq<char>, v: Value, other: Seq<char>)
    requires
        class_changed(s0, s1, h, key, v),
        other != key,
    ensures
        s1[h] matches Some(Object::Class(c)) && c.field(key) == Some(v),
        s1[h]->Some_0->Class_0.field(other) == s0[h]->Some_0->Class_0.field(other),
{
}

/// Storing `v` at index `i` of an array and then loading index `i` gives
/// `v`; every other element keeps its value.
pub proof fn law_array_store_then_load(s0: Seq<Option<Object>>, s1: Seq<Option<Object>>, h: int, i: int, v: Value, j: int)
    requires
        array_changed(s0, s1, h, i, v),
        0 <= j < s0[h]->Some_0->Array_0.elements@.len(),
        j != i,
    ensures
        s1[h] matches Some(Object::Array(a)) && a.elements@[i] == v,
        s1[h]->Some_0->Array_0.elements@[j] == s0[h]->Some_0->Array_0.elements@[j],
{
}

/// The listing of a code sequence depends on the code alone.
pub proof fn law_listing_deterministic(c1: Seq<Instruction>, c2: Seq<Instruction>)
    requires
        c1 == c2,
    ensures
        listing(c1) == listing(c2),
{
}

/// Addition, subtraction, multiplication and division with a null operand
/// give the other operand.
pub proof fn law_null_operand(op: ArithOp, x: Value, coerced: Option<i64>)
    requires
        op is Add || op is Sub || op is Mul || op is Div,
    ensures
        arith_spec(op, x, Value::Null, coerced) == Evaluation::Done(x),
        arith_spec(op, Value::Null, x, coerced) == Evaluation::Done(x),
{
}

/// Integer division by zero is not supported: the machine fails it with an
/// arithmetic error.
pub proof fn law_integer_division_by_zero(x: Value, coerced: Option<i64>)
    requires
        x is Int || x is Long,
    ensures
        arith_spec(ArithOp::Div, x, Value::Int(0), coerced) == Evaluation::Unsupported,
        arith_spec(ArithOp::Div, x, Value::Long(0), coerced) == Evaluation::Unsupported,
{
}

/// Whether `c` does not occur in `s`.
pub open spec fn lacks(s: Seq<char>, c: char) -> bool {
    forall|i: int| 0 <= i < s.len() ==> s[i] != c
}

/// Whether no string operand of `code` holds a line break.
pub open spec fn single_line_strings(code: Seq<Instruction>) -> bool {
    forall|k: int| 0 <= k < code.len() ==> (#[trigger] code[k] matches Instruction::LoadString(_, s) ==> lacks(s@, '\n'))
}

/// Whether two operands are the same, strings compared by their text.
pub open spec fn same_operand(o1: Operand, o2: Operand) -> bool {
    match (o1, o2) {
        (Operand::Quoted(s1), Operand::Quoted(s2)) => s1@ == s2@,
        _ => o1 == o2,
    }
}

/// Whether two instructions are the same, strings compared by their text.
pub open spec fn same_instruction(i1: Instruction, i2: Instruction) -> bool {
    match (i1, i2) {
        (Instruction::LoadString(a1, s1), Instruction::LoadString(a2, s2)) => a1 == a2 && s1@ == s2@,
        _ => i1 == i2,
    }
}

/// The listing of a code sequence determines the sequence, as long as its
/// string operands hold no line break.
pub proof fn law_listing_unique(c1: Seq<Instruction>, c2: Seq<Instruction>)
    requires
        single_line_strings(c1),
        single_line_strings(c2),
        listing(c1) == listing(c2),
    ensures
        c1.len() == c2.len(),
        forall|k: int| 0 <= k < c1.len() ==> same_instruction(#[trigger] c1[k], c2[k]),
{
    lemma_listing_from(c1, c2, 0);
}

proof fn lemma_listing_from(c1: Seq<Instruction>, c2: Seq<Instruction>, k: nat)
    requires
        single_line_strings(c1),
        single_line_strings(c2),
        k <= c1.len(),
        k <= c2.len(),
        listing_from(c1, k) == listing_from(c2, k),
    ensures
        c1.len() == c2.len(),
        forall|j: int| k <= j < c1.len() ==> same_instruction(#[trigger] c1[j], c2[j]),
    decreases c1.len() - k,
{
    reveal_strlit(" ");
    reveal_strlit("\n");
    if k == c1.len() || k == c2.len() {
        if k < c1.len() {
            lemma_index_text(k);
            assert(listing_from(c1, k).len() > 0);
        }
        if k < c2.len() {
            lemma_index_text(k);
            assert(listing_from(c2, k).len() > 0);
        }
    } else {
        let i1 = c1[k as int];
        let i2 = c2[k as int];
        let x1 = index_text(k) + " "@ + instruction_text(i1);
        let x2 = index_text(k) + " "@ + instruction_text(i2);
        lemma_index_text(k);
        lemma_text_single_line(i1);
        lemma_text_single_line(i2);
        assert(lacks(x1, '\n'));
        assert(lacks(x2, '\n'));
        assert(listing_from(c1, k) == x1 + seq!['\n'] + listing_from(c1, k + 1));
        assert(listing_from(c2, k) == x2 + seq!['\n'] + listing_from(c2, k + 1));
        lemma_split(x1, listing_from(c1, k + 1), x2, listing_from(c2, k + 1), '\n');
        let p = index_text(k) + " "@;
        assert(instruction_text(i1) =~= x1.subrange(p.len() as int, x1.len() as int));
        assert(instruction_text(i2) =~= x2.subrange(p.len() as int, x2.len() as int));
        law_instruction_text_unique(i1, i2);
        lemma_listing_from(c1, c2, k + 1);
    }
}

proof fn lemma_split(x1: Seq<char>, y1: Seq<char>, x2: Seq<char>, y2: Seq<char>, c: char)
    requires
        lacks(x1, c),
        lacks(x2, c),
        x1 + seq![c] + y1 == x2 + seq![c] + y2,
    ensures
        x1 == x2,
        y1 == y2,
{
    let t = x1 + seq![c] + y1;
    if x1.len() < x2.len() {
        assert(t[x1.len() as int] == c);
        assert(t[x1.len() as int] == x2[x1.len() as int]);
    } else if x2.len() < x1.len() {
        assert(t[x2.len() as int] == c);
        assert(t[x2.len() as int] == x1[x2.len() as int]);
    }
    assert(x1 =~= t.subrange(0, x1.len() as int));
    assert(x2 =~= t.subrange(0, x2.len() as int));
    assert(y1 =~= t.subrange(x1.len() as int + 1, t.len() as int));
    assert(y2 =~= t.subrange(x2.len() as int + 1, t.len() as int));
}

/// Splits `x1 + y1 == x2 + y2` where neither `x` holds a space and each `y`
/// is empty or starts with one.
proof fn lemma_split_word(x1: Seq<char>, y1: Seq<char>, x2: Seq<char>, y2: Seq<char>)
    requires
        lacks(x1, ' '),
        lacks(x2, ' '),
        y1.len() == 0 || y1[0] == ' ',
        y2.len() == 0 || y2[0] == ' ',
        x1 + y1 == x2 + y2,
    ensures
        x1 == x2,
        y1 == y2,
{
    let t = x1 + y1;
    if x1.len() < x2.len() {
        assert(t[x1.len() as int] == x2[x1.len() as int]);
        assert(y1.len() > 0);
        assert(t[x1.len() as int] == y1[0]);
    } else if x2.len() < x1.len() {
        assert(t[x2.len() as int] == x1[x2.len() as int]);
        assert(y2.len() > 0);
        assert(t[x2.len() as int] == y2[0]);
    }
    assert(x1 =~= t.subrange(0, x1.len() as int));
    assert(x2 =~= t.subrange(0, x2.len() as int));
    assert(y1 =~= t.subrange(x1.len() as int, t.len() as int));
    assert(y2 =~= t.subrange(x2.len() as int, t.len() as int));
}

proof fn lemma_decimal(n: nat)
    ensures
        decimal(n).len() > 0,
        forall|i: int| 0 <= i < decimal(n).len() ==> '0' <= #[trigger] decimal(n)[i] <= '9',
    decreases n,
{
    if n >= 10 {
        lemma_decimal(n / 10);
        assert forall|i: int| 0 <= i < decimal(n).len() implies '0' <= #[trigger] decimal(n)[i] <= '9' by {
            if i < decimal(n / 10).len() {
                assert(decimal(n)[i] == decimal(n / 10)[i]);
            }
        }
    }
}

proof fn lemma_decimal_unique(n: nat, m: nat)
    requires
        decimal(n) == decimal(m),
    ensures
        n == m,
    decreases n,
{
    if n >= 10 && m >= 10 {
        lemma_decimal(n / 10);
        lemma_decimal(m / 10);
        assert(decimal(n / 10) =~= decimal(n).drop_last());
        assert(decimal(m / 10) =~= decimal(m).drop_last());
        lemma_decimal_unique(n / 10, m / 10);
        assert(decimal(n).last() == digit_char(n % 10));
        assert(decimal(m).last() == digit_char(m % 10));
        lemma_digit_char_unique(n % 10, m % 10);
        assert(n == (n / 10) * 10 + n % 10) by (nonlinear_arith);
        assert(m == (m / 10) * 10 + m % 10) by (nonlinear_arith);
    } else if n >= 10 {
        lemma_decimal(n / 10);
        assert(decimal(n).len() >= 2);
    } else if m >= 10 {
        lemma_decimal(m / 10);
        assert(decimal(m).len() >= 2);
    } else {
        assert(decimal(n)[0] == digit_char(n));
        assert(decimal(m)[0] == digit_char(m));
        lemma_digit_char_unique(n, m);
    }
}

proof fn lemma_hexadecimal(n: nat)
    ensures
        hexadecimal(n).len() > 0,
        forall|i: int| 0 <= i < hexadecimal(n).len() ==> #[trigger] hexadecimal(n)[i] != ' ' && hexadecimal(n)[i] != '\n',
    decreases n,
{
    if n >= 16 {
        lemma_hexadecimal(n / 16);
        assert forall|i: int| 0 <= i < hexadecimal(n).len() implies #[trigger] hexadecimal(n)[i] != ' '
            && hexadecimal(n)[i] != '\n' by {
            if i < hexadecimal(n / 16).len() {
                assert(hexadecimal(n)[i] == hexadecimal(n / 16)[i]);
            }
        }
    }
}

proof fn lemma_hexadecimal_unique(n: nat, m: nat)
    requires
        hexadecimal(n) == hexadecimal(m),
    ensures
        n == m,
    decreases n,
{
    if n >= 16 && m >= 16 {
        lemma_hexadecimal(n / 16);
        lemma_hexadecimal(m / 16);
        assert(hexadecimal(n / 16) =~= hexadecimal(n).drop_last());
        assert(hexadecimal(m / 16) =~= hexadecimal(m).drop_last());
        lemma_hexadecimal_unique(n / 16, m / 16);
        assert(hexadecimal(n).last() == digit_char(n % 16));
        assert(hexadecimal(m).last() == digit_char(m % 16));
        lemma_digit_char_unique(n % 16, m % 16);
        assert(n == (n / 16) * 16 + n % 16) by (nonlinear_arith);
        assert(m == (m / 16) * 16 + m % 16) by (nonlinear_arith);
    } else if n >= 16 {
        lemma_hexadecimal(n / 16);
        assert(hexadecimal(n).len() >= 2);
    } else if m >= 16 {
        lemma_hexadecimal(m / 16);
        assert(hexadecimal(m).len() >= 2);
    } else {
        assert(hexadecimal(n)[0] == digit_char(n));
        assert(hexadecimal(m)[0] == digit_char(m));
        lemma_digit_char_unique(n, m);
    }
}

proof fn lemma_digit_char_unique(d: nat, e: nat)
    requires
        d < 16,
        e < 16,
        digit_char(d) == digit_char(e),
    ensures
        d == e,
{
}

proof fn lemma_index_text(k: nat)
    ensures
        index_text(k).len() > 0,
        lacks(index_text(k), '\n'),
        lacks(index_text(k), ' '),
{
    lemma_decimal(k);
    let pad = if decimal(k).len() < 4 { (4 - decimal(k).len()) as nat } else { 0 };
    let z = Seq::new(pad, |j: int| '0');
    assert forall|i: int| 0 <= i < index_text(k).len() implies index_text(k)[i] != '\n' && index_text(k)[i] != ' ' by {
        if i >= z.len() {
            assert(index_text(k)[i] == decimal(k)[i - z.len()]);
        }
    }
}

/// A number for each kind of instruction.
spec fn opcode(i: Instruction) -> int {
    match i {
        Instruction::LoadString(..) => 0,
        Instruction::LoadBool(..) => 1,
        Instruction::LoadInt(..) => 2,
        Instruction::LoadLong(..) => 3,
        Instruction::LoadFloat(..) => 4,
        Instruction::LoadDouble(..) => 5,
        Instruction::LoadConst(..) => 6,
        Instruction::LoadGlobal(..) => 7,
        Instruction::StoreGlobal(..) => 8,
        Instruction::LoadAt(..) => 9,
        Instruction::StoreAt(..) => 10,
        Instruction::Move(..) => 11,
        Instruction::LoadArg(..) => 12,
        Instruction::Call(..) => 13,
        Instruction::Add(..) => 14,
        Instruction::Sub(..) => 15,
        Instruction::Mul(..) => 16,
        Instruction::Div(..) => 17,
        Instruction::Rem(..) => 18,
        Instruction::Gt(..) => 19,
        Instruction::Ge(..) => 20,
        Instruction::Lt(..) => 21,
        Instruction::Le(..) => 22,
        Instruction::Eq(..) => 23,
        Instruction::Neq(..) => 24,
        Instruction::And(..) => 25,
        Instruction::Or(..) => 26,
        Instruction::BitAnd(..) => 27,
        Instruction::BitOr(..) => 28,
        Instruction::BitXor(..) => 29,
        Instruction::Shl(..) => 30,
        Instruction::Shr(..) => 31,
        Instruction::Not(..) => 32,
        Instruction::Jump(..) => 33,
        Instruction::JumpT(..) => 34,
        Instruction::JumpF(..) => 35,
        Instruction::Goto(..) => 36,
        Instruction::GotoT(..) => 37,
        Instruction::GotoF(..) => 38,
        Instruction::Label(..) => 39,
        Instruction::Ret(..) => 40,
        Instruction::Ret0 => 41,
        Instruction::Isa(..) => 42,
    }
}

proof fn lemma_mnemonic(i: Instruction)
    ensures
        mnemonic(i).len() > 0,
        lacks(mnemonic(i), ' '),
        lacks(mnemonic(i), '\n'),
{
    reveal_strlit("LoadString");
    reveal_strlit("LoadBool");
    reveal_strlit("LoadInt");
    reveal_strlit("LoadLong");
    reveal_strlit("LoadFloat");
    reveal_strlit("LoadDouble");
    reveal_strlit("LoadConst");
    reveal_strlit("LoadGlobal");
    reveal_strlit("StoreGlobal");
    reveal_strlit("LoadAt");
    reveal_strlit("StoreAt");
    reveal_strlit("Move");
    reveal_strlit("LoadArg");
    reveal_strlit("Call");
    reveal_strlit("Add");
    reveal_strlit("Sub");
    reveal_strlit("Mul");
    reveal_strlit("Div");
    reveal_strlit("Rem");
    reveal_strlit("Gt");
    reveal_strlit("Ge");
    reveal_strlit("Lt");
    reveal_strlit("Le");
    reveal_strlit("Eq");
    reveal_strlit("Neq");
    reveal_strlit("And");
    reveal_strlit("Or");
    reveal_strlit("BitAnd");
    reveal_strlit("BitOr");
    reveal_strlit("BitXor");
    reveal_strlit("Shl");
    reveal_strlit("Shr");
    reveal_strlit("Not");
    reveal_strlit("Jump");
    reveal_strlit("JumpT");
    reveal_strlit("JumpF");
    reveal_strlit("Goto");
    reveal_strlit("GotoT");
    reveal_strlit("GotoF");
    reveal_strlit("Label");
    reveal_strlit("Ret");
    reveal_strlit("Ret0");
    reveal_strlit("Isa");
}

proof fn lemma_mnemonic_unique(i1: Instruction, i2: Instruction)
    requires
        mnemonic(i1) == mnemonic(i2),
    ensures
        opcode(i1) == opcode(i2),
{
    reveal_strlit("LoadString");
    reveal_strlit("LoadBool");
    reveal_strlit("LoadInt");
    reveal_strlit("LoadLong");
    reveal_strlit("LoadFloat");
    reveal_strlit("LoadDouble");
    reveal_strlit("LoadConst");
    reveal_strlit("LoadGlobal");
    reveal_strlit("StoreGlobal");
    reveal_strlit("LoadAt");
    reveal_strlit("StoreAt");
    reveal_strlit("Move");
    reveal_strlit("LoadArg");
    reveal_strlit("Call");
    reveal_strlit("Add");
    reveal_strlit("Sub");
    reveal_strlit("Mul");
    reveal_strlit("Div");
    reveal_strlit("Rem");
    reveal_strlit("Gt");
    reveal_strlit("Ge");
    reveal_strlit("Lt");
    reveal_strlit("Le");
    reveal_strlit("Eq");
    reveal_strlit("Neq");
    reveal_strlit("And");
    reveal_strlit("Or");
    reveal_strlit("BitAnd");
    reveal_strlit("BitOr");
    reveal_strlit("BitXor");
    reveal_strlit("Shl");
    reveal_strlit("Shr");
    reveal_strlit("Not");
    reveal_strlit("Jump");
    reveal_strlit("JumpT");
    reveal_strlit("JumpF");
    reveal_strlit("Goto");
    reveal_strlit("GotoT");
    reveal_strlit("GotoF");
    reveal_strlit("Label");
    reveal_strlit("Ret");
    reveal_strlit("Ret0");
    reveal_strlit("Isa");
    let m = mnemonic(i1);
    assert(m.len() == mnemonic(i2).len());
    assert(m[0] == mnemonic(i2)[0]);
    assert(m.len() > 1 ==> m[1] == mnemonic(i2)[1]);
    assert(m.len() > 2 ==> m[2] == mnemonic(i2)[2]);
    assert(m.len() > 4 ==> m[4] == mnemonic(i2)[4]);
}

/// Whether two operands are of the same kind.
spec fn same_kind(o1: Operand, o2: Operand) -> bool {
    match (o1, o2) {
        (Operand::Index(_), Operand::Index(_)) => true,
        (Operand::Signed(_), Operand::Signed(_)) => true,
        (Operand::Bits(_), Operand::Bits(_)) => true,
        (Operand::Flag(_), Operand::Flag(_)) => true,
        (Operand::Quoted(_), Operand::Quoted(_)) => true,
        _ => false,
    }
}

proof fn lemma_operand_text(o: Operand)
    ensures
        operand_text(o).len() > 0,
        !(o is Quoted) ==> lacks(operand_text(o), ' '),
        (o matches Operand::Quoted(s) ==> lacks(s@, '\n')) ==> lacks(operand_text(o), '\n'),
{
    reveal_strlit("0x");
    reveal_strlit("true");
    reveal_strlit("false");
    reveal_strlit("\"");
    reveal_strlit("-");
    match o {
        Operand::Index(n) => lemma_decimal(n as nat),
        Operand::Signed(n) => {
            if n < 0 {
                lemma_decimal((-n) as nat);
                let t = operand_text(o);
                assert forall|i: int| 0 <= i < t.len() implies t[i] != ' ' && t[i] != '\n' by {
                    if i > 0 {
                        assert(t[i] == decimal((-n) as nat)[i - 1]);
                    }
                }
            } else {
                lemma_decimal(n as nat);
            }
        },
        Operand::Bits(b) => {
            lemma_hexadecimal(b as nat);
            let t = operand_text(o);
            assert forall|i: int| 0 <= i < t.len() implies t[i] != ' ' && t[i] != '\n' by {
                if i >= 2 {
                    assert(t[i] == hexadecimal(b as nat)[i - 2]);
                }
            }
        },
        Operand::Flag(_) => {},
        Operand::Quoted(s) => {
            let t = operand_text(o);
            if lacks(s@, '\n') {
                assert forall|i: int| 0 <= i < t.len() implies t[i] != '\n' by {
                    if 1 <= i < t.len() - 1 {
                        assert(t[i] == s@[i - 1]);
                    }
                }
            }
        },
    }
}

proof fn lemma_operand_unique(o1: Operand, o2: Operand)
    requires
        same_kind(o1, o2),
        operand_text(o1) == operand_text(o2),
    ensures
        same_operand(o1, o2),
{
    reveal_strlit("0x");
    reveal_strlit("true");
    reveal_strlit("false");
    reveal_strlit("\"");
    reveal_strlit("-");
    match (o1, o2) {
        (Operand::Index(a), Operand::Index(b)) => lemma_decimal_unique(a as nat, b as nat),
        (Operand::Signed(a), Operand::Signed(b)) => {
            let t = operand_text(o1);
            if a < 0 && b < 0 {
                assert(decimal((-a) as nat) =~= t.drop_first());
                assert(decimal((-b) as nat) =~= t.drop_first());
                lemma_decimal_unique((-a) as nat, (-b) as nat);
            } else if a < 0 {
                lemma_decimal(b as nat);
                assert(t[0] == '-');
                assert(t[0] == decimal(b as nat)[0]);
            } else if b < 0 {
                lemma_decimal(a as nat);
                assert(t[0] == '-');
                assert(t[0] == decimal(a as nat)[0]);
            } else {
                lemma_decimal_unique(a as nat, b as nat);
            }
        },
        (Operand::Bits(a), Operand::Bits(b)) => {
            let t = operand_text(o1);
            assert(hexadecimal(a as nat) =~= t.subrange(2, t.len() as int));
            assert(hexadecimal(b as nat) =~= t.subrange(2, t.len() as int));
            lemma_hexadecimal_unique(a as nat, b as nat);
        },
        (Operand::Flag(a), Operand::Flag(b)) => {
            assert("true"@.len() == 4);
            assert("false"@.len() == 5);
        },
        (Operand::Quoted(a), Operand::Quoted(b)) => {
            let t = operand_text(o1);
            assert("\""@.len() == 1);
            assert(a@ =~= t.subrange(1, t.len() - 1));
            assert(b@ =~= t.subrange(1, t.len() - 1));
        },
        _ => {},
    }
}

proof fn lemma_operands_text_first(ops: Seq<Operand>)
    requires
        ops.len() > 0,
    ensures
        operands_text(ops) == " "@ + operand_text(ops[0]) + operands_text(ops.drop_first()),
    decreases ops.len(),
{
    if ops.len() == 1 {
        assert(ops.drop_last() =~= Seq::<Operand>::empty());
        assert(ops.drop_first() =~= Seq::<Operand>::empty());
        assert(operands_text(ops) =~= " "@ + operand_text(ops[0]) + operands_text(ops.drop_first()));
    } else {
        lemma_operands_text_first(ops.drop_last());
        assert(ops.drop_last().drop_first() =~= ops.drop_first().drop_last());
        assert(ops.drop_first().last() == ops.last());
        assert(ops.drop_last()[0] == ops[0]);
        assert(operands_text(ops) =~= " "@ + operand_text(ops[0]) + operands_text(ops.drop_first()));
    }
}

proof fn lemma_operands_text_lines(ops: Seq<Operand>)
    requires
        forall|j: int| 0 <= j < ops.len() ==> (#[trigger] ops[j] matches Operand::Quoted(s) ==> lacks(s@, '\n')),
    ensures
        lacks(operands_text(ops), '\n'),
        ops.len() > 0 ==> operands_text(ops)[0] == ' ',
    decreases ops.len(),
{
    reveal_strlit(" ");
    if ops.len() > 0 {
        let p = ops.drop_last();
        assert forall|j: int| 0 <= j < p.len() implies (#[trigger] p[j] matches Operand::Quoted(s) ==> lacks(s@, '\n')) by {
            assert(p[j] == ops[j]);
        }
        lemma_operands_text_lines(p);
        assert(ops[ops.len() - 1] == ops.last());
        lemma_operand_text(ops.last());
        let t = operands_text(ops);
        let a = operands_text(p);
        assert forall|i: int| 0 <= i < t.len() implies t[i] != '\n' by {
            if i < a.len() {
                assert(t[i] == a[i]);
            } else if i > a.len() {
                assert(t[i] == operand_text(ops.last())[i - a.len() - 1]);
            }
        }
        if a.len() > 0 {
            assert(t[0] == a[0]);
        }
    }
}

proof fn lemma_operands_unique(o1: Seq<Operand>, o2: Seq<Operand>)
    requires
        o1.len() == o2.len(),
        forall|j: int| 0 <= j < o1.len() ==> same_kind(#[trigger] o1[j], o2[j]),
        forall|j: int| 0 <= j < o1.len() - 1 ==> !(#[trigger] o1[j] is Quoted),
        operands_text(o1) == operands_text(o2),
    ensures
        forall|j: int| 0 <= j < o1.len() ==> same_operand(#[trigger] o1[j], o2[j]),
    decreases o1.len(),
{
    reveal_strlit(" ");
    if o1.len() > 0 {
        lemma_operands_text_first(o1);
        lemma_operands_text_first(o2);
        let t1 = operand_text(o1[0]);
        let t2 = operand_text(o2[0]);
        let r1 = operands_text(o1.drop_first());
        let r2 = operands_text(o2.drop_first());
        assert(t1 + r1 =~= operands_text(o1).drop_first());
        assert(t2 + r2 =~= operands_text(o2).drop_first());
        if o1.len() == 1 {
            assert(o1.drop_first() =~= Seq::<Operand>::empty());
            assert(o2.drop_first() =~= Seq::<Operand>::empty());
            assert(t1 =~= t1 + r1);
            assert(t2 =~= t2 + r2);
            lemma_operand_unique(o1[0], o2[0]);
        } else {
            assert(same_kind(o1[0], o2[0]));
            assert(!(o1[0] is Quoted));
            lemma_operand_text(o1[0]);
            lemma_operand_text(o2[0]);
            let d1 = o1.drop_first();
            let d2 = o2.drop_first();
            assert(d1[0] == o1[1]);
            lemma_operands_text_first(d1);
            lemma_operands_text_first(d2);
            lemma_split_word(t1, r1, t2, r2);
            lemma_operand_unique(o1[0], o2[0]);
            assert forall|j: int| 0 <= j < d1.len() implies same_kind(#[trigger] d1[j], d2[j]) by {
                assert(same_kind(o1[j + 1], o2[j + 1]));
            }
            assert forall|j: int| 0 <= j < d1.len() - 1 implies !(#[trigger] d1[j] is Quoted) by {
                assert(!(o1[j + 1] is Quoted));
            }
            lemma_operands_unique(d1, d2);
            assert forall|j: int| 0 <= j < o1.len() implies same_operand(#[trigger] o1[j], o2[j]) by {
                if j > 0 {
                    assert(same_operand(d1[j - 1], d2[j - 1]));
                }
            }
        }
    }
}

proof fn lemma_text_single_line(i: Instruction)
    requires
        i matches Instruction::LoadString(_, s) ==> lacks(s@, '\n'),
    ensures
        lacks(instruction_text(i), '\n'),
{
    lemma_mnemonic(i);
    let ops = operands(i);
    assert forall|j: int| 0 <= j < ops.len() implies (#[trigger] ops[j] matches Operand::Quoted(s) ==> lacks(s@, '\n')) by {
    }
    lemma_operands_text_lines(ops);
    let m = mnemonic(i);
    let t = instruction_text(i);
    reveal_strlit(" ");
    assert forall|k: int| 0 <= k < t.len() implies t[k] != '\n' by {
        if k >= m.len() + operands_text(ops).len() {
            assert(t[k] == trailer(i)[k - m.len() - operands_text(ops).len()]);
        } else if k >= m.len() {
            assert(t[k] == operands_text(ops)[k - m.len()]);
        }
    }
}

/// Two instructions with the same text are the same instruction, strings
/// compared by their text.
pub proof fn law_instruction_text_unique(i1: Instruction, i2: Instruction)
    requires
        instruction_text(i1) == instruction_text(i2),
    ensures
        same_instruction(i1, i2),
{
    reveal_strlit(" ");
    lemma_mnemonic(i1);
    lemma_mnemonic(i2);
    let o1 = operands(i1);
    let o2 = operands(i2);
    lemma_operands_start(o1);
    lemma_operands_start(o2);
    let r1 = operands_text(o1) + trailer(i1);
    let r2 = operands_text(o2) + trailer(i2);
    if o1.len() > 0 {
        assert(r1[0] == operands_text(o1)[0]);
    }
    if o2.len() > 0 {
        assert(r2[0] == operands_text(o2)[0]);
    }
    assert(instruction_text(i1) =~= mnemonic(i1) + r1);
    assert(instruction_text(i2) =~= mnemonic(i2) + r2);
    lemma_split_word(mnemonic(i1), r1, mnemonic(i2), r2);
    lemma_mnemonic_unique(i1, i2);
    assert(trailer(i1) == trailer(i2));
    assert(operands_text(o1) =~= r1.subrange(0, r1.len() - trailer(i1).len()));
    assert(operands_text(o2) =~= r2.subrange(0, r2.len() - trailer(i2).len()));
    assert(o1.len() == o2.len());
    assert(forall|j: int| 0 <= j < o1.len() ==> same_kind(#[trigger] o1[j], o2[j]));
    lemma_operands_unique(o1, o2);
    assert(forall|j: int| 0 <= j < o1.len() ==> same_operand(#[trigger] o1[j], o2[j]));
}

proof fn lemma_operands_start(ops: Seq<Operand>)
    ensures
        ops.len() > 0 ==> operands_text(ops)[0] == ' ',
    decreases ops.len(),
{
    reveal_strlit(" ");
    if ops.len() > 0 {
        lemma_operands_start(ops.drop_last());
        if ops.drop_last().len() > 0 {
            assert(operands_text(ops)[0] == operands_text(ops.drop_last())[0]);
        }
    }
}

} // verus!
