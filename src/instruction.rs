use vstd::prelude::*;
use vstd::string::StringExecFns;

use crate::text::{decimal, hexadecimal, push_decimal, push_hexadecimal, push_signed, signed_decimal};

verus! {

/// One instruction of the register machine.
///
/// Register operands are indices into the current frame's register file;
/// `Label`, `Goto`, `GotoT` and `GotoF` take label ids; `Jump`, `JumpT` and
/// `JumpF` take instruction indices; `LoadGlobal` and `StoreGlobal` take
/// global ids; `LoadConst` takes a pool handle.
#[derive(Clone, Debug)]
pub enum Instruction {
    /// `R(a) <- new string object`
    LoadString(usize, String),
    /// `R(a) <- Bool(b)`
    LoadBool(usize, bool),
    /// `R(a) <- Int(b)`
    LoadInt(usize, i32),
    /// `R(a) <- Long(b)`
    LoadLong(usize, i64),
    /// `R(a) <- Float(bits)`
    LoadFloat(usize, u32),
    /// `R(a) <- Double(bits)`
    LoadDouble(usize, u64),
    /// `R(a) <- Object(K)`
    LoadConst(usize, usize),
    /// `R(a) <- globals[G]`
    LoadGlobal(usize, usize),
    /// `globals[G] <- R(a)`
    StoreGlobal(usize, usize),
    /// `R(a) <- R(b)[R(c)]`
    LoadAt(usize, usize, usize),
    /// `R(b)[R(c)] <- R(a)`
    StoreAt(usize, usize, usize),
    /// `R(a) <- R(b)`
    Move(usize, usize),
    /// Push `R(a)` onto the argument stack.
    LoadArg(usize),
    /// `R(a) <- call R(b)` with the receiver and `n` arguments popped.
    Call(usize, usize, usize),
    Add(usize, usize, usize),
    Sub(usize, usize, usize),
    Mul(usize, usize, usize),
    Div(usize, usize, usize),
    Rem(usize, usize, usize),
    Gt(usize, usize, usize),
    Ge(usize, usize, usize),
    Lt(usize, usize, usize),
    Le(usize, usize, usize),
    Eq(usize, usize, usize),
    Neq(usize, usize, usize),
    And(usize, usize, usize),
    Or(usize, usize, usize),
    BitAnd(usize, usize, usize),
    BitOr(usize, usize, usize),
    BitXor(usize, usize, usize),
    Shl(usize, usize, usize),
    Shr(usize, usize, usize),
    /// `R(a) <- Bool(not R(b))`
    Not(usize, usize),
    /// `ip <- idx`
    Jump(usize),
    /// `ip <- idx` when `R(a)` is true.
    JumpT(usize, usize),
    /// `ip <- idx` when `R(a)` is false.
    JumpF(usize, usize),
    /// `ip <- labels[L] + 1`
    Goto(usize),
    /// Goto when `R(a)` is true.
    GotoT(usize, usize),
    /// Goto when `R(a)` is false or null.
    GotoF(usize, usize),
    /// Marks a jump target.
    Label(usize),
    /// Return `R(a)`.
    Ret(usize),
    /// Return null.
    Ret0,
    /// `R(a) <- typename(R(b)) == typename(R(c))`
    Isa(usize, usize, usize),
}

/// An operand as it is written in the text of an instruction.
#[derive(Debug)]
pub enum Operand {
    Index(usize),
    Signed(i64),
    Bits(u64),
    Flag(bool),
    Quoted(String),
}

pub open spec fn mnemonic(i: Instruction) -> Seq<char> {
    match i {
        Instruction::LoadString(..) => "LoadString"@,
        Instruction::LoadBool(..) => "LoadBool"@,
        Instruction::LoadInt(..) => "LoadInt"@,
        Instruction::LoadLong(..) => "LoadLong"@,
        Instruction::LoadFloat(..) => "LoadFloat"@,
        Instruction::LoadDouble(..) => "LoadDouble"@,
        Instruction::LoadConst(..) => "LoadConst"@,
        Instruction::LoadGlobal(..) => "LoadGlobal"@,
        Instruction::StoreGlobal(..) => "StoreGlobal"@,
        Instruction::LoadAt(..) => "LoadAt"@,
        Instruction::StoreAt(..) => "StoreAt"@,
        Instruction::Move(..) => "Move"@,
        Instruction::LoadArg(..) => "LoadArg"@,
        Instruction::Call(..) => "Call"@,
        Instruction::Add(..) => "Add"@,
        Instruction::Sub(..) => "Sub"@,
        Instruction::Mul(..) => "Mul"@,
        Instruction::Div(..) => "Div"@,
        Instruction::Rem(..) => "Rem"@,
        Instruction::Gt(..) => "Gt"@,
        Instruction::Ge(..) => "Ge"@,
        Instruction::Lt(..) => "Lt"@,
        Instruction::Le(..) => "Le"@,
        Instruction::Eq(..) => "Eq"@,
        Instruction::Neq(..) => "Neq"@,
        Instruction::And(..) => "And"@,
        Instruction::Or(..) => "Or"@,
        Instruction::BitAnd(..) => "BitAnd"@,
        Instruction::BitOr(..) => "BitOr"@,
        Instruction::BitXor(..) => "BitXor"@,
        Instruction::Shl(..) => "Shl"@,
        Instruction::Shr(..) => "Shr"@,
        Instruction::Not(..) => "Not"@,
        Instruction::Jump(..) => "Jump"@,
        Instruction::JumpT(..) => "JumpT"@,
        Instruction::JumpF(..) => "JumpF"@,
        Instruction::Goto(..) => "Goto"@,
        Instruction::GotoT(..) => "GotoT"@,
        Instruction::GotoF(..) => "GotoF"@,
        Instruction::Label(..) => "Label"@,
        Instruction::Ret(..) => "Ret"@,
        Instruction::Ret0 => "Ret0"@,
        Instruction::Isa(..) => "Isa"@,
    }
}

pub open spec fn operands(i: Instruction) -> Seq<Operand> {
    match i {
        Instruction::LoadString(a, s) => seq![Operand::Index(a), Operand::Quoted(s)],
        Instruction::LoadBool(a, b) => seq![Operand::Index(a), Operand::Flag(b)],
        Instruction::LoadInt(a, b) => seq![Operand::Index(a), Operand::Signed(b as i64)],
        Instruction::LoadLong(a, b) => seq![Operand::Index(a), Operand::Signed(b)],
        Instruction::LoadFloat(a, b) => seq![Operand::Index(a), Operand::Bits(b as u64)],
        Instruction::LoadDouble(a, b) => seq![Operand::Index(a), Operand::Bits(b)],
        Instruction::LoadConst(a, b)
        | Instruction::LoadGlobal(a, b)
        | Instruction::StoreGlobal(a, b)
        | Instruction::Move(a, b)
        | Instruction::Not(a, b)
        | Instruction::JumpT(a, b)
        | Instruction::JumpF(a, b)
        | Instruction::GotoT(a, b)
        | Instruction::GotoF(a, b) => seq![Operand::Index(a), Operand::Index(b)],
        Instruction::LoadAt(a, b, c)
        | Instruction::StoreAt(a, b, c)
        | Instruction::Call(a, b, c)
        | Instruction::Add(a, b, c)
        | Instruction::Sub(a, b, c)
        | Instruction::Mul(a, b, c)
        | Instruction::Div(a, b, c)
        | Instruction::Rem(a, b, c)
        | Instruction::Gt(a, b, c)
        | Instruction::Ge(a, b, c)
        | Instruction::Lt(a, b, c)
        | Instruction::Le(a, b, c)
        | Instruction::Eq(a, b, c)
        | Instruction::Neq(a, b, c)
        | Instruction::And(a, b, c)
        | Instruction::Or(a, b, c)
        | Instruction::BitAnd(a, b, c)
        | Instruction::BitOr(a, b, c)
        | Instruction::BitXor(a, b, c)
        | Instruction::Shl(a, b, c)
        | Instruction::Shr(a, b, c)
        | Instruction::Isa(a, b, c) => seq![Operand::Index(a), Operand::Index(b), Operand::Index(c)],
        Instruction::LoadArg(a)
        | Instruction::Jump(a)
        | Instruction::Goto(a)
        | Instruction::Label(a)
        | Instruction::Ret(a) => seq![Operand::Index(a)],
        Instruction::Ret0 => seq![],
    }
}

pub open spec fn operand_text(o: Operand) -> Seq<char> {
    match o {
        Operand::Index(n) => decimal(n as nat),
        Operand::Signed(n) => signed_decimal(n as int),
        Operand::Bits(b) => "0x"@ + hexadecimal(b as nat),
        Operand::Flag(b) => if b { "true"@ } else { "false"@ },
        Operand::Quoted(s) => "\""@ + s@ + "\""@,
    }
}

/// The operands, each after one space.
pub open spec fn operands_text(ops: Seq<Operand>) -> Seq<char>
    decreases ops.len(),
{
    if ops.len() == 0 {
        seq![]
    } else {
        operands_text(ops.drop_last()) + " "@ + operand_text(ops.last())
    }
}

/// The text of one instruction: its mnemonic, then its operands.
pub open spec fn instruction_text(i: Instruction) -> Seq<char> {
    mnemonic(i) + operands_text(operands(i)) + trailer(i)
}

/// What follows the operands: a space after `Gt`, nothing otherwise.
pub open spec fn trailer(i: Instruction) -> Seq<char> {
    if i is Gt {
        " "@
    } else {
        seq![]
    }
}

/// An instruction index padded with zeros to four digits.
pub open spec fn index_text(n: nat) -> Seq<char> {
    let pad = if decimal(n).len() < 4 { (4 - decimal(n).len()) as nat } else { 0 };
    Seq::new(pad, |k: int| '0') + decimal(n)
}

/// The listing of `code` from line `k` on: each line is the index, a space,
/// the instruction text and a newline.
pub open spec fn listing_from(code: Seq<Instruction>, k: nat) -> Seq<char>
    decreases code.len() - k,
{
    if k >= code.len() {
        seq![]
    } else {
        index_text(k) + " "@ + instruction_text(code[k as int]) + "\n"@ + listing_from(code, k + 1)
    }
}

/// The listing of a whole code sequence.
pub open spec fn listing(code: Seq<Instruction>) -> Seq<char> {
    listing_from(code, 0)
}

impl Instruction {
    /// A copy of the instruction.
    pub fn duplicate(&self) -> (r: Instruction)
        ensures
            r == *self,
    {
        match self {
            Instruction::LoadString(a, s) => Instruction::LoadString(*a, s.clone()),
            Instruction::LoadBool(a, b) => Instruction::LoadBool(*a, *b),
            Instruction::LoadInt(a, b) => Instruction::LoadInt(*a, *b),
            Instruction::LoadLong(a, b) => Instruction::LoadLong(*a, *b),
            Instruction::LoadFloat(a, b) => Instruction::LoadFloat(*a, *b),
            Instruction::LoadDouble(a, b) => Instruction::LoadDouble(*a, *b),
            Instruction::LoadConst(a, b) => Instruction::LoadConst(*a, *b),
            Instruction::LoadGlobal(a, b) => Instruction::LoadGlobal(*a, *b),
            Instruction::StoreGlobal(a, b) => Instruction::StoreGlobal(*a, *b),
            Instruction::LoadAt(a, b, c) => Instruction::LoadAt(*a, *b, *c),
            Instruction::StoreAt(a, b, c) => Instruction::StoreAt(*a, *b, *c),
            Instruction::Move(a, b) => Instruction::Move(*a, *b),
            Instruction::LoadArg(a) => Instruction::LoadArg(*a),
            Instruction::Call(a, b, c) => Instruction::Call(*a, *b, *c),
            Instruction::Add(a, b, c) => Instruction::Add(*a, *b, *c),
            Instruction::Sub(a, b, c) => Instruction::Sub(*a, *b, *c),
            Instruction::Mul(a, b, c) => Instruction::Mul(*a, *b, *c),
            Instruction::Div(a, b, c) => Instruction::Div(*a, *b, *c),
            Instruction::Rem(a, b, c) => Instruction::Rem(*a, *b, *c),
            Instruction::Gt(a, b, c) => Instruction::Gt(*a, *b, *c),
            Instruction::Ge(a, b, c) => Instruction::Ge(*a, *b, *c),
            Instruction::Lt(a, b, c) => Instruction::Lt(*a, *b, *c),
            Instruction::Le(a, b, c) => Instruction::Le(*a, *b, *c),
            Instruction::Eq(a, b, c) => Instruction::Eq(*a, *b, *c),
            Instruction::Neq(a, b, c) => Instruction::Neq(*a, *b, *c),
            Instruction::And(a, b, c) => Instruction::And(*a, *b, *c),
            Instruction::Or(a, b, c) => Instruction::Or(*a, *b, *c),
            Instruction::BitAnd(a, b, c) => Instruction::BitAnd(*a, *b, *c),
            Instruction::BitOr(a, b, c) => Instruction::BitOr(*a, *b, *c),
            Instruction::BitXor(a, b, c) => Instruction::BitXor(*a, *b, *c),
            Instruction::Shl(a, b, c) => Instruction::Shl(*a, *b, *c),
            Instruction::Shr(a, b, c) => Instruction::Shr(*a, *b, *c),
            Instruction::Not(a, b) => Instruction::Not(*a, *b),
            Instruction::Jump(a) => Instruction::Jump(*a),
            Instruction::JumpT(a, b) => Instruction::JumpT(*a, *b),
            Instruction::JumpF(a, b) => Instruction::JumpF(*a, *b),
            Instruction::Goto(a) => Instruction::Goto(*a),
            Instruction::GotoT(a, b) => Instruction::GotoT(*a, *b),
            Instruction::GotoF(a, b) => Instruction::GotoF(*a, *b),
            Instruction::Label(a) => Instruction::Label(*a),
            Instruction::Ret(a) => Instruction::Ret(*a),
            Instruction::Ret0 => Instruction::Ret0,
            Instruction::Isa(a, b, c) => Instruction::Isa(*a, *b, *c),
        }
    }

    /// The mnemonic of the instruction.
    pub fn mnemonic(&self) -> (r: &'static str)
        ensures
            r@ == mnemonic(*self),
    {
        match self {
            Instruction::LoadString(..) => "LoadString",
            Instruction::LoadBool(..) => "LoadBool",
            Instruction::LoadInt(..) => "LoadInt",
            Instruction::LoadLong(..) => "LoadLong",
            Instruction::LoadFloat(..) => "LoadFloat",
            Instruction::LoadDouble(..) => "LoadDouble",
            Instruction::LoadConst(..) => "LoadConst",
            Instruction::LoadGlobal(..) => "LoadGlobal",
            Instruction::StoreGlobal(..) => "StoreGlobal",
            Instruction::LoadAt(..) => "LoadAt",
            Instruction::StoreAt(..) => "StoreAt",
            Instruction::Move(..) => "Move",
            Instruction::LoadArg(..) => "LoadArg",
            Instruction::Call(..) => "Call",
            Instruction::Add(..) => "Add",
            Instruction::Sub(..) => "Sub",
            Instruction::Mul(..) => "Mul",
            Instruction::Div(..) => "Div",
            Instruction::Rem(..) => "Rem",
            Instruction::Gt(..) => "Gt",
            Instruction::Ge(..) => "Ge",
            Instruction::Lt(..) => "Lt",
            Instruction::Le(..) => "Le",
            Instruction::Eq(..) => "Eq",
            Instruction::Neq(..) => "Neq",
            Instruction::And(..) => "And",
            Instruction::Or(..) => "Or",
            Instruction::BitAnd(..) => "BitAnd",
            Instruction::BitOr(..) => "BitOr",
            Instruction::BitXor(..) => "BitXor",
            Instruction::Shl(..) => "Shl",
            Instruction::Shr(..) => "Shr",
            Instruction::Not(..) => "Not",
            Instruction::Jump(..) => "Jump",
            Instruction::JumpT(..) => "JumpT",
            Instruction::JumpF(..) => "JumpF",
            Instruction::Goto(..) => "Goto",
            Instruction::GotoT(..) => "GotoT",
            Instruction::GotoF(..) => "GotoF",
            Instruction::Label(..) => "Label",
            Instruction::Ret(..) => "Ret",
            Instruction::Ret0 => "Ret0",
            Instruction::Isa(..) => "Isa",
        }
    }

    /// The operands, in the order in which they are written.
    pub fn operands(&self) -> (r: Vec<Operand>)
        ensures
            r@ == operands(*self),
    {
        let r = match self {
            Instruction::LoadString(a, s) => vec![Operand::Index(*a), Operand::Quoted(s.clone())],
            Instruction::LoadBool(a, b) => vec![Operand::Index(*a), Operand::Flag(*b)],
            Instruction::LoadInt(a, b) => vec![Operand::Index(*a), Operand::Signed(*b as i64)],
            Instruction::LoadLong(a, b) => vec![Operand::Index(*a), Operand::Signed(*b)],
            Instruction::LoadFloat(a, b) => vec![Operand::Index(*a), Operand::Bits(*b as u64)],
            Instruction::LoadDouble(a, b) => vec![Operand::Index(*a), Operand::Bits(*b)],
            Instruction::LoadConst(a, b)
            | Instruction::LoadGlobal(a, b)
            | Instruction::StoreGlobal(a, b)
            | Instruction::Move(a, b)
            | Instruction::Not(a, b)
            | Instruction::JumpT(a, b)
            | Instruction::JumpF(a, b)
            | Instruction::GotoT(a, b)
            | Instruction::GotoF(a, b) => vec![Operand::Index(*a), Operand::Index(*b)],
            Instruction::LoadAt(a, b, c)
            | Instruction::StoreAt(a, b, c)
            | Instruction::Call(a, b, c)
            | Instruction::Add(a, b, c)
            | Instruction::Sub(a, b, c)
            | Instruction::Mul(a, b, c)
            | Instruction::Div(a, b, c)
            | Instruction::Rem(a, b, c)
            | Instruction::Gt(a, b, c)
            | Instruction::Ge(a, b, c)
            | Instruction::Lt(a, b, c)
            | Instruction::Le(a, b, c)
            | Instruction::Eq(a, b, c)
            | Instruction::Neq(a, b, c)
            | Instruction::And(a, b, c)
            | Instruction::Or(a, b, c)
            | Instruction::BitAnd(a, b, c)
            | Instruction::BitOr(a, b, c)
            | Instruction::BitXor(a, b, c)
            | Instruction::Shl(a, b, c)
            | Instruction::Shr(a, b, c)
            | Instruction::Isa(a, b, c) => vec![Operand::Index(*a), Operand::Index(*b), Operand::Index(*c)],
            Instruction::LoadArg(a)
            | Instruction::Jump(a)
            | Instruction::Goto(a)
            | Instruction::Label(a)
            | Instruction::Ret(a) => vec![Operand::Index(*a)],
            Instruction::Ret0 => vec![],
        };
        assert(r@ =~= operands(*self));
        r
    }

    /// The text of the instruction: its mnemonic followed by its operands.
    pub fn to_text(&self) -> (r: String)
        ensures
            r@ == instruction_text(*self),
    {
        let mut s = String::from_str(self.mnemonic());
        let ops = self.operands();
        let mut k: usize = 0;
        while k < ops.len()
            invariant
                k <= ops@.len(),
                ops@ == operands(*self),
                s@ == mnemonic(*self) + operands_text(ops@.take(k as int)),
            decreases ops@.len() - k,
        {
            s.append(" ");
            push_operand(&mut s, &ops[k]);
            proof {
                assert(ops@.take(k + 1).drop_last() =~= ops@.take(k as int));
            }
            k = k + 1;
        }
        assert(ops@.take(k as int) =~= ops@);
        if let Instruction::Gt(..) = self {
            s.append(" ");
        }
        assert(s@ =~= instruction_text(*self));
        s
    }
}

fn push_operand(s: &mut String, o: &Operand)
    ensures
        final(s)@ == old(s)@ + operand_text(*o),
{
    match o {
        Operand::Index(n) => push_decimal(s, *n as u64),
        Operand::Signed(n) => push_signed(s, *n),
        Operand::Bits(b) => {
            s.append("0x");
            push_hexadecimal(s, *b);
        },
        Operand::Flag(b) => {
            if *b {
                s.append("true");
            } else {
                s.append("false");
            }
        },
        Operand::Quoted(t) => {
            s.append("\"");
            s.append(t.as_str());
            s.append("\"");
        },
    }
    assert(s@ =~= old(s)@ + operand_text(*o));
}

fn decimal_len(n: u64) -> (r: u64)
    ensures
        r == decimal(n as nat).len(),
        r <= n as nat + 1,
    decreases n,
{
    if n < 10 {
        1
    } else {
        decimal_len(n / 10) + 1
    }
}

fn push_index(s: &mut String, n: usize)
    ensures
        final(s)@ == old(s)@ + index_text(n as nat),
{
    let len = decimal_len(n as u64);
    let pad: usize = if len < 4 { (4 - len) as usize } else { 0 };
    let ghost start = s@;
    let mut k: usize = 0;
    while k < pad
        invariant
            k <= pad,
            s@ == start + Seq::new(k as nat, |j: int| '0'),
        decreases pad - k,
    {
        proof {
            reveal_strlit("0");
        }
        s.append("0");
        assert(s@ =~= start + Seq::new((k + 1) as nat, |j: int| '0'));
        k = k + 1;
    }
    push_decimal(s, n as u64);
    assert(s@ =~= old(s)@ + index_text(n as nat));
}

/// Text rendering of a code sequence.
pub trait DebugCode {
    /// The text that `toString` gives.
    spec fn text_of(&self) -> Seq<char>;

    #[allow(non_snake_case)]
    fn toString(&self) -> (r: String)
        ensures
            r@ == self.text_of();
}

impl DebugCode for Vec<Instruction> {
    /// The listing of the code: one numbered line per instruction.
    open spec fn text_of(&self) -> Seq<char> {
        listing(self@)
    }

    #[allow(non_snake_case)]
    fn toString(&self) -> (r: String) {
        disassemble(self)
    }
}

/// The listing of a code sequence: one numbered line per instruction.
pub fn disassemble(code: &Vec<Instruction>) -> (r: String)
    ensures
        r@ == listing(code@),
{
    let mut k: usize = code.len();
    let mut s = String::new();
    while k > 0
        invariant
            k <= code@.len(),
            s@ == listing_from(code@, k as nat),
        decreases k,
    {
        k = k - 1;
        let mut line = String::new();
        push_index(&mut line, k);
        line.append(" ");
        let t = code[k].to_text();
        line.append(t.as_str());
        line.append("\n");
        line.append(s.as_str());
        s = line;
        assert(s@ =~= listing_from(code@, k as nat));
    }
    s
}

} // verus!
