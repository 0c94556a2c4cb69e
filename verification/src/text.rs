//! The textual form of handles, types and instructions.

use crate::entity::index::Index32;
use crate::instruction::{
    BinaryFloatInstr,
    BinaryFloatOp,
    BinaryIntInstr,
    BinaryIntOp,
    IncompletePhi,
    Instr,
    PhiInstr,
};
use crate::primitive::{Block, FloatType, Func, FuncType, IntType, Mem, Table, Type, Value, Variable};
use vstd::prelude::*;
use vstd::string::StringExecFns;

verus! {

/// The character of a decimal digit.
pub open spec fn digit(d: nat) -> char {
    if d == 0 {
        '0'
    } else if d == 1 {
        '1'
    } else if d == 2 {
        '2'
    } else if d == 3 {
        '3'
    } else if d == 4 {
        '4'
    } else if d == 5 {
        '5'
    } else if d == 6 {
        '6'
    } else if d == 7 {
        '7'
    } else if d == 8 {
        '8'
    } else {
        '9'
    }
}

/// The decimal digits of a number, without leading zeros.
pub open spec fn decimal(n: nat) -> Seq<char>
    decreases n,
{
    if n < 10 {
        seq![digit(n)]
    } else {
        decimal(n / 10).push(digit(n % 10))
    }
}

/// Returns the text of a decimal digit.
fn digit_text(d: u32) -> (text: &'static str)
    requires
        d < 10,
    ensures
        text@ == seq![digit(d as nat)],
{
    proof {
        reveal_strlit("0");
        reveal_strlit("1");
        reveal_strlit("2");
        reveal_strlit("3");
        reveal_strlit("4");
        reveal_strlit("5");
        reveal_strlit("6");
        reveal_strlit("7");
        reveal_strlit("8");
        reveal_strlit("9");
    }
    let text = if d == 0 {
        "0"
    } else if d == 1 {
        "1"
    } else if d == 2 {
        "2"
    } else if d == 3 {
        "3"
    } else if d == 4 {
        "4"
    } else if d == 5 {
        "5"
    } else if d == 6 {
        "6"
    } else if d == 7 {
        "7"
    } else if d == 8 {
        "8"
    } else {
        "9"
    };
    assert(text@ =~= seq![digit(d as nat)]);
    text
}

/// Appends the decimal digits of the number to the text.
pub fn append_decimal(text: &mut String, n: u32)
    ensures
        final(text)@ == old(text)@ + decimal(n as nat),
    decreases n,
{
    if n >= 10 {
        append_decimal(text, n / 10);
    }
    text.append(digit_text(n % 10));
    proof {
        if n >= 10 {
            assert(old(text)@ + decimal((n / 10) as nat) + seq![digit((n % 10) as nat)] =~= old(
                text,
            )@ + decimal(n as nat));
        }
    }
}

/// The text of a handle: the index between a prefix and a suffix.
pub open spec fn handle_text(prefix: Seq<char>, index: u32, suffix: Seq<char>) -> Seq<char> {
    prefix + decimal(index as nat) + suffix
}

/// Returns the text of a handle.
fn render_handle(prefix: &str, index: u32, suffix: &str) -> (text: String)
    ensures
        text@ == handle_text(prefix@, index, suffix@),
{
    let mut text = String::from_str(prefix);
    append_decimal(&mut text, index);
    text.append(suffix);
    text
}

impl Block {
    /// The text of the basic block: `bb` and its index.
    pub open spec fn text(self) -> Seq<char> {
        handle_text("bb"@, self.index(), ""@)
    }

    /// Returns the text of the basic block.
    pub fn to_string(&self) -> (text: String)
        ensures
            text@ == self.text(),
    {
        render_handle("bb", self.into_u32(), "")
    }
}

impl Value {
    /// The text of the value: `v` and its index.
    pub open spec fn text(self) -> Seq<char> {
        handle_text("v"@, self.index(), ""@)
    }

    /// Returns the text of the value.
    pub fn to_string(&self) -> (text: String)
        ensures
            text@ == self.text(),
    {
        render_handle("v", self.into_u32(), "")
    }
}

impl Variable {
    /// The text of the variable: its index in `var(..)`.
    pub open spec fn text(self) -> Seq<char> {
        handle_text("var("@, self.index(), ")"@)
    }

    /// Returns the text of the variable.
    pub fn to_string(&self) -> (text: String)
        ensures
            text@ == self.text(),
    {
        render_handle("var(", self.into_u32(), ")")
    }
}

impl Instr {
    /// The text of the instruction handle: its index in `instr(..)`.
    pub open spec fn text(self) -> Seq<char> {
        handle_text("instr("@, self.index(), ")"@)
    }

    /// Returns the text of the instruction handle.
    pub fn to_string(&self) -> (text: String)
        ensures
            text@ == self.text(),
    {
        render_handle("instr(", self.into_u32(), ")")
    }
}

impl Func {
    /// The text of the function handle: `func` and its index.
    pub open spec fn text(self) -> Seq<char> {
        handle_text("func"@, self.index(), ""@)
    }

    /// Returns the text of the function handle.
    pub fn to_string(&self) -> (text: String)
        ensures
            text@ == self.text(),
    {
        render_handle("func", self.into_u32(), "")
    }
}

impl FuncType {
    /// The text of the function type handle: its index in `func_type(..)`.
    pub open spec fn text(self) -> Seq<char> {
        handle_text("func_type("@, self.index(), ")"@)
    }

    /// Returns the text of the function type handle.
    pub fn to_string(&self) -> (text: String)
        ensures
            text@ == self.text(),
    {
        render_handle("func_type(", self.into_u32(), ")")
    }
}

impl Mem {
    /// The text of the linear memory handle: its index in `mem(..)`.
    pub open spec fn text(self) -> Seq<char> {
        handle_text("mem("@, self.index(), ")"@)
    }

    /// Returns the text of the linear memory handle.
    pub fn to_string(&self) -> (text: String)
        ensures
            text@ == self.text(),
    {
        render_handle("mem(", self.into_u32(), ")")
    }
}

impl Table {
    /// The text of the table handle: its index in `table(..)`.
    pub open spec fn text(self) -> Seq<char> {
        handle_text("table("@, self.index(), ")"@)
    }

    /// Returns the text of the table handle.
    pub fn to_string(&self) -> (text: String)
        ensures
            text@ == self.text(),
    {
        render_handle("table(", self.into_u32(), ")")
    }
}

impl IntType {
    /// The name of the integer type.
    pub open spec fn name(self) -> Seq<char> {
        match self {
            IntType::I8 => "i8"@,
            IntType::I16 => "i16"@,
            IntType::I32 => "i32"@,
            IntType::I64 => "i64"@,
        }
    }

    /// Returns the name of the integer type.
    pub fn as_str(&self) -> (name: &'static str)
        ensures
            name@ == self.name(),
    {
        match self {
            IntType::I8 => "i8",
            IntType::I16 => "i16",
            IntType::I32 => "i32",
            IntType::I64 => "i64",
        }
    }
}

impl FloatType {
    /// The name of the floating point number type.
    pub open spec fn name(self) -> Seq<char> {
        match self {
            FloatType::F32 => "f32"@,
            FloatType::F64 => "f64"@,
        }
    }

    /// Returns the name of the floating point number type.
    pub fn as_str(&self) -> (name: &'static str)
        ensures
            name@ == self.name(),
    {
        match self {
            FloatType::F32 => "f32",
            FloatType::F64 => "f64",
        }
    }
}

impl Type {
    /// The name of the type.
    pub open spec fn name(self) -> Seq<char> {
        match self {
            Type::Bool => "bool"@,
            Type::Ptr => "ptr"@,
            Type::Int(int_type) => int_type.name(),
            Type::Float(float_type) => float_type.name(),
        }
    }

    /// Returns the name of the type.
    pub fn as_str(&self) -> (name: &'static str)
        ensures
            name@ == self.name(),
    {
        match self {
            Type::Bool => "bool",
            Type::Ptr => "ptr",
            Type::Int(int_type) => int_type.as_str(),
            Type::Float(float_type) => float_type.as_str(),
        }
    }
}

impl BinaryIntOp {
    /// The name of the operand code.
    pub open spec fn name(self) -> Seq<char> {
        match self {
            BinaryIntOp::Add => "iadd"@,
            BinaryIntOp::Sub => "isub"@,
            BinaryIntOp::Mul => "imul"@,
            BinaryIntOp::Sdiv => "sdiv"@,
            BinaryIntOp::Udiv => "udiv"@,
            BinaryIntOp::Srem => "srem"@,
            BinaryIntOp::Urem => "urem"@,
            BinaryIntOp::And => "iand"@,
            BinaryIntOp::Or => "ior"@,
            BinaryIntOp::Xor => "ixor"@,
        }
    }

    /// Returns the name of the operand code.
    pub fn as_str(&self) -> (name: &'static str)
        ensures
            name@ == self.name(),
    {
        match self {
            BinaryIntOp::Add => "iadd",
            BinaryIntOp::Sub => "isub",
            BinaryIntOp::Mul => "imul",
            BinaryIntOp::Sdiv => "sdiv",
            BinaryIntOp::Udiv => "udiv",
            BinaryIntOp::Srem => "srem",
            BinaryIntOp::Urem => "urem",
            BinaryIntOp::And => "iand",
            BinaryIntOp::Or => "ior",
            BinaryIntOp::Xor => "ixor",
        }
    }
}

impl BinaryIntInstr {
    /// The text of the instruction: the operand code, the type in angle
    /// brackets, and both values.
    pub open spec fn text(self) -> Seq<char> {
        self.op.name() + "<"@ + self.ty.name() + "> "@ + self.lhs.text() + " "@ + self.rhs.text()
    }

    /// Returns the text of the instruction.
    pub fn to_string(&self) -> (text: String)
        ensures
            text@ == self.text(),
    {
        let mut text = String::from_str(self.op.as_str());
        text.append("<");
        text.append(self.ty.as_str());
        text.append("> ");
        let lhs = self.lhs.to_string();
        text.append(lhs.as_str());
        text.append(" ");
        let rhs = self.rhs.to_string();
        text.append(rhs.as_str());
        text
    }
}

impl BinaryFloatOp {
    /// The name of the operand code.
    pub open spec fn name(self) -> Seq<char> {
        match self {
            BinaryFloatOp::Add => "fadd"@,
            BinaryFloatOp::Sub => "sub"@,
            BinaryFloatOp::Mul => "mul"@,
            BinaryFloatOp::Div => "div"@,
            BinaryFloatOp::Min => "min"@,
            BinaryFloatOp::Max => "max"@,
            BinaryFloatOp::Copysign => "copysign"@,
        }
    }

    /// Returns the name of the operand code.
    pub fn as_str(&self) -> (name: &'static str)
        ensures
            name@ == self.name(),
    {
        match self {
            BinaryFloatOp::Add => "fadd",
            BinaryFloatOp::Sub => "sub",
            BinaryFloatOp::Mul => "mul",
            BinaryFloatOp::Div => "div",
            BinaryFloatOp::Min => "min",
            BinaryFloatOp::Max => "max",
            BinaryFloatOp::Copysign => "copysign",
        }
    }
}

impl BinaryFloatInstr {
    /// The text of the instruction: the operand code, the type and both
    /// values, each with its name.
    pub open spec fn text(self) -> Seq<char> {
        self.op.name() + " type "@ + self.float_type.name() + ", lhs "@ + self.lhs.text()
            + ", rhs "@ + self.rhs.text()
    }

    /// Returns the text of the instruction.
    pub fn to_string(&self) -> (text: String)
        ensures
            text@ == self.text(),
    {
        let mut text = String::from_str(self.op.as_str());
        text.append(" type ");
        text.append(self.float_type.as_str());
        text.append(", lhs ");
        let lhs = self.lhs.to_string();
        text.append(lhs.as_str());
        text.append(", rhs ");
        let rhs = self.rhs.to_string();
        text.append(rhs.as_str());
        text
    }
}

/// The text of the operands of a ϕ-instruction from the given position on:
/// each block with its value, separated by commas.
pub open spec fn operands_text(operands: Seq<(Block, Value)>, from: int) -> Seq<char>
    decreases operands.len() - from,
{
    if from >= operands.len() || from < 0 {
        Seq::empty()
    } else {
        (if from == 0 {
            " "@
        } else {
            ", "@
        }) + operands[from].0.text() + " -> "@ + operands[from].1.text() + operands_text(
            operands,
            from + 1,
        )
    }
}

/// Whether the pairs are the operands of the ϕ-instruction, ordered by the
/// index of the block.
pub open spec fn lists_operands(operands: Seq<(Block, Value)>, phi: Map<u32, Value>) -> bool {
    &&& operands.len() == phi.len()
    &&& forall|i: int, j: int|
        0 <= i < j < operands.len() ==> (#[trigger] operands[i]).0.index() < (
        #[trigger] operands[j]).0.index()
    &&& forall|i: int|
        0 <= i < operands.len() ==> phi.contains_key((#[trigger] operands[i]).0.index())
            && phi[operands[i].0.index()] == operands[i].1
}

impl IncompletePhi {
    /// Returns the text of the ϕ-instruction: its operands, ordered by the
    /// index of the block, in square brackets.
    pub fn to_string(&self) -> (text: String)
        ensures
            exists|operands: Seq<(Block, Value)>|
                lists_operands(operands, self@) && text@ == "ϕ ["@ + #[trigger] operands_text(
                    operands,
                    0,
                ) + " ]"@,
    {
        let mut operands = self.operands();
        let ghost all = operands@;
        let mut text = String::from_str("ϕ [");
        let mut first = true;
        let ghost mut at: int = 0;
        loop
            invariant
                0 <= at <= all.len(),
                operands@ == all.skip(at),
                first == (at == 0),
                text@ + operands_text(all, at) == "ϕ ["@ + operands_text(all, 0),
            ensures
                text@ == "ϕ ["@ + operands_text(all, 0),
            decreases all.len() - at,
        {
            match operands.next() {
                Some((block, value)) => {
                    let ghost before = text@;
                    if first {
                        text.append(" ");
                    } else {
                        text.append(", ");
                    }
                    first = false;
                    let block_text = block.to_string();
                    text.append(block_text.as_str());
                    text.append(" -> ");
                    let value_text = value.to_string();
                    text.append(value_text.as_str());
                    proof {
                        assert(all.skip(at)[0] == all[at]);
                        assert(all.skip(at).drop_first() =~= all.skip(at + 1));
                        assert(text@ + operands_text(all, at + 1) =~= before + operands_text(
                            all,
                            at,
                        ));
                        at = at + 1;
                    }
                },
                None => {
                    proof {
                        assert(at == all.len());
                        assert(text@ + operands_text(all, at) =~= text@);
                    }
                    break ;
                },
            }
        }
        text.append(" ]");
        proof {
            assert(lists_operands(all, self@));
        }
        text
    }
}

impl PhiInstr {
    /// Returns the text of the ϕ-instruction.
    pub fn to_string(&self) -> (text: String)
        ensures
            exists|operands: Seq<(Block, Value)>|
                lists_operands(operands, self.operands@) && text@ == "ϕ ["@
                    + #[trigger] operands_text(operands, 0) + " ]"@,
    {
        self.operands.to_string()
    }
}

} // verus!
