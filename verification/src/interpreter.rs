//! Evaluation of single instructions on a file of 64-bit registers, one
//! register for every value.

use crate::entity::index::Index32;
use crate::entity::vec::ComponentVec;
use crate::instruction::{
    BinaryIntInstr,
    BinaryIntOp,
    BranchInstr,
    CompareIntInstr,
    CompareIntOp,
    ConstInstr,
    IfThenElseInstr,
    Instruction,
    IntInstr,
    PhiInstr,
    ReinterpretInstr,
    ReturnInstr,
    SelectInstr,
    TerminalInstr,
    UnaryIntInstr,
    UnaryIntOp,
};
use crate::primitive::{Block, IntType, Value};
use vstd::prelude::*;

verus! {

/// Errors of the evaluation of instructions.
#[derive(Debug, Copy, Clone, PartialEq, Eq)]
pub enum InterpretationError {
    /// The function returns another number of values than it declares.
    UnmatchingReturnValues { expected: usize, found: usize },
}

/// The state of an evaluation.
pub struct InterpretationState {
    /// The contents of the registers that have been written, by the index
    /// of the value. A register that has not been written reads as zero.
    pub registers: Map<u32, u64>,
    /// The block that is evaluated.
    pub current_block: Block,
    /// The block that was evaluated before, if any.
    pub last_block: Option<Block>,
    /// Whether the evaluation has ended in a trap.
    pub trapped: bool,
    /// The values that the function has returned, if it has.
    pub returned: Option<Seq<u64>>,
    /// The number of values that the function declares to return.
    pub len_outputs: nat,
}

impl InterpretationState {
    /// The content of the register of the value.
    pub open spec fn register(self, value: Value) -> u64 {
        if self.registers.contains_key(value.index()) {
            self.registers[value.index()]
        } else {
            0
        }
    }

    /// The state with the bits written to the register of the value.
    pub open spec fn written(self, value: Value, bits: u64) -> Self {
        InterpretationState { registers: self.registers.insert(value.index(), bits), ..self }
    }

    /// The state after control has passed to the block.
    pub open spec fn switched(self, block: Block) -> Self {
        InterpretationState {
            current_block: block,
            last_block: Some(self.current_block),
            ..self
        }
    }
}

/// The registers and the position of an evaluation.
pub struct InterpretationContext {
    registers: ComponentVec<Value, u64>,
    current_block: Block,
    last_block: Option<Block>,
    trapped: bool,
    returned: Option<Vec<u64>>,
    len_outputs: usize,
}

impl View for InterpretationContext {
    type V = InterpretationState;

    closed spec fn view(&self) -> InterpretationState {
        InterpretationState {
            registers: self.registers@,
            current_block: self.current_block,
            last_block: self.last_block,
            trapped: self.trapped,
            returned: match self.returned {
                Some(values) => Some(values@),
                None => None,
            },
            len_outputs: self.len_outputs as nat,
        }
    }
}

impl InterpretationContext {
    /// Creates the context of an evaluation that starts in the entry block
    /// of a function that returns the given number of values.
    pub fn new(entry: Block, len_outputs: usize) -> (ctx: Self)
        ensures
            ctx@ == (InterpretationState {
                registers: Map::empty(),
                current_block: entry,
                last_block: None,
                trapped: false,
                returned: None,
                len_outputs: len_outputs as nat,
            }),
    {
        Self {
            registers: ComponentVec::new(),
            current_block: entry,
            last_block: None,
            trapped: false,
            returned: None,
            len_outputs,
        }
    }

    /// Returns the content of the register of the value.
    pub fn read_register(&self, value: Value) -> (bits: u64)
        ensures
            bits == self@.register(value),
    {
        match self.registers.get(value) {
            Some(bits) => *bits,
            None => 0,
        }
    }

    /// Writes the bits to the register of the value.
    pub fn write_register(&mut self, value: Value, bits: u64)
        ensures
            final(self)@ == old(self)@.written(value, bits),
    {
        self.registers.insert(value, bits);
    }

    /// Returns the block that is evaluated.
    pub fn current_block(&self) -> (block: Block)
        ensures
            block == self@.current_block,
    {
        self.current_block
    }

    /// Returns the block that was evaluated before, if any.
    pub fn last_block(&self) -> (block: Option<Block>)
        ensures
            block == self@.last_block,
    {
        self.last_block
    }

    /// Passes control to the block.
    pub fn switch_to_block(&mut self, block: Block)
        ensures
            final(self)@ == old(self)@.switched(block),
    {
        self.last_block = Some(self.current_block);
        self.current_block = block;
    }

    /// Ends the evaluation in a trap.
    pub fn set_trapped(&mut self)
        ensures
            final(self)@ == (InterpretationState { trapped: true, ..old(self)@ }),
    {
        self.trapped = true;
    }

    /// Returns `true` if the evaluation has ended in a trap.
    pub fn has_trapped(&self) -> (trapped: bool)
        ensures
            trapped == self@.trapped,
    {
        self.trapped
    }

    /// Ends the evaluation with the given values as the results of the function.
    ///
    /// # Errors
    ///
    /// If the function declares another number of results.
    pub fn set_return_value(&mut self, values: &[u64]) -> (outcome: Result<
        (),
        InterpretationError,
    >)
        ensures
            match outcome {
                Ok(()) => values@.len() == old(self)@.len_outputs && final(self)@ == (
                InterpretationState { returned: Some(values@), ..old(self)@ }),
                Err(error) => values@.len() != old(self)@.len_outputs && final(self)@ == old(
                    self,
                )@ && error == (InterpretationError::UnmatchingReturnValues {
                    expected: old(self)@.len_outputs as usize,
                    found: values@.len() as usize,
                }),
            },
    {
        if values.len() != self.len_outputs {
            return Err(
                InterpretationError::UnmatchingReturnValues {
                    expected: self.len_outputs,
                    found: values.len(),
                },
            );
        }
        let mut returned: Vec<u64> = Vec::new();
        let mut i: usize = 0;
        while i < values.len()
            invariant
                i <= values@.len(),
                returned@ == values@.take(i as int),
            decreases values@.len() - i,
        {
            returned.push(values[i]);
            assert(values@.take(i + 1) =~= values@.take(i as int).push(values@[i as int]));
            i = i + 1;
        }
        assert(values@.take(i as int) =~= values@);
        self.returned = Some(returned);
        Ok(())
    }

    /// Returns the values that the function has returned, if it has.
    pub fn return_value(&self) -> (values: Option<&Vec<u64>>)
        ensures
            match values {
                Some(values) => self@.returned == Some(values@),
                None => self@.returned.is_none(),
            },
    {
        self.returned.as_ref()
    }
}

/// The number of different values of the integer type: two to the power of
/// its bit width.
pub open spec fn modulus(ty: IntType) -> int {
    match ty {
        IntType::I8 => 0x100,
        IntType::I16 => 0x1_0000,
        IntType::I32 => 0x1_0000_0000,
        IntType::I64 => 0x1_0000_0000_0000_0000,
    }
}

/// The unsigned integer of the type that the low bits of a register hold.
pub open spec fn unsigned(ty: IntType, bits: u64) -> int {
    bits as int % modulus(ty)
}

/// The signed integer of the type that the low bits of a register hold,
/// read in two's complement.
pub open spec fn signed(ty: IntType, bits: u64) -> int {
    if 2 * unsigned(ty, bits) >= modulus(ty) {
        unsigned(ty, bits) - modulus(ty)
    } else {
        unsigned(ty, bits)
    }
}

/// The unsigned integer of the type with the bits of the given number,
/// which is wrapped around where it is out of range.
pub open spec fn wrap(ty: IntType, number: int) -> int {
    number % modulus(ty)
}

/// The quotient of a division that rounds towards zero.
pub open spec fn truncated_div(dividend: int, divisor: int) -> int
    recommends
        divisor != 0,
{
    if dividend >= 0 && divisor > 0 {
        dividend / divisor
    } else if dividend < 0 && divisor < 0 {
        (-dividend) / (-divisor)
    } else if dividend < 0 {
        -((-dividend) / divisor)
    } else {
        -(dividend / (-divisor))
    }
}

/// The remainder of a division that rounds towards zero: it has the sign
/// of the dividend.
pub open spec fn truncated_rem(dividend: int, divisor: int) -> int
    recommends
        divisor != 0,
{
    dividend - divisor * truncated_div(dividend, divisor)
}

/// Whether the operand code divides by its right-hand side.
pub open spec fn divides(op: BinaryIntOp) -> bool {
    op is Sdiv || op is Udiv || op is Srem || op is Urem
}

/// The result of the binary integer operation on the low bits of two
/// registers, as an unsigned integer of the type.
pub open spec fn binary_int(op: BinaryIntOp, ty: IntType, lhs: u64, rhs: u64) -> int
    recommends
        divides(op) ==> unsigned(ty, rhs) != 0,
{
    match op {
        BinaryIntOp::Add => wrap(ty, unsigned(ty, lhs) + unsigned(ty, rhs)),
        BinaryIntOp::Sub => wrap(ty, unsigned(ty, lhs) - unsigned(ty, rhs)),
        BinaryIntOp::Mul => wrap(ty, unsigned(ty, lhs) * unsigned(ty, rhs)),
        BinaryIntOp::Sdiv => wrap(ty, truncated_div(signed(ty, lhs), signed(ty, rhs))),
        BinaryIntOp::Udiv => unsigned(ty, lhs) / unsigned(ty, rhs),
        BinaryIntOp::Srem => wrap(ty, truncated_rem(signed(ty, lhs), signed(ty, rhs))),
        BinaryIntOp::Urem => unsigned(ty, lhs) % unsigned(ty, rhs),
        BinaryIntOp::And => (unsigned(ty, lhs) as u64 & unsigned(ty, rhs) as u64) as int,
        BinaryIntOp::Or => (unsigned(ty, lhs) as u64 | unsigned(ty, rhs) as u64) as int,
        BinaryIntOp::Xor => (unsigned(ty, lhs) as u64 ^ unsigned(ty, rhs) as u64) as int,
    }
}

/// Whether the comparison holds of the low bits of two registers.
pub open spec fn compare_int(op: CompareIntOp, ty: IntType, lhs: u64, rhs: u64) -> bool {
    match op {
        CompareIntOp::Eq => unsigned(ty, lhs) == unsigned(ty, rhs),
        CompareIntOp::Ne => unsigned(ty, lhs) != unsigned(ty, rhs),
        CompareIntOp::Slt => signed(ty, lhs) < signed(ty, rhs),
        CompareIntOp::Sle => signed(ty, lhs) <= signed(ty, rhs),
        CompareIntOp::Sgt => signed(ty, lhs) > signed(ty, rhs),
        CompareIntOp::Sge => signed(ty, lhs) >= signed(ty, rhs),
        CompareIntOp::Ult => unsigned(ty, lhs) < unsigned(ty, rhs),
        CompareIntOp::Ule => unsigned(ty, lhs) <= unsigned(ty, rhs),
        CompareIntOp::Ugt => unsigned(ty, lhs) > unsigned(ty, rhs),
        CompareIntOp::Uge => unsigned(ty, lhs) >= unsigned(ty, rhs),
    }
}

/// Returns the number of different values of the integer type.
fn modulus_of(ty: IntType) -> (number: u128)
    ensures
        number == modulus(ty),
{
    match ty {
        IntType::I8 => 0x100,
        IntType::I16 => 0x1_0000,
        IntType::I32 => 0x1_0000_0000,
        IntType::I64 => 0x1_0000_0000_0000_0000,
    }
}

/// Returns the unsigned integer of the type that the low bits hold.
fn unsigned_of(ty: IntType, bits: u64) -> (number: u128)
    ensures
        number == unsigned(ty, bits),
        number < modulus(ty),
        number <= u64::MAX,
{
    (bits as u128) % modulus_of(ty)
}

/// Returns the signed integer of the type that the low bits hold.
fn signed_of(ty: IntType, bits: u64) -> (number: i128)
    ensures
        number == signed(ty, bits),
        -modulus(ty) <= 2 * number < modulus(ty),
{
    let number: u128 = unsigned_of(ty, bits);
    let range: u128 = modulus_of(ty);
    if 2 * number >= range {
        number as i128 - range as i128
    } else {
        number as i128
    }
}

/// Returns the unsigned integer of the type with the bits of the number.
fn wrap_signed(ty: IntType, number: i128) -> (wrapped: u64)
    requires
        -modulus(ty) <= number < modulus(ty),
    ensures
        wrapped == wrap(ty, number as int),
{
    let range: u128 = modulus_of(ty);
    if number < 0 {
        assert((number + modulus(ty)) % modulus(ty) == number as int % modulus(ty)) by {
            vstd::arithmetic::div_mod::lemma_mod_add_multiples_vanish(
                number as int,
                modulus(ty),
            );
        }
        assert((number + modulus(ty)) % modulus(ty) == number + modulus(ty)) by {
            vstd::arithmetic::div_mod::lemma_small_mod(
                (number + modulus(ty)) as nat,
                modulus(ty) as nat,
            );
        }
        (number + range as i128) as u64
    } else {
        assert(number as int % modulus(ty) == number) by {
            vstd::arithmetic::div_mod::lemma_small_mod(number as nat, modulus(ty) as nat);
        }
        number as u64
    }
}

/// Computes the binary integer operation on the low bits of two registers.
///
/// The operands are integers of the type `ty`; the result is an integer
/// of that type, extended with zeros. Arithmetic wraps around. The signed
/// operations read their operands in two's complement and round towards
/// zero.
pub fn compute_binary_int(op: BinaryIntOp, ty: IntType, lhs: u64, rhs: u64) -> (result: u64)
    requires
        divides(op) ==> unsigned(ty, rhs) != 0,
    ensures
        result == binary_int(op, ty, lhs, rhs),
{
    let range: u128 = modulus_of(ty);
    let a: u128 = unsigned_of(ty, lhs);
    let b: u128 = unsigned_of(ty, rhs);
    match op {
        BinaryIntOp::Add => ((a + b) % range) as u64,
        BinaryIntOp::Sub => {
            assert((a - b + modulus(ty)) % modulus(ty) == (a - b) % modulus(ty)) by {
                vstd::arithmetic::div_mod::lemma_mod_add_multiples_vanish(a - b, modulus(ty));
            }
            ((a + range - b) % range) as u64
        },
        BinaryIntOp::Mul => {
            assert(a * b <= u64::MAX * u64::MAX) by (nonlinear_arith)
                requires
                    a <= u64::MAX,
                    b <= u64::MAX,
            ;
            ((a * b) % range) as u64
        },
        BinaryIntOp::Udiv => (a / b) as u64,
        BinaryIntOp::Urem => (a % b) as u64,
        BinaryIntOp::Sdiv => {
            let sa: i128 = signed_of(ty, lhs);
            let sb: i128 = signed_of(ty, rhs);
            let quotient: i128 = match sa.checked_div(sb) {
                Some(quotient) => quotient,
                None => 0,
            };
            assert(quotient == truncated_div(sa as int, sb as int) && -modulus(ty) <= quotient
                < modulus(ty)) by {
                lemma_truncated_div_bound(sa as int, sb as int);
            }
            wrap_signed(ty, quotient)
        },
        BinaryIntOp::Srem => {
            let sa: i128 = signed_of(ty, lhs);
            let sb: i128 = signed_of(ty, rhs);
            let remainder: i128 = match sa.checked_rem(sb) {
                Some(remainder) => remainder,
                None => 0,
            };
            assert(remainder == truncated_rem(sa as int, sb as int) && -modulus(ty) <= remainder
                < modulus(ty)) by {
                lemma_truncated_rem_bound(sa as int, sb as int);
            }
            wrap_signed(ty, remainder)
        },
        BinaryIntOp::And => (a as u64) & (b as u64),
        BinaryIntOp::Or => (a as u64) | (b as u64),
        BinaryIntOp::Xor => (a as u64) ^ (b as u64),
    }
}

/// The quotient of a truncating division is no farther from zero than the dividend.
pub proof fn lemma_truncated_div_bound(dividend: int, divisor: int)
    requires
        divisor != 0,
    ensures
        dividend >= 0 ==> -dividend <= truncated_div(dividend, divisor) <= dividend,
        dividend < 0 ==> dividend <= truncated_div(dividend, divisor) <= -dividend,
{
    if dividend >= 0 && divisor > 0 {
        vstd::arithmetic::div_mod::lemma_div_pos_is_pos(dividend, divisor);
        vstd::arithmetic::div_mod::lemma_div_is_ordered_by_denominator(dividend, 1, divisor);
        vstd::arithmetic::div_mod::lemma_div_basics(dividend);
    } else if dividend < 0 && divisor < 0 {
        vstd::arithmetic::div_mod::lemma_div_pos_is_pos(-dividend, -divisor);
        vstd::arithmetic::div_mod::lemma_div_is_ordered_by_denominator(-dividend, 1, -divisor);
        vstd::arithmetic::div_mod::lemma_div_basics(-dividend);
    } else if dividend < 0 {
        vstd::arithmetic::div_mod::lemma_div_pos_is_pos(-dividend, divisor);
        vstd::arithmetic::div_mod::lemma_div_is_ordered_by_denominator(-dividend, 1, divisor);
        vstd::arithmetic::div_mod::lemma_div_basics(-dividend);
    } else {
        vstd::arithmetic::div_mod::lemma_div_pos_is_pos(dividend, -divisor);
        vstd::arithmetic::div_mod::lemma_div_is_ordered_by_denominator(dividend, 1, -divisor);
        vstd::arithmetic::div_mod::lemma_div_basics(dividend);
    }
}

/// The remainder of a truncating division is nearer to zero than the
/// divisor and has the sign of the dividend.
pub proof fn lemma_truncated_rem_bound(dividend: int, divisor: int)
    requires
        divisor != 0,
    ensures
        dividend >= 0 ==> 0 <= truncated_rem(dividend, divisor) <= dividend,
        dividend < 0 ==> dividend <= truncated_rem(dividend, divisor) <= 0,
        truncated_rem(dividend, divisor) == if dividend >= 0 && divisor > 0 {
            dividend % divisor
        } else if dividend < 0 && divisor < 0 {
            -((-dividend) % (-divisor))
        } else if dividend < 0 {
            -((-dividend) % divisor)
        } else {
            dividend % (-divisor)
        },
{
    let x = if dividend >= 0 {
        dividend
    } else {
        -dividend
    };
    let d = if divisor > 0 {
        divisor
    } else {
        -divisor
    };
    vstd::arithmetic::div_mod::lemma_fundamental_div_mod(x, d);
    vstd::arithmetic::div_mod::lemma_mod_bound(x, d);
    vstd::arithmetic::div_mod::lemma_div_pos_is_pos(x, d);
    assert(d * (x / d) >= 0) by (nonlinear_arith)
        requires
            d > 0,
            x / d >= 0,
    ;
    assert(divisor * truncated_div(dividend, divisor) == if dividend >= 0 {
        d * (x / d)
    } else {
        -(d * (x / d))
    }) by (nonlinear_arith)
        requires
            truncated_div(dividend, divisor) == if (dividend >= 0) == (divisor > 0) {
                x / d
            } else {
                -(x / d)
            },
            d == if divisor > 0 {
                divisor
            } else {
                -divisor
            },
    ;
}

/// Compares the low bits of two registers as integers of the type `ty`.
///
/// Returns one if the comparison holds and zero if it does not.
pub fn compute_compare_int(op: CompareIntOp, ty: IntType, lhs: u64, rhs: u64) -> (result: u64)
    ensures
        result == if compare_int(op, ty, lhs, rhs) {
            1u64
        } else {
            0u64
        },
{
    let a: u128 = unsigned_of(ty, lhs);
    let b: u128 = unsigned_of(ty, rhs);
    let sa: i128 = signed_of(ty, lhs);
    let sb: i128 = signed_of(ty, rhs);
    let holds = match op {
        CompareIntOp::Eq => a == b,
        CompareIntOp::Ne => a != b,
        CompareIntOp::Slt => sa < sb,
        CompareIntOp::Sle => sa <= sb,
        CompareIntOp::Sgt => sa > sb,
        CompareIntOp::Sge => sa >= sb,
        CompareIntOp::Ult => a < b,
        CompareIntOp::Ule => a <= b,
        CompareIntOp::Ugt => a > b,
        CompareIntOp::Uge => a >= b,
    };
    if holds {
        1
    } else {
        0
    }
}

/// Implemented by instructions to make them interpretable.
pub trait InterpretInstr {
    /// Whether the instruction can be evaluated in the state, into the
    /// register of `return_value` where it produces a value.
    spec fn is_interpretable(&self, return_value: Option<Value>, state: InterpretationState) -> bool;

    /// The state after the instruction has been evaluated, or the error
    /// that the evaluation ends in.
    spec fn interpreted(
        &self,
        return_value: Option<Value>,
        state: InterpretationState,
    ) -> Result<InterpretationState, InterpretationError>;

    /// Evaluates the instruction given the interpretation context.
    fn interpret_instr(&self, return_value: Option<Value>, ctx: &mut InterpretationContext) -> (outcome:
        Result<(), InterpretationError>)
        requires
            self.is_interpretable(return_value, old(ctx)@),
        ensures
            match outcome {
                Ok(()) => self.interpreted(return_value, old(ctx)@) == Ok::<
                    InterpretationState,
                    InterpretationError,
                >(final(ctx)@),
                Err(error) => self.interpreted(return_value, old(ctx)@) == Err::<
                    InterpretationState,
                    InterpretationError,
                >(error) && final(ctx)@ == old(ctx)@,
            },
    ;
}

impl InterpretInstr for ConstInstr {
    open spec fn is_interpretable(
        &self,
        return_value: Option<Value>,
        state: InterpretationState,
    ) -> bool {
        return_value.is_some()
    }

    open spec fn interpreted(
        &self,
        return_value: Option<Value>,
        state: InterpretationState,
    ) -> Result<InterpretationState, InterpretationError> {
        Ok(state.written(return_value.unwrap(), self.const_value.bits64()))
    }

    fn interpret_instr(&self, return_value: Option<Value>, ctx: &mut InterpretationContext) -> (outcome:
        Result<(), InterpretationError>) {
        let return_value = return_value.unwrap();
        ctx.write_register(return_value, self.const_value.into_bits64());
        Ok(())
    }
}

impl InterpretInstr for PhiInstr {
    open spec fn is_interpretable(
        &self,
        return_value: Option<Value>,
        state: InterpretationState,
    ) -> bool {
        &&& return_value.is_some()
        &&& state.last_block matches Some(block)
        &&& self.operands@.contains_key(block.index())
    }

    open spec fn interpreted(
        &self,
        return_value: Option<Value>,
        state: InterpretationState,
    ) -> Result<InterpretationState, InterpretationError> {
        Ok(
            state.written(
                return_value.unwrap(),
                state.register(self.operands@[state.last_block.unwrap().index()]),
            ),
        )
    }

    fn interpret_instr(&self, return_value: Option<Value>, ctx: &mut InterpretationContext) -> (outcome:
        Result<(), InterpretationError>) {
        let return_value = return_value.unwrap();
        let last_block = ctx.last_block().unwrap();
        let operand = self.operand_for(last_block).unwrap();
        let bits = ctx.read_register(operand);
        ctx.write_register(return_value, bits);
        Ok(())
    }
}

impl InterpretInstr for SelectInstr {
    open spec fn is_interpretable(
        &self,
        return_value: Option<Value>,
        state: InterpretationState,
    ) -> bool {
        return_value.is_some()
    }

    open spec fn interpreted(
        &self,
        return_value: Option<Value>,
        state: InterpretationState,
    ) -> Result<InterpretationState, InterpretationError> {
        Ok(
            state.written(
                return_value.unwrap(),
                if state.register(self.condition) != 0 {
                    state.register(self.value_true)
                } else {
                    state.register(self.value_false)
                },
            ),
        )
    }

    fn interpret_instr(&self, return_value: Option<Value>, ctx: &mut InterpretationContext) -> (outcome:
        Result<(), InterpretationError>) {
        let return_value = return_value.unwrap();
        let condition = ctx.read_register(self.condition);
        let selected = if condition != 0 {
            self.value_true
        } else {
            self.value_false
        };
        let bits = ctx.read_register(selected);
        ctx.write_register(return_value, bits);
        Ok(())
    }
}

impl InterpretInstr for ReinterpretInstr {
    open spec fn is_interpretable(
        &self,
        return_value: Option<Value>,
        state: InterpretationState,
    ) -> bool {
        return_value.is_some()
    }

    open spec fn interpreted(
        &self,
        return_value: Option<Value>,
        state: InterpretationState,
    ) -> Result<InterpretationState, InterpretationError> {
        Ok(state.written(return_value.unwrap(), state.register(self.src)))
    }

    fn interpret_instr(&self, return_value: Option<Value>, ctx: &mut InterpretationContext) -> (outcome:
        Result<(), InterpretationError>) {
        let return_value = return_value.unwrap();
        // Reinterpretation just moves from one register to the other.
        let bits = ctx.read_register(self.src);
        ctx.write_register(return_value, bits);
        Ok(())
    }
}

impl InterpretInstr for ReturnInstr {
    open spec fn is_interpretable(
        &self,
        return_value: Option<Value>,
        state: InterpretationState,
    ) -> bool {
        true
    }

    open spec fn interpreted(
        &self,
        return_value: Option<Value>,
        state: InterpretationState,
    ) -> Result<InterpretationState, InterpretationError> {
        let values = match self.return_value {
            Some(value) => seq![state.register(value)],
            None => Seq::empty(),
        };
        if state.len_outputs == values.len() {
            Ok(InterpretationState { returned: Some(values), ..state })
        } else {
            Err(
                InterpretationError::UnmatchingReturnValues {
                    expected: state.len_outputs as usize,
                    found: values.len() as usize,
                },
            )
        }
    }

    fn interpret_instr(&self, _return_value: Option<Value>, ctx: &mut InterpretationContext) -> (outcome:
        Result<(), InterpretationError>) {
        let mut values: Vec<u64> = Vec::new();
        match self.return_value {
            Some(value) => {
                let bits = ctx.read_register(value);
                values.push(bits);
                assert(values@ =~= seq![bits]);
            },
            None => {},
        }
        ctx.set_return_value(values.as_slice())
    }
}

impl InterpretInstr for BranchInstr {
    open spec fn is_interpretable(
        &self,
        return_value: Option<Value>,
        state: InterpretationState,
    ) -> bool {
        true
    }

    open spec fn interpreted(
        &self,
        return_value: Option<Value>,
        state: InterpretationState,
    ) -> Result<InterpretationState, InterpretationError> {
        Ok(state.switched(self.target))
    }

    fn interpret_instr(&self, _return_value: Option<Value>, ctx: &mut InterpretationContext) -> (outcome:
        Result<(), InterpretationError>) {
        ctx.switch_to_block(self.target);
        Ok(())
    }
}

impl InterpretInstr for IfThenElseInstr {
    open spec fn is_interpretable(
        &self,
        return_value: Option<Value>,
        state: InterpretationState,
    ) -> bool {
        true
    }

    open spec fn interpreted(
        &self,
        return_value: Option<Value>,
        state: InterpretationState,
    ) -> Result<InterpretationState, InterpretationError> {
        Ok(
            state.switched(
                if state.register(self.condition) != 0 {
                    self.then_target
                } else {
                    self.else_target
                },
            ),
        )
    }

    fn interpret_instr(&self, _return_value: Option<Value>, ctx: &mut InterpretationContext) -> (outcome:
        Result<(), InterpretationError>) {
        let condition = ctx.read_register(self.condition);
        let target = if condition != 0 {
            self.then_target
        } else {
            self.else_target
        };
        ctx.switch_to_block(target);
        Ok(())
    }
}

impl InterpretInstr for TerminalInstr {
    open spec fn is_interpretable(
        &self,
        return_value: Option<Value>,
        state: InterpretationState,
    ) -> bool {
        *self is Trap || *self is Return || *self is Br || *self is Ite
    }

    open spec fn interpreted(
        &self,
        return_value: Option<Value>,
        state: InterpretationState,
    ) -> Result<InterpretationState, InterpretationError> {
        match *self {
            TerminalInstr::Return(instr) => instr.interpreted(return_value, state),
            TerminalInstr::Br(instr) => instr.interpreted(return_value, state),
            TerminalInstr::Ite(instr) => instr.interpreted(return_value, state),
            _ => Ok(InterpretationState { trapped: true, ..state }),
        }
    }

    fn interpret_instr(&self, return_value: Option<Value>, ctx: &mut InterpretationContext) -> (outcome:
        Result<(), InterpretationError>) {
        match self {
            TerminalInstr::Trap => {
                ctx.set_trapped();
                Ok(())
            },
            TerminalInstr::Return(instr) => instr.interpret_instr(return_value, ctx),
            TerminalInstr::Br(instr) => instr.interpret_instr(return_value, ctx),
            TerminalInstr::Ite(instr) => instr.interpret_instr(return_value, ctx),
            _ => vstd::pervasive::unreached(),
        }
    }
}

/// The number of bits of the number that are set.
pub open spec fn count_ones(bits: nat) -> nat
    decreases bits,
{
    if bits == 0 {
        0
    } else {
        bits % 2 + count_ones(bits / 2)
    }
}

/// Counts the bits of a register that are set.
pub fn compute_count_ones(bits: u64) -> (count: u32)
    ensures
        count == count_ones(bits as nat),
        count <= 64,
{
    let mut rest: u64 = bits;
    let mut count: u32 = 0;
    let mut steps: u32 = 0;
    proof {
        vstd::arithmetic::power2::lemma2_to64();
        assert(rest as nat * 1 == rest as nat);
    }
    while rest != 0
        invariant
            count + count_ones(rest as nat) == count_ones(bits as nat),
            count <= steps <= 64,
            rest as nat * vstd::arithmetic::power2::pow2(steps as nat) <= u64::MAX,
        decreases rest,
    {
        proof {
            vstd::arithmetic::power2::lemma_pow2_unfold((steps + 1) as nat);
            vstd::arithmetic::power2::lemma_pow2_pos(steps as nat);
            if steps == 64 {
                vstd::arithmetic::power2::lemma2_to64_rest();
                assert(rest as nat * vstd::arithmetic::power2::pow2(64) > u64::MAX)
                    by (nonlinear_arith)
                    requires
                        rest >= 1,
                        vstd::arithmetic::power2::pow2(64) == 0x1_0000_0000_0000_0000,
                ;
            }
            assert((rest / 2) as nat * (2 * vstd::arithmetic::power2::pow2(steps as nat))
                <= rest as nat * vstd::arithmetic::power2::pow2(steps as nat)) by (nonlinear_arith)
                requires
                    (rest / 2) * 2 <= rest,
                    vstd::arithmetic::power2::pow2(steps as nat) > 0,
            ;
        }
        count = count + (rest % 2) as u32;
        rest = rest / 2;
        steps = steps + 1;
    }
    count
}

/// The result of the unary integer operation on a register.
pub open spec fn unary_int(op: UnaryIntOp, bits: u64) -> u64 {
    match op {
        UnaryIntOp::LeadingZeros => vstd::std_specs::bits::u64_leading_zeros(bits) as u64,
        UnaryIntOp::TrailingZeros => vstd::std_specs::bits::u64_trailing_zeros(bits) as u64,
        UnaryIntOp::PopCount => count_ones(bits as nat) as u64,
    }
}

impl InterpretInstr for UnaryIntInstr {
    open spec fn is_interpretable(
        &self,
        return_value: Option<Value>,
        state: InterpretationState,
    ) -> bool {
        return_value.is_some()
    }

    open spec fn interpreted(
        &self,
        return_value: Option<Value>,
        state: InterpretationState,
    ) -> Result<InterpretationState, InterpretationError> {
        Ok(state.written(return_value.unwrap(), unary_int(self.op, state.register(self.src))))
    }

    fn interpret_instr(&self, return_value: Option<Value>, ctx: &mut InterpretationContext) -> (outcome:
        Result<(), InterpretationError>) {
        let return_value = return_value.unwrap();
        let source = ctx.read_register(self.src);
        let result: u32 = match self.op {
            UnaryIntOp::LeadingZeros => source.leading_zeros(),
            UnaryIntOp::TrailingZeros => source.trailing_zeros(),
            UnaryIntOp::PopCount => compute_count_ones(source),
        };
        ctx.write_register(return_value, result as u64);
        Ok(())
    }
}

impl InterpretInstr for CompareIntInstr {
    open spec fn is_interpretable(
        &self,
        return_value: Option<Value>,
        state: InterpretationState,
    ) -> bool {
        return_value.is_some()
    }

    open spec fn interpreted(
        &self,
        return_value: Option<Value>,
        state: InterpretationState,
    ) -> Result<InterpretationState, InterpretationError> {
        Ok(
            state.written(
                return_value.unwrap(),
                if compare_int(
                    self.op,
                    self.int_type,
                    state.register(self.lhs),
                    state.register(self.rhs),
                ) {
                    1u64
                } else {
                    0u64
                },
            ),
        )
    }

    fn interpret_instr(&self, return_value: Option<Value>, ctx: &mut InterpretationContext) -> (outcome:
        Result<(), InterpretationError>) {
        let return_value = return_value.unwrap();
        let lhs = ctx.read_register(self.lhs);
        let rhs = ctx.read_register(self.rhs);
        let result = compute_compare_int(self.op, self.int_type, lhs, rhs);
        ctx.write_register(return_value, result);
        Ok(())
    }
}

impl InterpretInstr for BinaryIntInstr {
    open spec fn is_interpretable(
        &self,
        return_value: Option<Value>,
        state: InterpretationState,
    ) -> bool {
        &&& return_value.is_some()
        &&& divides(self.op) ==> unsigned(self.ty, state.register(self.rhs)) != 0
    }

    open spec fn interpreted(
        &self,
        return_value: Option<Value>,
        state: InterpretationState,
    ) -> Result<InterpretationState, InterpretationError> {
        Ok(
            state.written(
                return_value.unwrap(),
                binary_int(
                    self.op,
                    self.ty,
                    state.register(self.lhs),
                    state.register(self.rhs),
                ) as u64,
            ),
        )
    }

    fn interpret_instr(&self, return_value: Option<Value>, ctx: &mut InterpretationContext) -> (outcome:
        Result<(), InterpretationError>) {
        let return_value = return_value.unwrap();
        let lhs = ctx.read_register(self.lhs);
        let rhs = ctx.read_register(self.rhs);
        let result = compute_binary_int(self.op, self.ty, lhs, rhs);
        ctx.write_register(return_value, result);
        Ok(())
    }
}

impl InterpretInstr for IntInstr {
    open spec fn is_interpretable(
        &self,
        return_value: Option<Value>,
        state: InterpretationState,
    ) -> bool {
        match *self {
            IntInstr::Binary(instr) => instr.is_interpretable(return_value, state),
            IntInstr::Unary(instr) => instr.is_interpretable(return_value, state),
            IntInstr::Compare(instr) => instr.is_interpretable(return_value, state),
            _ => false,
        }
    }

    open spec fn interpreted(
        &self,
        return_value: Option<Value>,
        state: InterpretationState,
    ) -> Result<InterpretationState, InterpretationError> {
        match *self {
            IntInstr::Binary(instr) => instr.interpreted(return_value, state),
            IntInstr::Unary(instr) => instr.interpreted(return_value, state),
            IntInstr::Compare(instr) => instr.interpreted(return_value, state),
            _ => Ok(state),
        }
    }

    fn interpret_instr(&self, return_value: Option<Value>, ctx: &mut InterpretationContext) -> (outcome:
        Result<(), InterpretationError>) {
        match self {
            IntInstr::Binary(instr) => instr.interpret_instr(return_value, ctx),
            IntInstr::Unary(instr) => instr.interpret_instr(return_value, ctx),
            IntInstr::Compare(instr) => instr.interpret_instr(return_value, ctx),
            _ => vstd::pervasive::unreached(),
        }
    }
}

impl InterpretInstr for Instruction {
    open spec fn is_interpretable(
        &self,
        return_value: Option<Value>,
        state: InterpretationState,
    ) -> bool {
        match *self {
            Instruction::Const(instr) => instr.is_interpretable(return_value, state),
            Instruction::Phi(instr) => instr.is_interpretable(return_value, state),
            Instruction::Select(instr) => instr.is_interpretable(return_value, state),
            Instruction::Reinterpret(instr) => instr.is_interpretable(return_value, state),
            Instruction::Terminal(instr) => instr.is_interpretable(return_value, state),
            Instruction::Int(instr) => instr.is_interpretable(return_value, state),
            _ => false,
        }
    }

    open spec fn interpreted(
        &self,
        return_value: Option<Value>,
        state: InterpretationState,
    ) -> Result<InterpretationState, InterpretationError> {
        match *self {
            Instruction::Const(instr) => instr.interpreted(return_value, state),
            Instruction::Phi(instr) => instr.interpreted(return_value, state),
            Instruction::Select(instr) => instr.interpreted(return_value, state),
            Instruction::Reinterpret(instr) => instr.interpreted(return_value, state),
            Instruction::Terminal(instr) => instr.interpreted(return_value, state),
            Instruction::Int(instr) => instr.interpreted(return_value, state),
            _ => Ok(state),
        }
    }

    fn interpret_instr(&self, return_value: Option<Value>, ctx: &mut InterpretationContext) -> (outcome:
        Result<(), InterpretationError>) {
        match self {
            Instruction::Const(instr) => instr.interpret_instr(return_value, ctx),
            Instruction::Phi(instr) => instr.interpret_instr(return_value, ctx),
            Instruction::Select(instr) => instr.interpret_instr(return_value, ctx),
            Instruction::Reinterpret(instr) => instr.interpret_instr(return_value, ctx),
            Instruction::Terminal(instr) => instr.interpret_instr(return_value, ctx),
            Instruction::Int(instr) => instr.interpret_instr(return_value, ctx),
            _ => vstd::pervasive::unreached(),
        }
    }
}

impl Instruction {
    /// Evaluates the instruction given the interpretation context.
    ///
    /// The value that the instruction produces is written to the register
    /// of `value`.
    pub fn interpret(&self, value: Option<Value>, ctx: &mut InterpretationContext) -> (outcome:
        Result<(), InterpretationError>)
        requires
            self.is_interpretable(value, old(ctx)@),
        ensures
            match outcome {
                Ok(()) => self.interpreted(value, old(ctx)@) == Ok::<
                    InterpretationState,
                    InterpretationError,
                >(final(ctx)@),
                Err(error) => self.interpreted(value, old(ctx)@) == Err::<
                    InterpretationState,
                    InterpretationError,
                >(error) && final(ctx)@ == old(ctx)@,
            },
    {
        self.interpret_instr(value, ctx)
    }
}

} // verus!
