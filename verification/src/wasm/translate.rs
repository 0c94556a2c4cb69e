//! The translator: emulates the operand stack and the structured control
//! flow of WebAssembly and drives the function builder.

use crate::builder::function::{Function, FunctionBuilder};
use crate::builder::model::FunctionModel;
use crate::builder::state;
use crate::entity::index::Index32;
use crate::error::{IrError, WasmError};
use crate::primitive::{Block, FloatConst, FloatType, IntConst, IntType, Type, Value, Variable, F32, F64};
use crate::wasm::operator::{BlockType, Operator, WasmType};
use crate::wasm::stack::{ValueEntry, ValueStack};
use vstd::prelude::*;

verus! {

/// The kind of a control frame.
#[derive(Debug, Copy, Clone, PartialEq, Eq, Structural)]
pub enum ControlKind {
    /// The body of the function.
    Function,
    /// A `block`.
    Block,
    /// A `loop`.
    Loop,
    /// The first branch of an `if`.
    If,
    /// The second branch of an `if`.
    Else,
}

/// A frame of structured control flow that is open.
#[derive(Debug, Copy, Clone)]
pub struct ControlFrame {
    /// The kind of the frame.
    pub kind: ControlKind,
    /// The block that a branch to the frame leads to: the head of a loop,
    /// the block behind the end of any other frame.
    pub target: Block,
    /// The block behind the end of the frame.
    pub end: Block,
    /// The block of the second branch of an `if`.
    pub alternative: Block,
    /// The variable that carries the result of the frame to its end, and
    /// the type of the result.
    pub result: Option<(Variable, Type)>,
    /// The height of the stack where the frame was entered.
    pub height: usize,
    /// Whether control can reach the frame.
    pub live: bool,
}

impl ControlFrame {
    /// Whether the frame is a frame of the given kind that control can
    /// reach, with the block of the given index behind its end and as the
    /// target of branches, entered at the given height of the stack.
    pub open spec fn opens(
        self,
        kind: ControlKind,
        end: nat,
        result: Option<(Variable, Type)>,
        height: nat,
    ) -> bool {
        &&& self.kind == kind
        &&& self.target.index() == end
        &&& self.end.index() == end
        &&& self.alternative.index() == end
        &&& self.result == result
        &&& self.height == height
        &&& self.live
    }
}

/// The state of the translation of one function body.
///
/// Every local variable of the function is a variable of the builder, the
/// parameters first. The operand stack holds SSA values. Every frame of
/// structured control flow has its basic blocks; a result that a frame
/// leaves on the stack is carried to the end of the frame by a variable.
pub struct ValueNumbering {
    /// The builder of the function.
    pub builder: FunctionBuilder<state::Body>,
    /// The emulated operand stack.
    pub stack: ValueStack,
    /// The open control frames, the innermost last.
    pub control: Vec<ControlFrame>,
    /// The number of local variables, the parameters among them.
    pub len_locals: u32,
    /// The index of the variable for the result of the next frame that
    /// leaves one.
    pub next_result: u32,
    /// Whether control can reach the operator that is pushed next.
    pub reachable: bool,
    /// Whether the body of the function has ended.
    pub done: bool,
}

/// The number of variables in the runs of local variables.
pub open spec fn count_locals(locals: Seq<(u32, WasmType)>) -> nat
    decreases locals.len(),
{
    if locals.len() == 0 {
        0
    } else {
        count_locals(locals.drop_last()) + locals.last().0 as nat
    }
}

/// The number of operators that open a control frame with a result.
pub open spec fn count_results(body: Seq<Operator>) -> nat
    decreases body.len(),
{
    if body.len() == 0 {
        0
    } else {
        count_results(body.drop_last()) + if opens_result(body.last()) {
            1nat
        } else {
            0nat
        }
    }
}

/// Whether the operator opens a control frame that leaves a result.
pub open spec fn opens_result(operator: Operator) -> bool {
    match operator {
        Operator::Block { ty } => ty is Value,
        Operator::Loop { ty } => ty is Value,
        Operator::If { ty } => ty is Value,
        _ => false,
    }
}

/// The types of the IR that stand for the value types.
pub open spec fn ir_types(types: Seq<WasmType>) -> Seq<Type> {
    Seq::new(types.len(), |i: int| types[i].ir_type())
}

/// The types of the variables in the runs of local variables, in order.
pub open spec fn local_types(locals: Seq<(u32, WasmType)>) -> Seq<Type>
    decreases locals.len(),
{
    if locals.len() == 0 {
        Seq::empty()
    } else {
        local_types(locals.drop_last()) + Seq::new(
            locals.last().0 as nat,
            |i: int| locals.last().1.ir_type(),
        )
    }
}

/// The type of the result that the control frame leaves which the
/// operator opens, if it opens one that leaves a result.
pub open spec fn result_type(operator: Operator) -> Option<WasmType> {
    match operator {
        Operator::Block { ty: BlockType::Value(ty) } => Some(ty),
        Operator::Loop { ty: BlockType::Value(ty) } => Some(ty),
        Operator::If { ty: BlockType::Value(ty) } => Some(ty),
        _ => None,
    }
}

/// The types of the results of the control frames that the operators
/// open, in order.
pub open spec fn result_types(body: Seq<Operator>) -> Seq<Type>
    decreases body.len(),
{
    if body.len() == 0 {
        Seq::empty()
    } else {
        result_types(body.drop_last()) + match result_type(body.last()) {
            Some(ty) => seq![ty.ir_type()],
            None => Seq::empty(),
        }
    }
}

/// The types of the variables that the translation of a function needs,
/// in the order of the variables: the parameters, the local variables,
/// the result of the function and the results of the control frames.
pub open spec fn variable_types(
    inputs: Seq<WasmType>,
    outputs: Seq<WasmType>,
    locals: Seq<(u32, WasmType)>,
    body: Seq<Operator>,
) -> Seq<Type> {
    ir_types(inputs) + local_types(locals) + ir_types(outputs) + result_types(body)
}

/// The number of variables that the translation of a function needs: one
/// for every parameter, for every local variable, for the result of the
/// function and for the result of every control frame.
pub open spec fn count_variables(
    inputs: Seq<WasmType>,
    outputs: Seq<WasmType>,
    locals: Seq<(u32, WasmType)>,
    body: Seq<Operator>,
) -> nat {
    inputs.len() + count_locals(locals) + outputs.len() + count_results(body)
}

/// The first runs of local variables hold no more variables than all runs.
pub proof fn lemma_count_locals_take(locals: Seq<(u32, WasmType)>, len: int)
    requires
        0 <= len <= locals.len(),
    ensures
        count_locals(locals.take(len)) <= count_locals(locals),
    decreases locals.len() - len,
{
    if len < locals.len() {
        lemma_count_locals_take(locals, len + 1);
        assert(locals.take(len + 1).drop_last() =~= locals.take(len));
    } else {
        assert(locals.take(len) =~= locals);
    }
}

/// The first operators open no more control frames with a result than all
/// operators.
pub proof fn lemma_count_results_take(body: Seq<Operator>, len: int)
    requires
        0 <= len <= body.len(),
    ensures
        count_results(body.take(len)) <= count_results(body),
    decreases body.len() - len,
{
    if len < body.len() {
        lemma_count_results_take(body, len + 1);
        assert(body.take(len + 1).drop_last() =~= body.take(len));
    } else {
        assert(body.take(len) =~= body);
    }
}

/// Returns the types of the IR that stand for the value types.
pub fn into_types(types: &[WasmType]) -> (converted: Vec<Type>)
    ensures
        converted@.len() == types@.len(),
        forall|i: int| 0 <= i < types@.len() ==> converted@[i] == (#[trigger] types@[i]).ir_type(),
{
    let mut converted: Vec<Type> = Vec::new();
    let mut i: usize = 0;
    while i < types.len()
        invariant
            i <= types@.len(),
            converted@.len() == i,
            forall|j: int| 0 <= j < i ==> converted@[j] == (#[trigger] types@[j]).ir_type(),
        decreases types@.len() - i,
    {
        converted.push(types[i].into_type());
        i = i + 1;
    }
    converted
}

impl ValueNumbering {
    /// Whether the blocks of the frame are blocks of the function, if
    /// control can reach the frame.
    pub open spec fn frame_wf(&self, frame: ControlFrame) -> bool {
        frame.live ==> {
            &&& self.builder@.has_block(frame.target)
            &&& self.builder@.has_block(frame.end)
            &&& self.builder@.has_block(frame.alternative)
        }
    }

    /// The builder is well formed, the frames belong to its function, and
    /// code is appended to an unfilled block.
    pub open spec fn wf(&self) -> bool {
        &&& self.builder.wf()
        &&& forall|i: int| 0 <= i < self.control@.len() ==> self.frame_wf(#[trigger] self.control@[i])
        &&& forall|i: int|
            0 <= i < self.stack@.len() ==> self.builder@.has_value((#[trigger] self.stack@[i]).value)
        &&& self.reachable ==> !self.builder@.block(self.builder@.current).filled
    }

    /// Whether the function has room for what one operator can add to it.
    pub open spec fn has_room(&self) -> bool {
        Self::fits(self.builder@)
    }

    /// Whether the function has room for what one operator can add to it
    /// and for `more` instructions and values besides.
    pub open spec fn room_for(&self, more: nat) -> bool {
        Self::fits_with(self.builder@, more)
    }

    /// Returns `true` if the function has room for what one operator can
    /// add to it and for `more` instructions and values besides.
    pub fn check_room_for(&self, more: u8) -> (room: bool)
        ensures
            room == self.room_for(more as nat),
    {
        let blocks = self.builder.ctx.len_blocks() as u128;
        let instrs = self.builder.ctx.len_instrs() as u128;
        let values = self.builder.ctx.len_values() as u128;
        blocks + 8 < u32::MAX as u128 && instrs + blocks + 16 + (more as u128) < u32::MAX as u128
            && values + blocks + 16 + (more as u128) < u32::MAX as u128
    }

    /// Returns `true` if the function has room for what one operator can add to it.
    pub fn check_room(&self) -> (room: bool)
        ensures
            room == self.has_room(),
    {
        let blocks = self.builder.ctx.len_blocks() as u128;
        let instrs = self.builder.ctx.len_instrs() as u128;
        let values = self.builder.ctx.len_values() as u128;
        blocks + 8 < u32::MAX as u128 && instrs + blocks + 16 < u32::MAX as u128 && values + blocks
            + 16 < u32::MAX as u128
    }

    /// Whether the translation of the body of the function with the given
    /// parameters, results and local variables starts in this state: no
    /// operator is pushed yet, the stack is empty, the body of the
    /// function is the one open frame, and the function has a variable
    /// for every local variable, for its result and for the result of
    /// every frame of the body, each of the type of what it stands for.
    pub open spec fn started(
        &self,
        inputs: Seq<WasmType>,
        outputs: Seq<WasmType>,
        locals: Seq<(u32, WasmType)>,
        body: Seq<Operator>,
    ) -> bool {
        &&& self.wf()
        &&& self.reachable
        &&& !self.done
        &&& self.control@.len() == 1
        &&& self.stack@ == Seq::<ValueEntry>::empty()
        &&& self.len_locals == inputs.len() + count_locals(locals)
        &&& self.next_result == self.len_locals + outputs.len()
        &&& self.builder@.vars.types.len() == count_variables(inputs, outputs, locals, body)
        &&& self.builder@.vars.types == variable_types(inputs, outputs, locals, body)
        &&& self.builder@.inputs.len() == inputs.len()
        &&& forall|i: int|
            0 <= i < inputs.len() ==> self.builder@.inputs[i] == (#[trigger] inputs[i]).ir_type()
        &&& self.starts_in_entry(inputs, outputs, locals)
    }

    /// Whether the function is as it is before the first operator is
    /// pushed. It has two blocks. The entry block is the current block; it
    /// is sealed and holds a constant zero for every local variable that
    /// is no parameter. Every local variable has a definition in it: the
    /// parameters their values, the others zero. The other block lies
    /// behind the end of the body of the function and is the target of the
    /// one open frame, which carries the result of the function.
    pub open spec fn starts_in_entry(
        &self,
        inputs: Seq<WasmType>,
        outputs: Seq<WasmType>,
        locals: Seq<(u32, WasmType)>,
    ) -> bool {
        let entry = self.builder@.blocks[0];
        &&& self.builder@.blocks.len() == 2
        &&& self.builder@.current.index() == 0
        &&& entry.sealed
        &&& !entry.filled
        &&& entry.preds.len() == 0
        &&& entry.phis.len() == 0
        &&& entry.instrs.len() == count_locals(locals)
        &&& self.builder@.blocks[1] == crate::builder::model::BlockModel::empty()
        &&& self.builder@.instrs.len() == count_locals(locals)
        &&& self.builder@.value_type.len() == inputs.len() + count_locals(locals)
        &&& self.builder@.phi_block == Map::<u32, Block>::empty()
        &&& forall|local: u32|
            local < self.len_locals ==> #[trigger] self.builder@.vars.defs.contains_key(
                (local, 0u32),
            )
        &&& self.control@[0].opens(
            ControlKind::Function,
            1,
            if outputs.len() == 1 {
                Some((Variable::at(self.len_locals), outputs[0].ir_type()))
            } else {
                None
            },
            0,
        )
    }

    /// Starts the translation of a function body.
    ///
    /// The function has the given parameters and results, at most one. Its
    /// local variables are the parameters followed by the given runs of
    /// variables of one type, which start as zero. The result of the
    /// function and of every control frame of the body that leaves a result
    /// gets a variable of its own.
    ///
    /// # Errors
    ///
    /// - If the function has more than one result.
    /// - If the function needs more variables than a function can hold.
    pub fn new(
        inputs: &[WasmType],
        outputs: &[WasmType],
        locals: &[(u32, WasmType)],
        body: &[Operator],
    ) -> (outcome: Result<Self, IrError>)
        ensures
            match outcome {
                Ok(translator) => {
                    &&& outputs@.len() <= 1
                    &&& count_variables(inputs@, outputs@, locals@, body@)
                        <= crate::builder::variable::MAX_VARIABLES
                    &&& translator.started(inputs@, outputs@, locals@, body@)
                },
                Err(error) => if outputs@.len() > 1 {
                    error == IrError::Wasm(WasmError::UnsupportedOperator)
                } else {
                    &&& count_variables(inputs@, outputs@, locals@, body@)
                        > crate::builder::variable::MAX_VARIABLES
                    &&& error == IrError::FunctionBuilder(
                        crate::error::FunctionBuilderError::TooManyVariableDeclarations,
                    )
                },
            },
    {
        if outputs.len() > 1 {
            return Err(IrError::Wasm(WasmError::UnsupportedOperator));
        }
        let input_types = into_types(inputs);
        let output_types = into_types(outputs);
        let builder = Function::build();
        let ghost initial = builder@;
        let builder = match builder.with_inputs(input_types.as_slice()) {
            Ok(builder) => builder,
            Err(error) => {
                return Err(error);
            },
        };
        proof {
            lemma_with_inputs_len(initial, input_types@);
            lemma_with_inputs_defs(initial, input_types@);
            assert(initial.inputs + input_types@ =~= input_types@);
            assert(initial.vars.types + input_types@ =~= input_types@);
        }
        let mut builder = match builder.with_outputs(output_types.as_slice()) {
            Ok(builder) => builder,
            Err(error) => {
                return Err(error);
            },
        };
        let len_inputs = builder.ctx.vars.len_vars();
        // The local variables of the function.
        let mut i: usize = 0;
        while i < locals.len()
            invariant
                i <= locals@.len(),
                outputs@.len() <= 1,
                builder.wf(),
                builder@.inputs == input_types@,
                builder@.is_empty_body(),
                builder@.value_type.len() == inputs@.len(),
                builder@.vars.types.len() == inputs@.len() + count_locals(locals@.take(i as int)),
                builder@.vars.types == ir_types(inputs@) + local_types(locals@.take(i as int)),
                builder@.vars.types.len() <= crate::builder::variable::MAX_VARIABLES,
                len_inputs == inputs@.len(),
                builder@.phi_block == Map::<u32, Block>::empty(),
                forall|local: u32|
                    local < len_inputs ==> #[trigger] builder@.vars.defs.contains_key((local, 0u32)),
            decreases locals@.len() - i,
        {
            let (count, ty) = locals[i];
            proof {
                assert(locals@.take(i + 1).drop_last() =~= locals@.take(i as int));
                lemma_count_locals_take(locals@, i + 1);
            }
            let ghost declared = builder@.vars.types;
            builder = match builder.declare_variables(count, ty.into_type()) {
                Ok(builder) => builder,
                Err(error) => {
                    return Err(error);
                },
            };
            proof {
                assert(locals@.take(i + 1).last() == locals@[i as int]);
                assert(builder@.vars.types =~= declared + Seq::new(
                    count as nat,
                    |j: int| ty.ir_type(),
                ));
                assert(builder@.vars.types =~= ir_types(inputs@) + local_types(
                    locals@.take(i + 1),
                ));
            }
            i = i + 1;
        }
        proof {
            assert(locals@.take(i as int) =~= locals@);
        }
        let len_locals = builder.ctx.vars.len_vars();
        let ghost declared = builder@.vars.types;
        // The variable for the result of the function.
        if outputs.len() == 1 {
            builder = match builder.declare_variables(1, outputs[0].into_type()) {
                Ok(builder) => builder,
                Err(error) => {
                    return Err(error);
                },
            };
        }
        proof {
            assert(builder@.vars.types =~= ir_types(inputs@) + local_types(locals@) + ir_types(
                outputs@,
            ));
            assert(result_types(body@.take(0)) =~= Seq::<Type>::empty());
            assert(builder@.vars.types =~= ir_types(inputs@) + local_types(locals@) + ir_types(
                outputs@,
            ) + result_types(body@.take(0)));
        }
        // The variables for the results of the control frames.
        let mut k: usize = 0;
        while k < body.len()
            invariant
                k <= body@.len(),
                outputs@.len() <= 1,
                builder.wf(),
                builder@.inputs == input_types@,
                builder@.is_empty_body(),
                builder@.value_type.len() == inputs@.len(),
                len_inputs == inputs@.len(),
                len_locals == inputs@.len() + count_locals(locals@),
                builder@.vars.types.len() == len_locals + outputs@.len() + count_results(
                    body@.take(k as int),
                ),
                builder@.vars.types == ir_types(inputs@) + local_types(locals@) + ir_types(
                    outputs@,
                ) + result_types(body@.take(k as int)),
                builder@.vars.types.len() <= crate::builder::variable::MAX_VARIABLES,
                outputs@.len() == 1 ==> builder@.vars.types[len_locals as int]
                    == outputs@[0].ir_type(),
                builder@.phi_block == Map::<u32, Block>::empty(),
                forall|local: u32|
                    local < len_inputs ==> #[trigger] builder@.vars.defs.contains_key((local, 0u32)),
            decreases body@.len() - k,
        {
            let result = match &body[k] {
                Operator::Block { ty } => *ty,
                Operator::Loop { ty } => *ty,
                Operator::If { ty } => *ty,
                _ => BlockType::Empty,
            };
            proof {
                assert(body@.take(k + 1).drop_last() =~= body@.take(k as int));
                lemma_count_results_take(body@, k + 1);
            }
            let ghost declared = builder@.vars.types;
            match result {
                BlockType::Value(ty) => {
                    builder = match builder.declare_variables(1, ty.into_type()) {
                        Ok(builder) => builder,
                        Err(error) => {
                            return Err(error);
                        },
                    };
                    proof {
                        assert(result_type(body@[k as int]) == Some(ty));
                        assert(builder@.vars.types =~= declared + seq![ty.ir_type()]);
                    }
                },
                BlockType::Empty => {
                    proof {
                        assert(result_type(body@[k as int]).is_none());
                    }
                },
            }
            proof {
                assert(body@.take(k + 1).last() == body@[k as int]);
                assert(builder@.vars.types =~= ir_types(inputs@) + local_types(locals@)
                    + ir_types(outputs@) + result_types(body@.take(k + 1)));
            }
            k = k + 1;
        }
        proof {
            assert(body@.take(k as int) =~= body@);
        }
        let builder = builder.body();
        let mut translator = ValueNumbering {
            builder,
            stack: ValueStack::new(),
            control: Vec::new(),
            len_locals: len_locals as u32,
            next_result: len_locals as u32,
            reachable: true,
            done: false,
        };
        // The entry block has no predecessors.
        let entry = translator.builder.current_block();
        match translator.seal(entry) {
            Ok(()) => {},
            Err(_) => vstd::pervasive::unreached(),
        }
        let ghost types = translator.builder@.vars.types;
        // Local variables that are not parameters start as zero.
        let mut var: usize = len_inputs;
        while var < len_locals
            invariant
                len_inputs <= var <= len_locals,
                translator.wf(),
                translator.reachable,
                !translator.done,
                translator.control@.len() == 0,
                translator.len_locals == len_locals,
                translator.next_result == len_locals,
                translator.builder@.inputs == input_types@,
                translator.builder@.vars.types == types,
                len_locals <= types.len() <= crate::builder::variable::MAX_VARIABLES,
                translator.builder@.blocks.len() == 1,
                translator.builder@.instrs.len() == var - len_inputs,
                translator.builder@.value_type.len() == var,
                translator.stack@.len() == 0,
                translator.builder@.current.index() == 0,
                translator.builder@.blocks[0].sealed,
                translator.builder@.blocks[0].preds.len() == 0,
                translator.builder@.blocks[0].phis.len() == 0,
                translator.builder@.blocks[0].instrs.len() == var - len_inputs,
                translator.builder@.phi_block == Map::<u32, Block>::empty(),
                forall|local: u32|
                    (local as int) < var ==> #[trigger] translator.builder@.vars.defs.contains_key(
                        (local, 0u32),
                    ),
            decreases len_locals - var,
        {
            let variable = Variable::from_u32(var as u32);
            let ty = match translator.builder.ctx.vars.declared_type(variable) {
                Some(ty) => ty,
                None => vstd::pervasive::unreached(),
            };
            let zero = match ty {
                Type::Int(IntType::I64) => translator.push_int_const(IntConst::I64(0)),
                Type::Float(FloatType::F32) => translator.push_float_const(
                    FloatConst::F32(F32::from_bits(0)),
                ),
                Type::Float(FloatType::F64) => translator.push_float_const(
                    FloatConst::F64(F64::from_bits(0)),
                ),
                _ => translator.push_int_const(IntConst::I32(0)),
            };
            let value = match zero {
                Ok(value) => value,
                Err(_) => vstd::pervasive::unreached(),
            };
            let _ = translator.stack.pop1();
            let block = translator.builder.current_block();
            translator.builder.define(variable, block, value);
            proof {
                assert(translator.builder@.vars.defs.contains_key((var as u32, 0u32)));
            }
            var = var + 1;
        }
        // The body of the function is the outermost frame.
        let result = if outputs.len() == 1 {
            match translator.result_of(BlockType::Value(outputs[0])) {
                Ok(result) => result,
                Err(_) => vstd::pervasive::unreached(),
            }
        } else {
            None
        };
        let end = match translator.new_block() {
            Ok(block) => block,
            Err(_) => vstd::pervasive::unreached(),
        };
        translator.control.push(
            ControlFrame {
                kind: ControlKind::Function,
                target: end,
                end,
                alternative: end,
                result,
                height: 0,
                live: true,
            },
        );
        proof {
            assert(translator.stack@ =~= Seq::<ValueEntry>::empty());
            Variable::lemma_at(len_locals as u32);
            if outputs@.len() == 1 {
                let (var, _) = result.unwrap();
                Variable::lemma_same_index(var, Variable::at(len_locals as u32));
            }
        }
        Ok(translator)
    }

    /// Ends the translation and returns the function.
    ///
    /// # Errors
    ///
    /// - If the body of the function has not ended.
    /// - If the function that was built is not finished: see
    ///   [`FunctionBuilder::finalize`].
    pub fn finish(self) -> (outcome: Result<Function, IrError>)
        requires
            self.wf(),
        ensures
            self.finished(outcome),
    {
        if !self.done {
            return Err(IrError::Wasm(WasmError::MissingEnd));
        }
        self.builder.finalize()
    }

    /// Whether `outcome` is what the end of the translation gives in this
    /// state: the function that was built, if the body of the function has
    /// ended and the function has no defect.
    pub open spec fn finished(&self, outcome: Result<Function, IrError>) -> bool {
        if !self.done {
            outcome == Err::<Function, IrError>(IrError::Wasm(WasmError::MissingEnd))
        } else {
            match outcome {
                Ok(function) => {
                    &&& self.builder@.first_defect(self.builder@.blocks.len() as int).is_none()
                    &&& function@ == self.builder@
                    &&& function.wf()
                },
                Err(error) => {
                    &&& self.builder@.first_defect(self.builder@.blocks.len() as int) matches Some(
                        defect,
                    )
                    &&& error == IrError::FunctionBuilder(defect)
                },
            }
        }
    }

    /// Whether `self` is `before` but for the function, which has no fewer
    /// blocks, and the stack.
    pub open spec fn same_frames(&self, before: &Self) -> bool {
        &&& self.control@ == before.control@
        &&& self.len_locals == before.len_locals
        &&& self.next_result == before.next_result
        &&& self.done == before.done
        &&& self.builder@.blocks.len() >= before.builder@.blocks.len()
    }

    /// Whether the operator ends the basic block that it is translated into.
    pub open spec fn ends_block(operator: Operator) -> bool {
        operator is Br || operator is BrIf || operator is BrTable || operator is Return
            || operator is Unreachable
    }

    /// Whether `self` is in the state of `before`.
    pub open spec fn unchanged(&self, before: &Self) -> bool {
        &&& self.builder@ == before.builder@
        &&& self.stack@ == before.stack@
        &&& self.control@ == before.control@
        &&& self.reachable == before.reachable
        &&& self.done == before.done
        &&& self.len_locals == before.len_locals
        &&& self.next_result == before.next_result
    }

    /// Whether the operator opens, turns or closes a control frame.
    pub open spec fn moves_frames(operator: Operator) -> bool {
        operator is Block || operator is Loop || operator is If || operator is Else
            || operator is End
    }

    /// Whether `self` and `outcome` come from `before` by pushing the
    /// operator where control cannot reach it: an operator that opens,
    /// turns or closes a control frame does so, every other operator is
    /// skipped.
    pub open spec fn pushed_unreachable(
        &self,
        before: &Self,
        operator: Operator,
        outcome: Result<(), IrError>,
    ) -> bool {
        match operator {
            Operator::Block { ty } => self.opens_dead(before, ControlKind::Block, ty, outcome),
            Operator::Loop { ty } => self.opens_dead(before, ControlKind::Loop, ty, outcome),
            Operator::If { ty } => self.opens_dead(before, ControlKind::If, ty, outcome),
            Operator::Else => self.turned(before, outcome),
            Operator::End => self.left_frame(before, outcome),
            _ => outcome.is_ok() && self.unchanged(before),
        }
    }

    /// Whether `self` and `outcome` come from `before` by pushing the
    /// operator where control can reach it.
    pub open spec fn pushed_reachable(
        &self,
        before: &Self,
        operator: Operator,
        outcome: Result<(), IrError>,
    ) -> bool {
        match operator {
            Operator::Unsupported => outcome == Err::<(), IrError>(
                IrError::Wasm(WasmError::UnsupportedOperator),
            ) && self.unchanged(before),
            Operator::Nop => outcome.is_ok() && self.unchanged(before),
            Operator::Unreachable => self.trapped(before, outcome),
            Operator::Block { ty } => self.stack@ == before.stack@ && self.opens_block(
                before,
                ControlKind::Block,
                ty,
                outcome,
            ),
            Operator::Loop { ty } => self.stack@ == before.stack@ && self.opens_loop(
                before,
                ty,
                outcome,
            ),
            Operator::If { ty } => self.opens_if(before, ty, outcome),
            Operator::Else => self.turned(before, outcome),
            Operator::End => self.left_frame(before, outcome),
            Operator::Br { relative_depth } => self.stack@ == before.stack@ && self.branched(
                before,
                relative_depth,
                outcome,
            ),
            Operator::BrIf { relative_depth } => self.branched_on(before, relative_depth, outcome),
            Operator::BrTable { targets, default } => self.branched_by(
                before,
                targets@,
                default,
                outcome,
            ),
            Operator::Return => self.returned_from(before, outcome),
            Operator::Drop => self.dropped(before, outcome),
            Operator::Select => self.selected(before, outcome),
            Operator::LocalGet { local_index } => self.got(before, local_index, outcome),
            Operator::LocalSet { local_index } => self.wrote(before, local_index, true, outcome),
            Operator::LocalTee { local_index } => self.wrote(before, local_index, false, outcome),
            Operator::I32Const { value } => self.pushed_int_const(
                before,
                IntConst::I32(value),
                outcome,
            ),
            Operator::I64Const { value } => self.pushed_int_const(
                before,
                IntConst::I64(value),
                outcome,
            ),
            Operator::F32Const { bits } => self.pushed_float_const(
                before,
                FloatConst::F32(F32 { bits }),
                outcome,
            ),
            Operator::F64Const { bits } => self.pushed_float_const(
                before,
                FloatConst::F64(F64 { bits }),
                outcome,
            ),
            _ => match (operator.binary_int(), operator.compare_int()) {
                (Some((ty, op)), _) => self.computed(before, ty, op, outcome),
                (None, Some((ty, op))) => self.compared(before, ty, op, outcome),
                (None, None) => outcome == Err::<(), IrError>(
                    IrError::Wasm(WasmError::UnsupportedOperator),
                ) && self.unchanged(before),
            },
        }
    }

    /// Whether `self` and `outcome` come from `before` by pushing the
    /// operator.
    ///
    /// After the end of the function body every operator is refused. An
    /// operator that control cannot reach is skipped, unless it opens,
    /// turns or closes a control frame. Every other operator pops its
    /// operands, appends its instructions to the current block and pushes
    /// its result, or fails and says why. Only an operator that opens,
    /// turns or closes a frame changes the frames; only the operator
    /// that closes the outermost frame ends the function body. An
    /// operator that fails leaves everything as it was, unless it is one
    /// that opens, turns or closes a frame.
    pub open spec fn pushed(&self, before: &Self, operator: Operator, outcome: Result<
        (),
        IrError,
    >) -> bool {
        &&& if before.done {
            outcome == Err::<(), IrError>(IrError::Wasm(WasmError::OperatorAfterEnd))
                && self.unchanged(before)
        } else if !before.reachable {
            self.pushed_unreachable(before, operator, outcome)
        } else {
            self.pushed_reachable(before, operator, outcome)
        }
        &&& outcome.is_ok() ==> if operator is Block || operator is Loop || operator is If {
            &&& self.control@.len() == before.control@.len() + 1
            &&& self.done == before.done
            &&& self.reachable == before.reachable
        } else if operator is Else {
            self.control@.len() == before.control@.len() && self.done == before.done
        } else if operator is End {
            self.control@.len() + 1 == before.control@.len() && self.done == (self.control@.len()
                == 0)
        } else {
            &&& self.control@ == before.control@
            &&& self.done == before.done
            &&& self.reachable == (before.reachable && (operator is BrIf || !Self::ends_block(
                operator,
            )))
        }
        &&& !Self::moves_frames(operator) ==> {
            &&& self.control@ == before.control@
            &&& self.done == before.done
            &&& self.len_locals == before.len_locals
            &&& self.next_result == before.next_result
            &&& outcome.is_err() ==> self.unchanged(before)
        }
    }

    /// Pushes another WebAssembly operator to the translator.
    ///
    /// The operators must be pushed in the order in which they appear in
    /// the function body. An operator that control cannot reach is skipped,
    /// unless it opens, turns or closes a control frame.
    ///
    /// # Errors
    ///
    /// - If the operator follows the end of the function body.
    /// - If the operator is not supported.
    /// - If the stack holds fewer values than the operator pops.
    /// - If a value that the operator pops is not of the expected type.
    /// - If the operator refers to a local variable or control frame that
    ///   does not exist.
    /// - If the function builder refuses what the operator asks for.
    pub fn push_operator(&mut self, operator: &Operator) -> (outcome: Result<(), IrError>)
        requires
            old(self).wf(),
        ensures
            final(self).builder.wf(),
            outcome.is_ok() ==> final(self).wf(),
            final(self).pushed(old(self), *operator, outcome),
    {
        if self.done {
            return Err(IrError::Wasm(WasmError::OperatorAfterEnd));
        }
        if !self.reachable {
            return match *operator {
                Operator::Block { ty } => self.enter_dead(ControlKind::Block, ty),
                Operator::Loop { ty } => self.enter_dead(ControlKind::Loop, ty),
                Operator::If { ty } => self.enter_dead(ControlKind::If, ty),
                Operator::Else => self.enter_else(),
                Operator::End => self.leave_frame(),
                _ => Ok(()),
            };
        }
        match operator.as_binary_int() {
            Some((ty, op)) => {
                return self.push_binary_int(ty, op);
            },
            None => {},
        }
        match operator.as_compare_int() {
            Some((ty, op)) => {
                return self.push_compare_int(ty, op);
            },
            None => {},
        }
        match *operator {
            Operator::Unreachable => self.unreachable(),
            Operator::Nop => Ok(()),
            Operator::Block { ty } => self.enter_block(ControlKind::Block, ty),
            Operator::Loop { ty } => self.enter_loop(ty),
            Operator::If { ty } => self.enter_if(ty),
            Operator::Else => self.enter_else(),
            Operator::End => self.leave_frame(),
            Operator::Br { relative_depth } => self.branch(relative_depth),
            Operator::BrIf { relative_depth } => self.branch_on(relative_depth),
            Operator::BrTable { ref targets, default } => self.branch_table(targets, default),
            Operator::Return => {
                if self.control.len() == 0 || self.control.len() > u32::MAX as usize {
                    return Err(
                        IrError::Wasm(WasmError::MissingControlFrame { relative_depth: 0 }),
                    );
                }
                let outermost = (self.control.len() - 1) as u32;
                self.branch(outermost)
            },
            Operator::Drop => match self.stack.pop1() {
                Ok(_) => Ok(()),
                Err(error) => Err(error),
            },
            Operator::Select => self.select(),
            Operator::LocalGet { local_index } => self.local_get(local_index),
            Operator::LocalSet { local_index } => self.local_set(local_index, true),
            Operator::LocalTee { local_index } => self.local_set(local_index, false),
            Operator::I32Const { value } => match self.push_int_const(IntConst::I32(value)) {
                Ok(_) => Ok(()),
                Err(error) => Err(error),
            },
            Operator::I64Const { value } => match self.push_int_const(IntConst::I64(value)) {
                Ok(_) => Ok(()),
                Err(error) => Err(error),
            },
            Operator::F32Const { bits } => match self.push_float_const(
                FloatConst::F32(F32::from_bits(bits)),
            ) {
                Ok(_) => Ok(()),
                Err(error) => Err(error),
            },
            Operator::F64Const { bits } => match self.push_float_const(
                FloatConst::F64(F64::from_bits(bits)),
            ) {
                Ok(_) => Ok(()),
                Err(error) => Err(error),
            },
            _ => Err(IrError::Wasm(WasmError::UnsupportedOperator)),
        }
    }
}

/// Every parameter that is given to a function without variables has a
/// definition in the entry block, and no ϕ-instruction is recorded.
pub proof fn lemma_with_inputs_defs(model: FunctionModel, types: Seq<Type>)
    requires
        model.vars.types.len() == 0,
        types.len() < u32::MAX,
    ensures
        forall|local: u32|
            (local as int) < types.len() ==> #[trigger] model.with_inputs(
                types,
            ).vars.defs.contains_key((local, 0u32)),
        model.with_inputs(types).phi_block == model.phi_block,
    decreases types.len(),
{
    if types.len() > 0 {
        let inner = model.with_inputs(types.drop_last());
        lemma_with_inputs_defs(model, types.drop_last());
        lemma_with_inputs_len(model, types.drop_last());
        assert(inner.vars.types.len() == types.len() - 1);
        Variable::lemma_at((types.len() - 1) as u32);
        Block::lemma_at(0);
        assert forall|local: u32| (local as int) < types.len() implies #[trigger] model.with_inputs(
            types,
        ).vars.defs.contains_key((local, 0u32)) by {
            if (local as int) < types.len() - 1 {
                assert(inner.vars.defs.contains_key((local, 0u32)));
            }
        }
    }
}

/// The function has as many parameters as were given to it, a value and a
/// variable for each, and neither blocks nor instructions more.
pub proof fn lemma_with_inputs_len(model: FunctionModel, types: Seq<Type>)
    ensures
        model.with_inputs(types).inputs == model.inputs + types,
        model.with_inputs(types).vars.types == model.vars.types + types,
        model.with_inputs(types).value_type.len() == model.value_type.len() + types.len(),
        model.with_inputs(types).blocks == model.blocks,
        model.with_inputs(types).instrs == model.instrs,
        model.with_inputs(types).current == model.current,
    decreases types.len(),
{
    if types.len() > 0 {
        lemma_with_inputs_len(model, types.drop_last());
        assert(model.inputs + types =~= (model.inputs + types.drop_last()).push(types.last()));
        let inner = model.with_inputs(types.drop_last());
        assert(inner.vars.types + Seq::new(1, |i: int| types.last()) =~= (model.vars.types
            + types.drop_last()).push(types.last()));
        assert(model.vars.types + types =~= (model.vars.types + types.drop_last()).push(
            types.last(),
        ));
    } else {
        assert(model.inputs + types =~= model.inputs);
        assert(model.vars.types + types =~= model.vars.types);
    }
}

/// Translates the body of one WebAssembly function.
pub struct FunctionTranslator {
    /// The operators of the function body, in order.
    pub ops: Vec<Operator>,
    /// The state of the translation.
    pub value_numbering: ValueNumbering,
}

impl FunctionTranslator {
    /// Creates the translator of a function body.
    ///
    /// The function has the given parameters and results. Its local
    /// variables are the parameters followed by the given runs of variables
    /// of one type.
    ///
    /// # Errors
    ///
    /// - If the function has more than one result.
    /// - If the function has too many variables.
    pub fn new(
        inputs: &[WasmType],
        outputs: &[WasmType],
        locals: &[(u32, WasmType)],
        body: Vec<Operator>,
    ) -> (outcome: Result<Self, IrError>)
        ensures
            match outcome {
                Ok(translator) => {
                    &&& outputs@.len() <= 1
                    &&& count_variables(inputs@, outputs@, locals@, body@)
                        <= crate::builder::variable::MAX_VARIABLES
                    &&& translator.value_numbering.started(inputs@, outputs@, locals@, body@)
                    &&& translator.ops@ == body@
                },
                Err(error) => if outputs@.len() > 1 {
                    error == IrError::Wasm(WasmError::UnsupportedOperator)
                } else {
                    &&& count_variables(inputs@, outputs@, locals@, body@)
                        > crate::builder::variable::MAX_VARIABLES
                    &&& error == IrError::FunctionBuilder(
                        crate::error::FunctionBuilderError::TooManyVariableDeclarations,
                    )
                },
            },
    {
        let value_numbering = match ValueNumbering::new(inputs, outputs, locals, body.as_slice()) {
            Ok(value_numbering) => value_numbering,
            Err(error) => {
                return Err(error);
            },
        };
        Ok(Self { ops: body, value_numbering })
    }

    /// Whether `outcome` is what the translation of the operators gives,
    /// where `trace` holds the state before the first operator and the
    /// state after every operator that was pushed with success, in order:
    /// the outcome of the end of the translation, if that was every
    /// operator; else the error of the first operator that failed, which
    /// left the state `last`.
    pub open spec fn translated(
        ops: Seq<Operator>,
        trace: Seq<ValueNumbering>,
        last: ValueNumbering,
        outcome: Result<Function, IrError>,
    ) -> bool {
        &&& 1 <= trace.len() <= ops.len() + 1
        &&& forall|i: int|
            0 <= i < trace.len() - 1 ==> trace[i + 1].pushed(&#[trigger] trace[i], ops[i], Ok(()))
        &&& if trace.len() == ops.len() + 1 {
            last == trace.last() && last.finished(outcome)
        } else {
            outcome matches Err(error) && last.pushed(
                &trace.last(),
                ops[trace.len() - 1],
                Err(error),
            )
        }
    }

    /// Translates the function body: pushes its operators in order and ends
    /// the construction of the function.
    ///
    /// # Errors
    ///
    /// The error of the first operator that cannot be translated, or the
    /// defect of the function that was built.
    pub fn translate(self) -> (outcome: Result<Function, IrError>)
        requires
            self.value_numbering.wf(),
        ensures
            outcome matches Ok(function) ==> function.wf(),
            exists|trace: Seq<ValueNumbering>, last: ValueNumbering|
                trace[0] == self.value_numbering && #[trigger] Self::translated(
                    self.ops@,
                    trace,
                    last,
                    outcome,
                ),
    {
        let mut value_numbering = self.value_numbering;
        let ghost mut trace = seq![value_numbering];
        let mut i: usize = 0;
        while i < self.ops.len()
            invariant
                i <= self.ops@.len(),
                value_numbering.wf(),
                trace.len() == i + 1,
                trace[0] == self.value_numbering,
                trace.last() == value_numbering,
                forall|k: int|
                    0 <= k < trace.len() - 1 ==> trace[k + 1].pushed(
                        &#[trigger] trace[k],
                        self.ops@[k],
                        Ok(()),
                    ),
            decreases self.ops@.len() - i,
        {
            let ghost before = value_numbering;
            match value_numbering.push_operator(&self.ops[i]) {
                Ok(()) => {},
                Err(error) => {
                    proof {
                        assert(Self::translated(self.ops@, trace, value_numbering, Err(error)));
                    }
                    return Err(error);
                },
            }
            proof {
                let longer = trace.push(value_numbering);
                assert forall|k: int| 0 <= k < longer.len() - 1 implies longer[k + 1].pushed(
                    &#[trigger] longer[k],
                    self.ops@[k],
                    Ok(()),
                ) by {
                    if k < trace.len() - 1 {
                        assert(trace[k + 1].pushed(&trace[k], self.ops@[k], Ok(())));
                    }
                }
                trace = longer;
            }
            i = i + 1;
        }
        let ghost last = value_numbering;
        let outcome = value_numbering.finish();
        proof {
            assert(Self::translated(self.ops@, trace, last, outcome));
        }
        outcome
    }
}

/// Translates the body of a WebAssembly function into a function in SSA form.
///
/// The function has the given parameters and results. Its local variables
/// are the parameters followed by the given runs of variables of one type.
///
/// # Errors
///
/// The error of the first operator that cannot be translated, or the defect
/// of the function that was built.
pub fn translate_wasm(
    inputs: &[WasmType],
    outputs: &[WasmType],
    locals: &[(u32, WasmType)],
    body: Vec<Operator>,
) -> (outcome: Result<Function, IrError>)
    ensures
        outputs@.len() > 1 ==> outcome == Err::<Function, IrError>(
            IrError::Wasm(WasmError::UnsupportedOperator),
        ),
        outputs@.len() <= 1 && count_variables(inputs@, outputs@, locals@, body@)
            > crate::builder::variable::MAX_VARIABLES ==> outcome == Err::<Function, IrError>(
            IrError::FunctionBuilder(
                crate::error::FunctionBuilderError::TooManyVariableDeclarations,
            ),
        ),
        outcome matches Ok(function) ==> function.wf(),
        outputs@.len() <= 1 && count_variables(inputs@, outputs@, locals@, body@)
            <= crate::builder::variable::MAX_VARIABLES ==> exists|
            trace: Seq<ValueNumbering>,
            last: ValueNumbering,
        |
            trace[0].started(inputs@, outputs@, locals@, body@)
                && #[trigger] FunctionTranslator::translated(body@, trace, last, outcome),
{
    match FunctionTranslator::new(inputs, outputs, locals, body) {
        Ok(translator) => translator.translate(),
        Err(error) => Err(error),
    }
}

} // verus!
