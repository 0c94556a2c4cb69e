//! The staged function builder and the function that it builds.

use crate::builder::context::FunctionBuilderContext;
use crate::builder::instruction::FunctionInstrBuilder;
use crate::builder::model::{FunctionModel, ValueAssoc};
use crate::builder::state;
use crate::builder::variable::MAX_VARIABLES;
use crate::entity::index::Index32;
use crate::error::{FunctionBuilderError, IrError, VariableAccess};
use crate::primitive::{Block, Type, Value, Variable};
use std::marker::PhantomData;
use vstd::prelude::*;

verus! {

/// Builds a function in SSA form, stage by stage.
///
/// The stages are the types of the function parameters, the types of its
/// results, the declaration of variables, and the body. Each stage has the
/// operations of that stage and the step to the next.
pub struct FunctionBuilder<S> {
    /// The function as built so far.
    pub ctx: FunctionBuilderContext,
    /// The stage of the construction.
    pub state: PhantomData<S>,
}

impl<S> View for FunctionBuilder<S> {
    type V = FunctionModel;

    open spec fn view(&self) -> FunctionModel {
        self.ctx@
    }
}

impl<S> FunctionBuilder<S> {
    /// The storage is consistent and the function is well formed.
    pub open spec fn wf(&self) -> bool {
        self.ctx.wf()
    }
}

/// A function in SSA form.
pub struct Function {
    /// The blocks, values and instructions of the function.
    pub ctx: FunctionBuilderContext,
}

impl View for Function {
    type V = FunctionModel;

    open spec fn view(&self) -> FunctionModel {
        self.ctx@
    }
}

impl Function {
    /// Starts the construction of a function.
    pub fn build() -> (builder: FunctionBuilder<state::Inputs>)
        ensures
            builder.wf(),
            builder@.is_initial(),
    {
        let ctx = FunctionBuilderContext::new();
        proof {
            ctx@.lemma_initial();
        }
        FunctionBuilder { ctx, state: PhantomData }
    }
}

impl FunctionBuilder<state::Inputs> {
    /// Declares the types of the function parameters.
    ///
    /// For every parameter a value is made that stands for it, and a variable
    /// of its type that is defined as that value in the entry block. The
    /// variables of the parameters are the first variables of the function.
    ///
    /// # Errors
    ///
    /// If the function would have more than `MAX_VARIABLES` variables.
    pub fn with_inputs(self, inputs: &[Type]) -> (outcome: Result<
        FunctionBuilder<state::Outputs>,
        IrError,
    >)
        requires
            self.wf(),
            self@.is_initial(),
        ensures
            match outcome {
                Ok(builder) => inputs@.len() <= MAX_VARIABLES && builder.wf() && builder@
                    == self@.with_inputs(inputs@),
                Err(error) => inputs@.len() > MAX_VARIABLES && error == IrError::FunctionBuilder(
                    FunctionBuilderError::TooManyVariableDeclarations,
                ),
            },
    {
        if inputs.len() > MAX_VARIABLES as usize {
            return Err(IrError::FunctionBuilder(FunctionBuilderError::TooManyVariableDeclarations));
        }
        let mut ctx = self.ctx;
        let entry = ctx.current;
        let mut i: usize = 0;
        while i < inputs.len()
            invariant
                i <= inputs@.len() <= MAX_VARIABLES,
                ctx.wf(),
                ctx@ == self@.with_inputs(inputs@.take(i as int)),
                ctx@.value_type.len() == i,
                ctx@.vars.types.len() == i,
                ctx@.inputs.len() == i,
                ctx@.current == entry,
                entry.index() == 0,
            decreases inputs@.len() - i,
        {
            let ty = inputs[i];
            let ghost before = ctx@;
            let value = ctx.push_value(ty, ValueAssoc::Input(i as u32));
            ctx.inputs.push(ty);
            let declared = ctx.vars.declare_vars(1, ty);
            let var = Variable::from_u32(i as u32);
            let value_to_type = |_value: Value| -> (told: Type)
                ensures
                    told == ty,
                { ty };
            let written = ctx.vars.write_var(var, value, entry, value_to_type);
            proof {
                assert(forall|of: Value, told: Type|
                    value_to_type.ensures((of,), told) ==> told == ty);
                assert(declared.is_ok());
                assert(written.is_ok());
                Variable::lemma_at(i as u32);
                Variable::lemma_same_index(var, Variable::at(i as u32));
                Value::lemma_at(i as u32);
                Value::lemma_same_index(value, Value::at(i as u32));
                Block::lemma_at(0);
                Block::lemma_same_index(entry, Block::at(0));
                assert(inputs@.take(i + 1).drop_last() =~= inputs@.take(i as int));
                assert(inputs@.take(i + 1).last() == ty);
                assert(ctx@ == before.with_input(ty));
                ctx@.lemma_same_code(before);
            }
            i = i + 1;
        }
        assert(inputs@.take(i as int) =~= inputs@);
        Ok(FunctionBuilder { ctx, state: PhantomData })
    }
}

impl FunctionBuilder<state::Outputs> {
    /// Declares the types of the function results.
    pub fn with_outputs(self, outputs: &[Type]) -> (outcome: Result<
        FunctionBuilder<state::DeclareVariables>,
        IrError,
    >)
        requires
            self.wf(),
        ensures
            outcome matches Ok(builder) && builder.wf() && builder@ == self@.with_outputs(
                outputs@,
            ),
    {
        let mut ctx = self.ctx;
        let mut types: Vec<Type> = Vec::new();
        let mut i: usize = 0;
        while i < outputs.len()
            invariant
                i <= outputs@.len(),
                types@ == outputs@.take(i as int),
            decreases outputs@.len() - i,
        {
            types.push(outputs[i]);
            assert(outputs@.take(i + 1) =~= outputs@.take(i as int).push(outputs@[i as int]));
            i = i + 1;
        }
        assert(outputs@.take(i as int) =~= outputs@);
        ctx.outputs = types;
        proof {
            ctx@.lemma_same_code(self@);
        }
        Ok(FunctionBuilder { ctx, state: PhantomData })
    }
}

impl FunctionBuilder<state::DeclareVariables> {
    /// Declares an amount of variables that share the same type.
    ///
    /// The new variables get the next indices after those declared so far.
    ///
    /// # Errors
    ///
    /// If the function would have more than `MAX_VARIABLES` variables.
    pub fn declare_variables(self, amount: u32, ty: Type) -> (outcome: Result<Self, IrError>)
        requires
            self.wf(),
        ensures
            match outcome {
                Ok(builder) => self@.vars.types.len() + amount <= MAX_VARIABLES && builder.wf()
                    && builder@ == self@.with_variables(amount as nat, ty),
                Err(error) => self@.vars.types.len() + amount > MAX_VARIABLES && error
                    == IrError::FunctionBuilder(FunctionBuilderError::TooManyVariableDeclarations),
            },
    {
        let mut ctx = self.ctx;
        match ctx.vars.declare_vars(amount, ty) {
            Ok(()) => {
                proof {
                    ctx@.lemma_same_code(self@);
                }
                Ok(FunctionBuilder { ctx, state: PhantomData })
            },
            Err(error) => Err(error),
        }
    }

    /// Ends the declaration of variables and starts the body of the function.
    pub fn body(self) -> (builder: FunctionBuilder<state::Body>)
        requires
            self.wf(),
        ensures
            builder.wf(),
            builder@ == self@,
    {
        FunctionBuilder { ctx: self.ctx, state: PhantomData }
    }
}

impl FunctionBuilder<state::Body> {
    /// Creates a new basic block: not sealed, not filled, without
    /// predecessors and instructions.
    pub fn create_block(&mut self) -> (block: Block)
        requires
            old(self).wf(),
            old(self)@.blocks.len() + 1 < u32::MAX,
        ensures
            final(self).wf(),
            block.index() == old(self)@.blocks.len(),
            final(self)@ == old(self)@.with_block(),
    {
        proof {
            self@.lemma_with_block();
        }
        self.ctx.push_block()
    }

    /// Returns the basic block that instructions are appended to.
    pub fn current_block(&self) -> (block: Block)
        ensures
            block == self@.current,
    {
        self.ctx.current
    }

    /// Switches to the basic block: instructions are appended to it from now on.
    ///
    /// # Errors
    ///
    /// If the block has its terminal instruction already.
    pub fn switch_to_block(&mut self, block: Block) -> (outcome: Result<(), IrError>)
        requires
            old(self).wf(),
            old(self)@.has_block(block),
        ensures
            final(self).wf(),
            outcome == if old(self)@.block(block).filled {
                Err::<(), IrError>(
                    IrError::FunctionBuilder(FunctionBuilderError::BlockAlreadyFilled { block }),
                )
            } else {
                Ok::<(), IrError>(())
            },
            final(self)@ == if old(self)@.block(block).filled {
                old(self)@
            } else {
                old(self)@.with_current(block)
            },
    {
        if self.ctx.block(block).filled {
            return Err(IrError::FunctionBuilder(FunctionBuilderError::BlockAlreadyFilled { block }));
        }
        proof {
            self@.lemma_with_current(block);
        }
        self.ctx.current = block;
        Ok(())
    }

    /// Returns the instruction builder for appending one instruction to the
    /// current basic block.
    ///
    /// # Errors
    ///
    /// If the current block has its terminal instruction already.
    pub fn ins(&mut self) -> (outcome: Result<FunctionInstrBuilder<'_>, IrError>)
        requires
            old(self).wf(),
        ensures
            match outcome {
                Ok(ins) => {
                    &&& !old(self)@.block(old(self)@.current).filled
                    &&& *ins.builder == *old(self)
                    &&& *final(ins.builder) == *final(self)
                },
                Err(error) => {
                    &&& old(self)@.block(old(self)@.current).filled
                    &&& error == IrError::FunctionBuilder(
                        FunctionBuilderError::BlockAlreadyFilled { block: old(self)@.current },
                    )
                    &&& *final(self) == *old(self)
                },
            },
    {
        let block = self.ctx.current;
        if self.ctx.block(block).filled {
            return Err(IrError::FunctionBuilder(FunctionBuilderError::BlockAlreadyFilled { block }));
        }
        Ok(FunctionInstrBuilder { builder: self })
    }

    /// Assigns the value to the variable for the current basic block.
    ///
    /// # Errors
    ///
    /// - If the variable has not been declared.
    /// - If the type of the value is not the type that the variable was
    ///   declared with.
    pub fn write_var(&mut self, var: Variable, value: Value) -> (outcome: Result<(), IrError>)
        requires
            old(self).wf(),
            old(self)@.has_value(value),
        ensures
            final(self).wf(),
            match outcome {
                Ok(()) => old(self)@.vars.is_declared(var) && old(self)@.type_of(value) == old(
                    self,
                )@.vars.declared_type(var),
                Err(error) => if !old(self)@.vars.is_declared(var) {
                    error == IrError::FunctionBuilder(
                        FunctionBuilderError::MissingDeclarationForVariable {
                            variable: var,
                            access: VariableAccess::Write(value),
                        },
                    )
                } else {
                    &&& old(self)@.type_of(value) != old(self)@.vars.declared_type(var)
                    &&& error == IrError::FunctionBuilder(
                        FunctionBuilderError::UnmatchingVariableType {
                            variable: var,
                            value,
                            declared: old(self)@.vars.declared_type(var),
                            actual: old(self)@.type_of(value),
                        },
                    )
                },
            },
            final(self)@ == if outcome.is_ok() {
                old(self)@.with_def(var, old(self)@.current, value)
            } else {
                old(self)@
            },
    {
        let block = self.ctx.current;
        let ty = self.ctx.type_of(value);
        let ghost before = self@;
        let value_to_type = |_value: Value| -> (told: Type)
            ensures
                told == ty,
            { ty };
        let outcome = self.ctx.vars.write_var(var, value, block, value_to_type);
        proof {
            assert(forall|of: Value, told: Type|
                value_to_type.ensures((of,), told) ==> told == ty);
            match outcome {
                Ok(()) => {
                    assert(before.vars.is_declared(var));
                    assert(value_to_type.ensures((value,), before.vars.declared_type(var)));
                    assert(before.vars.declared_type(var) == ty);
                },
                Err(error) => {
                    if before.vars.is_declared(var) {
                        let actual = choose|actual: Type|
                            {
                                &&& #[trigger] value_to_type.ensures((value,), actual)
                                &&& actual != before.vars.declared_type(var)
                                &&& error == IrError::FunctionBuilder(
                                    FunctionBuilderError::UnmatchingVariableType {
                                        variable: var,
                                        value,
                                        declared: before.vars.declared_type(var),
                                        actual,
                                    },
                                )
                            };
                        assert(actual == ty);
                    } else {
                        assert(error == IrError::FunctionBuilder(
                            FunctionBuilderError::MissingDeclarationForVariable {
                                variable: var,
                                access: VariableAccess::Write(value),
                            },
                        ));
                    }
                },
            }
            if outcome.is_ok() {
                assert(self@ == before.with_def(var, block, value));
                before.lemma_with_def(var, block, value);
            } else {
                assert(self@.vars == before.vars);
                assert(self@ == before);
            }
        }
        outcome
    }
}

} // verus!
