//! The storage of a function under construction: the arenas of its blocks,
//! values and instructions and the secondary maps over them.

use crate::builder::model::{BlockModel, FunctionModel, ValueAssoc};
use crate::builder::variable::VariableTranslator;
use crate::entity::arena::EntityArena;
use crate::entity::index::Index32;
use crate::entity::map::ComponentMap;
use crate::entity::vec::ComponentVec;
use crate::instruction::{Instr, Instruction};
use crate::primitive::{Block, BlockEntity, Type, Value, ValueEntity, Variable};
use vstd::prelude::*;

verus! {

/// What the builder keeps for every basic block.
pub struct BlockData {
    /// The blocks that branch to this block, ordered by index.
    pub preds: Vec<Block>,
    /// The ϕ-instructions at the head of the block.
    pub phis: Vec<Instr>,
    /// The other instructions of the block, in order.
    pub instrs: Vec<Instr>,
    /// Whether all predecessors of the block are known.
    pub sealed: bool,
    /// Whether the block has its terminal instruction.
    pub filled: bool,
    /// The ϕ-instructions that wait for the block to be sealed.
    pub incomplete_phis: Vec<(Variable, Value)>,
}

impl View for BlockData {
    type V = BlockModel;

    open spec fn view(&self) -> BlockModel {
        BlockModel {
            preds: self.preds@,
            phis: self.phis@,
            instrs: self.instrs@,
            sealed: self.sealed,
            filled: self.filled,
            incomplete_phis: self.incomplete_phis@,
        }
    }
}

impl BlockData {
    /// Creates the data of a block without predecessors and instructions.
    pub fn new() -> (data: Self)
        ensures
            data@ == BlockModel::empty(),
    {
        BlockData {
            preds: Vec::new(),
            phis: Vec::new(),
            instrs: Vec::new(),
            sealed: false,
            filled: false,
            incomplete_phis: Vec::new(),
        }
    }
}

impl Clone for BlockData {
    fn clone(&self) -> (data: Self)
        ensures
            data@ == self@,
    {
        let preds = self.preds.clone();
        let phis = self.phis.clone();
        let instrs = self.instrs.clone();
        let mut incomplete_phis: Vec<(Variable, Value)> = Vec::new();
        let mut k: usize = 0;
        while k < self.incomplete_phis.len()
            invariant
                k <= self.incomplete_phis@.len(),
                incomplete_phis@ == self.incomplete_phis@.take(k as int),
            decreases self.incomplete_phis@.len() - k,
        {
            incomplete_phis.push(self.incomplete_phis[k]);
            assert(self.incomplete_phis@.take(k + 1) =~= self.incomplete_phis@.take(k as int).push(
                self.incomplete_phis@[k as int],
            ));
            k = k + 1;
        }
        assert(preds@ =~= self.preds@);
        assert(phis@ =~= self.phis@);
        assert(instrs@ =~= self.instrs@);
        assert(incomplete_phis@ =~= self.incomplete_phis@);
        BlockData {
            preds,
            phis,
            instrs,
            sealed: self.sealed,
            filled: self.filled,
            incomplete_phis,
        }
    }
}

/// The blocks of a function, from the data that is kept for every block.
pub open spec fn blocks_of(len: nat, data: Map<u32, BlockData>) -> Seq<BlockModel> {
    Seq::new(len, |b: int| data[b as u32]@)
}

/// Changing the data of one block changes that block.
pub proof fn lemma_blocks_of_insert(len: nat, data: Map<u32, BlockData>, block: u32)
    requires
        block < len < u32::MAX,
    ensures
        forall|changed: BlockData| #[trigger]
            blocks_of(len, data.insert(block, changed)) == blocks_of(len, data).update(
                block as int,
                changed@,
            ),
{
    assert forall|changed: BlockData| #[trigger]
        blocks_of(len, data.insert(block, changed)) == blocks_of(len, data).update(
            block as int,
            changed@,
        ) by {
        assert(blocks_of(len, data.insert(block, changed)) =~= blocks_of(len, data).update(
            block as int,
            changed@,
        ));
    }
}

/// The arenas and secondary maps of a function under construction.
pub struct FunctionBuilderContext {
    /// The block that instructions are appended to.
    pub current: Block,
    /// Arena for all block entities.
    pub blocks: EntityArena<BlockEntity>,
    /// Arena for all SSA value entities.
    pub values: EntityArena<ValueEntity>,
    /// Arena for all instructions.
    pub instrs: EntityArena<Instruction>,
    /// The predecessors, instructions and flags of every block.
    pub block_data: ComponentVec<Block, BlockData>,
    /// The value that an instruction defines, if any.
    pub instr_value: ComponentVec<Instr, Value>,
    /// The type of every value.
    pub value_type: ComponentVec<Value, Type>,
    /// The origin of every value.
    pub value_assoc: ComponentVec<Value, ValueAssoc>,
    /// The instructions that use a value.
    pub value_users: ComponentVec<Value, Vec<Instr>>,
    /// The block of every complete ϕ-instruction, by its value.
    pub phi_block: ComponentMap<Value, Block>,
    /// The variables of the source language and their definitions.
    pub vars: VariableTranslator,
    /// The types of the function parameters.
    pub inputs: Vec<Type>,
    /// The types of the function results.
    pub outputs: Vec<Type>,
}

impl View for FunctionBuilderContext {
    type V = FunctionModel;

    open spec fn view(&self) -> FunctionModel {
        FunctionModel {
            current: self.current,
            blocks: blocks_of(self.blocks@.len(), self.block_data@),
            instrs: self.instrs@,
            instr_value: self.instr_value@,
            value_type: Seq::new(self.values@.len(), |v: int| self.value_type@[v as u32]),
            value_assoc: Seq::new(self.values@.len(), |v: int| self.value_assoc@[v as u32]),
            value_users: self.value_users@.map_values(|users: Vec<Instr>| users@),
            phi_block: self.phi_block@,
            vars: self.vars@,
            inputs: self.inputs@,
            outputs: self.outputs@,
        }
    }
}

impl FunctionBuilderContext {
    /// Every block and every value has its components, and the arenas are
    /// within the range of the handles.
    pub open spec fn store_wf(&self) -> bool {
        &&& self.blocks@.len() < u32::MAX
        &&& self.values@.len() < u32::MAX
        &&& self.instrs@.len() < u32::MAX
        &&& forall|b: u32| (b as int) < self.blocks@.len() ==> #[trigger] self.block_data@.contains_key(b)
        &&& forall|v: u32| (v as int) < self.values@.len() ==> #[trigger] self.value_type@.contains_key(v)
        &&& forall|v: u32| (v as int) < self.values@.len() ==> #[trigger] self.value_assoc@.contains_key(v)
        &&& self.vars.wf()
    }

    /// The storage is consistent and the function is well formed.
    pub open spec fn wf(&self) -> bool {
        self.store_wf() && self@.wf()
    }

    /// Creates the storage of a function with an entry block and nothing else.
    pub fn new() -> (ctx: Self)
        ensures
            ctx.store_wf(),
            ctx@.blocks == seq![BlockModel::empty()],
            ctx@.current.index() == 0,
            ctx@.instrs == Seq::<Instruction>::empty(),
            ctx@.instr_value == Map::<u32, Value>::empty(),
            ctx@.value_type == Seq::<Type>::empty(),
            ctx@.value_assoc == Seq::<ValueAssoc>::empty(),
            ctx@.value_users == Map::<u32, Seq<Instr>>::empty(),
            ctx@.phi_block == Map::<u32, Block>::empty(),
            ctx@.vars.types == Seq::<Type>::empty(),
            ctx@.vars.defs == Map::<(u32, u32), Value>::empty(),
            ctx@.inputs == Seq::<Type>::empty(),
            ctx@.outputs == Seq::<Type>::empty(),
    {
        let mut blocks = EntityArena::new();
        let entry = blocks.allocate(BlockEntity);
        let mut block_data = ComponentVec::new();
        block_data.insert(entry, BlockData::new());
        let ctx = Self {
            current: entry,
            blocks,
            values: EntityArena::new(),
            instrs: EntityArena::new(),
            block_data,
            instr_value: ComponentVec::new(),
            value_type: ComponentVec::new(),
            value_assoc: ComponentVec::new(),
            value_users: ComponentVec::new(),
            phi_block: ComponentMap::new(),
            vars: VariableTranslator::new(),
            inputs: Vec::new(),
            outputs: Vec::new(),
        };
        assert(ctx@.blocks =~= seq![BlockModel::empty()]);
        assert(ctx@.value_type =~= Seq::<Type>::empty());
        assert(ctx@.value_assoc =~= Seq::<ValueAssoc>::empty());
        assert(ctx@.value_users =~= Map::<u32, Seq<Instr>>::empty());
        ctx
    }

    /// Returns the number of blocks.
    pub fn len_blocks(&self) -> (len: usize)
        ensures
            len == self@.blocks.len(),
    {
        self.blocks.len()
    }

    /// Returns the number of values.
    pub fn len_values(&self) -> (len: usize)
        ensures
            len == self@.value_type.len(),
    {
        self.values.len()
    }

    /// Returns the number of instructions.
    pub fn len_instrs(&self) -> (len: usize)
        ensures
            len == self@.instrs.len(),
    {
        self.instrs.len()
    }

    /// Returns `true` if the function has the block.
    pub fn has_block(&self, block: Block) -> (found: bool)
        ensures
            found == self@.has_block(block),
    {
        self.blocks.contains_key(block)
    }

    /// Returns `true` if the function has the value.
    pub fn has_value(&self, value: Value) -> (found: bool)
        ensures
            found == self@.has_value(value),
    {
        self.values.contains_key(value)
    }

    /// Returns the data of the block.
    pub fn block(&self, block: Block) -> (data: &BlockData)
        requires
            self.store_wf(),
            self@.has_block(block),
        ensures
            data@ == self@.block(block),
    {
        self.block_data.index(block)
    }

    /// Returns the data of the block for changing it: what is written
    /// becomes the block, everything else stays.
    pub fn block_mut(&mut self, block: Block) -> (data: &mut BlockData)
        requires
            old(self).store_wf(),
            old(self)@.has_block(block),
        ensures
            *data == old(self).block_data@[block.index()],
            data@ == old(self)@.block(block),
            final(self).store_wf(),
            final(self)@ == (FunctionModel {
                blocks: old(self)@.blocks.update(block.index() as int, final(data)@),
                ..old(self)@
            }),
    {
        proof {
            lemma_blocks_of_insert(self.blocks@.len(), self.block_data@, block.index());
        }
        self.block_data.index_mut(block)
    }

    /// Returns the type of the value.
    pub fn type_of(&self, value: Value) -> (ty: Type)
        requires
            self.store_wf(),
            self@.has_value(value),
        ensures
            ty == self@.type_of(value),
    {
        *self.value_type.index(value)
    }

    /// Returns the origin of the value.
    pub fn assoc(&self, value: Value) -> (assoc: ValueAssoc)
        requires
            self.store_wf(),
            self@.has_value(value),
        ensures
            assoc == self@.assoc(value),
    {
        *self.value_assoc.index(value)
    }

    /// Returns the value that the instruction defines, if any.
    pub fn value_of(&self, instr: Instr) -> (value: Option<Value>)
        ensures
            value == self@.value_of(instr),
    {
        match self.instr_value.get(instr) {
            Some(value) => Some(*value),
            None => None,
        }
    }

    /// Adds a block without predecessors and instructions.
    pub fn push_block(&mut self) -> (block: Block)
        requires
            old(self).store_wf(),
            old(self)@.blocks.len() + 1 < u32::MAX,
        ensures
            final(self).store_wf(),
            block.index() == old(self)@.blocks.len(),
            final(self)@ == (FunctionModel {
                blocks: old(self)@.blocks.push(BlockModel::empty()),
                ..old(self)@
            }),
    {
        let block = self.blocks.allocate(BlockEntity);
        self.block_data.insert(block, BlockData::new());
        assert(final(self)@.blocks =~= old(self)@.blocks.push(BlockModel::empty()));
        block
    }

    /// Adds a value of the given type and origin.
    pub fn push_value(&mut self, ty: Type, assoc: ValueAssoc) -> (value: Value)
        requires
            old(self).store_wf(),
            old(self)@.value_type.len() + 1 < u32::MAX,
        ensures
            final(self).store_wf(),
            value.index() == old(self)@.value_type.len(),
            final(self)@ == (FunctionModel {
                value_type: old(self)@.value_type.push(ty),
                value_assoc: old(self)@.value_assoc.push(assoc),
                ..old(self)@
            }),
    {
        let value = self.values.allocate(ValueEntity);
        self.value_type.insert(value, ty);
        self.value_assoc.insert(value, assoc);
        assert(final(self)@.value_type =~= old(self)@.value_type.push(ty));
        assert(final(self)@.value_assoc =~= old(self)@.value_assoc.push(assoc));
        value
    }

    /// Adds an instruction. It belongs to no block yet.
    pub fn push_instr(&mut self, instruction: Instruction) -> (instr: Instr)
        requires
            old(self).store_wf(),
            old(self)@.instrs.len() + 1 < u32::MAX,
        ensures
            final(self).store_wf(),
            instr.index() == old(self)@.instrs.len(),
            final(self)@ == (FunctionModel {
                instrs: old(self)@.instrs.push(instruction),
                ..old(self)@
            }),
    {
        self.instrs.allocate(instruction)
    }

    /// Records the value that the instruction defines.
    pub fn set_instr_value(&mut self, instr: Instr, value: Value)
        requires
            old(self).store_wf(),
        ensures
            final(self).store_wf(),
            final(self)@ == (FunctionModel {
                instr_value: old(self)@.instr_value.insert(instr.index(), value),
                ..old(self)@
            }),
    {
        self.instr_value.insert(instr, value);
    }

    /// Records the instruction as a user of the value.
    pub fn add_user(&mut self, value: Value, instr: Instr)
        requires
            old(self).store_wf(),
        ensures
            final(self).store_wf(),
            final(self)@ == (FunctionModel {
                value_users: old(self)@.value_users.insert(
                    value.index(),
                    old(self)@.users(value).push(instr),
                ),
                ..old(self)@
            }),
    {
        if self.value_users.contains_key(value) {
            let users = self.value_users.index_mut(value);
            users.push(instr);
        } else {
            let mut users: Vec<Instr> = Vec::new();
            users.push(instr);
            self.value_users.insert(value, users);
        }
        assert(final(self)@.value_users =~= old(self)@.value_users.insert(
            value.index(),
            old(self)@.users(value).push(instr),
        ));
    }

    /// Takes the recorded users of the value: afterwards the value has none.
    pub fn take_users(&mut self, value: Value) -> (users: Vec<Instr>)
        requires
            old(self).store_wf(),
        ensures
            final(self).store_wf(),
            users@ == old(self)@.users(value),
            final(self)@ == (FunctionModel {
                value_users: old(self)@.value_users.remove(value.index()),
                ..old(self)@
            }),
    {
        let taken = self.value_users.remove(value);
        assert(final(self)@.value_users =~= old(self)@.value_users.remove(value.index()));
        match taken {
            Some(users) => users,
            None => Vec::new(),
        }
    }

    /// Returns a shared reference to the instruction.
    pub fn instr(&self, instr: Instr) -> (instruction: &Instruction)
        requires
            self@.has_instr(instr),
        ensures
            *instruction == self@.instr(instr),
    {
        self.instrs.index(instr)
    }

    /// Returns the instruction for changing it: what is written becomes the
    /// instruction, everything else stays.
    pub fn instr_mut(&mut self, instr: Instr) -> (instruction: &mut Instruction)
        requires
            old(self).store_wf(),
            old(self)@.has_instr(instr),
        ensures
            *instruction == old(self)@.instr(instr),
            final(self).store_wf(),
            final(self)@ == (FunctionModel {
                instrs: old(self)@.instrs.update(instr.index() as int, *final(instruction)),
                ..old(self)@
            }),
    {
        self.instrs.index_mut(instr)
    }

    /// Records the ϕ-instruction with the value as complete, in the block.
    pub fn insert_phi_block(&mut self, value: Value, block: Block)
        requires
            old(self).store_wf(),
        ensures
            final(self).store_wf(),
            final(self)@ == (FunctionModel {
                phi_block: old(self)@.phi_block.insert(value.index(), block),
                ..old(self)@
            }),
    {
        self.phi_block.insert(value, block);
    }

    /// Forgets the complete ϕ-instruction with the value and returns its block.
    pub fn remove_phi_block(&mut self, value: Value) -> (block: Option<Block>)
        requires
            old(self).store_wf(),
        ensures
            final(self).store_wf(),
            block == old(self)@.phi_block.get(value.index()),
            final(self)@ == (FunctionModel {
                phi_block: old(self)@.phi_block.remove(value.index()),
                ..old(self)@
            }),
    {
        self.phi_block.remove(value)
    }

    /// Returns the block of the complete ϕ-instruction with the value, if it is one.
    pub fn phi_block_of(&self, value: Value) -> (block: Option<Block>)
        ensures
            block == self@.phi_block.get(value.index()),
    {
        match self.phi_block.get(value) {
            Some(block) => Some(*block),
            None => None,
        }
    }
}

impl FunctionBuilderContext {
    /// Returns a copy of the storage: the same function, with instructions
    /// that are like those of this one.
    pub fn snapshot(&self) -> (ctx: Self)
        requires
            self.store_wf(),
        ensures
            ctx.store_wf(),
            ctx@.alike(self@),
    {
        let ctx = Self {
            current: self.current,
            blocks: self.blocks.clone(),
            values: self.values.clone(),
            instrs: self.instrs.clone(),
            block_data: self.block_data.clone(),
            instr_value: self.instr_value.clone(),
            value_type: self.value_type.clone(),
            value_assoc: self.value_assoc.clone(),
            value_users: self.value_users.clone(),
            phi_block: self.phi_block.clone(),
            vars: self.vars.clone(),
            inputs: self.inputs.clone(),
            outputs: self.outputs.clone(),
        };
        proof {
            assert forall|b: u32| (b as int) < self.blocks@.len() implies (
            #[trigger] ctx.block_data@[b])@ == self.block_data@[b]@ by {
                assert(self.block_data@.contains_key(b));
                assert(ctx.block_data@.contains_key(b));
            }
            assert(ctx@.blocks =~= self@.blocks);
            assert(ctx@.instr_value =~= self@.instr_value);
            assert forall|v: u32| (v as int) < self.values@.len() implies #[trigger] ctx.value_type@[v]
                == self.value_type@[v] by {
                assert(self.value_type@.contains_key(v));
                assert(ctx.value_type@.contains_key(v));
            }
            assert forall|v: u32| (v as int) < self.values@.len() implies #[trigger] ctx.value_assoc@[v]
                == self.value_assoc@[v] by {
                assert(self.value_assoc@.contains_key(v));
                assert(ctx.value_assoc@.contains_key(v));
            }
            assert(ctx@.value_type =~= self@.value_type);
            assert(ctx@.value_assoc =~= self@.value_assoc);
            assert forall|v: u32| self.value_users@.contains_key(v) implies ctx.value_users@[v]@
                == self.value_users@[v]@ by {
                assert(ctx.value_users@.contains_key(v));
                assert(ctx.value_users@[v]@ =~= self.value_users@[v]@);
            }
            assert(ctx@.value_users =~= self@.value_users);
            assert(ctx@.inputs =~= self@.inputs);
            assert(ctx@.outputs =~= self@.outputs);
        }
        ctx
    }
}

} // verus!
