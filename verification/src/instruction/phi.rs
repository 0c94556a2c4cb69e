//! The ϕ-instruction: selects one of its operands by the predecessor block
//! through which control entered.

use crate::entity::index::Index32;
use crate::error::{FunctionBuilderError, IrError};
use crate::instruction::visit::replace_in;
use crate::primitive::{Block, Type, Value};
use std::collections::BTreeMap;
use vstd::prelude::*;
use vstd::std_specs::btree::*;
use vstd::std_specs::cmp::OrdSpec;
use vstd::std_specs::iter::IteratorSpec;

verus! {

broadcast use {vstd::std_specs::btree::group_btree_axioms, vstd::laws_cmp::group_laws_cmp};

/// A ϕ-instruction whose operands are still being collected.
///
/// Holds one operand for each predecessor block known so far, ordered by the
/// index of the block.
#[derive(Debug, Default, PartialEq, Eq)]
pub struct IncompletePhi {
    operands: BTreeMap<u32, Value>,
}

impl View for IncompletePhi {
    type V = Map<u32, Value>;

    /// The operands by the index of the block that they flow from.
    closed spec fn view(&self) -> Map<u32, Value> {
        self.operands@
    }
}

/// The indices of the blocks.
pub open spec fn block_indices(blocks: Seq<Block>) -> Set<u32> {
    Set::new(
        |index: u32| exists|k: int| 0 <= k < blocks.len() && #[trigger] blocks[k].index() == index,
    )
}

impl IncompletePhi {
    /// Every operand flows from the index of a block.
    #[verifier::type_invariant]
    spec fn keys_are_indices(self) -> bool {
        forall|block: u32| self.operands@.contains_key(block) ==> block != u32::MAX
    }

    /// The operands are finitely many.
    pub proof fn lemma_finite(&self)
        ensures
            self@.dom().finite(),
    {
    }

    /// Whether the value is among the operands.
    pub open spec fn uses(&self, value: Value) -> bool {
        exists|block: u32| #[trigger] self@.contains_key(block) && self@[block] == value
    }

    /// The values that operands merge: all of them but the value of the
    /// ϕ-instruction itself.
    pub open spec fn merged(operands: Map<u32, Value>, phi_value: Value) -> Set<Value> {
        Set::new(
            |value: Value|
                value != phi_value && exists|block: u32| #[trigger]
                    operands.contains_key(block) && operands[block] == value,
        )
    }

    /// The operands other than the result of the ϕ-instruction itself.
    pub open spec fn foreign_operands(&self, phi_value: Value) -> Set<Value> {
        Self::merged(self@, phi_value)
    }

    /// Creates a ϕ-instruction without operands.
    pub fn new() -> (phi: Self)
        ensures
            phi@ == Map::<u32, Value>::empty(),
    {
        Self { operands: BTreeMap::new() }
    }

    /// Returns the number of operands.
    pub fn len(&self) -> (len: usize)
        ensures
            len == self@.len(),
    {
        self.operands.len()
    }

    /// Appends another ϕ-operand to the ϕ-instruction.
    ///
    /// Returns `Some` value if the ϕ-operand already existed for the ϕ-instruction.
    pub fn append_operand(&mut self, block: Block, value: Value) -> (previous: Option<Value>)
        ensures
            final(self)@ == old(self)@.insert(block.index(), value),
            previous == old(self)@.get(block.index()),
    {
        let index: u32 = block.into_u32();
        let mut taken = IncompletePhi::new();
        std::mem::swap(self, &mut taken);
        proof {
            use_type_invariant(&taken);
        }
        let IncompletePhi { operands: mut operands } = taken;
        let previous = operands.insert(index, value);
        *self = IncompletePhi { operands };
        previous
    }

    /// Returns the operand that flows from the block, if any.
    pub fn operand_for(&self, block: Block) -> (operand: Option<Value>)
        ensures
            operand == self@.get(block.index()),
    {
        let index: u32 = block.into_u32();
        match self.operands.get(&index) {
            Some(value) => Some(*value),
            None => None,
        }
    }

    /// Returns an iterator over the operands of the incomplete ϕ-instruction,
    /// ordered by the index of the block that they flow from.
    pub fn operands(&self) -> (iter: Iter)
        ensures
            iter@.len() == self@.len(),
            forall|i: int, j: int|
                0 <= i < j < iter@.len() ==> (#[trigger] iter@[i]).0.index() < (
                #[trigger] iter@[j]).0.index(),
            forall|i: int|
                0 <= i < iter@.len() ==> self@.contains_key((#[trigger] iter@[i]).0.index())
                    && self@[iter@[i].0.index()] == iter@[i].1,
            forall|block: u32|
                self@.contains_key(block) ==> exists|i: int|
                    0 <= i < iter@.len() && (#[trigger] iter@[i]).0.index() == block,
    {
        let mut items: Vec<(Block, Value)> = Vec::new();
        let ghost all = self.operands.iter().remaining();
        proof {
            use_type_invariant(self);
            assert forall|j: int| 0 <= j < all.len() implies *(#[trigger] all[j]).0
                != u32::MAX by {
                assert(self.operands@.contains_key(*all[j].0));
                assert(self@.contains_key(*all[j].0));
            }
        }
        for pair in it: self.operands.iter()
            invariant
                it.seq() == all,
                items@.len() == it.index(),
                forall|j: int|
                    0 <= j < items@.len() ==> (#[trigger] items@[j]).0.index() == *all[j].0
                        && items@[j].1 == *all[j].1,
                forall|j: int| 0 <= j < all.len() ==> *(#[trigger] all[j]).0 != u32::MAX,
        {
            let (block, value) = pair;
            items.push((Block::from_u32(*block), *value));
        }
        let iter = Iter { items, position: 0 };
        proof {
            let keys = all.map_values(|pair: (&u32, &Value)| *pair.0);
            assert(increasing_seq(keys));
            assert(vstd::laws_cmp::obeys_cmp::<u32>());
            axiom_increasing_seq_meaning(keys);
            assert(iter@ =~= iter.items@);
            assert forall|i: int, j: int| 0 <= i < j < iter@.len() implies (
            #[trigger] iter@[i]).0.index() < (#[trigger] iter@[j]).0.index() by {
                assert(keys[i].cmp_spec(&keys[j]) is Less);
            }
            assert forall|i: int| 0 <= i < iter@.len() implies self@.contains_key(
                (#[trigger] iter@[i]).0.index(),
            ) && self@[iter@[i].0.index()] == iter@[i].1 by {
                assert(self.operands@.contains_key(*all[i].0));
            }
            assert forall|block: u32| self@.contains_key(block) implies exists|i: int|
                0 <= i < iter@.len() && (#[trigger] iter@[i]).0.index() == block by {
                assert(all.contains((&block, &self.operands@[block])));
                let i = choose|i: int|
                    0 <= i < all.len() && all[i] == (&block, &self.operands@[block]);
                assert(iter@[i].0.index() == block);
            }
        }
        iter
    }

    /// Checks if the incomplete phi instruction is trivial.
    ///
    /// - If all operands other than `phi_value` itself are one value, the ϕ
    ///   is trivial and that value is returned.
    /// - If it merges at least two values it is not trivial and `None` is returned.
    ///
    /// # Errors
    ///
    /// If the incomplete phi instruction has no operand other than `phi_value`:
    /// it is unreachable or in the entry block.
    pub fn is_trivial(&self, phi_value: Value) -> (outcome: Result<Option<Value>, IrError>)
        ensures
            match outcome {
                Ok(Some(same)) => self.foreign_operands(phi_value) == set![same],
                Ok(None) => exists|a: Value, b: Value|
                    a != b && #[trigger] self.foreign_operands(phi_value).contains(a)
                        && #[trigger] self.foreign_operands(phi_value).contains(b),
                Err(error) => self.foreign_operands(phi_value) == Set::<Value>::empty() && error
                    == IrError::FunctionBuilder(
                    FunctionBuilderError::UnreachablePhi { value: phi_value },
                ),
            },
    {
        let mut same: Option<Value> = None;
        let ghost all = self.operands.iter().remaining();
        let ghost others = self.foreign_operands(phi_value);
        for pair in it: self.operands.iter()
            invariant
                it.seq() == all,
                all == self.operands.iter().remaining(),
                others == self.foreign_operands(phi_value),
                same matches Some(value) ==> others.contains(value),
                forall|j: int|
                    0 <= j < it.index() ==> *(#[trigger] all[j]).1 == phi_value || same == Some(
                        *all[j].1,
                    ),
        {
            let (block, op) = pair;
            assert(self@.contains_key(*block) && self@[*block] == *op) by {
                assert(pair == all[it.index()]);
                assert(self.operands@.contains_key(*all[it.index()].0));
            }
            if !(*op == phi_value) {
                assert(others.contains(*op));
                match same {
                    Some(value) => {
                        if !(value == *op) {
                            // The phi merges at least two values: not trivial.
                            return Ok(None);
                        }
                    },
                    None => {
                        same = Some(*op);
                    },
                }
            }
        }
        proof {
            assert forall|value: Value| others.contains(value) implies same == Some(value) by {
                let block = choose|block: u32| #[trigger]
                    self@.contains_key(block) && self@[block] == value;
                assert(all.contains((&block, &self.operands@[block])));
                let j = choose|j: int|
                    0 <= j < all.len() && all[j] == (&block, &self.operands@[block]);
                assert(*all[j].1 == value);
            }
        }
        match same {
            Some(value) => {
                assert(others =~= set![value]);
                Ok(Some(value))
            },
            None => {
                assert(others =~= Set::<Value>::empty());
                Err(IrError::FunctionBuilder(FunctionBuilderError::UnreachablePhi { value: phi_value }))
            },
        }
    }

    /// Returns `true` if the ϕ-instruction has an operand for each of the
    /// blocks, which are ordered by index, and for no other block.
    pub fn has_operands_for(&self, blocks: &Vec<Block>) -> (exact: bool)
        requires
            forall|i: int, j: int|
                0 <= i < j < blocks@.len() ==> (#[trigger] blocks@[i]).index() < (
                #[trigger] blocks@[j]).index(),
        ensures
            exact == (self@.dom() == block_indices(blocks@)),
    {
        let ghost indices = blocks@.map_values(|block: Block| block.index());
        proof {
            assert(indices.no_duplicates());
            indices.unique_seq_to_set();
            assert(indices.to_set() =~= block_indices(blocks@)) by {
                assert forall|index: u32| indices.to_set().contains(index) implies block_indices(
                    blocks@,
                ).contains(index) by {
                    let k = choose|k: int| 0 <= k < indices.len() && indices[k] == index;
                    assert(blocks@[k].index() == index);
                }
                assert forall|index: u32| block_indices(blocks@).contains(
                    index,
                ) implies indices.to_set().contains(index) by {
                    let k = choose|k: int|
                        0 <= k < blocks@.len() && #[trigger] blocks@[k].index() == index;
                    assert(indices[k] == index);
                }
            }
        }
        if self.operands.len() != blocks.len() {
            return false;
        }
        let mut k: usize = 0;
        while k < blocks.len()
            invariant
                k <= blocks@.len(),
                forall|j: int| 0 <= j < k ==> self@.contains_key((#[trigger] blocks@[j]).index()),
            decreases blocks@.len() - k,
        {
            if self.operand_for(blocks[k]).is_none() {
                proof {
                    assert(block_indices(blocks@).contains(blocks@[k as int].index()));
                }
                return false;
            }
            k = k + 1;
        }
        proof {
            assert(block_indices(blocks@).subset_of(self@.dom())) by {
                assert forall|index: u32| block_indices(blocks@).contains(
                    index,
                ) implies self@.dom().contains(index) by {
                    let k = choose|k: int|
                        0 <= k < blocks@.len() && #[trigger] blocks@[k].index() == index;
                }
            }
            vstd::set_lib::lemma_len_subset(block_indices(blocks@), self@.dom());
            vstd::set_lib::lemma_subset_equality(block_indices(blocks@), self@.dom());
        }
        true
    }

    /// Calls the visitor on the operands, ordered by the index of the block
    /// that they flow from, until it asks to stop.
    ///
    /// Returns `true` if the visitor asked to continue at every operand.
    pub fn visit_values<F: Fn(Value) -> bool>(&self, visitor: &F) -> (completed: bool)
        requires
            forall|value: Value| self.uses(value) ==> #[trigger] visitor.requires((value,)),
        ensures
            completed ==> forall|value: Value|
                self.uses(value) ==> #[trigger] visitor.ensures((value,), true),
            !completed ==> exists|value: Value|
                self.uses(value) && #[trigger] visitor.ensures((value,), false),
    {
        let ghost all = self.operands.iter().remaining();
        for pair in it: self.operands.iter()
            invariant
                it.seq() == all,
                all == self.operands.iter().remaining(),
                forall|value: Value| self.uses(value) ==> #[trigger] visitor.requires((value,)),
                forall|j: int|
                    0 <= j < it.index() ==> visitor.ensures((*(#[trigger] all[j]).1,), true),
        {
            let (block, value) = pair;
            assert(self.uses(*value)) by {
                assert(pair == all[it.index()]);
                assert(self.operands@.contains_key(*all[it.index()].0));
                assert(self@.contains_key(*block) && self@[*block] == *value);
            }
            if !visitor(*value) {
                return false;
            }
        }
        proof {
            assert forall|value: Value| self.uses(value) implies #[trigger] visitor.ensures(
                (value,),
                true,
            ) by {
                let block = choose|block: u32| #[trigger]
                    self@.contains_key(block) && self@[block] == value;
                assert(all.contains((&block, &self.operands@[block])));
                let j = choose|j: int|
                    0 <= j < all.len() && all[j] == (&block, &self.operands@[block]);
                assert(*all[j].1 == value);
            }
        }
        true
    }

    /// Replaces the `replace_value` with `with_value` in the entire incomplete phi instruction.
    ///
    /// Returns `true` if at least one value has actually been replaced by this operation.
    pub fn replace_value(&mut self, replace_value: Value, with_value: Value) -> (replaced: bool)
        ensures
            final(self)@ == old(self)@.map_values(
                |value: Value| replace_in(value, replace_value, with_value),
            ),
            replaced == old(self).uses(replace_value),
    {
        let mut replaced = false;
        let mut updated: BTreeMap<u32, Value> = BTreeMap::new();
        let ghost before = self.operands@;
        let ghost all = self.operands.iter().remaining();
        let ghost mut done: Set<u32> = Set::empty();
        for pair in it: self.operands.iter()
            invariant
                it.seq() == all,
                before == self.operands@,
                all == self.operands.iter().remaining(),
                forall|j: int| 0 <= j < it.index() ==> done.contains(*(#[trigger] all[j]).0),
                forall|block: u32|
                    done.contains(block) <==> #[trigger] updated@.contains_key(block),
                forall|block: u32| #[trigger]
                    done.contains(block) ==> before.contains_key(block) && updated@[block]
                        == replace_in(before[block], replace_value, with_value),
                replaced <==> exists|block: u32| #[trigger]
                    done.contains(block) && before[block] == replace_value,
        {
            let (block, value) = pair;
            assert(before.contains_key(*block) && before[*block] == *value) by {
                assert(pair == all[it.index()]);
                assert(self.operands@.contains_key(*all[it.index()].0));
            }
            let ghost former = done;
            if *value == replace_value {
                updated.insert(*block, with_value);
                replaced = true;
            } else {
                updated.insert(*block, *value);
            }
            proof {
                done = done.insert(*block);
                assert(done.contains(*block));
                assert(forall|b: u32| former.contains(b) ==> done.contains(b));
                if *value == replace_value {
                    assert(done.contains(*block) && before[*block] == replace_value);
                } else {
                    if exists|b: u32| #[trigger] done.contains(b) && before[b] == replace_value {
                        let b = choose|b: u32| #[trigger]
                            done.contains(b) && before[b] == replace_value;
                        assert(b != *block);
                        assert(former.contains(b));
                        assert(former.contains(b) && before[b] == replace_value);
                    }
                    if exists|b: u32| #[trigger]
                        former.contains(b) && before[b] == replace_value {
                        let b = choose|b: u32| #[trigger]
                            former.contains(b) && before[b] == replace_value;
                        assert(done.contains(b) && before[b] == replace_value);
                    }
                }
            }
        }
        proof {
            let mapped = before.map_values(
                |value: Value| replace_in(value, replace_value, with_value),
            );
            assert forall|block: u32| before.contains_key(block) implies done.contains(block) by {
                assert(all.contains((&block, &before[block])));
                let j = choose|j: int| 0 <= j < all.len() && all[j] == (&block, &before[block]);
                assert(done.contains(*all[j].0));
            }
            assert(updated@ =~= mapped);
            use_type_invariant(&*self);
            if replaced {
                let b = choose|b: u32| #[trigger] done.contains(b) && before[b] == replace_value;
                assert(before.contains_key(b));
            }
        }
        self.operands = updated;
        replaced
    }
}

impl Clone for IncompletePhi {
    fn clone(&self) -> (phi: Self)
        ensures
            phi@ == self@,
    {
        proof {
            use_type_invariant(self);
        }
        Self { operands: self.operands.clone() }
    }
}

/// A ϕ-instruction: produces the operand that flows from the predecessor
/// block through which control entered its block.
#[derive(Debug, PartialEq, Eq)]
pub struct PhiInstr {
    /// The type of the operands and of the result.
    pub value_type: Type,
    /// The operands by the block that they flow from.
    pub operands: IncompletePhi,
}

impl PhiInstr {
    /// Creates a ϕ-instruction of the given type without operands.
    pub fn new(value_type: Type) -> (instr: Self)
        ensures
            instr.value_type == value_type,
            instr.operands@ == Map::<u32, Value>::empty(),
    {
        Self { value_type, operands: IncompletePhi::new() }
    }

    /// The type of the value that the instruction produces.
    pub open spec fn result_type(self) -> Type {
        self.value_type
    }

    /// Returns the type of the value that the instruction produces.
    pub fn ty(&self) -> (ty: Type)
        ensures
            ty == self.result_type(),
    {
        self.value_type
    }

    /// Whether the instruction uses the value.
    pub open spec fn uses(self, value: Value) -> bool {
        self.operands.uses(value)
    }

    /// Whether `self` is `before` with every use of `replace` turned into `with`.
    pub open spec fn replaces(self, before: Self, replace: Value, with: Value) -> bool {
        &&& self.value_type == before.value_type
        &&& self.operands@ == before.operands@.map_values(
            |value: Value| replace_in(value, replace, with),
        )
    }

    /// Returns the operand that flows from the block, if any.
    pub fn operand_for(&self, block: Block) -> (operand: Option<Value>)
        ensures
            operand == self.operands@.get(block.index()),
    {
        self.operands.operand_for(block)
    }

    /// Appends another ϕ-operand to the ϕ-instruction.
    ///
    /// Returns `Some` value if the ϕ-operand already existed for the ϕ-instruction.
    pub fn append_operand(&mut self, block: Block, value: Value) -> (previous: Option<Value>)
        ensures
            final(self).value_type == old(self).value_type,
            final(self).operands@ == old(self).operands@.insert(block.index(), value),
            previous == old(self).operands@.get(block.index()),
    {
        self.operands.append_operand(block, value)
    }

    /// Calls the visitor on the used values in order until it asks to stop.
    ///
    /// Returns `true` if the visitor asked to continue at every value.
    pub fn visit_values<F: Fn(Value) -> bool>(&self, visitor: &F) -> (completed: bool)
        requires
            forall|value: Value| self.uses(value) ==> #[trigger] visitor.requires((value,)),
        ensures
            completed ==> forall|value: Value|
                self.uses(value) ==> #[trigger] visitor.ensures((value,), true),
            !completed ==> exists|value: Value|
                self.uses(value) && #[trigger] visitor.ensures((value,), false),
    {
        self.operands.visit_values(visitor)
    }

    /// Replaces every use of `replace` by `with`.
    ///
    /// Returns `true` if a value has been replaced in the instruction.
    pub fn replace_value(&mut self, replace: Value, with: Value) -> (replaced: bool)
        ensures
            final(self).replaces(*old(self), replace, with),
            replaced == old(self).uses(replace),
    {
        self.operands.replace_value(replace, with)
    }
}

/// Iterator over the operands of a ϕ-instruction.
#[derive(Debug)]
pub struct Iter {
    items: Vec<(Block, Value)>,
    position: usize,
}

impl View for Iter {
    type V = Seq<(Block, Value)>;

    /// The operands that are still to come, each with the block that it flows from.
    closed spec fn view(&self) -> Seq<(Block, Value)> {
        self.items@.skip(self.position as int)
    }
}

impl Iter {
    #[verifier::type_invariant]
    spec fn inv(self) -> bool {
        self.position <= self.items@.len()
    }

    /// Returns the number of operands that are still to come.
    pub fn len(&self) -> (len: usize)
        ensures
            len == self@.len(),
    {
        proof {
            use_type_invariant(self);
        }
        self.items.len() - self.position
    }

    /// Advances the iterator and returns the next operand with its block.
    pub fn next(&mut self) -> (item: Option<(Block, Value)>)
        ensures
            match item {
                Some(operand) => old(self)@.len() > 0 && operand == old(self)@[0] && final(self)@
                    == old(self)@.drop_first(),
                None => old(self)@.len() == 0 && final(self)@ == old(self)@,
            },
    {
        proof {
            use_type_invariant(&*self);
        }
        if self.position < self.items.len() {
            let item = self.items[self.position];
            self.position = self.position + 1;
            assert(final(self)@ =~= old(self)@.drop_first());
            Some(item)
        } else {
            None
        }
    }
}

impl PhiInstr {
    /// Whether the two ϕ-instructions have the same type and the same
    /// operands.
    pub open spec fn alike(self, other: Self) -> bool {
        self.value_type == other.value_type && self.operands@ == other.operands@
    }
}

impl Clone for PhiInstr {
    fn clone(&self) -> (instr: Self)
        ensures
            instr.alike(*self),
    {
        Self { value_type: self.value_type, operands: self.operands.clone() }
    }
}

} // verus!
