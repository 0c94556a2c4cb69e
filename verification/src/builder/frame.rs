//! What reading variables and sealing blocks leave as it is, and how far
//! they can go.

use crate::builder::model::{has_index, BlockModel, FunctionModel, ValueAssoc};
use crate::entity::index::Index32;
use crate::instruction::phi::block_indices;
use crate::instruction::visit::replace_in;
use crate::instruction::{Instr, Instruction};
use crate::primitive::{Block, Type, Value, Variable};
use vstd::prelude::*;

verus! {

/// The number of blocks below `blocks` in which the variable has no definition.
pub open spec fn count_undefined(defs: Map<(u32, u32), Value>, var: u32, blocks: nat) -> nat
    decreases blocks,
{
    if blocks == 0 {
        0
    } else {
        count_undefined(defs, var, (blocks - 1) as nat) + if defs.contains_key(
            (var, (blocks - 1) as u32),
        ) {
            0nat
        } else {
            1nat
        }
    }
}

/// There are no more blocks without a definition than there are blocks.
pub proof fn lemma_count_bound(defs: Map<(u32, u32), Value>, var: u32, blocks: nat)
    ensures
        count_undefined(defs, var, blocks) <= blocks,
    decreases blocks,
{
    if blocks > 0 {
        lemma_count_bound(defs, var, (blocks - 1) as nat);
    }
}

/// More definitions leave no more blocks without one.
pub proof fn lemma_count_monotone(
    defs: Map<(u32, u32), Value>,
    more: Map<(u32, u32), Value>,
    var: u32,
    blocks: nat,
)
    requires
        forall|block: u32| defs.contains_key((var, block)) ==> more.contains_key((var, block)),
    ensures
        count_undefined(more, var, blocks) <= count_undefined(defs, var, blocks),
    decreases blocks,
{
    if blocks > 0 {
        lemma_count_monotone(defs, more, var, (blocks - 1) as nat);
    }
}

/// A definition in a block that had none leaves fewer blocks without one.
pub proof fn lemma_count_decreases(
    defs: Map<(u32, u32), Value>,
    more: Map<(u32, u32), Value>,
    var: u32,
    blocks: nat,
    at: u32,
)
    requires
        forall|block: u32| defs.contains_key((var, block)) ==> more.contains_key((var, block)),
        at < blocks,
        blocks <= u32::MAX,
        !defs.contains_key((var, at)),
        more.contains_key((var, at)),
    ensures
        count_undefined(more, var, blocks) < count_undefined(defs, var, blocks),
    decreases blocks,
{
    if blocks - 1 == at {
        lemma_count_monotone(defs, more, var, (blocks - 1) as nat);
    } else {
        lemma_count_decreases(defs, more, var, (blocks - 1) as nat, at);
    }
}

impl FunctionModel {
    /// The number of blocks in which the variable has no definition.
    pub open spec fn undefined(self, var: Variable) -> nat {
        count_undefined(self.vars.defs, var.index(), self.blocks.len())
    }

    /// Whether `self` has come from `before` by reading variables and
    /// sealing blocks.
    ///
    /// The blocks keep their predecessors, their flags and their
    /// instructions other than ϕ-instructions. Instructions keep their kind;
    /// new instructions are ϕ-instructions. Values keep their type and
    /// origin. Variables keep their types and their definitions stay
    /// defined. A sealed block with exactly one predecessor gains no
    /// ϕ-instruction.
    pub open spec fn extends(self, before: Self) -> bool {
        &&& self.current == before.current
        &&& self.inputs == before.inputs
        &&& self.outputs == before.outputs
        &&& self.blocks.len() == before.blocks.len()
        &&& forall|b: int|
            0 <= b < self.blocks.len() ==> {
                &&& (#[trigger] self.blocks[b]).preds == before.blocks[b].preds
                &&& self.blocks[b].instrs == before.blocks[b].instrs
                &&& self.blocks[b].filled == before.blocks[b].filled
                &&& before.blocks[b].sealed ==> self.blocks[b].sealed
            }
        &&& forall|b: int, k: int|
            0 <= b < self.blocks.len() && before.blocks[b].sealed && before.blocks[b].preds.len()
                == 1 && 0 <= k < self.blocks[b].phis.len() ==> before.blocks[b].phis.contains(
                #[trigger] self.blocks[b].phis[k],
            )
        &&& before.instrs.len() <= self.instrs.len()
        &&& forall|i: int|
            0 <= i < before.instrs.len() ==> Self::same_shape(
                before.instrs[i],
                #[trigger] self.instrs[i],
            )
        &&& forall|i: int|
            before.instrs.len() <= i < self.instrs.len() ==> #[trigger] self.instrs[i] is Phi
        &&& before.value_type.len() <= self.value_type.len()
        &&& forall|v: int|
            0 <= v < before.value_type.len() ==> #[trigger] self.value_type[v]
                == before.value_type[v]
        &&& forall|v: int|
            0 <= v < before.value_assoc.len() ==> #[trigger] self.value_assoc[v]
                == before.value_assoc[v]
        &&& forall|i: u32|
            before.instr_value.contains_key(i) ==> #[trigger] self.instr_value.contains_key(i)
                && self.instr_value[i] == before.instr_value[i]
        &&& self.vars.types == before.vars.types
        &&& forall|key: (u32, u32)|
            before.vars.defs.contains_key(key) ==> #[trigger] self.vars.defs.contains_key(key)
    }

    /// Whether `self` is `before` without the trivial ϕ-instruction with
    /// the given value, which merges nothing but `same`: it is no
    /// ϕ-instruction of its block any more, and `same` stands for its value
    /// in every instruction and in the definition of every variable.
    pub open spec fn collapsed(self, before: Self, phi_value: Value, same: Value) -> bool {
        let block = before.phi_block[phi_value.index()];
        &&& before.assoc(phi_value) matches ValueAssoc::Instr(instr)
        &&& self.blocks == before.blocks.update(
            block.index() as int,
            BlockModel {
                phis: before.block(block).phis.remove_value(instr),
                ..before.block(block)
            },
        )
        &&& self.phi_block == before.phi_block.remove(phi_value.index())
        &&& self.vars.types == before.vars.types
        &&& self.vars.defs == before.vars.defs.map_values(
            |value: Value| replace_in(value, phi_value, same),
        )
        &&& self.instrs.len() == before.instrs.len()
        &&& forall|i: int|
            0 <= i < self.instrs.len() ==> (#[trigger] self.instrs[i]).replaces(
                before.instrs[i],
                phi_value,
                same,
            )
        &&& self.instr_value == before.instr_value
        &&& self.value_type == before.value_type
        &&& self.value_assoc == before.value_assoc
        &&& self.current == before.current
        &&& self.inputs == before.inputs
        &&& self.outputs == before.outputs
        &&& forall|value: Value|
            value != same ==> #[trigger] self.users(value) == if value == phi_value {
                Seq::<Instr>::empty()
            } else {
                before.users(value)
            }
        &&& forall|i: int| has_index(before.users(same), i) ==> has_index(self.users(same), i)
    }

    /// Whether the ϕ-instructions of `before` have operands for the same
    /// blocks in `self`, but for the one with the value `own`, if there
    /// is one.
    pub open spec fn keeps_operand_blocks(self, before: Self, own: Option<Value>) -> bool {
        forall|value: Value|
            before.has_value(value) && Some(value) != own ==> (#[trigger] self.operands_of(
                value,
            )).dom() == before.operands_of(value).dom()
    }

    /// Whether the error tells of a ϕ-instruction without an operand but
    /// itself.
    pub open spec fn is_unreachable_phi(error: crate::error::IrError) -> bool {
        exists|value: Value|
            error == crate::error::IrError::FunctionBuilder(
                crate::error::FunctionBuilderError::UnreachablePhi { value },
            )
    }

    /// Whether the error is one that reading the variable can end in: the
    /// variable is read before it is written, or a ϕ-instruction has no
    /// operand but itself.
    pub open spec fn is_read_error(var: Variable, error: crate::error::IrError) -> bool {
        error == crate::error::IrError::FunctionBuilder(
            crate::error::FunctionBuilderError::ReadBeforeWriteVariable { variable: var },
        ) || Self::is_unreachable_phi(error)
    }

    /// What keeps the blocks of the operands of what keeps them keeps them.
    pub proof fn lemma_keeps_operand_blocks(
        self,
        middle: Self,
        before: Self,
        first: Option<Value>,
        second: Option<Value>,
    )
        requires
            middle.keeps_operand_blocks(before, first),
            self.keeps_operand_blocks(middle, second),
            before.value_type.len() <= middle.value_type.len(),
            second.is_none() || second == first,
        ensures
            self.keeps_operand_blocks(before, first),
    {
        assert forall|value: Value| before.has_value(value) && Some(value) != first implies (
        #[trigger] self.operands_of(value)).dom() == before.operands_of(value).dom() by {
            assert(middle.has_value(value));
            assert(middle.operands_of(value).dom() == before.operands_of(value).dom());
        }
    }

    /// A replacement of values in all instructions leaves every
    /// ϕ-instruction with operands for the same blocks.
    pub proof fn lemma_replaced_keeps_blocks(self, before: Self, replace: Value, with: Value)
        requires
            self.value_type.len() == before.value_type.len(),
            self.value_assoc == before.value_assoc,
            self.instrs.len() == before.instrs.len(),
            before.wf(),
            forall|i: int|
                0 <= i < self.instrs.len() ==> (#[trigger] self.instrs[i]).replaces(
                    before.instrs[i],
                    replace,
                    with,
                ),
        ensures
            self.keeps_operand_blocks(before, None),
    {
        assert forall|value: Value| before.has_value(value) implies (#[trigger] self.operands_of(
            value,
        )).dom() == before.operands_of(value).dom() by {
            let v = value.index() as int;
            if let ValueAssoc::Instr(instr) = before.value_assoc[v] {
                assert(before.has_instr(instr));
                let i = instr.index() as int;
                self.instrs[i].lemma_replaces_keeps_shape(before.instrs[i], replace, with);
            }
        }
    }

    /// Whether the ϕ-instruction with the value is recorded as complete
    /// and merges fewer than two values: it is trivial, and was not found
    /// so yet.
    pub open spec fn is_trivial_phi(self, value: Value) -> bool {
        self.phi_block.contains_key(value.index()) && !self.phi_merges_several(value)
    }

    /// Whether every complete ϕ-instruction of `self` that is trivial was
    /// so in `before`: none is left trivial that was turned so.
    pub open spec fn adds_no_trivial_phi(self, before: Self) -> bool {
        forall|value: Value| #[trigger] self.is_trivial_phi(value) ==> before.is_trivial_phi(value)
    }

    /// Whether the operand of the ϕ-instruction with the value that flows
    /// from the block with the index `pred` is the definition with the key.
    pub open spec fn agrees(self, value: Value, pred: u32, key: (u32, u32)) -> bool {
        &&& self.operands_of(value).contains_key(pred)
        &&& self.vars.defs.contains_key(key)
        &&& self.operands_of(value)[pred] == self.vars.defs[key]
    }

    /// Whether every operand of a ϕ-instruction of `before`, but of the one
    /// with the value `own`, that was a definition of `before` is that
    /// definition in `self`.
    pub open spec fn keeps_agreement(self, before: Self, own: Option<Value>) -> bool {
        forall|value: Value, pred: u32, key: (u32, u32)|
            before.has_value(value) && Some(value) != own && #[trigger] before.agrees(
                value,
                pred,
                key,
            ) ==> self.agrees(value, pred, key)
    }

    /// What keeps the agreement of what keeps it keeps it.
    pub proof fn lemma_keeps_agreement(
        self,
        middle: Self,
        before: Self,
        first: Option<Value>,
        second: Option<Value>,
    )
        requires
            middle.keeps_agreement(before, first),
            self.keeps_agreement(middle, second),
            before.value_type.len() <= middle.value_type.len(),
            second.is_none() || second == first,
        ensures
            self.keeps_agreement(before, first),
    {
        assert forall|value: Value, pred: u32, key: (u32, u32)|
            before.has_value(value) && Some(value) != first && #[trigger] before.agrees(
                value,
                pred,
                key,
            ) implies self.agrees(value, pred, key) by {
            assert(middle.agrees(value, pred, key));
            assert(middle.has_value(value));
        }
    }

    /// After a trivial ϕ-instruction has given way to the value that it
    /// merged, the operands that were definitions are those definitions.
    pub proof fn lemma_collapse_agrees(self, before: Self, phi_value: Value, same: Value)
        requires
            before.wf(),
            self.collapsed(before, phi_value, same),
        ensures
            self.keeps_agreement(before, None),
    {
        assert forall|value: Value, pred: u32, key: (u32, u32)|
            before.has_value(value) && #[trigger] before.agrees(
                value,
                pred,
                key,
            ) implies self.agrees(value, pred, key) by {
            let v = value.index() as int;
            if let ValueAssoc::Instr(at) = before.value_assoc[v] {
                assert(before.has_instr(at));
                let i = at.index() as int;
                assert(self.instrs[i].replaces(before.instrs[i], phi_value, same));
            }
        }
    }

    /// Whether nothing refers to the value: no instruction uses it, and it
    /// is no definition of a variable.
    pub open spec fn is_unreferenced(self, value: Value) -> bool {
        &&& forall|i: int| 0 <= i < self.instrs.len() ==> !(#[trigger] self.instrs[i]).uses(value)
        &&& forall|key: (u32, u32)| #[trigger]
            self.vars.defs.contains_key(key) ==> self.vars.defs[key] != value
    }

    /// Whether the values of `before` that nothing referred to are still
    /// values that nothing refers to, and nothing refers to a
    /// ϕ-instruction of `before` that is no longer recorded as complete.
    pub open spec fn retires_phis(self, before: Self) -> bool {
        &&& forall|value: Value|
            before.has_value(value) && before.is_unreferenced(value)
                ==> #[trigger] self.is_unreferenced(value)
        &&& forall|value: Value|
            before.phi_block.contains_key(value.index()) && !self.phi_block.contains_key(
                value.index(),
            ) ==> #[trigger] self.is_unreferenced(value)
    }

    /// What retires the ϕ-instructions of what retires them retires them.
    pub proof fn lemma_retires_phis(self, middle: Self, before: Self)
        requires
            self.retires_phis(middle),
            middle.retires_phis(before),
            before.value_type.len() <= middle.value_type.len(),
            before.phis_wf(),
            before.value_type.len() == before.value_assoc.len(),
        ensures
            self.retires_phis(before),
    {
        assert forall|value: Value|
            before.has_value(value) && before.is_unreferenced(
                value,
            ) implies #[trigger] self.is_unreferenced(value) by {
            assert(middle.is_unreferenced(value));
        }
        assert forall|value: Value|
            before.phi_block.contains_key(value.index()) && !self.phi_block.contains_key(
                value.index(),
            ) implies #[trigger] self.is_unreferenced(value) by {
            if !middle.phi_block.contains_key(value.index()) {
                assert(middle.is_unreferenced(value));
                assert(before.has_value(value));
                assert(middle.has_value(value));
            }
        }
    }

    /// After a trivial ϕ-instruction has given way to the value that it
    /// merged, nothing refers to it, and nothing has come to refer to a
    /// value that nothing referred to.
    pub proof fn lemma_collapse_retires(self, before: Self, phi_value: Value, same: Value)
        requires
            before.wf(),
            before.phi_block.contains_key(phi_value.index()),
            before.phi_operands(phi_value).contains(same),
            self.collapsed(before, phi_value, same),
        ensures
            self.retires_phis(before),
            self.is_unreferenced(phi_value),
    {
        let v = phi_value.index() as int;
        assert(v < before.value_assoc.len());
        let own = before.value_assoc[v]->Instr_0;
        assert(before.has_instr(own));
        assert(before.instrs[own.index() as int].uses(same));
        assert(same != phi_value);
        assert forall|i: int, value: Value|
            0 <= i < self.instrs.len() && #[trigger] self.instrs[i].uses(value) implies value
            != phi_value && (before.instrs[i].uses(value) || value == same) by {
            self.instrs[i].lemma_replaces_uses(before.instrs[i], phi_value, same);
        }
        assert forall|value: Value|
            before.has_value(value) && before.is_unreferenced(
                value,
            ) implies #[trigger] self.is_unreferenced(value) by {
            assert(value != same);
            assert forall|i: int| 0 <= i < self.instrs.len() implies !(
            #[trigger] self.instrs[i]).uses(value) by {
                if self.instrs[i].uses(value) {
                    assert(before.instrs[i].uses(value));
                }
            }
        }
        assert(self.is_unreferenced(phi_value)) by {
            assert forall|i: int| 0 <= i < self.instrs.len() implies !(
            #[trigger] self.instrs[i]).uses(phi_value) by {}
        }
        assert forall|value: Value|
            before.phi_block.contains_key(value.index()) && !self.phi_block.contains_key(
                value.index(),
            ) implies #[trigger] self.is_unreferenced(value) by {
            Value::lemma_index_injective(value, phi_value);
        }
    }

    /// Whether every complete ϕ-instruction of `self` but the one with the
    /// value `own` that is trivial was so in `before`.
    pub open spec fn adds_no_trivial_phi_but(self, before: Self, own: Value) -> bool {
        forall|value: Value|
            value != own && #[trigger] self.is_trivial_phi(value) ==> before.is_trivial_phi(value)
    }

    /// Functions with the same complete ϕ-instructions, with the same
    /// operands, have the same trivial ϕ-instructions.
    pub proof fn lemma_same_phis(self, before: Self, own: Option<Value>)
        requires
            self.phi_block == before.phi_block || (own matches Some(value) && self.phi_block
                == before.phi_block.insert(value.index(), self.phi_block[value.index()])),
            forall|value: Value|
                Some(value) != own ==> #[trigger] self.phi_operands(value) == before.phi_operands(
                    value,
                ),
        ensures
            forall|value: Value|
                Some(value) != own ==> #[trigger] self.is_trivial_phi(value)
                    == before.is_trivial_phi(value),
    {
        assert forall|value: Value| Some(value) != own implies #[trigger] self.is_trivial_phi(
            value,
        ) == before.is_trivial_phi(value) by {
            assert(self.phi_operands(value) == before.phi_operands(value));
            if let Some(mine) = own {
                if value.index() == mine.index() {
                    Value::lemma_index_injective(value, mine);
                }
            }
        }
    }

    /// Whether the ϕ-instruction with the value is trivial without having
    /// been so in `before`, and is the value of none of the instructions
    /// from the position `from` on.
    pub open spec fn turned_trivial(
        self,
        before: Self,
        value: Value,
        phi_value: Value,
        users: Seq<Instr>,
        from: int,
    ) -> bool {
        &&& self.is_trivial_phi(value)
        &&& !(before.is_trivial_phi(value) && value != phi_value)
        &&& forall|j: int| from <= j < users.len() ==> before.value_of(#[trigger] users[j]) != Some(
            value,
        )
    }

    /// Where the ϕ-instruction that the instruction at a position defines
    /// has been checked, or is none that is recorded as complete, the
    /// ϕ-instructions that have turned trivial are the values of the
    /// instructions behind that position.
    pub proof fn lemma_turns_after(
        self,
        middle: Self,
        before: Self,
        phi_value: Value,
        users: Seq<Instr>,
        k: int,
        checked: Option<Value>,
    )
        requires
            0 <= k < users.len(),
            forall|value: Value| !#[trigger] middle.turned_trivial(before, value, phi_value, users, k),
            checked.is_none() ==> self == middle && forall|value: Value| #[trigger]
                middle.is_trivial_phi(value) ==> before.value_of(users[k]) != Some(value),
            checked matches Some(own) ==> self.adds_no_trivial_phi(middle) && !self.is_trivial_phi(
                own,
            ) && before.value_of(users[k]) == Some(own),
        ensures
            forall|value: Value|
                !#[trigger] self.turned_trivial(before, value, phi_value, users, k + 1),
    {
        assert forall|value: Value| !#[trigger] self.turned_trivial(
            before,
            value,
            phi_value,
            users,
            k + 1,
        ) by {
            if self.turned_trivial(before, value, phi_value, users, k + 1) {
                assert(self.is_trivial_phi(value));
                assert(middle.is_trivial_phi(value));
                assert(before.value_of(users[k]) != Some(value));
                assert forall|j: int| k <= j < users.len() implies before.value_of(
                    #[trigger] users[j],
                ) != Some(value) by {}
                assert(middle.turned_trivial(before, value, phi_value, users, k));
            }
        }
    }

    /// After a trivial ϕ-instruction has given way to the value that it
    /// merged, the ϕ-instructions that have turned trivial are among those
    /// that used its value.
    pub proof fn lemma_collapse_turns(self, before: Self, phi_value: Value, same: Value)
        requires
            before.wf(),
            before.phi_block.contains_key(phi_value.index()),
            self.collapsed(before, phi_value, same),
        ensures
            forall|value: Value|
                !#[trigger] self.turned_trivial(
                    before,
                    value,
                    phi_value,
                    before.users(phi_value),
                    0,
                ),
    {
        let users = before.users(phi_value);
        assert forall|value: Value| !#[trigger] self.turned_trivial(
            before,
            value,
            phi_value,
            users,
            0,
        ) by {
            if self.is_trivial_phi(value) && !(before.is_trivial_phi(value) && value
                != phi_value) {
                assert(before.phi_block.contains_key(value.index()));
                if value.index() == phi_value.index() {
                    Value::lemma_index_injective(value, phi_value);
                }
                assert(value != phi_value);
                assert(before.phi_merges_several(value));
                let v = value.index() as int;
                assert(v < before.value_assoc.len());
                let at = before.value_assoc[v]->Instr_0;
                let i = at.index() as int;
                assert(before.has_instr(at));
                assert(self.instrs[i].replaces(before.instrs[i], phi_value, same));
                assert(before.instr_value.contains_key(at.index()));
                Value::lemma_index_injective(before.instr_value[at.index()], value);
                if !before.instrs[i].uses(phi_value) {
                    let was = before.operands_of(value);
                    let now = self.operands_of(value);
                    assert(now =~= was) by {
                        assert forall|block: u32| was.contains_key(block) implies replace_in(
                            was[block],
                            phi_value,
                            same,
                        ) == was[block] by {
                            if was[block] == phi_value {
                                assert(before.instrs[i].uses(phi_value));
                            }
                        }
                    }
                    assert(self.phi_operands(value) == before.phi_operands(value));
                    assert(false);
                }
                assert(has_index(users, i));
                let j = choose|j: int| 0 <= j < users.len() && #[trigger] users[j].index() == i;
                Instr::lemma_index_injective(users[j], at);
                assert(before.value_of(users[j]) == Some(value));
            }
        }
    }

    /// Whether `self` is `before` without one ϕ-instruction that was
    /// recorded as complete and merged exactly one value: it has given way
    /// to that value.
    pub open spec fn removes_trivial(self, before: Self) -> bool {
        exists|phi_value: Value, same: Value|
            {
                &&& before.phi_block.contains_key(phi_value.index())
                &&& before.phi_operands(phi_value).contains(same)
                &&& !before.phi_merges_several(phi_value)
                &&& #[trigger] self.collapsed(before, phi_value, same)
            }
    }

    /// Whether every function of the trace but the first is the one before
    /// it without one trivial ϕ-instruction.
    pub open spec fn is_cascade(trace: Seq<Self>) -> bool {
        &&& trace.len() >= 1
        &&& forall|i: int|
            0 <= i < trace.len() - 1 ==> trace[i + 1].removes_trivial(#[trigger] trace[i])
    }

    /// What the check of the complete ϕ-instruction with the given value
    /// leaves behind, where `trace` holds the function before the check and
    /// after every removal of a ϕ-instruction, and `self` is the last of
    /// them.
    ///
    /// A ϕ-instruction that merges several values stays. One that merges
    /// exactly one value gives way to it first; then further trivial
    /// ϕ-instructions give way, one after the other. The check fails where
    /// a ϕ-instruction is left with no operand but itself, and names it.
    pub open spec fn cascaded(
        self,
        before: Self,
        trace: Seq<Self>,
        phi_value: Value,
        outcome: Result<(), crate::error::IrError>,
    ) -> bool {
        &&& Self::is_cascade(trace)
        &&& trace[0] == before
        &&& trace.last() == self
        &&& if before.phi_merges_several(phi_value) || before.phi_merges_nothing(phi_value) {
            trace.len() == 1
        } else {
            &&& trace.len() >= 2
            &&& forall|same: Value| #[trigger]
                before.phi_operands(phi_value).contains(same) ==> trace[1].collapsed(
                    before,
                    phi_value,
                    same,
                )
        }
        &&& before.phi_merges_several(phi_value) ==> outcome.is_ok()
        &&& outcome matches Err(error) ==> exists|value: Value|
            {
                &&& error == crate::error::IrError::FunctionBuilder(
                    crate::error::FunctionBuilderError::UnreachablePhi { value },
                )
                &&& #[trigger] self.phi_block.contains_key(value.index())
                &&& self.phi_merges_nothing(value)
            }
    }

    /// Whether the trace tells what the check of the complete
    /// ϕ-instruction with the given value does to `before`, and `outcome`
    /// is what the check gives: see [`FunctionModel::cascaded`].
    pub open spec fn checks(
        before: Self,
        trace: Seq<Self>,
        phi_value: Value,
        outcome: Result<(), crate::error::IrError>,
    ) -> bool {
        trace.len() >= 1 && trace[trace.len() - 1].cascaded(before, trace, phi_value, outcome)
    }

    /// A cascade that goes on from the end of another is a cascade.
    pub proof fn lemma_cascade_append(first: Seq<Self>, second: Seq<Self>)
        requires
            Self::is_cascade(first),
            Self::is_cascade(second),
            first.last() == second[0],
        ensures
            Self::is_cascade(first + second.skip(1)),
            (first + second.skip(1))[0] == first[0],
            (first + second.skip(1)).last() == second.last(),
            (first + second.skip(1)).len() == first.len() + second.len() - 1,
            first.len() >= 2 ==> (first + second.skip(1))[1] == first[1],
    {
        let joined = first + second.skip(1);
        assert forall|i: int| 0 <= i < joined.len() - 1 implies joined[i + 1].removes_trivial(
            #[trigger] joined[i],
        ) by {
            if i < first.len() - 1 {
                assert(first[i + 1].removes_trivial(first[i]));
            } else {
                let j = i - (first.len() - 1);
                assert(second[j + 1].removes_trivial(second[j]));
                if j == 0 {
                    assert(joined[i] == first.last());
                } else {
                    assert(joined[i] == second[j]);
                }
                assert(joined[i + 1] == second[j + 1]);
            }
        }
    }

    /// What is removed from a copy of a function is removed from the
    /// function.
    pub proof fn lemma_alike_removes(self, copy: Self, before: Self)
        requires
            copy.alike(before),
            before.wf(),
            self.removes_trivial(copy),
        ensures
            self.removes_trivial(before),
    {
        let (phi_value, same) = choose|phi_value: Value, same: Value|
            {
                &&& copy.phi_block.contains_key(phi_value.index())
                &&& copy.phi_operands(phi_value).contains(same)
                &&& !copy.phi_merges_several(phi_value)
                &&& #[trigger] self.collapsed(copy, phi_value, same)
            };
        copy.lemma_alike_operands(before);
        assert forall|i: int| 0 <= i < self.instrs.len() implies (#[trigger] self.instrs[i]).replaces(
            before.instrs[i],
            phi_value,
            same,
        ) by {
            copy.instrs[i].lemma_alike(before.instrs[i]);
            assert(self.instrs[i].replaces(copy.instrs[i], phi_value, same));
        }
        assert(self.collapsed(before, phi_value, same));
    }

    /// Functions that are alike have ϕ-instructions with the same operands.
    pub proof fn lemma_alike_operands(self, other: Self)
        requires
            self.alike(other),
            other.wf(),
        ensures
            forall|value: Value| #[trigger] self.operands_of(value) == other.operands_of(value),
            forall|value: Value| #[trigger] self.phi_operands(value) == other.phi_operands(value),
            forall|value: Value|
                #[trigger] self.phi_merges_several(value) == other.phi_merges_several(value),
            forall|value: Value|
                #[trigger] self.phi_merges_nothing(value) == other.phi_merges_nothing(value),
    {
        assert forall|value: Value|
            self.operands_of(value) == other.operands_of(value) && self.phi_operands(value)
                == other.phi_operands(value) by {
            if other.has_value(value) {
                let v = value.index() as int;
                if let ValueAssoc::Instr(instr) = other.value_assoc[v] {
                    assert(other.has_instr(instr));
                    assert(self.instrs[instr.index() as int].alike(
                        other.instrs[instr.index() as int],
                    ));
                }
            }
        }
        assert forall|value: Value|
            self.phi_merges_several(value) == other.phi_merges_several(value)
                && self.phi_merges_nothing(value) == other.phi_merges_nothing(value) by {
            assert(self.phi_operands(value) == other.phi_operands(value));
        }
    }

    /// The definitions of the variable in the first `count` predecessors of
    /// the block, by the index of the predecessor.
    pub open spec fn definitions_in(self, var: Variable, block: Block, count: int) -> Map<
        u32,
        Value,
    > {
        Map::new(
            |pred: u32|
                exists|k: int|
                    0 <= k < count && k < self.block(block).preds.len() && (
                    #[trigger] self.block(block).preds[k]).index() == pred,
            |pred: u32| self.vars.defs[(var.index(), pred)],
        )
    }

    /// Whether the ϕ-instruction with the given value, which stands for
    /// the variable in the block, can get all its operands without another
    /// ϕ-instruction: the variable has a definition other than that value
    /// in every predecessor of the block, of which there is at least one.
    /// The ϕ-instruction has no operand yet, is not recorded as complete,
    /// and no instruction is recorded as a user of its value.
    pub open spec fn merges_at_once(self, var: Variable, phi_value: Value, block: Block) -> bool {
        &&& self.block(block).preds.len() >= 1
        &&& self.users(phi_value).len() == 0
        &&& self.operands_of(phi_value) == Map::<u32, Value>::empty()
        &&& !self.phi_block.contains_key(phi_value.index())
        &&& forall|k: int|
            0 <= k < self.block(block).preds.len() ==> {
                let found = self.vars.definition(var, #[trigger] self.block(block).preds[k]);
                found.is_some() && found != Some(phi_value)
            }
    }

    /// Whether `self` is `before` after the ϕ-instruction with the given
    /// value has got the definitions of the variable in the predecessors of
    /// the block as its operands. If two of them differ, it has become a
    /// complete ϕ-instruction of the block. If they are all the same value,
    /// it is no ϕ-instruction of the block any more, and that value stands
    /// for its value in the definitions of all variables.
    pub open spec fn merged(self, before: Self, var: Variable, phi_value: Value, block: Block) -> bool {
        let operands = before.definitions_in(var, block, before.block(block).preds.len() as int);
        if exists|a: u32, b: u32|
            operands.contains_key(a) && operands.contains_key(b) && operands[a] != operands[b] {
            &&& self.blocks == before.blocks
            &&& self.vars == before.vars
            &&& self.phi_block == before.phi_block.insert(phi_value.index(), block)
            &&& self.operands_of(phi_value) == operands
        } else {
            forall|pred: u32| #[trigger]
                operands.contains_key(pred) ==> {
                    &&& before.assoc(phi_value) matches ValueAssoc::Instr(instr)
                    &&& self.blocks == before.blocks.update(
                        block.index() as int,
                        BlockModel {
                            phis: before.block(block).phis.remove_value(instr),
                            ..before.block(block)
                        },
                    )
                    &&& self.vars.types == before.vars.types
                    &&& self.vars.defs == before.vars.defs.map_values(
                        |value: Value| replace_in(value, phi_value, operands[pred]),
                    )
                    &&& self.phi_block == before.phi_block
                }
        }
    }

    /// What sealing the block, which was not sealed, does to the
    /// ϕ-instructions that waited for it.
    ///
    /// Where the block is sealed with success, every ϕ-instruction that
    /// waited has got an operand for every predecessor of the block, the
    /// definition of its variable in that predecessor; it is recorded as
    /// complete, or has given way to the one value that it
    /// merged and nothing refers to it any more. No ϕ-instruction is left
    /// trivial that waited or was turned so. A
    /// single waiting ϕ-instruction whose variable has a definition in
    /// every predecessor is completed with success: see
    /// [`FunctionModel::merged`]. A block without predecessors in which a
    /// ϕ-instruction without operands waits cannot be sealed: control
    /// cannot reach it. Where the block cannot be sealed because a
    /// variable is read before it is written, a way up ends where the
    /// variable cannot have been written. Where the block cannot be sealed, the
    /// variable of a waiting ϕ-instruction is read before it is written, or
    /// a ϕ-instruction has no operand but itself.
    pub open spec fn completes_waiting(
        self,
        before: Self,
        block: Block,
        outcome: Result<(), crate::error::IrError>,
    ) -> bool {
        let waiting = before.block(block).incomplete_phis;
        let sealed = before.with_sealed(block);
        let preds = block_indices(before.block(block).preds);
        &&& outcome.is_ok() ==> forall|j: int|
            0 <= j < waiting.len() ==> self.operands_of((#[trigger] waiting[j]).1).dom()
                == before.operands_of(waiting[j].1).dom().union(preds)
        &&& outcome.is_ok() ==> forall|j: int|
            0 <= j < waiting.len() && (forall|m: int|
                j < m < waiting.len() ==> (#[trigger] waiting[m]).1 != waiting[j].1)
                ==> self.merges_reads(before, (#[trigger] waiting[j]).0, waiting[j].1, block)
        &&& outcome.is_ok() ==> self.adds_no_trivial_phi(before)
        &&& outcome.is_ok() ==> forall|j: int|
            0 <= j < waiting.len() ==> !self.is_trivial_phi((#[trigger] waiting[j]).1)
        &&& outcome.is_ok() ==> forall|j: int|
            0 <= j < waiting.len() ==> self.phi_block.contains_key(
                (#[trigger] waiting[j]).1.index(),
            ) || self.is_unreferenced(waiting[j].1)
        &&& waiting.len() == 1 && sealed.merges_at_once(waiting[0].0, waiting[0].1, block)
            ==> outcome.is_ok() && self.merged(sealed, waiting[0].0, waiting[0].1, block)
        &&& waiting.len() >= 1 && before.block(block).preds.len() == 0
            && before.phi_merges_nothing(waiting[0].1) ==> outcome == Err::<
            (),
            crate::error::IrError,
        >(
            crate::error::IrError::FunctionBuilder(
                crate::error::FunctionBuilderError::UnreachablePhi { value: waiting[0].1 },
            ),
        )
        &&& outcome matches Err(error) ==> exists|j: int|
            0 <= j < waiting.len() && Self::is_read_error((#[trigger] waiting[j]).0, error)
        &&& forall|var: Variable|
            outcome == Err::<(), crate::error::IrError>(
                crate::error::IrError::FunctionBuilder(
                    crate::error::FunctionBuilderError::ReadBeforeWriteVariable { variable: var },
                ),
            ) ==> #[trigger] sealed.has_dead_end(var)
    }

    /// What sealing a block does to a copy of a function, it does to the
    /// function.
    pub proof fn lemma_alike_completes(
        self,
        copy: Self,
        before: Self,
        block: Block,
        outcome: Result<(), crate::error::IrError>,
    )
        requires
            copy.alike(before),
            before.wf(),
            before.has_block(block),
            self.completes_waiting(copy, block, outcome),
        ensures
            self.completes_waiting(before, block, outcome),
    {
        copy.lemma_alike_operands(before);
        assert forall|value: Value| #[trigger]
            copy.is_trivial_phi(value) == before.is_trivial_phi(value) by {}
        let waiting = before.block(block).incomplete_phis;
        let sealed = before.with_sealed(block);
        let copied = copy.with_sealed(block);
        assert(copied.alike(sealed));
        assert forall|var: Variable| copied.has_dead_end(var) implies #[trigger] sealed.has_dead_end(
            var,
        ) by {
            let dead = choose|dead: Block| copied.has_block(dead) && #[trigger] copied.dead_end(
                var,
                dead,
            );
            copied.lemma_alike_way(sealed, var, dead, sealed.blocks.len());
            assert(sealed.dead_end(var, dead));
        }
        if waiting.len() == 1 {
            let var = waiting[0].0;
            let phi_value = waiting[0].1;
            let count = sealed.block(block).preds.len() as int;
            before.lemma_with_sealed(block);
            assert(copied.alike(sealed));
            copied.lemma_alike_operands(sealed);
            assert(copied.definitions_in(var, block, count) =~= sealed.definitions_in(
                var,
                block,
                count,
            ));
            assert(copied.users(phi_value) == sealed.users(phi_value));
            assert(copied.merges_at_once(var, phi_value, block) == sealed.merges_at_once(
                var,
                phi_value,
                block,
            ));
        }
    }

    /// Whether `self` is `before` with one more ϕ-instruction of the given
    /// type and without operands, in the block, and a new value that it defines.
    pub open spec fn adds_phi(self, before: Self, block: Block, ty: Type) -> bool {
        &&& self == (FunctionModel {
            blocks: before.blocks.update(
                block.index() as int,
                BlockModel {
                    phis: before.block(block).phis.push(before.next_instr()),
                    ..before.block(block)
                },
            ),
            instrs: self.instrs,
            instr_value: before.instr_value.insert(before.next_instr().index(), before.next_value()),
            value_type: before.value_type.push(ty),
            value_assoc: before.value_assoc.push(ValueAssoc::Instr(before.next_instr())),
            ..before
        })
        &&& self.instrs.len() == before.instrs.len() + 1
        &&& self.instrs.drop_last() == before.instrs
        &&& self.instrs.last() matches Instruction::Phi(phi)
        &&& phi.value_type == ty
        &&& phi.operands@ == Map::<u32, Value>::empty()
    }

    /// A new ϕ-instruction keeps the function well formed.
    pub proof fn lemma_adds_phi(self, before: Self, block: Block, ty: Type)
        requires
            before.wf(),
            before.has_block(block),
            before.instrs.len() < u32::MAX,
            before.value_type.len() < u32::MAX,
            !(before.block(block).sealed && before.block(block).preds.len() == 1),
            self.adds_phi(before, block, ty),
        ensures
            self.wf(),
            self.extends(before),
            self.is_phi_value(before.next_value()),
            self.assoc(before.next_value()) == ValueAssoc::Instr(before.next_instr()),
            self.type_of(before.next_value()) == ty,
    {
        let instr = before.next_instr();
        let value = before.next_value();
        Instr::lemma_at(before.instrs.len() as u32);
        Value::lemma_at(before.value_type.len() as u32);
        assert forall|i: int| 0 <= i < before.instrs.len() implies self.instrs[i]
            == before.instrs[i] by {
            assert(self.instrs.drop_last()[i] == before.instrs[i]);
        }
        assert forall|b: int| 0 <= b < self.blocks.len() implies self.block_wf(
            #[trigger] self.blocks[b],
        ) by {
            let data = self.blocks[b];
            assert(before.block_wf(before.blocks[b]));
            assert forall|k: int| 0 <= k < data.incomplete_phis.len() implies self.vars.is_declared(
                (#[trigger] data.incomplete_phis[k]).0,
            ) && self.is_phi_value(data.incomplete_phis[k].1) by {
                assert(before.vars.is_declared(before.blocks[b].incomplete_phis[k].0));
                assert(before.is_phi_value(before.blocks[b].incomplete_phis[k].1));
            }
            assert forall|k: int| 0 <= k < data.phis.len() implies self.instr(
                #[trigger] data.phis[k],
            ) is Phi by {
                if k < before.blocks[b].phis.len() {
                    assert(before.has_instr(before.blocks[b].phis[k]));
                }
            }
            assert forall|k: int| 0 <= k < data.instrs.len() implies !(self.instr(
                #[trigger] data.instrs[k],
            ) is Phi) by {
                assert(before.has_instr(before.blocks[b].instrs[k]));
            }
            assert forall|k: int| 0 <= k < data.instrs.len() - 1 implies !(self.instr(
                #[trigger] data.instrs[k],
            ) is Terminal) by {
                assert(before.has_instr(before.blocks[b].instrs[k]));
            }
            if data.instrs.len() > 0 {
                assert(before.has_instr(before.blocks[b].instrs[data.instrs.len() - 1]));
            }
        }
        assert forall|from: Block, to: Block| self.has_block(from) implies self.branches(from, to)
            == before.branches(from, to) by {
            let data = self.blocks[from.index() as int];
            assert(before.block_wf(before.blocks[from.index() as int]));
            if data.filled {
                assert(before.has_instr(
                    before.blocks[from.index() as int].instrs[data.instrs.len() - 1],
                ));
            }
        }
        assert forall|from: Block, to: Block|
            #![trigger self.block(to).has_pred(from)]
            #![trigger self.branches(from, to)]
            self.has_block(from) && self.has_block(to) implies (self.block(to).has_pred(from)
            <==> self.branches(from, to)) by {
            assert(before.block(to).has_pred(from) <==> before.branches(from, to));
        }
        assert forall|from: Block, to: Block| #[trigger]
            self.branches(from, to) && self.has_block(from) implies self.has_block(to) by {
            assert(before.branches(from, to));
        }
        assert forall|i: int, used: Value|
            0 <= i < self.instrs.len() && #[trigger] self.instrs[i].uses(used) implies crate::builder::model::has_index(
            self.users(used),
            i,
        ) by {
            if i < before.instrs.len() {
                assert(before.instrs[i].uses(used));
            } else {
                if let Instruction::Phi(phi) = self.instrs[i] {
                    if phi.operands.uses(used) {
                        let k = choose|k: u32| #[trigger]
                            phi.operands@.contains_key(k) && phi.operands@[k] == used;
                    }
                }
            }
        }
        assert forall|b: int, k: int|
            0 <= b < self.blocks.len() && 0 <= k < self.blocks[b].instrs.len() implies self.has_instr(
            #[trigger] self.blocks[b].instrs[k],
        ) by {
            assert(before.has_instr(before.blocks[b].instrs[k]));
        }
        assert forall|b: int, k: int|
            0 <= b < self.blocks.len() && 0 <= k < self.blocks[b].phis.len() implies self.has_instr(
            #[trigger] self.blocks[b].phis[k],
        ) by {
            if k < before.blocks[b].phis.len() {
                assert(before.has_instr(before.blocks[b].phis[k]));
            }
        }
        assert forall|b: int, k: int|
            0 <= b < self.blocks.len() && 0 <= k < self.blocks[b].preds.len() implies self.has_block(
            #[trigger] self.blocks[b].preds[k],
        ) by {
            assert(before.has_block(before.blocks[b].preds[k]));
        }
        assert forall|i: u32| #[trigger] self.instr_value.contains_key(i) implies {
            &&& (i as int) < self.instrs.len()
            &&& self.has_value(self.instr_value[i])
            &&& self.assoc(self.instr_value[i]) matches ValueAssoc::Instr(defining)
            &&& defining.index() == i
            &&& self.instrs[i as int].result_type() matches Some(told) ==> self.type_of(
                self.instr_value[i],
            ) == told
            &&& !(self.instrs[i as int] is Terminal)
            &&& !(self.instrs[i as int] is Store)
        } by {
            if i != instr.index() {
                assert(before.instr_value.contains_key(i));
                assert(before.has_value(before.instr_value[i]));
            }
        }
        assert forall|v: int| 0 <= v < self.value_assoc.len() implies (
        #[trigger] self.value_assoc[v] matches ValueAssoc::Instr(defining) ==> self.has_instr(
            defining,
        ) && self.instr_value.contains_key(defining.index())
            && self.instr_value[defining.index()].index() == v) by {
            if v < before.value_assoc.len() {
                if let ValueAssoc::Instr(defining) = before.value_assoc[v] {
                    assert(before.has_instr(defining));
                    assert(before.instr_value.contains_key(defining.index()));
                }
            }
        }
        assert forall|v: u32| #[trigger] self.phi_block.contains_key(v) implies {
            &&& (v as int) < self.value_assoc.len()
            &&& self.has_block(self.phi_block[v])
            &&& self.value_assoc[v as int] matches ValueAssoc::Instr(defining)
            &&& self.instr(defining) is Phi
        } by {
            assert(before.phi_block.contains_key(v));
            if let ValueAssoc::Instr(defining) = before.value_assoc[v as int] {
                assert(before.has_instr(defining));
            }
        }
        assert forall|b: int, k: int|
            0 <= b < self.blocks.len() && before.blocks[b].sealed && before.blocks[b].preds.len()
                == 1 && 0 <= k < self.blocks[b].phis.len() implies before.blocks[b].phis.contains(
            #[trigger] self.blocks[b].phis[k],
        ) by {
            assert(before.blocks[b].phis[k] == self.blocks[b].phis[k]);
        }
    }

    /// Whether `self` is `before` but for the ϕ-instructions, the seal and
    /// the waiting ϕ-instructions of the one block, which are well formed.
    pub open spec fn changes_block(self, before: Self, block: Block) -> bool {
        &&& before.has_block(block)
        &&& self == (FunctionModel {
            blocks: before.blocks.update(block.index() as int, self.block(block)),
            ..before
        })
        &&& self.block(block).preds == before.block(block).preds
        &&& self.block(block).instrs == before.block(block).instrs
        &&& self.block(block).filled == before.block(block).filled
        &&& self.block_wf(self.block(block))
        &&& forall|k: int|
            0 <= k < self.block(block).phis.len() ==> self.has_instr(
                #[trigger] self.block(block).phis[k],
            )
    }

    /// A well-formed change of the ϕ-instructions, the seal and the waiting
    /// ϕ-instructions of a block keeps the function well formed.
    pub proof fn lemma_changes_block(self, before: Self, block: Block)
        requires
            before.wf(),
            self.changes_block(before, block),
        ensures
            self.wf(),
    {
        assert forall|b: int| 0 <= b < self.blocks.len() implies self.block_wf(
            #[trigger] self.blocks[b],
        ) by {
            if b != block.index() {
                let data = self.blocks[b];
                assert(before.block_wf(before.blocks[b]));
                assert forall|k: int| 0 <= k < data.incomplete_phis.len() implies self.vars.is_declared(
                    (#[trigger] data.incomplete_phis[k]).0,
                ) && self.is_phi_value(data.incomplete_phis[k].1) by {
                    assert(before.vars.is_declared(before.blocks[b].incomplete_phis[k].0));
                    assert(before.is_phi_value(before.blocks[b].incomplete_phis[k].1));
                }
            }
        }
        assert forall|from: Block, to: Block| self.has_block(from) implies self.branches(from, to)
            == before.branches(from, to) by {}
        assert forall|from: Block, to: Block|
            #![trigger self.block(to).has_pred(from)]
            #![trigger self.branches(from, to)]
            self.has_block(from) && self.has_block(to) implies (self.block(to).has_pred(from)
            <==> self.branches(from, to)) by {
            assert(before.block(to).has_pred(from) <==> before.branches(from, to));
        }
        assert forall|from: Block, to: Block| #[trigger]
            self.branches(from, to) && self.has_block(from) implies self.has_block(to) by {
            assert(before.branches(from, to));
        }
        assert forall|i: int, value: Value|
            0 <= i < self.instrs.len() && #[trigger] self.instrs[i].uses(value) implies crate::builder::model::has_index(
            self.users(value),
            i,
        ) by {
            assert(self.users(value) == before.users(value));
        }
        assert forall|b: int, k: int|
            0 <= b < self.blocks.len() && 0 <= k < self.blocks[b].instrs.len() implies self.has_instr(
            #[trigger] self.blocks[b].instrs[k],
        ) by {
            assert(before.has_instr(before.blocks[b].instrs[k]));
        }
        assert forall|b: int, k: int|
            0 <= b < self.blocks.len() && 0 <= k < self.blocks[b].phis.len() implies self.has_instr(
            #[trigger] self.blocks[b].phis[k],
        ) by {
            if b != block.index() {
                assert(before.has_instr(before.blocks[b].phis[k]));
            }
        }
        assert forall|b: int, k: int|
            0 <= b < self.blocks.len() && 0 <= k < self.blocks[b].preds.len() implies self.has_block(
            #[trigger] self.blocks[b].preds[k],
        ) by {
            assert(before.has_block(before.blocks[b].preds[k]));
        }
    }

    /// Recording a ϕ-instruction of the function as complete keeps the
    /// function well formed.
    pub proof fn lemma_with_complete(self, value: Value, block: Block)
        requires
            self.wf(),
            self.is_phi_value(value),
            self.has_block(block),
        ensures
            (FunctionModel { phi_block: self.phi_block.insert(value.index(), block), ..self }).wf(),
    {
        let after = FunctionModel { phi_block: self.phi_block.insert(value.index(), block), ..self };
        assert forall|b: int| 0 <= b < after.blocks.len() implies after.block_wf(
            #[trigger] after.blocks[b],
        ) by {
            let data = after.blocks[b];
            assert(self.block_wf(self.blocks[b]));
            assert forall|k: int| 0 <= k < data.incomplete_phis.len() implies after.vars.is_declared(
                (#[trigger] data.incomplete_phis[k]).0,
            ) && after.is_phi_value(data.incomplete_phis[k].1) by {
                assert(self.vars.is_declared(self.blocks[b].incomplete_phis[k].0));
                assert(self.is_phi_value(self.blocks[b].incomplete_phis[k].1));
            }
        }
        assert forall|from: Block, to: Block| after.has_block(from) implies after.branches(
            from,
            to,
        ) == self.branches(from, to) by {}
        assert forall|from: Block, to: Block|
            #![trigger after.block(to).has_pred(from)]
            #![trigger after.branches(from, to)]
            after.has_block(from) && after.has_block(to) implies (after.block(to).has_pred(from)
            <==> after.branches(from, to)) by {
            assert(self.block(to).has_pred(from) <==> self.branches(from, to));
        }
        assert forall|from: Block, to: Block| #[trigger]
            after.branches(from, to) && after.has_block(from) implies after.has_block(to) by {
            assert(self.branches(from, to));
        }
        assert forall|i: int, used: Value|
            0 <= i < after.instrs.len() && #[trigger] after.instrs[i].uses(used) implies crate::builder::model::has_index(
            after.users(used),
            i,
        ) by {
            assert(self.users(used) == after.users(used));
        }
        assert forall|v: u32| #[trigger] after.phi_block.contains_key(v) implies {
            &&& (v as int) < after.value_assoc.len()
            &&& after.has_block(after.phi_block[v])
            &&& after.value_assoc[v as int] matches ValueAssoc::Instr(defining)
            &&& after.instr(defining) is Phi
        } by {
            if v != value.index() {
                assert(self.phi_block.contains_key(v));
            }
        }
        assert(after.phi_block.dom() =~= self.phi_block.dom().insert(value.index()));
    }

    /// What keeps the structure of a function has come from it.
    pub proof fn lemma_structure_extends(self, before: Self)
        requires
            self.same_structure(before),
            self.current == before.current,
            self.inputs == before.inputs,
            self.outputs == before.outputs,
            forall|key: (u32, u32)|
                before.vars.defs.contains_key(key) ==> #[trigger] self.vars.defs.contains_key(key),
        ensures
            self.extends(before),
    {
    }

    /// Whether `self` is `before` with a new ϕ-instruction without operands
    /// in the block, of the type of the variable, which waits for the block
    /// to be sealed and defines the variable in the block.
    pub open spec fn adds_incomplete_phi(self, before: Self, var: Variable, block: Block) -> bool {
        &&& self == (FunctionModel {
            blocks: before.blocks.update(
                block.index() as int,
                BlockModel {
                    phis: before.block(block).phis.push(before.next_instr()),
                    incomplete_phis: before.block(block).incomplete_phis.push(
                        (var, before.next_value()),
                    ),
                    ..before.block(block)
                },
            ),
            instrs: self.instrs,
            instr_value: before.instr_value.insert(before.next_instr().index(), before.next_value()),
            value_type: before.value_type.push(before.vars.declared_type(var)),
            value_assoc: before.value_assoc.push(ValueAssoc::Instr(before.next_instr())),
            vars: before.vars.written(var, block, before.next_value()),
            ..before
        })
        &&& self.instrs.len() == before.instrs.len() + 1
        &&& self.instrs.drop_last() == before.instrs
        &&& self.instrs.last() matches Instruction::Phi(phi)
        &&& phi.value_type == before.vars.declared_type(var)
        &&& phi.operands@ == Map::<u32, Value>::empty()
    }

    /// A definition of a variable in a block that had none leaves fewer
    /// blocks without one.
    pub proof fn lemma_def_decreases(self, var: Variable, block: Block, value: Value)
        requires
            self.has_block(block),
            self.blocks.len() < u32::MAX,
            self.vars.definition(var, block).is_none(),
        ensures
            self.with_def(var, block, value).undefined(var) < self.undefined(var),
            self.with_def(var, block, value).extends(self),
    {
        lemma_count_decreases(
            self.vars.defs,
            self.with_def(var, block, value).vars.defs,
            var.index(),
            self.blocks.len(),
            block.index(),
        );
    }

    /// A definition of a variable has come from the function without it.
    pub proof fn lemma_def_extends(self, var: Variable, block: Block, value: Value)
        ensures
            self.with_def(var, block, value).extends(self),
            self.with_def(var, block, value).undefined(var) <= self.undefined(var),
    {
        lemma_count_monotone(
            self.vars.defs,
            self.with_def(var, block, value).vars.defs,
            var.index(),
            self.blocks.len(),
        );
    }

    /// The blocks on the way up from the block, in at most `steps` steps:
    /// the blocks without a definition of the variable that are sealed and
    /// have exactly one predecessor, each followed by its predecessor.
    pub open spec fn way_up(self, var: Variable, block: Block, steps: nat) -> Seq<Block>
        decreases steps,
    {
        if steps == 0 || self.vars.definition(var, block).is_some() || !self.block(block).sealed
            || self.block(block).preds.len() != 1 {
            Seq::empty()
        } else {
            seq![block] + self.way_up(var, self.block(block).preds[0], (steps - 1) as nat)
        }
    }

    /// The block that the way up from the block ends in.
    pub open spec fn top_of_way(self, var: Variable, block: Block, steps: nat) -> Block
        decreases steps,
    {
        if steps == 0 || self.vars.definition(var, block).is_some() || !self.block(block).sealed
            || self.block(block).preds.len() != 1 {
            block
        } else {
            self.top_of_way(var, self.block(block).preds[0], (steps - 1) as nat)
        }
    }

    /// The function with the value written to the variable in each of the
    /// blocks, in order.
    pub open spec fn with_defs(self, var: Variable, blocks: Seq<Block>, value: Value) -> Self {
        FunctionModel { vars: self.vars.written_all(var, blocks, value), ..self }
    }

    /// Whether nothing in the function refers to the value: no instruction
    /// is recorded as its user, and it is no definition of a variable.
    pub open spec fn is_unused(self, value: Value) -> bool {
        &&& self.users(value).len() == 0
        &&& forall|key: (u32, u32)| #[trigger]
            self.vars.defs.contains_key(key) ==> self.vars.defs[key] != value
    }

    /// Nothing in a well-formed function refers to the value that is added
    /// next.
    pub proof fn lemma_next_value_unused(self)
        requires
            self.wf(),
            self.value_type.len() < u32::MAX,
        ensures
            self.is_unused(self.next_value()),
    {
        Value::lemma_at(self.value_type.len() as u32);
        assert(!self.value_users.contains_key(self.next_value().index()));
    }

    /// Whether a read of the variable in the block, which is sealed and
    /// has several predecessors, finds a definition of the variable in
    /// every predecessor.
    pub open spec fn merges_definitions(self, var: Variable, block: Block) -> bool {
        forall|k: int|
            0 <= k < self.block(block).preds.len() ==> self.vars.definition(
                var,
                #[trigger] self.block(block).preds[k],
            ).is_some()
    }

    /// What a read of the variable gives and leaves behind where the way
    /// up from the block ends in `top`, a sealed block with several
    /// predecessors that all have a definition of the variable.
    ///
    /// If two of the definitions differ, the read gives a new
    /// ϕ-instruction of `top` that has them as its operands. If they are
    /// all the same value, the read gives that value, and no block gains
    /// a ϕ-instruction. In both cases the value becomes the definition in
    /// `top` and in all blocks on the way.
    pub open spec fn merges(
        self,
        before: Self,
        var: Variable,
        top: Block,
        way: Seq<Block>,
        outcome: Result<Value, crate::error::IrError>,
    ) -> bool {
        let operands = before.definitions_in(var, top, before.block(top).preds.len() as int);
        let phi_value = before.next_value();
        if exists|a: u32, b: u32|
            operands.contains_key(a) && operands.contains_key(b) && operands[a] != operands[b] {
            &&& outcome == Ok::<Value, crate::error::IrError>(phi_value)
            &&& self.blocks == before.blocks.update(
                top.index() as int,
                BlockModel {
                    phis: before.block(top).phis.push(before.next_instr()),
                    ..before.block(top)
                },
            )
            &&& self.vars == before.vars.written(var, top, phi_value).written_all(
                var,
                way,
                phi_value,
            )
            &&& self.phi_block == before.phi_block.insert(phi_value.index(), top)
            &&& self.operands_of(phi_value) == operands
            &&& self.type_of(phi_value) == before.vars.declared_type(var)
        } else {
            forall|pred: u32| #[trigger]
                operands.contains_key(pred) ==> {
                    &&& outcome == Ok::<Value, crate::error::IrError>(operands[pred])
                    &&& self.blocks == before.blocks
                    &&& self.vars == before.vars.written(var, top, operands[pred]).written_all(
                        var,
                        way,
                        operands[pred],
                    )
                    &&& self.phi_block == before.phi_block
                }
        }
    }

    /// What a read of the variable in the block gives and leaves behind,
    /// where no ϕ-instruction with operands is needed for it.
    ///
    /// The way up from the block is followed through the sealed blocks with
    /// exactly one predecessor. If it ends in a block with a definition of
    /// the variable, the read gives that definition. If it ends in an
    /// unsealed block, the read gives a new ϕ-instruction that waits in
    /// that block. In both cases the value becomes the definition in all
    /// blocks on the way. If the way ends in a sealed block with fewer than
    /// two predecessors, the read fails and changes nothing. If it ends in
    /// a sealed block with several predecessors that all have a definition
    /// of the variable, see [`FunctionModel::merges`].
    pub open spec fn reads(
        self,
        before: Self,
        var: Variable,
        block: Block,
        outcome: Result<Value, crate::error::IrError>,
    ) -> bool {
        let way = before.way_up(var, block, before.blocks.len());
        let top = before.top_of_way(var, block, before.blocks.len());
        match before.vars.definition(var, top) {
            Some(value) => outcome == Ok::<Value, crate::error::IrError>(value) && self
                == before.with_defs(var, way, value),
            None => if !before.block(top).sealed {
                &&& outcome == Ok::<Value, crate::error::IrError>(before.next_value())
                &&& (FunctionModel {
                    vars: before.vars.written(var, top, before.next_value()),
                    ..self
                }).adds_incomplete_phi(before, var, top)
                &&& self.vars == before.vars.written(var, top, before.next_value()).written_all(
                    var,
                    way,
                    before.next_value(),
                )
            } else if before.block(top).preds.len() < 2 {
                outcome == Err::<Value, crate::error::IrError>(
                    crate::error::IrError::FunctionBuilder(
                        crate::error::FunctionBuilderError::ReadBeforeWriteVariable {
                            variable: var,
                        },
                    ),
                ) && self == before
            } else {
                &&& before.merges_definitions(var, top) ==> self.merges(
                    before,
                    var,
                    top,
                    way,
                    outcome,
                )
                &&& outcome.is_ok() ==> self.completes_phi(before, var, top)
                &&& outcome.is_ok() && way.len() == 0 ==> self.merges_reads(
                    before,
                    var,
                    before.next_value(),
                    top,
                )
                &&& outcome.is_ok() ==> self.adds_no_trivial_phi(before)
                &&& outcome matches Err(error) ==> Self::is_read_error(var, error)
                &&& outcome == Err::<Value, crate::error::IrError>(
                    crate::error::IrError::FunctionBuilder(
                        crate::error::FunctionBuilderError::ReadBeforeWriteVariable {
                            variable: var,
                        },
                    ),
                ) ==> before.has_dead_end(var)
            },
        }
    }

    /// Whether the way up from the block ends where the variable cannot
    /// have been written: in a sealed block with fewer than two
    /// predecessors and without a definition of the variable.
    pub open spec fn dead_end(self, var: Variable, block: Block) -> bool {
        let top = self.top_of_way(var, block, self.blocks.len());
        &&& self.vars.definition(var, top).is_none()
        &&& self.block(top).sealed
        &&& self.block(top).preds.len() < 2
    }

    /// Whether the way up from some block of the function ends where the
    /// variable cannot have been written.
    pub open spec fn has_dead_end(self, var: Variable) -> bool {
        exists|block: Block| self.has_block(block) && #[trigger] self.dead_end(var, block)
    }

    /// What a read of the variable that succeeds leaves of the
    /// ϕ-instruction that it begins with in `top`, a sealed block with
    /// several predecessors: the ϕ-instruction has the next value of
    /// `before` and the type of the variable, and an operand for every
    /// predecessor of `top`. It is recorded as complete, in `top`, or has
    /// given way to the one value that it merged, and nothing refers to it
    /// any more.
    pub open spec fn completes_phi(self, before: Self, var: Variable, top: Block) -> bool {
        let phi_value = before.next_value();
        &&& self.is_phi_value(phi_value)
        &&& self.type_of(phi_value) == before.vars.declared_type(var)
        &&& self.operands_of(phi_value).dom() == block_indices(before.block(top).preds)
        &&& self.phi_block.contains_key(phi_value.index()) ==> self.phi_block[phi_value.index()]
            == top
        &&& self.phi_block.contains_key(phi_value.index()) || self.is_unreferenced(phi_value)
    }

    /// Whether every operand of the ϕ-instruction with the value is what
    /// the variable reads as in the predecessor of the block that the
    /// operand flows from: the definition of the variable there.
    pub open spec fn merges_reads(self, before: Self, var: Variable, phi_value: Value, block: Block) -> bool {
        forall|k: int|
            0 <= k < before.block(block).preds.len() ==> self.agrees(
                phi_value,
                (#[trigger] before.block(block).preds[k]).index(),
                (var.index(), before.block(block).preds[k].index()),
            )
    }

    /// Whether the blocks of `self` have the predecessors and the seals of
    /// the blocks of `before`, and every definition of `before` is one of
    /// `self`.
    pub open spec fn keeps_ways(self, before: Self) -> bool {
        &&& self.blocks.len() == before.blocks.len()
        &&& forall|b: int|
            0 <= b < self.blocks.len() ==> (#[trigger] self.blocks[b]).preds
                == before.blocks[b].preds && self.blocks[b].sealed == before.blocks[b].sealed
        &&& forall|key: (u32, u32)|
            before.vars.defs.contains_key(key) ==> #[trigger] self.vars.defs.contains_key(key)
    }

    /// A way up that ends where the variable cannot have been written ends
    /// in the same block when the function has fewer definitions.
    pub proof fn lemma_way_back(self, before: Self, var: Variable, block: Block, steps: nat)
        requires
            self.keeps_ways(before),
            before.handles_wf(),
            before.has_block(block),
            ({
                let top = self.top_of_way(var, block, steps);
                &&& self.vars.definition(var, top).is_none()
                &&& self.block(top).sealed
                &&& self.block(top).preds.len() < 2
            }),
        ensures
            before.top_of_way(var, block, steps) == self.top_of_way(var, block, steps),
        decreases steps,
    {
        let b = block.index() as int;
        assert(self.blocks[b].preds == before.blocks[b].preds);
        if before.vars.definition(var, block).is_some() {
            assert(before.vars.defs.contains_key((var.index(), block.index())));
            assert(self.vars.defs.contains_key((var.index(), block.index())));
        }
        if steps > 0 && self.vars.definition(var, block).is_none() && self.block(block).sealed
            && self.block(block).preds.len() == 1 {
            assert(before.has_block(before.blocks[b].preds[0]));
            self.lemma_way_back(before, var, self.block(block).preds[0], (steps - 1) as nat);
        }
    }

    /// Where a way up ends where the variable cannot have been written,
    /// one does when the function has fewer definitions.
    pub proof fn lemma_dead_end_back(self, before: Self, var: Variable)
        requires
            self.keeps_ways(before),
            before.handles_wf(),
            self.has_dead_end(var),
        ensures
            before.has_dead_end(var),
    {
        let block = choose|block: Block| self.has_block(block) && #[trigger] self.dead_end(
            var,
            block,
        );
        self.lemma_way_back(before, var, block, self.blocks.len());
        let top = before.top_of_way(var, block, before.blocks.len());
        if before.vars.definition(var, top).is_some() {
            assert(before.vars.defs.contains_key((var.index(), top.index())));
            assert(self.vars.defs.contains_key((var.index(), top.index())));
        }
        before.lemma_top_is_block(var, block, before.blocks.len());
        assert(self.blocks[top.index() as int].preds == before.blocks[top.index() as int].preds);
        assert(before.dead_end(var, block));
    }

    /// The way up from a block of the function ends in a block of the
    /// function.
    pub proof fn lemma_top_is_block(self, var: Variable, block: Block, steps: nat)
        requires
            self.handles_wf(),
            self.has_block(block),
        ensures
            self.has_block(self.top_of_way(var, block, steps)),
        decreases steps,
    {
        if steps > 0 && self.vars.definition(var, block).is_none() && self.block(block).sealed
            && self.block(block).preds.len() == 1 {
            assert(self.has_block(self.blocks[block.index() as int].preds[0]));
            self.lemma_top_is_block(var, self.block(block).preds[0], (steps - 1) as nat);
        }
    }

    /// What keeps the ways of what keeps them keeps them.
    pub proof fn lemma_keeps_ways(self, middle: Self, before: Self)
        requires
            self.keeps_ways(middle),
            middle.keeps_ways(before),
        ensures
            self.keeps_ways(before),
    {
        assert forall|b: int| 0 <= b < self.blocks.len() implies (#[trigger] self.blocks[b]).preds
            == before.blocks[b].preds && self.blocks[b].sealed == before.blocks[b].sealed by {
            assert(middle.blocks[b].preds == before.blocks[b].preds);
        }
        assert forall|key: (u32, u32)| before.vars.defs.contains_key(key) implies #[trigger] self.vars.defs.contains_key(
            key,
        ) by {
            assert(middle.vars.defs.contains_key(key));
        }
    }

    /// Functions that are alike have the same ways up.
    pub proof fn lemma_alike_way(self, other: Self, var: Variable, block: Block, steps: nat)
        requires
            self.alike(other),
        ensures
            self.way_up(var, block, steps) == other.way_up(var, block, steps),
            self.top_of_way(var, block, steps) == other.top_of_way(var, block, steps),
        decreases steps,
    {
        if steps > 0 && self.vars.definition(var, block).is_none() && self.block(block).sealed
            && self.block(block).preds.len() == 1 {
            self.lemma_alike_way(other, var, self.block(block).preds[0], (steps - 1) as nat);
        }
    }

    /// What a read on a copy of a function gives and leaves behind is what
    /// the read gives and leaves behind on the function itself, where the
    /// way up ends in a sealed block with several predecessors; and if the
    /// read fails there, it fails on the function and leaves it as it is.
    pub proof fn lemma_alike_reads(
        self,
        copy: Self,
        before: Self,
        var: Variable,
        block: Block,
        outcome: Result<Value, crate::error::IrError>,
    )
        requires
            copy.alike(before),
            before.wf(),
            self.reads(copy, var, block, outcome),
            ({
                let top = before.top_of_way(var, block, before.blocks.len());
                &&& before.vars.definition(var, top).is_none()
                &&& before.block(top).sealed
                &&& before.block(top).preds.len() >= 2
            }),
        ensures
            self.reads(before, var, block, outcome),
            outcome.is_err() ==> before.reads(before, var, block, outcome),
    {
        copy.lemma_alike_way(before, var, block, before.blocks.len());
        let top = before.top_of_way(var, block, before.blocks.len());
        let count = before.block(top).preds.len() as int;
        assert(copy.definitions_in(var, top, count) =~= before.definitions_in(var, top, count));
        copy.lemma_alike_operands(before);
        assert forall|value: Value| #[trigger]
            copy.is_trivial_phi(value) == before.is_trivial_phi(value) by {}
        if copy.has_dead_end(var) {
            let dead = choose|dead: Block| copy.has_block(dead) && #[trigger] copy.dead_end(
                var,
                dead,
            );
            copy.lemma_alike_way(before, var, dead, before.blocks.len());
            assert(before.dead_end(var, dead));
        }
        if before.merges_definitions(var, top) {
            assert(copy.merges_definitions(var, top));
            let operands = before.definitions_in(var, top, count);
            let first = before.block(top).preds[0];
            assert(operands.contains_key(first.index()));
            assert(outcome.is_ok());
        }
    }

    /// A read that finds a definition of the variable in every
    /// predecessor of the sealed block with several predecessors in which
    /// the way up ends does not fail.
    pub proof fn lemma_merges_succeed(
        self,
        before: Self,
        var: Variable,
        block: Block,
        outcome: Result<Value, crate::error::IrError>,
    )
        requires
            self.reads(before, var, block, outcome),
            ({
                let top = before.top_of_way(var, block, before.blocks.len());
                &&& before.vars.definition(var, top).is_none()
                &&& before.block(top).sealed
                &&& before.block(top).preds.len() >= 2
                &&& before.merges_definitions(var, top)
            }),
        ensures
            outcome.is_ok(),
    {
        let top = before.top_of_way(var, block, before.blocks.len());
        let operands = before.definitions_in(var, top, before.block(top).preds.len() as int);
        let first = before.block(top).preds[0];
        assert(operands.contains_key(first.index()));
    }

    /// A list of instructions with another instruction added and removed
    /// is the list.
    pub proof fn lemma_push_remove(listed: Seq<Instr>, instr: Instr)
        requires
            !listed.contains(instr),
        ensures
            listed.push(instr).remove_value(instr) == listed,
    {
        let longer = listed.push(instr);
        longer.index_of_first_ensures(instr);
        assert(longer[listed.len() as int] == instr);
        assert(longer.contains(instr));
        let first = longer.index_of_first(instr).unwrap();
        if first < listed.len() {
            assert(listed[first] == instr);
            assert(listed.contains(instr));
        }
        assert(longer.remove(first) =~= listed);
    }

    /// The way up from a block is the block and the way up from its
    /// predecessor, or ends in the block.
    pub proof fn lemma_way_up_step(self, var: Variable, block: Block, steps: nat)
        requires
            steps > 0,
            self.vars.definition(var, block).is_none(),
            self.block(block).sealed,
            self.block(block).preds.len() == 1,
        ensures
            self.way_up(var, block, steps) == seq![block] + self.way_up(
                var,
                self.block(block).preds[0],
                (steps - 1) as nat,
            ),
            self.top_of_way(var, block, steps) == self.top_of_way(
                var,
                self.block(block).preds[0],
                (steps - 1) as nat,
            ),
    {
    }

    /// Every function has come from itself.
    pub proof fn lemma_extends_refl(self)
        ensures
            self.extends(self),
    {
    }

    /// What has come from a function that has come from another has come
    /// from that other.
    pub proof fn lemma_extends_trans(self, middle: Self, before: Self)
        requires
            middle.extends(before),
            self.extends(middle),
            before.value_type.len() == before.value_assoc.len(),
            middle.value_type.len() == middle.value_assoc.len(),
        ensures
            self.extends(before),
    {
        assert forall|b: int, k: int|
            0 <= b < self.blocks.len() && before.blocks[b].sealed && before.blocks[b].preds.len()
                == 1 && 0 <= k < self.blocks[b].phis.len() implies before.blocks[b].phis.contains(
            #[trigger] self.blocks[b].phis[k],
        ) by {
            assert(middle.blocks[b].preds == before.blocks[b].preds);
            assert(middle.blocks[b].phis.contains(self.blocks[b].phis[k]));
            let j = choose|j: int|
                0 <= j < middle.blocks[b].phis.len() && middle.blocks[b].phis[j]
                    == self.blocks[b].phis[k];
            assert(before.blocks[b].phis.contains(middle.blocks[b].phis[j]));
        }
        assert forall|i: int| 0 <= i < before.instrs.len() implies Self::same_shape(
            before.instrs[i],
            #[trigger] self.instrs[i],
        ) by {
            assert(Self::same_shape(before.instrs[i], middle.instrs[i]));
            assert(Self::same_shape(middle.instrs[i], self.instrs[i]));
        }
        assert forall|i: int| before.instrs.len() <= i < self.instrs.len() implies #[trigger] self.instrs[i] is Phi by {
            if i < middle.instrs.len() {
                assert(middle.instrs[i] is Phi);
                assert(Self::same_shape(middle.instrs[i], self.instrs[i]));
            }
        }
        assert forall|b: int| 0 <= b < self.blocks.len() implies {
            &&& (#[trigger] self.blocks[b]).preds == before.blocks[b].preds
            &&& self.blocks[b].instrs == before.blocks[b].instrs
            &&& self.blocks[b].filled == before.blocks[b].filled
            &&& before.blocks[b].sealed ==> self.blocks[b].sealed
        } by {
            assert(middle.blocks[b].preds == before.blocks[b].preds);
        }
        assert forall|v: int| 0 <= v < before.value_type.len() implies #[trigger] self.value_type[v]
            == before.value_type[v] by {
            assert(middle.value_type[v] == before.value_type[v]);
        }
        assert forall|v: int| 0 <= v < before.value_assoc.len() implies #[trigger] self.value_assoc[v]
            == before.value_assoc[v] by {
            assert(middle.value_assoc[v] == before.value_assoc[v]);
        }
        assert forall|i: u32| before.instr_value.contains_key(i) implies #[trigger] self.instr_value.contains_key(
            i,
        ) && self.instr_value[i] == before.instr_value[i] by {
            assert(middle.instr_value.contains_key(i));
        }
        assert forall|key: (u32, u32)| before.vars.defs.contains_key(key) implies #[trigger] self.vars.defs.contains_key(
            key,
        ) by {
            assert(middle.vars.defs.contains_key(key));
        }
    }

    /// What has come from a function has no more blocks without a
    /// definition of a variable.
    pub proof fn lemma_extends_undefined(self, before: Self, var: Variable)
        requires
            self.extends(before),
        ensures
            self.undefined(var) <= before.undefined(var),
            self.undefined(var) <= self.blocks.len(),
    {
        lemma_count_monotone(before.vars.defs, self.vars.defs, var.index(), self.blocks.len());
        lemma_count_bound(self.vars.defs, var.index(), self.blocks.len());
    }
}

} // verus!
