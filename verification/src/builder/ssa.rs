//! The steps of SSA construction: ϕ-instructions, their operands, and the
//! replacement of values.

use crate::builder::function::FunctionBuilder;
use crate::builder::frame::{lemma_count_bound, lemma_count_monotone};
use crate::builder::model::{has_index, BlockModel, FunctionModel, ValueAssoc};
use crate::builder::state;
use crate::entity::index::Index32;
use crate::error::{FunctionBuilderError, IrError};
use crate::instruction::visit::replace_in;
use crate::instruction::phi::block_indices;
use crate::instruction::{Instr, Instruction, PhiInstr};
use crate::primitive::{Block, Type, Value, Variable};
use std::marker::PhantomData;
use vstd::prelude::*;

verus! {

impl FunctionBuilder<state::Body> {
    /// Defines the declared variable as the value in the block.
    pub fn define(&mut self, var: Variable, block: Block, value: Value)
        requires
            old(self).wf(),
            old(self)@.vars.is_declared(var),
            old(self)@.has_value(value),
        ensures
            final(self).wf(),
            final(self)@ == old(self)@.with_def(var, block, value),
    {
        let ty = match self.ctx.vars.declared_type(var) {
            Some(ty) => ty,
            None => vstd::pervasive::unreached(),
        };
        let value_to_type = |_value: Value| -> (told: Type)
            ensures
                told == ty,
            { ty };
        let ghost before = self@;
        let outcome = self.ctx.vars.write_var(var, value, block, value_to_type);
        proof {
            assert(forall|of: Value, told: Type|
                value_to_type.ensures((of,), told) ==> told == ty);
            assert(outcome.is_ok());
            assert(self@ == before.with_def(var, block, value));
            before.lemma_with_def(var, block, value);
        }
    }

    /// Appends a ϕ-instruction of the given type, without operands, to the
    /// ϕ-instructions of the block, and returns the value that it defines.
    fn append_phi(&mut self, block: Block, ty: Type) -> (value: Value)
        requires
            old(self).wf(),
            old(self)@.has_block(block),
            old(self)@.instrs.len() + 1 < u32::MAX,
            old(self)@.value_type.len() + 1 < u32::MAX,
            !(old(self)@.block(block).sealed && old(self)@.block(block).preds.len() == 1),
        ensures
            final(self).wf(),
            final(self)@.adds_phi(old(self)@, block, ty),
            final(self)@.extends(old(self)@),
            value == old(self)@.next_value(),
            final(self)@.is_phi_value(value),
            final(self)@.type_of(value) == ty,
            final(self)@.keeps_operand_blocks(old(self)@, None),
    {
        let instr = self.ctx.push_instr(Instruction::Phi(PhiInstr::new(ty)));
        let value = self.ctx.push_value(ty, ValueAssoc::Instr(instr));
        self.ctx.set_instr_value(instr, value);
        let data = self.ctx.block_mut(block);
        data.phis.push(instr);
        proof {
            let before = old(self)@;
            Instr::lemma_at(before.instrs.len() as u32);
            Instr::lemma_same_index(instr, before.next_instr());
            Value::lemma_at(before.value_type.len() as u32);
            Value::lemma_same_index(value, before.next_value());
            assert(self@.instrs.drop_last() =~= before.instrs);
            assert forall|x: Value| before.has_value(x) implies (#[trigger] self@.operands_of(
                x,
            )).dom() == before.operands_of(x).dom() by {
                let v = x.index() as int;
                if let ValueAssoc::Instr(at) = before.value_assoc[v] {
                    assert(before.has_instr(at));
                    assert(self@.instrs[at.index() as int] == self@.instrs.drop_last()[at.index() as int]);
                }
            }
            assert(self@.blocks =~= before.blocks.update(
                block.index() as int,
                BlockModel {
                    phis: before.block(block).phis.push(before.next_instr()),
                    ..before.block(block)
                },
            ));
            self@.lemma_adds_phi(before, block, ty);
        }
        value
    }

    /// Records the ϕ-instruction with the value as waiting for the block to
    /// be sealed, for the variable.
    fn push_incomplete(&mut self, block: Block, var: Variable, value: Value)
        requires
            old(self).wf(),
            old(self)@.has_block(block),
            !old(self)@.block(block).sealed,
            old(self)@.vars.is_declared(var),
            old(self)@.is_phi_value(value),
        ensures
            final(self).wf(),
            final(self)@.extends(old(self)@),
            final(self)@ == (FunctionModel {
                blocks: old(self)@.blocks.update(
                    block.index() as int,
                    BlockModel {
                        incomplete_phis: old(self)@.block(block).incomplete_phis.push((var, value)),
                        ..old(self)@.block(block)
                    },
                ),
                ..old(self)@
            }),
    {
        let data = self.ctx.block_mut(block);
        data.incomplete_phis.push((var, value));
        proof {
            let before = old(self)@;
            assert(before.block_wf(before.blocks[block.index() as int]));
            assert forall|k: int|
                0 <= k < self@.block(block).incomplete_phis.len() implies self@.vars.is_declared(
                (#[trigger] self@.block(block).incomplete_phis[k]).0,
            ) && self@.is_phi_value(self@.block(block).incomplete_phis[k].1) by {
                if k < before.block(block).incomplete_phis.len() {
                    assert(before.vars.is_declared(before.block(block).incomplete_phis[k].0));
                    assert(before.is_phi_value(before.block(block).incomplete_phis[k].1));
                }
            }
            assert forall|k: int| 0 <= k < self@.block(block).phis.len() implies self@.has_instr(
                #[trigger] self@.block(block).phis[k],
            ) by {
                assert(before.has_instr(before.blocks[block.index() as int].phis[k]));
            }
            assert(self@.blocks =~= before.blocks.update(block.index() as int, self@.block(block)));
            self@.lemma_changes_block(before, block);
        }
    }

    /// Removes the instruction from the ϕ-instructions of the block.
    fn erase_phi(&mut self, block: Block, instr: Instr)
        requires
            old(self).wf(),
            old(self)@.has_block(block),
        ensures
            final(self).wf(),
            final(self)@.extends(old(self)@),
            final(self)@ == (FunctionModel {
                blocks: old(self)@.blocks.update(
                    block.index() as int,
                    BlockModel { phis: final(self)@.block(block).phis, ..old(self)@.block(block) },
                ),
                ..old(self)@
            }),
            forall|k: int|
                0 <= k < final(self)@.block(block).phis.len() ==> old(self)@.block(
                    block,
                ).phis.contains(#[trigger] final(self)@.block(block).phis[k]),
            final(self)@.block(block).phis.len() <= old(self)@.block(block).phis.len(),
            final(self)@.block(block).phis == old(self)@.block(block).phis.remove_value(instr),
    {
        let data = self.ctx.block_mut(block);
        let ghost listed = data.phis@;
        let mut at: usize = 0;
        while at < data.phis.len() && data.phis[at] != instr
            invariant
                at <= data.phis@.len(),
                data.phis@ == listed,
                forall|j: int| 0 <= j < at ==> listed[j] != instr,
            decreases data.phis@.len() - at,
        {
            at = at + 1;
        }
        if at < data.phis.len() {
            data.phis.remove(at);
        }
        proof {
            let before = old(self)@;
            let was = before.block(block).phis;
            let now = self@.block(block).phis;
            was.index_of_first_ensures(instr);
            if at < was.len() {
                assert(was.contains(instr));
                assert(was.index_of_first(instr) == Some(at as int));
            } else {
                assert(!was.contains(instr));
            }
            assert(before.block_wf(before.blocks[block.index() as int]));
            assert forall|k: int| 0 <= k < now.len() implies was.contains(#[trigger] now[k]) by {
                if now.len() == was.len() {
                    assert(now[k] == was[k]);
                } else if k < at {
                    assert(now[k] == was[k]);
                } else {
                    assert(now[k] == was[k + 1]);
                }
            }
            assert forall|k: int| 0 <= k < now.len() implies self@.has_instr(#[trigger] now[k])
                && self@.instr(now[k]) is Phi by {
                let j = choose|j: int| 0 <= j < was.len() && was[j] == now[k];
                assert(before.has_instr(before.blocks[block.index() as int].phis[j]));
            }
            assert forall|k: int|
                0 <= k < self@.block(block).incomplete_phis.len() implies self@.vars.is_declared(
                (#[trigger] self@.block(block).incomplete_phis[k]).0,
            ) && self@.is_phi_value(self@.block(block).incomplete_phis[k].1) by {
                assert(before.vars.is_declared(before.block(block).incomplete_phis[k].0));
                assert(before.is_phi_value(before.block(block).incomplete_phis[k].1));
            }
            assert(self@.blocks =~= before.blocks.update(block.index() as int, self@.block(block)));
            self@.lemma_changes_block(before, block);
        }
    }

    /// Appends the operand that flows from the predecessor to the
    /// ϕ-instruction with the given value.
    fn phi_add_operand(&mut self, phi_value: Value, pred: Block, operand: Value)
        requires
            old(self).wf(),
            old(self)@.is_phi_value(phi_value),
            old(self)@.has_value(operand),
        ensures
            final(self).wf(),
            final(self)@.same_structure(old(self)@),
            final(self)@.extends(old(self)@),
            final(self)@.vars == old(self)@.vars,
            final(self)@.phi_block == old(self)@.phi_block,
            final(self)@.is_phi_value(phi_value),
            final(self)@.operands_of(phi_value) == old(self)@.operands_of(phi_value).insert(
                pred.index(),
                operand,
            ),
            forall|value: Value|
                value != operand ==> #[trigger] final(self)@.users(value) == old(self)@.users(
                    value,
                ),
            final(self)@.keeps_operand_blocks(old(self)@, Some(phi_value)),
            forall|value: Value|
                value != phi_value ==> #[trigger] final(self)@.phi_operands(value) == old(self)@.phi_operands(value),
            forall|i: int, value: Value|
                0 <= i < final(self)@.instrs.len() && #[trigger] final(self)@.instrs[i].uses(value)
                    ==> old(self)@.instrs[i].uses(value) || value == operand,
            forall|value: Value|
                old(self)@.has_value(value) && value != phi_value ==> #[trigger] final(self)@.operands_of(value)
                    == old(self)@.operands_of(value),
    {
        let instr = match self.ctx.assoc(phi_value) {
            ValueAssoc::Instr(instr) => instr,
            ValueAssoc::Input(_) => vstd::pervasive::unreached(),
        };
        let ghost before = self@;
        self.ctx.add_user(operand, instr);
        let ghost recorded = self@;
        let instruction = self.ctx.instr_mut(instr);
        match instruction {
            Instruction::Phi(phi) => {
                phi.append_operand(pred, operand);
            },
            _ => {},
        }
        proof {
            before.lemma_with_user(operand, instr);
            let i = instr.index() as int;
            assert(FunctionModel::same_shape(before.instrs[i], self@.instrs[i]));
            assert forall|x: Value| before.has_value(x) && x != phi_value implies #[trigger] self@.operands_of(
                x,
            ) == before.operands_of(x) by {
                let v = x.index() as int;
                if let ValueAssoc::Instr(at) = before.value_assoc[v] {
                    assert(before.has_instr(at));
                    assert(before.instr_value.contains_key(at.index()));
                    if at.index() == instr.index() {
                        Value::lemma_index_injective(x, phi_value);
                    }
                }
            }
            assert forall|x: Value| x != phi_value implies #[trigger] self@.phi_operands(x)
                == before.phi_operands(x) by {
                if before.has_value(x) {
                    let v = x.index() as int;
                    if let ValueAssoc::Instr(at) = before.value_assoc[v] {
                        assert(before.has_instr(at));
                        assert(before.instr_value.contains_key(at.index()));
                        if at.index() == instr.index() {
                            Value::lemma_index_injective(x, phi_value);
                        }
                    }
                }
            }
            assert forall|x: Value| before.has_value(x) && x != phi_value implies (
            #[trigger] self@.operands_of(x)).dom() == before.operands_of(x).dom() by {
                let v = x.index() as int;
                if let ValueAssoc::Instr(at) = before.value_assoc[v] {
                    assert(before.has_instr(at));
                    assert(before.instr_value.contains_key(at.index()));
                    if at.index() == instr.index() {
                        Value::lemma_index_injective(x, phi_value);
                    }
                }
            }
            assert forall|value: Value| value != operand implies #[trigger] self@.users(value)
                == before.users(value) by {
                if value.index() == operand.index() {
                    Value::lemma_index_injective(value, operand);
                }
            }
            assert forall|at: int, used: Value|
                0 <= at < self@.instrs.len() && #[trigger] self@.instrs[at].uses(
                    used,
                ) implies has_index(self@.users(used), at) by {
                if at == i {
                    if let Instruction::Phi(now) = self@.instrs[at] {
                        if let Instruction::Phi(was) = before.instrs[at] {
                            let k = choose|k: u32| #[trigger]
                                now.operands@.contains_key(k) && now.operands@[k] == used;
                            if k == pred.index() {
                                assert(used == operand);
                            } else {
                                assert(was.operands@.contains_key(k));
                                assert(was.operands.uses(used));
                                assert(before.instrs[at].uses(used));
                                assert(has_index(before.users(used), at));
                            }
                        }
                    }
                } else {
                    assert(before.instrs[at].uses(used));
                    assert(has_index(before.users(used), at));
                }
            }
            self@.lemma_same_structure(before);
            self@.lemma_structure_extends(before);
        }
    }

    /// Replaces every use of `replace` by `with` in the instructions that
    /// are listed as its users.
    fn replace_uses(&mut self, users: &Vec<Instr>, replace: Value, with: Value)
        requires
            old(self).wf(),
            replace != with,
            old(self)@.has_value(with),
            forall|i: int|
                0 <= i < old(self)@.instrs.len() && old(self)@.instrs[i].uses(replace)
                    ==> has_index(users@, i),
        ensures
            final(self).wf(),
            final(self)@.same_structure(old(self)@),
            final(self)@.extends(old(self)@),
            final(self)@.vars == old(self)@.vars,
            final(self)@.phi_block == old(self)@.phi_block,
            forall|i: int| 0 <= i < final(self)@.instrs.len() ==> !final(self)@.instrs[i].uses(replace),
            forall|i: int|
                0 <= i < final(self)@.instrs.len() ==> (#[trigger] final(self)@.instrs[i]).replaces(
                    old(self)@.instrs[i],
                    replace,
                    with,
                ),
            forall|value: Value, i: int|
                has_index(old(self)@.users(value), i) ==> #[trigger] has_index(
                    final(self)@.users(value),
                    i,
                ),
            forall|value: Value|
                value != with ==> #[trigger] final(self)@.users(value) == old(self)@.users(value),
    {
        let mut k: usize = 0;
        while k < users.len()
            invariant
                k <= users@.len(),
                replace != with,
                old(self).wf(),
                old(self)@.has_value(with),
                self.wf(),
                self@.same_structure(old(self)@),
                self@.current == old(self)@.current,
                self@.inputs == old(self)@.inputs,
                self@.outputs == old(self)@.outputs,
                self@.vars == old(self)@.vars,
                self@.phi_block == old(self)@.phi_block,
                forall|i: int|
                    0 <= i < self@.instrs.len() && #[trigger] self@.instrs[i].uses(replace) ==> old(self)@.instrs[i].uses(replace),
                forall|i: int|
                    0 <= i < self@.instrs.len() && has_index(users@.take(k as int), i)
                        ==> !(#[trigger] self@.instrs[i].uses(replace)),
                forall|i: int|
                    0 <= i < old(self)@.instrs.len() && old(self)@.instrs[i].uses(replace)
                        ==> has_index(users@, i),
                forall|i: int|
                    0 <= i < self@.instrs.len() ==> (#[trigger] self@.instrs[i]).replaces(
                        old(self)@.instrs[i],
                        replace,
                        with,
                    ) || (self@.instrs[i] == old(self)@.instrs[i] && !has_index(
                        users@.take(k as int),
                        i,
                    )),
                forall|value: Value, i: int|
                    has_index(old(self)@.users(value), i) ==> #[trigger] has_index(
                        self@.users(value),
                        i,
                    ),
                forall|value: Value|
                    value != with ==> #[trigger] self@.users(value) == old(self)@.users(value),
            decreases users@.len() - k,
        {
            let user = users[k];
            let ghost before = self@;
            if self.ctx.instrs.contains_key(user) {
                self.ctx.add_user(with, user);
                let instruction = self.ctx.instr_mut(user);
                instruction.replace_value(replace, with);
                proof {
                    before.lemma_with_user(with, user);
                    let u = user.index() as int;
                    self@.instrs[u].lemma_replaces_keeps_shape(before.instrs[u], replace, with);
                    self@.instrs[u].lemma_replaces_uses(before.instrs[u], replace, with);
                    if before.instrs[u].replaces(old(self)@.instrs[u], replace, with) {
                        // The user was listed before: nothing is left to replace in it.
                        before.instrs[u].lemma_replaces_uses(old(self)@.instrs[u], replace, with);
                        before.instrs[u].lemma_replaces_unused(replace, with);
                        Instruction::lemma_replaces_twice(
                            self@.instrs[u],
                            before.instrs[u],
                            old(self)@.instrs[u],
                            replace,
                            with,
                        );
                    }
                    assert forall|value: Value, i: int|
                        has_index(old(self)@.users(value), i) implies #[trigger] has_index(
                        self@.users(value),
                        i,
                    ) by {
                        assert(has_index(before.users(value), i));
                    }
                    assert forall|value: Value| value != with implies #[trigger] self@.users(value)
                        == old(self)@.users(value) by {
                        if value.index() == with.index() {
                            Value::lemma_index_injective(value, with);
                        }
                        assert(before.users(value) == old(self)@.users(value));
                    }
                    assert forall|at: int, used: Value|
                        0 <= at < self@.instrs.len() && #[trigger] self@.instrs[at].uses(
                            used,
                        ) implies has_index(self@.users(used), at) by {
                        if at == u {
                            if used != with {
                                assert(before.instrs[at].uses(used));
                            }
                        } else {
                            assert(before.instrs[at].uses(used));
                        }
                        if before.instrs[at].uses(used) {
                            assert(has_index(before.users(used), at));
                        }
                    }
                    assert forall|i: int|
                        0 <= i < self@.instrs.len() implies FunctionModel::same_shape(
                        old(self)@.instrs[i],
                        #[trigger] self@.instrs[i],
                    ) by {
                        assert(FunctionModel::same_shape(old(self)@.instrs[i], before.instrs[i]));
                    }
                    self@.lemma_same_structure(before);
                }
            }
            proof {
                assert forall|i: int|
                    0 <= i < self@.instrs.len() && has_index(
                        users@.take(k + 1),
                        i,
                    ) implies !(#[trigger] self@.instrs[i].uses(replace)) by {
                    let taken = users@.take(k + 1);
                    let j = choose|j: int| 0 <= j < taken.len() && #[trigger] taken[j].index() == i;
                    if j < k {
                        assert(users@.take(k as int)[j].index() == i);
                        assert(has_index(users@.take(k as int), i));
                        assert(!before.instrs[i].uses(replace));
                    } else {
                        assert(user.index() == i);
                    }
                }
            }
            k = k + 1;
        }
        proof {
            assert(users@.take(k as int) =~= users@);
            self@.lemma_structure_extends(old(self)@);
            assert forall|i: int| 0 <= i < self@.instrs.len() implies (
            #[trigger] self@.instrs[i]).replaces(old(self)@.instrs[i], replace, with) by {
                if !self@.instrs[i].replaces(old(self)@.instrs[i], replace, with) {
                    assert(!has_index(users@, i));
                    assert(!old(self)@.instrs[i].uses(replace));
                    old(self)@.instrs[i].lemma_replaces_unused(replace, with);
                }
            }
        }
    }

    /// Returns the instructions that are recorded as users of the value.
    pub fn users_of(&self, value: Value) -> (users: Vec<Instr>)
        requires
            self.wf(),
        ensures
            users@ == self@.users(value),
    {
        let mut users: Vec<Instr> = Vec::new();
        match self.ctx.value_users.get(value) {
            Some(recorded) => {
                let mut k: usize = 0;
                while k < recorded.len()
                    invariant
                        k <= recorded@.len(),
                        users@ == recorded@.take(k as int),
                    decreases recorded@.len() - k,
                {
                    users.push(recorded[k]);
                    assert(recorded@.take(k + 1) =~= recorded@.take(k as int).push(
                        recorded@[k as int],
                    ));
                    k = k + 1;
                }
                assert(recorded@.take(k as int) =~= recorded@);
            },
            None => {},
        }
        users
    }

    /// Replaces every use of `replace` by `with`, in all instructions and in
    /// the definitions of all variables.
    ///
    /// Afterwards no instruction uses `replace`.
    pub fn replace_all_uses(&mut self, replace: Value, with: Value)
        requires
            old(self).wf(),
            replace != with,
            old(self)@.has_value(with),
        ensures
            final(self).wf(),
            final(self)@.same_structure(old(self)@),
            final(self)@.extends(old(self)@),
            final(self)@.phi_block == old(self)@.phi_block,
            final(self)@.vars.defs == old(self)@.vars.defs.map_values(
                |value: Value| replace_in(value, replace, with),
            ),
            forall|i: int| 0 <= i < final(self)@.instrs.len() ==> !final(self)@.instrs[i].uses(replace),
            forall|i: int|
                0 <= i < final(self)@.instrs.len() ==> (#[trigger] final(self)@.instrs[i]).replaces(
                    old(self)@.instrs[i],
                    replace,
                    with,
                ),
            final(self)@.users(replace) == Seq::<Instr>::empty(),
            forall|value: Value|
                value != with && value != replace ==> #[trigger] final(self)@.users(value) == old(self)@.users(value),
            forall|i: int|
                has_index(old(self)@.users(with), i) ==> has_index(final(self)@.users(with), i),
    {
        let users = self.users_of(replace);
        self.replace_uses(&users, replace, with);
        let ghost replaced = self@;
        // No instruction uses the value any more: neither does it have users.
        let _ = self.ctx.take_users(replace);
        self.ctx.vars.replace_value(replace, with);
        proof {
            assert forall|at: int, used: Value|
                0 <= at < self@.instrs.len() && #[trigger] self@.instrs[at].uses(
                    used,
                ) implies has_index(self@.users(used), at) by {
                assert(replaced.instrs[at].uses(used));
                assert(has_index(replaced.users(used), at));
                if used.index() == replace.index() {
                    Value::lemma_index_injective(used, replace);
                }
            }
            self@.lemma_same_structure(replaced);
            assert forall|i: int| 0 <= i < self@.instrs.len() implies FunctionModel::same_shape(
                old(self)@.instrs[i],
                #[trigger] self@.instrs[i],
            ) by {
                assert(FunctionModel::same_shape(old(self)@.instrs[i], replaced.instrs[i]));
            }
            self@.lemma_structure_extends(old(self)@);
            assert forall|value: Value| value != with && value != replace implies #[trigger] self@.users(
                value,
            ) == old(self)@.users(value) by {
                if value.index() == replace.index() {
                    Value::lemma_index_injective(value, replace);
                }
                assert(replaced.users(value) == old(self)@.users(value));
            }
            assert forall|i: int| has_index(old(self)@.users(with), i) implies has_index(
                self@.users(with),
                i,
            ) by {
                assert(has_index(replaced.users(with), i));
                if with.index() == replace.index() {
                    Value::lemma_index_injective(with, replace);
                }
            }
        }
    }

    /// Checks the ϕ-instruction as [`FunctionBuilder::try_remove_trivial_phi`]
    /// does, but a check that fails after ϕ-instructions were removed leaves
    /// them removed.
    #[verifier::rlimit(60)]
    fn remove_trivial_phi(&mut self, phi_value: Value) -> (outcome: Result<(), IrError>)
        requires
            old(self).wf(),
            old(self)@.phi_block.contains_key(phi_value.index()),
        ensures
            final(self).wf(),
            final(self)@.extends(old(self)@),
            final(self)@.instrs.len() == old(self)@.instrs.len(),
            final(self)@.value_type.len() == old(self)@.value_type.len(),
            forall|key: (u32, u32)|
                final(self)@.vars.defs.contains_key(key) == old(self)@.vars.defs.contains_key(key),
            forall|v: u32| #[trigger]
                final(self)@.phi_block.contains_key(v) ==> old(self)@.phi_block.contains_key(v)
                    && final(self)@.phi_block[v] == old(self)@.phi_block[v],
            final(self)@.phi_block.len() <= old(self)@.phi_block.len(),
            old(self)@.phi_merges_several(phi_value) ==> outcome.is_ok() && final(self)@ == old(self)@,
            old(self)@.phi_merges_nothing(phi_value) ==> final(self)@ == old(self)@ && outcome
                == Err::<(), IrError>(
                IrError::FunctionBuilder(FunctionBuilderError::UnreachablePhi { value: phi_value }),
            ),
            !old(self)@.phi_merges_several(phi_value) && !old(self)@.phi_merges_nothing(phi_value)
                ==> !final(self)@.phi_block.contains_key(phi_value.index()),
            !old(self)@.phi_merges_several(phi_value) && !old(self)@.phi_merges_nothing(phi_value)
                && old(self)@.users(phi_value).len() == 0 ==> outcome.is_ok() && forall|
                same: Value,
            | #[trigger]
                old(self)@.phi_operands(phi_value).contains(same) ==> final(self)@.collapsed(
                    old(self)@,
                    phi_value,
                    same,
                ),
            exists|trace: Seq<FunctionModel>| #[trigger]
                final(self)@.cascaded(old(self)@, trace, phi_value, outcome),
            final(self)@.keeps_operand_blocks(old(self)@, None),
            outcome matches Err(error) ==> FunctionModel::is_unreachable_phi(error),
            final(self)@.keeps_ways(old(self)@),
            final(self)@.instr_value == old(self)@.instr_value,
            final(self)@.retires_phis(old(self)@),
            final(self)@.keeps_agreement(old(self)@, None),
            outcome.is_ok() ==> final(self)@.adds_no_trivial_phi(old(self)@) && !final(self)@.is_trivial_phi(phi_value),
        decreases old(self)@.phi_block.len(),
    {
        let instr = match self.ctx.assoc(phi_value) {
            ValueAssoc::Instr(instr) => instr,
            ValueAssoc::Input(_) => vstd::pervasive::unreached(),
        };
        let ghost start = self@;
        let ghost foreign = start.phi_operands(phi_value);
        proof {
            Value::lemma_index_injective(phi_value, phi_value);
        }
        let outcome = match self.ctx.instr(instr) {
            Instruction::Phi(phi) => phi.operands.is_trivial(phi_value),
            _ => vstd::pervasive::unreached(),
        };
        let same = match outcome {
            Err(error) => {
                proof {
                    assert(start.phi_merges_nothing(phi_value));
                    assert(start.phi_block.contains_key(phi_value.index()));
                    assert(start.cascaded(start, seq![start], phi_value, Err(error)));
                }
                return Err(error);
            },
            Ok(None) => {
                proof {
                    assert(start.phi_merges_several(phi_value));
                    assert(start.cascaded(start, seq![start], phi_value, Ok(())));
                }
                return Ok(());
            },
            Ok(Some(same)) => same,
        };
        proof {
            assert(foreign.contains(same));
            assert(!start.phi_merges_nothing(phi_value));
            assert(!start.phi_merges_several(phi_value));
            start.phi_block.lemma_remove_key_len(phi_value.index());
        }
        let block = match self.ctx.remove_phi_block(phi_value) {
            Some(block) => block,
            None => vstd::pervasive::unreached(),
        };
        proof {
            assert forall|at: int, used: Value|
                0 <= at < self@.instrs.len() && #[trigger] self@.instrs[at].uses(
                    used,
                ) implies has_index(self@.users(used), at) by {
                assert(start.instrs[at].uses(used));
            }
            assert(self@.phi_block.dom() =~= start.phi_block.dom().remove(phi_value.index()));
            self@.lemma_same_structure(start);
            self@.lemma_structure_extends(start);
        }
        let ghost removed = self@;
        self.erase_phi(block, instr);
        let ghost erased = self@;
        let users = self.users_of(phi_value);
        proof {
            // The ϕ-instruction uses the value that it gives way to.
            assert(start.instrs[instr.index() as int].uses(same));
            assert(has_index(start.users(same), instr.index() as int));
            assert(start.value_users.contains_key(same.index()));
            assert(start.has_value(same));
        }
        self.replace_all_uses(phi_value, same);
        proof {
            erased.lemma_extends_trans(removed, start);
            self@.lemma_extends_trans(erased, start);
            assert forall|key: (u32, u32)|
                self@.vars.defs.contains_key(key) == start.vars.defs.contains_key(key) by {}
        }
        let ghost replaced = self@;
        proof {
            assert(replaced.keeps_ways(start)) by {
                assert(replaced.blocks == erased.blocks);
                assert forall|b: int| 0 <= b < replaced.blocks.len() implies (
                #[trigger] replaced.blocks[b]).preds == start.blocks[b].preds
                    && replaced.blocks[b].sealed == start.blocks[b].sealed by {
                    assert(erased.blocks[b].preds == removed.blocks[b].preds);
                }
            }
            replaced.lemma_replaced_keeps_blocks(erased, phi_value, same);
            assert(replaced.keeps_operand_blocks(start, None)) by {
                assert forall|value: Value| start.has_value(value) implies (
                #[trigger] replaced.operands_of(value)).dom() == start.operands_of(value).dom() by {
                    assert(erased.operands_of(value) == start.operands_of(value));
                }
            }
            assert(users@ == start.users(phi_value));
            assert forall|other: Value| #[trigger]
                start.phi_operands(phi_value).contains(other) implies other == same by {
                if other != same {
                    assert(start.phi_merges_several(phi_value));
                }
            }
            assert(replaced.blocks =~= start.blocks.update(
                block.index() as int,
                BlockModel {
                    phis: start.block(block).phis.remove_value(instr),
                    ..start.block(block)
                },
            ));
            assert(replaced.collapsed(start, phi_value, same));
            assert(replaced.removes_trivial(start));
            replaced.lemma_collapse_turns(start, phi_value, same);
            replaced.lemma_collapse_retires(start, phi_value, same);
            replaced.lemma_collapse_agrees(start, phi_value, same);
            assert(start.instr_value.contains_key(instr.index()));
            Value::lemma_index_injective(start.instr_value[instr.index()], phi_value);
            assert(start.value_of(instr) == Some(phi_value));
        }
        let ghost mut trace: Seq<FunctionModel> = seq![start, replaced];
        let mut k: usize = 0;
        while k < users.len()
            invariant
                k <= users@.len(),
                self.wf(),
                start.wf(),
                k == 0 ==> self@ == replaced,
                self@.retires_phis(start),
                self@.keeps_agreement(start, None),
                self@.instr_value == start.instr_value,
                start.value_of(instr) == Some(phi_value),
                forall|value: Value|
                    !#[trigger] self@.turned_trivial(start, value, phi_value, users@, k as int),
                self@.keeps_operand_blocks(start, None),
                self@.keeps_ways(start),
                FunctionModel::is_cascade(trace),
                trace.len() >= 2,
                trace[0] == start,
                trace[1] == replaced,
                trace.last() == self@,
                users@ == start.users(phi_value),
                replaced.collapsed(start, phi_value, same),
                forall|other: Value| #[trigger]
                    start.phi_operands(phi_value).contains(other) ==> other == same,
                self@.extends(start),
                self@.instrs.len() == start.instrs.len(),
                self@.value_type.len() == start.value_type.len(),
                forall|key: (u32, u32)|
                    self@.vars.defs.contains_key(key) == start.vars.defs.contains_key(key),
                forall|v: u32| #[trigger]
                    self@.phi_block.contains_key(v) ==> start.phi_block.contains_key(v) && v
                        != phi_value.index() && self@.phi_block[v] == start.phi_block[v],
                self@.phi_block.len() < start.phi_block.len(),
                start == old(self)@,
                !start.phi_merges_nothing(phi_value),
                !start.phi_merges_several(phi_value),
            decreases users@.len() - k,
        {
            let user = users[k];
            let ghost middle = self@;
            let ghost mut checked: Option<Value> = None;
            if user != instr {
                match self.ctx.value_of(user) {
                    Some(value) => {
                        if self.ctx.phi_block_of(value).is_some() {
                            let ghost before = self@;
                            let outcome = self.remove_trivial_phi(value);
                            proof {
                                self@.lemma_keeps_agreement(before, start, None, None);
                                self@.lemma_retires_phis(before, start);
                                checked = Some(value);
                                self@.lemma_keeps_ways(before, start);
                                assert forall|x: Value| start.has_value(x) implies (
                                #[trigger] self@.operands_of(x)).dom() == start.operands_of(
                                    x,
                                ).dom() by {
                                    assert(before.has_value(x));
                                    assert(before.operands_of(x).dom() == start.operands_of(x).dom());
                                }
                                let further = choose|further: Seq<FunctionModel>| #[trigger]
                                    self@.cascaded(before, further, value, outcome);
                                FunctionModel::lemma_cascade_append(trace, further);
                                trace = trace + further.skip(1);
                            }
                            match outcome {
                                Ok(()) => {},
                                Err(error) => {
                                    proof {
                                        self@.lemma_extends_trans(before, start);
                                        if self@.phi_block.contains_key(phi_value.index()) {
                                            assert(before.phi_block.contains_key(phi_value.index()));
                                        }
                                        assert(self@.cascaded(start, trace, phi_value, Err(error)));
                                    }
                                    return Err(error);
                                },
                            }
                            proof {
                                self@.lemma_extends_trans(before, start);
                            }
                        }
                    },
                    None => {},
                }
            }
            proof {
                if checked.is_none() {
                    assert forall|value: Value| #[trigger]
                        middle.is_trivial_phi(value) implies start.value_of(users@[k as int])
                        != Some(value) by {
                        if start.value_of(users@[k as int]) == Some(value) {
                            if user == instr {
                                assert(value == phi_value);
                            }
                        }
                    }
                }
                self@.lemma_turns_after(middle, start, phi_value, users@, k as int, checked);
            }
            k = k + 1;
        }
        proof {
            assert(self@.cascaded(start, trace, phi_value, Ok(())));
            assert forall|value: Value| #[trigger] self@.is_trivial_phi(
                value,
            ) implies start.is_trivial_phi(value) by {
                assert(!self@.turned_trivial(start, value, phi_value, users@, users@.len() as int));
            }
        }
        Ok(())
    }

    /// Checks if the complete ϕ-instruction with the given value is trivial,
    /// and removes it if it is: every use of its value gives way to the one
    /// value that it merges, and the ϕ-instructions that used it are checked
    /// in turn.
    ///
    /// A check that fails leaves the function as it was.
    ///
    /// # Errors
    ///
    /// If a checked ϕ-instruction has no operand but itself.
    pub fn try_remove_trivial_phi(&mut self, phi_value: Value) -> (outcome: Result<(), IrError>)
        requires
            old(self).wf(),
            old(self)@.phi_block.contains_key(phi_value.index()),
        ensures
            final(self).wf(),
            final(self)@.extends(old(self)@),
            final(self)@.instrs.len() == old(self)@.instrs.len(),
            final(self)@.value_type.len() == old(self)@.value_type.len(),
            forall|key: (u32, u32)|
                final(self)@.vars.defs.contains_key(key) == old(self)@.vars.defs.contains_key(key),
            forall|v: u32| #[trigger]
                final(self)@.phi_block.contains_key(v) ==> old(self)@.phi_block.contains_key(v),
            final(self)@.phi_block.len() <= old(self)@.phi_block.len(),
            old(self)@.phi_merges_several(phi_value) ==> outcome.is_ok() && final(self)@ == old(self)@,
            old(self)@.phi_merges_nothing(phi_value) ==> final(self)@ == old(self)@ && outcome
                == Err::<(), IrError>(
                IrError::FunctionBuilder(FunctionBuilderError::UnreachablePhi { value: phi_value }),
            ),
            outcome.is_ok() && !old(self)@.phi_merges_several(phi_value) ==> !final(self)@.phi_block.contains_key(phi_value.index()),
            outcome.is_err() ==> final(self)@ == old(self)@,
            outcome.is_ok() ==> final(self)@.adds_no_trivial_phi(old(self)@) && !final(self)@.is_trivial_phi(phi_value),
            outcome.is_ok() && !old(self)@.phi_merges_several(phi_value) ==> final(self)@.is_unreferenced(phi_value),
            exists|trace: Seq<FunctionModel>|
                {
                    &&& #[trigger] FunctionModel::checks(old(self)@, trace, phi_value, outcome)
                    &&& outcome.is_ok() ==> final(self)@ == trace.last()
                },
    {
        let instr = match self.ctx.assoc(phi_value) {
            ValueAssoc::Instr(instr) => instr,
            ValueAssoc::Input(_) => vstd::pervasive::unreached(),
        };
        proof {
            Value::lemma_index_injective(phi_value, phi_value);
        }
        let trivial = match self.ctx.instr(instr) {
            Instruction::Phi(phi) => phi.operands.is_trivial(phi_value),
            _ => vstd::pervasive::unreached(),
        };
        match trivial {
            Ok(Some(same)) => {
                proof {
                    assert(self@.phi_operands(phi_value).contains(same));
                    assert(!self@.phi_merges_nothing(phi_value));
                    assert(!self@.phi_merges_several(phi_value));
                }
            },
            _ => {
                let ghost before = self@;
                let outcome = self.remove_trivial_phi(phi_value);
                proof {
                    let trace = choose|trace: Seq<FunctionModel>| #[trigger]
                        self@.cascaded(before, trace, phi_value, outcome);
                    assert(FunctionModel::checks(before, trace, phi_value, outcome));
                }
                return outcome;
            },
        }
        // The ϕ-instruction is removed before the check can fail: it works
        // on a copy.
        let mut trial: FunctionBuilder<state::Body> = FunctionBuilder {
            ctx: self.ctx.snapshot(),
            state: PhantomData,
        };
        let ghost copy = trial@;
        proof {
            copy.lemma_alike(self@);
            copy.lemma_structure_extends(self@);
        }
        let outcome = trial.remove_trivial_phi(phi_value);
        proof {
            let copied = choose|copied: Seq<FunctionModel>| #[trigger]
                trial@.cascaded(copy, copied, phi_value, outcome);
            let trace = copied.update(0, self@);
            copy.lemma_alike_operands(self@);
            assert forall|value: Value| #[trigger]
                copy.is_trivial_phi(value) == self@.is_trivial_phi(value) by {}
            copied[1].lemma_alike_removes(copy, self@);
            assert(copied[1].removes_trivial(copied[0]));
            assert forall|i: int| 0 <= i < trace.len() - 1 implies trace[i + 1].removes_trivial(
                #[trigger] trace[i],
            ) by {
                if i > 0 {
                    assert(copied[i + 1].removes_trivial(copied[i]));
                }
            }
            assert forall|same: Value| #[trigger]
                self@.phi_operands(phi_value).contains(same) implies trace[1].collapsed(
                self@,
                phi_value,
                same,
            ) by {
                assert(copy.phi_operands(phi_value).contains(same));
                assert(copied[1].collapsed(copy, phi_value, same));
                assert forall|i: int| 0 <= i < copied[1].instrs.len() implies (
                #[trigger] copied[1].instrs[i]).replaces(self@.instrs[i], phi_value, same) by {
                    copy.instrs[i].lemma_alike(self@.instrs[i]);
                    assert(copied[1].instrs[i].replaces(copy.instrs[i], phi_value, same));
                }
            }
            assert(trace.last() == trial@);
            assert(FunctionModel::checks(self@, trace, phi_value, outcome));
            trial@.lemma_extends_trans(copy, self@);
            self@.lemma_extends_refl();
        }
        if outcome.is_ok() {
            self.ctx = trial.ctx;
        }
        outcome
    }

    /// Returns a copy of the predecessors of the block, ordered by index.
    fn preds_of(&self, block: Block) -> (preds: Vec<Block>)
        requires
            self.wf(),
            self@.has_block(block),
        ensures
            preds@ == self@.block(block).preds,
    {
        let data = self.ctx.block(block);
        let mut preds: Vec<Block> = Vec::new();
        let mut k: usize = 0;
        while k < data.preds.len()
            invariant
                k <= data.preds@.len(),
                preds@ == data.preds@.take(k as int),
            decreases data.preds@.len() - k,
        {
            preds.push(data.preds[k]);
            assert(data.preds@.take(k + 1) =~= data.preds@.take(k as int).push(data.preds@[k as int]));
            k = k + 1;
        }
        assert(data.preds@.take(k as int) =~= data.preds@);
        preds
    }

    /// Gives the ϕ-instruction with the given value, which stands for the
    /// variable in the block, one operand for every predecessor of the
    /// block, in the order of their indices: the value that the variable
    /// reads as in the predecessor. Then the ϕ-instruction is complete, and
    /// is removed if it is trivial.
    ///
    /// # Errors
    ///
    /// - If the variable cannot have been written where it is read.
    /// - If a ϕ-instruction has no operand but itself.
    fn add_phi_operands(&mut self, var: Variable, phi_value: Value, block: Block) -> (outcome:
        Result<(), IrError>)
        requires
            old(self).wf(),
            old(self)@.vars.is_declared(var),
            old(self)@.is_phi_value(phi_value),
            old(self)@.has_block(block),
            old(self)@.instrs.len() + old(self)@.undefined(var) + 1 < u32::MAX,
            old(self)@.value_type.len() + old(self)@.undefined(var) + 1 < u32::MAX,
        ensures
            final(self).wf(),
            final(self)@.extends(old(self)@),
            final(self)@.instrs.len() + final(self)@.undefined(var) <= old(self)@.instrs.len() + old(self)@.undefined(var),
            final(self)@.value_type.len() + final(self)@.undefined(var) <= old(self)@.value_type.len() + old(self)@.undefined(var),
            old(self)@.merges_at_once(var, phi_value, block) ==> outcome.is_ok() && final(self)@.merged(
                old(self)@,
                var,
                phi_value,
                block,
            ),
            final(self)@.keeps_operand_blocks(old(self)@, Some(phi_value)),
            outcome.is_ok() ==> final(self)@.operands_of(phi_value).dom() == old(self)@.operands_of(
                phi_value,
            ).dom().union(block_indices(old(self)@.block(block).preds)),
            outcome.is_ok() && final(self)@.phi_block.contains_key(phi_value.index())
                ==> final(self)@.phi_block[phi_value.index()] == block,
            outcome matches Err(error) ==> FunctionModel::is_read_error(var, error),
            final(self)@.keeps_ways(old(self)@),
            final(self)@.retires_phis(old(self)@),
            final(self)@.keeps_agreement(old(self)@, Some(phi_value)),
            outcome.is_ok() ==> final(self)@.merges_reads(old(self)@, var, phi_value, block),
            outcome.is_ok() ==> final(self)@.phi_block.contains_key(phi_value.index())
                || final(self)@.is_unreferenced(phi_value),
            outcome.is_ok() ==> final(self)@.adds_no_trivial_phi_but(old(self)@, phi_value)
                && !final(self)@.is_trivial_phi(phi_value),
            outcome == Err::<(), IrError>(
                IrError::FunctionBuilder(FunctionBuilderError::ReadBeforeWriteVariable { variable: var }),
            ) ==> old(self)@.has_dead_end(var),
            old(self)@.block(block).preds.len() == 0 && old(self)@.phi_merges_nothing(phi_value)
                ==> outcome == Err::<(), IrError>(
                IrError::FunctionBuilder(FunctionBuilderError::UnreachablePhi { value: phi_value }),
            ),
        decreases old(self)@.undefined(var), 2int,
    {
        let preds = self.preds_of(block);
        let ghost start = self@;
        let ghost at_once = start.merges_at_once(var, phi_value, block);
        proof {
            start.lemma_extends_refl();
            assert(start.definitions_in(var, block, 0) =~= Map::<u32, Value>::empty());
        }
        let mut k: usize = 0;
        while k < preds.len()
            invariant
                k <= preds@.len(),
                at_once == start.merges_at_once(var, phi_value, block),
                at_once ==> {
                    &&& self@.vars == start.vars
                    &&& self@.blocks == start.blocks
                    &&& self@.phi_block == start.phi_block
                    &&& self@.value_assoc == start.value_assoc
                    &&& self@.users(phi_value).len() == 0
                    &&& self@.operands_of(phi_value) == start.definitions_in(var, block, k as int)
                },
                start == old(self)@,
                start.wf(),
                self.wf(),
                k == 0 ==> self@ == start,
                self@.retires_phis(start),
                self@.keeps_agreement(start, Some(phi_value)),
                forall|j: int|
                    0 <= j < k ==> self@.agrees(
                        phi_value,
                        (#[trigger] preds@[j]).index(),
                        (var.index(), preds@[j].index()),
                    ),
                self@.adds_no_trivial_phi_but(start, phi_value),
                self@.keeps_ways(start),
                self@.extends(start),
                self@.keeps_operand_blocks(start, Some(phi_value)),
                self@.operands_of(phi_value).dom() == start.operands_of(phi_value).dom().union(
                    block_indices(preds@.take(k as int)),
                ),
                preds@ == start.block(block).preds,
                start.has_block(block),
                start.vars.is_declared(var),
                start.is_phi_value(phi_value),
                start.instrs.len() + start.undefined(var) + 1 < u32::MAX,
                start.value_type.len() + start.undefined(var) + 1 < u32::MAX,
                self@.instrs.len() + self@.undefined(var) <= start.instrs.len() + start.undefined(
                    var,
                ),
                self@.value_type.len() + self@.undefined(var) <= start.value_type.len()
                    + start.undefined(var),
            decreases preds@.len() - k,
        {
            let pred = preds[k];
            let ghost before = self@;
            proof {
                assert(start.has_block(start.blocks[block.index() as int].preds[k as int]));
                self@.lemma_extends_undefined(start, var);
            }
            proof {
                if at_once {
                    assert(before.vars.definition(var, start.block(block).preds[k as int]).is_some());
                    assert(before.way_up(var, pred, before.blocks.len()) =~= Seq::<Block>::empty());
                    assert(before.top_of_way(var, pred, before.blocks.len()) == pred);
                }
            }
            let value = match self.read_in(var, pred) {
                Ok(value) => value,
                Err(error) => {
                    proof {
                        self@.lemma_retires_phis(before, start);
                        self@.lemma_extends_trans(before, start);
                        self@.lemma_keeps_ways(before, start);
                        if before.has_dead_end(var) {
                            before.lemma_dead_end_back(start, var);
                        }
                    }
                    return Err(error);
                },
            };
            let ghost read = self@;
            proof {
                read.lemma_keeps_agreement(before, start, Some(phi_value), None);
                assert forall|j: int| 0 <= j < k implies read.agrees(
                    phi_value,
                    (#[trigger] preds@[j]).index(),
                    (var.index(), preds@[j].index()),
                ) by {
                    assert(before.agrees(
                        phi_value,
                        preds@[j].index(),
                        (var.index(), preds@[j].index()),
                    ));
                }
                read.lemma_retires_phis(before, start);
                read.lemma_keeps_ways(before, start);
                read.lemma_keeps_operand_blocks(before, start, Some(phi_value), None);
                assert(before.has_value(phi_value));
                assert(read.operands_of(phi_value).dom() == before.operands_of(phi_value).dom());
                read.lemma_extends_trans(before, start);
                if at_once {
                    assert(read == before);
                    assert(Some(value) == start.vars.definition(var, pred));
                }
            }
            self.phi_add_operand(phi_value, pred, value);
            proof {
                assert(self@.keeps_agreement(read, Some(phi_value))) by {
                    assert forall|x: Value, p: u32, key: (u32, u32)|
                        read.has_value(x) && x != phi_value && #[trigger] read.agrees(
                            x,
                            p,
                            key,
                        ) implies self@.agrees(x, p, key) by {
                        assert(self@.operands_of(x) == read.operands_of(x));
                    }
                }
                self@.lemma_keeps_agreement(read, start, Some(phi_value), Some(phi_value));
                assert(start.block_wf(start.blocks[block.index() as int]));
                assert forall|j: int| 0 <= j < k + 1 implies self@.agrees(
                    phi_value,
                    (#[trigger] preds@[j]).index(),
                    (var.index(), preds@[j].index()),
                ) by {
                    if j < k {
                        assert(read.agrees(
                            phi_value,
                            preds@[j].index(),
                            (var.index(), preds@[j].index()),
                        ));
                        assert(start.blocks[block.index() as int].preds[j].index()
                            < start.blocks[block.index() as int].preds[k as int].index());
                    } else {
                        assert(read.vars.defs.contains_key((var.index(), pred.index())));
                    }
                }
                assert(self@.retires_phis(read)) by {
                    assert(read.vars.defs.contains_key((var.index(), pred.index())));
                    assert forall|x: Value|
                        read.has_value(x) && read.is_unreferenced(
                            x,
                        ) implies #[trigger] self@.is_unreferenced(x) by {
                        assert(x != value);
                        assert forall|i: int| 0 <= i < self@.instrs.len() implies !(
                        #[trigger] self@.instrs[i]).uses(x) by {
                            if self@.instrs[i].uses(x) {
                                assert(read.instrs[i].uses(x));
                            }
                        }
                    }
                }
                self@.lemma_retires_phis(read, start);
                self@.lemma_same_phis(read, Some(phi_value));
                assert forall|x: Value| x != phi_value && #[trigger] self@.is_trivial_phi(
                    x,
                ) implies start.is_trivial_phi(x) by {
                    assert(read.is_trivial_phi(x));
                    assert(before.is_trivial_phi(x));
                }
                assert(self@.keeps_ways(read));
                self@.lemma_keeps_ways(read, start);
                self@.lemma_keeps_operand_blocks(read, start, Some(phi_value), Some(phi_value));
                assert(block_indices(preds@.take(k + 1)) =~= block_indices(
                    preds@.take(k as int),
                ).insert(pred.index())) by {
                    assert(preds@.take(k + 1)[k as int].index() == pred.index());
                    assert forall|p: u32|
                        block_indices(preds@.take(k as int)).contains(p) implies block_indices(
                        preds@.take(k + 1),
                    ).contains(p) by {
                        let j = choose|j: int|
                            0 <= j < preds@.take(k as int).len() && #[trigger] preds@.take(
                                k as int,
                            )[j].index() == p;
                        assert(preds@.take(k + 1)[j].index() == p);
                    }
                    assert forall|p: u32|
                        block_indices(preds@.take(k + 1)).contains(p) && p
                            != pred.index() implies block_indices(preds@.take(k as int)).contains(
                        p,
                    ) by {
                        let j = choose|j: int|
                            0 <= j < preds@.take(k + 1).len() && #[trigger] preds@.take(
                                k + 1,
                            )[j].index() == p;
                        assert(j < k);
                        assert(preds@.take(k as int)[j].index() == p);
                    }
                }
                assert(self@.operands_of(phi_value).dom() =~= start.operands_of(
                    phi_value,
                ).dom().union(block_indices(preds@.take(k + 1))));
                self@.lemma_extends_trans(read, start);
                assert(self@.vars == read.vars);
                if at_once {
                    assert(value != phi_value);
                    assert(self@.operands_of(phi_value) =~= start.definitions_in(
                        var,
                        block,
                        k + 1,
                    )) by {
                        let now = self@.operands_of(phi_value);
                        let then = start.definitions_in(var, block, k + 1);
                        assert forall|p: u32| now.contains_key(p) == then.contains_key(p) by {
                            if then.contains_key(p) {
                                let j = choose|j: int|
                                    0 <= j < k + 1 && j < start.block(block).preds.len() && (
                                    #[trigger] start.block(block).preds[j]).index() == p;
                                if j < k {
                                    assert(start.definitions_in(var, block, k as int).contains_key(
                                        p,
                                    ));
                                }
                            }
                            if now.contains_key(p) && p != pred.index() {
                                assert(start.definitions_in(var, block, k as int).contains_key(p));
                                let j = choose|j: int|
                                    0 <= j < k && j < start.block(block).preds.len() && (
                                    #[trigger] start.block(block).preds[j]).index() == p;
                                assert(0 <= j < k + 1);
                            }
                            if p == pred.index() {
                                assert(start.block(block).preds[k as int].index() == p);
                            }
                        }
                    }
                }
            }
            k = k + 1;
        }
        let ghost filled = self@;
        proof {
            assert(preds@.take(k as int) =~= preds@);
            filled.lemma_with_complete(phi_value, block);
        }
        self.ctx.insert_phi_block(phi_value, block);
        let ghost complete = self@;
        proof {
            assert(complete.extends(filled));
            complete.lemma_extends_trans(filled, start);
        }
        proof {
            if at_once {
                let operands = start.definitions_in(var, block, preds@.len() as int);
                assert(complete.operands_of(phi_value) == operands);
                let first = start.block(block).preds[0];
                assert(operands.contains_key(first.index()));
                assert forall|p: u32| #[trigger] operands.contains_key(p) implies operands[p]
                    != phi_value && complete.phi_operands(phi_value).contains(operands[p]) by {
                    let j = choose|j: int|
                        0 <= j < preds@.len() && j < start.block(block).preds.len() && (
                        #[trigger] start.block(block).preds[j]).index() == p;
                    assert(start.vars.definition(var, start.block(block).preds[j]) == Some(
                        operands[p],
                    ));
                }
                assert(!complete.phi_merges_nothing(phi_value)) by {
                    let p = start.block(block).preds[0].index();
                    assert(complete.phi_operands(phi_value).contains(operands[p]));
                }
                if complete.phi_merges_several(phi_value) {
                    let (x, y) = choose|x: Value, y: Value|
                        x != y && #[trigger] complete.phi_operands(phi_value).contains(x)
                            && #[trigger] complete.phi_operands(phi_value).contains(y);
                    let a = choose|a: u32| #[trigger] operands.contains_key(a) && operands[a] == x;
                    let b = choose|b: u32| #[trigger] operands.contains_key(b) && operands[b] == y;
                    assert(operands.contains_key(a) && operands.contains_key(b) && operands[a]
                        != operands[b]);
                } else {
                    assert forall|a: u32, b: u32|
                        operands.contains_key(a) && operands.contains_key(b) implies operands[a]
                        == operands[b] by {
                        if operands[a] != operands[b] {
                            assert(complete.phi_operands(phi_value).contains(operands[a]));
                            assert(complete.phi_operands(phi_value).contains(operands[b]));
                        }
                    }
                    assert(start.phi_block.insert(phi_value.index(), block).remove(
                        phi_value.index(),
                    ) =~= start.phi_block);
                }
            }
        }
        proof {
            if start.block(block).preds.len() == 0 {
                assert(filled == start);
                assert(complete.phi_operands(phi_value) == start.phi_operands(phi_value));
            }
        }
        let outcome = self.remove_trivial_phi(phi_value);
        proof {
            assert(complete.keeps_agreement(filled, None)) by {
                assert forall|x: Value, p: u32, key: (u32, u32)|
                    filled.has_value(x) && #[trigger] filled.agrees(
                        x,
                        p,
                        key,
                    ) implies complete.agrees(x, p, key) by {
                    assert(complete.operands_of(x) == filled.operands_of(x));
                }
            }
            complete.lemma_keeps_agreement(filled, start, Some(phi_value), None);
            self@.lemma_keeps_agreement(complete, start, Some(phi_value), None);
            assert forall|j: int| 0 <= j < start.block(block).preds.len() implies self@.agrees(
                phi_value,
                (#[trigger] start.block(block).preds[j]).index(),
                (var.index(), start.block(block).preds[j].index()),
            ) by {
                assert(filled.agrees(
                    phi_value,
                    preds@[j].index(),
                    (var.index(), preds@[j].index()),
                ));
                assert(complete.agrees(
                    phi_value,
                    preds@[j].index(),
                    (var.index(), preds@[j].index()),
                ));
                assert(complete.has_value(phi_value));
            }
            assert(complete.retires_phis(filled)) by {
                assert forall|x: Value|
                    filled.has_value(x) && filled.is_unreferenced(
                        x,
                    ) implies #[trigger] complete.is_unreferenced(x) by {}
            }
            complete.lemma_retires_phis(filled, start);
            self@.lemma_retires_phis(complete, start);
            if outcome.is_ok() {
                if !self@.phi_block.contains_key(phi_value.index()) {
                    assert(complete.phi_block.contains_key(phi_value.index()));
                    assert(self@.is_unreferenced(phi_value));
                }
                assert forall|x: Value| x != phi_value && #[trigger] self@.is_trivial_phi(
                    x,
                ) implies start.is_trivial_phi(x) by {
                    assert(complete.is_trivial_phi(x));
                    if x.index() == phi_value.index() {
                        Value::lemma_index_injective(x, phi_value);
                    }
                    assert(complete.phi_operands(x) == filled.phi_operands(x));
                    assert(filled.is_trivial_phi(x));
                }
            }
            assert(complete.keeps_ways(filled));
            complete.lemma_keeps_ways(filled, start);
            self@.lemma_keeps_ways(complete, start);
            assert(complete.keeps_operand_blocks(start, Some(phi_value))) by {
                assert forall|x: Value| start.has_value(x) && x != phi_value implies (
                #[trigger] complete.operands_of(x)).dom() == start.operands_of(x).dom() by {
                    assert(complete.operands_of(x) == filled.operands_of(x));
                }
            }
            assert(complete.operands_of(phi_value) == filled.operands_of(phi_value));
            self@.lemma_keeps_operand_blocks(complete, start, Some(phi_value), None);
            assert(complete.has_value(phi_value));
            self@.lemma_extends_trans(complete, start);
            lemma_count_monotone(
                self@.vars.defs,
                complete.vars.defs,
                var.index(),
                self@.blocks.len(),
            );
            lemma_count_monotone(
                complete.vars.defs,
                self@.vars.defs,
                var.index(),
                self@.blocks.len(),
            );
        }
        outcome
    }

    /// Returns `true` if the variable has a definition in every predecessor
    /// of the block.
    fn defined_in_preds(&self, var: Variable, block: Block) -> (defined: bool)
        requires
            self.wf(),
            self@.has_block(block),
        ensures
            defined == self@.merges_definitions(var, block),
    {
        let data = self.ctx.block(block);
        let mut k: usize = 0;
        while k < data.preds.len()
            invariant
                k <= data.preds@.len(),
                self.wf(),
                data.preds@ == self@.block(block).preds,
                forall|j: int|
                    0 <= j < k ==> self@.vars.definition(
                        var,
                        #[trigger] self@.block(block).preds[j],
                    ).is_some(),
            decreases data.preds@.len() - k,
        {
            if self.ctx.vars.definition(var, data.preds[k]).is_none() {
                return false;
            }
            k = k + 1;
        }
        true
    }

    /// Follows the blocks upwards from the given block for as long as they
    /// have no definition of the variable, are sealed and have exactly one
    /// predecessor.
    ///
    /// Returns the blocks that were passed, the block in which the way ends
    /// and the definition of the variable in that block, if any.
    fn way_up_from(&self, var: Variable, block: Block) -> (way: (Vec<Block>, Block, Option<Value>))
        requires
            self.wf(),
            self@.has_block(block),
        ensures
            way.0@ == self@.way_up(var, block, self@.blocks.len()),
            way.1 == self@.top_of_way(var, block, self@.blocks.len()),
            way.2 == self@.vars.definition(var, way.1),
            self@.has_block(way.1),
            way.0@.len() <= self@.blocks.len(),
            way.0@.len() == 0 ==> way.1 == block,
            way.0@.len() > 0 ==> way.0@[0] == block && self@.vars.definition(var, block).is_none()
                && self@.block(block).sealed && self@.block(block).preds.len() == 1,
            forall|k: int| 0 <= k < way.0@.len() ==> self@.has_block(#[trigger] way.0@[k]),
            forall|k: int|
                0 <= k < way.0@.len() ==> self@.vars.definition(var, #[trigger] way.0@[k]).is_none(),
            way.2.is_none() ==> !self@.block(way.1).sealed || self@.block(way.1).preds.len() != 1
                || way.0@.len() >= self@.blocks.len(),
    {
        let ghost start = self@;
        let limit = self.ctx.len_blocks();
        let mut chain: Vec<Block> = Vec::new();
        let mut at = block;
        let mut found: Option<Value> = None;
        // No block on the way up has a definition of the variable.
        loop
            invariant_except_break
                found.is_none(),
            invariant
                self.wf(),
                start == self@,
                start.has_block(at),
                chain@.len() <= limit,
                limit == start.blocks.len(),
                chain@.len() == 0 ==> at == block,
                chain@.len() > 0 ==> chain@[0] == block && start.vars.definition(
                    var,
                    block,
                ).is_none() && start.block(block).sealed && start.block(block).preds.len() == 1,
                forall|k: int| 0 <= k < chain@.len() ==> start.has_block(#[trigger] chain@[k]),
                forall|k: int|
                    0 <= k < chain@.len() ==> start.vars.definition(var, #[trigger] chain@[k]).is_none(),
                start.way_up(var, block, limit as nat) == chain@ + start.way_up(
                    var,
                    at,
                    (limit - chain@.len()) as nat,
                ),
                start.top_of_way(var, block, limit as nat) == start.top_of_way(
                    var,
                    at,
                    (limit - chain@.len()) as nat,
                ),
            ensures
                start.way_up(var, block, limit as nat) == chain@,
                start.top_of_way(var, block, limit as nat) == at,
                found == start.vars.definition(var, at),
                found.is_none() ==> !start.block(at).sealed || start.block(at).preds.len() != 1
                    || chain@.len() >= limit,
            decreases limit - chain@.len(),
        {
            found = self.ctx.vars.definition(var, at);
            if found.is_some() {
                proof {
                    assert(chain@ + Seq::<Block>::empty() =~= chain@);
                }
                break ;
            }
            let data = self.ctx.block(at);
            if data.sealed && data.preds.len() == 1 && chain.len() < limit {
                proof {
                    start.lemma_way_up_step(var, at, (limit - chain@.len()) as nat);
                    assert(chain@ + (seq![at] + start.way_up(
                        var,
                        start.block(at).preds[0],
                        (limit - chain@.len() - 1) as nat,
                    )) =~= chain@.push(at) + start.way_up(
                        var,
                        start.block(at).preds[0],
                        (limit - chain@.len() - 1) as nat,
                    ));
                }
                chain.push(at);
                proof {
                    assert(start.has_block(start.blocks[at.index() as int].preds[0]));
                }
                at = data.preds[0];
            } else {
                proof {
                    assert(chain@ + Seq::<Block>::empty() =~= chain@);
                }
                break ;
            }
        }
        (chain, at, found)
    }

    /// What a new ϕ-instruction for the variable in the block leaves
    /// behind, where it got the definitions of the variable in the
    /// predecessors of the block as its operands at once.
    proof fn lemma_merges(
        start: FunctionModel,
        defined: FunctionModel,
        merged: FunctionModel,
        var: Variable,
        top: Block,
    )
        requires
            start.wf(),
            start.has_block(top),
            start.vars.is_declared(var),
            start.vars.definition(var, top).is_none(),
            start.merges_definitions(var, top),
            start.block(top).preds.len() >= 1,
            exists|added: FunctionModel|
                added.adds_phi(start, top, start.vars.declared_type(var)) && defined
                    == added.with_def(var, top, start.next_value()),
            merged.merged(defined, var, start.next_value(), top),
            merged.value_type.len() >= defined.value_type.len(),
            merged.value_type[start.value_type.len() as int] == defined.value_type[start.value_type.len() as int],
            start.instrs.len() < u32::MAX,
            start.value_type.len() < u32::MAX,
        ensures
            merged.merges(
                start,
                var,
                top,
                Seq::<Block>::empty(),
                Ok(merged.vars.definition(var, top).unwrap()),
            ),
            merged.vars.definition(var, top).is_some(),
    {
        let added = choose|added: FunctionModel|
            added.adds_phi(start, top, start.vars.declared_type(var)) && defined == added.with_def(
                var,
                top,
                start.next_value(),
            );
        let phi_value = start.next_value();
        let count = start.block(top).preds.len() as int;
        let operands = start.definitions_in(var, top, count);
        let key = (var.index(), top.index());
        start.lemma_next_value_unused();
        Value::lemma_at(start.value_type.len() as u32);
        Instr::lemma_at(start.instrs.len() as u32);
        assert(defined.block(top).preds == start.block(top).preds);
        assert(defined.definitions_in(var, top, count) =~= operands) by {
            assert forall|p: u32| operands.contains_key(p) implies defined.vars.defs[(
                var.index(),
                p,
            )] == start.vars.defs[(var.index(), p)] by {
                let j = choose|j: int|
                    0 <= j < count && j < start.block(top).preds.len() && (
                    #[trigger] start.block(top).preds[j]).index() == p;
                assert(start.vars.definition(var, start.block(top).preds[j]).is_some());
                if p == top.index() {
                    Block::lemma_index_injective(start.block(top).preds[j], top);
                }
            }
        }
        assert(operands.contains_key(start.block(top).preds[0].index()));
        if exists|a: u32, b: u32|
            operands.contains_key(a) && operands.contains_key(b) && operands[a] != operands[b] {
            assert(merged.vars.written_all(var, Seq::<Block>::empty(), phi_value) == merged.vars);
            assert(start.vars.written(var, top, phi_value).written_all(
                var,
                Seq::<Block>::empty(),
                phi_value,
            ) == start.vars.written(var, top, phi_value));
        } else {
            assert forall|pred: u32| #[trigger] operands.contains_key(pred) implies {
                &&& merged.vars.definition(var, top) == Some(operands[pred])
                &&& merged.blocks == start.blocks
                &&& merged.vars == start.vars.written(var, top, operands[pred]).written_all(
                    var,
                    Seq::<Block>::empty(),
                    operands[pred],
                )
                &&& merged.phi_block == start.phi_block
            } by {
                let same = operands[pred];
                let j = choose|j: int|
                    0 <= j < count && j < start.block(top).preds.len() && (
                    #[trigger] start.block(top).preds[j]).index() == pred;
                assert(start.vars.defs.contains_key((var.index(), pred)));
                assert(same != phi_value);
                assert(merged.vars.defs =~= start.vars.defs.insert(key, same)) by {
                    assert forall|k: (u32, u32)| start.vars.defs.contains_key(k) implies start.vars.defs[k]
                        != phi_value by {}
                }
                assert(start.vars.written(var, top, same).written_all(
                    var,
                    Seq::<Block>::empty(),
                    same,
                ) == start.vars.written(var, top, same));
                assert(!start.block(top).phis.contains(start.next_instr())) by {
                    if start.block(top).phis.contains(start.next_instr()) {
                        let at = choose|at: int|
                            0 <= at < start.block(top).phis.len() && start.block(top).phis[at]
                                == start.next_instr();
                        assert(start.has_instr(start.blocks[top.index() as int].phis[at]));
                    }
                }
                FunctionModel::lemma_push_remove(start.block(top).phis, start.next_instr());
                assert(merged.blocks =~= start.blocks);
            }
        }
    }

    /// Reads the variable in the block as [`FunctionBuilder::read_var_in`]
    /// does, but a read that fails after it has added ϕ-instructions leaves
    /// them in the function.
    #[verifier::rlimit(80)]
    fn read_in(&mut self, var: Variable, block: Block) -> (outcome: Result<Value, IrError>)
        requires
            old(self).wf(),
            old(self)@.vars.is_declared(var),
            old(self)@.has_block(block),
            old(self)@.instrs.len() + old(self)@.undefined(var) + 1 < u32::MAX,
            old(self)@.value_type.len() + old(self)@.undefined(var) + 1 < u32::MAX,
        ensures
            final(self).wf(),
            final(self)@.extends(old(self)@),
            final(self)@.instrs.len() + final(self)@.undefined(var) <= old(self)@.instrs.len() + old(self)@.undefined(var),
            final(self)@.value_type.len() + final(self)@.undefined(var) <= old(self)@.value_type.len() + old(self)@.undefined(var),
            outcome matches Ok(value) ==> final(self)@.vars.definition(var, block) == Some(value),
            final(self)@.reads(old(self)@, var, block, outcome),
            final(self)@.keeps_operand_blocks(old(self)@, None),
            outcome matches Err(error) ==> FunctionModel::is_read_error(var, error),
            final(self)@.keeps_ways(old(self)@),
            final(self)@.retires_phis(old(self)@),
            final(self)@.keeps_agreement(old(self)@, None),
            outcome.is_ok() ==> final(self)@.adds_no_trivial_phi(old(self)@),
            outcome == Err::<Value, IrError>(
                IrError::FunctionBuilder(FunctionBuilderError::ReadBeforeWriteVariable { variable: var }),
            ) ==> old(self)@.has_dead_end(var),
        decreases old(self)@.undefined(var), 1int,
    {
        let ghost start = self@;
        let (chain, at, found) = self.way_up_from(var, block);
        let ghost limit = start.blocks.len();
        let ghost merging = found.is_none() && start.block(at).sealed && start.block(at).preds.len()
            >= 2;
        let value = match found {
            Some(value) => value,
            None => {
                let ty = match self.ctx.vars.declared_type(var) {
                    Some(ty) => ty,
                    None => vstd::pervasive::unreached(),
                };
                let data = self.ctx.block(at);
                let sealed = data.sealed;
                let len_preds = data.preds.len();
                if !sealed {
                    proof {
                        lemma_count_bound(start.vars.defs, var.index(), start.blocks.len());
                    }
                    let phi_value = self.append_phi(at, ty);
                    let ghost added = self@;
                    self.push_incomplete(at, var, phi_value);
                    let ghost waiting = self@;
                    self.define(var, at, phi_value);
                    proof {
                        waiting.lemma_def_decreases(var, at, phi_value);
                        waiting.lemma_extends_trans(added, start);
                        self@.lemma_extends_trans(waiting, start);
                        assert(waiting.undefined(var) == start.undefined(var));
                        assert(self@.blocks =~= start.blocks.update(
                            at.index() as int,
                            BlockModel {
                                phis: start.block(at).phis.push(start.next_instr()),
                                incomplete_phis: start.block(at).incomplete_phis.push(
                                    (var, start.next_value()),
                                ),
                                ..start.block(at)
                            },
                        ));
                        assert(self@.adds_incomplete_phi(start, var, at));
                        assert(self@.keeps_agreement(start, None)) by {
                            assert forall|x: Value, p: u32, key: (u32, u32)|
                                start.has_value(x) && #[trigger] start.agrees(
                                    x,
                                    p,
                                    key,
                                ) implies self@.agrees(x, p, key) by {
                                let v = x.index() as int;
                                if let ValueAssoc::Instr(held) = start.value_assoc[v] {
                                    assert(start.has_instr(held));
                                    assert(self@.instrs[held.index() as int]
                                        == self@.instrs.drop_last()[held.index() as int]);
                                }
                                assert(self@.operands_of(x) == start.operands_of(x));
                            }
                        }
                        assert(self@.retires_phis(start)) by {
                            Value::lemma_at(start.value_type.len() as u32);
                            assert forall|x: Value|
                                start.has_value(x) && start.is_unreferenced(
                                    x,
                                ) implies #[trigger] self@.is_unreferenced(x) by {
                                assert(x != phi_value);
                                assert forall|i: int| 0 <= i < self@.instrs.len() implies !(
                                #[trigger] self@.instrs[i]).uses(x) by {
                                    if i < start.instrs.len() {
                                        assert(self@.instrs[i] == self@.instrs.drop_last()[i]);
                                        assert(!start.instrs[i].uses(x));
                                    }
                                }
                            }
                        }
                        assert(self@.adds_no_trivial_phi(start)) by {
                            Value::lemma_at(start.value_type.len() as u32);
                            assert forall|x: Value| #[trigger]
                                self@.is_trivial_phi(x) implies start.is_trivial_phi(x) by {
                                assert(start.phi_block.contains_key(x.index()));
                                assert((x.index() as int) < start.value_assoc.len());
                                let held = start.value_assoc[x.index() as int]->Instr_0;
                                assert(start.has_instr(held));
                                assert(self@.instrs.drop_last()[held.index() as int]
                                    == self@.instrs[held.index() as int]);
                                assert(self@.phi_operands(x) == start.phi_operands(x));
                            }
                        }
                        assert(self@.keeps_ways(start)) by {
                            assert(added.keeps_ways(start));
                            assert(waiting.keeps_ways(added));
                            assert(self@.keeps_ways(waiting));
                            waiting.lemma_keeps_ways(added, start);
                            self@.lemma_keeps_ways(waiting, start);
                        }
                        assert(self@.keeps_operand_blocks(start, None)) by {
                            assert forall|x: Value| start.has_value(x) implies (
                            #[trigger] self@.operands_of(x)).dom() == start.operands_of(
                                x,
                            ).dom() by {
                                assert(self@.operands_of(x) == added.operands_of(x));
                            }
                        }
                    }
                    phi_value
                } else if len_preds < 2 {
                    // The variable is read where no write can have happened
                    // before: in a block that control cannot reach.
                    proof {
                        assert(start.dead_end(var, block));
                    }
                    return Err(
                        IrError::FunctionBuilder(
                            FunctionBuilderError::ReadBeforeWriteVariable { variable: var },
                        ),
                    );
                } else {
                    let phi_value = self.append_phi(at, ty);
                    let ghost added = self@;
                    self.define(var, at, phi_value);
                    let ghost defined = self@;
                    proof {
                        added.lemma_def_decreases(var, at, phi_value);
                        defined.lemma_extends_trans(added, start);
                        assert(added.undefined(var) == start.undefined(var));
                        if start.merges_definitions(var, at) {
                            start.lemma_next_value_unused();
                            Value::lemma_at(start.value_type.len() as u32);
                            Instr::lemma_at(start.instrs.len() as u32);
                            assert(added.has_value(phi_value));
                            assert(added.assoc(phi_value) == ValueAssoc::Instr(start.next_instr()));
                            assert(added.instr(start.next_instr()) == added.instrs.last());
                            assert(start.value_assoc.len() == start.value_type.len());
                            assert(!start.phi_block.contains_key(phi_value.index()));
                            assert(defined.operands_of(phi_value) == Map::<u32, Value>::empty());
                            assert(defined.users(phi_value) == start.users(phi_value));
                            assert forall|k: int|
                                0 <= k < defined.block(at).preds.len() implies {
                                let found = defined.vars.definition(
                                    var,
                                    #[trigger] defined.block(at).preds[k],
                                );
                                found.is_some() && found != Some(phi_value)
                            } by {
                                let pred = start.block(at).preds[k];
                                assert(start.vars.definition(var, pred).is_some());
                                assert(start.vars.defs.contains_key((var.index(), pred.index())));
                                if pred.index() == at.index() {
                                    Block::lemma_index_injective(pred, at);
                                }
                            }
                            assert(defined.merges_at_once(var, phi_value, at));
                        }
                    }
                    let completed = self.add_phi_operands(var, phi_value, at);
                    proof {
                        Value::lemma_at(start.value_type.len() as u32);
                        assert(defined.keeps_agreement(start, None)) by {
                            assert forall|x: Value, p: u32, key: (u32, u32)|
                                start.has_value(x) && #[trigger] start.agrees(
                                    x,
                                    p,
                                    key,
                                ) implies defined.agrees(x, p, key) by {
                                let v = x.index() as int;
                                if let ValueAssoc::Instr(held) = start.value_assoc[v] {
                                    assert(start.has_instr(held));
                                    assert(added.instrs[held.index() as int]
                                        == added.instrs.drop_last()[held.index() as int]);
                                }
                                assert(defined.operands_of(x) == start.operands_of(x));
                            }
                        }
                        assert(self@.keeps_agreement(start, None)) by {
                            assert forall|x: Value, p: u32, key: (u32, u32)|
                                start.has_value(x) && #[trigger] start.agrees(
                                    x,
                                    p,
                                    key,
                                ) implies self@.agrees(x, p, key) by {
                                assert(x != phi_value);
                                assert(defined.agrees(x, p, key));
                                assert(defined.has_value(x));
                            }
                        }
                        assert(defined.retires_phis(start)) by {
                            assert forall|x: Value|
                                start.has_value(x) && start.is_unreferenced(
                                    x,
                                ) implies #[trigger] defined.is_unreferenced(x) by {
                                assert(x != phi_value);
                                assert forall|i: int| 0 <= i < defined.instrs.len() implies !(
                                #[trigger] defined.instrs[i]).uses(x) by {
                                    if i < start.instrs.len() {
                                        assert(defined.instrs[i] == added.instrs.drop_last()[i]);
                                        assert(!start.instrs[i].uses(x));
                                    }
                                }
                            }
                        }
                        self@.lemma_retires_phis(defined, start);
                        assert(added.keeps_ways(start));
                        assert(defined.keeps_ways(added));
                        defined.lemma_keeps_ways(added, start);
                        self@.lemma_keeps_ways(defined, start);
                        if defined.has_dead_end(var) {
                            defined.lemma_dead_end_back(start, var);
                        }
                        Value::lemma_at(start.value_type.len() as u32);
                        Instr::lemma_at(start.instrs.len() as u32);
                        assert(added.has_value(phi_value));
                        assert(added.assoc(phi_value) == ValueAssoc::Instr(start.next_instr()));
                        assert(added.instr(start.next_instr()) == added.instrs.last());
                        assert(defined.operands_of(phi_value) == Map::<u32, Value>::empty());
                        assert(defined.blocks[at.index() as int].preds
                            == start.blocks[at.index() as int].preds);
                        if completed.is_ok() {
                            assert forall|x: Value| #[trigger]
                                self@.is_trivial_phi(x) implies start.is_trivial_phi(x) by {
                                assert(x != phi_value);
                                assert(defined.is_trivial_phi(x));
                                assert(start.phi_block.contains_key(x.index()));
                                assert((x.index() as int) < start.value_assoc.len());
                                let held = start.value_assoc[x.index() as int]->Instr_0;
                                assert(start.has_instr(held));
                                assert(added.instrs.drop_last()[held.index() as int]
                                    == added.instrs[held.index() as int]);
                                assert(defined.phi_operands(x) == start.phi_operands(x));
                            }
                            assert(self@.has_value(phi_value));
                            assert(self@.value_assoc[phi_value.index() as int]
                                == defined.value_assoc[phi_value.index() as int]);
                            assert(self@.value_type[phi_value.index() as int]
                                == defined.value_type[phi_value.index() as int]);
                            assert(FunctionModel::same_shape(
                                defined.instrs[start.instrs.len() as int],
                                self@.instrs[start.instrs.len() as int],
                            ));
                            assert(self@.operands_of(phi_value).dom() =~= block_indices(
                                start.block(at).preds,
                            ));
                            assert(self@.merges_reads(start, var, phi_value, at)) by {
                                assert forall|k: int|
                                    0 <= k < start.block(at).preds.len() implies self@.agrees(
                                    phi_value,
                                    (#[trigger] start.block(at).preds[k]).index(),
                                    (var.index(), start.block(at).preds[k].index()),
                                ) by {
                                    assert(defined.block(at).preds[k] == start.block(at).preds[k]);
                                }
                            }
                            assert(self@.completes_phi(start, var, at));
                        }
                        assert(self@.keeps_operand_blocks(start, None)) by {
                            assert forall|x: Value| start.has_value(x) implies (
                            #[trigger] self@.operands_of(x)).dom() == start.operands_of(
                                x,
                            ).dom() by {
                                assert(x != phi_value);
                                assert(defined.has_value(x));
                                assert(defined.operands_of(x) == added.operands_of(x));
                                assert(added.operands_of(x).dom() == start.operands_of(x).dom());
                            }
                        }
                    }
                    match completed {
                        Ok(()) => {},
                        Err(error) => {
                            proof {
                                self@.lemma_extends_trans(defined, start);
                            }
                            return Err(error);
                        },
                    }
                    proof {
                        self@.lemma_extends_trans(defined, start);
                        assert(defined.vars.defs.contains_key((var.index(), at.index())));
                        assert(self@.vars.defs.contains_key((var.index(), at.index())));
                        if start.merges_definitions(var, at) {
                            Self::lemma_merges(start, defined, self@, var, at);
                        }
                    }
                    match self.ctx.vars.definition(var, at) {
                        Some(value) => value,
                        None => vstd::pervasive::unreached(),
                    }
                }
            },
        };
        // The value is the definition in every block on the way.
        let ghost read = self@;
        proof {
            assert(read.with_defs(var, chain@.take(0), value) == read);
        }
        let mut k: usize = 0;
        while k < chain.len()
            invariant
                k <= chain@.len(),
                start == old(self)@,
                start.wf(),
                self.wf(),
                self@.extends(start),
                start.vars.is_declared(var),
                start.has_block(at),
                chain@.len() == 0 ==> at == block,
                chain@.len() > 0 ==> chain@[0] == block,
                forall|j: int| 0 <= j < chain@.len() ==> start.has_block(#[trigger] chain@[j]),
                self@.vars.definition(var, at) == Some(value),
                forall|j: int|
                    0 <= j < k ==> self@.vars.definition(var, #[trigger] chain@[j]) == Some(value),
                self@.instrs.len() + self@.undefined(var) <= start.instrs.len() + start.undefined(
                    var,
                ),
                self@.value_type.len() + self@.undefined(var) <= start.value_type.len()
                    + start.undefined(var),
                self@ == read.with_defs(var, chain@.take(k as int), value),
                self@.keeps_operand_blocks(start, None),
                self@.keeps_ways(start),
                self@.retires_phis(start),
                self@.keeps_agreement(start, None),
                forall|j: int|
                    0 <= j < chain@.len() ==> start.vars.definition(var, #[trigger] chain@[j]).is_none(),
                self@.adds_no_trivial_phi(start),
                merging ==> self@.completes_phi(start, var, at),
                merging && chain@.len() == 0 ==> self@.merges_reads(
                    start,
                    var,
                    start.next_value(),
                    at,
                ),
            decreases chain@.len() - k,
        {
            let ghost before = self@;
            let link = chain[k];
            self.define(var, link, value);
            proof {
                assert(self@.keeps_agreement(start, None)) by {
                    assert(start.vars.definition(var, chain@[k as int]).is_none());
                    assert forall|x: Value, p: u32, key: (u32, u32)|
                        start.has_value(x) && #[trigger] start.agrees(
                            x,
                            p,
                            key,
                        ) implies self@.agrees(x, p, key) by {
                        assert(before.agrees(x, p, key));
                        assert(key != (var.index(), link.index()));
                        assert(self@.operands_of(x) == before.operands_of(x));
                    }
                }
                assert(self@.retires_phis(before)) by {
                    assert(before.vars.defs.contains_key((var.index(), at.index())));
                    assert forall|x: Value|
                        before.has_value(x) && before.is_unreferenced(
                            x,
                        ) implies #[trigger] self@.is_unreferenced(x) by {
                        assert(x != value);
                    }
                }
                self@.lemma_retires_phis(before, start);
                assert forall|x: Value| #[trigger] self@.is_trivial_phi(
                    x,
                ) implies start.is_trivial_phi(x) by {
                    assert(self@.phi_operands(x) == before.phi_operands(x));
                    assert(before.is_trivial_phi(x));
                }
                assert(self@.keeps_ways(before));
                self@.lemma_keeps_ways(before, start);
                assert(self@.operands_of(start.next_value()) == before.operands_of(
                    start.next_value(),
                ));
                assert forall|x: Value| start.has_value(x) implies (#[trigger] self@.operands_of(
                    x,
                )).dom() == start.operands_of(x).dom() by {
                    assert(self@.operands_of(x) == before.operands_of(x));
                }
                assert(chain@.take(k + 1).drop_last() =~= chain@.take(k as int));
                before.lemma_def_extends(var, link, value);
                self@.lemma_extends_trans(before, start);
                assert forall|j: int| 0 <= j < k + 1 implies self@.vars.definition(
                    var,
                    #[trigger] chain@[j],
                ) == Some(value) by {
                    before.vars.lemma_written_definition(var, link, value, var, chain@[j]);
                }
                before.vars.lemma_written_definition(var, link, value, var, at);
            }
            k = k + 1;
        }
        proof {
            assert(chain@.take(k as int) =~= chain@);
        }
        Ok(value)
    }

    /// Returns the value that the variable reads as in the block.
    ///
    /// If the variable has a definition in the block, that is the value.
    /// Else the blocks are followed upwards for as long as they are sealed
    /// and have exactly one predecessor. Where the variable has a definition,
    /// that is the value. An unsealed block gets a ϕ-instruction that waits
    /// for the block to be sealed, a sealed block with several predecessors
    /// gets a ϕ-instruction with an operand for each. The value is recorded
    /// as the definition of the variable in every block on the way.
    ///
    /// A read that fails leaves the function as it was.
    ///
    /// # Errors
    ///
    /// - If the way ends in a sealed block without predecessors, or leads in
    ///   a circle: the variable cannot have been written where it is read.
    /// - If a ϕ-instruction has no operand but itself.
    pub fn read_var_in(&mut self, var: Variable, block: Block) -> (outcome: Result<Value, IrError>)
        requires
            old(self).wf(),
            old(self)@.vars.is_declared(var),
            old(self)@.has_block(block),
            old(self)@.instrs.len() + old(self)@.undefined(var) + 1 < u32::MAX,
            old(self)@.value_type.len() + old(self)@.undefined(var) + 1 < u32::MAX,
        ensures
            final(self).wf(),
            final(self)@.extends(old(self)@),
            final(self)@.instrs.len() + final(self)@.undefined(var) <= old(self)@.instrs.len() + old(self)@.undefined(var),
            final(self)@.value_type.len() + final(self)@.undefined(var) <= old(self)@.value_type.len() + old(self)@.undefined(var),
            outcome matches Ok(value) ==> final(self)@.vars.definition(var, block) == Some(value),
            final(self)@.reads(old(self)@, var, block, outcome),
            outcome.is_err() ==> final(self)@ == old(self)@,
    {
        let (_, top, found) = self.way_up_from(var, block);
        let data = self.ctx.block(top);
        if found.is_some() || !data.sealed || data.preds.len() < 2 {
            return self.read_in(var, block);
        }
        if self.defined_in_preds(var, top) {
            // The operands of the ϕ-instruction are at hand: the read succeeds.
            let ghost before = self@;
            let outcome = self.read_in(var, block);
            proof {
                self@.lemma_merges_succeed(before, var, block, outcome);
            }
            return outcome;
        }
        // The read adds ϕ-instructions before it can fail: it works on a copy.
        let mut trial: FunctionBuilder<state::Body> = FunctionBuilder {
            ctx: self.ctx.snapshot(),
            state: PhantomData,
        };
        let ghost copy = trial@;
        proof {
            copy.lemma_alike(self@);
            copy.lemma_structure_extends(self@);
        }
        match trial.read_in(var, block) {
            Ok(value) => {
                proof {
                    trial@.lemma_extends_trans(copy, self@);
                    trial@.lemma_alike_reads(copy, self@, var, block, Ok(value));
                }
                self.ctx = trial.ctx;
                Ok(value)
            },
            Err(error) => {
                proof {
                    self@.lemma_extends_refl();
                    trial@.lemma_alike_reads(copy, self@, var, block, Err(error));
                }
                Err(error)
            },
        }
    }

    /// Returns the value that the variable reads as in the current basic block.
    ///
    /// See [`FunctionBuilder::read_var_in`] for how the value is found.
    ///
    /// # Errors
    ///
    /// - If the variable has not been declared.
    /// - If the variable has never been written, or cannot have been written
    ///   where it is read.
    /// - If a ϕ-instruction has no operand but itself.
    pub fn read_var(&mut self, var: Variable) -> (outcome: Result<Value, IrError>)
        requires
            old(self).wf(),
            old(self)@.instrs.len() + old(self)@.blocks.len() + 1 < u32::MAX,
            old(self)@.value_type.len() + old(self)@.blocks.len() + 1 < u32::MAX,
        ensures
            final(self).wf(),
            final(self)@.extends(old(self)@),
            !old(self)@.vars.is_declared(var) ==> final(self)@ == old(self)@ && outcome
                == Err::<Value, IrError>(
                IrError::FunctionBuilder(
                    FunctionBuilderError::MissingDeclarationForVariable {
                        variable: var,
                        access: crate::error::VariableAccess::Read,
                    },
                ),
            ),
            old(self)@.vars.is_declared(var) && !old(self)@.vars.is_written(var) ==> final(self)@
                == old(self)@ && outcome == Err::<Value, IrError>(
                IrError::FunctionBuilder(
                    FunctionBuilderError::ReadBeforeWriteVariable { variable: var },
                ),
            ),
            outcome matches Ok(value) ==> final(self)@.vars.definition(var, old(self)@.current)
                == Some(value),
            old(self)@.vars.is_declared(var) && old(self)@.vars.is_written(var) ==> final(self)@.reads(old(self)@, var, old(self)@.current, outcome),
            outcome.is_err() ==> final(self)@ == old(self)@,
    {
        proof {
            self@.lemma_extends_refl();
            lemma_count_bound(self@.vars.defs, var.index(), self@.blocks.len());
        }
        match self.ctx.vars.read_var(var) {
            Ok(_) => {},
            Err(error) => {
                return Err(error);
            },
        }
        let block = self.ctx.current;
        self.read_var_in(var, block)
    }

    /// Seals the current basic block: all its predecessors are known.
    ///
    /// See [`FunctionBuilder::seal_block_at`].
    pub fn seal_block(&mut self) -> (outcome: Result<(), IrError>)
        requires
            old(self).wf(),
            old(self)@.block(old(self)@.current).incomplete_phis.len() > 0 ==> old(self)@.instrs.len()
                + old(self)@.block(old(self)@.current).incomplete_phis.len() * old(self)@.blocks.len()
                + 1 < u32::MAX,
            old(self)@.block(old(self)@.current).incomplete_phis.len() > 0
                ==> old(self)@.value_type.len() + old(self)@.block(
                old(self)@.current,
            ).incomplete_phis.len() * old(self)@.blocks.len() + 1 < u32::MAX,
        ensures
            final(self).wf(),
            old(self)@.block(old(self)@.current).sealed ==> final(self)@ == old(self)@ && outcome
                == Err::<(), IrError>(
                IrError::FunctionBuilder(
                    FunctionBuilderError::BlockAlreadySealed { block: old(self)@.current },
                ),
            ),
            outcome.is_ok() ==> final(self)@.extends(old(self)@.with_sealed(old(self)@.current)),
            outcome.is_err() ==> final(self)@ == old(self)@,
            !old(self)@.block(old(self)@.current).sealed && old(self)@.block(
                old(self)@.current,
            ).incomplete_phis.len() == 0 ==> outcome.is_ok() && final(self)@ == old(self)@.with_sealed(old(self)@.current),
            !old(self)@.block(old(self)@.current).sealed ==> final(self)@.completes_waiting(
                old(self)@,
                old(self)@.current,
                outcome,
            ),
    {
        let block = self.ctx.current;
        self.seal_block_at(block)
    }

    /// Seals the block as [`FunctionBuilder::seal_block_at`] does, but if
    /// this fails after ϕ-instructions got operands, the block stays sealed.
    #[verifier::rlimit(80)]
    fn seal_at(&mut self, block: Block) -> (outcome: Result<(), IrError>)
        requires
            old(self).wf(),
            old(self)@.has_block(block),
            old(self)@.block(block).incomplete_phis.len() > 0 ==> old(self)@.instrs.len() + old(self)@.block(block).incomplete_phis.len() * old(self)@.blocks.len() + 1 < u32::MAX,
            old(self)@.block(block).incomplete_phis.len() > 0 ==> old(self)@.value_type.len() + old(self)@.block(block).incomplete_phis.len() * old(self)@.blocks.len() + 1 < u32::MAX,
        ensures
            final(self).wf(),
            old(self)@.block(block).sealed ==> final(self)@ == old(self)@ && outcome == Err::<
                (),
                IrError,
            >(IrError::FunctionBuilder(FunctionBuilderError::BlockAlreadySealed { block })),
            !old(self)@.block(block).sealed ==> final(self)@.extends(
                old(self)@.with_sealed(block),
            ),
            !old(self)@.block(block).sealed && old(self)@.block(block).incomplete_phis.len() == 0
                ==> outcome.is_ok() && final(self)@ == old(self)@.with_sealed(block),
            !old(self)@.block(block).sealed ==> final(self)@.completes_waiting(
                old(self)@,
                block,
                outcome,
            ),
    {
        if self.ctx.block(block).sealed {
            return Err(IrError::FunctionBuilder(FunctionBuilderError::BlockAlreadySealed { block }));
        }
        let ghost start = self@;
        proof {
            assert(start.block_wf(start.blocks[block.index() as int]));
        }
        let data = self.ctx.block_mut(block);
        data.sealed = true;
        let mut waiting: Vec<(Variable, Value)> = Vec::new();
        std::mem::swap(&mut data.incomplete_phis, &mut waiting);
        let ghost sealed = self@;
        proof {
            assert(sealed.blocks =~= start.with_sealed(block).blocks);
            assert(sealed == start.with_sealed(block));
            start.lemma_with_sealed(block);
            sealed.lemma_extends_refl();
            assert(sealed.blocks[block.index() as int].preds == start.block(block).preds);
        }
        let blocks = self.ctx.len_blocks();
        let ghost preds = block_indices(start.block(block).preds);
        let ghost at_once = waiting@.len() == 1 && sealed.merges_at_once(
            waiting@[0].0,
            waiting@[0].1,
            block,
        );
        let ghost dead = waiting@.len() >= 1 && start.block(block).preds.len() == 0
            && start.phi_merges_nothing(waiting@[0].1);
        proof {
            if waiting@.len() >= 1 {
                assert(sealed.phi_operands(waiting@[0].1) == start.phi_operands(waiting@[0].1));
            }
        }
        let mut k: usize = 0;
        while k < waiting.len()
            invariant
                k <= waiting@.len(),
                dead == (waiting@.len() >= 1 && start.block(block).preds.len() == 0
                    && start.phi_merges_nothing(waiting@[0].1)),
                dead ==> k == 0 && sealed.phi_merges_nothing(waiting@[0].1),
                self@.adds_no_trivial_phi(sealed),
                self@.keeps_ways(sealed),
                forall|j: int|
                    0 <= j < k && (forall|m: int|
                        j < m < k ==> (#[trigger] waiting@[m]).1 != waiting@[j].1)
                        ==> self@.merges_reads(sealed, (#[trigger] waiting@[j]).0, waiting@[j].1, block),
                forall|j: int| 0 <= j < k ==> !self@.is_trivial_phi((#[trigger] waiting@[j]).1),
                forall|j: int|
                    0 <= j < k ==> self@.phi_block.contains_key((#[trigger] waiting@[j]).1.index())
                        || self@.is_unreferenced(waiting@[j].1),
                preds == block_indices(start.block(block).preds),
                sealed.blocks[block.index() as int].preds == start.block(block).preds,
                at_once == (waiting@.len() == 1 && sealed.merges_at_once(
                    waiting@[0].0,
                    waiting@[0].1,
                    block,
                )),
                at_once && k == 1 ==> self@.merged(sealed, waiting@[0].0, waiting@[0].1, block),
                forall|x: Value|
                    sealed.has_value(x) ==> (#[trigger] self@.operands_of(x)).dom()
                        == sealed.operands_of(x).dom() || self@.operands_of(x).dom()
                        == sealed.operands_of(x).dom().union(preds),
                forall|j: int|
                    0 <= j < k ==> self@.operands_of((#[trigger] waiting@[j]).1).dom()
                        == sealed.operands_of(waiting@[j].1).dom().union(preds),
                self.wf(),
                sealed.wf(),
                self@.extends(sealed),
                blocks == sealed.blocks.len(),
                sealed.has_block(block),
                forall|j: int|
                    0 <= j < waiting@.len() ==> sealed.vars.is_declared((#[trigger] waiting@[j]).0)
                        && sealed.is_phi_value(waiting@[j].1),
                k < waiting@.len() ==> self@.instrs.len() + (waiting@.len() - k) * blocks + 1
                    < u32::MAX,
                k < waiting@.len() ==> self@.value_type.len() + (waiting@.len() - k) * blocks + 1
                    < u32::MAX,
                k == 0 ==> self@ == sealed,
                start == old(self)@,
                !start.block(block).sealed,
                sealed == start.with_sealed(block),
                waiting@ == start.block(block).incomplete_phis,
            decreases waiting@.len() - k,
        {
            let (var, phi_value) = waiting[k];
            let ghost before = self@;
            proof {
                assert(sealed.vars.is_declared(waiting@[k as int].0));
                before.lemma_extends_undefined(sealed, var);
                assert((waiting@.len() - k) * blocks == (waiting@.len() - k - 1) * blocks + blocks)
                    by (nonlinear_arith);
                assert((waiting@.len() - k - 1) * blocks >= 0) by (nonlinear_arith)
                    requires
                        waiting@.len() - k - 1 >= 0,
                        blocks >= 0,
                ;
            }
            let completed = self.add_phi_operands(var, phi_value, block);
            match completed {
                Ok(()) => {},
                Err(error) => {
                    proof {
                        if before.has_dead_end(var) {
                            before.lemma_dead_end_back(sealed, var);
                        }
                        self@.lemma_extends_trans(before, sealed);
                        assert(FunctionModel::is_read_error(waiting@[k as int].0, error));
                        assert(sealed.operands_of(phi_value) == start.operands_of(phi_value));
                    }
                    return Err(error);
                },
            }
            proof {
                self@.lemma_keeps_ways(before, sealed);
                assert forall|x: Value| #[trigger] self@.is_trivial_phi(
                    x,
                ) implies sealed.is_trivial_phi(x) && x != phi_value by {
                    assert(x != phi_value);
                    assert(before.is_trivial_phi(x));
                }
                assert forall|j: int|
                    0 <= j < k + 1 && (forall|m: int|
                        j < m < k + 1 ==> (#[trigger] waiting@[m]).1
                            != waiting@[j].1) implies self@.merges_reads(
                    sealed,
                    (#[trigger] waiting@[j]).0,
                    waiting@[j].1,
                    block,
                ) by {
                    if j < k {
                        assert(waiting@[k as int].1 != waiting@[j].1);
                        assert(before.merges_reads(sealed, waiting@[j].0, waiting@[j].1, block));
                        assert(sealed.is_phi_value(waiting@[j].1));
                        assert(before.has_value(waiting@[j].1));
                        assert forall|i: int|
                            0 <= i < sealed.block(block).preds.len() implies self@.agrees(
                            waiting@[j].1,
                            (#[trigger] sealed.block(block).preds[i]).index(),
                            (waiting@[j].0.index(), sealed.block(block).preds[i].index()),
                        ) by {
                            assert(before.agrees(
                                waiting@[j].1,
                                sealed.block(block).preds[i].index(),
                                (waiting@[j].0.index(), sealed.block(block).preds[i].index()),
                            ));
                        }
                    } else {
                        assert(before.blocks[block.index() as int].preds
                            == sealed.blocks[block.index() as int].preds);
                    }
                }
                assert forall|j: int| 0 <= j < k + 1 implies self@.phi_block.contains_key(
                    (#[trigger] waiting@[j]).1.index(),
                ) || self@.is_unreferenced(waiting@[j].1) by {
                    let x = waiting@[j].1;
                    assert(sealed.is_phi_value(x));
                    assert(before.has_value(x));
                    if j < k && !self@.phi_block.contains_key(x.index()) {
                        if before.phi_block.contains_key(x.index()) {
                            assert(self@.is_unreferenced(x));
                        } else {
                            assert(before.is_unreferenced(x));
                            assert(self@.is_unreferenced(x));
                        }
                    }
                }
                assert forall|j: int| 0 <= j < k + 1 implies !self@.is_trivial_phi(
                    (#[trigger] waiting@[j]).1,
                ) by {
                    if self@.is_trivial_phi(waiting@[j].1) {
                        assert(before.is_trivial_phi(waiting@[j].1));
                    }
                }
                self@.lemma_extends_trans(before, sealed);
                self@.lemma_extends_undefined(before, var);
                assert(before.blocks[block.index() as int].preds
                    == sealed.blocks[block.index() as int].preds);

                assert(sealed.has_value(phi_value));
                assert(before.has_value(phi_value));
                let was = sealed.operands_of(phi_value).dom();
                assert(was.union(preds).union(preds) =~= was.union(preds));
                assert forall|x: Value| sealed.has_value(x) implies (#[trigger] self@.operands_of(
                    x,
                )).dom() == sealed.operands_of(x).dom() || self@.operands_of(x).dom()
                    == sealed.operands_of(x).dom().union(preds) by {
                    assert(before.has_value(x));
                    if x != phi_value {
                        assert(self@.operands_of(x).dom() == before.operands_of(x).dom());
                    }
                }
                assert forall|j: int| 0 <= j < k + 1 implies self@.operands_of(
                    (#[trigger] waiting@[j]).1,
                ).dom() == sealed.operands_of(waiting@[j].1).dom().union(preds) by {
                    let x = waiting@[j].1;
                    assert(sealed.is_phi_value(x));
                    if x != phi_value {
                        assert(before.has_value(x));
                        assert(self@.operands_of(x).dom() == before.operands_of(x).dom());
                    }
                }
            }
            k = k + 1;
        }
        proof {
            assert forall|x: Value| #[trigger] self@.is_trivial_phi(
                x,
            ) implies start.is_trivial_phi(x) by {
                assert(sealed.is_trivial_phi(x));
                assert(sealed.phi_operands(x) == start.phi_operands(x));
            }
            assert forall|j: int| 0 <= j < waiting@.len() implies self@.operands_of(
                (#[trigger] start.block(block).incomplete_phis[j]).1,
            ).dom() == start.operands_of(start.block(block).incomplete_phis[j].1).dom().union(
                preds,
            ) by {
                assert(sealed.operands_of(waiting@[j].1) == start.operands_of(waiting@[j].1));
            }
        }
        Ok(())
    }

    /// Seals the basic block: all its predecessors are known.
    ///
    /// Every ϕ-instruction that waited for the block to be sealed gets one
    /// operand for every predecessor of the block and is removed if it turns
    /// out trivial.
    ///
    /// A block that cannot be sealed leaves the function as it was.
    ///
    /// # Errors
    ///
    /// - If the block is sealed already.
    /// - If a variable cannot have been written where a predecessor reads it.
    /// - If a ϕ-instruction has no operand but itself.
    pub fn seal_block_at(&mut self, block: Block) -> (outcome: Result<(), IrError>)
        requires
            old(self).wf(),
            old(self)@.has_block(block),
            old(self)@.block(block).incomplete_phis.len() > 0 ==> old(self)@.instrs.len() + old(self)@.block(block).incomplete_phis.len() * old(self)@.blocks.len() + 1 < u32::MAX,
            old(self)@.block(block).incomplete_phis.len() > 0 ==> old(self)@.value_type.len() + old(self)@.block(block).incomplete_phis.len() * old(self)@.blocks.len() + 1 < u32::MAX,
        ensures
            final(self).wf(),
            old(self)@.block(block).sealed ==> final(self)@ == old(self)@ && outcome == Err::<
                (),
                IrError,
            >(IrError::FunctionBuilder(FunctionBuilderError::BlockAlreadySealed { block })),
            outcome.is_ok() ==> final(self)@.extends(old(self)@.with_sealed(block)),
            outcome.is_err() ==> final(self)@ == old(self)@,
            !old(self)@.block(block).sealed && old(self)@.block(block).incomplete_phis.len() == 0
                ==> outcome.is_ok() && final(self)@ == old(self)@.with_sealed(block),
            !old(self)@.block(block).sealed ==> final(self)@.completes_waiting(
                old(self)@,
                block,
                outcome,
            ),
    {
        let data = self.ctx.block(block);
        if data.sealed || data.incomplete_phis.len() == 0 {
            return self.seal_at(block);
        }
        // The ϕ-instructions get their operands before this can fail: it
        // works on a copy.
        let mut trial: FunctionBuilder<state::Body> = FunctionBuilder {
            ctx: self.ctx.snapshot(),
            state: PhantomData,
        };
        let ghost copy = trial@;
        proof {
            copy.lemma_alike(self@);
            self@.lemma_with_sealed(block);
            copy.with_sealed(block).lemma_alike(self@.with_sealed(block));
            copy.with_sealed(block).lemma_structure_extends(self@.with_sealed(block));
        }
        let outcome = trial.seal_at(block);
        proof {
            trial@.lemma_alike_completes(copy, self@, block, outcome);
            if outcome.is_ok() {
                trial@.lemma_extends_trans(copy.with_sealed(block), self@.with_sealed(block));
            }
        }
        if outcome.is_ok() {
            self.ctx = trial.ctx;
        }
        outcome
    }
}

} // verus!
