//! Translation of the variables of a source language into SSA values.

use crate::entity::index::Index32;
use crate::entity::map::{ComponentMap, Entry};
use crate::error::{FunctionBuilderError, IrError, VariableAccess};
use crate::instruction::visit::replace_in;
use crate::primitive::{Block, Type, Value, Variable};
use vstd::prelude::*;

verus! {

/// The most variables that a function can declare.
pub const MAX_VARIABLES: u32 = 0x7FFF_FFFF;

/// What is known of the variables of a function: the declared type of each
/// and the value that each was last given in each basic block.
pub struct VariableTable {
    /// The declared types, by the index of the variable.
    pub types: Seq<Type>,
    /// The definitions, by the indices of the variable and of the block.
    pub defs: Map<(u32, u32), Value>,
}

impl VariableTable {
    /// Whether the variable has been declared.
    pub open spec fn is_declared(self, var: Variable) -> bool {
        (var.index() as int) < self.types.len()
    }

    /// The type that the variable was declared with.
    pub open spec fn declared_type(self, var: Variable) -> Type
        recommends
            self.is_declared(var),
    {
        self.types[var.index() as int]
    }

    /// Whether the variable has been written to in any block.
    pub open spec fn is_written(self, var: Variable) -> bool {
        exists|block: u32| #[trigger] self.defs.contains_key((var.index(), block))
    }

    /// The value that the variable was last given in the block, if any.
    pub open spec fn definition(self, var: Variable, block: Block) -> Option<Value> {
        self.defs.get((var.index(), block.index()))
    }

    /// The definitions of the variable, by the index of the block.
    pub open spec fn definitions(self, var: Variable) -> Map<u32, Value> {
        Map::new(
            |block: u32| self.defs.contains_key((var.index(), block)),
            |block: u32| self.defs[(var.index(), block)],
        )
    }

    /// The table after `amount` more variables of the type were declared.
    pub open spec fn declared(self, amount: nat, ty: Type) -> Self {
        VariableTable { types: self.types + Seq::new(amount, |i: int| ty), defs: self.defs }
    }

    /// The table after the value was written to the variable in the block.
    pub open spec fn written(self, var: Variable, block: Block, value: Value) -> Self {
        VariableTable {
            types: self.types,
            defs: self.defs.insert((var.index(), block.index()), value),
        }
    }

    /// The table after the value was written to the variable in each of the
    /// blocks, in order.
    pub open spec fn written_all(self, var: Variable, blocks: Seq<Block>, value: Value) -> Self
        decreases blocks.len(),
    {
        if blocks.len() == 0 {
            self
        } else {
            self.written_all(var, blocks.drop_last(), value).written(var, blocks.last(), value)
        }
    }

    /// Writing a variable with the same value twice in a block gives the
    /// same table as writing it once.
    pub proof fn lemma_write_twice(self, var: Variable, block: Block, value: Value)
        ensures
            self.written(var, block, value).written(var, block, value) == self.written(
                var,
                block,
                value,
            ),
    {
        assert(self.defs.insert((var.index(), block.index()), value).insert(
            (var.index(), block.index()),
            value,
        ) =~= self.defs.insert((var.index(), block.index()), value));
    }

    /// After a write the variable reads as the written value in that block,
    /// and every other definition is as before.
    pub proof fn lemma_written_definition(
        self,
        var: Variable,
        block: Block,
        value: Value,
        other_var: Variable,
        other_block: Block,
    )
        ensures
            self.written(var, block, value).definition(var, block) == Some(value),
            (other_var != var || other_block != block) ==> self.written(
                var,
                block,
                value,
            ).definition(other_var, other_block) == self.definition(other_var, other_block),
    {
        if other_var.index() == var.index() {
            Variable::lemma_index_injective(other_var, var);
        }
        if other_block.index() == block.index() {
            Block::lemma_index_injective(other_block, block);
        }
    }
}

/// Space efficient storage for variable declarations and their declared types.
///
/// Stands for all variables that have been declared together: they have
/// adjacent indices, starting at `offset`, and share their type.
#[derive(Debug, Copy, Clone)]
struct VariableDecl {
    /// The first variable index of the declaration.
    offset: u32,
    /// The shared type of the declared variables.
    ty: Type,
}

/// The index behind the last variable of the `i`-th declaration.
spec fn run_end(runs: Seq<VariableDecl>, len_vars: u32, i: int) -> int {
    if i + 1 < runs.len() {
        runs[i + 1].offset as int
    } else {
        len_vars as int
    }
}

/// Whether the declarations are in order, cover the variables below
/// `len_vars` without gaps, and `types` holds the type of each variable.
spec fn runs_cover(runs: Seq<VariableDecl>, len_vars: u32, types: Seq<Type>) -> bool {
    &&& types.len() == len_vars
    &&& len_vars <= MAX_VARIABLES
    &&& (runs.len() == 0 <==> len_vars == 0)
    &&& runs.len() > 0 ==> runs[0].offset == 0
    &&& forall|i: int|
        0 <= i < runs.len() ==> (#[trigger] runs[i]).offset < run_end(runs, len_vars, i)
            && runs[i].offset < len_vars
    &&& forall|i: int, var: int|
        0 <= i < runs.len() && runs[i].offset <= var < run_end(runs, len_vars, i)
            ==> #[trigger] types[var] == (#[trigger] runs[i]).ty
}

/// Declaring more variables of one type adds one declaration.
proof fn lemma_runs_cover_push(
    runs: Seq<VariableDecl>,
    len_vars: u32,
    types: Seq<Type>,
    amount: u32,
    ty: Type,
)
    requires
        runs_cover(runs, len_vars, types),
        amount > 0,
        len_vars + amount <= MAX_VARIABLES,
    ensures
        runs_cover(
            runs.push(VariableDecl { offset: len_vars, ty }),
            (len_vars + amount) as u32,
            types + Seq::new(amount as nat, |i: int| ty),
        ),
{
    let added = runs.push(VariableDecl { offset: len_vars, ty });
    let len = (len_vars + amount) as u32;
    let all = types + Seq::new(amount as nat, |i: int| ty);
    let n = runs.len() as int;
    assert forall|i: int| 0 <= i < added.len() implies (#[trigger] added[i]).offset < run_end(
        added,
        len,
        i,
    ) && added[i].offset < len by {
        if i < n {
            assert(runs[i].offset < run_end(runs, len_vars, i));
            if i + 1 < n {
                assert(runs[i + 1].offset < len_vars);
            }
        }
    }
    assert forall|i: int, var: int|
        0 <= i < added.len() && added[i].offset <= var < run_end(added, len, i)
        implies #[trigger] all[var] == (#[trigger] added[i]).ty by {
        if i < n {
            assert(run_end(added, len, i) == run_end(runs, len_vars, i));
            assert(runs[i].offset < run_end(runs, len_vars, i));
            if i + 1 < n {
                assert(runs[i + 1].offset < len_vars);
            }
            assert(types[var] == runs[i].ty);
        }
    }
    if n > 0 {
        assert(added[0] == runs[0]);
    }
}

/// Replaces every `replace` among the definitions by `with`.
fn replace_in_defs(defs: &mut ComponentMap<Block, Value>, replace: Value, with: Value)
    requires
        old(defs).wf(),
    ensures
        final(defs).wf(),
        final(defs)@ == old(defs)@.map_values(|value: Value| replace_in(value, replace, with)),
{
    let keys = defs.keys();
    let mut i: usize = 0;
    while i < keys.len()
        invariant
            i <= keys@.len(),
            forall|a: int, b: int|
                0 <= a < b < keys@.len() ==> (#[trigger] keys@[a]).index() != (
                #[trigger] keys@[b]).index(),
            forall|a: int| 0 <= a < keys@.len() ==> old(defs)@.contains_key((#[trigger] keys@[a]).index()),
            defs@.dom() == old(defs)@.dom(),
            forall|a: int|
                0 <= a < i ==> defs@[(#[trigger] keys@[a]).index()] == replace_in(
                    old(defs)@[keys@[a].index()],
                    replace,
                    with,
                ),
            forall|a: int|
                i <= a < keys@.len() ==> defs@[(#[trigger] keys@[a]).index()] == old(
                    defs,
                )@[keys@[a].index()],
        decreases keys@.len() - i,
    {
        let block = keys[i];
        let value = *defs.index(block);
        if value == replace {
            defs.insert(block, with);
            assert(defs@.dom() =~= old(defs)@.dom());
        }
        i = i + 1;
    }
    proof {
        let mapped = old(defs)@.map_values(|value: Value| replace_in(value, replace, with));
        assert forall|index: u32| defs@.contains_key(index) implies defs@[index] == mapped[index] by {
            let a = choose|a: int| 0 <= a < keys@.len() && (#[trigger] keys@[a]).index() == index;
            assert(defs@[keys@[a].index()] == replace_in(old(defs)@[keys@[a].index()], replace, with));
        }
        assert(defs@ =~= mapped);
        assert forall|index: u32| defs@.contains_key(index) implies index != u32::MAX by {
            assert(old(defs)@.contains_key(index));
        }
    }
}

/// The entry for the definitions and the type of a declared variable.
///
/// Stores all definitions for all basic blocks for the variable
/// as well as the type of the variable's declaration.
pub struct VariableDefs {
    /// All definitions for the variable per basic block.
    defs: ComponentMap<Block, Value>,
    /// The type of the variable given upon its declaration.
    ty: Type,
}

impl VariableDefs {
    /// The definitions by the index of the block.
    pub closed spec fn defs(&self) -> Map<u32, Value> {
        self.defs@
    }

    /// The type of the variable.
    pub closed spec fn declared_type(&self) -> Type {
        self.ty
    }

    /// Create a new entry for variable definitions.
    pub fn new(ty: Type) -> (entry: Self)
        ensures
            entry.defs() == Map::<u32, Value>::empty(),
            entry.declared_type() == ty,
    {
        Self { defs: ComponentMap::new(), ty }
    }
}

/// The value definitions of a variable for every basic block.
#[derive(Copy, Clone)]
pub struct VariableDefinitions<'a> {
    defs: &'a ComponentMap<Block, Value>,
}

impl<'a> View for VariableDefinitions<'a> {
    type V = Map<u32, Value>;

    /// The definitions by the index of the block.
    closed spec fn view(&self) -> Map<u32, Value> {
        self.defs@
    }
}

impl<'a> VariableDefinitions<'a> {
    /// Returns the value written to the variable for the given block if any.
    pub fn for_block(self, block: Block) -> (value: Option<Value>)
        ensures
            value == self@.get(block.index()),
    {
        match self.defs.get(block) {
            Some(value) => Some(*value),
            None => None,
        }
    }
}

/// Used to translate variables of some source language into SSA values.
///
/// All variables are required to be declared before their first use and they
/// are also required to be assigned to some value before they are read.
///
/// Variables that are declared together share one declaration entry. Upon
/// the first write to a variable the entries are searched for its type by
/// binary search and the type is remembered with its definitions.
pub struct VariableTranslator {
    /// The amount of declared variables.
    len_vars: u32,
    /// For every declaration of variables their shared declaration, in the
    /// order of the declarations.
    var_to_type: Vec<VariableDecl>,
    /// Entries for variables definitions and their declared types.
    var_to_defs: ComponentMap<Variable, VariableDefs>,
    /// The declared type of every variable.
    types: Ghost<Seq<Type>>,
}

impl View for VariableTranslator {
    type V = VariableTable;

    closed spec fn view(&self) -> VariableTable {
        VariableTable {
            types: self.types@,
            defs: Map::new(
                |key: (u32, u32)|
                    self.var_to_defs@.contains_key(key.0) && self.var_to_defs@[key.0].defs@.contains_key(
                        key.1,
                    ),
                |key: (u32, u32)| self.var_to_defs@[key.0].defs@[key.1],
            ),
        }
    }
}

impl VariableTranslator {
    /// The declarations cover the declared variables without gaps, in
    /// order, and every remembered type is the declared one.
    pub closed spec fn wf(&self) -> bool {
        &&& runs_cover(self.var_to_type@, self.len_vars, self.types@)
        &&& forall|var: u32| #[trigger]
            self.var_to_defs@.contains_key(var) ==> var < self.len_vars
                && self.var_to_defs@[var].ty == self.types@[var as int]
                && self.var_to_defs@[var].defs.wf()
    }

    /// There are no more variables than a function can hold.
    pub proof fn lemma_len_bound(&self)
        requires
            self.wf(),
        ensures
            self@.types.len() <= MAX_VARIABLES,
    {
    }

    /// Creates a translator without variables.
    pub fn new() -> (translator: Self)
        ensures
            translator.wf(),
            translator@.types == Seq::<Type>::empty(),
            translator@.defs == Map::<(u32, u32), Value>::empty(),
    {
        let translator = Self {
            len_vars: 0,
            var_to_type: Vec::new(),
            var_to_defs: ComponentMap::new(),
            types: Ghost(Seq::empty()),
        };
        assert(translator@.defs =~= Map::<(u32, u32), Value>::empty());
        translator
    }

    /// Returns the number of declared variables.
    pub fn len_vars(&self) -> (len: usize)
        requires
            self.wf(),
        ensures
            len == self@.types.len(),
    {
        self.len_vars as usize
    }

    /// Returns `true` if the variable has been declared.
    pub fn is_declared(&self, var: Variable) -> (declared: bool)
        requires
            self.wf(),
        ensures
            declared == self@.is_declared(var),
    {
        var.into_u32() < self.len_vars
    }

    /// Ensures that the variable has been declared.
    ///
    /// # Errors
    ///
    /// If the variable has not been declared.
    pub fn ensure_declared(&self, var: Variable, access: VariableAccess) -> (outcome: Result<
        (),
        IrError,
    >)
        requires
            self.wf(),
        ensures
            outcome == if self@.is_declared(var) {
                Ok::<(), IrError>(())
            } else {
                Err(
                    IrError::FunctionBuilder(
                        FunctionBuilderError::MissingDeclarationForVariable {
                            variable: var,
                            access,
                        },
                    ),
                )
            },
    {
        if !self.is_declared(var) {
            return Err(
                IrError::FunctionBuilder(
                    FunctionBuilderError::MissingDeclarationForVariable { variable: var, access },
                ),
            );
        }
        Ok(())
    }

    /// Ensures that the type of the variable declaration matches the type of the new value.
    ///
    /// # Errors
    ///
    /// If the type of the new value does not match the type of the variable declaration.
    pub fn ensure_types_match(
        var: Variable,
        new_value: Value,
        declared_type: Type,
        value_type: Type,
    ) -> (outcome: Result<(), IrError>)
        ensures
            outcome == if declared_type == value_type {
                Ok::<(), IrError>(())
            } else {
                Err(
                    IrError::FunctionBuilder(
                        FunctionBuilderError::UnmatchingVariableType {
                            variable: var,
                            value: new_value,
                            declared: declared_type,
                            actual: value_type,
                        },
                    ),
                )
            },
    {
        if declared_type != value_type {
            return Err(
                IrError::FunctionBuilder(
                    FunctionBuilderError::UnmatchingVariableType {
                        variable: var,
                        value: new_value,
                        declared: declared_type,
                        actual: value_type,
                    },
                ),
            );
        }
        Ok(())
    }

    /// Declares an amount of variables that share the same type.
    ///
    /// The new variables get the next indices. A variable is required to be
    /// declared before reading or writing to it.
    ///
    /// # Errors
    ///
    /// If the function would have more than `MAX_VARIABLES` variables.
    pub fn declare_vars(&mut self, amount: u32, ty: Type) -> (outcome: Result<(), IrError>)
        requires
            old(self).wf(),
        ensures
            final(self).wf(),
            old(self)@.types.len() + amount <= MAX_VARIABLES ==> outcome.is_ok() && final(self)@
                == old(self)@.declared(amount as nat, ty),
            old(self)@.types.len() + amount > MAX_VARIABLES ==> outcome == Err::<(), IrError>(
                IrError::FunctionBuilder(FunctionBuilderError::TooManyVariableDeclarations),
            ) && final(self)@ == old(self)@,
    {
        if amount > MAX_VARIABLES - self.len_vars {
            return Err(IrError::FunctionBuilder(FunctionBuilderError::TooManyVariableDeclarations));
        }
        if amount == 0 {
            assert(self.types@ + Seq::new(0, |i: int| ty) =~= self.types@);
            return Ok(());
        }
        let offset: u32 = self.len_vars;
        self.len_vars = self.len_vars + amount;
        self.var_to_type.push(VariableDecl { offset, ty });
        self.types = Ghost(self.types@ + Seq::new(amount as nat, |i: int| ty));
        proof {
            lemma_runs_cover_push(
                old(self).var_to_type@,
                old(self).len_vars,
                old(self).types@,
                amount,
                ty,
            );
            assert(final(self)@.defs =~= old(self)@.defs);
        }
        Ok(())
    }

    /// Returns the type that the variable was declared with, if it was declared.
    pub fn declared_type(&self, var: Variable) -> (ty: Option<Type>)
        requires
            self.wf(),
        ensures
            ty == if self@.is_declared(var) {
                Some(self@.declared_type(var))
            } else {
                None
            },
    {
        let target: u32 = var.into_u32();
        if target >= self.len_vars {
            return None;
        }
        match self.var_to_defs.get(var) {
            Some(entry) => {
                return Some(entry.ty);
            },
            None => {},
        }
        // The declaration of the variable is the last one that starts at or
        // before it.
        let mut low: usize = 0;
        let mut high: usize = self.var_to_type.len();
        while high - low > 1
            invariant
                runs_cover(self.var_to_type@, self.len_vars, self.types@),
                target < self.len_vars,
                0 <= low < high <= self.var_to_type@.len(),
                self.var_to_type@[low as int].offset <= target,
                high < self.var_to_type@.len() ==> target < self.var_to_type@[high as int].offset,
            decreases high - low,
        {
            let mid: usize = low + (high - low) / 2;
            if self.var_to_type[mid].offset <= target {
                low = mid;
            } else {
                high = mid;
            }
        }
        assert(target < run_end(self.var_to_type@, self.len_vars, low as int));
        Some(self.var_to_type[low].ty)
    }

    /// Assigns a new value to the variable.
    ///
    /// - The variable assignment is with respect to the given basic block.
    /// - The `value_to_type` closure is used to check whether the type of the new value
    ///   matches the type given at variable declaration.
    ///
    /// # Errors
    ///
    /// - If the variable has not been declared before.
    /// - If the type of the new value does not match the type of the variable declaration.
    pub fn write_var<F>(
        &mut self,
        var: Variable,
        new_value: Value,
        block: Block,
        value_to_type: F,
    ) -> (outcome: Result<(), IrError>) where F: FnOnce(Value) -> Type
        requires
            old(self).wf(),
            old(self)@.is_declared(var) ==> value_to_type.requires((new_value,)),
        ensures
            final(self).wf(),
            match outcome {
                Ok(()) => {
                    &&& old(self)@.is_declared(var)
                    &&& value_to_type.ensures((new_value,), old(self)@.declared_type(var))
                    &&& final(self)@ == old(self)@.written(var, block, new_value)
                },
                Err(error) => {
                    &&& final(self)@ == old(self)@
                    &&& if old(self)@.is_declared(var) {
                        exists|actual: Type|
                            {
                                &&& #[trigger] value_to_type.ensures((new_value,), actual)
                                &&& actual != old(self)@.declared_type(var)
                                &&& error == IrError::FunctionBuilder(
                                    FunctionBuilderError::UnmatchingVariableType {
                                        variable: var,
                                        value: new_value,
                                        declared: old(self)@.declared_type(var),
                                        actual,
                                    },
                                )
                            }
                    } else {
                        error == IrError::FunctionBuilder(
                            FunctionBuilderError::MissingDeclarationForVariable {
                                variable: var,
                                access: VariableAccess::Write(new_value),
                            },
                        )
                    }
                },
            },
    {
        match self.ensure_declared(var, VariableAccess::Write(new_value)) {
            Err(error) => {
                return Err(error);
            },
            Ok(()) => {},
        }
        let declared_type = match self.declared_type(var) {
            Some(ty) => ty,
            None => vstd::pervasive::unreached(),
        };
        let value_type = value_to_type(new_value);
        match Self::ensure_types_match(var, new_value, declared_type, value_type) {
            Err(error) => {
                return Err(error);
            },
            Ok(()) => {},
        }
        let ghost before = self.var_to_defs@;
        match self.var_to_defs.entry(var) {
            Entry::Occupied(occupied) => {
                // Variable has already been defined previously.
                let entry = occupied.into_mut();
                entry.defs.insert(block, new_value);
            },
            Entry::Vacant(vacant) => {
                // Variable has been declared but never been assigned before.
                let mut entry = VariableDefs::new(declared_type);
                entry.defs.insert(block, new_value);
                vacant.insert(entry);
            },
        }
        proof {
            let v = var.index();
            let b = block.index();
            assert(self.var_to_defs@.contains_key(v));
            assert(self.var_to_defs@[v].ty == declared_type);
            assert(self.var_to_defs@[v].defs@ == if before.contains_key(v) {
                before[v].defs@.insert(b, new_value)
            } else {
                Map::<u32, Value>::empty().insert(b, new_value)
            });
            assert(forall|other: u32|
                other != v ==> self.var_to_defs@.contains_key(other) == before.contains_key(other)
                    && self.var_to_defs@[other] == before[other]);
            assert(final(self)@.defs =~= old(self)@.written(var, block, new_value).defs);
        }
        Ok(())
    }

    /// Returns the value that the variable was last given in the block, if any.
    pub fn definition(&self, var: Variable, block: Block) -> (value: Option<Value>)
        requires
            self.wf(),
        ensures
            value == self@.definition(var, block),
    {
        match self.var_to_defs.get(var) {
            Some(entry) => match entry.defs.get(block) {
                Some(value) => Some(*value),
                None => None,
            },
            None => None,
        }
    }

    /// Replaces every definition that is `replace` by `with`, for all
    /// variables and all basic blocks.
    pub fn replace_value(&mut self, replace: Value, with: Value)
        requires
            old(self).wf(),
        ensures
            final(self).wf(),
            final(self)@.types == old(self)@.types,
            final(self)@.defs == old(self)@.defs.map_values(
                |value: Value| replace_in(value, replace, with),
            ),
    {
        proof {
            assert forall|index: u32| self.var_to_defs@.contains_key(index) implies index
                != u32::MAX by {}
        }
        let keys = self.var_to_defs.keys();
        let ghost before = self.var_to_defs@;
        let mut i: usize = 0;
        while i < keys.len()
            invariant
                i <= keys@.len(),
                forall|a: int, b: int|
                    0 <= a < b < keys@.len() ==> (#[trigger] keys@[a]).index() != (
                    #[trigger] keys@[b]).index(),
                forall|a: int| 0 <= a < keys@.len() ==> before.contains_key((#[trigger] keys@[a]).index()),
                before == old(self).var_to_defs@,
                old(self).wf(),
                self.len_vars == old(self).len_vars,
                self.var_to_type == old(self).var_to_type,
                self.types == old(self).types,
                self.var_to_defs@.dom() == before.dom(),
                forall|var: u32| #[trigger]
                    self.var_to_defs@.contains_key(var) ==> self.var_to_defs@[var].ty
                        == before[var].ty && self.var_to_defs@[var].defs.wf(),
                forall|a: int|
                    0 <= a < i ==> self.var_to_defs@[(#[trigger] keys@[a]).index()].defs@
                        == before[keys@[a].index()].defs@.map_values(
                        |value: Value| replace_in(value, replace, with),
                    ),
                forall|a: int|
                    i <= a < keys@.len() ==> self.var_to_defs@[(#[trigger] keys@[a]).index()].defs@
                        == before[keys@[a].index()].defs@,
            decreases keys@.len() - i,
        {
            let var = keys[i];
            let ghost during = self.var_to_defs@;
            let entry = self.var_to_defs.index_mut(var);
            replace_in_defs(&mut entry.defs, replace, with);
            proof {
                assert(self.var_to_defs@.dom() =~= before.dom());
                assert forall|a: int| 0 <= a < i + 1 implies self.var_to_defs@[(
                #[trigger] keys@[a]).index()].defs@ == before[keys@[a].index()].defs@.map_values(
                    |value: Value| replace_in(value, replace, with),
                ) by {
                    if a < i {
                        assert(keys@[a].index() != keys@[i as int].index());
                        assert(during[keys@[a].index()].defs@
                            == before[keys@[a].index()].defs@.map_values(
                            |value: Value| replace_in(value, replace, with),
                        ));
                    }
                }
                assert forall|a: int| i + 1 <= a < keys@.len() implies self.var_to_defs@[(
                #[trigger] keys@[a]).index()].defs@ == before[keys@[a].index()].defs@ by {
                    assert(keys@[i as int].index() != keys@[a].index());
                    assert(during[keys@[a].index()].defs@ == before[keys@[a].index()].defs@);
                }
            }
            i = i + 1;
        }
        proof {
            let mapped = old(self)@.defs.map_values(|value: Value| replace_in(value, replace, with));
            assert forall|key: (u32, u32)| mapped.contains_key(key) == final(self)@.defs.contains_key(
                key,
            ) && (mapped.contains_key(key) ==> mapped[key] == final(self)@.defs[key]) by {
                if before.contains_key(key.0) {
                    let a = choose|a: int|
                        0 <= a < keys@.len() && (#[trigger] keys@[a]).index() == key.0;
                    assert(self.var_to_defs@[keys@[a].index()].defs@
                        == before[keys@[a].index()].defs@.map_values(
                        |value: Value| replace_in(value, replace, with),
                    ));
                }
            }
            assert(final(self)@.defs =~= mapped);
        }
    }

    /// Returns all definitions per basic block of the variable.
    ///
    /// # Errors
    ///
    /// - If the variable has not been declared, yet.
    /// - If the variable has never been written to before.
    pub fn read_var(&self, var: Variable) -> (outcome: Result<VariableDefinitions<'_>, IrError>)
        requires
            self.wf(),
        ensures
            match outcome {
                Ok(defs) => {
                    &&& self@.is_declared(var)
                    &&& self@.is_written(var)
                    &&& defs@ == self@.definitions(var)
                },
                Err(error) => if !self@.is_declared(var) {
                    error == IrError::FunctionBuilder(
                        FunctionBuilderError::MissingDeclarationForVariable {
                            variable: var,
                            access: VariableAccess::Read,
                        },
                    )
                } else {
                    !self@.is_written(var) && error == IrError::FunctionBuilder(
                        FunctionBuilderError::ReadBeforeWriteVariable { variable: var },
                    )
                },
            },
    {
        match self.ensure_declared(var, VariableAccess::Read) {
            Err(error) => {
                return Err(error);
            },
            Ok(()) => {},
        }
        match self.var_to_defs.get(var) {
            Some(entry) => {
                if entry.defs.is_empty() {
                    assert(!self@.is_written(var)) by {
                        if self@.is_written(var) {
                            let b = choose|b: u32| #[trigger]
                                self@.defs.contains_key((var.index(), b));
                            assert(entry.defs@.contains_key(b));
                        }
                    }
                    return Err(
                        IrError::FunctionBuilder(
                            FunctionBuilderError::ReadBeforeWriteVariable { variable: var },
                        ),
                    );
                }
                let defs = VariableDefinitions { defs: &entry.defs };
                proof {
                    entry.defs.lemma_finite();
                    assert(entry.defs@.len() != 0);
                    assert(exists|b: u32| entry.defs@.contains_key(b)) by {
                        if forall|b: u32| !entry.defs@.contains_key(b) {
                            assert(entry.defs@.dom() =~= Set::<u32>::empty());
                        }
                    }
                    let b = choose|b: u32| entry.defs@.contains_key(b);
                    assert(self@.defs.contains_key((var.index(), b)));
                    assert(defs@ =~= self@.definitions(var));
                }
                Ok(defs)
            },
            None => {
                Err(
                    IrError::FunctionBuilder(
                        FunctionBuilderError::ReadBeforeWriteVariable { variable: var },
                    ),
                )
            },
        }
    }
}

impl Clone for VariableDefs {
    fn clone(&self) -> (entry: Self)
        ensures
            entry.defs() == self.defs(),
            entry.declared_type() == self.declared_type(),
    {
        Self { defs: self.defs.clone(), ty: self.ty }
    }
}

impl Clone for VariableTranslator {
    fn clone(&self) -> (translator: Self)
        ensures
            translator@ == self@,
            translator.wf() == self.wf(),
    {
        let var_to_type = self.var_to_type.clone();
        assert(var_to_type@ =~= self.var_to_type@);
        let translator = Self {
            len_vars: self.len_vars,
            var_to_type,
            var_to_defs: self.var_to_defs.clone(),
            types: Ghost(self.types@),
        };
        assert(translator@.defs =~= self@.defs);
        translator
    }
}

} // verus!
