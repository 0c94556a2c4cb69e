//! The stages that the construction of a function goes through.

use vstd::prelude::*;

verus! {

/// The types of the function parameters are yet to be given.
#[derive(Debug)]
pub struct Inputs;

/// The types of the function results are yet to be given.
#[derive(Debug)]
pub struct Outputs;

/// Variables can be declared before the body is built.
#[derive(Debug)]
pub struct DeclareVariables;

/// The body of the function is built.
#[derive(Debug)]
pub struct Body;

} // verus!
