//! The parts of a persona declaration that channel declarations refer to: the model and stage
//! ladders, the working-tree declaration, and the role handle a flow step can name.
use vstd::prelude::*;

verus! {

/// A model alias a declaration may name.
#[derive(Debug, Clone, Copy, PartialEq, Eq, Structural)]
pub enum Model {
    Fable,
    Opus,
    Sonnet,
    Haiku,
}

/// The seniority band a job runs at — how much thinking it is worth, without naming a model.
#[derive(Debug, Clone, Copy, PartialEq, Eq, Structural)]
pub enum Stage {
    Junior,
    Senior,
    Principal,
}

/// The model each band runs at.
pub open spec fn stage_model(s: Stage) -> Model {
    match s {
        Stage::Junior => Model::Sonnet,
        Stage::Senior => Model::Opus,
        Stage::Principal => Model::Fable,
    }
}

impl Stage {
    /// The model this band runs at — the one table that joins bands to models.
    pub fn model(self) -> (m: Model)
        ensures
            m == stage_model(self),
    {
        match self {
            Stage::Junior => Model::Sonnet,
            Stage::Senior => Model::Opus,
            Stage::Principal => Model::Fable,
        }
    }
}

/// Whether a declaration's sessions need exclusive use of the working copy.
#[derive(Debug, Clone, Copy, PartialEq, Eq, Structural)]
pub enum WorkingTree {
    Shared,
    Exclusive,
}

impl WorkingTree {
    /// Is this the default, shared use?
    pub fn is_shared(&self) -> (r: bool)
        ensures
            r == (*self == WorkingTree::Shared),
    {
        match self {
            WorkingTree::Shared => true,
            WorkingTree::Exclusive => false,
        }
    }
}

impl Default for WorkingTree {
    fn default() -> (r: WorkingTree)
        ensures
            r == WorkingTree::Shared,
    {
        WorkingTree::Shared
    }
}

/// A declared persona, as far as a channel's flow can name it: by its handle.
#[derive(Debug, Clone, PartialEq, Eq)]
pub struct RoleDecl {
    pub handle: String,
    pub system_prompt: String,
}

} // verus!
