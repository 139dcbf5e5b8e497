//! What a command handler answers, and the parameters it is given.

use vstd::prelude::*;

verus! {

/// The outcome of handling a command.
#[derive(PartialEq, Eq, Structural, Clone, Copy, Debug)]
pub enum CmdResult {
    Success,
    Failure,
    Continue,
}

/// The parameters of a command, in order.
#[derive(Clone, Debug)]
pub struct Params {
    pub params: Vec<String>,
}

impl Params {
    /// Parameters holding the given strings.
    pub fn new(params: Vec<String>) -> (r: Self)
        ensures
            r.params == params,
    {
        Self { params }
    }

    /// The parameter at `index`, if there is one.
    pub fn get(&self, index: usize) -> (r: Option<&String>)
        ensures
            index < self.params@.len() ==> r == Some(&self.params@[index as int]),
            index >= self.params@.len() ==> r is None,
    {
        if index < self.params.len() {
            Some(&self.params[index])
        } else {
            None
        }
    }

    /// The number of parameters.
    pub fn len(&self) -> (r: usize)
        ensures
            r == self.params@.len(),
    {
        self.params.len()
    }

    /// Whether there are no parameters.
    pub fn is_empty(&self) -> (r: bool)
        ensures
            r == (self.params@.len() == 0),
    {
        self.params.len() == 0
    }
}

} // verus!
