use vstd::prelude::*;

use crate::contract::sha::ContractSha;
use crate::json::{JsonValue, JsonView};

verus! {

/// How a method of a contract runs: one forwarded request answered by one
/// response, or a job reported on over time.
#[derive(Debug, Clone, Copy, PartialEq, Eq, Structural)]
pub enum ExecutionMode {
    Immediate,
    Job,
}

/// The execution mode a contract has when it names none.
pub fn default_execution() -> (m: ExecutionMode)
    ensures
        m == ExecutionMode::Immediate,
{
    ExecutionMode::Immediate
}

/// The published description of one method: its name, summary, parameter
/// and result schemas, and the contracts it builds on.
#[derive(Debug, PartialEq)]
pub struct Contract {
    pub name: String,
    pub version: Option<String>,
    pub summary: Option<String>,
    pub params: Option<JsonValue>,
    pub result: Option<JsonValue>,
    pub execution: ExecutionMode,
    pub cancelable: bool,
    pub refs: Vec<ContractSha>,
}


/// The SHAs of a list of references, by their views.
pub open spec fn ref_views(refs: Seq<ContractSha>) -> Seq<Seq<char>> {
    Seq::new(refs.len(), |i: int| refs[i]@)
}

/// A contract's contents by their views.
pub struct ContractView {
    pub name: Seq<char>,
    pub version: Option<Seq<char>>,
    pub summary: Option<Seq<char>>,
    pub params: Option<JsonView>,
    pub result: Option<JsonView>,
    pub execution: ExecutionMode,
    pub cancelable: bool,
    pub refs: Seq<Seq<char>>,
}

pub open spec fn opt_string(o: Option<String>) -> Option<Seq<char>> {
    match o {
        Some(s) => Some(s@),
        None => None,
    }
}

pub open spec fn opt_value(o: Option<JsonValue>) -> Option<JsonView> {
    match o {
        Some(v) => Some(v.view()),
        None => None,
    }
}

impl View for Contract {
    type V = ContractView;

    open spec fn view(&self) -> ContractView {
        ContractView {
            name: self.name@,
            version: opt_string(self.version),
            summary: opt_string(self.summary),
            params: opt_value(self.params),
            result: opt_value(self.result),
            execution: self.execution,
            cancelable: self.cancelable,
            refs: ref_views(self.refs@),
        }
    }
}

fn copy_opt_string(o: &Option<String>) -> (r: Option<String>)
    ensures
        opt_string(r) == opt_string(*o),
{
    match o {
        Some(s) => Some(s.clone()),
        None => None,
    }
}

fn copy_opt_value(o: &Option<JsonValue>) -> (r: Option<JsonValue>)
    ensures
        opt_value(r) == opt_value(*o),
{
    match o {
        Some(v) => Some(v.copy()),
        None => None,
    }
}

impl Contract {
    pub fn copy(&self) -> (r: Self)
        ensures
            r@ == self@,
    {
        let mut refs: Vec<ContractSha> = Vec::new();
        let mut i: usize = 0;
        while i < self.refs.len()
            invariant
                i <= self.refs.len(),
                refs@.len() == i,
                forall|j: int| 0 <= j < i ==> #[trigger] refs@[j]@ == self.refs@[j]@,
            decreases self.refs.len() - i,
        {
            refs.push(self.refs[i].copy());
            i = i + 1;
        }
        assert(ref_views(refs@) =~= ref_views(self.refs@));
        Contract {
            name: self.name.clone(),
            version: copy_opt_string(&self.version),
            summary: copy_opt_string(&self.summary),
            params: copy_opt_value(&self.params),
            result: copy_opt_value(&self.result),
            execution: self.execution,
            cancelable: self.cancelable,
            refs,
        }
    }
}

impl Clone for Contract {
    fn clone(&self) -> (r: Self)
        ensures
            r@ == self@,
    {
        self.copy()
    }
}

} // verus!
