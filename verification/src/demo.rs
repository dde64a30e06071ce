//! Demos: end-to-end scenarios built on a stack, their catalog, and
//! their by-name resolution.  Unlike releases, a missing demo is a typed
//! error handed back to the caller, not a terminal condition.

use vstd::prelude::*;

use crate::arguments::OutputType;
use crate::catalog::{
    aggregate, contains_key, first_index_of, spec_aggregate, Catalog, SourceLoad,
};
use crate::text::concat_str;

verus! {

/// The command-line surface for demos.
pub enum CliCommandDemo {
    /// List all the available demos.
    List { output: OutputType },
    /// Show details of a specific demo.
    Describe { demo: String, output: OutputType },
    /// Install a specific demo.
    Install {
        demo: String,
        stack_parameters: Vec<String>,
        parameters: Vec<String>,
        kind_cluster: bool,
        kind_cluster_name: String,
    },
}

/// One adjustable setting of a stack or demo.
#[derive(Debug)]
pub struct StackParameter {
    pub name: String,
    pub description: String,
    pub default_value: String,
}

/// One demo: a described scenario referring to a stack by name, with
/// extra labels, manifests and parameters carried through untouched.
#[derive(Debug)]
pub struct Demo {
    pub description: String,
    pub documentation: Option<String>,
    pub stackable_stack: String,
    pub labels: Vec<String>,
    pub manifests: Vec<String>,
    pub parameters: Vec<StackParameter>,
}

/// The merged demo catalog out of every declared source, in declared
/// order; failed sources contribute nothing.
pub fn get_demos(loads: Vec<SourceLoad<Demo>>) -> (r: Catalog<Demo>)
    ensures
        r.wf(),
        r@ =~= spec_aggregate(Seq::<(Seq<char>, Demo)>::empty(), loads@),
{
    aggregate(loads)
}

/// A demo name that the merged catalog does not hold: a typed error the
/// caller may report or recover from.
#[derive(Debug)]
pub struct DemoNotFound {
    pub message: String,
}

/// The wording of the demo-not-found error.
pub open spec fn demo_not_found_message(name: Seq<char>) -> Seq<char> {
    "Demo "@ + name + " not found. Use `stackablectl demo list` to list the available demos."@
}

/// Look a demo up by name.  A missing name comes back as a typed error,
/// never as a terminal condition: description contexts go on.
pub fn get_demo<'a>(demos: &'a Catalog<Demo>, name: &String) -> (r: Result<&'a Demo, DemoNotFound>)
    ensures
        r is Ok <==> contains_key(demos@, name@),
        r is Ok ==> *r->Ok_0 == demos@[first_index_of(demos@, name@)].1,
        r is Err ==> r->Err_0.message@ == demo_not_found_message(name@),
{
    match demos.get(name) {
        Option::Some(demo) => Ok(demo),
        Option::None => {
            let msg = concat_str(
                concat_str("Demo ", name.as_str()).as_str(),
                " not found. Use `stackablectl demo list` to list the available demos.",
            );
            Err(DemoNotFound { message: msg })
        },
    }
}

} // verus!
