//! Node names.

use vstd::prelude::*;
use vstd::std_specs::cmp::PartialEqSpecImpl;

verus! {

/// The name of an electrical node.
#[derive(Debug, Eq, Hash)]
pub struct NodeName {
    name: String,
}

impl View for NodeName {
    type V = Seq<char>;

    closed spec fn view(&self) -> Seq<char> {
        self.name@
    }
}

/// The name of the reference node, whose voltage is fixed at zero.
pub open spec fn ground_name() -> Seq<char> {
    seq!['0']
}

impl NodeName {
    /// The reference node.
    pub fn gnd() -> (r: Self)
        ensures
            r@ == ground_name(),
    {
        proof {
            reveal_strlit("0");
        }
        let r = Self::new("0".to_owned());
        assert(r@ =~= ground_name());
        r
    }

    /// The node called `name`.
    pub fn new(name: String) -> (r: NodeName)
        ensures
            r@ == name@,
    {
        NodeName { name }
    }

    /// The node's name.
    pub fn name<'a>(&'a self) -> (r: &'a str)
        ensures
            r@ == self@,
    {
        self.name.as_str()
    }
}

impl Clone for NodeName {
    fn clone(&self) -> (r: Self)
        ensures
            r == *self,
    {
        NodeName { name: self.name.clone() }
    }
}

impl PartialEq for NodeName {
    fn eq(&self, other: &Self) -> (r: bool) {
        self.name == other.name
    }
}

impl PartialEqSpecImpl for NodeName {
    open spec fn obeys_eq_spec() -> bool {
        true
    }

    open spec fn eq_spec(&self, other: &Self) -> bool {
        self@ == other@
    }
}

} // verus!
