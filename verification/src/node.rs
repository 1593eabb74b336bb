//! Nodes of the object graph and the links between them.

use vstd::prelude::*;
use crate::identifier::{Cid, CidView};

verus! {

/// A reference from one object to another, by the identifier of the target.
/// Which part the target plays for the source follows from the link's place
/// among the links of its node.
#[derive(Debug)]
pub struct Link<'a> {
    pub cid: &'a Cid,
}

impl<'a> Link<'a> {
    pub fn new(cid: &'a Cid) -> (link: Link<'a>)
        ensures
            link.cid == cid,
    {
        Link { cid: cid }
    }
}

/// The identifiers that a list of links points to, in the order of the links.
pub open spec fn link_targets(links: Seq<Link<'_>>) -> Seq<CidView> {
    Seq::new(links.len(), |i: int| links[i].cid@)
}

/// A decoded object, as a node of the graph.
pub trait Node {
    /// The identifiers of the objects that this one refers to, in the order
    /// in which a traversal visits them.
    spec fn targets(&self) -> Seq<CidView>;

    /// One link for each object that this one refers to.
    fn links<'a>(&'a self) -> (out: Vec<Link<'a>>)
        ensures
            link_targets(out@) == self.targets(),
    ;
}

} // verus!
