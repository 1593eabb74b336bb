//! Blob objects: a payload that is kept as it is.

use vstd::prelude::*;
use vstd::slice::slice_to_vec;
use crate::error::Error;
use crate::identifier::CidView;
use crate::node::{link_targets, Link, Node};

verus! {

/// The content of a file.
#[derive(Clone, Debug, PartialEq, Eq)]
pub struct Blob(pub Vec<u8>);

impl View for Blob {
    type V = Seq<u8>;

    open spec fn view(&self) -> Seq<u8> {
        self.0@
    }
}

impl Node for Blob {
    /// A blob refers to no other object.
    open spec fn targets(&self) -> Seq<CidView> {
        Seq::empty()
    }

    fn links<'a>(&'a self) -> (out: Vec<Link<'a>>) {
        let out: Vec<Link<'a>> = Vec::new();
        assert(link_targets(out@) =~= Seq::empty());
        out
    }
}

/// Decodes the payload of a blob object, which never fails: the blob holds a
/// copy of the payload.
pub fn parse_blob_object(bytes: &[u8]) -> (r: Result<Blob, Error>)
    ensures
        r is Ok,
        r->Ok_0@ == bytes@,
{
    Ok(Blob(slice_to_vec(bytes)))
}

} // verus!
