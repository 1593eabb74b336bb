//! Decoding of a whole object: the header, then the payload as the kind of
//! object that the header announces.

use vstd::prelude::*;
use crate::blob::{parse_blob_object, Blob};
use crate::commit::{commit_outcome, parse_commit_object, Commit, CommitView};
use crate::error::{Error, ErrorView, ObjectType};
use crate::header::{
    decimal_value, lemma_header_decodes, object_bytes, object_header_outcome, parse_object_header,
    type_word,
};
use crate::identifier::CidView;
use crate::node::{Link, Node};
use crate::tree::{parse_tree_object, tree_outcome, Tree, TreeEntryView};

verus! {

/// A decoded object of any of the kinds that this crate decodes.
#[derive(Clone, Debug, PartialEq, Eq)]
pub enum Object {
    Blob(Blob),
    Tree(Tree),
    Commit(Commit),
}

/// An [`Object`] as a mathematical value.
pub enum ObjectView {
    Blob(Seq<u8>),
    Tree(Seq<TreeEntryView>),
    Commit(CommitView),
}

impl View for Object {
    type V = ObjectView;

    open spec fn view(&self) -> ObjectView {
        match *self {
            Object::Blob(blob) => ObjectView::Blob(blob@),
            Object::Tree(tree) => ObjectView::Tree(tree@),
            Object::Commit(commit) => ObjectView::Commit(commit@),
        }
    }
}

impl Object {
    /// Every identifier that the object holds is well-formed.
    pub open spec fn wf(&self) -> bool {
        match *self {
            Object::Blob(_) => true,
            Object::Tree(tree) => tree.wf(),
            Object::Commit(commit) => commit.wf(),
        }
    }
}

impl Node for Object {
    /// The targets of the blob, tree or commit that the object is.
    open spec fn targets(&self) -> Seq<CidView> {
        match *self {
            Object::Blob(blob) => blob.targets(),
            Object::Tree(tree) => tree.targets(),
            Object::Commit(commit) => commit.targets(),
        }
    }

    fn links<'a>(&'a self) -> (out: Vec<Link<'a>>) {
        match self {
            Object::Blob(blob) => blob.links(),
            Object::Tree(tree) => tree.links(),
            Object::Commit(commit) => commit.links(),
        }
    }
}

/// What decoding a payload as an object of the given kind gives. A tag is
/// refused whatever it holds: tags are not decoded.
pub open spec fn payload_outcome(kind: ObjectType, payload: Seq<u8>) -> Result<
    ObjectView,
    ErrorView,
> {
    match kind {
        ObjectType::Blob => Ok(ObjectView::Blob(payload)),
        ObjectType::Tree => match tree_outcome(payload) {
            Ok(entries) => Ok(ObjectView::Tree(entries)),
            Err(e) => Err(e),
        },
        ObjectType::Commit => match commit_outcome(payload) {
            Ok(commit) => Ok(ObjectView::Commit(commit)),
            Err(e) => Err(e),
        },
        ObjectType::Tag => Err(ErrorView::UnsupportedObjectType(ObjectType::Tag)),
    }
}

/// What decoding a serialized object gives: a failure of its header, or else
/// what its payload gives as an object of the kind that the header announces.
pub open spec fn object_outcome(buf: Seq<u8>) -> Result<ObjectView, ErrorView> {
    match object_header_outcome(buf) {
        Err(e) => Err(e),
        Ok((payload, kind)) => payload_outcome(kind, payload),
    }
}

/// Decodes a serialized object.
pub fn parse_object(buf: &[u8]) -> (r: Result<Object, Error>)
    ensures
        match r {
            Ok(object) => object_outcome(buf@) == Ok::<ObjectView, ErrorView>(object@)
                && object.wf(),
            Err(e) => object_outcome(buf@) == Err::<ObjectView, ErrorView>(e@),
        },
        object_header_outcome(buf@) matches Ok((_, ObjectType::Tag)) ==> r is Err && r->Err_0@
            == ErrorView::UnsupportedObjectType(ObjectType::Tag),
{
    let (bytes, obj_type) = match parse_object_header(buf) {
        Ok(parts) => parts,
        Err(e) => return Err(e),
    };
    match obj_type {
        ObjectType::Blob => match parse_blob_object(bytes) {
            Ok(blob) => Ok(Object::Blob(blob)),
            Err(e) => Err(e),
        },
        ObjectType::Tree => match parse_tree_object(bytes) {
            Ok(tree) => Ok(Object::Tree(tree)),
            Err(e) => Err(e),
        },
        ObjectType::Commit => match parse_commit_object(bytes) {
            Ok(commit) => Ok(Object::Commit(commit)),
            Err(e) => Err(e),
        },
        ObjectType::Tag => Err(Error::UnsupportedObjectType(ObjectType::Tag)),
    }
}

/// An object whose header states the length of its payload decodes to what
/// the payload gives as an object of the kind that the header names. So a
/// tag is refused as a tag, whatever its payload is.
pub proof fn lemma_object_decodes_payload(kind: ObjectType, size: Seq<u8>, payload: Seq<u8>)
    requires
        decimal_value(size) is Some,
        decimal_value(size).unwrap() == payload.len(),
    ensures
        object_outcome(object_bytes(type_word(kind), size, payload)) == payload_outcome(
            kind,
            payload,
        ),
        kind == ObjectType::Tag ==> object_outcome(object_bytes(type_word(kind), size, payload))
            == Err::<ObjectView, ErrorView>(ErrorView::UnsupportedObjectType(ObjectType::Tag)),
{
    lemma_header_decodes(kind, size, payload);
}

} // verus!
