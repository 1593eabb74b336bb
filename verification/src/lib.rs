//! Decoding of serialized git objects (blobs, trees and commits) into nodes of a
//! content-addressed graph, in which every object that a node refers to is named
//! by a content identifier built from its SHA-1 digest.
//!
//! [`parse_object`] takes the bytes of one object, header included, and gives
//! a [`Blob`], a [`Tree`] or a [`Commit`]; every one of them is a [`Node`] and
//! tells its [`Link`]s. Nothing is fetched: a link holds an identifier, not
//! the object behind it.
//!
//! Every function is verified with Verus. The contract of each parser says,
//! for every input, which value or which failure comes out, by a function of
//! the input bytes: [`object::object_outcome`], [`header::object_header_outcome`],
//! [`tree::tree_outcome`], [`commit::commit_outcome`], [`user::user_info_outcome`].
//! What these functions give on objects written out field by field is proved
//! in [`tree_laws`], [`commit_laws`] and beside the parsers. The few calls
//! into other crates, whose contracts are taken on trust, stand in [`foreign`].

pub mod blob;
pub mod commit;
pub mod commit_laws;
pub mod error;
pub mod foreign;
pub mod header;
pub mod identifier;
pub mod node;
pub mod object;
pub mod tree;
pub mod tree_laws;
pub mod user;
pub mod util;

pub use blob::{parse_blob_object, Blob};
pub use commit::{parse_commit_object, Commit};
pub use error::{EntryField, Error, ObjectType, RequiredField, UserField};
pub use header::parse_object_header;
pub use identifier::Cid;
pub use node::{Link, Node};
pub use object::{parse_object, Object};
pub use tree::{parse_tree_entry, parse_tree_object, Tree, TreeEntry};
pub use user::{byteslice_to_string, parse_user_info, UserInfo};
pub use util::{cleave_out_at_value, sha1_to_cid};
