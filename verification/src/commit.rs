//! Commit objects: header lines that name a tree, any number of parents, an
//! author and a committer, then an empty line, then the message.

use vstd::prelude::*;
use vstd::string::{is_ascii_spec_bytes, StringSliceAdditionalSpecFns};
use crate::error::{Error, ErrorView, RequiredField, UserField};
use crate::foreign::{hex_bytes, hex_decode, is_hex_text};
use crate::header::tree_word;
use crate::identifier::{cid_views, Cid, CidView};
use crate::node::{link_targets, Link, Node};
use crate::user::{parse_user_info, user_info_outcome, UserInfo, UserInfoView};
use crate::util::{
    bytes_eq, cid_outcome, cleave_out_at_value, lemma_split_first_some, sha1_to_cid, split_first,
    NEWLINE, SPACE,
};

verus! {

/// A commit: the tree of the files that it records, the commits that it
/// follows, and who wrote and who committed it. The message is not kept.
#[derive(Clone, Debug, PartialEq, Eq)]
pub struct Commit {
    pub tree: Cid,
    pub parents: Vec<Cid>,
    pub author: UserInfo,
    pub committer: UserInfo,
}

/// A [`Commit`] as a mathematical value.
pub struct CommitView {
    pub tree: CidView,
    pub parents: Seq<CidView>,
    pub author: UserInfoView,
    pub committer: UserInfoView,
}

impl View for Commit {
    type V = CommitView;

    open spec fn view(&self) -> CommitView {
        CommitView {
            tree: self.tree@,
            parents: cid_views(self.parents@),
            author: self.author@,
            committer: self.committer@,
        }
    }
}

impl CommitView {
    /// The tree's identifier and each parent's are well-formed.
    pub open spec fn wf(self) -> bool {
        &&& self.tree.wf()
        &&& forall|i: int| 0 <= i < self.parents.len() ==> (#[trigger] self.parents[i]).wf()
    }
}

impl Commit {
    /// See [`CommitView::wf`].
    pub open spec fn wf(&self) -> bool {
        self@.wf()
    }
}

impl Node for Commit {
    /// The tree first, then the parents in the order of their header lines.
    open spec fn targets(&self) -> Seq<CidView> {
        seq![self.tree@] + cid_views(self.parents@)
    }

    fn links<'a>(&'a self) -> (out: Vec<Link<'a>>) {
        let mut v: Vec<Link<'a>> = Vec::new();
        v.push(Link::new(&self.tree));
        let mut i: usize = 0;
        while i < self.parents.len()
            invariant
                i <= self.parents.len(),
                v@.len() == i + 1,
                v@[0].cid@ == self.tree@,
                forall|k: int| 0 <= k < i ==> (#[trigger] v@[k + 1]).cid@ == self.parents@[k]@,
            decreases self.parents.len() - i,
        {
            v.push(Link::new(&self.parents[i]));
            i += 1;
        }
        assert forall|k: int| 0 <= k < v@.len() implies link_targets(v@)[k]
            == self.targets()[k] by {
            if k > 0 {
                assert(v@[(k - 1) + 1].cid@ == self.parents@[k - 1]@);
            }
        }
        assert(link_targets(v@) =~= self.targets());
        v
    }
}

/// The names of the header fields that a commit may hold.
#[derive(Clone, Copy, Debug, PartialEq, Eq, Structural)]
pub enum HeaderField {
    Tree,
    Parent,
    Author,
    Committer,
}

/// The bytes of `parent`.
pub open spec fn parent_word() -> Seq<u8> {
    seq!['p' as u8, 'a' as u8, 'r' as u8, 'e' as u8, 'n' as u8, 't' as u8]
}

/// The bytes of `author`.
pub open spec fn author_word() -> Seq<u8> {
    seq!['a' as u8, 'u' as u8, 't' as u8, 'h' as u8, 'o' as u8, 'r' as u8]
}

/// The bytes of `committer`.
pub open spec fn committer_word() -> Seq<u8> {
    seq![
        'c' as u8,
        'o' as u8,
        'm' as u8,
        'm' as u8,
        'i' as u8,
        't' as u8,
        't' as u8,
        'e' as u8,
        'r' as u8,
    ]
}

/// The field that a header line of the given name sets, if the name is known.
pub open spec fn header_field_named(name: Seq<u8>) -> Option<HeaderField> {
    if name == tree_word() {
        Some(HeaderField::Tree)
    } else if name == parent_word() {
        Some(HeaderField::Parent)
    } else if name == author_word() {
        Some(HeaderField::Author)
    } else if name == committer_word() {
        Some(HeaderField::Committer)
    } else {
        None
    }
}

/// Tells which field a header line of the given name sets.
pub fn header_field_of(name: &[u8]) -> (r: Option<HeaderField>)
    ensures
        r == header_field_named(name@),
{
    proof {
        reveal_strlit("tree");
        reveal_strlit("parent");
        reveal_strlit("author");
        reveal_strlit("committer");
        is_ascii_spec_bytes("tree");
        is_ascii_spec_bytes("parent");
        is_ascii_spec_bytes("author");
        is_ascii_spec_bytes("committer");
        assert("tree".spec_bytes() =~= tree_word());
        assert("parent".spec_bytes() =~= parent_word());
        assert("author".spec_bytes() =~= author_word());
        assert("committer".spec_bytes() =~= committer_word());
    }
    if bytes_eq(name, "tree".as_bytes()) {
        Some(HeaderField::Tree)
    } else if bytes_eq(name, "parent".as_bytes()) {
        Some(HeaderField::Parent)
    } else if bytes_eq(name, "author".as_bytes()) {
        Some(HeaderField::Author)
    } else if bytes_eq(name, "committer".as_bytes()) {
        Some(HeaderField::Committer)
    } else {
        None
    }
}

/// What the header lines read so far have set.
pub struct HeaderFields {
    pub tree: Option<CidView>,
    pub parents: Seq<CidView>,
    pub author: Option<UserInfoView>,
    pub committer: Option<UserInfoView>,
}

/// The state before any header line is read.
pub open spec fn no_fields() -> HeaderFields {
    HeaderFields { tree: None, parents: Seq::empty(), author: None, committer: None }
}

/// The effect of one header line, given as its name and its value, on what
/// the lines before it have set.
///
/// A `tree` or `parent` value must be hexadecimal, and stand for a digest of
/// 20 bytes. Of `tree`, `author` and `committer` there may be one line each;
/// a second `tree` line is refused once its value is known to be hexadecimal.
pub open spec fn apply_field(fields: HeaderFields, name: Seq<u8>, value: Seq<u8>) -> Result<
    HeaderFields,
    ErrorView,
> {
    match header_field_named(name) {
        Some(HeaderField::Tree) => if !is_hex_text(value) {
            Err(ErrorView::InvalidHexDigest)
        } else if fields.tree is Some {
            Err(ErrorView::DuplicateTreeField)
        } else {
            match cid_outcome(hex_bytes(value)) {
                Ok(cid) => Ok(HeaderFields { tree: Some(cid), ..fields }),
                Err(e) => Err(e),
            }
        },
        Some(HeaderField::Parent) => if !is_hex_text(value) {
            Err(ErrorView::InvalidHexDigest)
        } else {
            match cid_outcome(hex_bytes(value)) {
                Ok(cid) => Ok(HeaderFields { parents: fields.parents.push(cid), ..fields }),
                Err(e) => Err(e),
            }
        },
        Some(HeaderField::Author) => if fields.author is Some {
            Err(ErrorView::DuplicateField(UserField::Author))
        } else {
            match user_info_outcome(value) {
                Ok(info) => Ok(HeaderFields { author: Some(info), ..fields }),
                Err(e) => Err(e),
            }
        },
        Some(HeaderField::Committer) => if fields.committer is Some {
            Err(ErrorView::DuplicateField(UserField::Committer))
        } else {
            match user_info_outcome(value) {
                Ok(info) => Ok(HeaderFields { committer: Some(info), ..fields }),
                Err(e) => Err(e),
            }
        },
        None => Err(ErrorView::UnrecognizedHeaderField(name)),
    }
}

/// What reading header lines from `buf` gives, starting from `fields`.
///
/// Each line ends with a line feed. An empty line ends the header; what
/// follows it is the message, which is not read. Any other line is a name, a
/// space and a value.
pub open spec fn header_outcome(fields: HeaderFields, buf: Seq<u8>) -> Result<
    HeaderFields,
    ErrorView,
>
    decreases buf.len(),
{
    match split_first(buf, NEWLINE) {
        None => Err(ErrorView::UnexpectedEndOfHeader),
        Some((line, rest)) => if line.len() == 0 {
            Ok(fields)
        } else {
            match split_first(line, SPACE) {
                None => Err(ErrorView::MalformedHeaderLine),
                Some((name, value)) => match apply_field(fields, name, value) {
                    Err(e) => Err(e),
                    Ok(next) => {
                        proof {
                            lemma_split_first_some(buf, NEWLINE);
                        }
                        header_outcome(next, rest)
                    },
                },
            }
        },
    }
}

/// The commit that a complete header describes: `tree`, `author` and
/// `committer` must each have been set, and are asked for in that order.
pub open spec fn commit_of(fields: HeaderFields) -> Result<CommitView, ErrorView> {
    if fields.tree is None {
        Err(ErrorView::MissingRequiredField(RequiredField::Tree))
    } else if fields.author is None {
        Err(ErrorView::MissingRequiredField(RequiredField::Author))
    } else if fields.committer is None {
        Err(ErrorView::MissingRequiredField(RequiredField::Committer))
    } else {
        Ok(
            CommitView {
                tree: fields.tree.unwrap(),
                parents: fields.parents,
                author: fields.author.unwrap(),
                committer: fields.committer.unwrap(),
            },
        )
    }
}

/// What decoding the payload of a commit object gives.
pub open spec fn commit_outcome(payload: Seq<u8>) -> Result<CommitView, ErrorView> {
    match header_outcome(no_fields(), payload) {
        Err(e) => Err(e),
        Ok(fields) => commit_of(fields),
    }
}

/// The state of the header as `parse_commit_object` holds it.
pub open spec fn fields_read(
    tree: Option<Cid>,
    parents: Vec<Cid>,
    author: Option<UserInfo>,
    committer: Option<UserInfo>,
) -> HeaderFields {
    HeaderFields {
        tree: match tree {
            Some(cid) => Some(cid@),
            None => None,
        },
        parents: cid_views(parents@),
        author: match author {
            Some(info) => Some(info@),
            None => None,
        },
        committer: match committer {
            Some(info) => Some(info@),
            None => None,
        },
    }
}

/// Decodes the payload of a commit object.
pub fn parse_commit_object(bytes: &[u8]) -> (r: Result<Commit, Error>)
    ensures
        match r {
            Ok(commit) => commit_outcome(bytes@) == Ok::<CommitView, ErrorView>(commit@)
                && commit.wf(),
            Err(e) => commit_outcome(bytes@) == Err::<CommitView, ErrorView>(e@),
        },
{
    let mut rest = bytes;
    let mut tree_cid: Option<Cid> = None;
    let mut parents: Vec<Cid> = Vec::new();
    let mut author_info: Option<UserInfo> = None;
    let mut committer_info: Option<UserInfo> = None;
    assert(cid_views(parents@) =~= Seq::empty());
    loop
        invariant_except_break
            header_outcome(no_fields(), bytes@) == header_outcome(
                fields_read(tree_cid, parents, author_info, committer_info),
                rest@,
            ),
        invariant
            tree_cid matches Some(cid) ==> cid.wf(),
            forall|i: int| 0 <= i < parents@.len() ==> (#[trigger] parents@[i]).wf(),
        ensures
            header_outcome(no_fields(), bytes@) == Ok::<HeaderFields, ErrorView>(
                fields_read(tree_cid, parents, author_info, committer_info),
            ),
        decreases rest@.len(),
    {
        let (line, after) = match cleave_out_at_value(rest, NEWLINE) {
            None => return Err(Error::UnexpectedEndOfHeader),
            Some(parts) => parts,
        };
        let ghost before = fields_read(tree_cid, parents, author_info, committer_info);
        assert(header_outcome(before, rest@) == if line@.len() == 0 {
            Ok::<HeaderFields, ErrorView>(before)
        } else {
            match split_first(line@, SPACE) {
                None => Err(ErrorView::MalformedHeaderLine),
                Some((name, value)) => match apply_field(before, name, value) {
                    Err(e) => Err(e),
                    Ok(next) => header_outcome(next, after@),
                },
            }
        });
        rest = after;

        if line.len() == 0 {
            break ;
        }
        let (name, data) = match cleave_out_at_value(line, SPACE) {
            None => return Err(Error::MalformedHeaderLine),
            Some(parts) => parts,
        };

        match header_field_of(name) {
            Some(HeaderField::Tree) => {
                let digest = match hex_decode(data) {
                    Ok(digest) => digest,
                    Err(_) => return Err(Error::InvalidHexDigest),
                };
                if tree_cid.is_some() {
                    return Err(Error::DuplicateTreeField);
                }
                match sha1_to_cid(digest.as_slice()) {
                    Ok(cid) => {
                        tree_cid = Some(cid);
                    },
                    Err(e) => return Err(e),
                }
            },
            Some(HeaderField::Parent) => {
                let digest = match hex_decode(data) {
                    Ok(digest) => digest,
                    Err(_) => return Err(Error::InvalidHexDigest),
                };
                match sha1_to_cid(digest.as_slice()) {
                    Ok(cid) => {
                        parents.push(cid);
                        assert(cid_views(parents@) =~= before.parents.push(cid@));
                    },
                    Err(e) => return Err(e),
                }
            },
            Some(HeaderField::Author) => {
                if author_info.is_some() {
                    return Err(Error::DuplicateField(UserField::Author));
                }
                match parse_user_info(data) {
                    Ok(info) => {
                        author_info = Some(info);
                    },
                    Err(e) => return Err(e),
                }
            },
            Some(HeaderField::Committer) => {
                if committer_info.is_some() {
                    return Err(Error::DuplicateField(UserField::Committer));
                }
                match parse_user_info(data) {
                    Ok(info) => {
                        committer_info = Some(info);
                    },
                    Err(e) => return Err(e),
                }
            },
            None => {
                return Err(Error::UnrecognizedHeaderField(vstd::slice::slice_to_vec(name)));
            },
        }
    }

    match (tree_cid, author_info, committer_info) {
        (None, _, _) => Err(Error::MissingRequiredField(RequiredField::Tree)),
        (Some(_), None, _) => Err(Error::MissingRequiredField(RequiredField::Author)),
        (Some(_), Some(_), None) => Err(Error::MissingRequiredField(RequiredField::Committer)),
        (Some(tree), Some(author), Some(committer)) => Ok(
            Commit { tree, parents, author, committer },
        ),
    }
}

} // verus!
