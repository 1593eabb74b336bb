//! Tree objects: a list of entries, each a mode, a space, a name, a null byte
//! and the 20 bytes of a SHA-1 digest. Nothing parts one entry from the next.

use vstd::prelude::*;
use vstd::slice::slice_subrange;
use vstd::utf8::{decode_utf8, encode_utf8_decode_utf8, valid_utf8};
use crate::error::{EntryField, Error, ErrorView};
use crate::identifier::{git_cid, Cid, CidView, SHA1_LENGTH};
use crate::node::{link_targets, Link, Node};
use crate::user::byteslice_to_string;
use crate::util::{
    bytes_eq, cleave_out_at_value, lemma_split_first_some, sha1_to_cid, split_first, NUL, SPACE,
};

verus! {

/// One entry of a tree: a file or a directory.
#[derive(Clone, Debug, PartialEq, Eq)]
pub struct TreeEntry {
    /// The permissions, as the octal digits that the tree holds.
    pub mode: String,
    pub name: String,
    pub cid: Cid,
}

/// A [`TreeEntry`] as a mathematical value.
pub struct TreeEntryView {
    pub mode: Seq<char>,
    pub name: Seq<char>,
    pub cid: CidView,
}

impl View for TreeEntry {
    type V = TreeEntryView;

    open spec fn view(&self) -> TreeEntryView {
        TreeEntryView { mode: self.mode@, name: self.name@, cid: self.cid@ }
    }
}

/// The views of a sequence of entries.
pub open spec fn entry_views(entries: Seq<TreeEntry>) -> Seq<TreeEntryView> {
    Seq::new(entries.len(), |i: int| entries[i]@)
}

/// The entry that a lookup by `name` finds: of the entries of that name, the
/// one that comes last.
pub open spec fn entry_named(entries: Seq<TreeEntryView>, name: Seq<char>) -> Option<
    TreeEntryView,
>
    decreases entries.len(),
{
    if entries.len() == 0 {
        None
    } else if entries.last().name == name {
        Some(entries.last())
    } else {
        entry_named(entries.drop_last(), name)
    }
}

/// The identifiers that a list of entries holds, in the order of the entries.
pub open spec fn entry_cids(entries: Seq<TreeEntryView>) -> Seq<CidView> {
    Seq::new(entries.len(), |i: int| entries[i].cid)
}

/// Every entry holds a well-formed identifier.
pub open spec fn entries_wf(entries: Seq<TreeEntryView>) -> bool {
    forall|i: int| 0 <= i < entries.len() ==> (#[trigger] entries[i]).cid.wf()
}

/// A directory: its entries, in the order in which the object lists them.
/// Two entries may bear the same name; a lookup then finds the later one.
#[derive(Clone, Debug, PartialEq, Eq)]
pub struct Tree {
    pub entries: Vec<TreeEntry>,
}

impl View for Tree {
    type V = Seq<TreeEntryView>;

    open spec fn view(&self) -> Seq<TreeEntryView> {
        entry_views(self.entries@)
    }
}

impl Tree {
    /// See [`entries_wf`].
    pub open spec fn wf(&self) -> bool {
        entries_wf(self@)
    }

    /// A tree without entries.
    pub fn new() -> (tree: Tree)
        ensures
            tree@ == Seq::<TreeEntryView>::empty(),
            tree.wf(),
    {
        let tree = Tree { entries: Vec::new() };
        assert(tree@ =~= Seq::empty());
        tree
    }

    /// Adds an entry behind those that the tree holds. A lookup by its name
    /// finds it from now on, and lookups by other names find what they found.
    pub fn add_entry(&mut self, entry: TreeEntry)
        ensures
            final(self)@ == old(self)@.push(entry@),
            old(self).wf() && entry.cid.wf() ==> final(self).wf(),
            forall|name: Seq<char>|
                entry_named(final(self)@, name) == if name == entry@.name {
                    Some(entry@)
                } else {
                    #[trigger] entry_named(old(self)@, name)
                },
    {
        self.entries.push(entry);
        assert(self@ =~= old(self)@.push(entry@));
        assert(self@.drop_last() =~= old(self)@);
    }

    /// Looks an entry up by its name.
    pub fn get(&self, name: &str) -> (r: Option<&TreeEntry>)
        ensures
            match r {
                Some(entry) => entry_named(self@, name@) == Some(entry@),
                None => entry_named(self@, name@) is None,
            },
    {
        let mut i: usize = self.entries.len();
        assert(self@.take(i as int) =~= self@);
        while i > 0
            invariant
                i <= self.entries.len(),
                entry_named(self@, name@) == entry_named(self@.take(i as int), name@),
            decreases i,
        {
            i -= 1;
            assert(self@.take(i + 1).drop_last() =~= self@.take(i as int));
            assert(self@.take(i + 1).last() == self.entries@[i as int]@);
            let same = bytes_eq(self.entries[i].name.as_str().as_bytes(), name.as_bytes());
            proof {
                encode_utf8_decode_utf8(self.entries@[i as int].name@);
                encode_utf8_decode_utf8(name@);
            }
            if same {
                return Some(&self.entries[i]);
            }
        }
        None
    }
}

impl Node for Tree {
    /// The identifiers of the entries, in the order of the entries.
    open spec fn targets(&self) -> Seq<CidView> {
        entry_cids(self@)
    }

    fn links<'a>(&'a self) -> (out: Vec<Link<'a>>) {
        let mut v: Vec<Link<'a>> = Vec::new();
        let mut i: usize = 0;
        while i < self.entries.len()
            invariant
                i <= self.entries.len(),
                v@.len() == i,
                forall|k: int| 0 <= k < i ==> (#[trigger] v@[k]).cid@ == self.entries@[k].cid@,
            decreases self.entries.len() - i,
        {
            v.push(Link::new(&self.entries[i].cid));
            i += 1;
        }
        assert(link_targets(v@) =~= self.targets());
        v
    }
}

/// What reading the first entry of a buffer that is not empty gives: the
/// entry and the bytes that follow it.
///
/// The mode runs up to the first space and the name from there up to the next
/// null byte; the 20 bytes after it are the digest. The failures are tried in
/// the order in which they are written here.
pub open spec fn entry_outcome(buf: Seq<u8>) -> Result<(TreeEntryView, Seq<u8>), ErrorView> {
    match split_first(buf, SPACE) {
        None => Err(ErrorView::MissingEntryMode),
        Some((mode, rest)) => match split_first(rest, NUL) {
            None => Err(ErrorView::MissingEntryName),
            Some((name, rest)) => if rest.len() < SHA1_LENGTH {
                Err(ErrorView::TruncatedEntryHash)
            } else if !valid_utf8(mode) {
                Err(ErrorView::NonUtf8EntryField(EntryField::Mode))
            } else if !valid_utf8(name) {
                Err(ErrorView::NonUtf8EntryField(EntryField::Name))
            } else {
                Ok(
                    (
                        TreeEntryView {
                            mode: decode_utf8(mode),
                            name: decode_utf8(name),
                            cid: git_cid(rest.take(SHA1_LENGTH as int)),
                        },
                        rest.skip(SHA1_LENGTH as int),
                    ),
                )
            },
        },
    }
}

/// What remains of a buffer after its first entry is shorter than the buffer,
/// and the identifier of the entry is well-formed.
pub proof fn lemma_entry_consumes(buf: Seq<u8>)
    requires
        entry_outcome(buf) is Ok,
    ensures
        entry_outcome(buf)->Ok_0.1.len() < buf.len(),
        entry_outcome(buf)->Ok_0.0.cid.wf(),
{
    lemma_split_first_some(buf, SPACE);
    lemma_split_first_some(split_first(buf, SPACE).unwrap().1, NUL);
}

/// `entries` before what `rest` gives, or the failure that `rest` gives.
pub open spec fn entries_then(
    entries: Seq<TreeEntryView>,
    rest: Result<Seq<TreeEntryView>, ErrorView>,
) -> Result<Seq<TreeEntryView>, ErrorView> {
    match rest {
        Ok(more) => Ok(entries + more),
        Err(e) => Err(e),
    }
}

/// What decoding the payload of a tree object gives: the entries read one
/// after the other until nothing is left, or the first failure.
pub open spec fn tree_outcome(payload: Seq<u8>) -> Result<Seq<TreeEntryView>, ErrorView>
    decreases payload.len(),
{
    if payload.len() == 0 {
        Ok(Seq::empty())
    } else {
        match entry_outcome(payload) {
            Err(e) => Err(e),
            Ok((entry, rest)) => {
                proof {
                    lemma_entry_consumes(payload);
                }
                entries_then(seq![entry], tree_outcome(rest))
            },
        }
    }
}

/// Reads the first entry of a tree payload, and returns it with the bytes
/// that follow it. Of an empty buffer it returns no entry.
pub fn parse_tree_entry<'a>(buf: &'a [u8]) -> (r: Result<(Option<TreeEntry>, &'a [u8]), Error>)
    ensures
        buf@.len() == 0 ==> r is Ok && r->Ok_0.0 is None && r->Ok_0.1@ == buf@,
        buf@.len() > 0 ==> match r {
            Ok((Some(entry), rest)) => entry_outcome(buf@) == Ok::<
                (TreeEntryView, Seq<u8>),
                ErrorView,
            >((entry@, rest@)) && entry.cid.wf(),
            Ok((None, _)) => false,
            Err(e) => entry_outcome(buf@) == Err::<(TreeEntryView, Seq<u8>), ErrorView>(e@),
        },
{
    if buf.len() == 0 {
        return Ok((None, buf));
    }
    let (mode_bytes, rest) = match cleave_out_at_value(buf, SPACE) {
        None => return Err(Error::MissingEntryMode),
        Some(parts) => parts,
    };
    let (name_bytes, rest) = match cleave_out_at_value(rest, NUL) {
        None => return Err(Error::MissingEntryName),
        Some(parts) => parts,
    };
    if rest.len() < 20 {
        return Err(Error::TruncatedEntryHash);
    }
    let (hash_bytes, rest) = (slice_subrange(rest, 0, 20), slice_subrange(rest, 20, rest.len()));

    let mode = match byteslice_to_string(mode_bytes) {
        Err(_) => return Err(Error::NonUtf8EntryField(EntryField::Mode)),
        Ok(text) => text,
    };
    let name = match byteslice_to_string(name_bytes) {
        Err(_) => return Err(Error::NonUtf8EntryField(EntryField::Name)),
        Ok(text) => text,
    };
    let cid = match sha1_to_cid(hash_bytes) {
        Err(e) => return Err(e),
        Ok(cid) => cid,
    };
    Ok((Some(TreeEntry { mode, name, cid }), rest))
}

/// Decodes the payload of a tree object.
pub fn parse_tree_object(bytes: &[u8]) -> (r: Result<Tree, Error>)
    ensures
        match r {
            Ok(tree) => tree_outcome(bytes@) == Ok::<Seq<TreeEntryView>, ErrorView>(tree@)
                && tree.wf(),
            Err(e) => tree_outcome(bytes@) == Err::<Seq<TreeEntryView>, ErrorView>(e@),
        },
{
    let mut tree = Tree::new();
    let mut rest = bytes;
    loop
        invariant_except_break
            tree_outcome(bytes@) == entries_then(tree@, tree_outcome(rest@)),
        invariant
            tree.wf(),
        ensures
            tree_outcome(bytes@) == Ok::<Seq<TreeEntryView>, ErrorView>(tree@),
        decreases rest@.len(),
    {
        let ghost before = tree@;
        let ghost buf = rest@;
        match parse_tree_entry(rest) {
            Err(e) => return Err(e),
            Ok((None, _)) => {
                assert(before + Seq::<TreeEntryView>::empty() =~= before);
                break ;
            },
            Ok((Some(entry), after)) => {
                proof {
                    lemma_entry_consumes(buf);
                    let more = tree_outcome(after@);
                    if more is Ok {
                        assert(before + (seq![entry@] + more->Ok_0) =~= before.push(entry@)
                            + more->Ok_0);
                    }
                }
                rest = after;
                tree.add_entry(entry);
            },
        }
    }
    Ok(tree)
}

} // verus!
