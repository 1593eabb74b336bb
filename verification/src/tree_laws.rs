//! What holds of every tree: how a tree written entry by entry decodes, and
//! which failure a tree with a shortened last entry meets.

use vstd::prelude::*;
use vstd::utf8::{decode_utf8, valid_utf8};
use crate::error::ErrorView;
use crate::identifier::{git_cid, SHA1_LENGTH};
use crate::tree::{
    entries_then, entries_wf, entry_cids, entry_outcome, lemma_entry_consumes, tree_outcome,
    TreeEntryView,
};
use crate::util::{
    lemma_split_first_extend, lemma_split_first_some, lemma_split_first_unique, split_first, NUL,
    SPACE,
};

verus! {

/// The bytes of a tree entry with the given mode, name and digest.
pub open spec fn entry_bytes(mode: Seq<u8>, name: Seq<u8>, digest: Seq<u8>) -> Seq<u8> {
    mode + seq![SPACE] + name + seq![NUL] + digest
}

/// A buffer that begins with a well-formed entry gives that entry and what
/// follows it. An entry is well-formed when its mode holds no space, its name
/// no null byte, both are UTF-8, and its digest has 20 bytes.
pub proof fn lemma_entry_decodes(mode: Seq<u8>, name: Seq<u8>, digest: Seq<u8>, rest: Seq<u8>)
    requires
        !mode.contains(SPACE),
        !name.contains(NUL),
        valid_utf8(mode),
        valid_utf8(name),
        digest.len() == SHA1_LENGTH,
    ensures
        entry_outcome(entry_bytes(mode, name, digest) + rest) == Ok::<
            (TreeEntryView, Seq<u8>),
            ErrorView,
        >(
            (
                TreeEntryView {
                    mode: decode_utf8(mode),
                    name: decode_utf8(name),
                    cid: git_cid(digest),
                },
                rest,
            ),
        ),
{
    let buf = entry_bytes(mode, name, digest) + rest;
    let tail = digest + rest;
    assert(buf =~= mode + seq![SPACE] + (name + seq![NUL] + tail));
    lemma_split_first_unique(mode, SPACE, name + seq![NUL] + tail);
    lemma_split_first_unique(name, NUL, tail);
    assert(tail.take(SHA1_LENGTH as int) =~= digest);
    assert(tail.skip(SHA1_LENGTH as int) =~= rest);
}

/// A payload made of one well-formed entry and then more bytes gives that
/// entry before what the other bytes give.
pub proof fn lemma_tree_decodes_entry_first(
    mode: Seq<u8>,
    name: Seq<u8>,
    digest: Seq<u8>,
    rest: Seq<u8>,
)
    requires
        !mode.contains(SPACE),
        !name.contains(NUL),
        valid_utf8(mode),
        valid_utf8(name),
        digest.len() == SHA1_LENGTH,
    ensures
        tree_outcome(entry_bytes(mode, name, digest) + rest) == entries_then(
            seq![
                TreeEntryView {
                    mode: decode_utf8(mode),
                    name: decode_utf8(name),
                    cid: git_cid(digest),
                },
            ],
            tree_outcome(rest),
        ),
{
    lemma_entry_decodes(mode, name, digest, rest);
}

/// Bytes added behind a payload that decodes are decoded on their own: the
/// result is the entries of the payload before what the added bytes give.
pub proof fn lemma_tree_decodes_in_parts(payload: Seq<u8>, more: Seq<u8>)
    requires
        tree_outcome(payload) is Ok,
    ensures
        tree_outcome(payload + more) == entries_then(
            tree_outcome(payload)->Ok_0,
            tree_outcome(more),
        ),
    decreases payload.len(),
{
    if payload.len() == 0 {
        assert(payload + more =~= more);
        if tree_outcome(more) is Ok {
            let last = tree_outcome(more)->Ok_0;
            assert(Seq::<TreeEntryView>::empty() + last =~= last);
        }
    } else {
        let (entry, rest) = entry_outcome(payload)->Ok_0;
        lemma_entry_consumes(payload);
        lemma_entry_extends(payload, more);
        lemma_tree_decodes_in_parts(rest, more);
        let first = tree_outcome(rest)->Ok_0;
        assert(tree_outcome(payload)->Ok_0 == seq![entry] + first);
        assert(tree_outcome(payload + more) == entries_then(
            seq![entry],
            tree_outcome(rest + more),
        ));
        if tree_outcome(more) is Ok {
            let last = tree_outcome(more)->Ok_0;
            assert(seq![entry] + (first + last) =~= (seq![entry] + first) + last);
        }
    }
}

/// Bytes added behind a buffer whose first entry decodes are added to what
/// follows that entry.
pub proof fn lemma_entry_extends(buf: Seq<u8>, more: Seq<u8>)
    requires
        entry_outcome(buf) is Ok,
    ensures
        entry_outcome(buf + more) == Ok::<(TreeEntryView, Seq<u8>), ErrorView>(
            (entry_outcome(buf)->Ok_0.0, entry_outcome(buf)->Ok_0.1 + more),
        ),
{
    let (mode, rest) = split_first(buf, SPACE).unwrap();
    let (name, tail) = split_first(rest, NUL).unwrap();
    lemma_split_first_extend(buf, SPACE, more);
    lemma_split_first_extend(rest, NUL, more);
    assert((tail + more).take(SHA1_LENGTH as int) =~= tail.take(SHA1_LENGTH as int));
    assert((tail + more).skip(SHA1_LENGTH as int) =~= tail.skip(SHA1_LENGTH as int) + more);
}

/// A payload that ends in an entry with fewer than 20 bytes after its name
/// is refused for that reason, whatever well-formed entries stand before it.
pub proof fn lemma_truncated_entry_hash(
    entries: Seq<u8>,
    mode: Seq<u8>,
    name: Seq<u8>,
    digest: Seq<u8>,
)
    requires
        tree_outcome(entries) is Ok,
        !mode.contains(SPACE),
        !name.contains(NUL),
        digest.len() < SHA1_LENGTH,
    ensures
        tree_outcome(entries + entry_bytes(mode, name, digest)) == Err::<
            Seq<TreeEntryView>,
            ErrorView,
        >(ErrorView::TruncatedEntryHash),
{
    let last = entry_bytes(mode, name, digest);
    assert(last =~= mode + seq![SPACE] + (name + seq![NUL] + digest));
    lemma_split_first_unique(mode, SPACE, name + seq![NUL] + digest);
    lemma_split_first_unique(name, NUL, digest);
    assert(tree_outcome(last) == Err::<Seq<TreeEntryView>, ErrorView>(
        ErrorView::TruncatedEntryHash,
    ));
    lemma_tree_decodes_in_parts(entries, last);
}

/// Every identifier of a tree that decodes is well-formed.
pub proof fn lemma_tree_outcome_wf(payload: Seq<u8>)
    requires
        tree_outcome(payload) is Ok,
    ensures
        entries_wf(tree_outcome(payload)->Ok_0),
    decreases payload.len(),
{
    if payload.len() > 0 {
        let (entry, rest) = entry_outcome(payload)->Ok_0;
        lemma_entry_consumes(payload);
        lemma_tree_outcome_wf(rest);
        let entries = tree_outcome(payload)->Ok_0;
        let others = tree_outcome(rest)->Ok_0;
        assert(entries == seq![entry] + others);
        assert forall|i: int| 0 <= i < entries.len() implies (#[trigger] entries[i]).cid.wf() by {
            if i > 0 {
                assert(entries[i] == others[i - 1]);
            }
        }
    }
}

/// A tree entry before it is encoded: its mode, its name and its digest.
pub type RawEntry = (Seq<u8>, Seq<u8>, Seq<u8>);

/// The entry can be told from its bytes: the mode holds no space, the name no
/// null byte, both are UTF-8, and the digest has 20 bytes.
pub open spec fn raw_entry_wf(entry: RawEntry) -> bool {
    &&& !entry.0.contains(SPACE)
    &&& !entry.1.contains(NUL)
    &&& valid_utf8(entry.0)
    &&& valid_utf8(entry.1)
    &&& entry.2.len() == SHA1_LENGTH
}

/// What a well-formed entry decodes to.
pub open spec fn decoded_entry(entry: RawEntry) -> TreeEntryView {
    TreeEntryView {
        mode: decode_utf8(entry.0),
        name: decode_utf8(entry.1),
        cid: git_cid(entry.2),
    }
}

/// The payload of a tree with the given entries.
pub open spec fn tree_bytes(entries: Seq<RawEntry>) -> Seq<u8>
    decreases entries.len(),
{
    if entries.len() == 0 {
        Seq::empty()
    } else {
        entry_bytes(entries[0].0, entries[0].1, entries[0].2) + tree_bytes(entries.drop_first())
    }
}

/// A payload made of well-formed entries decodes to these entries in their
/// order, so that the links of the tree point to the identifiers of their
/// digests in that order.
pub proof fn lemma_tree_decodes_entries(entries: Seq<RawEntry>)
    requires
        forall|k: int| 0 <= k < entries.len() ==> raw_entry_wf(#[trigger] entries[k]),
    ensures
        tree_outcome(tree_bytes(entries)) == Ok::<Seq<TreeEntryView>, ErrorView>(
            Seq::new(entries.len(), |k: int| decoded_entry(entries[k])),
        ),
        entry_cids(tree_outcome(tree_bytes(entries))->Ok_0) == Seq::new(
            entries.len(),
            |k: int| git_cid(entries[k].2),
        ),
    decreases entries.len(),
{
    let decoded = Seq::new(entries.len(), |k: int| decoded_entry(entries[k]));
    if entries.len() == 0 {
        assert(decoded =~= Seq::empty());
    } else {
        let rest = entries.drop_first();
        assert forall|k: int| 0 <= k < rest.len() implies raw_entry_wf(#[trigger] rest[k]) by {
            assert(rest[k] == entries[k + 1]);
        }
        lemma_tree_decodes_entries(rest);
        lemma_tree_decodes_entry_first(
            entries[0].0,
            entries[0].1,
            entries[0].2,
            tree_bytes(rest),
        );
        assert(seq![decoded_entry(entries[0])] + Seq::new(
            rest.len(),
            |k: int| decoded_entry(rest[k]),
        ) =~= decoded);
    }
    assert(entry_cids(decoded) =~= Seq::new(entries.len(), |k: int| git_cid(entries[k].2)));
}

} // verus!
