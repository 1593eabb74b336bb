//! What holds of every commit: how a commit written line by line decodes,
//! and which failure a commit with a second tree or without an author meets.

use vstd::prelude::*;
use crate::commit::{
    apply_field, author_word, commit_of, commit_outcome, committer_word, header_field_named,
    header_outcome, no_fields, parent_word, CommitView, HeaderField, HeaderFields,
};
use crate::error::{ErrorView, RequiredField};
use crate::foreign::{hex_bytes, hex_digit, is_hex_text};
use crate::header::tree_word;
use crate::identifier::git_cid;
use crate::user::user_info_outcome;
use crate::util::{lemma_split_first_some, lemma_split_first_unique, split_first, NEWLINE, SPACE};

verus! {

/// A header line: its name and its value.
pub type HeaderLine = (Seq<u8>, Seq<u8>);

/// The bytes of a header line: the name, a space, the value, a line feed.
pub open spec fn line_bytes(line: HeaderLine) -> Seq<u8> {
    line.0 + seq![SPACE] + line.1 + seq![NEWLINE]
}

/// The line can be told from its bytes: the name holds neither a space nor a
/// line feed, and the value holds no line feed.
pub open spec fn line_wf(line: HeaderLine) -> bool {
    &&& !line.0.contains(SPACE)
    &&& !line.0.contains(NEWLINE)
    &&& !line.1.contains(NEWLINE)
}

/// The bytes of a header made of the given lines, without the empty line
/// that ends it.
pub open spec fn header_bytes(lines: Seq<HeaderLine>) -> Seq<u8>
    decreases lines.len(),
{
    if lines.len() == 0 {
        Seq::empty()
    } else {
        line_bytes(lines[0]) + header_bytes(lines.drop_first())
    }
}

/// The bytes of a commit with the given header lines and message.
pub open spec fn commit_bytes(lines: Seq<HeaderLine>, message: Seq<u8>) -> Seq<u8> {
    header_bytes(lines) + seq![NEWLINE] + message
}

/// The effect of the given lines, one after the other, on what the lines
/// before them have set; the first line that is refused ends it.
pub open spec fn apply_fields(fields: HeaderFields, lines: Seq<HeaderLine>) -> Result<
    HeaderFields,
    ErrorView,
>
    decreases lines.len(),
{
    if lines.len() == 0 {
        Ok(fields)
    } else {
        match apply_field(fields, lines[0].0, lines[0].1) {
            Err(e) => Err(e),
            Ok(next) => apply_fields(next, lines.drop_first()),
        }
    }
}

/// Reading a buffer that begins with a header line applies that line, and
/// goes on with what follows it.
pub proof fn lemma_header_reads_line(fields: HeaderFields, line: HeaderLine, rest: Seq<u8>)
    requires
        line_wf(line),
    ensures
        header_outcome(fields, line_bytes(line) + rest) == match apply_field(
            fields,
            line.0,
            line.1,
        ) {
            Err(e) => Err(e),
            Ok(next) => header_outcome(next, rest),
        },
{
    let text = line.0 + seq![SPACE] + line.1;
    assert(line_bytes(line) + rest =~= text + seq![NEWLINE] + rest);
    assert(!text.contains(NEWLINE)) by {
        if text.contains(NEWLINE) {
            let i = choose|i: int| 0 <= i < text.len() && text[i] == NEWLINE;
            if i < line.0.len() {
                assert(line.0.contains(line.0[i]));
            } else if i > line.0.len() {
                assert(line.1.contains(line.1[i - line.0.len() - 1]));
            }
        }
    }
    lemma_split_first_unique(text, NEWLINE, rest);
    lemma_split_first_unique(line.0, SPACE, line.1);
    assert(text.len() > 0);
}

/// Reading a buffer that begins with an empty line ends the header: whatever
/// follows is the message, and changes nothing.
pub proof fn lemma_header_ends(fields: HeaderFields, message: Seq<u8>)
    ensures
        header_outcome(fields, seq![NEWLINE] + message) == Ok::<HeaderFields, ErrorView>(fields),
{
    assert(seq![NEWLINE] + message =~= Seq::<u8>::empty() + seq![NEWLINE] + message);
    lemma_split_first_unique(Seq::<u8>::empty(), NEWLINE, message);
}

/// Reading a commit made of well-formed header lines, an empty line and a
/// message applies the lines in their order; the message plays no part.
pub proof fn lemma_header_reads_lines(
    fields: HeaderFields,
    lines: Seq<HeaderLine>,
    message: Seq<u8>,
)
    requires
        forall|k: int| 0 <= k < lines.len() ==> line_wf(#[trigger] lines[k]),
    ensures
        header_outcome(fields, commit_bytes(lines, message)) == apply_fields(fields, lines),
    decreases lines.len(),
{
    if lines.len() == 0 {
        assert(commit_bytes(lines, message) =~= seq![NEWLINE] + message);
        lemma_header_ends(fields, message);
    } else {
        let rest = commit_bytes(lines.drop_first(), message);
        assert(commit_bytes(lines, message) =~= line_bytes(lines[0]) + rest);
        lemma_header_reads_line(fields, lines[0], rest);
        match apply_field(fields, lines[0].0, lines[0].1) {
            Err(e) => {},
            Ok(next) => {
                assert forall|k: int| 0 <= k < lines.drop_first().len() implies line_wf(
                    #[trigger] lines.drop_first()[k],
                ) by {
                    assert(lines.drop_first()[k] == lines[k + 1]);
                }
                lemma_header_reads_lines(next, lines.drop_first(), message);
            },
        }
    }
}

/// A commit made of well-formed header lines, an empty line and a message
/// decodes to what its lines set, as far as that makes a commit.
pub proof fn lemma_commit_decodes_lines(lines: Seq<HeaderLine>, message: Seq<u8>)
    requires
        forall|k: int| 0 <= k < lines.len() ==> line_wf(#[trigger] lines[k]),
    ensures
        commit_outcome(commit_bytes(lines, message)) == match apply_fields(no_fields(), lines) {
            Err(e) => Err(e),
            Ok(fields) => commit_of(fields),
        },
{
    lemma_header_reads_lines(no_fields(), lines, message);
}

/// Lines that are accepted up to the `n`th leave the rest to be applied to
/// what they have set.
pub proof fn lemma_apply_fields_in_parts(fields: HeaderFields, lines: Seq<HeaderLine>, n: int)
    requires
        0 <= n <= lines.len(),
        apply_fields(fields, lines.take(n)) is Ok,
    ensures
        apply_fields(fields, lines) == apply_fields(
            apply_fields(fields, lines.take(n))->Ok_0,
            lines.skip(n),
        ),
    decreases n,
{
    if n == 0 {
        assert(lines.skip(0) =~= lines);
    } else {
        let first = lines.take(n);
        assert(first[0] == lines[0]);
        assert(first.drop_first() =~= lines.drop_first().take(n - 1));
        let next = apply_field(fields, lines[0].0, lines[0].1)->Ok_0;
        lemma_apply_fields_in_parts(next, lines.drop_first(), n - 1);
        assert(lines.drop_first().skip(n - 1) =~= lines.skip(n));
    }
}

/// Which fields accepted lines have set: a field is set after them exactly
/// when it was set before them or one of them bears its name.
pub proof fn lemma_fields_set_by_lines(fields: HeaderFields, lines: Seq<HeaderLine>)
    requires
        apply_fields(fields, lines) is Ok,
    ensures
        ({
            let after = apply_fields(fields, lines)->Ok_0;
            &&& after.tree is Some <==> fields.tree is Some || exists|k: int|
                0 <= k < lines.len() && (#[trigger] lines[k]).0 == tree_word()
            &&& after.author is Some <==> fields.author is Some || exists|k: int|
                0 <= k < lines.len() && (#[trigger] lines[k]).0 == author_word()
            &&& after.committer is Some <==> fields.committer is Some || exists|k: int|
                0 <= k < lines.len() && (#[trigger] lines[k]).0 == committer_word()
        }),
    decreases lines.len(),
{
    if lines.len() > 0 {
        let next = apply_field(fields, lines[0].0, lines[0].1)->Ok_0;
        let rest = lines.drop_first();
        lemma_fields_set_by_lines(next, rest);
        let after = apply_fields(fields, lines)->Ok_0;
        assert forall|k: int| 0 <= k < rest.len() implies rest[k] == lines[k + 1] by {}
        lemma_field_names();
        if after.tree is Some && !(fields.tree is Some) {
            if next.tree is Some && !(exists|k: int|
                0 <= k < rest.len() && (#[trigger] rest[k]).0 == tree_word()) {
                assert(lines[0].0 == tree_word());
            } else {
                let k = choose|k: int| 0 <= k < rest.len() && (#[trigger] rest[k]).0 == tree_word();
                assert(lines[k + 1].0 == tree_word());
            }
        }
        if after.author is Some && !(fields.author is Some) {
            if next.author is Some && !(exists|k: int|
                0 <= k < rest.len() && (#[trigger] rest[k]).0 == author_word()) {
                assert(lines[0].0 == author_word());
            } else {
                let k = choose|k: int|
                    0 <= k < rest.len() && (#[trigger] rest[k]).0 == author_word();
                assert(lines[k + 1].0 == author_word());
            }
        }
        if after.committer is Some && !(fields.committer is Some) {
            if next.committer is Some && !(exists|k: int|
                0 <= k < rest.len() && (#[trigger] rest[k]).0 == committer_word()) {
                assert(lines[0].0 == committer_word());
            } else {
                let k = choose|k: int|
                    0 <= k < rest.len() && (#[trigger] rest[k]).0 == committer_word();
                assert(lines[k + 1].0 == committer_word());
            }
        }
        assert forall|k: int| 0 < k < lines.len() implies lines[k] == rest[k - 1] by {}
        if exists|k: int| 0 <= k < lines.len() && (#[trigger] lines[k]).0 == tree_word() {
            let k = choose|k: int| 0 <= k < lines.len() && (#[trigger] lines[k]).0 == tree_word();
            if k > 0 {
                assert(rest[k - 1].0 == tree_word());
            }
        }
        if exists|k: int| 0 <= k < lines.len() && (#[trigger] lines[k]).0 == author_word() {
            let k = choose|k: int|
                0 <= k < lines.len() && (#[trigger] lines[k]).0 == author_word();
            if k > 0 {
                assert(rest[k - 1].0 == author_word());
            }
        }
        if exists|k: int| 0 <= k < lines.len() && (#[trigger] lines[k]).0 == committer_word() {
            let k = choose|k: int|
                0 <= k < lines.len() && (#[trigger] lines[k]).0 == committer_word();
            if k > 0 {
                assert(rest[k - 1].0 == committer_word());
            }
        }
    }
}

/// A commit with two `tree` lines is refused for the second of them, provided
/// that the lines before the second are accepted and that its value is
/// hexadecimal.
pub proof fn lemma_second_tree_is_refused(
    lines: Seq<HeaderLine>,
    i: int,
    j: int,
    message: Seq<u8>,
)
    requires
        forall|k: int| 0 <= k < lines.len() ==> line_wf(#[trigger] lines[k]),
        0 <= i < j < lines.len(),
        lines[i].0 == tree_word(),
        lines[j].0 == tree_word(),
        is_hex_text(lines[j].1),
        apply_fields(no_fields(), lines.take(j)) is Ok,
    ensures
        commit_outcome(commit_bytes(lines, message)) == Err::<CommitView, ErrorView>(
            ErrorView::DuplicateTreeField,
        ),
{
    lemma_commit_decodes_lines(lines, message);
    lemma_apply_fields_in_parts(no_fields(), lines, j);
    lemma_fields_set_by_lines(no_fields(), lines.take(j));
    assert(lines.take(j)[i].0 == tree_word());
    assert(lines.skip(j)[0] == lines[j]);
}

/// A commit without an `author` line, all of whose header lines are accepted,
/// is refused for a missing field: the tree where no `tree` line is there
/// either, and else the author.
pub proof fn lemma_missing_author_is_refused(lines: Seq<HeaderLine>, message: Seq<u8>)
    requires
        forall|k: int| 0 <= k < lines.len() ==> line_wf(#[trigger] lines[k]),
        forall|k: int| 0 <= k < lines.len() ==> (#[trigger] lines[k]).0 != author_word(),
        apply_fields(no_fields(), lines) is Ok,
    ensures
        commit_outcome(commit_bytes(lines, message)) == Err::<CommitView, ErrorView>(
            ErrorView::MissingRequiredField(
                if exists|k: int| 0 <= k < lines.len() && (#[trigger] lines[k]).0 == tree_word() {
                    RequiredField::Author
                } else {
                    RequiredField::Tree
                },
            ),
        ),
{
    lemma_commit_decodes_lines(lines, message);
    lemma_fields_set_by_lines(no_fields(), lines);
}

/// Every identifier of a commit that decodes is well-formed.
pub proof fn lemma_commit_outcome_wf(payload: Seq<u8>)
    requires
        commit_outcome(payload) is Ok,
    ensures
        commit_outcome(payload)->Ok_0.wf(),
{
    lemma_header_outcome_wf(no_fields(), payload);
}

/// Reading header lines keeps the identifiers that are set well-formed.
proof fn lemma_header_outcome_wf(fields: HeaderFields, buf: Seq<u8>)
    requires
        header_outcome(fields, buf) is Ok,
        fields.tree matches Some(cid) ==> cid.wf(),
        forall|i: int| 0 <= i < fields.parents.len() ==> (#[trigger] fields.parents[i]).wf(),
    ensures
        ({
            let after = header_outcome(fields, buf)->Ok_0;
            &&& after.tree matches Some(cid) ==> cid.wf()
            &&& forall|i: int| 0 <= i < after.parents.len() ==> (#[trigger] after.parents[i]).wf()
        }),
    decreases buf.len(),
{
    let (line, rest) = split_first(buf, NEWLINE).unwrap();
    if line.len() > 0 {
        let (name, value) = split_first(line, SPACE).unwrap();
        let next = apply_field(fields, name, value)->Ok_0;
        lemma_split_first_some(buf, NEWLINE);
        lemma_header_outcome_wf(next, rest);
    }
}

/// The lower-case hexadecimal digit of a value below 16.
pub open spec fn lower_hex_digit(value: u8) -> u8 {
    if value < 10 {
        ('0' as u8 + value) as u8
    } else {
        ('a' as u8 + value - 10) as u8
    }
}

/// The lower-case hexadecimal text of `bytes`: two digits for each byte, the
/// high half first.
pub open spec fn lower_hex(bytes: Seq<u8>) -> Seq<u8> {
    Seq::new(
        2 * bytes.len(),
        |i: int|
            lower_hex_digit(
                if i % 2 == 0 {
                    bytes[i / 2] / 16
                } else {
                    bytes[i / 2] % 16
                },
            ),
    )
}

/// The lower-case hexadecimal text of any bytes is hexadecimal, stands for
/// these bytes, and holds neither a space nor a line feed.
pub proof fn lemma_lower_hex_decodes(bytes: Seq<u8>)
    ensures
        is_hex_text(lower_hex(bytes)),
        hex_bytes(lower_hex(bytes)) == bytes,
        !lower_hex(bytes).contains(NEWLINE),
        !lower_hex(bytes).contains(SPACE),
{
    let text = lower_hex(bytes);
    assert forall|v: u8| v < 16 implies hex_digit(lower_hex_digit(v)) == Some(v) by {}
    assert forall|i: int| 0 <= i < text.len() implies hex_digit(#[trigger] text[i]) is Some
        && text[i] != NEWLINE && text[i] != SPACE by {
        let v = if i % 2 == 0 {
            bytes[i / 2] / 16
        } else {
            bytes[i / 2] % 16
        };
        assert(v < 16);
        assert(text[i] == lower_hex_digit(v));
    }
    assert forall|k: int| 0 <= k < bytes.len() implies hex_bytes(text)[k] == bytes[k] by {
        assert(text[2 * k] == lower_hex_digit(bytes[k] / 16));
        assert(text[2 * k + 1] == lower_hex_digit(bytes[k] % 16));
        assert(hex_digit(text[2 * k]) == Some((bytes[k] / 16) as u8));
        assert(hex_digit(text[2 * k + 1]) == Some((bytes[k] % 16) as u8));
    }
    assert(hex_bytes(text) =~= bytes);
}

/// One `parent` line for each of the given digests.
pub open spec fn parent_lines(parents: Seq<Seq<u8>>) -> Seq<HeaderLine> {
    Seq::new(parents.len(), |k: int| (parent_word(), lower_hex(parents[k])))
}

/// The header lines of a commit as git writes them: the tree, the parents,
/// the author, the committer.
pub open spec fn usual_lines(
    tree: Seq<u8>,
    parents: Seq<Seq<u8>>,
    author: Seq<u8>,
    committer: Seq<u8>,
) -> Seq<HeaderLine> {
    seq![(tree_word(), lower_hex(tree))] + parent_lines(parents) + seq![
        (author_word(), author),
        (committer_word(), committer),
    ]
}

/// `parent` lines add the identifiers of their digests, in their order, to
/// the parents set before them.
proof fn lemma_apply_parent_lines(
    fields: HeaderFields,
    parents: Seq<Seq<u8>>,
    others: Seq<HeaderLine>,
)
    requires
        forall|k: int| 0 <= k < parents.len() ==> (#[trigger] parents[k]).len() == 20,
    ensures
        apply_fields(fields, parent_lines(parents) + others) == apply_fields(
            HeaderFields {
                parents: fields.parents + Seq::new(parents.len(), |k: int| git_cid(parents[k])),
                ..fields
            },
            others,
        ),
    decreases parents.len(),
{
    let lines = parent_lines(parents) + others;
    let added = Seq::new(parents.len(), |k: int| git_cid(parents[k]));
    if parents.len() == 0 {
        assert(lines =~= others);
        assert(fields.parents + added =~= fields.parents);
    } else {
        let rest = parents.drop_first();
        assert(lines[0] == (parent_word(), lower_hex(parents[0])));
        lemma_lower_hex_decodes(parents[0]);
        lemma_field_names();
        let next = HeaderFields { parents: fields.parents.push(git_cid(parents[0])), ..fields };
        assert(apply_field(fields, lines[0].0, lines[0].1) == Ok::<HeaderFields, ErrorView>(next));
        assert(lines.drop_first() =~= parent_lines(rest) + others);
        assert forall|k: int| 0 <= k < rest.len() implies (#[trigger] rest[k]).len() == 20 by {
            assert(rest[k] == parents[k + 1]);
        }
        lemma_apply_parent_lines(next, rest, others);
        assert(next.parents + Seq::new(rest.len(), |k: int| git_cid(rest[k])) =~= fields.parents
            + added);
    }
}

/// The four field names differ from one another, and none of them holds a
/// space or a line feed.
pub proof fn lemma_field_names()
    ensures
        header_field_named(tree_word()) == Some(HeaderField::Tree),
        header_field_named(parent_word()) == Some(HeaderField::Parent),
        header_field_named(author_word()) == Some(HeaderField::Author),
        header_field_named(committer_word()) == Some(HeaderField::Committer),
        !tree_word().contains(SPACE) && !tree_word().contains(NEWLINE),
        !parent_word().contains(SPACE) && !parent_word().contains(NEWLINE),
        !author_word().contains(SPACE) && !author_word().contains(NEWLINE),
        !committer_word().contains(SPACE) && !committer_word().contains(NEWLINE),
{
    assert(tree_word().len() == 4 && author_word().len() == 6 && parent_word().len() == 6
        && committer_word().len() == 9);
    assert(author_word()[0] != parent_word()[0]);
}

/// The usual header lines are well-formed when neither the author's entry
/// nor the committer's holds a line feed.
proof fn lemma_usual_lines_wf(
    tree: Seq<u8>,
    parents: Seq<Seq<u8>>,
    author: Seq<u8>,
    committer: Seq<u8>,
)
    requires
        !author.contains(NEWLINE),
        !committer.contains(NEWLINE),
    ensures
        forall|k: int|
            0 <= k < usual_lines(tree, parents, author, committer).len() ==> line_wf(
                #[trigger] usual_lines(tree, parents, author, committer)[k],
            ),
{
    let lines = usual_lines(tree, parents, author, committer);
    lemma_field_names();
    lemma_lower_hex_decodes(tree);
    assert forall|k: int| 0 <= k < lines.len() implies line_wf(#[trigger] lines[k]) by {
        if k == 0 {
            assert(lines[k] == (tree_word(), lower_hex(tree)));
        } else if k <= parents.len() {
            assert(lines[k] == (parent_word(), lower_hex(parents[k - 1])));
            lemma_lower_hex_decodes(parents[k - 1]);
        } else if k == parents.len() + 1 {
            assert(lines[k] == (author_word(), author));
        } else {
            assert(lines[k] == (committer_word(), committer));
        }
    }
}

/// An `author` line and a `committer` line after it set both fields where
/// neither was set, provided that their entries decode.
proof fn lemma_apply_author_and_committer(
    fields: HeaderFields,
    author: Seq<u8>,
    committer: Seq<u8>,
)
    requires
        fields.author is None,
        fields.committer is None,
        user_info_outcome(author) is Ok,
        user_info_outcome(committer) is Ok,
    ensures
        apply_fields(fields, seq![(author_word(), author), (committer_word(), committer)])
            == Ok::<HeaderFields, ErrorView>(
            HeaderFields {
                author: Some(user_info_outcome(author)->Ok_0),
                committer: Some(user_info_outcome(committer)->Ok_0),
                ..fields
            },
        ),
{
    let lines = seq![(author_word(), author), (committer_word(), committer)];
    lemma_field_names();
    let with_author = HeaderFields { author: Some(user_info_outcome(author)->Ok_0), ..fields };
    assert(apply_field(fields, lines[0].0, lines[0].1) == Ok::<HeaderFields, ErrorView>(
        with_author,
    ));
    let rest = lines.drop_first();
    assert(rest[0] == (committer_word(), committer));
    let complete = HeaderFields {
        committer: Some(user_info_outcome(committer)->Ok_0),
        ..with_author
    };
    assert(apply_field(with_author, rest[0].0, rest[0].1) == Ok::<HeaderFields, ErrorView>(
        complete,
    ));
    assert(rest.drop_first().len() == 0);
    assert(apply_fields(complete, rest.drop_first()) == Ok::<HeaderFields, ErrorView>(complete));
    assert(apply_fields(with_author, rest) == Ok::<HeaderFields, ErrorView>(complete));
}

/// The usual header lines set the tree, the parents in their order, the
/// author and the committer.
proof fn lemma_apply_usual_lines(
    tree: Seq<u8>,
    parents: Seq<Seq<u8>>,
    author: Seq<u8>,
    committer: Seq<u8>,
)
    requires
        tree.len() == 20,
        forall|k: int| 0 <= k < parents.len() ==> (#[trigger] parents[k]).len() == 20,
        user_info_outcome(author) is Ok,
        user_info_outcome(committer) is Ok,
    ensures
        apply_fields(no_fields(), usual_lines(tree, parents, author, committer)) == Ok::<
            HeaderFields,
            ErrorView,
        >(
            HeaderFields {
                tree: Some(git_cid(tree)),
                parents: Seq::new(parents.len(), |k: int| git_cid(parents[k])),
                author: Some(user_info_outcome(author)->Ok_0),
                committer: Some(user_info_outcome(committer)->Ok_0),
            },
        ),
{
    let lines = usual_lines(tree, parents, author, committer);
    let last = seq![(author_word(), author), (committer_word(), committer)];
    let cids = Seq::new(parents.len(), |k: int| git_cid(parents[k]));
    lemma_field_names();
    lemma_lower_hex_decodes(tree);
    let with_tree = HeaderFields { tree: Some(git_cid(tree)), ..no_fields() };
    assert(lines[0] == (tree_word(), lower_hex(tree)));
    assert(apply_field(no_fields(), lines[0].0, lines[0].1) == Ok::<HeaderFields, ErrorView>(
        with_tree,
    ));
    assert(lines.drop_first() =~= parent_lines(parents) + last);
    lemma_apply_parent_lines(with_tree, parents, last);
    assert(with_tree.parents + cids =~= cids);
    let with_parents = HeaderFields { parents: cids, ..with_tree };
    lemma_apply_author_and_committer(with_parents, author, committer);
}

/// A commit whose header lines are the usual ones decodes to the identifiers
/// of its tree and of its parents, in their order, and to what its author and
/// committer entries decode to.
pub proof fn lemma_usual_commit_decodes(
    tree: Seq<u8>,
    parents: Seq<Seq<u8>>,
    author: Seq<u8>,
    committer: Seq<u8>,
    message: Seq<u8>,
)
    requires
        tree.len() == 20,
        forall|k: int| 0 <= k < parents.len() ==> (#[trigger] parents[k]).len() == 20,
        !author.contains(NEWLINE),
        !committer.contains(NEWLINE),
        user_info_outcome(author) is Ok,
        user_info_outcome(committer) is Ok,
    ensures
        commit_outcome(commit_bytes(usual_lines(tree, parents, author, committer), message))
            == Ok::<CommitView, ErrorView>(
            CommitView {
                tree: git_cid(tree),
                parents: Seq::new(parents.len(), |k: int| git_cid(parents[k])),
                author: user_info_outcome(author)->Ok_0,
                committer: user_info_outcome(committer)->Ok_0,
            },
        ),
{
    lemma_usual_lines_wf(tree, parents, author, committer);
    lemma_commit_decodes_lines(usual_lines(tree, parents, author, committer), message);
    lemma_apply_usual_lines(tree, parents, author, committer);
}

} // verus!
