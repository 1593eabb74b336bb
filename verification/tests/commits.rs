use ipld_git::commit::{header_field_of, HeaderField};
use ipld_git::util::sha1_to_cid;
use ipld_git::{parse_commit_object, Error, Node, RequiredField, UserField};

// header: 'commit 182'
const INIT_COMMIT: &'static [u8] = b"\
    tree 7cee6dfa7d13e124220d2c04923f0cb0347ba27c\n\
    author Moloch <pure_machinery@example.com> 1517911033 -0600\n\
    committer Jaden Doe <j.doe@example.com> 1517914295 +0100\n\
    \n\
    Initial commit.\n";

const TREE_LINE: &'static str = "tree 7cee6dfa7d13e124220d2c04923f0cb0347ba27c\n";
const AUTHOR_LINE: &'static str = "author Moloch <pure_machinery@example.com> 1517911033 -0600\n";
const COMMITTER_LINE: &'static str = "committer Jaden Doe <j.doe@example.com> 1517914295 +0100\n";

fn commit(lines: &[&str]) -> Vec<u8> {
    let mut bytes = Vec::new();
    for line in lines {
        bytes.extend_from_slice(line.as_bytes());
    }
    bytes
}

#[test]
fn parse_commit() {
    let commit = match parse_commit_object(INIT_COMMIT) {
        Err(e) => panic!("Parsing error: {}", format!("{:?}", e)),
        Ok(c) => c,
    };

    println!("commit.tree.hash = {:?}", &commit.tree.hash);
    let commit_tree_multihash = multihash::decode(&commit.tree.hash).unwrap();

    let tree_hash_hex = "7cee6dfa7d13e124220d2c04923f0cb0347ba27c";
    let tree_hash = hex::decode(&tree_hash_hex).unwrap();

    assert_eq!(commit_tree_multihash.digest, &tree_hash[..]);

    assert!(commit.parents.len() == 0);

    assert_eq!(&commit.author.name, "Moloch");
    assert_eq!(&commit.author.email, "pure_machinery@example.com");
    assert_eq!(&commit.author.timestamp, "1517911033");
    assert_eq!(&commit.author.timezone, "-0600");

    assert_eq!(&commit.committer.name, "Jaden Doe");
    assert_eq!(&commit.committer.email, "j.doe@example.com");
    assert_eq!(&commit.committer.timestamp, "1517914295");
    assert_eq!(&commit.committer.timezone, "+0100");
}

#[test]
fn root_commit_links_to_its_tree() {
    let commit = parse_commit_object(INIT_COMMIT).unwrap();
    let tree = sha1_to_cid(&hex::decode("7cee6dfa7d13e124220d2c04923f0cb0347ba27c").unwrap()).unwrap();
    assert_eq!(commit.tree, tree);
    let links = commit.links();
    assert_eq!(links.len(), 1);
    assert_eq!(links[0].cid, &tree);
}

#[test]
fn commit_with_parents() {
    let first_parent = "0123456789abcdef0123456789abcdef01234567";
    let second_parent = "89ABCDEF0123456789abcdef0123456789ABCDEF";
    let payload = commit(&[
        "parent ",
        first_parent,
        "\n",
        TREE_LINE,
        AUTHOR_LINE,
        "parent ",
        second_parent,
        "\n",
        COMMITTER_LINE,
        "\n",
        "Merge.\n\nparent not a header\n",
    ]);
    let commit = parse_commit_object(&payload).unwrap();
    let c1 = sha1_to_cid(&hex::decode(first_parent).unwrap()).unwrap();
    let c2 = sha1_to_cid(&hex::decode(second_parent).unwrap()).unwrap();
    assert_eq!(commit.parents, vec![c1.clone(), c2.clone()]);
    assert_eq!(
        &commit.parents[1].hash[2..],
        &[
            0x89u8, 0xab, 0xcd, 0xef, 0x01, 0x23, 0x45, 0x67, 0x89, 0xab, 0xcd, 0xef, 0x01, 0x23,
            0x45, 0x67, 0x89, 0xab, 0xcd, 0xef
        ]
    );

    let links = commit.links();
    assert_eq!(links.len(), 3);
    assert_eq!(links[0].cid, &commit.tree);
    assert_eq!(links[1].cid, &c1);
    assert_eq!(links[2].cid, &c2);
}

#[test]
fn commit_without_message() {
    let payload = commit(&[TREE_LINE, AUTHOR_LINE, COMMITTER_LINE, "\n"]);
    assert!(parse_commit_object(&payload).is_ok());
}

#[test]
fn commit_header_that_does_not_end() {
    assert_eq!(parse_commit_object(b""), Err(Error::UnexpectedEndOfHeader));
    let payload = commit(&[TREE_LINE, AUTHOR_LINE, COMMITTER_LINE]);
    assert_eq!(parse_commit_object(&payload), Err(Error::UnexpectedEndOfHeader));
    let payload = commit(&[TREE_LINE, AUTHOR_LINE, "committer Jaden"]);
    assert_eq!(parse_commit_object(&payload), Err(Error::UnexpectedEndOfHeader));
}

#[test]
fn commit_line_without_space() {
    let payload = commit(&[TREE_LINE, "author\n", COMMITTER_LINE, "\n"]);
    assert_eq!(parse_commit_object(&payload), Err(Error::MalformedHeaderLine));
}

#[test]
fn commit_with_bad_hex() {
    let payload = commit(&["tree 7cee6dfa7d13e124220d2c04923f0cb0347ba27g\n", "\n"]);
    assert_eq!(parse_commit_object(&payload), Err(Error::InvalidHexDigest));
    let payload = commit(&["tree 7cee6dfa7d13e124220d2c04923f0cb0347ba27\n", "\n"]);
    assert_eq!(parse_commit_object(&payload), Err(Error::InvalidHexDigest));
    let payload = commit(&[TREE_LINE, "parent zz\n", "\n"]);
    assert_eq!(parse_commit_object(&payload), Err(Error::InvalidHexDigest));
}

#[test]
fn commit_with_digest_of_wrong_length() {
    let payload = commit(&["tree 7cee6dfa\n", "\n"]);
    assert_eq!(parse_commit_object(&payload), Err(Error::InvalidDigestLength { actual: 4 }));
    let payload = commit(&[TREE_LINE, "parent \n", "\n"]);
    assert_eq!(parse_commit_object(&payload), Err(Error::InvalidDigestLength { actual: 0 }));
    let payload = commit(&["tree 7cee6dfa7d13e124220d2c04923f0cb0347ba27c00\n", "\n"]);
    assert_eq!(parse_commit_object(&payload), Err(Error::InvalidDigestLength { actual: 21 }));
}

#[test]
fn commit_with_two_trees() {
    let payload = commit(&[TREE_LINE, TREE_LINE, AUTHOR_LINE, COMMITTER_LINE, "\n"]);
    assert_eq!(parse_commit_object(&payload), Err(Error::DuplicateTreeField));
    let payload = commit(&[TREE_LINE, AUTHOR_LINE, COMMITTER_LINE, "tree 00\n", "\n"]);
    assert_eq!(parse_commit_object(&payload), Err(Error::DuplicateTreeField));
    let payload = commit(&[TREE_LINE, "tree 0\n", "\n"]);
    assert_eq!(parse_commit_object(&payload), Err(Error::InvalidHexDigest));
}

#[test]
fn commit_with_two_authors_or_committers() {
    let payload = commit(&[TREE_LINE, AUTHOR_LINE, AUTHOR_LINE, COMMITTER_LINE, "\n"]);
    assert_eq!(parse_commit_object(&payload), Err(Error::DuplicateField(UserField::Author)));
    let payload = commit(&[TREE_LINE, AUTHOR_LINE, COMMITTER_LINE, "committer x\n", "\n"]);
    assert_eq!(parse_commit_object(&payload), Err(Error::DuplicateField(UserField::Committer)));
}

#[test]
fn commit_with_unknown_field() {
    let payload = commit(&[TREE_LINE, AUTHOR_LINE, COMMITTER_LINE, "encoding latin1\n", "\n"]);
    assert_eq!(
        parse_commit_object(&payload),
        Err(Error::UnrecognizedHeaderField(b"encoding".to_vec()))
    );
    let payload = commit(&[" leading space\n", "\n"]);
    assert_eq!(parse_commit_object(&payload), Err(Error::UnrecognizedHeaderField(Vec::new())));
}

#[test]
fn commit_with_missing_fields() {
    let payload = commit(&[TREE_LINE, COMMITTER_LINE, "\n", "Initial commit.\n"]);
    assert_eq!(
        parse_commit_object(&payload),
        Err(Error::MissingRequiredField(RequiredField::Author))
    );
    let payload = commit(&[AUTHOR_LINE, COMMITTER_LINE, "\n"]);
    assert_eq!(
        parse_commit_object(&payload),
        Err(Error::MissingRequiredField(RequiredField::Tree))
    );
    let payload = commit(&[TREE_LINE, AUTHOR_LINE, "\n"]);
    assert_eq!(
        parse_commit_object(&payload),
        Err(Error::MissingRequiredField(RequiredField::Committer))
    );
    assert_eq!(
        parse_commit_object(b"\n"),
        Err(Error::MissingRequiredField(RequiredField::Tree))
    );
}

#[test]
fn commit_with_bad_user_info() {
    let payload = commit(&[TREE_LINE, "author Moloch 1517911033 -0600\n", "\n"]);
    assert_eq!(parse_commit_object(&payload), Err(Error::MissingEmailOpenBracket));
    let payload = commit(&[TREE_LINE, AUTHOR_LINE, "committer J <j@d> 1517914295\n", "\n"]);
    assert_eq!(parse_commit_object(&payload), Err(Error::MalformedDateField));
}

#[test]
fn header_field_names() {
    assert_eq!(header_field_of(b"tree"), Some(HeaderField::Tree));
    assert_eq!(header_field_of(b"parent"), Some(HeaderField::Parent));
    assert_eq!(header_field_of(b"author"), Some(HeaderField::Author));
    assert_eq!(header_field_of(b"committer"), Some(HeaderField::Committer));
    assert_eq!(header_field_of(b"gpgsig"), None);
    assert_eq!(header_field_of(b"Tree"), None);
    assert_eq!(header_field_of(b""), None);
}
