use ipld_git::util::sha1_to_cid;
use ipld_git::{parse_blob_object, parse_object, Blob, Error, Node, Object, ObjectType};

fn object(kind: &str, payload: &[u8]) -> Vec<u8> {
    let mut bytes = format!("{} {}", kind, payload.len()).into_bytes();
    bytes.push(0);
    bytes.extend_from_slice(payload);
    bytes
}

#[test]
fn blob_keeps_its_payload() {
    let blob = parse_blob_object(b"any \0 bytes \xff").unwrap();
    assert_eq!(blob, Blob(b"any \0 bytes \xff".to_vec()));
    assert!(blob.links().is_empty());
    assert_eq!(parse_blob_object(b""), Ok(Blob(Vec::new())));
}

#[test]
fn object_that_is_a_blob() {
    let parsed = parse_object(&object("blob", b"hello\n")).unwrap();
    assert_eq!(parsed, Object::Blob(Blob(b"hello\n".to_vec())));
    assert!(parsed.links().is_empty());
}

#[test]
fn object_that_is_a_tree() {
    let digest = [0x5au8; 20];
    let mut payload = b"100644 a.txt\0".to_vec();
    payload.extend_from_slice(&digest);
    let parsed = parse_object(&object("tree", &payload)).unwrap();
    match &parsed {
        Object::Tree(tree) => assert_eq!(tree.entries[0].name, "a.txt"),
        other => panic!("{:?}", other),
    }
    let links = parsed.links();
    assert_eq!(links.len(), 1);
    assert_eq!(links[0].cid, &sha1_to_cid(&digest).unwrap());
}

#[test]
fn object_that_is_a_commit() {
    let payload = b"tree 7cee6dfa7d13e124220d2c04923f0cb0347ba27c\n\
        parent 0000000000000000000000000000000000000001\n\
        author Moloch <pure_machinery@example.com> 1517911033 -0600\n\
        committer Jaden Doe <j.doe@example.com> 1517914295 +0100\n\
        \n\
        Second commit.\n";
    let parsed = parse_object(&object("commit", payload)).unwrap();
    let links = parsed.links();
    assert_eq!(links.len(), 2);
    match &parsed {
        Object::Commit(commit) => {
            assert_eq!(links[0].cid, &commit.tree);
            assert_eq!(links[1].cid, &commit.parents[0]);
            assert_eq!(commit.parents[0].hash[21], 1);
        }
        other => panic!("{:?}", other),
    }
}

#[test]
fn object_that_is_a_tag() {
    let payload = b"object 7cee6dfa7d13e124220d2c04923f0cb0347ba27c\ntype commit\ntag v1\n";
    assert_eq!(
        parse_object(&object("tag", payload)),
        Err(Error::UnsupportedObjectType(ObjectType::Tag))
    );
    assert_eq!(
        parse_object(&object("tag", b"")),
        Err(Error::UnsupportedObjectType(ObjectType::Tag))
    );
}

#[test]
fn object_header_failures_come_first() {
    assert_eq!(parse_object(b"tag 1"), Err(Error::MissingNullTerminator));
    assert_eq!(parse_object(b"tag 1\0"), Err(Error::SizeMismatch { declared: 1, actual: 0 }));
    assert_eq!(parse_object(b"commit\0"), Err(Error::MalformedHeader));
    assert_eq!(
        parse_object(b"note 0\0"),
        Err(Error::UnknownObjectType(b"note".to_vec()))
    );
    assert_eq!(parse_object(b"tree x\0"), Err(Error::InvalidSizeField));
}

#[test]
fn object_payload_failures_are_passed_on() {
    assert_eq!(parse_object(&object("tree", b"100644")), Err(Error::MissingEntryMode));
    assert_eq!(parse_object(&object("commit", b"tree")), Err(Error::UnexpectedEndOfHeader));
}
