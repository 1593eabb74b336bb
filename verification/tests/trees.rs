use ipld_git::util::sha1_to_cid;
use ipld_git::{
    parse_tree_entry, parse_tree_object, EntryField, Error, Node, Tree, TreeEntry,
};

fn digest(seed: u8) -> Vec<u8> {
    (0u8..20).map(|i| seed.wrapping_add(i.wrapping_mul(7))).collect()
}

fn entry(mode: &[u8], name: &[u8], digest: &[u8]) -> Vec<u8> {
    let mut bytes = mode.to_vec();
    bytes.push(b' ');
    bytes.extend_from_slice(name);
    bytes.push(0);
    bytes.extend_from_slice(digest);
    bytes
}

#[test]
fn tree_links_keep_the_order_of_entries() {
    let d1 = digest(1);
    let d2 = digest(2);
    let mut payload = entry(b"100644", b"a.txt", &d1);
    payload.extend(entry(b"40000", b"dir", &d2));

    let tree = parse_tree_object(&payload).unwrap();
    assert_eq!(tree.entries.len(), 2);
    assert_eq!(tree.entries[0].mode, "100644");
    assert_eq!(tree.entries[0].name, "a.txt");
    assert_eq!(tree.entries[0].cid, sha1_to_cid(&d1).unwrap());
    assert_eq!(tree.entries[1].mode, "40000");
    assert_eq!(tree.entries[1].name, "dir");
    assert_eq!(tree.entries[1].cid, sha1_to_cid(&d2).unwrap());

    let links = tree.links();
    assert_eq!(links.len(), 2);
    assert_eq!(links[0].cid, &sha1_to_cid(&d1).unwrap());
    assert_eq!(links[1].cid, &sha1_to_cid(&d2).unwrap());
}

#[test]
fn empty_tree() {
    let tree = parse_tree_object(b"").unwrap();
    assert!(tree.entries.is_empty());
    assert!(tree.links().is_empty());
}

#[test]
fn tree_digest_may_hold_any_byte() {
    let mut d = digest(9);
    d[0] = 0;
    d[1] = b' ';
    d[19] = 0;
    let mut payload = entry(b"100755", b"run.sh", &d);
    payload.extend(entry(b"120000", b"link", &digest(4)));
    let tree = parse_tree_object(&payload).unwrap();
    assert_eq!(tree.entries.len(), 2);
    assert_eq!(&tree.entries[0].cid.hash[2..], &d[..]);
    assert_eq!(tree.entries[1].name, "link");
}

#[test]
fn tree_name_with_spaces_and_non_ascii() {
    let payload = entry(b"100644", "mes notes d'été.txt".as_bytes(), &digest(5));
    let tree = parse_tree_object(&payload).unwrap();
    assert_eq!(tree.entries[0].name, "mes notes d'été.txt");
}

#[test]
fn tree_with_duplicate_names() {
    let d1 = digest(1);
    let d2 = digest(2);
    let d3 = digest(3);
    let mut payload = entry(b"100644", b"same", &d1);
    payload.extend(entry(b"100644", b"other", &d2));
    payload.extend(entry(b"100755", b"same", &d3));
    let tree = parse_tree_object(&payload).unwrap();

    let links = tree.links();
    assert_eq!(links.len(), 3);
    assert_eq!(links[0].cid, &sha1_to_cid(&d1).unwrap());
    assert_eq!(links[1].cid, &sha1_to_cid(&d2).unwrap());
    assert_eq!(links[2].cid, &sha1_to_cid(&d3).unwrap());

    let found = tree.get("same").unwrap();
    assert_eq!(found.mode, "100755");
    assert_eq!(found.cid, sha1_to_cid(&d3).unwrap());
    assert_eq!(tree.get("other").unwrap().cid, sha1_to_cid(&d2).unwrap());
    assert!(tree.get("absent").is_none());
    assert!(tree.get("").is_none());
}

#[test]
fn tree_built_by_hand() {
    let mut tree = Tree::new();
    assert!(tree.entries.is_empty());
    assert!(tree.get("a").is_none());
    let first = TreeEntry {
        mode: "100644".to_string(),
        name: "a".to_string(),
        cid: sha1_to_cid(&digest(1)).unwrap(),
    };
    let second = TreeEntry {
        mode: "100644".to_string(),
        name: "a".to_string(),
        cid: sha1_to_cid(&digest(2)).unwrap(),
    };
    tree.add_entry(first.clone());
    assert_eq!(tree.get("a"), Some(&first));
    tree.add_entry(second.clone());
    assert_eq!(tree.entries, vec![first, second.clone()]);
    assert_eq!(tree.get("a"), Some(&second));
    assert_eq!(tree.links().len(), 2);
}

#[test]
fn tree_entry_without_mode() {
    assert_eq!(parse_tree_object(b"100644"), Err(Error::MissingEntryMode));
    let mut payload = entry(b"100644", b"a", &digest(1));
    payload.extend_from_slice(b"xyz");
    assert_eq!(parse_tree_object(&payload), Err(Error::MissingEntryMode));
}

#[test]
fn tree_entry_without_name() {
    assert_eq!(parse_tree_object(b"100644 a.txt"), Err(Error::MissingEntryName));
    assert_eq!(parse_tree_object(b" "), Err(Error::MissingEntryName));
}

#[test]
fn tree_entry_with_short_digest() {
    let d = digest(1);
    assert_eq!(
        parse_tree_object(&entry(b"100644", b"a.txt", &d[..19])),
        Err(Error::TruncatedEntryHash)
    );
    assert_eq!(parse_tree_object(&entry(b"100644", b"a.txt", b"")), Err(Error::TruncatedEntryHash));
    let mut payload = entry(b"100644", b"a.txt", &d);
    payload.extend(entry(b"40000", b"dir", &d[..7]));
    assert_eq!(parse_tree_object(&payload), Err(Error::TruncatedEntryHash));
}

#[test]
fn tree_short_digest_comes_before_text_checks() {
    assert_eq!(
        parse_tree_object(&entry(b"\xff", b"\xff", &digest(1)[..3])),
        Err(Error::TruncatedEntryHash)
    );
}

#[test]
fn tree_entry_not_utf8() {
    assert_eq!(
        parse_tree_object(&entry(b"1006\xff4", b"a.txt", &digest(1))),
        Err(Error::NonUtf8EntryField(EntryField::Mode))
    );
    assert_eq!(
        parse_tree_object(&entry(b"100644", b"a\xc3.txt", &digest(1))),
        Err(Error::NonUtf8EntryField(EntryField::Name))
    );
    assert_eq!(
        parse_tree_object(&entry(b"\x80", b"\x80", &digest(1))),
        Err(Error::NonUtf8EntryField(EntryField::Mode))
    );
}

#[test]
fn tree_entry_one_at_a_time() {
    let d1 = digest(1);
    let mut payload = entry(b"100644", b"a.txt", &d1);
    let second = entry(b"40000", b"dir", &digest(2));
    payload.extend_from_slice(&second);

    let (first, rest) = parse_tree_entry(&payload).unwrap();
    let first = first.unwrap();
    assert_eq!(first.mode, "100644");
    assert_eq!(first.name, "a.txt");
    assert_eq!(first.cid, sha1_to_cid(&d1).unwrap());
    assert_eq!(rest, &second[..]);

    let (next, rest) = parse_tree_entry(rest).unwrap();
    assert_eq!(next.unwrap().name, "dir");
    assert!(rest.is_empty());

    let (none, rest) = parse_tree_entry(rest).unwrap();
    assert_eq!(none, None);
    assert!(rest.is_empty());
}
