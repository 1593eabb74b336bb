use ipld_git::util::{bytes_eq, cleave_out_at_value};

#[test]
fn cleave_at_first_occurrence() {
    let (before, after) = cleave_out_at_value(b"ab cd ef", b' ').unwrap();
    assert_eq!(before, b"ab");
    assert_eq!(after, b"cd ef");
}

#[test]
fn cleave_sentinel_at_start() {
    let (before, after) = cleave_out_at_value(b"\0rest", 0).unwrap();
    assert_eq!(before, b"");
    assert_eq!(after, b"rest");
}

#[test]
fn cleave_sentinel_at_end() {
    let (before, after) = cleave_out_at_value(b"line\n", b'\n').unwrap();
    assert_eq!(before, b"line");
    assert_eq!(after, b"");
}

#[test]
fn cleave_sentinel_alone() {
    let (before, after) = cleave_out_at_value(b"<", b'<').unwrap();
    assert!(before.is_empty());
    assert!(after.is_empty());
}

#[test]
fn cleave_sentinel_absent() {
    assert_eq!(cleave_out_at_value(b"no-space-here", b' '), None);
    assert_eq!(cleave_out_at_value(b"", b' '), None);
}

#[test]
fn cleave_parts_rebuild_the_buffer() {
    let buf = b"tree 12\0payload with \0 inside";
    let (before, after) = cleave_out_at_value(buf, 0).unwrap();
    assert!(!before.contains(&0));
    let mut rebuilt = before.to_vec();
    rebuilt.push(0);
    rebuilt.extend_from_slice(after);
    assert_eq!(&rebuilt[..], &buf[..]);
}

#[test]
fn bytes_eq_compares_contents() {
    assert!(bytes_eq(b"", b""));
    assert!(bytes_eq(b"tree", b"tree"));
    assert!(!bytes_eq(b"tree", b"tred"));
    assert!(!bytes_eq(b"tree", b"tre"));
    assert!(!bytes_eq(b"tre", b"tree"));
}
