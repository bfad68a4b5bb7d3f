use read_with::ChunkCursor;

#[test]
fn fresh_cursor_needs_a_chunk() {
    let c = ChunkCursor::new();
    assert!(!c.ended());
    assert!(c.needs_chunk());
}

#[test]
fn copy_out_takes_what_fits_and_keeps_the_rest() {
    let mut c = ChunkCursor::new();
    c.accept(Some(b"abcde".to_vec()));
    assert!(!c.needs_chunk());
    let mut buf = [b'.'; 4];
    assert_eq!(c.copy_out(&mut buf, 1), 3);
    assert_eq!(&buf, b".abc");
    assert!(!c.needs_chunk());
    let mut buf = [b'.'; 4];
    assert_eq!(c.copy_out(&mut buf, 0), 2);
    assert_eq!(&buf, b"de..");
    assert!(c.needs_chunk());
}

#[test]
fn copy_out_with_no_room_copies_nothing() {
    let mut c = ChunkCursor::new();
    c.accept(Some(b"xy".to_vec()));
    let mut buf = [0u8; 2];
    assert_eq!(c.copy_out(&mut buf, 2), 0);
    assert_eq!(buf, [0u8; 2]);
    assert!(!c.needs_chunk());
}

#[test]
fn empty_chunk_is_not_the_end() {
    let mut c = ChunkCursor::new();
    c.accept(Some(Vec::new()));
    assert!(!c.ended());
    assert!(c.needs_chunk());
    let mut buf = [9u8; 3];
    assert_eq!(c.copy_out(&mut buf, 0), 0);
    assert_eq!(buf, [9u8; 3]);
    c.accept(Some(b"q".to_vec()));
    assert_eq!(c.copy_out(&mut buf, 0), 1);
    assert_eq!(buf[0], b'q');
}

#[test]
fn end_of_data_is_final() {
    let mut c = ChunkCursor::new();
    c.accept(Some(b"z".to_vec()));
    let mut buf = [0u8; 1];
    assert_eq!(c.copy_out(&mut buf, 0), 1);
    c.accept(None);
    assert!(c.ended());
    assert!(!c.needs_chunk());
}
