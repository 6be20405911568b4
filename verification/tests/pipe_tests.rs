use hot::pipe::Pipe;

#[test]
fn capacity_is_as_requested() {
    let p = Pipe::with_capacity(4096);
    assert_eq!(p.capacity(), 4096);
}

#[test]
fn transfer_hands_back_exactly_the_chunk() {
    let mut p = Pipe::with_capacity(16);
    let out = p.transfer(b"hello");
    assert_eq!(out, b"hello".to_vec());
}

#[test]
fn empty_read_is_an_empty_write() {
    let mut p = Pipe::with_capacity(16);
    let out = p.transfer(b"");
    assert!(out.is_empty());
}

#[test]
fn buffer_is_reused_without_leaking_older_bytes() {
    // a shorter later chunk must not drag remnants of an earlier one along
    let mut p = Pipe::with_capacity(8);
    let first = p.transfer(b"abcdef");
    assert_eq!(first, b"abcdef".to_vec());
    let second = p.transfer(b"xy");
    assert_eq!(second, b"xy".to_vec());
}

#[test]
fn chunks_concatenate_in_order() {
    let mut p = Pipe::with_capacity(4);
    let chunks: [&[u8]; 3] = [b"ab", b"cd", b"e"];
    let mut relayed: Vec<u8> = Vec::new();
    for c in chunks {
        relayed.extend(p.transfer(c));
    }
    assert_eq!(relayed, b"abcde".to_vec());
}

#[test]
fn full_capacity_chunk_fits() {
    let mut p = Pipe::with_capacity(4);
    let out = p.transfer(b"wxyz");
    assert_eq!(out, b"wxyz".to_vec());
}
