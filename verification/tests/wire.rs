use glia::wire::{copy_range, push_all, push_be_u64, push_range, read_be_u64, same_bytes};

#[test]
fn numbers_are_written_highest_byte_first() {
    let mut out = vec![9u8];
    push_be_u64(&mut out, 0x0102_0304_0506_0708);
    assert_eq!(out, vec![9, 1, 2, 3, 4, 5, 6, 7, 8]);
    assert_eq!(read_be_u64(&out, 1), 0x0102_0304_0506_0708);
}

#[test]
fn a_number_reads_back_as_it_was_written() {
    for n in [0u64, 1, 255, 256, 65_535, u64::MAX - 1, u64::MAX] {
        let mut out = Vec::new();
        push_be_u64(&mut out, n);
        assert_eq!(out, n.to_be_bytes().to_vec());
        assert_eq!(read_be_u64(&out, 0), n);
    }
}

#[test]
fn ranges_are_copied() {
    let bytes = [1u8, 2, 3, 4, 5];
    assert_eq!(copy_range(&bytes, 1, 4), vec![2, 3, 4]);
    assert_eq!(copy_range(&bytes, 5, 5), Vec::<u8>::new());
    let mut out = vec![0u8];
    push_range(&mut out, &bytes, 3, 5);
    push_all(&mut out, &bytes[..1]);
    assert_eq!(out, vec![0, 4, 5, 1]);
}

#[test]
fn bytes_are_compared_whole() {
    assert!(same_bytes(b"abc", b"abc"));
    assert!(!same_bytes(b"abc", b"abd"));
    assert!(!same_bytes(b"abc", b"ab"));
    assert!(same_bytes(b"", b""));
}
