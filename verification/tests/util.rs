use craftio::util::get_sized_buf;

#[test]
fn grows_an_empty_buffer_with_zeroes() {
    let mut buf = Vec::new();
    {
        let target = get_sized_buf(&mut buf, 2, 3);
        assert_eq!(target, &[0, 0, 0]);
        target.copy_from_slice(&[7, 8, 9]);
    }
    assert_eq!(buf, vec![0, 0, 7, 8, 9]);
}

#[test]
fn never_shrinks_and_never_moves() {
    let mut buf = vec![1u8, 2, 3, 4, 5, 6];
    {
        let target = get_sized_buf(&mut buf, 1, 2);
        assert_eq!(target, &[2, 3]);
        target[0] = 0xaa;
    }
    assert_eq!(buf, vec![1, 0xaa, 3, 4, 5, 6]);
    assert_eq!(get_sized_buf(&mut buf, 4, 4), &[5, 6, 0, 0]);
    assert_eq!(buf, vec![1, 0xaa, 3, 4, 5, 6, 0, 0]);
}

#[test]
fn an_empty_slice_at_the_end() {
    let mut buf = vec![1u8, 2];
    assert!(get_sized_buf(&mut buf, 2, 0).is_empty());
    assert_eq!(buf, vec![1, 2]);
    assert!(get_sized_buf(&mut buf, 5, 0).is_empty());
    assert_eq!(buf, vec![1, 2, 0, 0, 0]);
}

#[test]
fn fill_copies() {
    let mut dst = [0u8; 4];
    craftio::util::fill(&mut dst, &[9, 8, 7, 6]);
    assert_eq!(dst, [9, 8, 7, 6]);
    let mut none: [u8; 0] = [];
    craftio::util::fill(&mut none, &[]);
}
