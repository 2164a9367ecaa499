use lumina::buffer::get_alignment;

#[test]
fn rounds_up_to_the_alignment() {
    assert_eq!(get_alignment(100, 64), 128);
    assert_eq!(get_alignment(128, 64), 128);
    assert_eq!(get_alignment(1, 256), 256);
    assert_eq!(get_alignment(0, 16), 0);
}

#[test]
fn no_alignment_keeps_the_size() {
    assert_eq!(get_alignment(100, 0), 100);
}
