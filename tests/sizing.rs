use disks::sizing::{align_down, align_up, format_position, format_size, is_aligned};

#[test]
fn alignment_snaps_to_nearer_boundary() {
    assert!(is_aligned(4096, 2048));
    assert!(!is_aligned(4097, 2048));
    assert_eq!(align_up(4096, 2048), 4096);
    assert_eq!(align_up(5000, 2048), 4096);
    assert_eq!(align_up(5121, 2048), 6144);
    assert_eq!(align_up(5120, 2048), 4096);
    assert_eq!(align_down(5000, 2048), 4096);
    assert_eq!(align_down(5120, 2048), 6144);
    assert_eq!(align_down(6000, 2048), 6144);
}

#[test]
fn alignment_is_idempotent() {
    for v in [0u64, 1, 1023, 1024, 1025, 2047, 3000, 1 << 30] {
        let a = 1024;
        assert_eq!(align_up(align_up(v, a), a), align_up(v, a));
        assert_eq!(align_down(align_up(v, a), a), align_up(v, a));
        assert_eq!(align_down(align_down(v, a), a), align_down(v, a));
    }
}

#[test]
fn format_size_examples() {
    assert_eq!(format_size(1500), "1.5KiB");
    assert_eq!(format_size(1500000), "1.4MiB");
    assert_eq!(format_size(512), "512B");
    assert_eq!(format_size(0), "0B");
    assert_eq!(format_size(1024 * 1024 * 1024), "1.0GiB");
    assert_eq!(format_size(5 * 1024 * 1024 * 1024 * 1024 / 2), "2.5TiB");
    assert_eq!(format_size(1280), "1.2KiB");
}

#[test]
fn format_position_example() {
    assert_eq!(format_position(500, 1000), "50% (500B)");
    assert_eq!(format_position(0, 0), "0% (0B)");
}
