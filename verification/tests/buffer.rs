use disk_write_bench::buffer::fill_pattern;

#[test]
fn the_pattern_counts_modulo_251() {
    let mut buf = vec![7u8; 4096];
    fill_pattern(&mut buf);
    for i in 0..4096usize {
        assert_eq!(buf[i] as usize, i % 251);
    }
    fill_pattern(&mut []);
}

#[test]
fn the_pattern_is_not_all_zero() {
    let mut buf = [0u8; 2];
    fill_pattern(&mut buf);
    assert_eq!(buf, [0, 1]);
}
