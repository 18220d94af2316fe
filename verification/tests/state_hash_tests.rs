use mtg_forge_rs::state_hash::format_hash;

#[test]
fn format_hash_shows_upper_half() {
    assert_eq!(format_hash(0x0123_4567_89ab_cdef), "01234567");
    assert_eq!(format_hash(0xffff_ffff_0000_0000), "ffffffff");
    assert_eq!(format_hash(0x0000_0000_ffff_ffff), "00000000");
    assert_eq!(format_hash(0x0000_00a0_0000_0000), "000000a0");
}
