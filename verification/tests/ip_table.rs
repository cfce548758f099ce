use solana_net_core::ip_table::{is_ip_trusted, AlignedIpTable};
use solana_net_core::lanes::{equal_byte_mask, equal_word_mask};

#[test]
fn no_trusted_address() {
    let table = AlignedIpTable::new();
    assert!(!is_ip_trusted(&table, 0, 0));
    assert!(!is_ip_trusted(&table, 0, 0x7F00_0001));
}

#[test]
fn every_lane_and_step_is_scanned() {
    let mut table = AlignedIpTable::new();
    for i in 0..1024usize {
        table.data[i] = 0x0A00_0000 + i as u32;
    }
    for i in 0..1024usize {
        assert!(is_ip_trusted(&table, 1024, 0x0A00_0000 + i as u32));
        assert!(is_ip_trusted(&table, i + 1, 0x0A00_0000 + i as u32));
        assert!(!is_ip_trusted(&table, i, 0x0A00_0000 + i as u32));
    }
    assert!(!is_ip_trusted(&table, 1024, 0x0A00_0400));
}

#[test]
fn lanes_past_the_count_are_not_trusted() {
    let mut table = AlignedIpTable::new();
    table.data[0] = 0xC0A8_0001;
    table.data[1] = 0xC0A8_0002;
    assert!(is_ip_trusted(&table, 1, 0xC0A8_0001));
    assert!(!is_ip_trusted(&table, 1, 0xC0A8_0002));
    assert!(!is_ip_trusted(&table, 1, 0));
    assert!(is_ip_trusted(&table, 2, 0xC0A8_0002));
    assert!(is_ip_trusted(&table, 3, 0));
}

#[test]
fn byte_mask_values() {
    let a = [7u8; 32];
    let mut b = [8u8; 32];
    assert_eq!(equal_byte_mask(&a, &b, &a), 0x0000_0000_FFFF_FFFF);
    assert_eq!(equal_byte_mask(&b, &a, &a), 0xFFFF_FFFF_0000_0000);
    assert_eq!(equal_byte_mask(&a, &a, &a), u64::MAX);
    assert_eq!(equal_byte_mask(&b, &b, &a), 0);
    b[5] = 7;
    assert_eq!(equal_byte_mask(&b, &a, &a), 0xFFFF_FFFF_0000_0020);
}

#[test]
fn word_mask_values() {
    let mut words = [0u32; 1024];
    words[100] = 9;
    words[115] = 9;
    assert_eq!(equal_word_mask(&words, 100, 16, 9), 0x8001);
    assert_eq!(equal_word_mask(&words, 100, 15, 9), 0x0001);
    assert_eq!(equal_word_mask(&words, 1008, 16, 0), 0xFFFF);
}
