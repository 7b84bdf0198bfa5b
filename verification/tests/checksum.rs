use netutils::Checksum;

#[test]
fn sum_adds_words_low_octet_first() {
    assert_eq!(Checksum::sum(&[]), 0);
    assert_eq!(Checksum::sum(&[0x12]), 0x12);
    assert_eq!(Checksum::sum(&[0x34, 0x12]), 0x1234);
    assert_eq!(Checksum::sum(&[0x01, 0x02, 0x03]), 0x0204);
    assert_eq!(Checksum::sum(&[0xFF, 0xFF, 0xFF, 0xFF]), 0x1FFFE);
    assert_eq!(Checksum::sum(&[0x7F, 0x00, 0x00, 0x01]), 0x017F);
}

#[test]
fn sum_does_not_fold() {
    let region = [0xFFu8; 4096];
    assert_eq!(Checksum::sum(&region), 2048 * 0xFFFF);
    assert_eq!(Checksum::sum_wide(&region), 2048 * 0xFFFF);
}

#[test]
fn sum_of_regions_is_the_sum_of_their_sums() {
    let a = [1u8, 2, 3, 4, 5, 6];
    let b = [7u8, 8, 9];
    let mut whole = a.to_vec();
    whole.extend_from_slice(&b);
    assert_eq!(Checksum::sum(&whole), Checksum::sum(&a) + Checksum::sum(&b));
    assert_eq!(
        Checksum::compile(Checksum::sum(&whole)),
        Checksum::compile(Checksum::sum(&a) + Checksum::sum(&b))
    );
}

#[test]
fn compile_folds_and_complements() {
    assert_eq!(Checksum::compile(0), 0xFFFF);
    assert_eq!(Checksum::compile(1), 0xFFFE);
    assert_eq!(Checksum::compile(0xFFFF), 0);
    assert_eq!(Checksum::compile(0x1_0000), 0xFFFE);
    assert_eq!(Checksum::compile(0x1_FFFF), 0xFFFE);
    assert_eq!(Checksum::compile(0x1_3963), 0xC69B);
    assert_eq!(Checksum::compile(0xFFFF_0000), 0);
    assert_eq!(Checksum::compile(0x2_9E45), 0x61B8);
}

#[test]
fn compile_needs_more_than_one_pass_where_folding_carries() {
    // 0xFFFF + 0xFFFF folds to 0x1FFFE, which carries again.
    assert_eq!(Checksum::compile(0xFFFF_FFFF), 0);
    assert_eq!(Checksum::compile_wide(0xFFFF_FFFF_FFFF_FFFF_FFFF), 0);
    assert_eq!(Checksum::compile_wide(0x1_0000_0000_0000_0000), 0xFFFE);
}

#[test]
fn compile_of_a_folded_sum_is_its_complement() {
    for sum in [0usize, 1, 2, 0x00FF, 0x0100, 0x7FFF, 0x8000, 0xFFFE, 0xFFFF] {
        assert_eq!(Checksum::compile(sum) as usize, 0xFFFF - sum);
    }
}

#[test]
fn compile_agrees_on_a_sum_and_its_fold() {
    for sum in [0x1_0000usize, 0x1_0001, 0x2_9E45, 0xABCD_EF01, 0x1234_5678] {
        let folded_once = (sum & 0xFFFF) + (sum >> 16);
        assert_eq!(Checksum::compile(sum), Checksum::compile(folded_once));
        let folded = 0xFFFF - Checksum::compile(sum) as usize;
        assert_eq!(Checksum::compile(folded), Checksum::compile(sum));
    }
}

#[test]
fn a_region_with_its_checksum_sums_to_all_ones() {
    for sum in [0usize, 1, 0xFFFF, 0x1_0000, 0x2_9E45, 0x4_4089, 0xFFFF_FFFF] {
        let check = Checksum::compile(sum) as usize;
        assert_eq!(Checksum::compile(sum + check), 0);
    }
}

#[test]
fn checksum_field_travels_low_octet_first() {
    let mut out = Vec::new();
    Checksum { data: 0xC69B }.append_to(&mut out);
    assert_eq!(out, vec![0x9B, 0xC6]);
    assert_eq!(Checksum::from_wire(0x9B, 0xC6).data, 0xC69B);
    assert_eq!(Checksum::sum(&out), 0xC69B);
}

fn network_checksum(region: &[u8]) -> u16 {
    let mut sum: u64 = 0;
    for pair in region.chunks(2) {
        let high = pair[0] as u64;
        let low = if pair.len() == 2 { pair[1] as u64 } else { 0 };
        sum += high * 256 + low;
    }
    while sum >> 16 != 0 {
        sum = (sum & 0xFFFF) + (sum >> 16);
    }
    0xFFFF - sum as u16
}

#[test]
fn the_field_on_the_wire_is_the_checksum_in_network_byte_order() {
    let regions: [&[u8]; 6] = [
        &[],
        &[0x01],
        &[0x45, 0x00, 0x00, 0x73, 0x00, 0x00, 0x40, 0x00, 0x40, 0x11],
        &[0xFF; 7],
        &[0x00; 9],
        b"The quick brown fox jumps over the lazy dog",
    ];
    for region in regions {
        let field = Checksum { data: Checksum::compile(Checksum::sum(region)) };
        let mut wire = Vec::new();
        field.append_to(&mut wire);
        assert_eq!(wire, network_checksum(region).to_be_bytes().to_vec());
    }
}
