use radioband::wire::{bit_rev, num_to_be, num_to_le};

#[test]
fn numbers_are_encoded_in_both_byte_orders() {
    assert_eq!(num_to_le(0x0210, 2), vec![0x10, 0x02]);
    assert_eq!(num_to_be(0x0210, 2), vec![0x02, 0x10]);
    assert_eq!(num_to_le(0x1234_5678, 4), vec![0x78, 0x56, 0x34, 0x12]);
    assert_eq!(num_to_be(0x1234_5678, 4), vec![0x12, 0x34, 0x56, 0x78]);
    assert_eq!(num_to_be(0x1234_5678, 1), vec![0x78]);
    assert_eq!(num_to_le(7, 0), Vec::<u8>::new());
}

#[test]
fn bit_reversal_matches_the_machine_for_every_byte() {
    for b in 0..=255u8 {
        assert_eq!(bit_rev(b), b.reverse_bits());
        assert_eq!(bit_rev(bit_rev(b)), b);
    }
}
