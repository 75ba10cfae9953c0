use citybound::terrain::{hash_2d_bits, TERRAIN_SIZE};

#[test]
fn lattice_hash_values() {
    assert_eq!(hash_2d_bits(0, 0, 0), 0);
    assert_eq!(hash_2d_bits(1, 0, 0), 0x8214_71d6);
    assert_eq!(hash_2d_bits(3, 7, 42), 0x52aa_02e1);
    assert_eq!(hash_2d_bits(u32::MAX, u32::MAX, u32::MAX), 0xe49a_6be0);
}

#[test]
fn lattice_hash_is_deterministic_and_salted() {
    assert_eq!(hash_2d_bits(5, 9, 1234), hash_2d_bits(5, 9, 1234));
    assert_ne!(hash_2d_bits(5, 9, 1234), hash_2d_bits(5, 9, 1235));
    assert_eq!(TERRAIN_SIZE, 128);
}
