use citybound::rng_pool::{splitmix64, splitmix64_block, GOLDEN_GAMMA, RNG_POOL_SIZE};

#[test]
fn test_splitmix64() {
    let mut state = 42;
    let v1 = splitmix64(&mut state);
    let v2 = splitmix64(&mut state);
    assert_ne!(v1, v2);
}

#[test]
fn splitmix64_known_outputs() {
    let mut state = 42u64;
    assert_eq!(splitmix64(&mut state), 0xbdd7_3226_2feb_6e95);
    assert_eq!(state, 0x9e37_79b9_7f4a_7c3f);
    assert_eq!(splitmix64(&mut state), 0x28ef_e333_b266_f103);
    assert_eq!(state, 0x3c6e_f372_fe94_f854);
}

#[test]
fn splitmix64_state_wraps() {
    let mut state = u64::MAX;
    assert_eq!(splitmix64(&mut state), 0xe4d9_7177_1b65_2c20);
    assert_eq!(state, GOLDEN_GAMMA - 1);
}

#[test]
fn block_of_outputs_from_a_seed() {
    let block = splitmix64_block(0, 3);
    assert_eq!(block, vec![0xe220_a839_7b1d_cdaf, 0x6e78_9e6a_a1b9_65f4, 0x06c4_5d18_8009_454f]);
    let pool = splitmix64_block(12345, RNG_POOL_SIZE);
    assert_eq!(pool.len(), RNG_POOL_SIZE);
    let mut state = 12345u64;
    for v in pool.iter().take(10) {
        assert_eq!(*v, splitmix64(&mut state));
    }
}
