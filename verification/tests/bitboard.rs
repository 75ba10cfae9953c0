use citybound::bitboard::{Bitboard64, BitGrid, BitIterator};

fn collect_bits(mut it: BitIterator) -> Vec<u8> {
    let mut out = Vec::new();
    while let Some(b) = it.next() {
        out.push(b);
    }
    out
}

#[test]
fn test_bitboard_set_clear_test() {
    let mut bb = Bitboard64::empty();
    assert!(!bb.test(0, 0));
    bb.set(0, 0);
    assert!(bb.test(0, 0));
    assert_eq!(bb.count(), 1);
    bb.clear(0, 0);
    assert!(!bb.test(0, 0));
    assert_eq!(bb.count(), 0);
}

#[test]
fn test_bitboard_full() {
    let mut bb = Bitboard64::empty();
    for y in 0..8u8 {
        for x in 0..8u8 {
            bb.set(x, y);
        }
    }
    assert_eq!(bb, Bitboard64::full());
    assert_eq!(bb.count(), 64);
}

#[test]
fn test_bitboard_operations() {
    let mut a = Bitboard64::empty();
    a.set(0, 0);
    a.set(1, 1);

    let mut b = Bitboard64::empty();
    b.set(0, 0);
    b.set(2, 2);

    assert_eq!(a.bitand(b).count(), 1);
    assert_eq!(a.bitor(b).count(), 3);
    assert_eq!(a.bitxor(b).count(), 2);
}

#[test]
fn test_bit_iterator() {
    let mut bb = Bitboard64::empty();
    bb.set(3, 5);
    bb.set(7, 0);
    bb.set(0, 7);

    let bits = collect_bits(bb.iter_set());
    assert_eq!(bits.len(), 3);
}

#[test]
fn test_first_set() {
    let mut bb = Bitboard64::empty();
    assert_eq!(bb.first_set(), None);

    bb.set(5, 0);
    assert_eq!(bb.first_set(), Some(5));

    bb.set(0, 0);
    assert_eq!(bb.first_set(), Some(0));
}

#[test]
fn test_bit_grid_set_test() {
    let mut grid = BitGrid::new();

    grid.set(0, 10, 20);
    assert!(grid.test(0, 10, 20));
    assert!(!grid.test(0, 10, 21));

    grid.set(5, 64, 64);
    assert!(grid.test(5, 64, 64));
    assert!(!grid.test(0, 64, 64));

    grid.clear(0, 10, 20);
    assert!(!grid.test(0, 10, 20));
}

#[test]
fn test_bit_grid_clear_layer() {
    let mut grid = BitGrid::new();

    for i in 0..100usize {
        grid.set(3, i, i);
    }

    let before = grid.count_layer(3);
    assert!(before >= 100);

    grid.clear_layer(3);
    assert_eq!(grid.count_layer(3), 0);
}

#[test]
fn test_bit_grid_layers_intersect() {
    let mut grid = BitGrid::new();

    grid.set(0, 5, 5);
    grid.set(1, 5, 5);
    grid.set(1, 10, 10);

    assert!(grid.layers_intersect(0, 1));
    assert!(!grid.layers_intersect(0, 5));
}

#[test]
fn test_bit_grid_query_layer() {
    let mut grid = BitGrid::new();

    grid.set(2, 10, 10);
    grid.set(2, 20, 30);
    grid.set(2, 100, 100);

    let cells = grid.query_layer(2);
    assert_eq!(cells.len(), 3);
    assert!(cells.contains(&(10, 10)));
    assert!(cells.contains(&(20, 30)));
    assert!(cells.contains(&(100, 100)));
}

#[test]
fn test_bit_grid_is_obstacle() {
    let mut grid = BitGrid::new();

    grid.set(0, 50, 50);
    assert!(grid.is_obstacle(50, 50));
    assert!(!grid.is_obstacle(51, 51));
}

#[test]
fn test_world_to_bit() {
    let (block, bx, by) = BitGrid::world_to_bit(0, 0);
    assert_eq!(block, 0);
    assert_eq!(bx, 0);
    assert_eq!(by, 0);

    let (block, bx, by) = BitGrid::world_to_bit(8, 0);
    assert_eq!(block, 1);
    assert_eq!(bx, 0);
    assert_eq!(by, 0);

    let (block, bx, by) = BitGrid::world_to_bit(7, 15);
    assert_eq!(block, 16);
    assert_eq!(bx, 7);
    assert_eq!(by, 7);
}

#[test]
fn bit_iterator_yields_bits_lowest_first() {
    let mut bb = Bitboard64::empty();
    bb.set(3, 5);
    bb.set(7, 0);
    bb.set(0, 7);
    let bits = collect_bits(bb.iter_set());
    assert_eq!(bits, vec![7, 43, 56]);
}

#[test]
fn bitboard_not_and_is_empty() {
    let e = Bitboard64::empty();
    assert!(e.is_empty());
    assert_eq!(e.not(), Bitboard64::full());
    assert!(!Bitboard64::full().is_empty());
}

#[test]
fn query_layer_lists_cells_block_by_block() {
    let mut grid = BitGrid::new();
    grid.set(4, 100, 100);
    grid.set(4, 3, 1);
    grid.set(4, 0, 2);
    assert_eq!(grid.query_layer(4), vec![(3, 1), (0, 2), (100, 100)]);
}

#[test]
fn bit_grid_coordinates_wrap_onto_the_map() {
    let mut grid = BitGrid::new();
    grid.set(1, 130, 2);
    assert!(grid.test(1, 2, 2));
    assert_eq!(grid.count_layer(1), 1);
}

#[test]
fn query_layer_returns_as_many_cells_as_count_layer() {
    let mut grid = BitGrid::new();
    grid.set(2, 0, 0);
    grid.set(2, 9, 3);
    grid.set(2, 127, 127);
    grid.set(2, 64, 17);
    grid.set(3, 5, 5);
    let cells = grid.query_layer(2);
    assert_eq!(cells.len(), 4);
    assert_eq!(cells.len(), grid.count_layer(2) as usize);
    assert_eq!(grid.query_layer(4).len(), grid.count_layer(4) as usize);
}

#[test]
fn iteration_yields_each_set_bit_once_and_size_hint_matches_count() {
    let mut bb = Bitboard64::empty();
    bb.set(3, 5);
    bb.set(7, 0);
    bb.set(0, 7);
    let it = bb.iter_set();
    assert_eq!(it.size_hint(), (3, Some(3)));
    let bits = collect_bits(it);
    assert_eq!(bits, vec![7, 43, 56]);
    assert_eq!(bits.len(), bb.count() as usize);
}
