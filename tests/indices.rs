use paraboloid::{generate_indices, BufferStore, get_index_buffer, INDEX_SIZE, MAX_HEIGHT, MAX_WIDTH};

fn count(w: u32, h: u32) -> usize {
    (2 * (2 * w * h - w - h)) as usize
}

#[test]
fn three_by_two_pairs_in_order() {
    let mut buf = vec![u32::MAX; 20];
    generate_indices(&mut buf, 3, 2);
    let expected: Vec<u32> = vec![0, 3, 0, 1, 1, 4, 1, 2, 2, 5, 3, 4, 4, 5];
    assert_eq!(&buf[..14], &expected[..]);
    assert!(buf[14..].iter().all(|&v| v == u32::MAX));
}

#[test]
fn corner_ids_of_three_by_two() {
    let mut buf = vec![0u32; count(3, 2)];
    generate_indices(&mut buf, 3, 2);
    let pairs: Vec<(u32, u32)> = buf.chunks(2).map(|c| (c[0], c[1])).collect();
    let from_zero: Vec<(u32, u32)> = pairs.iter().copied().filter(|p| p.0 == 0).collect();
    assert_eq!(from_zero, vec![(0, 3), (0, 1)]);
    assert!(pairs.iter().all(|p| p.0 != 5));
}

#[test]
fn entry_count_and_range() {
    for &(w, h) in &[(2u32, 2u32), (3, 2), (2, 3), (7, 5), (16, 9), (100, 3)] {
        let n = count(w, h);
        let mut buf = vec![u32::MAX; n + 6];
        generate_indices(&mut buf, w, h);
        assert!(buf[..n].iter().all(|&v| v < w * h), "ids out of range for {}x{}", w, h);
        assert!(buf[n..].iter().all(|&v| v == u32::MAX), "wrote past the list for {}x{}", w, h);
    }
}

#[test]
fn two_by_two_is_a_square() {
    let mut buf = vec![0u32; 8];
    generate_indices(&mut buf, 2, 2);
    assert_eq!(buf, vec![0, 2, 0, 1, 1, 3, 2, 3]);
}

#[test]
fn single_column_and_single_point() {
    let mut buf = vec![9u32; 6];
    generate_indices(&mut buf, 1, 3);
    assert_eq!(buf, vec![0, 1, 1, 2, 9, 9]);
    let mut one = vec![9u32; 2];
    generate_indices(&mut one, 1, 1);
    assert_eq!(one, vec![9, 9]);
}

#[test]
fn oversized_grid_writes_nothing() {
    let mut buf = vec![7u32; 64];
    generate_indices(&mut buf, MAX_WIDTH + 1, 2);
    assert!(buf.iter().all(|&v| v == 7));
    generate_indices(&mut buf, 2, MAX_HEIGHT + 1);
    assert!(buf.iter().all(|&v| v == 7));
}

#[test]
fn largest_grid_fills_index_capacity() {
    assert_eq!(count(MAX_WIDTH, MAX_HEIGHT), INDEX_SIZE);
    let mut buf = vec![u32::MAX; INDEX_SIZE];
    generate_indices(&mut buf, MAX_WIDTH, MAX_HEIGHT);
    assert!(buf.iter().all(|&v| v < MAX_WIDTH * MAX_HEIGHT));
    let last = INDEX_SIZE - 2;
    assert_eq!((buf[last], buf[last + 1]), (MAX_WIDTH * MAX_HEIGHT - 2, MAX_WIDTH * MAX_HEIGHT - 1));
}

#[test]
fn store_index_buffer() {
    let mut store: BufferStore<u8> = BufferStore::new(0);
    assert_eq!(get_index_buffer(&store).len(), INDEX_SIZE);
    assert!(get_index_buffer(&store).iter().all(|&v| v == 0));
    store.generate_indices(3, 2);
    assert_eq!(&get_index_buffer(&store)[..4], &[0, 3, 0, 1]);
    store.generate_indices(MAX_WIDTH + 5, 3);
    assert_eq!(&get_index_buffer(&store)[..4], &[0, 3, 0, 1]);
    assert_eq!(get_index_buffer(&store).len(), INDEX_SIZE);
}
