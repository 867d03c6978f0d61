use paraboloid::{generate_mesh, get_mesh_buffer, rotate_mesh, BufferStore, MAX_HEIGHT, MAX_WIDTH, MESH_SIZE};

fn paraboloid_sample(nx_pts: u32, ny_pts: u32) -> impl Fn(u32, u32) -> (f32, f32, f32) {
    let dx = 2.0f32 / ((nx_pts - 1) as f32);
    let dy = 2.0f32 / ((ny_pts - 1) as f32);
    move |i, j| {
        let x = -1.0f32 + (i as f32) * dx;
        let y = -1.0f32 + (j as f32) * dy;
        (x, y, x * x + 2.0 * y * y - 2.0)
    }
}

#[test]
fn two_by_two_corners() {
    let mut buf = vec![f32::NAN; 15];
    generate_mesh(&mut buf, 2, 2, paraboloid_sample(2, 2));
    let expected = [
        -1.0f32, -1.0, 1.0, //
        1.0, -1.0, 1.0, //
        -1.0, 1.0, 1.0, //
        1.0, 1.0, 1.0,
    ];
    for k in 0..12 {
        assert!((buf[k] - expected[k]).abs() < 1e-6, "slot {}", k);
    }
    assert!(buf[12..].iter().all(|v| v.is_nan()));
}

#[test]
fn row_major_layout() {
    let mut flat = vec![0u32; 3 * 4 * 3];
    generate_mesh(&mut flat, 4, 3, |x, y| (x, y, 10 * y + x));
    for y in 0..3u32 {
        for x in 0..4u32 {
            let b = (3 * (y * 4 + x)) as usize;
            assert_eq!((flat[b], flat[b + 1], flat[b + 2]), (x, y, 10 * y + x));
        }
    }
}

#[test]
fn oversized_mesh_writes_nothing() {
    let mut buf = vec![5u32; 30];
    generate_mesh(&mut buf, MAX_WIDTH + 1, 2, |x, y| (x, y, 0));
    generate_mesh(&mut buf, 2, MAX_HEIGHT + 1, |x, y| (x, y, 0));
    assert!(buf.iter().all(|&v| v == 5));
}

#[test]
fn rotation_maps_pairs_and_keeps_z() {
    let mut buf = vec![1i32, 2, 3, 4, 5, 6, 7, 8, 9];
    rotate_mesh(&mut buf, 2, |x, y| (-y, x));
    assert_eq!(buf, vec![-2, 1, 3, -5, 4, 6, 7, 8, 9]);
}

#[test]
fn identity_rotation_changes_nothing() {
    let mut buf = vec![0.5f32, -0.25, 3.0, 1.0, 2.0, -1.0];
    let before = buf.clone();
    rotate_mesh(&mut buf, 2, |x, y| (1.0 * x - 0.0 * y, 1.0 * y + 0.0 * x));
    assert_eq!(buf, before);
}

#[test]
fn zero_points_rotates_nothing() {
    let mut buf = vec![1u8, 2, 3];
    rotate_mesh(&mut buf, 0, |_, _| (0, 0));
    assert_eq!(buf, vec![1, 2, 3]);
}

#[test]
fn store_mesh_buffer() {
    let mut store: BufferStore<f32> = BufferStore::new(0.0);
    assert_eq!(get_mesh_buffer(&store).len(), MESH_SIZE);
    store.generate_mesh(2, 2, paraboloid_sample(2, 2));
    assert_eq!(&get_mesh_buffer(&store)[..6], &[-1.0, -1.0, 1.0, 1.0, -1.0, 1.0]);
    assert_eq!(get_mesh_buffer(&store)[12], 0.0);
    store.rotate_mesh(4, |x, y| (y, x));
    assert_eq!(&get_mesh_buffer(&store)[..6], &[-1.0, -1.0, 1.0, -1.0, 1.0, 1.0]);
    assert_eq!(get_mesh_buffer(&store).len(), MESH_SIZE);
}
