use flurry::grid::{Flut, Grid};

#[test]
fn test_grid_init_values() {
    let grid = Flut::init(3, 3, 0);
    assert_eq!(grid.cells().clone(), vec![0, 0, 0, 0, 0, 0, 0, 0, 0]);
}

#[test]
fn test_grid_init_size() {
    let grid = Flut::init(800, 600, 0);
    let (x, y) = grid.get_size();
    assert_eq!(x, 800);
    assert_eq!(y, 600);
}

#[test]
fn test_grid_set() {
    let mut grid = Flut::init(3, 3, 0);
    grid.set(1, 1, 255);
    grid.set(2, 1, 256);
    assert_eq!(grid.cells().clone(), vec![0, 0, 0, 0, 255, 256, 0, 0, 0]);
}

#[test]
fn test_grid_set_out_of_range() {
    let mut grid = Flut::init(3, 3, 0);
    grid.set(1, 1, 255);
    grid.set(3, 1, 256);
    assert_eq!(grid.cells().clone(), vec![0, 0, 0, 0, 255, 0, 0, 0, 0]);
}

#[test]
fn test_grid_get() {
    let mut grid = Flut::init(3, 3, 0);
    grid.set(1, 2, 222);
    assert_eq!(grid.get(1, 2), Some(&222));
}

#[test]
fn test_grid_get_out_of_range() {
    let mut grid = Flut::init(3, 3, 0);
    grid.set(3, 1, 256);
    assert_eq!(grid.get(3, 1), None);
    assert_eq!(grid.get(1, 2), Some(&0));
}

#[test]
fn grid_get_after_set_with_other_writes_between() {
    let mut grid = Flut::init(4, 2, 7u32);
    grid.set(3, 1, 0xAABBCCFF);
    grid.set(0, 0, 1);
    grid.set(2, 1, 2);
    assert_eq!(grid.get(3, 1), Some(&0xAABBCCFF));
    assert_eq!(grid.get_unchecked(3, 1), &0xAABBCCFF);
}

#[test]
fn grid_out_of_bounds_is_noop_and_none() {
    let mut grid = Flut::init(2, 2, 5u32);
    let before = grid.cells().clone();
    grid.set(2, 0, 9);
    grid.set(0, 2, 9);
    grid.set(65535, 65535, 9);
    assert_eq!(grid.cells().clone(), before);
    assert_eq!(grid.get(2, 0), None);
    assert_eq!(grid.get(0, 2), None);
}

#[test]
fn grid_empty_canvas() {
    let grid = Flut::init(0, 0, 1u32);
    assert!(grid.cells().is_empty());
    assert_eq!(grid.get(0, 0), None);
}

#[test]
fn content_hash_changes_with_cells() {
    let mut grid = Flut::init(2, 2, 0u32);
    let h0 = grid.content_hash();
    assert_eq!(Flut::init(2, 2, 0u32).content_hash(), h0);
    grid.set(1, 1, 5);
    assert_ne!(grid.content_hash(), h0);
}

#[test]
fn content_hash_of_empty_is_offset() {
    let grid = Flut::init(0, 3, 0u32);
    assert_eq!(grid.content_hash(), 0xcbf29ce484222325);
}

#[test]
fn check_changed_records_hash() {
    let mut grid = Flut::init(2, 1, 0u32);
    assert!(grid.check_changed());
    assert!(!grid.check_changed());
    grid.set(0, 0, 3);
    assert!(grid.check_changed());
}

#[test]
fn render_rgb_drops_alpha() {
    let mut grid = Flut::init(2, 1, 0u32);
    grid.set(0, 0, 0x11223344);
    grid.set(1, 0, 0xAABBCCDD);
    assert_eq!(grid.render_rgb(), vec![0x11, 0x22, 0x33, 0xAA, 0xBB, 0xCC]);
}

#[test]
fn snapshot_hash_matches_grid_after_tick() {
    let mut grid = Flut::init(16, 8, 0xff00ffffu32);
    assert!(grid.read_jpg_buffer().is_empty());
    assert_eq!(grid.update_jpg_buffer(), Ok(true));
    let jpeg = grid.read_jpg_buffer().clone();
    assert_eq!(&jpeg[0..3], &[0xFF, 0xD8, 0xFF]);
    assert!(!grid.check_changed());
    assert_eq!(grid.update_jpg_buffer(), Ok(false));
    assert_eq!(grid.read_jpg_buffer().clone(), jpeg);
    grid.set(3, 3, 0);
    assert_eq!(grid.update_jpg_buffer(), Ok(true));
    assert!(!grid.check_changed());
}

#[test]
fn snapshot_of_empty_canvas_fails_to_encode() {
    let mut grid = Flut::init(0, 0, 0u32);
    assert_eq!(
        grid.update_jpg_buffer(),
        Err(flurry::grid::SnapshotError::EncodeError)
    );
    assert!(grid.read_jpg_buffer().is_empty());
}

#[test]
fn snapshot_of_oversized_canvas_is_refused() {
    let mut grid = Flut::init(70000, 1, 0u32);
    assert_eq!(
        grid.update_jpg_buffer(),
        Err(flurry::grid::SnapshotError::TooLarge)
    );
}

#[test]
fn blame_map_records_last_writer() {
    let mut blame = flurry::blame::BlameMap::new(3, 2);
    assert_eq!(blame.dimensions(), (3, 2));
    assert_eq!(blame.get_pixel(1, 1), Some([0, 0, 0, 0]));
    blame.set_blame(1, 1, 0x01020304);
    blame.set_blame(5, 1, 7);
    assert_eq!(blame.get_pixel(1, 1), Some([1, 2, 3, 4]));
    assert_eq!(blame.get_pixel(5, 1), None);
}
