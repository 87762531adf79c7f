use raytracer::tiles::{ConfigError, TileGrid, DEFAULT_TILE_SIZE};

#[test]
fn grid_counts_and_clips_edge_tiles() {
    let grid = TileGrid::new(300, 130, DEFAULT_TILE_SIZE).unwrap();
    assert_eq!(grid.cols(), 3);
    assert_eq!(grid.rows(), 2);
    assert_eq!(grid.job_count(), 6);
    assert_eq!(grid.tile_origin(0), (0, 0));
    assert_eq!(grid.tile_origin(2), (256, 0));
    assert_eq!(grid.tile_origin(5), (256, 128));
    assert_eq!(grid.tile_extent(0), (128, 128));
    assert_eq!(grid.tile_extent(2), (44, 128));
    assert_eq!(grid.tile_extent(5), (44, 2));
}

#[test]
fn grid_with_exact_multiple() {
    let grid = TileGrid::new(256, 128, 128).unwrap();
    assert_eq!(grid.job_count(), 2);
    assert_eq!(grid.tile_extent(1), (128, 128));
}

#[test]
fn grid_rejects_bad_configuration() {
    assert_eq!(TileGrid::new(0, 4, 128), Err(ConfigError::EmptyImage));
    assert_eq!(TileGrid::new(4, 0, 128), Err(ConfigError::EmptyImage));
    assert_eq!(TileGrid::new(4, 4, 0), Err(ConfigError::ZeroTileSize));
}

#[test]
fn every_pixel_lies_in_exactly_one_tile() {
    let grid = TileGrid::new(11, 9, 4).unwrap();
    let mut hits = vec![0u32; 11 * 9];
    for job in 0..grid.job_count() {
        let (mx, my) = grid.tile_origin(job);
        let (w, h) = grid.tile_extent(job);
        for y in my..my + h {
            for x in mx..mx + w {
                hits[(y * 11 + x) as usize] += 1;
            }
        }
    }
    assert!(hits.iter().all(|&n| n == 1));
}

#[test]
fn largest_grid_does_not_overflow() {
    let grid = TileGrid::new(u32::MAX, u32::MAX, 1).unwrap();
    assert_eq!(grid.job_count(), (u32::MAX as u64) * (u32::MAX as u64));
    let last = grid.job_count() - 1;
    assert_eq!(grid.tile_origin(last), (u32::MAX - 1, u32::MAX - 1));
    assert_eq!(grid.tile_extent(last), (1, 1));
}
