use image::{DynamicImage, GenericImageView};
use raytracer::pixel::{average_color, Rgba8};
use raytracer::raster::{assemble, blit_tile, tile_from_pixels, RenderError};
use raytracer::tiles::{TileGrid, DEFAULT_TILE_SIZE};

fn px(v: u8) -> Rgba8 {
    Rgba8::new(v, v.wrapping_add(1), v.wrapping_add(2), 0)
}

fn read(img: &DynamicImage, x: u32, y: u32) -> [u8; 4] {
    img.get_pixel(x, y).0
}

#[test]
fn average_of_five_samples_rounds_down() {
    let samples = vec![
        Rgba8::new(10, 0, 255, 0),
        Rgba8::new(20, 0, 255, 0),
        Rgba8::new(30, 1, 255, 0),
        Rgba8::new(40, 1, 255, 0),
        Rgba8::new(51, 1, 254, 0),
    ];
    let avg = average_color(&samples);
    assert_eq!(avg, Rgba8::new(30, 0, 254, 0));
}

#[test]
fn average_of_one_sample_is_that_sample() {
    let avg = average_color(&vec![Rgba8::new(7, 8, 9, 10)]);
    assert_eq!(avg, Rgba8::new(7, 8, 9, 10));
}

#[test]
fn tile_from_pixels_is_row_major() {
    let pixels: Vec<Rgba8> = (0..6u8).map(px).collect();
    let tile = tile_from_pixels(3, 2, &pixels);
    assert_eq!(tile.dimensions(), (3, 2));
    assert_eq!(read(&tile, 0, 0), [0, 1, 2, 0]);
    assert_eq!(read(&tile, 2, 0), [2, 3, 4, 0]);
    assert_eq!(read(&tile, 0, 1), [3, 4, 5, 0]);
    assert_eq!(read(&tile, 2, 1), [5, 6, 7, 0]);
}

#[test]
fn empty_scene_assembles_to_black() {
    let grid = TileGrid::new(4, 4, DEFAULT_TILE_SIZE).unwrap();
    assert_eq!(grid.job_count(), 1);
    let (w, h) = grid.tile_extent(0);
    let tile = tile_from_pixels(w, h, &vec![Rgba8::black(); (w * h) as usize]);
    let img = assemble(4, 4, &vec![(tile, 0, 0)]).unwrap();
    for y in 0..4 {
        for x in 0..4 {
            assert_eq!(read(&img, x, y), [0, 0, 0, 0]);
        }
    }
}

fn grid_tiles(grid: &TileGrid) -> Vec<(DynamicImage, u32, u32)> {
    let mut tiles = Vec::new();
    for job in 0..grid.job_count() {
        let (mx, my) = grid.tile_origin(job);
        let (w, h) = grid.tile_extent(job);
        let mut pixels = Vec::new();
        for y in 0..h {
            for x in 0..w {
                pixels.push(px(((mx + x) * 7 + (my + y) * 13) as u8));
            }
        }
        tiles.push((tile_from_pixels(w, h, &pixels), mx, my));
    }
    tiles
}

#[test]
fn assembly_ignores_tile_order() {
    let grid = TileGrid::new(10, 7, 3).unwrap();
    let tiles = grid_tiles(&grid);
    let mut reversed = grid_tiles(&grid);
    reversed.reverse();
    let mut rotated = grid_tiles(&grid);
    rotated.rotate_left(5);
    let a = assemble(10, 7, &tiles).unwrap();
    let b = assemble(10, 7, &reversed).unwrap();
    let c = assemble(10, 7, &rotated).unwrap();
    for y in 0..7 {
        for x in 0..10 {
            let expected = px((x * 7 + y * 13) as u8);
            assert_eq!(read(&a, x, y), [expected.r, expected.g, expected.b, expected.a]);
            assert_eq!(read(&a, x, y), read(&b, x, y));
            assert_eq!(read(&a, x, y), read(&c, x, y));
        }
    }
}

#[test]
fn assembly_rejects_a_tile_that_sticks_out() {
    let tile = tile_from_pixels(2, 2, &vec![px(9); 4]);
    assert_eq!(assemble(3, 3, &vec![(tile, 2, 0)]).err(), Some(RenderError::TileOutOfBounds));
}

#[test]
fn blit_places_tile_and_keeps_the_rest() {
    let mut dest = assemble(4, 3, &vec![]).unwrap();
    let tile = tile_from_pixels(2, 1, &vec![px(40), px(50)]);
    assert_eq!(blit_tile(&mut dest, &tile, 1, 2), Ok(()));
    assert_eq!(read(&dest, 1, 2), [40, 41, 42, 0]);
    assert_eq!(read(&dest, 2, 2), [50, 51, 52, 0]);
    assert_eq!(read(&dest, 0, 2), [0, 0, 0, 0]);
    assert_eq!(read(&dest, 3, 2), [0, 0, 0, 0]);
    assert_eq!(read(&dest, 1, 1), [0, 0, 0, 0]);
    assert_eq!(blit_tile(&mut dest, &tile, 3, 2), Err(RenderError::TileOutOfBounds));
    assert_eq!(read(&dest, 3, 2), [0, 0, 0, 0]);
}
