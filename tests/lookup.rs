use image::{DynamicImage, GenericImage};
use raytracer::bvh::{needs_split, split_by, split_reduces, LEAF_THRESHOLD};
use raytracer::nearest::{first_is_nearer, nearest_hit};
use raytracer::pixel::Rgba8;
use raytracer::ray::{within_depth, RayType, MAX_DEPTH};
use raytracer::texture::{texel, wrap};

#[test]
fn wrap_repeats_in_both_directions() {
    assert_eq!(wrap(0, 4), 0);
    assert_eq!(wrap(5, 4), 1);
    assert_eq!(wrap(-1, 4), 3);
    assert_eq!(wrap(-4, 4), 0);
    assert_eq!(wrap(-9, 4), 3);
    assert_eq!(wrap(i32::MIN, 7), (((i32::MIN as i64) % 7 + 7) % 7) as u32);
}

#[test]
fn texel_reads_the_wrapped_pixel() {
    let mut tex = DynamicImage::new_rgba8(2, 3);
    tex.put_pixel(1, 2, image::Rgba([10, 20, 30, 40]));
    tex.put_pixel(0, 0, image::Rgba([1, 2, 3, 4]));
    assert_eq!(texel(&tex, -1, -1), Rgba8::new(10, 20, 30, 40));
    assert_eq!(texel(&tex, 4, 6), Rgba8::new(1, 2, 3, 4));
    assert_eq!(texel(&tex, 1, 0), Rgba8::new(0, 0, 0, 0));
}

#[test]
fn texel_of_rgb_texture_reads_opaque() {
    let mut tex = DynamicImage::new_rgb8(1, 1);
    tex.put_pixel(0, 0, image::Rgba([5, 6, 7, 0]));
    assert_eq!(texel(&tex, 3, -2), Rgba8::new(5, 6, 7, 255));
}

#[test]
fn nearest_hit_picks_smallest_first_among_equals() {
    assert_eq!(nearest_hit(&vec![None, Some(5), Some(3), Some(3)]), Some(2));
    assert_eq!(nearest_hit(&vec![Some(8), None, Some(9)]), Some(0));
    assert_eq!(nearest_hit(&vec![None, None]), None);
    assert_eq!(nearest_hit(&vec![]), None);
}

#[test]
fn nearest_hit_orders_distance_bits() {
    let distances = [4.5f64, 0.25, 1e-9, 3.0];
    let keys: Vec<Option<u64>> = distances.iter().map(|d| Some(d.to_bits())).collect();
    assert_eq!(nearest_hit(&keys), Some(2));
}

#[test]
fn nearer_of_two_answers() {
    assert!(first_is_nearer(Some(3), Some(4)));
    assert!(first_is_nearer(Some(4), Some(4)));
    assert!(!first_is_nearer(Some(5), Some(4)));
    assert!(first_is_nearer(Some(5), None));
    assert!(!first_is_nearer(None, Some(4)));
    assert!(first_is_nearer(None, None));
}

#[test]
fn split_query_matches_whole_query() {
    let keys = vec![Some(9), None, Some(4), Some(7), Some(4), None, Some(2), Some(8)];
    let flags = vec![true, false, false, true, true, false, true, false];
    let (left, right) = split_by(&keys, &flags);
    let best = |ks: &Vec<Option<u64>>| nearest_hit(ks).map(|k| ks[k].unwrap());
    let (l, r) = (best(&left), best(&right));
    let combined = if first_is_nearer(l, r) { l } else { r };
    assert_eq!(combined, best(&keys));
    assert_eq!(combined, Some(2));
}

#[test]
fn split_keeps_order_on_each_side() {
    let items = vec![10, 11, 12, 13, 14];
    let flags = vec![true, false, false, true, false];
    let (left, right) = split_by(&items, &flags);
    assert_eq!(left, vec![10, 13]);
    assert_eq!(right, vec![11, 12, 14]);
    let (left, right) = split_by(&Vec::<u8>::new(), &vec![]);
    assert!(left.is_empty() && right.is_empty());
}

#[test]
fn split_rules() {
    assert!(!needs_split(LEAF_THRESHOLD, LEAF_THRESHOLD));
    assert!(needs_split(LEAF_THRESHOLD + 1, LEAF_THRESHOLD));
    assert!(!needs_split(12, usize::MAX));
    assert!(split_reduces(1, 300));
    assert!(!split_reduces(0, 300));
    assert!(!split_reduces(300, 0));
}

#[test]
fn depth_cap() {
    assert_eq!(MAX_DEPTH, 32);
    assert!(within_depth(0));
    assert!(within_depth(31));
    assert!(!within_depth(32));
    assert!(!within_depth(u32::MAX));
    assert_ne!(RayType::Prime, RayType::Shadow);
}
