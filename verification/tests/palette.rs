use image_palette_recoloring::convex_hull::{RawFacet, RawHull, RawVertex};
use image_palette_recoloring::decomposition::{DecomposedImage, ImageWeights, Located};
use image_palette_recoloring::delaunay::{RawDelaunay, RawNeighbor, RawSimplex};
use image_palette_recoloring::image::{histogram, ColorCount, Image};
use image_palette_recoloring::order::first_minimum;
use image_palette_recoloring::palette::{collapse_edge, Simplification, Step};
use image_palette_recoloring::{ConvexHull, Delaunay, Error, Rgb};

#[test]
fn the_minimum_size_is_at_least_four() {
    assert_eq!(Simplification::new(0, 10, 8).min_size, 4);
    assert_eq!(Simplification::new(3, 10, 8).min_size, 4);
    assert_eq!(Simplification::new(4, 10, 8).min_size, 4);
    assert_eq!(Simplification::new(7, 10, 8).min_size, 7);
}

#[test]
fn the_error_is_measured_from_the_maximum_size_down() {
    assert_eq!(Simplification::new(4, 6, 8).next(), Step::Collapse { measure_error: false });
    assert_eq!(Simplification::new(4, 6, 7).next(), Step::Collapse { measure_error: false });
    assert_eq!(Simplification::new(4, 6, 6).next(), Step::Collapse { measure_error: true });
    assert_eq!(Simplification::new(4, 6, 5).next(), Step::Collapse { measure_error: true });
    assert_eq!(Simplification::new(4, 6, 4).next(), Step::Finish);
    assert_eq!(Simplification::new(4, 6, 3).next(), Step::Finish);
}

#[test]
fn a_rejected_hull_ends_the_simplification() {
    let s = Simplification::new(4, 10, 8).after_collapse(Some(true), 7).0;
    assert_eq!(s.next(), Step::Finish);
    assert_eq!(s.vertex_count, 8);
}

#[test]
fn a_hull_within_the_bound_replaces_the_current_one() {
    assert!(Simplification::new(4, 10, 8).after_collapse(Some(false), 7).1);
    assert!(Simplification::new(4, 10, 8).after_collapse(None, 7).1);
    assert!(!Simplification::new(4, 10, 8).after_collapse(Some(true), 7).1);
    assert!(Simplification::new(4, 6, 8).after_collapse(Some(true), 7).1);
    let s = Simplification::new(4, 10, 8).after_collapse(Some(false), 7).0;
    assert_eq!(s.next(), Step::Collapse { measure_error: true });
    assert_eq!(s.vertex_count, 7);
    let s = s.after_collapse(None, 6).0;
    assert_eq!(s.vertex_count, 6);
    assert!(!s.stopped);
}

#[test]
fn an_error_is_heeded_from_the_maximum_size_down_only() {
    // The current hull has more vertices than the error is measured from.
    let s = Simplification::new(4, 6, 8).after_collapse(Some(true), 7).0;
    assert_eq!(s.vertex_count, 7);
    assert_eq!(s.next(), Step::Collapse { measure_error: false });
    let s = s.after_collapse(Some(true), 6).0;
    assert_eq!(s.next(), Step::Collapse { measure_error: true });
    let s = s.after_collapse(Some(true), 5).0;
    assert_eq!(s.vertex_count, 6);
    assert_eq!(s.next(), Step::Finish);
}

#[test]
fn a_collapse_that_removes_nothing_ends_the_simplification() {
    let s = Simplification::new(4, 4, 8).after_collapse(None, 7).0;
    assert_eq!(s.next(), Step::Collapse { measure_error: false });
    let s = s.after_collapse(None, 7).0;
    assert_eq!(s.next(), Step::Finish);
    assert_eq!(s.vertex_count, 7);
    let s = Simplification::new(4, 4, 8).after_collapse(None, 9).0;
    assert_eq!(s.next(), Step::Finish);
}

#[test]
fn unit_collapses_end_at_the_minimum_size() {
    for (wanted, expected) in [(0usize, 4usize), (4, 4), (6, 6), (9, 9)] {
        let mut s = Simplification::new(wanted, usize::MAX, 9);
        let mut collapses = 0;
        while s.next() != Step::Finish {
            s = s.after_collapse(Some(false), s.vertex_count - 1).0;
            collapses += 1;
        }
        assert_eq!(s.vertex_count, expected);
        assert_eq!(collapses, 9 - expected);
    }
}

#[test]
fn collapses_of_several_vertices_end_at_the_minimum_size() {
    let mut s = Simplification::new(5, 0, 12);
    for count in [9, 8, 5] {
        assert_ne!(s.next(), Step::Finish);
        s = s.after_collapse(None, count).0;
    }
    assert_eq!(s.next(), Step::Finish);
    assert_eq!(s.vertex_count, 5);
    assert!(!s.stopped);
}

#[test]
fn the_first_of_the_least_keys_is_chosen() {
    assert_eq!(first_minimum(&vec![]), None);
    assert_eq!(first_minimum(&vec![5]), Some(0));
    assert_eq!(first_minimum(&vec![5, 3, 9, 3, 4]), Some(1));
    assert_eq!(first_minimum(&vec![i64::MAX, i64::MIN, 0]), Some(1));
    assert_eq!(first_minimum(&vec![2, 2, 2]), Some(0));
}

#[test]
fn a_collapse_replaces_two_vertices_by_one_point() {
    let points = vec![[0.0, 0.0], [1.0, 0.0], [2.0, 0.0], [3.0, 0.0]];
    assert_eq!(
        collapse_edge(&points, [1, 3], [9.0, 9.0]),
        vec![[0.0, 0.0], [2.0, 0.0], [9.0, 9.0]]
    );
    assert_eq!(
        collapse_edge(&points, [3, 0], [9.0, 9.0]),
        vec![[1.0, 0.0], [2.0, 0.0], [9.0, 9.0]]
    );
    assert_eq!(
        collapse_edge(&points, [2, 2], [9.0, 9.0]),
        vec![[0.0, 0.0], [1.0, 0.0], [3.0, 0.0], [9.0, 9.0]]
    );
    assert_eq!(collapse_edge(&points, [7, 8], [9.0, 9.0]).len(), 5);
}

fn rgb(r: u8, g: u8, b: u8) -> Rgb {
    Rgb::new(r, g, b)
}

#[test]
fn an_image_needs_three_bytes_for_each_pixel() {
    let bytes = vec![1, 2, 3, 4, 5, 6, 7, 8, 9, 10, 11, 12];
    let img = Image::from_raw(2, 2, &bytes).unwrap();
    assert_eq!(img.width(), 2);
    assert_eq!(img.height(), 2);
    assert_eq!(img.pixels(), &vec![rgb(1, 2, 3), rgb(4, 5, 6), rgb(7, 8, 9), rgb(10, 11, 12)]);
    assert_eq!(Image::from_raw(2, 3, &bytes).err(), Some(Error::InvalidImage));
    assert_eq!(Image::from_raw(1, 2, &bytes).err(), Some(Error::InvalidImage));
    assert_eq!(Image::from_raw(4, 1, &bytes).map(|i| i.width()), Ok(4));
}

#[test]
fn an_image_without_pixels_is_invalid() {
    assert_eq!(Image::from_raw(0, 0, &vec![]).err(), Some(Error::InvalidImage));
    assert_eq!(Image::from_raw(0, 5, &vec![]).err(), Some(Error::InvalidImage));
    assert_eq!(Image::from_raw(5, 0, &vec![]).err(), Some(Error::InvalidImage));
    assert_eq!(Image::from_pixels(0, 1, vec![]).err(), Some(Error::InvalidImage));
    assert_eq!(Image::from_pixels(1, 2, vec![rgb(0, 0, 0)]).err(), Some(Error::InvalidImage));
    assert!(Image::from_pixels(1, 1, vec![rgb(0, 0, 0)]).is_ok());
}

#[test]
fn very_large_sizes_are_no_overflow() {
    let bytes = vec![0u8; 12];
    assert_eq!(Image::from_raw(u32::MAX, u32::MAX, &bytes).err(), Some(Error::InvalidImage));
}

#[test]
fn pixels_are_numbered_row_by_row() {
    let pixels: Vec<Rgb> = (0..6).map(|i| rgb(i, 0, 0)).collect();
    let img = Image::from_pixels(3, 2, pixels).unwrap();
    assert_eq!(img.position(0), (0, 0));
    assert_eq!(img.position(2), (2, 0));
    assert_eq!(img.position(3), (0, 1));
    assert_eq!(img.position(5), (2, 1));
    assert_eq!(img.get_pixel(2, 0), rgb(2, 0, 0));
    assert_eq!(img.get_pixel(0, 1), rgb(3, 0, 0));
    for i in 0..6usize {
        let (x, y) = img.position(i);
        assert_eq!(img.get_pixel(x, y), rgb(i as u8, 0, 0));
    }
}

#[test]
fn the_histogram_counts_each_color_once_in_order_of_first_use() {
    let a = rgb(1, 2, 3);
    let b = rgb(3, 2, 1);
    let c = rgb(0, 0, 0);
    let counts = histogram(&vec![b, a, b, b, c, a]);
    assert_eq!(
        counts,
        vec![
            ColorCount { color: b, count: 3 },
            ColorCount { color: a, count: 2 },
            ColorCount { color: c, count: 1 },
        ]
    );
    assert_eq!(histogram(&vec![]), vec![]);
}

#[test]
fn colors_that_differ_in_one_component_are_counted_apart() {
    let counts = histogram(&vec![rgb(0, 0, 1), rgb(0, 1, 0), rgb(1, 0, 0), rgb(0, 1, 0)]);
    assert_eq!(counts.len(), 3);
    assert_eq!(counts[1].count, 2);
    let total: usize = counts.iter().map(|c| c.count).sum();
    assert_eq!(total, 4);
}

#[test]
fn color_numbers_and_norms() {
    assert_eq!(rgb(1, 2, 3).packed(), 0x010203);
    assert_eq!(rgb(255, 255, 255).packed(), 0xffffff);
    assert_eq!(rgb(3, 4, 12).norm_sqr(), 169);
    assert_eq!(rgb(255, 255, 255).norm_sqr(), 195075);
}

fn four() -> Vec<Rgb> {
    vec![rgb(0, 0, 0), rgb(255, 0, 0), rgb(0, 255, 0), rgb(0, 0, 255)]
}

/// A triangulation in five dimensions of seven vertices in two simplices.
fn triangulation() -> Delaunay<[f64; 5], [f64; 6], f64> {
    let simplex = |id: u64, vertices: [u64; 6]| RawSimplex {
        id,
        upper_delaunay: false,
        normal: [0.0; 6],
        offset: 0.0,
        vertices: vertices.to_vec(),
        neighbors: (0..6).map(|_| RawNeighbor { id: 0, upper_delaunay: true }).collect(),
    };
    Delaunay::from_qhull_raw(RawDelaunay {
        dim: 5,
        vertices: (0..7).map(|i| RawVertex { id: i, point: [i as f64; 5] }).collect(),
        simplices: vec![simplex(1, [0, 1, 2, 3, 4, 5]), simplex(2, [6, 5, 4, 3, 2, 1])],
        paraboloid_scale: 1.0,
        paraboloid_shift: 0.0,
    })
    .unwrap()
}

/// The weights of an image of 3 by 2 pixels, each pixel in the simplex of its parity.
fn weights() -> ImageWeights<f64, [f64; 3]> {
    let img = Image::from_pixels(3, 2, vec![rgb(0, 0, 0); 6]).unwrap();
    let located =
        (0..6).map(|i| Located { simplex: i % 2, coords: vec![i as f64 / 8.0; 6] }).collect();
    let colors = (0..7).map(|i| [i as f64; 3]).collect();
    ImageWeights::new(&img, &triangulation(), &located, colors)
}

/// The hull of `four()`, its vertices in another order.
fn hull_of_four() -> ConvexHull<Rgb, [f64; 3], f64> {
    let facet = |id: u64, vertices: [u64; 3]| RawFacet {
        id,
        normal: [0.0; 3],
        offset: 0.0,
        vertices: vertices.to_vec(),
        neighbors: vec![0, 1, 2],
        reversed: false,
    };
    let colors = four();
    ConvexHull::from_qhull_raw(RawHull {
        dim: 3,
        vertices: [3, 0, 2, 1]
            .iter()
            .enumerate()
            .map(|(i, &c)| RawVertex { id: i as u64, point: colors[c] })
            .collect(),
        facets: vec![facet(0, [0, 1, 2]), facet(1, [0, 1, 3]), facet(2, [0, 2, 3]), facet(3, [1, 2, 3])],
    })
    .unwrap()
}

fn rows(channels: usize) -> Vec<Vec<f64>> {
    (0..6).map(|i| vec![i as f64; channels]).collect()
}

#[test]
fn weights_stand_in_the_columns_of_the_corners() {
    let weights = weights();
    assert_eq!(weights.width(), 3);
    assert_eq!(weights.height(), 2);
    assert_eq!(weights.row_count(), 6);
    assert_eq!(weights.vertex_count(), 7);
    assert_eq!(weights.ch_rgb_vertices()[6], [6.0; 3]);
    assert_eq!(weights.columns(0), &vec![0, 1, 2, 3, 4, 5]);
    assert_eq!(weights.columns(3), &vec![6, 5, 4, 3, 2, 1]);
    assert_eq!(weights.columns(4), &vec![0, 1, 2, 3, 4, 5]);
    assert_eq!(weights.values(3), &vec![0.375; 6]);
    assert_eq!(weights.values(0), &vec![0.0; 6]);
}

#[test]
fn a_decomposition_has_one_channel_for_each_color() {
    let decomposed =
        DecomposedImage::new(&weights(), &four(), &hull_of_four(), rows(4)).unwrap();
    assert_eq!(decomposed.num_channels(), 4);
    assert_eq!(decomposed.width(), 3);
    assert_eq!(decomposed.height(), 2);
    assert_eq!(decomposed.row_count(), 6);
    assert_eq!(decomposed.row(5), &vec![5.0; 4]);
}

#[test]
fn a_decomposition_by_three_colors_is_refused() {
    assert_eq!(
        DecomposedImage::new(&weights(), &four()[..3], &hull_of_four(), rows(3)).err(),
        Some(Error::PaletteTooSmall)
    );
}

#[test]
fn a_decomposition_by_a_color_twice_is_refused() {
    let mut palette = four();
    palette.push(rgb(255, 0, 0));
    assert_eq!(
        DecomposedImage::new(&weights(), &palette, &hull_of_four(), rows(5)).err(),
        Some(Error::RedundantPalette)
    );
    let same = vec![rgb(9, 9, 9); 4];
    assert_eq!(
        DecomposedImage::new(&weights(), &same, &hull_of_four(), rows(4)).err(),
        Some(Error::RedundantPalette)
    );
}

#[test]
fn a_decomposition_by_a_color_inside_the_hull_is_refused() {
    let mut palette = four();
    palette.push(rgb(50, 50, 50));
    assert_eq!(
        DecomposedImage::new(&weights(), &palette, &hull_of_four(), rows(5)).err(),
        Some(Error::RedundantPalette)
    );
}

#[test]
fn a_channel_beyond_the_last_is_out_of_range() {
    let decomposed =
        DecomposedImage::new(&weights(), &four(), &hull_of_four(), rows(4)).unwrap();
    assert_eq!(decomposed.check_channel(0), Ok(()));
    assert_eq!(decomposed.check_channel(3), Ok(()));
    assert_eq!(decomposed.check_channel(4), Err(Error::OutOfRange));
}

#[test]
fn reconstruction_palette_of_wrong_size_is_a_mismatch() {
    let decomposed =
        DecomposedImage::new(&weights(), &four(), &hull_of_four(), rows(4)).unwrap();
    assert_eq!(decomposed.check_reconstruction_palette(&four()), Ok(()));
    let mut five = four();
    five.push(rgb(9, 9, 9));
    assert_eq!(decomposed.check_reconstruction_palette(&five), Err(Error::PaletteSizeMismatch));
    assert_eq!(
        decomposed.check_reconstruction_palette(&four()[..3]),
        Err(Error::PaletteSizeMismatch)
    );
}

#[test]
fn rows_of_the_weights_stand_for_pixels_row_by_row() {
    let decomposed =
        DecomposedImage::new(&weights(), &four(), &hull_of_four(), rows(4)).unwrap();
    assert_eq!(decomposed.pixel_of_row(0), (0, 0));
    assert_eq!(decomposed.pixel_of_row(2), (2, 0));
    assert_eq!(decomposed.pixel_of_row(3), (0, 1));
    assert_eq!(decomposed.pixel_of_row(5), (2, 1));
}

/// A whole number that orders as the floating-point number does.
fn order_key(x: f64) -> i64 {
    let bits = x.to_bits() as i64;
    bits ^ ((((bits >> 63) as u64) >> 1) as i64)
}

#[test]
fn keys_of_floating_point_numbers_choose_the_least() {
    let volumes = [0.75, 0.125, 3.5, 0.125, -0.0, 0.0, 1e-300];
    let keys: Vec<i64> = volumes.iter().map(|v| order_key(*v)).collect();
    assert_eq!(first_minimum(&keys), Some(4));
    let distances = [2.383489, 14.934460, 3.999367, 1.397370, 4.140253, 0.720180];
    let keys: Vec<i64> = distances.iter().map(|v| order_key(*v)).collect();
    assert_eq!(first_minimum(&keys), Some(5));
}
