use image_palette_recoloring::convex_hull::{RawFacet, RawHull, RawVertex};
use image_palette_recoloring::star::{
    check_palette, check_palette_size, find_color, StarTriangulation,
};
use image_palette_recoloring::{ConvexHull, Error, Rgb};

type PaletteHull = ConvexHull<Rgb, [f64; 3], f64>;

fn hull_of(colors: &[Rgb], facets: &[[u64; 3]]) -> PaletteHull {
    let vertices = colors
        .iter()
        .enumerate()
        .map(|(i, c)| RawVertex { id: i as u64, point: *c })
        .collect();
    let facets = facets
        .iter()
        .enumerate()
        .map(|(i, f)| RawFacet {
            id: i as u64,
            normal: [0.0, 0.0, 0.0],
            offset: 0.0,
            vertices: f.to_vec(),
            neighbors: vec![0, 0, 0],
            reversed: false,
        })
        .collect();
    PaletteHull::from_qhull_raw(RawHull { dim: 3, vertices, facets }).unwrap()
}

const RED: Rgb = Rgb { r: 255, g: 0, b: 0 };
const GREEN: Rgb = Rgb { r: 0, g: 255, b: 0 };
const BLUE: Rgb = Rgb { r: 0, g: 0, b: 255 };
const DARK: Rgb = Rgb { r: 10, g: 10, b: 10 };
const WHITE: Rgb = Rgb { r: 255, g: 255, b: 255 };

/// The hull of red, green, dark, blue and white, with the vertices in another order than
/// the palette.
fn five_color_hull() -> PaletteHull {
    hull_of(
        &[WHITE, RED, DARK, GREEN, BLUE],
        &[[1, 3, 2], [1, 2, 4], [3, 4, 2], [0, 1, 3], [0, 4, 1], [0, 3, 4]],
    )
}

fn five_colors() -> Vec<Rgb> {
    vec![RED, GREEN, DARK, BLUE, WHITE]
}

#[test]
fn the_star_is_the_vertex_nearest_to_black() {
    let st = StarTriangulation::new(&five_colors(), &five_color_hull()).unwrap();
    assert_eq!(st.star(), 2);
}

#[test]
fn ties_for_the_star_go_to_the_first_vertex() {
    let palette = vec![RED, GREEN, BLUE, WHITE];
    let hull = hull_of(&[WHITE, GREEN, RED, BLUE], &[[0, 1, 2], [0, 1, 3], [0, 2, 3], [1, 2, 3]]);
    let st = StarTriangulation::new(&palette, &hull).unwrap();
    assert_eq!(st.star(), 1);
}

#[test]
fn one_tetrahedron_for_each_facet_without_the_star() {
    let st = StarTriangulation::new(&five_colors(), &five_color_hull()).unwrap();
    assert_eq!(st.tetrahedron_count(), 3);
    assert_eq!(st.corners(0), [2, 0, 1, 3]);
    assert_eq!(st.corners(1), [2, 0, 4, 1]);
    assert_eq!(st.corners(2), [2, 0, 3, 4]);
}

#[test]
fn columns_are_positions_in_the_palette() {
    let st = StarTriangulation::new(&five_colors(), &five_color_hull()).unwrap();
    assert_eq!(st.column_of(0), 4);
    assert_eq!(st.column_of(1), 0);
    assert_eq!(st.column_of(2), 2);
    assert_eq!(st.column_of(3), 1);
    assert_eq!(st.column_of(4), 3);
    assert_eq!(st.columns(0), [2, 4, 0, 1]);
    assert_eq!(st.columns(1), [2, 4, 3, 0]);
}

#[test]
fn the_tetrahedron_of_a_facet_is_found_by_its_vertices() {
    let st = StarTriangulation::new(&five_colors(), &five_color_hull()).unwrap();
    assert_eq!(st.containing(&vec![0, 4, 1]), Some(1));
    assert_eq!(st.containing(&vec![3, 4, 0]), Some(2));
    // A facet that holds the star: the tetrahedron over the facet across its far edge.
    assert_eq!(st.containing(&vec![1, 3, 2]), Some(0));
    assert_eq!(st.containing(&vec![1, 2, 4]), Some(1));
    assert_eq!(st.containing(&vec![1, 3, 4]), None);
    assert_eq!(st.containing(&vec![]), Some(0));
}

#[test]
fn palette_of_three_colors_is_too_small() {
    let palette = vec![RED, GREEN, BLUE];
    assert_eq!(check_palette_size(&palette), Err(Error::PaletteTooSmall));
    let hull = hull_of(&[RED, GREEN, BLUE], &[]);
    assert_eq!(StarTriangulation::new(&palette, &hull).err(), Some(Error::PaletteTooSmall));
    assert_eq!(check_palette_size(&vec![RED, GREEN, BLUE, WHITE]), Ok(()));
    assert_eq!(check_palette_size(&vec![]), Err(Error::PaletteTooSmall));
}

#[test]
fn palette_with_a_color_twice_is_redundant() {
    let palette = vec![RED, GREEN, DARK, BLUE, RED];
    let hull = hull_of(&[RED, GREEN, DARK, BLUE], &[[0, 1, 2], [0, 1, 3], [0, 2, 3], [1, 2, 3]]);
    assert_eq!(StarTriangulation::new(&palette, &hull).err(), Some(Error::RedundantPalette));
}

#[test]
fn palette_with_a_color_inside_the_hull_is_redundant() {
    let inside = Rgb { r: 60, g: 60, b: 60 };
    let palette = vec![RED, GREEN, DARK, BLUE, inside];
    let hull = hull_of(&[RED, GREEN, DARK, BLUE], &[[0, 1, 2], [0, 1, 3], [0, 2, 3], [1, 2, 3]]);
    assert_eq!(StarTriangulation::new(&palette, &hull).err(), Some(Error::RedundantPalette));
}

#[test]
fn hull_vertex_that_is_no_palette_color_is_refused() {
    let palette = vec![RED, GREEN, DARK, BLUE];
    let hull =
        hull_of(&[RED, GREEN, DARK, BLUE, WHITE], &[[0, 1, 2], [0, 1, 3], [0, 2, 3], [1, 2, 3]]);
    assert_eq!(StarTriangulation::new(&palette, &hull).err(), Some(Error::RedundantPalette));
}

#[test]
fn find_color_gives_the_first_position() {
    let list = vec![RED, GREEN, RED, BLUE];
    assert_eq!(find_color(&list, RED), Some(0));
    assert_eq!(find_color(&list, BLUE), Some(3));
    assert_eq!(find_color(&list, WHITE), None);
}

#[test]
fn a_color_twice_is_refused_before_any_hull_is_built() {
    assert_eq!(check_palette(&[RED, GREEN, BLUE]), Err(Error::PaletteTooSmall));
    assert_eq!(check_palette(&[RED, RED, RED]), Err(Error::PaletteTooSmall));
    assert_eq!(check_palette(&[RED, GREEN, BLUE, RED]), Err(Error::RedundantPalette));
    assert_eq!(check_palette(&[DARK, DARK, DARK, DARK]), Err(Error::RedundantPalette));
    assert_eq!(check_palette(&[RED, GREEN, BLUE, WHITE, DARK, WHITE]), Err(Error::RedundantPalette));
    assert_eq!(check_palette(&[RED, GREEN, BLUE, WHITE]), Ok(()));
}
