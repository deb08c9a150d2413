//! The two artifacts of recoloring that are costly to build and cheap to reuse: the
//! weights of an image over the vertices of its hull, and the decomposition of these
//! weights by a palette.
//!
//! A weight itself is the caller's: `T` is its type, and `V` that of a vertex of the
//! image's hull. Where the weights stand is the library's: which columns a row of the
//! sparse weights has entries in, how many rows and columns the dense weights have.

use crate::color::Rgb;
use crate::convex_hull::{copy_list, ConvexHull};
use crate::delaunay::Delaunay;
use crate::error::Error;
use crate::image::{lemma_position_round_trip, position_of, Image};
use crate::star::{exact, StarTriangulation, MIN_PALETTE_SIZE};
use vstd::prelude::*;

verus! {

/// The dimension of the space of colors and positions.
pub const RGBXY_DIM: usize = 5;

/// The number of entries of a row of the sparse weights: the corners of a simplex in the
/// space of colors and positions.
pub const ROW_ENTRIES: usize = 6;

/// Where a pixel was found in the triangulation of the image's hull.
pub struct Located<T> {
    /// The simplex that holds the pixel.
    pub simplex: usize,
    /// The barycentric coordinates of the pixel in that simplex, one for each corner.
    pub coords: Vec<T>,
}

/// What an `ImageWeights` holds.
pub struct WeightsView<T, V> {
    pub width: nat,
    pub height: nat,
    /// The colors of the vertices: one for each column of the weights.
    pub vertices: Seq<V>,
    /// For each pixel the columns in which its row has entries.
    pub columns: Seq<Seq<usize>>,
    /// For each pixel the entries of its row, in the order of `columns`.
    pub values: Seq<Seq<T>>,
}

impl<T, V> WeightsView<T, V> {
    /// There is one row for each pixel, and each row has six entries, in columns of the
    /// weights.
    pub open spec fn wf(self) -> bool {
        &&& self.columns.len() == self.width * self.height
        &&& self.values.len() == self.columns.len()
        &&& forall|i: int|
            0 <= i < self.columns.len() ==> (#[trigger] self.columns[i]).len() == ROW_ENTRIES
        &&& forall|i: int|
            0 <= i < self.columns.len() ==> (#[trigger] self.values[i]).len() == ROW_ENTRIES
        &&& forall|i: int, j: int|
            0 <= i < self.columns.len() && 0 <= j < ROW_ENTRIES ==> (
            #[trigger] self.columns[i][j]) < self.vertices.len()
    }
}

/// The views of the rows of `rows`.
pub open spec fn rows_of<T>(rows: Seq<Vec<T>>) -> Seq<Seq<T>> {
    Seq::new(rows.len(), |i: int| rows[i]@)
}

/// An image in terms of the vertices of the hull of its pixels in color and position:
/// for each pixel one row of weights, with entries in the columns of the corners of the
/// simplex that holds the pixel.
pub struct ImageWeights<T, V> {
    columns: Vec<Vec<usize>>,
    values: Vec<Vec<T>>,
    ch_rgb_vertices: Vec<V>,
    width: u32,
    height: u32,
}

impl<T, V> View for ImageWeights<T, V> {
    type V = WeightsView<T, V>;

    closed spec fn view(&self) -> WeightsView<T, V> {
        WeightsView {
            width: self.width as nat,
            height: self.height as nat,
            vertices: self.ch_rgb_vertices@,
            columns: rows_of(self.columns@),
            values: rows_of(self.values@),
        }
    }
}

impl<T, V> ImageWeights<T, V> {
    #[verifier::type_invariant]
    spec fn inv(self) -> bool {
        self@.wf()
    }

    /// The height of the image.
    pub fn height(&self) -> (h: u32)
        ensures
            h == self@.height,
    {
        self.height
    }

    /// The width of the image.
    pub fn width(&self) -> (w: u32)
        ensures
            w == self@.width,
    {
        self.width
    }

    /// The number of rows of the weights: one for each pixel.
    pub fn row_count(&self) -> (n: usize)
        ensures
            n == self@.columns.len(),
            n == self@.width * self@.height,
            self@.wf(),
    {
        proof {
            use_type_invariant(self);
        }
        self.columns.len()
    }

    /// The number of columns of the weights: one for each vertex.
    pub fn vertex_count(&self) -> (n: usize)
        ensures
            n == self@.vertices.len(),
    {
        self.ch_rgb_vertices.len()
    }

    /// The columns in which row `i` has entries.
    pub fn columns(&self, i: usize) -> (c: &Vec<usize>)
        requires
            i < self@.columns.len(),
        ensures
            c@ == self@.columns[i as int],
            self@.wf(),
    {
        proof {
            use_type_invariant(self);
        }
        &self.columns[i]
    }

    /// The entries of row `i`, in the order of its columns.
    pub fn values(&self, i: usize) -> (v: &Vec<T>)
        requires
            i < self@.columns.len(),
        ensures
            v@ == self@.values[i as int],
            self@.wf(),
    {
        proof {
            use_type_invariant(self);
        }
        &self.values[i]
    }

    /// The colors of the vertices, in the order of the columns of the weights.
    pub fn ch_rgb_vertices(&self) -> (v: &Vec<V>)
        ensures
            v@ == self@.vertices,
    {
        &self.ch_rgb_vertices
    }
}

impl<T: Copy, V> ImageWeights<T, V> {
    /// The weights of `img` over the vertices of the triangulation `tri` of its hull.
    ///
    /// Row `i` is the row of pixel `i`. It has its entries in the columns of the corners
    /// of the simplex in which the pixel was found, and the entries are the barycentric
    /// coordinates of the pixel in that simplex. `ch_rgb_vertices` holds the color of each
    /// vertex of `tri`, in the order of `tri`.
    pub fn new<P, N, S>(
        img: &Image,
        tri: &Delaunay<P, N, S>,
        located: &Vec<Located<T>>,
        ch_rgb_vertices: Vec<V>,
    ) -> (r: Self)
        requires
            tri@.dim == RGBXY_DIM,
            located@.len() == img@.pixels.len(),
            ch_rgb_vertices@.len() == tri@.points.len(),
            forall|i: int|
                0 <= i < located@.len() ==> (#[trigger] located@[i]).simplex
                    < tri@.simplices.len() && located@[i].coords@.len() == ROW_ENTRIES,
        ensures
            r@ == (WeightsView {
                width: img@.width,
                height: img@.height,
                vertices: ch_rgb_vertices@,
                columns: Seq::new(
                    located@.len(),
                    |i: int| tri@.simplices[located@[i].simplex as int],
                ),
                values: Seq::new(located@.len(), |i: int| located@[i].coords@),
            }),
            r@.wf(),
    {
        let width: u32 = img.width();
        let height: u32 = img.height();
        let simplex_count: usize = tri.simplex_count();
        let mut columns: Vec<Vec<usize>> = Vec::new();
        let mut values: Vec<Vec<T>> = Vec::new();
        let mut i: usize = 0;
        while i < located.len()
            invariant
                i <= located@.len(),
                tri@.wf(),
                tri@.dim == RGBXY_DIM,
                ch_rgb_vertices@.len() == tri@.points.len(),
                forall|k: int|
                    0 <= k < located@.len() ==> (#[trigger] located@[k]).simplex
                        < tri@.simplices.len() && located@[k].coords@.len() == ROW_ENTRIES,
                columns@.len() == i,
                values@.len() == i,
                forall|k: int|
                    0 <= k < i ==> (#[trigger] columns@[k])@
                        == tri@.simplices[located@[k].simplex as int],
                forall|k: int| 0 <= k < i ==> (#[trigger] values@[k])@ == located@[k].coords@,
            decreases located@.len() - i,
        {
            let entry = &located[i];
            columns.push(copy_list(tri.simplex_row(entry.simplex)));
            values.push(copy_list(&entry.coords));
            i += 1;
        }
        proof {
            let view = WeightsView {
                width: width as nat,
                height: height as nat,
                vertices: ch_rgb_vertices@,
                columns: rows_of(columns@),
                values: rows_of(values@),
            };
            assert(view.columns =~= Seq::new(
                located@.len(),
                |i: int| tri@.simplices[located@[i].simplex as int],
            ));
            assert(view.values =~= Seq::new(located@.len(), |i: int| located@[i].coords@));
            assert forall|k: int, j: int|
                0 <= k < view.columns.len() && 0 <= j < ROW_ENTRIES implies (
            #[trigger] view.columns[k][j]) < view.vertices.len() by {
                let s = located@[k].simplex as int;
                assert(tri@.simplices[s][j] < tri@.points.len());
            }
            assert forall|k: int| 0 <= k < view.columns.len() implies (
            #[trigger] view.columns[k]).len() == ROW_ENTRIES by {
                let s = located@[k].simplex as int;
                assert(tri@.simplices[s].len() == tri@.dim + 1);
            }
        }
        ImageWeights { columns, values, ch_rgb_vertices, width, height }
    }
}

/// What a `DecomposedImage` holds.
pub struct DecomposedView<T> {
    pub width: nat,
    pub height: nat,
    /// The number of colors of the palette that the image was decomposed by.
    pub channels: nat,
    /// For each pixel one row, with one weight for each channel.
    pub matrix: Seq<Seq<T>>,
}

impl<T> DecomposedView<T> {
    /// There are at least four channels, one row for each pixel, and in each row one
    /// weight for each channel.
    pub open spec fn wf(self) -> bool {
        &&& self.channels >= MIN_PALETTE_SIZE
        &&& self.matrix.len() == self.width * self.height
        &&& forall|i: int|
            0 <= i < self.matrix.len() ==> (#[trigger] self.matrix[i]).len() == self.channels
    }
}

/// An image decomposed by a palette: for each pixel one weight for each color.
pub struct DecomposedImage<T> {
    matrix: Vec<Vec<T>>,
    width: u32,
    height: u32,
    channels: usize,
}

impl<T> View for DecomposedImage<T> {
    type V = DecomposedView<T>;

    closed spec fn view(&self) -> DecomposedView<T> {
        DecomposedView {
            width: self.width as nat,
            height: self.height as nat,
            channels: self.channels as nat,
            matrix: rows_of(self.matrix@),
        }
    }
}

impl<T> DecomposedImage<T> {
    #[verifier::type_invariant]
    spec fn inv(self) -> bool {
        self@.wf()
    }

    /// The decomposition of an image by `palette`, whose hull is `hull`, with the weights
    /// `matrix`: for each pixel of the image one row, with one weight for each color.
    ///
    /// A palette of fewer than four colors is refused, and so is one whose colors are not
    /// exactly the vertices of its hull: one in which a color comes twice, or in which a
    /// color is no vertex.
    pub fn new<U, V, N, S>(
        img: &ImageWeights<U, V>,
        palette: &[Rgb],
        hull: &ConvexHull<Rgb, N, S>,
        matrix: Vec<Vec<T>>,
    ) -> (r: Result<Self, Error>)
        requires
            hull@.dim == 3,
            matrix@.len() == img@.columns.len(),
            forall|i: int|
                0 <= i < matrix@.len() ==> (#[trigger] matrix@[i])@.len() == palette@.len(),
        ensures
            match r {
                Ok(decomposed) => palette@.len() >= MIN_PALETTE_SIZE && exact(
                    palette@,
                    hull@.points,
                ) && decomposed@ == (DecomposedView {
                    width: img@.width,
                    height: img@.height,
                    channels: palette@.len(),
                    matrix: rows_of(matrix@),
                }) && decomposed@.wf(),
                Err(e) => if palette@.len() < MIN_PALETTE_SIZE {
                    e == Error::PaletteTooSmall
                } else {
                    e == Error::RedundantPalette && !exact(palette@, hull@.points)
                },
            },
    {
        match StarTriangulation::new(palette, hull) {
            Err(e) => Err(e),
            Ok(_) => {
                let _ = img.row_count();
                Ok(
                    DecomposedImage {
                        matrix,
                        width: img.width(),
                        height: img.height(),
                        channels: palette.len(),
                    },
                )
            },
        }
    }

    /// The number of colors of the palette that the image was decomposed by.
    pub fn num_channels(&self) -> (n: usize)
        ensures
            n == self@.channels,
            n >= MIN_PALETTE_SIZE,
    {
        proof {
            use_type_invariant(self);
        }
        self.channels
    }

    /// The width of the image.
    pub fn width(&self) -> (w: u32)
        ensures
            w == self@.width,
    {
        self.width
    }

    /// The height of the image.
    pub fn height(&self) -> (h: u32)
        ensures
            h == self@.height,
    {
        self.height
    }

    /// The number of rows of the weights: one for each pixel.
    pub fn row_count(&self) -> (n: usize)
        ensures
            n == self@.matrix.len(),
            n == self@.width * self@.height,
            self@.wf(),
    {
        proof {
            use_type_invariant(self);
        }
        self.matrix.len()
    }

    /// The weights of the pixel of row `i`: one for each channel.
    pub fn row(&self, i: usize) -> (weights: &Vec<T>)
        requires
            i < self@.matrix.len(),
        ensures
            weights@ == self@.matrix[i as int],
            weights@.len() == self@.channels,
    {
        proof {
            use_type_invariant(self);
            assert(self@.matrix[i as int].len() == self@.channels);
        }
        &self.matrix[i]
    }

    /// Tells whether `n` is a channel of the decomposition.
    pub fn check_channel(&self, n: usize) -> (r: Result<(), Error>)
        ensures
            match r {
                Ok(_) => n < self@.channels,
                Err(e) => e == Error::OutOfRange && n >= self@.channels,
            },
    {
        if n >= self.channels {
            Err(Error::OutOfRange)
        } else {
            Ok(())
        }
    }

    /// Tells whether the image can be rebuilt with `palette`: whether it has one color for
    /// each channel.
    pub fn check_reconstruction_palette(&self, palette: &[Rgb]) -> (r: Result<(), Error>)
        ensures
            match r {
                Ok(_) => palette@.len() == self@.channels,
                Err(e) => e == Error::PaletteSizeMismatch && palette@.len() != self@.channels,
            },
    {
        if palette.len() != self.channels {
            Err(Error::PaletteSizeMismatch)
        } else {
            Ok(())
        }
    }

    /// The column and the row of the pixel that row `i` of the weights stands for.
    pub fn pixel_of_row(&self, i: usize) -> (at: (u32, u32))
        requires
            i < self@.matrix.len(),
        ensures
            (at.0 as int, at.1 as int) == position_of(i as int, self@.width as int),
            at.0 < self@.width,
            at.1 < self@.height,
    {
        proof {
            use_type_invariant(self);
            assert(self.width * self.height >= 0) by (nonlinear_arith);
            if self.width == 0 {
                assert(self.width * self.height == 0) by (nonlinear_arith)
                    requires
                        self.width == 0,
                ;
            }
            lemma_position_round_trip(i as int, self.width as int, self.height as int);
        }
        let w: usize = self.width as usize;
        ((i % w) as u32, (i / w) as u32)
    }
}

} // verus!
