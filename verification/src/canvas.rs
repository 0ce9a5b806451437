//! The canvas of one skybox: four by three cells of one tile's size, onto
//! which each tile is copied at the cell of its face.

use crate::error::SkyboxError;
use crate::position::SkyboxTilePosition;
use crate::raster::{copy_from, Raster, RasterView};
use vstd::prelude::*;

verus! {

/// Whether a canvas for tiles of `tile_width` by `tile_height` pixels can be
/// allocated on this machine: its width and height fit into `u32`, the bytes
/// of one of its rows can be counted in `usize`, and its bytes are no more
/// than a buffer may hold, which is `isize::MAX`.
pub open spec fn spec_canvas_fits(tile_width: nat, tile_height: nat) -> bool {
    &&& 4 * tile_width <= u32::MAX
    &&& 3 * tile_height <= u32::MAX
    &&& 4 * (4 * tile_width) <= usize::MAX
    &&& 4 * (4 * tile_width) * (3 * tile_height) <= isize::MAX
}

/// Whether column `c` of row `r` of a canvas lies in the cell of the face
/// `position`, for tiles of `tile_width` by `tile_height` pixels.
pub open spec fn spec_in_cell(
    position: SkyboxTilePosition,
    tile_width: nat,
    tile_height: nat,
    c: int,
    r: int,
) -> bool {
    &&& position.spec_column() * tile_width <= c < position.spec_column() * tile_width
        + tile_width
    &&& position.spec_row() * tile_height <= r < position.spec_row() * tile_height + tile_height
}

/// The cells of two different faces share no pixel.
pub proof fn lemma_cells_disjoint(
    a: SkyboxTilePosition,
    b: SkyboxTilePosition,
    tile_width: nat,
    tile_height: nat,
    c: int,
    r: int,
)
    requires
        spec_in_cell(a, tile_width, tile_height, c, r),
        spec_in_cell(b, tile_width, tile_height, c, r),
    ensures
        a == b,
{
    let w = tile_width as int;
    let h = tile_height as int;
    let (ca, cb) = (a.spec_column(), b.spec_column());
    let (ra, rb) = (a.spec_row(), b.spec_row());
    assert(ca == cb) by (nonlinear_arith)
        requires
            ca * w <= c < ca * w + w,
            cb * w <= c < cb * w + w,
    ;
    assert(ra == rb) by (nonlinear_arith)
        requires
            ra * h <= r < ra * h + h,
            rb * h <= r < rb * h + h,
    ;
    SkyboxTilePosition::lemma_cells_distinct(a, b);
}

/// Every cell lies inside a canvas of four by three tiles.
pub proof fn lemma_cell_inside(
    position: SkyboxTilePosition,
    tile_width: nat,
    tile_height: nat,
    c: int,
    r: int,
)
    requires
        spec_in_cell(position, tile_width, tile_height, c, r),
    ensures
        0 <= c < 4 * tile_width,
        0 <= r < 3 * tile_height,
{
    let w = tile_width as int;
    let h = tile_height as int;
    let col = position.spec_column();
    let row = position.spec_row();
    assert(0 <= col * w && col * w + w <= 4 * w) by (nonlinear_arith)
        requires
            0 <= col <= 3,
            0 <= w,
    ;
    assert(0 <= row * h && row * h + h <= 3 * h) by (nonlinear_arith)
        requires
            0 <= row <= 2,
            0 <= h,
    ;
}

/// Whether a canvas for tiles of `tile_width` by `tile_height` pixels can be
/// allocated on this machine.
pub fn canvas_fits(tile_width: u32, tile_height: u32) -> (fits: bool)
    ensures
        fits == spec_canvas_fits(tile_width as nat, tile_height as nat),
{
    if tile_width > u32::MAX / 4 || tile_height > u32::MAX / 3 {
        return false;
    }
    crate::raster::fits(4 * tile_width, 3 * tile_height)
}

/// The image that one skybox is composed on.
#[derive(Debug, PartialEq, Eq)]
pub struct Canvas {
    tile_width: u32,
    tile_height: u32,
    raster: Raster,
}

impl Canvas {
    /// The width of one cell.
    pub closed spec fn spec_tile_width(&self) -> nat {
        self.tile_width as nat
    }

    /// The height of one cell.
    pub closed spec fn spec_tile_height(&self) -> nat {
        self.tile_height as nat
    }

    /// The image composed so far.
    pub closed spec fn spec_raster(&self) -> RasterView {
        self.raster@
    }

    /// The image is four cells wide and three cells high.
    #[verifier::type_invariant]
    pub open spec fn well_formed(&self) -> bool {
        &&& self.spec_raster().well_formed()
        &&& self.spec_raster().width == 4 * self.spec_tile_width()
        &&& self.spec_raster().height == 3 * self.spec_tile_height()
    }

    /// An empty canvas for tiles of `tile_width` by `tile_height` pixels:
    /// four tiles wide, three tiles high, every pixel transparent black.
    pub fn new(tile_width: u32, tile_height: u32) -> (canvas: Canvas)
        requires
            spec_canvas_fits(tile_width as nat, tile_height as nat),
        ensures
            canvas.well_formed(),
            canvas.spec_tile_width() == tile_width,
            canvas.spec_tile_height() == tile_height,
            forall|c: int, r: int|
                canvas.spec_raster().contains(c, r) ==> #[trigger] canvas.spec_raster().pixel(c, r)
                    == seq![0u8, 0u8, 0u8, 0u8],
    {
        let raster = Raster::blank(4 * tile_width, 3 * tile_height);
        let canvas = Canvas { tile_width, tile_height, raster };
        proof {
            assert forall|c: int, r: int|
                canvas.spec_raster().contains(c, r) implies #[trigger] canvas.spec_raster().pixel(
                c,
                r,
            ) == seq![0u8, 0u8, 0u8, 0u8] by {
                canvas.spec_raster().lemma_offset_in_bounds(c, r);
                assert(canvas.spec_raster().pixel(c, r) =~= seq![0u8, 0u8, 0u8, 0u8]);
            }
        }
        canvas
    }

    /// The width of one cell.
    pub fn tile_width(&self) -> (width: u32)
        ensures
            width == self.spec_tile_width(),
    {
        self.tile_width
    }

    /// The height of one cell.
    pub fn tile_height(&self) -> (height: u32)
        ensures
            height == self.spec_tile_height(),
    {
        self.tile_height
    }

    /// The image composed so far.
    pub fn raster(&self) -> (raster: &Raster)
        ensures
            raster@ == self.spec_raster(),
            self.well_formed(),
    {
        proof {
            use_type_invariant(self);
        }
        &self.raster
    }

    /// The image composed so far.
    pub fn into_raster(self) -> (raster: Raster)
        ensures
            raster@ == self.spec_raster(),
            self.well_formed(),
    {
        proof {
            use_type_invariant(&self);
        }
        self.raster
    }

    /// Copies a tile into the cell of its face. A tile whose size is not that
    /// of a cell is refused and leaves the canvas as it was. Otherwise every
    /// pixel of the cell takes the bytes of the tile's pixel at the same
    /// place within the tile, and every pixel outside the cell keeps its
    /// bytes.
    pub fn place(&mut self, position: SkyboxTilePosition, tile: &Raster) -> (placed: Result<
        (),
        SkyboxError,
    >)
        ensures
            final(self).well_formed(),
            final(self).spec_tile_width() == old(self).spec_tile_width(),
            final(self).spec_tile_height() == old(self).spec_tile_height(),
            placed.is_ok() == (tile@.width == old(self).spec_tile_width() && tile@.height == old(
                self,
            ).spec_tile_height()),
            placed.is_err() ==> placed == Err::<(), SkyboxError>(SkyboxError::DimensionMismatch)
                && final(self).spec_raster() == old(self).spec_raster(),
            placed.is_ok() ==> forall|c: int, r: int|
                old(self).spec_raster().contains(c, r) ==> #[trigger] final(self).spec_raster().pixel(
                    c,
                    r,
                ) == (if spec_in_cell(
                    position,
                    old(self).spec_tile_width(),
                    old(self).spec_tile_height(),
                    c,
                    r,
                ) {
                    tile@.pixel(
                        c - position.spec_column() * old(self).spec_tile_width(),
                        r - position.spec_row() * old(self).spec_tile_height(),
                    )
                } else {
                    old(self).spec_raster().pixel(c, r)
                }),
    {
        proof {
            use_type_invariant(&*self);
            use_type_invariant(tile);
        }
        if tile.width() != self.tile_width || tile.height() != self.tile_height {
            return Err(SkyboxError::DimensionMismatch);
        }
        let column: u32 = position.column();
        let row: u32 = position.row();
        let width: u32 = self.raster.width();
        let height: u32 = self.raster.height();
        assert(column * self.tile_width + self.tile_width <= 4 * self.tile_width) by (nonlinear_arith)
            requires
                0 <= column <= 3,
        ;
        assert(row * self.tile_height + self.tile_height <= 3 * self.tile_height) by (nonlinear_arith)
            requires
                0 <= row <= 2,
        ;
        let x: u32 = column * self.tile_width;
        let y: u32 = row * self.tile_height;
        let copied: bool = copy_from(&mut self.raster, tile, x, y);
        assert(copied);
        Ok(())
    }
}

} // verus!
