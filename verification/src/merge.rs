//! Merging one group: the checks that decide whether its six tiles become a
//! skybox, the composition itself, and what is to be written and removed
//! afterwards.

use crate::canvas::{
    canvas_fits, lemma_cell_inside, lemma_cells_disjoint, spec_canvas_fits, spec_in_cell, Canvas,
};
use crate::error::SkyboxError;
use crate::group::{
    lemma_every_face_present, spec_mergeable, spec_paths, SkyboxGroup, SkyboxGroupView,
};
use crate::position::SKYBOX_TILES_AMOUNT;
use crate::raster::{lemma_pixels_determine_bytes, Raster, RasterView};
use crate::tile::{spec_result_file_name, SkyboxTile, SkyboxTileView};
use vstd::prelude::*;

verus! {

/// A merged skybox: the file to write, the image to write into it, and the
/// source files to remove once it is written.
#[derive(Debug, PartialEq, Eq)]
pub struct MergedSkybox {
    pub file_name: String,
    pub canvas: Raster,
    pub delete: Vec<String>,
}

/// The decoded image of the tile at place `k`; nothing where the tile could
/// not be decoded or the list holds no entry for it.
pub open spec fn spec_image(images: Seq<Option<Raster>>, k: int) -> Option<RasterView> {
    if 0 <= k < images.len() {
        match images[k] {
            Some(image) => Some(image@),
            None => None,
        }
    } else {
        None
    }
}

/// What is wrong with one tile's image, if anything: it is missing, or its
/// size is not `width` by `height`.
pub open spec fn spec_tile_fault(image: Option<RasterView>, width: nat, height: nat) -> Option<
    SkyboxError,
> {
    match image {
        None => Some(SkyboxError::TileDecode),
        Some(image) => if image.width == width && image.height == height {
            None
        } else {
            Some(SkyboxError::DimensionMismatch)
        },
    }
}

/// The fault of the first faulty tile among those at the places below
/// `upto`.
pub open spec fn spec_first_fault(
    images: Seq<Option<Raster>>,
    width: nat,
    height: nat,
    upto: int,
) -> Option<SkyboxError>
    decreases upto,
{
    if upto <= 0 {
        None
    } else {
        match spec_first_fault(images, width, height, upto - 1) {
            Some(fault) => Some(fault),
            None => spec_tile_fault(spec_image(images, upto - 1), width, height),
        }
    }
}

/// Why a group is not merged, if it is not: it is incomplete; or its first
/// tile, which sets the size, has no image; or one of its tiles is faulty.
pub open spec fn spec_merge_error(
    tiles: Seq<SkyboxTileView>,
    images: Seq<Option<Raster>>,
) -> Option<SkyboxError> {
    if !spec_mergeable(tiles) {
        Some(SkyboxError::IncompleteGroup)
    } else {
        match spec_image(images, 0) {
            None => Some(SkyboxError::ReferenceDecode),
            Some(reference) => spec_first_fault(
                images,
                reference.width,
                reference.height,
                SKYBOX_TILES_AMOUNT as int,
            ),
        }
    }
}

/// Whether the cell of one of the first `upto` tiles holds column `c` of row
/// `r`.
pub open spec fn spec_covered(
    tiles: Seq<SkyboxTileView>,
    upto: int,
    tile_width: nat,
    tile_height: nat,
    c: int,
    r: int,
) -> bool {
    exists|k: int|
        0 <= k < upto && spec_in_cell((#[trigger] tiles[k]).position, tile_width, tile_height, c, r)
}

/// Whether `canvas` shows the first `upto` tiles, each in the cell of its
/// face, on transparent black: every pixel of such a cell has the bytes of
/// the tile's pixel at the same place within the tile, and every other pixel
/// is four zero bytes.
pub open spec fn spec_is_composition(
    canvas: RasterView,
    tiles: Seq<SkyboxTileView>,
    images: Seq<Option<Raster>>,
    upto: int,
    tile_width: nat,
    tile_height: nat,
) -> bool {
    &&& canvas.well_formed()
    &&& canvas.width == 4 * tile_width
    &&& canvas.height == 3 * tile_height
    &&& forall|k: int, c: int, r: int|
        0 <= k < upto && spec_in_cell((#[trigger] tiles[k]).position, tile_width, tile_height, c, r)
            ==> #[trigger] canvas.pixel(c, r) == spec_image(images, k).unwrap().pixel(
            c - tiles[k].position.spec_column() * tile_width,
            r - tiles[k].position.spec_row() * tile_height,
        )
    &&& forall|c: int, r: int|
        canvas.contains(c, r) && !spec_covered(tiles, upto, tile_width, tile_height, c, r)
            ==> #[trigger] canvas.pixel(c, r) == seq![0u8, 0u8, 0u8, 0u8]
}

/// Whether `merged` is what merging `group` from `images` comes to: the
/// error that refuses the group, or else the skybox with its file name, its
/// canvas showing each tile in the cell of its face, and the paths to remove.
pub open spec fn spec_is_merge_of(
    merged: Result<MergedSkybox, SkyboxError>,
    group: SkyboxGroupView,
    images: Seq<Option<Raster>>,
    delete_input_files: bool,
) -> bool {
    match merged {
        Err(fault) => spec_merge_error(group.tiles, images) == Some(fault),
        Ok(skybox) => {
            let reference = spec_image(images, 0).unwrap();
            &&& spec_merge_error(group.tiles, images).is_none()
            &&& skybox.file_name@ == spec_result_file_name(group.prefix)
            &&& spec_is_composition(
                skybox.canvas@,
                group.tiles,
                images,
                SKYBOX_TILES_AMOUNT as int,
                reference.width,
                reference.height,
            )
            &&& spec_paths(skybox.delete@) == (if delete_input_files {
                Seq::new(group.tiles.len(), |k: int| group.tiles[k].path)
            } else {
                Seq::empty()
            })
        },
    }
}

/// Whether the canvas of a group can be allocated on this machine. There is
/// a canvas to allocate only for a complete group whose first tile has an
/// image.
pub open spec fn spec_merge_fits(tiles: Seq<SkyboxTileView>, images: Seq<Option<Raster>>) -> bool {
    spec_mergeable(tiles) && spec_image(images, 0).is_some() ==> spec_canvas_fits(
        spec_image(images, 0).unwrap().width,
        spec_image(images, 0).unwrap().height,
    )
}

/// Merges one group from the decoded images of its tiles, `images[k]` being
/// the image of the group's tile at place `k` and `None` standing for a tile
/// that could not be decoded.
///
/// The group is refused, and nothing is to be written or removed, where it
/// is incomplete, where its first tile has no image, and where any tile has
/// no image or a size other than that of the first; the first such tile
/// decides which error is returned. Otherwise the result names the file
/// `<prefix>skybox.png`, holds the canvas of four by three tiles with each
/// tile in the cell of its face, and lists the paths of the six tiles for
/// removal if `delete_input_files` is set, none if it is not.
pub fn merge_group(
    group: &SkyboxGroup,
    images: &Vec<Option<Raster>>,
    delete_input_files: bool,
) -> (merged: Result<MergedSkybox, SkyboxError>)
    requires
        spec_merge_fits(group@.tiles, images@),
    ensures
        spec_is_merge_of(merged, group@, images@, delete_input_files),
{
    if !group.is_complete() {
        return Err(SkyboxError::IncompleteGroup);
    }
    if images.len() == 0 {
        return Err(SkyboxError::ReferenceDecode);
    }
    let (width, height): (u32, u32) = match &images[0] {
        Some(reference) => (reference.width(), reference.height()),
        None => {
            return Err(SkyboxError::ReferenceDecode);
        },
    };
    let mut canvas: Canvas = Canvas::new(width, height);
    let ghost tiles = group@.tiles;
    let ghost tile_width = width as nat;
    let ghost tile_height = height as nat;
    let mut k: usize = 0;
    while k < SKYBOX_TILES_AMOUNT
        invariant
            k <= SKYBOX_TILES_AMOUNT,
            tiles == group@.tiles,
            spec_mergeable(tiles),
            group.tiles@.len() == SKYBOX_TILES_AMOUNT,
            tile_width == width,
            tile_height == height,
            spec_image(images@, 0).is_some(),
            spec_image(images@, 0).unwrap().width == tile_width,
            spec_image(images@, 0).unwrap().height == tile_height,
            canvas.well_formed(),
            canvas.spec_tile_width() == tile_width,
            canvas.spec_tile_height() == tile_height,
            spec_first_fault(images@, tile_width, tile_height, k as int).is_none(),
            spec_is_composition(
                canvas.spec_raster(),
                tiles,
                images@,
                k as int,
                tile_width,
                tile_height,
            ),
        decreases SKYBOX_TILES_AMOUNT - k,
    {
        proof {
            lemma_first_fault_stays(
                images@,
                tile_width,
                tile_height,
                k + 1,
                SKYBOX_TILES_AMOUNT as int,
            );
        }
        if k >= images.len() {
            return Err(SkyboxError::TileDecode);
        }
        match &images[k] {
            None => {
                return Err(SkyboxError::TileDecode);
            },
            Some(image) => {
                let ghost before = canvas.spec_raster();
                let position = group.tiles[k].position;
                assert(position == tiles[k as int].position);
                match canvas.place(position, image) {
                    Err(fault) => {
                        return Err(fault);
                    },
                    Ok(()) => {
                        proof {
                            lemma_composition_grows(
                                before,
                                canvas.spec_raster(),
                                tiles,
                                images@,
                                k as int,
                                tile_width,
                                tile_height,
                            );
                        }
                    },
                }
            },
        }
        k += 1;
    }
    let delete: Vec<String> = if delete_input_files {
        group.source_paths()
    } else {
        Vec::new()
    };
    proof {
        if !delete_input_files {
            assert(spec_paths(delete@) =~= Seq::empty());
        }
    }
    Ok(
        MergedSkybox {
            file_name: SkyboxTile::result_file_name(group.prefix.as_str()),
            canvas: canvas.into_raster(),
            delete,
        },
    )
}

/// Merges one group as [`merge_group`] does, where its canvas can be
/// allocated on this machine; nothing where it cannot.
pub fn try_merge_group(
    group: &SkyboxGroup,
    images: &Vec<Option<Raster>>,
    delete_input_files: bool,
) -> (merged: Option<Result<MergedSkybox, SkyboxError>>)
    ensures
        merged.is_some() == spec_merge_fits(group@.tiles, images@),
        merged.is_some() ==> spec_is_merge_of(
            merged.unwrap(),
            group@,
            images@,
            delete_input_files,
        ),
{
    if group.is_complete() && images.len() > 0 {
        match &images[0] {
            Some(reference) => {
                if !canvas_fits(reference.width(), reference.height()) {
                    return None;
                }
            },
            None => {},
        }
    }
    Some(merge_group(group, images, delete_input_files))
}

/// Once a tile is found faulty, looking at further tiles changes nothing.
proof fn lemma_first_fault_stays(
    images: Seq<Option<Raster>>,
    width: nat,
    height: nat,
    found: int,
    upto: int,
)
    requires
        found <= upto,
    ensures
        spec_first_fault(images, width, height, found).is_some() ==> spec_first_fault(
            images,
            width,
            height,
            upto,
        ) == spec_first_fault(images, width, height, found),
    decreases upto - found,
{
    if found < upto {
        lemma_first_fault_stays(images, width, height, found, upto - 1);
    }
}

/// Placing the next tile of a group with six different faces on a canvas
/// that shows the tiles before it gives a canvas that shows that tile too.
proof fn lemma_composition_grows(
    before: RasterView,
    after: RasterView,
    tiles: Seq<SkyboxTileView>,
    images: Seq<Option<Raster>>,
    k: int,
    tile_width: nat,
    tile_height: nat,
)
    requires
        spec_mergeable(tiles),
        0 <= k < tiles.len(),
        spec_is_composition(before, tiles, images, k, tile_width, tile_height),
        spec_image(images, k).is_some(),
        after.well_formed(),
        after.width == before.width,
        after.height == before.height,
        forall|c: int, r: int|
            before.contains(c, r) ==> #[trigger] after.pixel(c, r) == (if spec_in_cell(
                tiles[k].position,
                tile_width,
                tile_height,
                c,
                r,
            ) {
                spec_image(images, k).unwrap().pixel(
                    c - tiles[k].position.spec_column() * tile_width,
                    r - tiles[k].position.spec_row() * tile_height,
                )
            } else {
                before.pixel(c, r)
            }),
    ensures
        spec_is_composition(after, tiles, images, k + 1, tile_width, tile_height),
{
    assert forall|j: int, c: int, r: int|
        0 <= j < k + 1 && spec_in_cell(
            (#[trigger] tiles[j]).position,
            tile_width,
            tile_height,
            c,
            r,
        ) implies #[trigger] after.pixel(c, r) == spec_image(images, j).unwrap().pixel(
        c - tiles[j].position.spec_column() * tile_width,
        r - tiles[j].position.spec_row() * tile_height,
    ) by {
        lemma_cell_inside(tiles[j].position, tile_width, tile_height, c, r);
        assert(before.contains(c, r));
        if j < k {
            if spec_in_cell(tiles[k].position, tile_width, tile_height, c, r) {
                lemma_cells_disjoint(
                    tiles[j].position,
                    tiles[k].position,
                    tile_width,
                    tile_height,
                    c,
                    r,
                );
            }
            assert(before.pixel(c, r) == spec_image(images, j).unwrap().pixel(
                c - tiles[j].position.spec_column() * tile_width,
                r - tiles[j].position.spec_row() * tile_height,
            ));
        }
    }
    assert forall|c: int, r: int|
        after.contains(c, r) && !spec_covered(
            tiles,
            k + 1,
            tile_width,
            tile_height,
            c,
            r,
        ) implies #[trigger] after.pixel(c, r) == seq![0u8, 0u8, 0u8, 0u8] by {
        assert(!spec_in_cell(tiles[k].position, tile_width, tile_height, c, r));
        if spec_covered(tiles, k, tile_width, tile_height, c, r) {
            let j = choose|j: int|
                0 <= j < k && spec_in_cell(
                    (#[trigger] tiles[j]).position,
                    tile_width,
                    tile_height,
                    c,
                    r,
                );
            assert(0 <= j < k + 1);
        }
        assert(before.pixel(c, r) == seq![0u8, 0u8, 0u8, 0u8]);
    }
}

/// A group that does not hold exactly six tiles is refused as incomplete,
/// whatever its images are: there is nothing to write for it and none of
/// its files to remove.
pub proof fn lemma_incomplete_group_is_refused(
    tiles: Seq<SkyboxTileView>,
    images: Seq<Option<Raster>>,
)
    requires
        tiles.len() != SKYBOX_TILES_AMOUNT,
    ensures
        spec_merge_error(tiles, images) == Some(SkyboxError::IncompleteGroup),
{
}

/// A complete group whose tiles were all decoded, one of them with a size
/// other than that of the first, is refused for the mismatch: there is
/// nothing to write for it and none of its files to remove.
pub proof fn lemma_mismatch_is_refused(
    tiles: Seq<SkyboxTileView>,
    images: Seq<Option<Raster>>,
    odd: int,
)
    requires
        spec_mergeable(tiles),
        forall|k: int| 0 <= k < tiles.len() ==> (#[trigger] spec_image(images, k)).is_some(),
        0 <= odd < tiles.len(),
        spec_image(images, odd).unwrap().width != spec_image(images, 0).unwrap().width
            || spec_image(images, odd).unwrap().height != spec_image(images, 0).unwrap().height,
    ensures
        spec_merge_error(tiles, images) == Some(SkyboxError::DimensionMismatch),
{
    let reference = spec_image(images, 0).unwrap();
    lemma_decoded_faults(images, reference.width, reference.height, odd + 1);
    lemma_first_fault_stays(
        images,
        reference.width,
        reference.height,
        odd + 1,
        SKYBOX_TILES_AMOUNT as int,
    );
}

/// Among decoded tiles the only fault is a mismatch, and it is found as soon
/// as a tile of another size has been looked at.
proof fn lemma_decoded_faults(images: Seq<Option<Raster>>, width: nat, height: nat, upto: int)
    requires
        forall|k: int| 0 <= k < upto ==> (#[trigger] spec_image(images, k)).is_some(),
    ensures
        spec_first_fault(images, width, height, upto).is_none() || spec_first_fault(
            images,
            width,
            height,
            upto,
        ) == Some(SkyboxError::DimensionMismatch),
        spec_first_fault(images, width, height, upto).is_none() ==> forall|k: int|
            0 <= k < upto ==> (#[trigger] spec_image(images, k)).unwrap().width == width
                && spec_image(images, k).unwrap().height == height,
    decreases upto,
{
    if upto > 0 {
        lemma_decoded_faults(images, width, height, upto - 1);
        assert(spec_image(images, upto - 1).is_some());
    }
}

/// A merged skybox is four tiles wide and three tiles high, and shows every
/// pixel of every tile, unchanged, at the same place within the cell of the
/// tile's face.
pub proof fn lemma_composition_shows_each_tile(
    canvas: RasterView,
    tiles: Seq<SkyboxTileView>,
    images: Seq<Option<Raster>>,
    tile_width: nat,
    tile_height: nat,
    k: int,
    x: int,
    y: int,
)
    requires
        spec_is_composition(
            canvas,
            tiles,
            images,
            SKYBOX_TILES_AMOUNT as int,
            tile_width,
            tile_height,
        ),
        0 <= k < SKYBOX_TILES_AMOUNT,
        0 <= x < tile_width,
        0 <= y < tile_height,
    ensures
        canvas.width == 4 * tile_width,
        canvas.height == 3 * tile_height,
        canvas.contains(
            tiles[k].position.spec_column() * tile_width + x,
            tiles[k].position.spec_row() * tile_height + y,
        ),
        canvas.pixel(
            tiles[k].position.spec_column() * tile_width + x,
            tiles[k].position.spec_row() * tile_height + y,
        ) == spec_image(images, k).unwrap().pixel(x, y),
{
    let c = tiles[k].position.spec_column() * tile_width + x;
    let r = tiles[k].position.spec_row() * tile_height + y;
    assert(spec_in_cell(tiles[k].position, tile_width, tile_height, c, r));
    lemma_cell_inside(tiles[k].position, tile_width, tile_height, c, r);
}

/// The order of a group's tiles does not show in the merged skybox: two
/// complete groups that hold the same image for each face compose to the
/// same canvas, byte for byte.
pub proof fn lemma_composition_ignores_order(
    canvas: RasterView,
    tiles: Seq<SkyboxTileView>,
    images: Seq<Option<Raster>>,
    other_canvas: RasterView,
    other_tiles: Seq<SkyboxTileView>,
    other_images: Seq<Option<Raster>>,
    tile_width: nat,
    tile_height: nat,
)
    requires
        spec_mergeable(tiles),
        spec_mergeable(other_tiles),
        spec_is_composition(
            canvas,
            tiles,
            images,
            SKYBOX_TILES_AMOUNT as int,
            tile_width,
            tile_height,
        ),
        spec_is_composition(
            other_canvas,
            other_tiles,
            other_images,
            SKYBOX_TILES_AMOUNT as int,
            tile_width,
            tile_height,
        ),
        forall|i: int, j: int|
            0 <= i < tiles.len() && 0 <= j < other_tiles.len() && (#[trigger] tiles[i]).position
                == (#[trigger] other_tiles[j]).position ==> spec_image(images, i) == spec_image(
                other_images,
                j,
            ),
    ensures
        canvas == other_canvas,
{
    let n = SKYBOX_TILES_AMOUNT as int;
    assert forall|c: int, r: int| canvas.contains(c, r) implies #[trigger] canvas.pixel(c, r)
        == other_canvas.pixel(c, r) by {
        if spec_covered(tiles, n, tile_width, tile_height, c, r) {
            let i = choose|i: int|
                0 <= i < n && spec_in_cell(
                    (#[trigger] tiles[i]).position,
                    tile_width,
                    tile_height,
                    c,
                    r,
                );
            lemma_every_face_present(other_tiles, tiles[i].position);
            let j = choose|j: int|
                0 <= j < other_tiles.len() && (#[trigger] other_tiles[j]).position
                    == tiles[i].position;
            assert(spec_in_cell(other_tiles[j].position, tile_width, tile_height, c, r));
        } else {
            if spec_covered(other_tiles, n, tile_width, tile_height, c, r) {
                let j = choose|j: int|
                    0 <= j < n && spec_in_cell(
                        (#[trigger] other_tiles[j]).position,
                        tile_width,
                        tile_height,
                        c,
                        r,
                    );
                lemma_every_face_present(tiles, other_tiles[j].position);
                let i = choose|i: int|
                    0 <= i < tiles.len() && (#[trigger] tiles[i]).position
                        == other_tiles[j].position;
                assert(spec_in_cell(tiles[i].position, tile_width, tile_height, c, r));
            }
        }
    }
    lemma_pixels_determine_bytes(canvas, other_canvas);
}

} // verus!
