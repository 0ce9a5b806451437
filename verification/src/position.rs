//! The six faces of a cube map: their file-name suffixes and their cells in
//! the unfolded cross.

use vstd::prelude::*;

verus! {

/// Number of tiles that make up one skybox.
pub const SKYBOX_TILES_AMOUNT: usize = 6;

/// Number of tile columns of the unfolded cross.
pub const CANVAS_COLUMNS: u32 = 4;

/// Number of tile rows of the unfolded cross.
pub const CANVAS_ROWS: u32 = 3;

/// The face of the cube that a tile shows.
#[derive(Clone, Copy, Debug, PartialEq, Eq, Structural, Hash)]
pub enum SkyboxTilePosition {
    Left,
    Right,
    Up,
    Down,
    Front,
    Back,
}

impl SkyboxTilePosition {
    /// The file-name suffix that marks a tile of this face.
    pub open spec fn spec_suffix(self) -> Seq<char> {
        match self {
            SkyboxTilePosition::Left => "left.png"@,
            SkyboxTilePosition::Right => "right.png"@,
            SkyboxTilePosition::Up => "up.png"@,
            SkyboxTilePosition::Down => "down.png"@,
            SkyboxTilePosition::Front => "front.png"@,
            SkyboxTilePosition::Back => "back.png"@,
        }
    }

    /// The column of this face's cell, counted in tiles from the left.
    pub open spec fn spec_column(self) -> int {
        match self {
            SkyboxTilePosition::Left => 0,
            SkyboxTilePosition::Right => 2,
            SkyboxTilePosition::Up => 1,
            SkyboxTilePosition::Down => 1,
            SkyboxTilePosition::Front => 1,
            SkyboxTilePosition::Back => 3,
        }
    }

    /// The row of this face's cell, counted in tiles from the top.
    pub open spec fn spec_row(self) -> int {
        match self {
            SkyboxTilePosition::Left => 1,
            SkyboxTilePosition::Right => 1,
            SkyboxTilePosition::Up => 0,
            SkyboxTilePosition::Down => 2,
            SkyboxTilePosition::Front => 1,
            SkyboxTilePosition::Back => 1,
        }
    }

    /// The file-name suffix that marks a tile of this face.
    pub fn suffix(self) -> (suffix: &'static str)
        ensures
            suffix@ == self.spec_suffix(),
    {
        match self {
            SkyboxTilePosition::Left => "left.png",
            SkyboxTilePosition::Right => "right.png",
            SkyboxTilePosition::Up => "up.png",
            SkyboxTilePosition::Down => "down.png",
            SkyboxTilePosition::Front => "front.png",
            SkyboxTilePosition::Back => "back.png",
        }
    }

    /// The column of this face's cell, counted in tiles from the left.
    pub fn column(self) -> (column: u32)
        ensures
            column == self.spec_column(),
            column < CANVAS_COLUMNS,
    {
        match self {
            SkyboxTilePosition::Left => 0,
            SkyboxTilePosition::Right => 2,
            SkyboxTilePosition::Up => 1,
            SkyboxTilePosition::Down => 1,
            SkyboxTilePosition::Front => 1,
            SkyboxTilePosition::Back => 3,
        }
    }

    /// The row of this face's cell, counted in tiles from the top.
    pub fn row(self) -> (row: u32)
        ensures
            row == self.spec_row(),
            row < CANVAS_ROWS,
    {
        match self {
            SkyboxTilePosition::Left => 1,
            SkyboxTilePosition::Right => 1,
            SkyboxTilePosition::Up => 0,
            SkyboxTilePosition::Down => 2,
            SkyboxTilePosition::Front => 1,
            SkyboxTilePosition::Back => 1,
        }
    }

    /// No two faces share a cell of the cross, and every cell lies inside the
    /// grid of four columns and three rows.
    pub proof fn lemma_cells_distinct(a: SkyboxTilePosition, b: SkyboxTilePosition)
        ensures
            0 <= a.spec_column() < CANVAS_COLUMNS,
            0 <= a.spec_row() < CANVAS_ROWS,
            a != b ==> a.spec_column() != b.spec_column() || a.spec_row() != b.spec_row(),
    {
    }

    /// A file name ends with the suffix of at most one face.
    pub proof fn lemma_suffix_exclusive(
        name: Seq<char>,
        a: SkyboxTilePosition,
        b: SkyboxTilePosition,
    )
        requires
            a.spec_suffix().is_suffix_of(name),
            b.spec_suffix().is_suffix_of(name),
        ensures
            a == b,
    {
        reveal_strlit("left.png");
        reveal_strlit("right.png");
        reveal_strlit("up.png");
        reveal_strlit("down.png");
        reveal_strlit("front.png");
        reveal_strlit("back.png");
        let n = name.len() as int;
        let sa = a.spec_suffix();
        let sb = b.spec_suffix();
        assert(sa =~= name.subrange(n - sa.len(), n));
        assert(sb =~= name.subrange(n - sb.len(), n));
        // The fifth and sixth characters from the end tell the six suffixes apart.
        assert(sa[sa.len() - 5] == name[n - 5]);
        assert(sb[sb.len() - 5] == name[n - 5]);
        assert(sa[sa.len() - 6] == name[n - 6]);
        assert(sb[sb.len() - 6] == name[n - 6]);
    }
}

} // verus!
