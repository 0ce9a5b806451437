//! Groups: the tiles that share a prefix, in the order in which they were
//! found.

use crate::error::SkyboxError;
use crate::position::{SkyboxTilePosition, SKYBOX_TILES_AMOUNT};
use crate::tile::{
    classify, lemma_classified_name, lemma_classify_tile_name, spec_classify,
    spec_result_file_name, SkyboxTile, SkyboxTileView,
};
use vstd::prelude::*;
use vstd::string::*;

verus! {

/// The tiles that share one prefix.
#[derive(Clone, Debug, PartialEq, Eq)]
pub struct SkyboxGroup {
    pub prefix: String,
    pub tiles: Vec<SkyboxTile>,
}

/// What a [`SkyboxGroup`] holds, as mathematical values.
pub struct SkyboxGroupView {
    pub prefix: Seq<char>,
    pub tiles: Seq<SkyboxTileView>,
}

/// The strings of a list, each as its characters.
pub open spec fn spec_paths(paths: Seq<String>) -> Seq<Seq<char>> {
    Seq::new(paths.len(), |i: int| paths[i]@)
}

/// The tiles of a list, each as its view.
pub open spec fn spec_tiles(tiles: Seq<SkyboxTile>) -> Seq<SkyboxTileView> {
    Seq::new(tiles.len(), |i: int| tiles[i]@)
}

/// The groups of a list, each as its view.
pub open spec fn spec_groups(groups: Seq<SkyboxGroup>) -> Seq<SkyboxGroupView> {
    Seq::new(groups.len(), |i: int| groups[i]@)
}

impl View for SkyboxGroup {
    type V = SkyboxGroupView;

    open spec fn view(&self) -> SkyboxGroupView {
        SkyboxGroupView { prefix: self.prefix@, tiles: spec_tiles(self.tiles@) }
    }
}

/// The tiles that a list of paths holds: each path that is classified as a
/// tile, in the order of the paths.
pub open spec fn spec_classify_all(paths: Seq<Seq<char>>) -> Seq<SkyboxTileView> {
    paths.filter_map(|path: Seq<char>| spec_classify(path))
}

/// The tiles of a list that carry the given prefix, in the order of the list.
pub open spec fn spec_tiles_with_prefix(
    tiles: Seq<SkyboxTileView>,
    prefix: Seq<char>,
) -> Seq<SkyboxTileView> {
    tiles.filter(|tile: SkyboxTileView| tile.prefix == prefix)
}

/// The place of the first tile of a list that carries the given prefix; the
/// length of the list where no tile carries it.
pub open spec fn spec_first_index(tiles: Seq<SkyboxTileView>, prefix: Seq<char>) -> int
    decreases tiles.len(),
{
    if tiles.len() == 0 {
        0
    } else {
        let before = spec_first_index(tiles.drop_last(), prefix);
        if before < tiles.len() - 1 {
            before
        } else if tiles.last().prefix == prefix {
            tiles.len() - 1
        } else {
            tiles.len() as int
        }
    }
}

/// Whether `groups` is the grouping of `tiles` by prefix: every group holds
/// exactly the tiles of its prefix, in their order; every tile's prefix has
/// a group; no prefix has two; and the groups stand in the order in which
/// their first tiles were found.
pub open spec fn spec_is_grouping(
    groups: Seq<SkyboxGroupView>,
    tiles: Seq<SkyboxTileView>,
) -> bool {
    &&& forall|i: int|
        0 <= i < groups.len() ==> (#[trigger] groups[i]).tiles == spec_tiles_with_prefix(
            tiles,
            groups[i].prefix,
        ) && groups[i].tiles.len() > 0
    &&& forall|k: int|
        0 <= k < tiles.len() ==> exists|i: int|
            0 <= i < groups.len() && (#[trigger] groups[i]).prefix == (#[trigger] tiles[k]).prefix
    &&& forall|i: int, j: int|
        0 <= i < j < groups.len() ==> (#[trigger] groups[i]).prefix != (#[trigger] groups[j]).prefix
    &&& forall|i: int, j: int|
        0 <= i < j < groups.len() ==> spec_first_index(tiles, (#[trigger] groups[i]).prefix)
            < spec_first_index(tiles, (#[trigger] groups[j]).prefix)
    &&& forall|i: int|
        0 <= i < groups.len() ==> spec_first_index(tiles, (#[trigger] groups[i]).prefix)
            < tiles.len()
}

/// Whether a group can be merged: it holds six tiles, no two of them of the
/// same face.
pub open spec fn spec_mergeable(tiles: Seq<SkyboxTileView>) -> bool {
    &&& tiles.len() == SKYBOX_TILES_AMOUNT
    &&& forall|i: int, j: int|
        0 <= i < j < tiles.len() ==> (#[trigger] tiles[i]).position != (#[trigger] tiles[j]).position
}

/// The names of the files that the groups' skyboxes would be written to, in
/// the order of the groups, with a comma between one and the next.
pub open spec fn spec_skybox_names(groups: Seq<SkyboxGroupView>) -> Seq<char>
    decreases groups.len(),
{
    if groups.len() == 0 {
        Seq::empty()
    } else if groups.len() == 1 {
        spec_result_file_name(groups[0].prefix)
    } else {
        spec_skybox_names(groups.drop_last()) + seq![','] + spec_result_file_name(
            groups.last().prefix,
        )
    }
}

/// Whether one of the tiles shows the given face.
pub open spec fn spec_holds_face(tiles: Seq<SkyboxTileView>, position: SkyboxTilePosition) -> bool {
    exists|k: int| 0 <= k < tiles.len() && (#[trigger] tiles[k]).position == position
}

/// Adding a tile at the end adds it to the tiles of its prefix and to no
/// others.
pub proof fn lemma_tiles_with_prefix_push(
    tiles: Seq<SkyboxTileView>,
    tile: SkyboxTileView,
    prefix: Seq<char>,
)
    ensures
        spec_tiles_with_prefix(tiles.push(tile), prefix) == (if tile.prefix == prefix {
            spec_tiles_with_prefix(tiles, prefix).push(tile)
        } else {
            spec_tiles_with_prefix(tiles, prefix)
        }),
{
    reveal(Seq::filter);
    assert(tiles.push(tile).drop_last() =~= tiles);
}

/// The first tile with a prefix stands where no earlier tile carries the
/// prefix; where the list holds no such tile, the place is the list's
/// length.
pub proof fn lemma_first_index(tiles: Seq<SkyboxTileView>, prefix: Seq<char>)
    ensures
        0 <= spec_first_index(tiles, prefix) <= tiles.len(),
        spec_first_index(tiles, prefix) < tiles.len() ==> tiles[spec_first_index(
            tiles,
            prefix,
        )].prefix == prefix,
        forall|k: int|
            0 <= k < spec_first_index(tiles, prefix) ==> (#[trigger] tiles[k]).prefix != prefix,
    decreases tiles.len(),
{
    if tiles.len() > 0 {
        let head = tiles.drop_last();
        lemma_first_index(head, prefix);
        assert forall|k: int| 0 <= k < spec_first_index(tiles, prefix) implies (#[trigger] tiles[k]).prefix
            != prefix by {
            if k < head.len() {
                assert(head[k] == tiles[k]);
            }
        }
        if spec_first_index(tiles, prefix) < head.len() {
            assert(head[spec_first_index(head, prefix)] == tiles[spec_first_index(tiles, prefix)]);
        }
    }
}

/// Where every path of a list is classified as a tile, the tiles of the list
/// are the tiles of its paths, one for one.
pub proof fn lemma_classify_all_tiles(paths: Seq<Seq<char>>)
    requires
        forall|k: int| 0 <= k < paths.len() ==> spec_classify(#[trigger] paths[k]).is_some(),
    ensures
        spec_classify_all(paths) == Seq::new(
            paths.len(),
            |k: int| spec_classify(paths[k]).unwrap(),
        ),
    decreases paths.len(),
{
    let tiles = Seq::new(paths.len(), |k: int| spec_classify(paths[k]).unwrap());
    if paths.len() == 0 {
        assert(spec_classify_all(paths) =~= tiles);
    } else {
        let head = paths.drop_last();
        assert forall|k: int| 0 <= k < head.len() implies spec_classify(
            #[trigger] head[k],
        ).is_some() by {
            assert(head[k] == paths[k]);
        }
        lemma_classify_all_tiles(head);
        assert(spec_classify(paths.last()).is_some());
        assert(spec_classify_all(paths) =~= tiles);
    }
}

/// Every tile of a list of paths is the tile that its own path is
/// classified as.
pub proof fn lemma_tiles_are_classified(paths: Seq<Seq<char>>, k: int)
    requires
        0 <= k < spec_classify_all(paths).len(),
    ensures
        paths.contains(spec_classify_all(paths)[k].path),
        spec_classify(spec_classify_all(paths)[k].path) == Some(spec_classify_all(paths)[k]),
{
    let classify = |path: Seq<char>| spec_classify(path);
    let tile = spec_classify_all(paths)[k];
    assert(paths.filter_map(classify).contains(tile));
    paths.lemma_filter_map_contains(classify, tile);
    let path = choose|path: Seq<char>| #[trigger] paths.contains(path) && classify(path) == Some(tile);
    lemma_classified_name(path);
}

/// Every tile of every group is the tile that its own path, one of the paths
/// that were given, is classified as.
pub proof fn lemma_grouped_tiles_are_classified(
    paths: Seq<Seq<char>>,
    groups: Seq<SkyboxGroupView>,
    i: int,
    j: int,
)
    requires
        spec_is_grouping(groups, spec_classify_all(paths)),
        0 <= i < groups.len(),
        0 <= j < groups[i].tiles.len(),
    ensures
        paths.contains(groups[i].tiles[j].path),
        spec_classify(groups[i].tiles[j].path) == Some(groups[i].tiles[j]),
        groups[i].tiles[j].prefix == groups[i].prefix,
{
    let tiles = spec_classify_all(paths);
    let tile = groups[i].tiles[j];
    let pred = |tile: SkyboxTileView| tile.prefix == groups[i].prefix;
    assert(groups[i].tiles == tiles.filter(pred));
    assert(tiles.filter(pred).contains(tile));
    tiles.lemma_filter_contains_rev(pred, tile);
    tiles.lemma_filter_pred(pred, j);
    let k = choose|k: int| 0 <= k < tiles.len() && tiles[k] == tile;
    lemma_tiles_are_classified(paths, k);
}

/// A file whose name ends with none of the six suffixes is in no group.
pub proof fn lemma_other_files_in_no_group(
    paths: Seq<Seq<char>>,
    groups: Seq<SkyboxGroupView>,
    path: Seq<char>,
    i: int,
    j: int,
)
    requires
        spec_is_grouping(groups, spec_classify_all(paths)),
        spec_classify(path).is_none(),
        0 <= i < groups.len(),
        0 <= j < groups[i].tiles.len(),
    ensures
        groups[i].tiles[j].path != path,
{
    lemma_grouped_tiles_are_classified(paths, groups, i, j);
}

/// Where every tile of a list carries one prefix, the tiles of that prefix
/// are the whole list.
proof fn lemma_tiles_with_prefix_all(tiles: Seq<SkyboxTileView>, prefix: Seq<char>)
    requires
        forall|k: int| 0 <= k < tiles.len() ==> (#[trigger] tiles[k]).prefix == prefix,
    ensures
        spec_tiles_with_prefix(tiles, prefix) == tiles,
    decreases tiles.len(),
{
    reveal(Seq::filter);
    if tiles.len() > 0 {
        let head = tiles.drop_last();
        assert forall|k: int| 0 <= k < head.len() implies (#[trigger] head[k]).prefix
            == prefix by {
            assert(head[k] == tiles[k]);
        }
        lemma_tiles_with_prefix_all(head, prefix);
        assert(head.push(tiles.last()) =~= tiles);
    }
}

/// A group of six tiles with six different faces holds every face.
pub proof fn lemma_every_face_present(tiles: Seq<SkyboxTileView>, position: SkyboxTilePosition)
    requires
        spec_mergeable(tiles),
    ensures
        spec_holds_face(tiles, position),
{
    let (a, b, c) = (tiles[0].position, tiles[1].position, tiles[2].position);
    let (d, e, f) = (tiles[3].position, tiles[4].position, tiles[5].position);
    assert(a != b && a != c && a != d && a != e && a != f);
    assert(b != c && b != d && b != e && b != f);
    assert(c != d && c != e && c != f);
    assert(d != e && d != f && e != f);
    assert(a == position || b == position || c == position || d == position || e == position
        || f == position);
}

/// The six files of one skybox, named by a common prefix and the six
/// suffixes and given in any order, form one complete group under that
/// prefix: it holds one tile for each file, in the order of the files, and
/// so each face once.
pub proof fn lemma_six_names_form_one_group(
    directory: Seq<char>,
    prefix: Seq<char>,
    faces: Seq<SkyboxTilePosition>,
    paths: Seq<Seq<char>>,
    groups: Seq<SkyboxGroupView>,
)
    requires
        directory.len() == 0 || directory.last() == '/',
        forall|i: int| 0 <= i < prefix.len() ==> prefix[i] != '/',
        faces.len() == SKYBOX_TILES_AMOUNT,
        forall|i: int, j: int| 0 <= i < j < faces.len() ==> faces[i] != faces[j],
        paths.len() == faces.len(),
        forall|k: int|
            0 <= k < paths.len() ==> #[trigger] paths[k] == directory + prefix
                + faces[k].spec_suffix(),
        spec_is_grouping(groups, spec_classify_all(paths)),
    ensures
        groups.len() == 1,
        groups[0].prefix == prefix,
        groups[0].tiles == Seq::new(
            paths.len(),
            |k: int| SkyboxTileView { path: paths[k], prefix, position: faces[k] },
        ),
        spec_mergeable(groups[0].tiles),
        forall|position: SkyboxTilePosition| #[trigger] spec_holds_face(groups[0].tiles, position),
{
    let expected = Seq::new(
        paths.len(),
        |k: int| SkyboxTileView { path: paths[k], prefix, position: faces[k] },
    );
    assert forall|k: int| 0 <= k < paths.len() implies spec_classify(#[trigger] paths[k])
        == Some(expected[k]) by {
        lemma_classify_tile_name(directory, prefix, faces[k]);
    }
    lemma_classify_all_tiles(paths);
    let tiles = spec_classify_all(paths);
    assert(tiles =~= expected);
    lemma_tiles_with_prefix_all(tiles, prefix);
    assert forall|i: int| 0 <= i < groups.len() implies (#[trigger] groups[i]).prefix
        == prefix by {
        if groups[i].prefix != prefix {
            lemma_tiles_with_prefix_absent(tiles, groups[i].prefix);
        }
    }
    assert(tiles[0].prefix == prefix);
    let first = choose|i: int|
        0 <= i < groups.len() && (#[trigger] groups[i]).prefix == tiles[0].prefix;
    if groups.len() > 1 {
        assert(groups[0].prefix != groups[1].prefix);
    }
    assert(groups[0].tiles == expected);
    assert(spec_mergeable(expected));
    assert forall|position: SkyboxTilePosition| #[trigger]
        spec_holds_face(groups[0].tiles, position) by {
        lemma_every_face_present(expected, position);
    }
}

/// The tiles among `paths`, in the order of the paths. A path whose file
/// name ends with none of the six suffixes gives no tile.
pub fn classify_all(paths: &Vec<String>) -> (tiles: Vec<SkyboxTile>)
    ensures
        spec_tiles(tiles@) == spec_classify_all(spec_paths(paths@)),
{
    let mut tiles: Vec<SkyboxTile> = Vec::new();
    let mut k: usize = 0;
    while k < paths.len()
        invariant
            k <= paths.len(),
            spec_tiles(tiles@) == spec_classify_all(spec_paths(paths@).take(k as int)),
        decreases paths.len() - k,
    {
        let ghost before = spec_tiles(tiles@);
        proof {
            let all = spec_paths(paths@);
            assert(all.take(k + 1).drop_last() =~= all.take(k as int));
            assert(all.take(k + 1).last() == paths@[k as int]@);
        }
        match classify(paths[k].clone()) {
            Some(tile) => {
                tiles.push(tile);
                proof {
                    assert(spec_tiles(tiles@) =~= before + seq![tile@]);
                }
            },
            None => {
                proof {
                    assert(spec_tiles(tiles@) =~= before);
                }
            },
        }
        k += 1;
    }
    proof {
        assert(spec_paths(paths@).take(k as int) =~= spec_paths(paths@));
    }
    tiles
}

/// No tile carries a prefix that no tile of the list has.
proof fn lemma_tiles_with_prefix_absent(tiles: Seq<SkyboxTileView>, prefix: Seq<char>)
    requires
        forall|k: int| 0 <= k < tiles.len() ==> (#[trigger] tiles[k]).prefix != prefix,
    ensures
        spec_tiles_with_prefix(tiles, prefix).len() == 0,
        spec_first_index(tiles, prefix) == tiles.len(),
{
    let pred = |tile: SkyboxTileView| tile.prefix == prefix;
    let found = tiles.filter(pred);
    if found.len() > 0 {
        tiles.lemma_filter_pred(pred, 0);
        assert(found.contains(found[0]));
        tiles.lemma_filter_contains_rev(pred, found[0]);
    }
    lemma_first_index(tiles, prefix);
}

/// A grouping stays one when a tile is added to the list and to the group of
/// its prefix.
proof fn lemma_grouping_join(
    groups: Seq<SkyboxGroupView>,
    tiles: Seq<SkyboxTileView>,
    tile: SkyboxTileView,
    at: int,
    joined: Seq<SkyboxGroupView>,
)
    requires
        spec_is_grouping(groups, tiles),
        0 <= at < groups.len(),
        groups[at].prefix == tile.prefix,
        joined == groups.update(
            at,
            SkyboxGroupView { prefix: tile.prefix, tiles: groups[at].tiles.push(tile) },
        ),
    ensures
        spec_is_grouping(joined, tiles.push(tile)),
{
    let longer = tiles.push(tile);
    assert(longer.drop_last() =~= tiles);
    assert forall|i: int| 0 <= i < joined.len() implies (#[trigger] joined[i]).tiles
        == spec_tiles_with_prefix(longer, joined[i].prefix) && joined[i].tiles.len() > 0
        && spec_first_index(longer, joined[i].prefix) == spec_first_index(
        tiles,
        groups[i].prefix,
    ) && joined[i].prefix == groups[i].prefix by {
        lemma_tiles_with_prefix_push(tiles, tile, groups[i].prefix);
        if i != at {
            if i < at {
                assert(groups[i].prefix != groups[at].prefix);
            } else {
                assert(groups[at].prefix != groups[i].prefix);
            }
        }
    }
    assert forall|k: int| 0 <= k < longer.len() implies exists|i: int|
        0 <= i < joined.len() && (#[trigger] joined[i]).prefix == (#[trigger] longer[k]).prefix by {
        if k < tiles.len() {
            assert(longer[k] == tiles[k]);
            let i = choose|i: int|
                0 <= i < groups.len() && (#[trigger] groups[i]).prefix == tiles[k].prefix;
            assert(joined[i].prefix == longer[k].prefix);
        } else {
            assert(joined[at].prefix == longer[k].prefix);
        }
    }
}

/// A grouping stays one when a tile whose prefix no group has is added to
/// the list, and a group of that tile alone is added behind the others.
proof fn lemma_grouping_open(
    groups: Seq<SkyboxGroupView>,
    tiles: Seq<SkyboxTileView>,
    tile: SkyboxTileView,
    opened: Seq<SkyboxGroupView>,
)
    requires
        spec_is_grouping(groups, tiles),
        forall|i: int| 0 <= i < groups.len() ==> (#[trigger] groups[i]).prefix != tile.prefix,
        opened == groups.push(SkyboxGroupView { prefix: tile.prefix, tiles: seq![tile] }),
    ensures
        spec_is_grouping(opened, tiles.push(tile)),
{
    let longer = tiles.push(tile);
    assert(longer.drop_last() =~= tiles);
    assert forall|k: int| 0 <= k < tiles.len() implies (#[trigger] tiles[k]).prefix
        != tile.prefix by {
        let i = choose|i: int|
            0 <= i < groups.len() && (#[trigger] groups[i]).prefix == tiles[k].prefix;
    }
    lemma_tiles_with_prefix_absent(tiles, tile.prefix);
    assert forall|i: int| 0 <= i < opened.len() implies (#[trigger] opened[i]).tiles
        == spec_tiles_with_prefix(longer, opened[i].prefix) && opened[i].tiles.len() > 0
        && spec_first_index(longer, opened[i].prefix) == (if i < groups.len() {
        spec_first_index(tiles, groups[i].prefix)
    } else {
        tiles.len() as int
    }) by {
        lemma_tiles_with_prefix_push(tiles, tile, opened[i].prefix);
        if i < groups.len() {
            assert(opened[i] == groups[i]);
        } else {
            assert(spec_tiles_with_prefix(tiles, tile.prefix).push(tile) =~= seq![tile]);
        }
    }
    assert forall|k: int| 0 <= k < longer.len() implies exists|i: int|
        0 <= i < opened.len() && (#[trigger] opened[i]).prefix == (#[trigger] longer[k]).prefix by {
        if k < tiles.len() {
            assert(longer[k] == tiles[k]);
            let i = choose|i: int|
                0 <= i < groups.len() && (#[trigger] groups[i]).prefix == tiles[k].prefix;
            assert(opened[i].prefix == longer[k].prefix);
        } else {
            assert(opened[groups.len() as int].prefix == longer[k].prefix);
        }
    }
}

/// The place of the first group with the given prefix, if there is one.
pub fn find_group(groups: &Vec<SkyboxGroup>, prefix: &String) -> (found: Option<usize>)
    ensures
        match found {
            Some(at) => at < groups.len() && groups[at as int].prefix@ == prefix@ && forall|
                i: int,
            | 0 <= i < at ==> (#[trigger] groups[i]).prefix@ != prefix@,
            None => forall|i: int|
                0 <= i < groups.len() ==> (#[trigger] groups[i]).prefix@ != prefix@,
        },
{
    let mut i: usize = 0;
    while i < groups.len()
        invariant
            i <= groups.len(),
            forall|j: int| 0 <= j < i ==> (#[trigger] groups[j]).prefix@ != prefix@,
        decreases groups.len() - i,
    {
        if groups[i].prefix == *prefix {
            return Some(i);
        }
        i += 1;
    }
    None
}

/// Gathers tiles into groups by prefix. Each tile is appended to the group
/// of its prefix; the first tile of a prefix opens a group behind those that
/// exist. A group may come to hold any number of tiles, and a face more
/// than once: whether it can be merged is decided later.
pub fn group_tiles(tiles: &Vec<SkyboxTile>) -> (groups: Vec<SkyboxGroup>)
    ensures
        spec_is_grouping(spec_groups(groups@), spec_tiles(tiles@)),
{
    let mut groups: Vec<SkyboxGroup> = Vec::new();
    let mut k: usize = 0;
    while k < tiles.len()
        invariant
            k <= tiles.len(),
            spec_is_grouping(spec_groups(groups@), spec_tiles(tiles@).take(k as int)),
        decreases tiles.len() - k,
    {
        let tile: SkyboxTile = tiles[k].duplicate();
        let ghost before = spec_groups(groups@);
        let ghost seen = spec_tiles(tiles@).take(k as int);
        proof {
            assert(spec_tiles(tiles@).take(k + 1) =~= seen.push(tile@));
        }
        match find_group(&groups, &tile.prefix) {
            Some(at) => {
                let ghost old_tiles = groups[at as int].tiles@;
                groups[at].tiles.push(tile);
                proof {
                    assert(spec_tiles(groups[at as int].tiles@) =~= spec_tiles(old_tiles).push(
                        tile@,
                    ));
                    assert(spec_groups(groups@) =~= before.update(
                        at as int,
                        SkyboxGroupView {
                            prefix: tile@.prefix,
                            tiles: before[at as int].tiles.push(tile@),
                        },
                    ));
                    lemma_grouping_join(before, seen, tile@, at as int, spec_groups(groups@));
                }
            },
            None => {
                let prefix: String = tile.prefix.clone();
                let mut first: Vec<SkyboxTile> = Vec::new();
                first.push(tile);
                groups.push(SkyboxGroup { prefix, tiles: first });
                proof {
                    assert(spec_tiles(first@) =~= seq![tile@]);
                    assert(spec_groups(groups@) =~= before.push(
                        SkyboxGroupView { prefix: tile@.prefix, tiles: seq![tile@] },
                    ));
                    lemma_grouping_open(before, seen, tile@, spec_groups(groups@));
                }
            },
        }
        k += 1;
    }
    proof {
        assert(spec_tiles(tiles@).take(k as int) =~= spec_tiles(tiles@));
    }
    groups
}

/// Classifies the paths and gathers the tiles among them into groups by
/// prefix. Fewer than six tiles in all is an error of the whole run.
pub fn get_skyboxes(paths: Vec<String>) -> (skyboxes: Result<Vec<SkyboxGroup>, SkyboxError>)
    ensures
        skyboxes.is_err() == (spec_classify_all(spec_paths(paths@)).len()
            < SKYBOX_TILES_AMOUNT),
        skyboxes.is_err() ==> skyboxes == Err::<Vec<SkyboxGroup>, SkyboxError>(
            SkyboxError::TooFewTiles,
        ),
        skyboxes.is_ok() ==> spec_is_grouping(
            spec_groups(skyboxes.unwrap()@),
            spec_classify_all(spec_paths(paths@)),
        ),
{
    let tiles: Vec<SkyboxTile> = classify_all(&paths);
    if tiles.len() < SKYBOX_TILES_AMOUNT {
        return Err(SkyboxError::TooFewTiles);
    }
    Ok(group_tiles(&tiles))
}

/// The names of the files that the groups' skyboxes would be written to,
/// separated by commas: a summary of what was found.
pub fn skybox_names(groups: &Vec<SkyboxGroup>) -> (names: String)
    ensures
        names@ == spec_skybox_names(spec_groups(groups@)),
{
    let mut names: String = String::new();
    let mut k: usize = 0;
    while k < groups.len()
        invariant
            k <= groups.len(),
            names@ == spec_skybox_names(spec_groups(groups@).take(k as int)),
        decreases groups.len() - k,
    {
        proof {
            let all = spec_groups(groups@);
            assert(all.take(k + 1).drop_last() =~= all.take(k as int));
            assert(all.take(k + 1).last() == groups@[k as int]@);
            assert(all.take(k + 1)[0] == all[0]);
            reveal_strlit(",");
            assert(","@ =~= seq![',']);
        }
        if k > 0 {
            names.append(",");
        }
        let name: String = SkyboxTile::result_file_name(groups[k].prefix.as_str());
        names.append(name.as_str());
        proof {
            if k == 0 {
                assert(Seq::<char>::empty() + name@ =~= name@);
            }
        }
        k += 1;
    }
    proof {
        assert(spec_groups(groups@).take(k as int) =~= spec_groups(groups@));
    }
    names
}

impl SkyboxGroup {
    /// Whether the group can be merged: it holds six tiles, one of each
    /// face.
    pub fn is_complete(&self) -> (complete: bool)
        ensures
            complete == spec_mergeable(self@.tiles),
    {
        if self.tiles.len() != SKYBOX_TILES_AMOUNT {
            return false;
        }
        let mut i: usize = 0;
        while i < SKYBOX_TILES_AMOUNT
            invariant
                self.tiles@.len() == SKYBOX_TILES_AMOUNT,
                i <= SKYBOX_TILES_AMOUNT,
                forall|a: int, b: int|
                    0 <= a < b < self.tiles@.len() && a < i ==> (#[trigger] self@.tiles[a]).position
                        != (#[trigger] self@.tiles[b]).position,
            decreases SKYBOX_TILES_AMOUNT - i,
        {
            let mut j: usize = i + 1;
            while j < SKYBOX_TILES_AMOUNT
                invariant
                    self.tiles@.len() == SKYBOX_TILES_AMOUNT,
                    i < j <= SKYBOX_TILES_AMOUNT,
                    forall|b: int|
                        i < b < j ==> self@.tiles[i as int].position != (
                        #[trigger] self@.tiles[b]).position,
                decreases SKYBOX_TILES_AMOUNT - j,
            {
                if self.tiles[i].position == self.tiles[j].position {
                    proof {
                        assert(self@.tiles[i as int].position == self@.tiles[j as int].position);
                    }
                    return false;
                }
                j += 1;
            }
            i += 1;
        }
        true
    }

    /// The paths of the group's tiles, in the order of the tiles.
    pub fn source_paths(&self) -> (paths: Vec<String>)
        ensures
            spec_paths(paths@) == Seq::new(self@.tiles.len(), |k: int| self@.tiles[k].path),
    {
        let mut paths: Vec<String> = Vec::new();
        let mut k: usize = 0;
        while k < self.tiles.len()
            invariant
                k <= self.tiles.len(),
                spec_paths(paths@) == Seq::new(k as nat, |k: int| self@.tiles[k].path),
            decreases self.tiles.len() - k,
        {
            let ghost before = spec_paths(paths@);
            paths.push(self.tiles[k].path.clone());
            proof {
                assert(spec_paths(paths@) =~= before.push(self@.tiles[k as int].path));
                assert(spec_paths(paths@) =~= Seq::new(
                    (k + 1) as nat,
                    |k: int| self@.tiles[k].path,
                ));
            }
            k += 1;
        }
        paths
    }
}

} // verus!
