//! Tiles: source files that were recognised, by the end of their file name,
//! as one face of a skybox.

use crate::position::SkyboxTilePosition;
use vstd::prelude::*;
use vstd::string::*;

verus! {

/// One source image file together with the group and the face that its file
/// name assigns it to.
#[derive(Clone, Debug, PartialEq, Eq)]
pub struct SkyboxTile {
    pub path: String,
    pub prefix: String,
    pub position: SkyboxTilePosition,
}

/// What a [`SkyboxTile`] holds, as mathematical values.
pub struct SkyboxTileView {
    pub path: Seq<char>,
    pub prefix: Seq<char>,
    pub position: SkyboxTilePosition,
}

impl View for SkyboxTile {
    type V = SkyboxTileView;

    open spec fn view(&self) -> SkyboxTileView {
        SkyboxTileView { path: self.path@, prefix: self.prefix@, position: self.position }
    }
}

/// Where the file name begins in a path: behind its last `/`, or at the
/// start where the path holds none.
pub open spec fn spec_file_name_start(path: Seq<char>) -> int
    decreases path.len(),
{
    if path.len() == 0 || path.last() == '/' {
        path.len() as int
    } else {
        spec_file_name_start(path.drop_last())
    }
}

/// The file name of a path: what follows its last `/`.
pub open spec fn spec_file_name(path: Seq<char>) -> Seq<char> {
    path.subrange(spec_file_name_start(path), path.len() as int)
}

/// A name without the given suffix; the name itself where it does not end
/// with the suffix.
pub open spec fn spec_strip_suffix(name: Seq<char>, suffix: Seq<char>) -> Seq<char> {
    if suffix.is_suffix_of(name) {
        name.subrange(0, name.len() - suffix.len())
    } else {
        name
    }
}

/// The face that a file name stands for: the first, in the order left,
/// right, up, down, front, back, whose suffix ends the name.
pub open spec fn spec_position_of(name: Seq<char>) -> Option<SkyboxTilePosition> {
    if SkyboxTilePosition::Left.spec_suffix().is_suffix_of(name) {
        Some(SkyboxTilePosition::Left)
    } else if SkyboxTilePosition::Right.spec_suffix().is_suffix_of(name) {
        Some(SkyboxTilePosition::Right)
    } else if SkyboxTilePosition::Up.spec_suffix().is_suffix_of(name) {
        Some(SkyboxTilePosition::Up)
    } else if SkyboxTilePosition::Down.spec_suffix().is_suffix_of(name) {
        Some(SkyboxTilePosition::Down)
    } else if SkyboxTilePosition::Front.spec_suffix().is_suffix_of(name) {
        Some(SkyboxTilePosition::Front)
    } else if SkyboxTilePosition::Back.spec_suffix().is_suffix_of(name) {
        Some(SkyboxTilePosition::Back)
    } else {
        None
    }
}

/// The tile that a path is classified as, if its file name ends with one of
/// the six suffixes.
pub open spec fn spec_classify(path: Seq<char>) -> Option<SkyboxTileView> {
    let name = spec_file_name(path);
    match spec_position_of(name) {
        Some(position) => Some(
            SkyboxTileView {
                path,
                prefix: spec_strip_suffix(name, position.spec_suffix()),
                position,
            },
        ),
        None => None,
    }
}

/// The name of the file that the skybox of a group is written to.
pub open spec fn spec_result_file_name(prefix: Seq<char>) -> Seq<char> {
    prefix + "skybox.png"@
}

/// The file name starts inside the path, holds no `/`, and is either the
/// whole path or stands directly behind a `/`.
pub proof fn lemma_file_name_start(path: Seq<char>)
    ensures
        0 <= spec_file_name_start(path) <= path.len(),
        forall|i: int| spec_file_name_start(path) <= i < path.len() ==> path[i] != '/',
        spec_file_name_start(path) == 0 || path[spec_file_name_start(path) - 1] == '/',
    decreases path.len(),
{
    if path.len() != 0 && path.last() != '/' {
        let head = path.drop_last();
        lemma_file_name_start(head);
        assert forall|i: int| spec_file_name_start(path) <= i < path.len() implies path[i]
            != '/' by {
            if i < head.len() {
                assert(head[i] == path[i]);
            }
        }
        if spec_file_name_start(path) != 0 {
            assert(head[spec_file_name_start(head) - 1] == path[spec_file_name_start(path) - 1]);
        }
    }
}

/// None of the six suffixes holds a `/`, and each has at least six
/// characters.
pub proof fn lemma_suffix_shape(position: SkyboxTilePosition)
    ensures
        position.spec_suffix().len() >= 6,
        forall|i: int|
            0 <= i < position.spec_suffix().len() ==> position.spec_suffix()[i] != '/',
{
    reveal_strlit("left.png");
    reveal_strlit("right.png");
    reveal_strlit("up.png");
    reveal_strlit("down.png");
    reveal_strlit("front.png");
    reveal_strlit("back.png");
}

/// A name that ends with the suffix of a face stands for that face.
pub proof fn lemma_position_of_suffixed(name: Seq<char>, position: SkyboxTilePosition)
    requires
        position.spec_suffix().is_suffix_of(name),
    ensures
        spec_position_of(name) == Some(position),
{
    if SkyboxTilePosition::Left.spec_suffix().is_suffix_of(name) {
        SkyboxTilePosition::lemma_suffix_exclusive(name, SkyboxTilePosition::Left, position);
    }
    if SkyboxTilePosition::Right.spec_suffix().is_suffix_of(name) {
        SkyboxTilePosition::lemma_suffix_exclusive(name, SkyboxTilePosition::Right, position);
    }
    if SkyboxTilePosition::Up.spec_suffix().is_suffix_of(name) {
        SkyboxTilePosition::lemma_suffix_exclusive(name, SkyboxTilePosition::Up, position);
    }
    if SkyboxTilePosition::Down.spec_suffix().is_suffix_of(name) {
        SkyboxTilePosition::lemma_suffix_exclusive(name, SkyboxTilePosition::Down, position);
    }
    if SkyboxTilePosition::Front.spec_suffix().is_suffix_of(name) {
        SkyboxTilePosition::lemma_suffix_exclusive(name, SkyboxTilePosition::Front, position);
    }
    if SkyboxTilePosition::Back.spec_suffix().is_suffix_of(name) {
        SkyboxTilePosition::lemma_suffix_exclusive(name, SkyboxTilePosition::Back, position);
    }
}

/// A file whose name is a prefix followed by the suffix of a face is
/// classified as the tile of that prefix and that face, in whatever directory
/// it lies.
pub proof fn lemma_classify_tile_name(
    directory: Seq<char>,
    prefix: Seq<char>,
    position: SkyboxTilePosition,
)
    requires
        directory.len() == 0 || directory.last() == '/',
        forall|i: int| 0 <= i < prefix.len() ==> prefix[i] != '/',
    ensures
        spec_classify(directory + prefix + position.spec_suffix()) == Some(
            SkyboxTileView {
                path: directory + prefix + position.spec_suffix(),
                prefix,
                position,
            },
        ),
{
    let suffix = position.spec_suffix();
    let name = prefix + suffix;
    let path = directory + prefix + suffix;
    lemma_suffix_shape(position);
    lemma_file_name_start(path);
    let start = spec_file_name_start(path);
    if start < directory.len() {
        assert(path[directory.len() - 1] == directory.last());
    }
    if start > directory.len() {
        let at = start - 1 - directory.len();
        if at < prefix.len() {
            assert(path[start - 1] == prefix[at]);
        } else {
            assert(path[start - 1] == suffix[at - prefix.len()]);
        }
    }
    assert(spec_file_name(path) =~= name);
    assert(suffix =~= name.subrange(name.len() - suffix.len(), name.len() as int));
    lemma_position_of_suffixed(name, position);
    assert(name.subrange(0, name.len() - suffix.len()) =~= prefix);
}

/// The file name of a classified path is the tile's prefix followed by the
/// suffix of the tile's face: prefix and face say which file name it was.
pub proof fn lemma_classified_name(path: Seq<char>)
    requires
        spec_classify(path).is_some(),
    ensures
        spec_classify(path).unwrap().path == path,
        spec_file_name(path) == spec_classify(path).unwrap().prefix + spec_classify(
            path,
        ).unwrap().position.spec_suffix(),
{
    let name = spec_file_name(path);
    let tile = spec_classify(path).unwrap();
    let suffix = tile.position.spec_suffix();
    assert(suffix.is_suffix_of(name));
    assert(name =~= name.subrange(0, name.len() - suffix.len()) + name.subrange(
        name.len() - suffix.len(),
        name.len() as int,
    ));
}

/// Whether `name` ends with `suffix`.
pub fn ends_with(name: &str, suffix: &str) -> (found: bool)
    ensures
        found == suffix@.is_suffix_of(name@),
{
    let n: usize = name.unicode_len();
    let m: usize = suffix.unicode_len();
    if m > n {
        return false;
    }
    let from: usize = n - m;
    let mut i: usize = 0;
    while i < m
        invariant
            n == name@.len(),
            m == suffix@.len(),
            from == n - m,
            i <= m,
            forall|j: int| 0 <= j < i ==> name@[from + j] == suffix@[j],
        decreases m - i,
    {
        if name.get_char(from + i) != suffix.get_char(i) {
            proof {
                let tail = name@.subrange(n - m, n as int);
                assert(tail[i as int] != suffix@[i as int]);
            }
            return false;
        }
        i += 1;
    }
    proof {
        assert(suffix@ =~= name@.subrange(n - m, n as int));
    }
    true
}

/// The part of a path behind its last `/`.
pub fn file_name(path: &str) -> (name: &str)
    ensures
        name@ == spec_file_name(path@),
{
    let n: usize = path.unicode_len();
    let mut start: usize = n;
    proof {
        assert(path@.take(n as int) =~= path@);
    }
    while start > 0 && path.get_char(start - 1) != '/'
        invariant
            n == path@.len(),
            start <= n,
            spec_file_name_start(path@) == spec_file_name_start(path@.take(start as int)),
        decreases start,
    {
        proof {
            let head = path@.take(start as int);
            assert(head.last() == path@[start - 1]);
            assert(head.drop_last() =~= path@.take(start - 1));
        }
        start -= 1;
    }
    proof {
        let head = path@.take(start as int);
        assert(path@.take(n as int) =~= path@);
        if start > 0 {
            assert(head.last() == path@[start - 1]);
        }
    }
    path.substring_char(start, n)
}

/// The face whose suffix ends the file name, if there is one.
pub fn position_of(name: &str) -> (position: Option<SkyboxTilePosition>)
    ensures
        position == spec_position_of(name@),
{
    if ends_with(name, SkyboxTilePosition::Left.suffix()) {
        Some(SkyboxTilePosition::Left)
    } else if ends_with(name, SkyboxTilePosition::Right.suffix()) {
        Some(SkyboxTilePosition::Right)
    } else if ends_with(name, SkyboxTilePosition::Up.suffix()) {
        Some(SkyboxTilePosition::Up)
    } else if ends_with(name, SkyboxTilePosition::Down.suffix()) {
        Some(SkyboxTilePosition::Down)
    } else if ends_with(name, SkyboxTilePosition::Front.suffix()) {
        Some(SkyboxTilePosition::Front)
    } else if ends_with(name, SkyboxTilePosition::Back.suffix()) {
        Some(SkyboxTilePosition::Back)
    } else {
        None
    }
}

/// Classifies a path by its file name: a tile where the name ends with one
/// of the six suffixes, nothing for any other file.
pub fn classify(path: String) -> (tile: Option<SkyboxTile>)
    ensures
        tile.is_some() == spec_classify(path@).is_some(),
        tile.is_some() ==> tile.unwrap()@ == spec_classify(path@).unwrap(),
{
    let name: String = file_name(path.as_str()).to_owned();
    match position_of(name.as_str()) {
        Some(position) => Some(
            SkyboxTile::new(path, name.as_str(), position, position.suffix()),
        ),
        None => None,
    }
}

impl SkyboxTile {
    /// A tile for the file at `path`, whose group is named by `file_name`
    /// without `file_suffix_to_omit` at its end.
    pub fn new(
        path: String,
        file_name: &str,
        position: SkyboxTilePosition,
        file_suffix_to_omit: &str,
    ) -> (tile: SkyboxTile)
        ensures
            tile@.path == path@,
            tile@.prefix == spec_strip_suffix(file_name@, file_suffix_to_omit@),
            tile@.position == position,
    {
        let prefix: String = if ends_with(file_name, file_suffix_to_omit) {
            let n: usize = file_name.unicode_len();
            let m: usize = file_suffix_to_omit.unicode_len();
            file_name.substring_char(0, n - m).to_owned()
        } else {
            file_name.to_owned()
        };
        SkyboxTile { path, prefix, position }
    }

    /// The name of the file that the skybox of the group `prefix` is written
    /// to: the prefix followed by `skybox.png`.
    pub fn result_file_name(prefix: &str) -> (name: String)
        ensures
            name@ == spec_result_file_name(prefix@),
    {
        prefix.to_owned().concat("skybox.png")
    }

    /// A tile equal to this one in every field.
    pub fn duplicate(&self) -> (tile: SkyboxTile)
        ensures
            tile == *self,
    {
        SkyboxTile {
            path: self.path.clone(),
            prefix: self.prefix.clone(),
            position: self.position,
        }
    }
}

} // verus!
