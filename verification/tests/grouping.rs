use std::collections::HashMap;

use skybox_merger::error::SkyboxError;
use skybox_merger::group::{classify_all, get_skyboxes, group_tiles, SkyboxGroup};
use skybox_merger::position::SkyboxTilePosition;
use skybox_merger::tile::{classify, ends_with, file_name, position_of, SkyboxTile};

fn generate_skybox_tiles(prefix: &str) -> Vec<SkyboxTile> {
    let left = SkyboxTile {
        path: format!("{}left.png", prefix),
        prefix: prefix.to_owned(),
        position: SkyboxTilePosition::Left,
    };
    let right = SkyboxTile {
        path: format!("{}right.png", prefix),
        prefix: prefix.to_owned(),
        position: SkyboxTilePosition::Right,
    };
    let up = SkyboxTile {
        path: format!("{}up.png", prefix),
        prefix: prefix.to_owned(),
        position: SkyboxTilePosition::Up,
    };
    let down = SkyboxTile {
        path: format!("{}down.png", prefix),
        prefix: prefix.to_owned(),
        position: SkyboxTilePosition::Down,
    };
    let front = SkyboxTile {
        path: format!("{}front.png", prefix),
        prefix: prefix.to_owned(),
        position: SkyboxTilePosition::Front,
    };
    let back = SkyboxTile {
        path: format!("{}back.png", prefix),
        prefix: prefix.to_owned(),
        position: SkyboxTilePosition::Back,
    };

    vec![left, right, up, down, front, back]
}

fn as_map(groups: Vec<SkyboxGroup>) -> HashMap<String, Vec<SkyboxTile>> {
    groups.into_iter().map(|g| (g.prefix, g.tiles)).collect()
}

#[test]
fn get_skyboxes_single_file() {
    let expected_skybox_tiles = generate_skybox_tiles("skybox_01a");

    let paths = expected_skybox_tiles
        .iter()
        .map(|f| f.path.clone())
        .collect();

    let skyboxes = get_skyboxes(paths).unwrap();

    assert_eq!(
        HashMap::from([("skybox_01a".to_owned(), expected_skybox_tiles)]),
        as_map(skyboxes)
    );
}

#[test]
fn get_skyboxes_multiple_files() {
    let expected_skybox_tiles_1 = generate_skybox_tiles("skybox_01a");
    let expected_skybox_tiles_2 = generate_skybox_tiles("skybox_02a");

    let paths: Vec<String> = expected_skybox_tiles_1
        .iter()
        .chain(expected_skybox_tiles_2.iter())
        .map(|f| f.path.clone())
        .collect();

    let skyboxes = get_skyboxes(paths).unwrap();

    assert_eq!(
        HashMap::from([
            ("skybox_01a".to_owned(), expected_skybox_tiles_1),
            ("skybox_02a".to_owned(), expected_skybox_tiles_2)
        ]),
        as_map(skyboxes)
    );
}

#[test]
fn groups_stand_in_order_of_first_tile() {
    let paths: Vec<String> = vec![
        "b_left.png", "a_left.png", "b_right.png", "a_up.png", "b_up.png", "c_back.png",
    ]
    .into_iter()
    .map(String::from)
    .collect();
    let groups = get_skyboxes(paths).unwrap();
    let prefixes: Vec<&str> = groups.iter().map(|g| g.prefix.as_str()).collect();
    assert_eq!(prefixes, vec!["b_", "a_", "c_"]);
    let b: Vec<&str> = groups[0].tiles.iter().map(|t| t.path.as_str()).collect();
    assert_eq!(b, vec!["b_left.png", "b_right.png", "b_up.png"]);
    let a: Vec<&str> = groups[1].tiles.iter().map(|t| t.path.as_str()).collect();
    assert_eq!(a, vec!["a_left.png", "a_up.png"]);
    assert_eq!(groups[2].tiles.len(), 1);
    assert_eq!(groups[2].tiles[0].position, SkyboxTilePosition::Back);
}

#[test]
fn interleaved_groups_do_not_mix() {
    let one = generate_skybox_tiles("skybox_01a");
    let two = generate_skybox_tiles("skybox_02a");
    let mut paths: Vec<String> = Vec::new();
    for k in 0..6 {
        paths.push(two[k].path.clone());
        paths.push(one[k].path.clone());
    }
    let groups = get_skyboxes(paths).unwrap();
    assert_eq!(groups.len(), 2);
    assert_eq!(groups[0].prefix, "skybox_02a");
    assert_eq!(groups[0].tiles, two);
    assert_eq!(groups[1].prefix, "skybox_01a");
    assert_eq!(groups[1].tiles, one);
    assert!(groups[0].is_complete());
    assert!(groups[1].is_complete());
}

#[test]
fn fewer_than_six_tiles_is_an_error() {
    let mut paths: Vec<String> = generate_skybox_tiles("sky")
        .iter()
        .map(|t| t.path.clone())
        .collect();
    paths.pop();
    assert_eq!(get_skyboxes(paths), Err(SkyboxError::TooFewTiles));
    assert_eq!(get_skyboxes(Vec::new()), Err(SkyboxError::TooFewTiles));
}

#[test]
fn files_that_are_no_tiles_do_not_count() {
    let mut paths: Vec<String> = generate_skybox_tiles("sky")
        .iter()
        .map(|t| t.path.clone())
        .collect();
    paths.pop();
    paths.push("notes.png".to_owned());
    paths.push("skyleft.jpg".to_owned());
    assert_eq!(paths.len(), 7);
    assert_eq!(get_skyboxes(paths), Err(SkyboxError::TooFewTiles));
}

#[test]
fn files_that_are_no_tiles_are_left_out() {
    let mut paths: Vec<String> = vec!["readme.png".to_owned(), "skyLEFT.png".to_owned()];
    paths.extend(generate_skybox_tiles("sky").iter().map(|t| t.path.clone()));
    paths.push("sky.png".to_owned());
    let groups = get_skyboxes(paths).unwrap();
    assert_eq!(groups.len(), 1);
    assert_eq!(groups[0].tiles, generate_skybox_tiles("sky"));
}

#[test]
fn six_tiles_of_six_groups_are_enough_for_the_run() {
    let paths: Vec<String> = vec![
        "aleft.png", "bleft.png", "cleft.png", "dleft.png", "eleft.png", "fleft.png",
    ]
    .into_iter()
    .map(String::from)
    .collect();
    let groups = get_skyboxes(paths).unwrap();
    assert_eq!(groups.len(), 6);
    for g in &groups {
        assert_eq!(g.tiles.len(), 1);
        assert!(!g.is_complete());
    }
}

#[test]
fn classify_reads_only_the_file_name() {
    let tile = classify("some/dir/left.png/skybox_up.png".to_owned()).unwrap();
    assert_eq!(tile.path, "some/dir/left.png/skybox_up.png");
    assert_eq!(tile.prefix, "skybox_");
    assert_eq!(tile.position, SkyboxTilePosition::Up);
    assert_eq!(classify("left.png/readme.txt".to_owned()), None);
    assert_eq!(classify("dir/left.png/".to_owned()), None);
}

#[test]
fn classify_each_suffix() {
    let cases = [
        ("xleft.png", SkyboxTilePosition::Left),
        ("xright.png", SkyboxTilePosition::Right),
        ("xup.png", SkyboxTilePosition::Up),
        ("xdown.png", SkyboxTilePosition::Down),
        ("xfront.png", SkyboxTilePosition::Front),
        ("xback.png", SkyboxTilePosition::Back),
    ];
    for (name, position) in cases {
        let tile = classify(name.to_owned()).unwrap();
        assert_eq!(tile.prefix, "x");
        assert_eq!(tile.position, position);
        assert_eq!(tile.path, name);
        assert_eq!(position_of(name), Some(position));
    }
}

#[test]
fn classify_with_empty_prefix() {
    let tile = classify("left.png".to_owned()).unwrap();
    assert_eq!(tile.prefix, "");
    assert_eq!(tile.position, SkyboxTilePosition::Left);
    assert_eq!(SkyboxTile::result_file_name(&tile.prefix), "skybox.png");
}

#[test]
fn classify_is_exact_about_case_and_extension() {
    assert_eq!(classify("skyLeft.png".to_owned()), None);
    assert_eq!(classify("skyleft.PNG".to_owned()), None);
    assert_eq!(classify("skyleft.jpg".to_owned()), None);
    assert_eq!(classify("skyleft".to_owned()), None);
    assert_eq!(classify("skyleft.png ".to_owned()), None);
    assert_eq!(classify("".to_owned()), None);
    assert_eq!(classify("p.png".to_owned()), None);
}

#[test]
fn classify_strips_the_suffix_once() {
    let tile = classify("xleft.pngleft.png".to_owned()).unwrap();
    assert_eq!(tile.prefix, "xleft.png");
    assert_eq!(tile.position, SkyboxTilePosition::Left);
}

#[test]
fn classify_handles_names_beyond_ascii() {
    let tile = classify("héllo/wörld_ñdown.png".to_owned()).unwrap();
    assert_eq!(tile.prefix, "wörld_ñ");
    assert_eq!(tile.position, SkyboxTilePosition::Down);
    assert_eq!(file_name("héllo/wörld_ñdown.png"), "wörld_ñdown.png");
}

#[test]
fn file_name_is_what_follows_the_last_slash() {
    assert_eq!(file_name("a/b/c.png"), "c.png");
    assert_eq!(file_name("c.png"), "c.png");
    assert_eq!(file_name("/c.png"), "c.png");
    assert_eq!(file_name("a/b/"), "");
    assert_eq!(file_name(""), "");
    assert_eq!(file_name("/"), "");
}

#[test]
fn ends_with_compares_the_tail() {
    assert!(ends_with("skyleft.png", "left.png"));
    assert!(ends_with("left.png", "left.png"));
    assert!(!ends_with("eft.png", "left.png"));
    assert!(!ends_with("skyleft.pn", "left.png"));
    assert!(ends_with("anything", ""));
    assert!(ends_with("", ""));
    assert!(!ends_with("", "x"));
}

#[test]
fn new_strips_the_given_suffix() {
    let tile = SkyboxTile::new(
        "dir/sky_front.png".to_owned(),
        "sky_front.png",
        SkyboxTilePosition::Front,
        "front.png",
    );
    assert_eq!(tile.path, "dir/sky_front.png");
    assert_eq!(tile.prefix, "sky_");
    assert_eq!(tile.position, SkyboxTilePosition::Front);
    let kept = SkyboxTile::new("a".to_owned(), "sky_front.png", SkyboxTilePosition::Back, "back.png");
    assert_eq!(kept.prefix, "sky_front.png");
}

#[test]
fn result_file_name_appends_to_the_prefix() {
    assert_eq!(SkyboxTile::result_file_name("skybox_01a"), "skybox_01askybox.png");
    assert_eq!(SkyboxTile::result_file_name(""), "skybox.png");
}

#[test]
fn duplicate_equals_the_tile() {
    let tile = classify("dir/aback.png".to_owned()).unwrap();
    assert_eq!(tile.duplicate(), tile);
}

#[test]
fn classify_all_keeps_the_order_of_the_paths() {
    let paths: Vec<String> = vec!["zup.png", "skip.txt", "adown.png", "zleft.png"]
        .into_iter()
        .map(String::from)
        .collect();
    let tiles = classify_all(&paths);
    let seen: Vec<(&str, SkyboxTilePosition)> =
        tiles.iter().map(|t| (t.prefix.as_str(), t.position)).collect();
    assert_eq!(
        seen,
        vec![
            ("z", SkyboxTilePosition::Up),
            ("a", SkyboxTilePosition::Down),
            ("z", SkyboxTilePosition::Left)
        ]
    );
    let groups = group_tiles(&tiles);
    assert_eq!(groups.len(), 2);
    assert_eq!(groups[0].prefix, "z");
    assert_eq!(groups[0].tiles.len(), 2);
    assert_eq!(groups[1].prefix, "a");
    assert_eq!(group_tiles(&Vec::new()), Vec::new());
}

#[test]
fn a_face_twice_makes_a_group_incomplete() {
    let mut tiles = generate_skybox_tiles("sky");
    tiles[5] = SkyboxTile {
        path: "other/skyleft.png".to_owned(),
        prefix: "sky".to_owned(),
        position: SkyboxTilePosition::Left,
    };
    let group = SkyboxGroup { prefix: "sky".to_owned(), tiles };
    assert!(!group.is_complete());
    let mut seven = generate_skybox_tiles("sky");
    seven.push(seven[0].clone());
    assert!(!SkyboxGroup { prefix: "sky".to_owned(), tiles: seven }.is_complete());
    let mut five = generate_skybox_tiles("sky");
    five.pop();
    assert!(!SkyboxGroup { prefix: "sky".to_owned(), tiles: five }.is_complete());
    assert!(SkyboxGroup { prefix: "sky".to_owned(), tiles: generate_skybox_tiles("sky") }.is_complete());
}

#[test]
fn source_paths_lists_every_tile() {
    let tiles = generate_skybox_tiles("dir/sky");
    let expected: Vec<String> = tiles.iter().map(|t| t.path.clone()).collect();
    let group = SkyboxGroup { prefix: "sky".to_owned(), tiles };
    assert_eq!(group.source_paths(), expected);
}

#[test]
fn six_names_in_any_order_form_one_complete_group() {
    let orders: [[usize; 6]; 3] = [[0, 1, 2, 3, 4, 5], [5, 4, 3, 2, 1, 0], [3, 0, 5, 1, 4, 2]];
    for order in orders {
        let all = generate_skybox_tiles("textures/sky/night_");
        let paths: Vec<String> = order.iter().map(|k| all[*k].path.clone()).collect();
        let groups = get_skyboxes(paths.clone()).unwrap();
        assert_eq!(groups.len(), 1);
        assert_eq!(groups[0].prefix, "night_");
        assert!(groups[0].is_complete());
        for k in 0..6 {
            assert_eq!(groups[0].tiles[k].path, paths[k]);
            assert_eq!(groups[0].tiles[k].prefix, "night_");
            assert_eq!(groups[0].tiles[k].position, all[order[k]].position);
        }
        for tile in generate_skybox_tiles("x") {
            let holding = groups[0].tiles.iter().filter(|t| t.position == tile.position).count();
            assert_eq!(holding, 1);
        }
    }
}

#[test]
fn a_prefix_that_extends_another_is_a_group_of_its_own() {
    let mut paths: Vec<String> = Vec::new();
    paths.extend(generate_skybox_tiles("sky").iter().map(|t| t.path.clone()));
    paths.extend(generate_skybox_tiles("sky_").iter().map(|t| t.path.clone()));
    paths.extend(generate_skybox_tiles("").iter().map(|t| t.path.clone()));
    let groups = get_skyboxes(paths).unwrap();
    assert_eq!(groups.len(), 3);
    assert_eq!(groups[0].tiles, generate_skybox_tiles("sky"));
    assert_eq!(groups[1].tiles, generate_skybox_tiles("sky_"));
    assert_eq!(groups[2].tiles, generate_skybox_tiles(""));
    assert_eq!(groups[2].prefix, "");
}

#[test]
fn the_same_name_in_two_directories_is_one_group() {
    let paths: Vec<String> = vec![
        "a/skyleft.png", "b/skyleft.png", "a/skyright.png", "a/skyup.png", "a/skydown.png",
        "a/skyfront.png",
    ]
    .into_iter()
    .map(String::from)
    .collect();
    let groups = get_skyboxes(paths).unwrap();
    assert_eq!(groups.len(), 1);
    assert_eq!(groups[0].prefix, "sky");
    assert_eq!(groups[0].tiles.len(), 6);
    assert!(!groups[0].is_complete());
}
