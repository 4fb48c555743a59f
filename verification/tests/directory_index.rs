use ges_mapreleaser::directory_index::{DirectoryCache, DirectoryListing};
use ges_mapreleaser::reslist_builder::generate_directory_tree;
use ges_mapreleaser::paths::join_path;
use ges_mapreleaser::shared::{
    compute_or_get_safe_reference_to_directory_cache, get_barebones_args, get_file_extension,
    get_files_in_directory, get_root_test_directory,
};
use ges_mapreleaser::text::{char_is_whitespace, from_chars, to_chars, to_lowercase};
use std::path::Path;

#[test]
fn extension_is_what_follows_the_last_dot_of_the_name() {
    for (path, extension) in [
        ("maps/test_map.bsp", "bsp"),
        ("maps\\test_map.BSP", "BSP"),
        ("archive.tar.gz", "gz"),
        ("no_extension", ""),
        (".hidden", ""),
        (".hidden.txt", "txt"),
        ("dir.with.dots/file", ""),
        ("dir.with.dots\\file", ""),
        ("trailing.", ""),
        ("..", ""),
        ("a/..", ""),
        ("...", ""),
        ("", ""),
        ("a/", ""),
        ("sound/music/my track.mp3", "mp3"),
        ("müsic/träck.mp3", "mp3"),
        ("müsic.d/träck", ""),
        ("a.ñandú", "ñandú"),
    ] {
        assert_eq!(get_file_extension(path), extension, "{:?}", path);
    }
}

#[test]
fn extension_agrees_with_the_standard_library() {
    for path in [
        "maps/test_map.bsp",
        "archive.tar.gz",
        "no_extension",
        ".hidden",
        ".hidden.txt",
        "dir.with.dots/file",
        "trailing.",
        "..",
        "a/..",
        "a/b.c/d.e",
        "x.y",
    ] {
        let expected = Path::new(path).extension().and_then(|e| e.to_str()).unwrap_or("");
        assert_eq!(get_file_extension(path), expected, "{:?}", path);
    }
}

#[test]
fn files_are_listed_relative_normalized_and_filtered() {
    let found = vec![
        String::from("C:\\Release\\gesource\\Maps\\Test_Map.bsp"),
        String::from("C:\\Release\\gesource\\Maps\\Test_Map.res"),
        String::from("C:\\Release\\gesource\\Sound\\Music\\Track One.MP3"),
        String::from("C:\\Release\\gesource\\scripts\\maps\\test_map.txt"),
        String::from("C:\\Release\\gesource\\readme"),
    ];
    let root = "C:\\Release\\gesource";
    assert_eq!(
        get_files_in_directory(root, &found, "", &[]),
        vec![
            "maps/test_map.bsp",
            "maps/test_map.res",
            "sound/music/track one.mp3",
            "scripts/maps/test_map.txt",
            "readme",
        ]
    );
    assert_eq!(
        get_files_in_directory(root, &found, "mp3", &[]),
        vec!["sound/music/track one.mp3"]
    );
    assert_eq!(
        get_files_in_directory(root, &found, "MP3", &[]),
        vec!["sound/music/track one.mp3"]
    );
    assert_eq!(
        get_files_in_directory(root, &found, "", &["bsp", "res", "exe"]),
        vec!["sound/music/track one.mp3", "scripts/maps/test_map.txt", "readme"]
    );
    assert_eq!(
        get_files_in_directory(root, &found, "txt", &["TXT"]),
        Vec::<String>::new()
    );
    assert_eq!(get_files_in_directory(root, &Vec::new(), "", &[]), Vec::<String>::new());
    assert_eq!(
        get_files_in_directory("C:\\Release\\gesource\\", &found, "bsp", &[]),
        vec!["maps/test_map.bsp"]
    );
    assert_eq!(
        get_files_in_directory("elsewhere", &vec![String::from("/Some/File.TXT")], "", &[]),
        vec!["some/file.txt"]
    );
}

#[test]
fn snapshot_holds_each_file_once() {
    let first = DirectoryListing {
        root: String::from("one"),
        files: vec![String::from("one/a.txt"), String::from("one/B.txt"), String::from("one/A.TXT")],
    };
    let second = DirectoryListing {
        root: String::from("two"),
        files: vec![String::from("two/b.txt"), String::from("two/c.txt")],
    };
    let missing = DirectoryListing { root: String::from("three"), files: Vec::new() };
    let mut cache = DirectoryCache::new();
    let snapshot = compute_or_get_safe_reference_to_directory_cache(
        vec![&first, &missing, &second],
        "",
        &[],
        &mut cache,
    );
    assert_eq!(snapshot.paths(), vec!["a.txt", "b.txt", "c.txt"]);
    assert_eq!(snapshot.len(), 3);
    assert!(snapshot.contains("b.txt"));
    assert!(!snapshot.contains("B.txt"));
    assert!(!snapshot.contains("d.txt"));
    let mut empty_cache = DirectoryCache::new();
    let empty = compute_or_get_safe_reference_to_directory_cache(vec![&missing], "", &[], &mut empty_cache);
    assert_eq!(empty.len(), 0);
}

#[test]
fn snapshot_is_made_once_for_each_key() {
    let before = DirectoryListing {
        root: String::from("release"),
        files: vec![String::from("release/a.txt")],
    };
    let after = DirectoryListing {
        root: String::from("release"),
        files: vec![String::from("release/a.txt"), String::from("release/b.txt")],
    };
    let mut cache = DirectoryCache::new();
    assert!(!cache.is_cached(&["release"], "", &["bsp", "res", "exe"]));
    assert_eq!(generate_directory_tree(&before, &mut cache).paths(), vec!["a.txt"]);
    assert!(cache.is_cached(&["release"], "", &["bsp", "res", "exe"]));
    assert_eq!(generate_directory_tree(&after, &mut cache).paths(), vec!["a.txt"]);
    assert_eq!(generate_directory_tree(&after, &mut cache).paths(), vec!["a.txt"]);
    assert!(!cache.is_cached(&["release"], "txt", &["bsp", "res", "exe"]));
    assert!(!cache.is_cached(&["release"], "", &["bsp", "res"]));
    assert!(!cache.is_cached(&["Release"], "", &["bsp", "res", "exe"]));
    assert!(!cache.is_cached(&["release", "release"], "", &["bsp", "res", "exe"]));
    let other = compute_or_get_safe_reference_to_directory_cache(vec![&after], "txt", &[], &mut cache);
    assert_eq!(other.paths(), vec!["a.txt", "b.txt"]);
    assert!(cache.is_cached(&["release"], "txt", &[]));
    assert_eq!(generate_directory_tree(&after, &mut cache).paths(), vec!["a.txt"]);
    let mut fresh = DirectoryCache::new();
    assert_eq!(generate_directory_tree(&after, &mut fresh).paths(), vec!["a.txt", "b.txt"]);
}

#[test]
fn white_space_is_what_the_standard_library_calls_white_space() {
    let mut code: u32 = 0;
    while code <= 0x10ffff {
        if let Some(c) = char::from_u32(code) {
            assert_eq!(char_is_whitespace(c), c.is_whitespace(), "{:?}", c);
        }
        code += 1;
    }
}

#[test]
fn lower_case_is_that_of_the_standard_library() {
    for sample in ["Maps\\Foo_Bar-09.TXT", "@[`{AZaz", "ÄÖ Straße", "É.MP3", "ΟΔΟΣ", "İstanbul", ""] {
        assert_eq!(from_chars(&to_lowercase(&to_chars(sample))), sample.to_lowercase(), "{:?}", sample);
    }
    assert_eq!(from_chars(&to_lowercase(&to_chars("ÄÖ Straße"))), "äö straße");
    assert_eq!(to_chars("héllo"), vec!['h', 'é', 'l', 'l', 'o']);
}

#[test]
fn keys_are_lower_case_relative_and_slashed() {
    let found = vec![
        String::from("r/É.MP3"),
        String::from("r//x"),
        String::from("R\\Sub\\Ünder.Txt"),
        String::from("elsewhere/Y"),
        String::from("/Z"),
    ];
    assert_eq!(
        get_files_in_directory("r", &found, "", &[]),
        vec!["é.mp3", "x", "sub/ünder.txt", "elsewhere/y", "z"]
    );
    assert_eq!(get_files_in_directory("R/", &found, "MP3", &[]), vec!["é.mp3"]);
}

#[test]
fn sample_arguments_point_below_the_project() {
    assert_eq!(get_root_test_directory("project"), "project/resources/tests");
    assert_eq!(get_root_test_directory("project/"), "project/resources/tests");
    assert_eq!(get_root_test_directory(""), "resources/tests");
    assert_eq!(join_path("C:\\base\\", "leaf"), "C:\\base\\leaf");
    let args = get_barebones_args("project");
    assert_eq!(args.rootdir, "project/resources/tests/rootdir/gesource");
    assert_eq!(args.gesdir, "project/resources/tests/gesdir/gesource");
    assert_eq!(args.baseweight, 700);
    assert_eq!(args.minplayers, 0);
    assert_eq!(args.maxplayers, 16);
    assert_eq!(args.resintensity, 7);
    assert_eq!(args.teamthresh, 12);
    assert!(!args.compress && !args.recompress && !args.verbose && !args.fullcheck);
    assert!(args.noexitprompt);
}
