use ges_mapreleaser::argument_handler::Arguments;
use ges_mapreleaser::directory_index::{DirectoryCache, DirectoryListing};
use ges_mapreleaser::error::{FailureKind, FullcheckError, ScriptError};
use ges_mapreleaser::reslist_builder::{
    check_reslist, create_or_verify_reslist, create_reslist, fullcheck_reslist_files,
    generate_directory_tree,
};
use ges_mapreleaser::shared::{get_barebones_args, Outcome, ScriptFile};
use regex::Regex;

fn arguments(fullcheck: bool) -> Arguments {
    let mut args = get_barebones_args("project");
    args.fullcheck = fullcheck;
    args
}

fn release(files: &[&str]) -> DirectoryListing {
    DirectoryListing {
        root: String::from("C:\\release\\gesource"),
        files: files.iter().map(|file| format!("C:\\release\\gesource\\{}", file)).collect(),
    }
}

fn sample_release() -> DirectoryListing {
    release(&[
        "maps\\test_map.bsp",
        "maps\\test_map.res",
        "maps\\Foo.txt",
        "scripts\\maps\\test_map.txt",
        "scripts\\music\\level_music_test_map.txt",
        "sound\\music\\My Track.mp3",
        "tool.EXE",
    ])
}

const SAMPLE: &str = "\"resources\"\r\n{\r\n\
\t\"maps/foo.txt\"\t\"file\"\r\n\
\t\"scripts/maps/test_map.txt\"\t\"file\"\r\n\
\t\"scripts/music/level_music_test_map.txt\"\t\"file\"\r\n\
\t\"sound/music/my track.mp3\"\t\"file\"\r\n\
}\r\n";

fn checked(contents: &str, listing: &DirectoryListing, fullcheck: bool) -> Result<(), ScriptError> {
    let mut cache = DirectoryCache::new();
    let snapshot = generate_directory_tree(listing, &mut cache);
    check_reslist(&arguments(fullcheck), contents, snapshot)
}

fn valid_reslists() -> Vec<String> {
    vec![
        String::from(SAMPLE),
        SAMPLE.replace("\r\n", "\n"),
        SAMPLE.replace("\"resources\"", "Resources"),
        SAMPLE.replace("\"resources\"", "RESOURCES"),
        SAMPLE.replace("\"resources\"\r\n{", "resources{"),
        SAMPLE.replace("\"maps/foo.txt\"\t\"file\"", "Maps\\Foo.TXT file"),
        SAMPLE.replace("\t\"file\"\r\n", " file "),
        SAMPLE.replace("\"file\"\r\n\t\"scripts/maps", "\"file\"\"scripts/maps"),
        format!("\n\n  {}  \n\n", SAMPLE),
    ]
}

fn invalid_reslists() -> Vec<String> {
    vec![
        String::new(),
        String::from("\"resources\"\r\n{\r\n}\r\n"),
        SAMPLE.replace("\"resources\"", "\"resource\""),
        SAMPLE.replace("\"resources\"", ""),
        SAMPLE.replace("}\r\n", ""),
        SAMPLE.replace("{\r\n", ""),
        SAMPLE.replace("}\r\n", "}\r\n}\r\n"),
        SAMPLE.replace("}\r\n", "}\r\nmore"),
        SAMPLE.replace("\"maps/foo.txt\"\t\"file\"", "\"maps/foo.txt\""),
        SAMPLE.replace("\"maps/foo.txt\"\t\"file\"", "\"maps/foo.txt\"\"file\""),
        SAMPLE.replace("\"maps/foo.txt\"\t\"file\"", "\"maps/foo.txt\t\"file\""),
        SAMPLE.replace("\"maps/foo.txt\"\t\"file\"", "\"maps/{foo}.txt\"\t\"file\""),
        SAMPLE.replace("\"maps/foo.txt\"\t\"file\"", "\"file\"\t\"maps/foo.txt\""),
        SAMPLE.replace("\"maps/foo.txt\"\t\"file\"", "\"maps/foo.txt\"\t\"FILE\""),
        SAMPLE.replace("\"maps/foo.txt\"\t\"file\"", "inner { \"maps/foo.txt\"\t\"file\" }"),
        SAMPLE.replace("\"maps/foo.txt\"", "\"maps/bar.txt\""),
        SAMPLE.replace("\"maps/foo.txt\"", "\"maps/test_map.bsp\""),
        SAMPLE.replace("\"maps/foo.txt\"", "\"/maps/foo.txt\""),
        SAMPLE.replace("\t\"maps/foo.txt\"\t\"file\"\r\n", ""),
        SAMPLE.replace("}\r\n", "\t\"MAPS\\FOO.TXT\"\t\"file\"\r\n}\r\n"),
    ]
}

#[test]
fn test_valid_reslists() {
    let listing = sample_release();
    for reslist in valid_reslists() {
        let result = checked(&reslist, &listing, false);
        assert!(
            result.is_ok(),
            "Reslist {:?} was detected as invalid when it should be valid!  Error was {:?}",
            reslist,
            result
        );
    }
}

#[test]
fn test_invalid_reslists() {
    let listing = sample_release();
    for reslist in invalid_reslists() {
        assert!(
            checked(&reslist, &listing, false).is_err(),
            "Reslist {:?} was detected as valid when it should be invalid!",
            reslist
        );
    }
}

#[test]
fn test_reslist_creator() {
    let listing = sample_release();
    let mut cache = DirectoryCache::new();
    let snapshot = generate_directory_tree(&listing, &mut cache);
    let created = create_reslist(snapshot).unwrap();
    assert_eq!(created, SAMPLE);
    assert!(!created.contains("test_map.res"));
    assert!(!created.contains("test_map.bsp"));
    check_reslist(&arguments(false), &created, snapshot).unwrap();
    check_reslist(&arguments(true), &created, snapshot).unwrap();
}

#[test]
fn reslist_of_an_empty_release_is_not_written() {
    let listing = release(&["maps\\test_map.bsp", "maps\\test_map.res"]);
    let mut cache = DirectoryCache::new();
    let snapshot = generate_directory_tree(&listing, &mut cache);
    assert!(create_reslist(snapshot).is_none());
    assert!(matches!(
        create_or_verify_reslist(&arguments(false), None, snapshot),
        Ok(Outcome::NothingToList)
    ));
}

#[test]
fn reslist_is_written_or_checked() {
    let listing = sample_release();
    let mut cache = DirectoryCache::new();
    let snapshot = generate_directory_tree(&listing, &mut cache);
    match create_or_verify_reslist(&arguments(false), None, snapshot) {
        Ok(Outcome::Created { contents }) => assert_eq!(contents, SAMPLE),
        other => panic!("wrong result: {:?}", other),
    }
    assert!(matches!(
        create_or_verify_reslist(&arguments(false), Some(SAMPLE), snapshot),
        Ok(Outcome::Verified)
    ));
    assert!(matches!(
        create_or_verify_reslist(&arguments(false), Some("resources { }"), snapshot),
        Err(ScriptError::Format { .. })
    ));
}

#[test]
fn declared_path_matches_whatever_its_case_and_slashes() {
    let listing = release(&["maps\\foo.txt"]);
    let reslist = "\"resources\"\n{\n\"Maps\\Foo.txt\" \"file\"\n}\n";
    assert!(checked(reslist, &listing, false).is_ok());
    let on_disk = release(&["Maps/FOO.txt"]);
    assert!(checked("resources { maps\\foo.TXT file }", &on_disk, false).is_ok());
    let accented = release(&["sound\\É.mp3"]);
    assert!(checked("resources { \"sound/é.MP3\" file }", &accented, false).is_ok());
    assert!(checked("resources { \"Sound\\É.mp3\" file }", &accented, false).is_ok());
}

#[test]
fn duplicate_declaration_is_rejected_and_named() {
    let listing = sample_release();
    let reslist = SAMPLE.replace("}\r\n", "\t\"Maps\\FOO.txt\"\t\"file\"\r\n}\r\n");
    match checked(&reslist, &listing, false) {
        Err(error) => {
            assert_eq!(
                error.message(),
                "Resource file maps/foo.txt is referenced multiple times!  Please remove the redundant references."
            );
            assert_eq!(error.kind(), FailureKind::Reference);
            assert!(matches!(error, ScriptError::DuplicateResource { .. }));
        }
        Ok(()) => panic!("the reslist should be rejected"),
    }
    assert!(matches!(
        checked(&reslist, &listing, true),
        Err(ScriptError::DuplicateResource { .. })
    ));
}

#[test]
fn disallowed_extension_is_rejected_though_the_file_exists() {
    let listing = sample_release();
    for (entry, path) in [
        ("tool.exe", "tool.exe"),
        ("TOOL.EXE", "tool.exe"),
        ("maps/test_map.bsp", "maps/test_map.bsp"),
        ("maps/test_map.res", "maps/test_map.res"),
    ] {
        let reslist = format!("\"resources\"\n{{\n\"{}\" \"file\"\n}}\n", entry);
        for fullcheck in [false, true] {
            match checked(&reslist, &listing, fullcheck) {
                Err(ScriptError::DisallowedFiletype { path: named }) => assert_eq!(named, path),
                other => panic!("wrong result for {}: {:?}", entry, other),
            }
        }
    }
    let unfiltered = DirectoryListing {
        root: String::from("r"),
        files: vec![String::from("r/tool.exe")],
    };
    let mut cache = DirectoryCache::new();
    let everything = ges_mapreleaser::shared::compute_or_get_safe_reference_to_directory_cache(
        vec![&unfiltered],
        "",
        &[],
        &mut cache,
    );
    assert!(everything.contains("tool.exe"));
    assert!(matches!(
        check_reslist(&arguments(true), "resources { tool.exe file }", everything),
        Err(ScriptError::DisallowedFiletype { .. })
    ));
}

#[test]
fn missing_file_is_rejected_and_named() {
    let listing = sample_release();
    let reslist = SAMPLE.replace("maps/foo.txt", "maps/gone.txt");
    match checked(&reslist, &listing, true) {
        Err(error) => assert_eq!(
            error.message(),
            "Failed to locate resource file maps/gone.txt\nEnsure that the file path is valid, and that the file exists."
        ),
        Ok(()) => panic!("the reslist should be rejected"),
    }
}

#[test]
fn undeclared_files_are_all_named_outside_fullcheck() {
    let listing = release(&["a.txt", "b.txt", "c.txt", "d.txt"]);
    let partial = "\"resources\"\n{\n\"a.txt\" \"file\"\n\"b.txt\" \"file\"\n}\n";
    match checked(partial, &listing, false) {
        Err(error) => {
            assert_eq!(error.kind(), FailureKind::Reconciliation);
            assert_eq!(
                error.message(),
                "Resource files c.txt d.txt  aren't included in the reslist!  Be sure to include entries for them or remove them from the distribution folder."
            );
            match error {
                ScriptError::UndeclaredResources { paths } => assert_eq!(paths, vec!["c.txt", "d.txt"]),
                other => panic!("wrong fault: {:?}", other),
            }
        }
        Ok(()) => panic!("the reslist should be rejected"),
    }
    let complete = "\"resources\"\n{\n\"a.txt\" \"file\"\n\"b.txt\" \"file\"\n\"c.txt\" \"file\"\n\"d.txt\" \"file\"\n}\n";
    assert!(checked(complete, &listing, false).is_ok());
}

#[test]
fn undeclared_files_are_no_fault_in_fullcheck() {
    let listing = release(&["a.txt", "b.txt", "c.txt"]);
    let partial = "\"resources\"\n{\n\"a.txt\" \"file\"\n\"b.txt\" \"file\"\n}\n";
    assert!(checked(partial, &listing, true).is_ok());
    assert!(checked(partial, &listing, false).is_err());
}

#[test]
fn reslists_of_an_installation_are_swept() {
    let listing = release(&["a.txt", "b.txt", "c.txt"]);
    let mut cache = DirectoryCache::new();
    let snapshot = generate_directory_tree(&listing, &mut cache);
    let files = vec![
        ScriptFile {
            path: String::from("maps/one.res"),
            contents: String::from("resources { a.txt file }"),
        },
        ScriptFile { path: String::from("maps/one.bsp"), contents: String::from("binary") },
        ScriptFile {
            path: String::from("maps/two.res"),
            contents: String::from("resources { b.txt file c.txt file }"),
        },
    ];
    assert!(matches!(fullcheck_reslist_files(&arguments(true), true, &files, snapshot), Ok(2)));
    assert!(matches!(
        fullcheck_reslist_files(&arguments(true), false, &files, snapshot),
        Err(FullcheckError::MissingDirectory)
    ));
    match fullcheck_reslist_files(&arguments(false), true, &files, snapshot) {
        Err(FullcheckError::File { path, error }) => {
            assert_eq!(path, "maps/one.res");
            assert!(matches!(error, ScriptError::UndeclaredResources { .. }));
        }
        other => panic!("wrong result: {:?}", other),
    }
}

#[test]
fn reslist_format_agrees_with_the_pattern() {
    let pattern = Regex::new(
        r#"(?x)^\s*(("[Rr]esources")|([Rr]esources))\s*
           (\{
           (\s*(("[^"\{\}]*")|([\S&&[^"\{\}]]+))\s+(("file")|(file))\s*)+
           \})\s*$"#,
    )
    .unwrap();
    let listing = sample_release();
    let mut documents = valid_reslists();
    documents.extend(invalid_reslists());
    documents.push(String::from("resources { a file b file }"));
    documents.push(String::from("resources { \"a b\" file }"));
    documents.push(String::from("resources { a\u{a0}file }"));
    documents.push(String::from("resources { a file } }"));
    documents.push(String::from("resources { \"a\" \"file }"));
    for document in documents {
        if document.contains("RESOURCES") {
            continue;
        }
        let well_formed = !matches!(
            checked(&document, &listing, true),
            Err(ScriptError::Format { .. })
        );
        assert_eq!(well_formed, pattern.is_match(&document), "{:?}", document);
    }
}
