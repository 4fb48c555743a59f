use ges_mapreleaser::directory_index::{DirectoryCache, DirectoryListing};
use ges_mapreleaser::error::{FailureKind, FullcheckError, ScriptError};
use ges_mapreleaser::music_script_builder::{
    check_music_script_file, create_music_script_file, create_or_verify_music_script_file,
    fullcheck_music_script_files, generate_mp3_directory_tree,
};
use ges_mapreleaser::shared::{Outcome, ScriptFile};
use regex::Regex;

fn install_sound() -> DirectoryListing {
    DirectoryListing {
        root: String::from("gesdir/gesource/sound"),
        files: vec![
            String::from("gesdir/gesource/sound/music/classy.mp3"),
            String::from("gesdir/gesource/sound/music/spy.mp3"),
            String::from("gesdir/gesource/sound/music/always_better.mp3"),
            String::from("gesdir/gesource/sound/music/shaken_and_stirred.mp3"),
            String::from("gesdir/gesource/sound/music/martini.mp3"),
            String::from("gesdir/gesource/sound/music/standard_operating_procedure.mp3"),
            String::from("gesdir/gesource/sound/weapons/shot.wav"),
        ],
    }
}

fn local_sound() -> DirectoryListing {
    DirectoryListing {
        root: String::from("rootdir/gesource/sound/"),
        files: vec![
            String::from("rootdir/gesource/sound/music/Local Track.MP3"),
            String::from("rootdir/gesource/sound/music/readme.txt"),
            String::from("rootdir/gesource/sound/ambient/wind.mp3"),
        ],
    }
}

fn no_sound() -> DirectoryListing {
    DirectoryListing { root: String::from("rootdir/gesource/sound"), files: Vec::new() }
}

fn checked(contents: &str) -> Result<(), ScriptError> {
    let mut cache = DirectoryCache::new();
    let install = install_sound();
    let local = local_sound();
    let files = generate_mp3_directory_tree(&install, &local, true, "mp3", &mut cache);
    check_music_script_file(contents, Some(files))
}

const SAMPLE: &str = "\"music\"\r\n{\r\n\
\t\"file\"\t\"music/classy.mp3\"\r\n\
\t\"file\"\t\"music/local track.mp3\"\r\n\
\t\"xmusic\"\r\n\t{\r\n\
\t\t\"file\"\t\"music/spy.mp3\"\r\n\
\t\t\"file\"\t\"ambient/wind.mp3\"\r\n\
\t}\r\n\
\tarea_one { file music\\MARTINI.mp3 }\r\n\
}\r\n";

fn valid_music_scripts() -> Vec<String> {
    vec![
        String::from(SAMPLE),
        SAMPLE.replace("\r\n", "\n"),
        SAMPLE.replace("\"music\"", "music"),
        SAMPLE.replace("\"music\"\r\n{", "music{"),
        String::from("music { file music/spy.mp3 }"),
        String::from("music{file music/spy.mp3}"),
        String::from("music { file { file music/spy.mp3 } }"),
        String::from("music { \"a block\" { \"file\" \"music/spy.mp3\" } \"file\" \"music/spy.mp3\" }"),
        String::from("music { file \"music/spy.mp3\"\"file\" \"music/classy.mp3\" }"),
    ]
}

fn malformed_music_scripts() -> Vec<String> {
    vec![
        String::new(),
        String::from("music"),
        String::from("music { }"),
        String::from("music { file music/spy.mp3"),
        String::from("music { file music/spy.mp3 } }"),
        String::from("music { file music/spy.mp3 } music"),
        String::from("Music { file music/spy.mp3 }"),
        String::from("sounds { file music/spy.mp3 }"),
        String::from("music { music/spy.mp3 }"),
        String::from("music { file }"),
        String::from("music { file\"music/spy.mp3\" }"),
        String::from("music { \"file\"\"music/spy.mp3\" }"),
        String::from("music { File music/spy.mp3 }"),
        String::from("music { file \"music/spy.mp3 }"),
        String::from("music { file \"music/{spy}.mp3\" }"),
        String::from("music { block { } }"),
        String::from("music { block { file music/spy.mp3 }"),
        String::from("music { block { inner { file music/spy.mp3 } } }"),
        String::from("music { block { file music/spy.mp3 inner { file music/spy.mp3 } } }"),
        String::from("music { { file music/spy.mp3 } }"),
        String::from("music { block file music/spy.mp3 }"),
    ]
}

#[test]
fn valid_music_scripts_are_accepted() {
    for script in valid_music_scripts() {
        let result = checked(&script);
        assert!(result.is_ok(), "{:?}: {:?}", script, result);
        assert!(check_music_script_file(&script, None).is_ok());
    }
}

#[test]
fn malformed_music_scripts_are_rejected() {
    for script in malformed_music_scripts() {
        match checked(&script) {
            Err(error) => {
                assert!(matches!(error, ScriptError::Format { .. }), "{:?}: {:?}", script, error);
                assert_eq!(error.kind(), FailureKind::Format);
                assert!(error.message().contains("\"music\""));
            }
            Ok(()) => panic!("{:?} should be rejected", script),
        }
        assert!(matches!(check_music_script_file(&script, None), Err(ScriptError::Format { .. })));
    }
}

#[test]
fn music_format_agrees_with_the_pattern() {
    let pattern = Regex::new(
        r#"(?x)^\s*(("music")|(music))\s*
           (\{\s*
           (
           (\s*(("file")|(file))\s+(("[^"\{\}]*")|([\S&&[^"\{\}]]+))\s*)
           |
           (
           (("[^"\{\}]*")|([\S&&[^"\{\}]]+))\s*
           \{\s*
           (\s*(("file")|(file))\s+(("[^"\{\}]*")|([\S&&[^"\{\}]]+))\s*)+
           \}\s*
           )
           )*
           \})\s*$"#,
    )
    .unwrap();
    let mut documents = valid_music_scripts();
    documents.extend(malformed_music_scripts());
    for document in documents {
        if document == "music { }" {
            continue;
        }
        let well_formed = check_music_script_file(&document, None).is_ok();
        assert_eq!(well_formed, pattern.is_match(&document), "{:?}", document);
    }
}

#[test]
fn tracks_must_be_mp3_files() {
    for (script, path) in [
        ("music { file music/spy.wav }", "music/spy.wav"),
        ("music { file \"Music\\Spy.MP4\" }", "music/spy.mp4"),
        ("music { file music/spy.mp3 file ab }", "ab"),
        ("music { file \"\" }", ""),
    ] {
        for with_files in [false, true] {
            let result = if with_files { checked(script) } else { check_music_script_file(script, None) };
            match result {
                Err(error) => {
                    assert_eq!(error.kind(), FailureKind::Reference);
                    assert_eq!(
                        error.message(),
                        format!("File {} is not an MP3 file!  Please convert it to mp3 format.", path)
                    );
                }
                Ok(()) => panic!("{:?} should be rejected", script),
            }
        }
    }
    assert!(matches!(
        check_music_script_file("music { file mp3 }", None),
        Err(ScriptError::NotMp3 { .. })
    ));
    assert!(matches!(
        check_music_script_file("music { file songmp3 }", None),
        Err(ScriptError::NotMp3 { .. })
    ));
    assert!(matches!(
        check_music_script_file("music { file song.mp3/track }", None),
        Err(ScriptError::NotMp3 { .. })
    ));
    assert!(check_music_script_file("music { file SONG.MP3 }", None).is_ok());
    assert!(check_music_script_file("music { file .hidden.mp3 }", None).is_ok());
}

#[test]
fn tracks_must_exist_where_the_sound_files_are_known() {
    let script = "music { file music/spy.mp3 file music/unknown.mp3 }";
    match checked(script) {
        Err(error) => {
            assert_eq!(
                error.message(),
                "Failed to locate music file music/unknown.mp3 in either the GE:S or local directory tree\nEnsure that the file path is valid and that the file exists."
            );
            assert!(matches!(error, ScriptError::MissingMusic { .. }));
        }
        Ok(()) => panic!("the script should be rejected"),
    }
    assert!(check_music_script_file(script, None).is_ok());
    assert!(checked("music { file weapons/shot.wav }").is_err());
    assert!(checked("music { file \"Music\\Local Track.mp3\" }").is_ok());
}

#[test]
fn track_matches_whatever_its_letter_case() {
    let install = DirectoryListing {
        root: String::from("install/sound"),
        files: vec![String::from("install/sound/Music/ÉTÉ.MP3")],
    };
    let mut cache = DirectoryCache::new();
    let files = generate_mp3_directory_tree(&install, &install, false, "mp3", &mut cache);
    assert_eq!(files.paths(), vec!["music/été.mp3"]);
    assert!(check_music_script_file("music { file \"Music\\Été.mp3\" }", Some(files)).is_ok());
    assert!(check_music_script_file("music { file music/été.Mp3 }", Some(files)).is_ok());
    match check_music_script_file("music { file MUSIC/ETE.mp3 }", Some(files)) {
        Err(ScriptError::MissingMusic { path }) => assert_eq!(path, "music/ete.mp3"),
        other => panic!("wrong result: {:?}", other),
    }
}

#[test]
fn music_script_names_the_local_tracks() {
    let created = create_music_script_file(&local_sound());
    assert_eq!(
        created,
        "\"music\"\r\n{\r\n\t\"file\"\t\"music/local track.mp3\"\r\n\t\"file\"\t\"ambient/wind.mp3\"\r\n}\r\n"
    );
    assert!(checked(&created).is_ok());
    assert!(check_music_script_file(&created, None).is_ok());
}

#[test]
fn music_script_names_the_default_tracks_without_local_ones() {
    let created = create_music_script_file(&no_sound());
    assert_eq!(
        created,
        "\"music\"\r\n{\r\n\
\t\"file\"\t\"music/classy.mp3\"\r\n\
\t\"file\"\t\"music/spy.mp3\"\r\n\
\t\"file\"\t\"music/always_better.mp3\"\r\n\
\t\"file\"\t\"music/shaken_and_stirred.mp3\"\r\n\
\t\"file\"\t\"music/martini.mp3\"\r\n\
\t\"file\"\t\"music/standard_operating_procedure.mp3\"\r\n\
}\r\n"
    );
    assert!(checked(&created).is_ok());
    let text_only = DirectoryListing {
        root: String::from("sound"),
        files: vec![String::from("sound/notes.txt")],
    };
    assert_eq!(create_music_script_file(&text_only), created);
}

#[test]
fn music_script_is_written_or_checked() {
    let install = install_sound();
    let local = local_sound();
    let mut cache = DirectoryCache::new();
    let files = generate_mp3_directory_tree(&install, &local, true, "mp3", &mut cache);
    match create_or_verify_music_script_file(None, &local, Some(files)) {
        Ok(Outcome::Created { contents }) => assert_eq!(contents, create_music_script_file(&local)),
        other => panic!("wrong result: {:?}", other),
    }
    assert!(matches!(
        create_or_verify_music_script_file(Some(SAMPLE), &local, Some(files)),
        Ok(Outcome::Verified)
    ));
    assert!(matches!(
        create_or_verify_music_script_file(Some(SAMPLE), &local, None),
        Ok(Outcome::FormatVerified)
    ));
    assert!(matches!(
        create_or_verify_music_script_file(Some("music { file gone.mp3 }"), &local, Some(files)),
        Err(ScriptError::MissingMusic { .. })
    ));
    assert!(matches!(
        create_or_verify_music_script_file(Some("music { file gone.mp3 }"), &local, None),
        Ok(Outcome::FormatVerified)
    ));
    assert!(matches!(
        create_or_verify_music_script_file(Some("music { file gone.ogg }"), &local, None),
        Err(ScriptError::NotMp3 { .. })
    ));
}

#[test]
fn sound_files_come_from_both_sound_directories() {
    let install = install_sound();
    let local = local_sound();
    let mut cache = DirectoryCache::new();
    let both = generate_mp3_directory_tree(&install, &local, true, "mp3", &mut cache).paths();
    assert_eq!(
        both,
        vec![
            "music/classy.mp3",
            "music/spy.mp3",
            "music/always_better.mp3",
            "music/shaken_and_stirred.mp3",
            "music/martini.mp3",
            "music/standard_operating_procedure.mp3",
            "music/local track.mp3",
            "ambient/wind.mp3",
        ]
    );
    let mut other = DirectoryCache::new();
    let alone = generate_mp3_directory_tree(&install, &local, false, "mp3", &mut other);
    assert_eq!(alone.len(), 6);
    assert!(!alone.contains("ambient/wind.mp3"));
    let mut third = DirectoryCache::new();
    let same = generate_mp3_directory_tree(&install, &install, true, "mp3", &mut third);
    assert_eq!(same.len(), 6);
}

#[test]
fn music_scripts_of_an_installation_are_swept() {
    let install = install_sound();
    let local = no_sound();
    let mut cache = DirectoryCache::new();
    let files = generate_mp3_directory_tree(&install, &local, false, "mp3", &mut cache);
    let scripts = vec![
        ScriptFile {
            path: String::from("scripts/music/level_music_one.txt"),
            contents: String::from("music { file music/spy.mp3 }"),
        },
        ScriptFile {
            path: String::from("scripts/music/level_music_two.txt"),
            contents: String::from("music { file music/elsewhere.mp3 }"),
        },
        ScriptFile {
            path: String::from("scripts/music/level_music_three.txt"),
            contents: String::from("not even a script"),
        },
    ];
    match fullcheck_music_script_files(true, &scripts, Some(files)) {
        Err(FullcheckError::File { path, error }) => {
            assert_eq!(path, "scripts/music/level_music_two.txt");
            assert!(matches!(error, ScriptError::MissingMusic { .. }));
        }
        other => panic!("wrong result: {:?}", other),
    }
    match fullcheck_music_script_files(true, &scripts, None) {
        Err(FullcheckError::File { path, error }) => {
            assert_eq!(path, "scripts/music/level_music_three.txt");
            assert!(matches!(error, ScriptError::Format { .. }));
        }
        other => panic!("wrong result: {:?}", other),
    }
    let good = vec![ScriptFile {
        path: String::from("scripts/music/level_music_one.txt"),
        contents: String::from("music { file music/spy.mp3 }"),
    }];
    assert!(matches!(fullcheck_music_script_files(true, &good, Some(files)), Ok(1)));
    assert_eq!(
        fullcheck_music_script_files(false, &good, Some(files)).unwrap_err().message(),
        "Script directory does not exist!  Is this really a valid GE:S install?"
    );
}
