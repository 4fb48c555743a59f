use ges_mapreleaser::directory_index::DirectorySnapshot;
use ges_mapreleaser::error::ScriptError;
use ges_mapreleaser::music_script_builder::{check_music_script_file, declared_tracks};
use ges_mapreleaser::reslist_builder::{check_reslist, declared_resources};
use ges_mapreleaser::shared::get_barebones_args;
use regex::Regex;

/// Every document made of up to `length` of the given pieces, each with or
/// without a blank before it.
fn documents(pieces: &[&str], length: usize) -> Vec<String> {
    let mut all = Vec::new();
    let mut last: Vec<String> = vec![String::new()];
    for _ in 0..length {
        let mut next = Vec::new();
        for document in &last {
            for piece in pieces {
                next.push(format!("{}{}", document, piece));
                next.push(format!("{} {}", document, piece));
            }
        }
        all.extend(next.iter().cloned());
        last = next;
    }
    all
}

#[test]
fn reslist_shape_is_that_of_the_pattern() {
    let pattern = Regex::new(
        r#"(?x)^\s*(("[Rr]esources")|([Rr]esources))\s*
           (\{
           (\s*(("[^"\{\}]*")|([\S&&[^"\{\}]]+))\s+(("file")|(file))\s*)+
           \})\s*$"#,
    )
    .unwrap();
    let entry =
        Regex::new(r#"\s*(("[^"\{\}]*")|([\S&&[^"\{\}]]+))\s+(("file")|(file))\s*"#).unwrap();
    let mut args = get_barebones_args("project");
    args.fullcheck = true;
    let snapshot = DirectorySnapshot::new();
    let pieces = ["resources", "\"Resources\"", "file", "\"file\"", "A", "\"a\\b\"", "{", "}"];
    let mut accepted = 0;
    for document in documents(&pieces, 5) {
        let well_formed =
            !matches!(check_reslist(&args, &document, &snapshot), Err(ScriptError::Format { .. }));
        assert_eq!(well_formed, pattern.is_match(&document), "{:?}", document);
        assert_eq!(well_formed, declared_resources(&document).is_some());
        if well_formed {
            accepted += 1;
            let found: Vec<String> = entry
                .captures_iter(&document)
                .map(|found| found[1].replace("\"", "").replace("\\", "/").to_lowercase())
                .collect();
            assert_eq!(declared_resources(&document), Some(found), "{:?}", document);
        }
    }
    assert!(accepted > 0);
}

#[test]
fn music_script_shape_is_that_of_the_pattern_but_for_an_empty_block() {
    let pattern = Regex::new(
        r#"(?x)^\s*(("music")|(music))\s*
           (\{\s*
           (
           (\s*(("file")|(file))\s+(("[^"\{\}]*")|([\S&&[^"\{\}]]+))\s*)
           |
           (
           (("[^"\{\}]*")|([\S&&[^"\{\}]]+))\s*
           \{\s*
           (\s*(("file")|(file))\s+(("[^"\{\}]*")|([\S&&[^"\{\}]]+))\s*)+
           \}\s*
           )
           )*
           \})\s*$"#,
    )
    .unwrap();
    let entry =
        Regex::new(r#"\s*(("file")|(file))\s+(("[^"\{\}]*")|([\S&&[^"\{\}]]+))\s*"#).unwrap();
    let pieces = ["music", "\"music\"", "file", "\"file\"", "A", "\"a\\b\"", "{", "}"];
    let mut accepted = 0;
    for document in documents(&pieces, 5) {
        let well_formed = check_music_script_file(&document, None).is_ok()
            || matches!(check_music_script_file(&document, None), Err(ScriptError::NotMp3 { .. }));
        let empty = document.replace(' ', "").ends_with("music{}") || document.replace(' ', "").ends_with("\"music\"{}");
        if empty && pattern.is_match(&document) {
            assert!(!well_formed, "{:?}", document);
        } else {
            assert_eq!(well_formed, pattern.is_match(&document), "{:?}", document);
        }
        assert_eq!(well_formed, declared_tracks(&document).is_some());
        if well_formed {
            accepted += 1;
            let found: Vec<String> = entry
                .captures_iter(&document)
                .map(|found| found[4].replace("\"", "").replace("\\", "/").to_lowercase())
                .collect();
            assert_eq!(declared_tracks(&document), Some(found), "{:?}", document);
        }
    }
    assert!(accepted > 0);
}

#[test]
fn words_that_touch_are_one_word() {
    assert!(matches!(
        check_music_script_file("music { file a.mp3file b.mp3 }", None),
        Err(ScriptError::Format { .. })
    ));
    assert!(check_music_script_file("music { file a.mp3 file b.mp3 }", None).is_ok());
    assert!(check_music_script_file("music { file \"a.mp3\"file b.mp3 }", None).is_ok());
    assert!(matches!(
        check_music_script_file("music { file ab{ file c.mp3 } }", None),
        Err(ScriptError::Format { .. })
    ));
}
