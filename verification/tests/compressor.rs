use bzip2::read::BzDecoder;
use ges_mapreleaser::folder_compressor::{
    compress_file, compressed_copy, create_compressed_extension, files_to_remove,
    get_compressed_directory, CompressError, Compressed,
};
use ges_mapreleaser::shared::get_barebones_args;
use std::io::Read;

fn unpacked(stream: &[u8]) -> Vec<u8> {
    let mut out = Vec::new();
    BzDecoder::new(stream).read_to_end(&mut out).unwrap();
    out
}

#[test]
fn fresh_copy_is_a_bzip2_stream_of_the_file() {
    let args = get_barebones_args("project");
    let contents: Vec<u8> = (0..20000u32).map(|i| (i % 7) as u8 + b'a').collect();
    match compress_file(&args, false, &contents) {
        Ok(Compressed::Fresh(stream)) => {
            assert_ne!(stream, contents);
            assert!(stream.len() < contents.len());
            assert_eq!(&stream[..4], b"BZh9");
            assert_eq!(unpacked(&stream), contents);
        }
        other => panic!("wrong result: {:?}", other),
    }
    match compress_file(&args, false, &[]) {
        Ok(Compressed::Fresh(stream)) => {
            assert_eq!(&stream[..4], b"BZh9");
            assert_eq!(unpacked(&stream), Vec::<u8>::new());
        }
        other => panic!("wrong result: {:?}", other),
    }
}

#[test]
fn existing_copy_is_kept_unless_everything_is_compressed_anew() {
    let mut args = get_barebones_args("project");
    assert!(matches!(compress_file(&args, true, b"data"), Ok(Compressed::Kept)));
    assert!(matches!(compress_file(&args, false, b"data"), Ok(Compressed::Fresh(_))));
    args.recompress = true;
    assert!(matches!(compress_file(&args, true, b"data"), Ok(Compressed::Fresh(_))));
    assert!(matches!(compress_file(&args, false, b"data"), Ok(Compressed::Fresh(_))));
}

#[test]
fn outcome_follows_the_answer_of_the_compressor() {
    let mut args = get_barebones_args("project");
    assert!(matches!(compressed_copy(&args, true, None), Ok(Compressed::Kept)));
    assert!(matches!(compressed_copy(&args, true, Some(vec![1, 2])), Ok(Compressed::Kept)));
    assert!(matches!(compressed_copy(&args, false, None), Err(CompressError::Compressor)));
    match compressed_copy(&args, false, Some(vec![1, 2])) {
        Ok(Compressed::Fresh(stream)) => assert_eq!(stream, vec![1, 2]),
        other => panic!("wrong result: {:?}", other),
    }
    args.recompress = true;
    assert!(matches!(compressed_copy(&args, true, None), Err(CompressError::Compressor)));
    assert!(matches!(compressed_copy(&args, true, Some(vec![3])), Ok(Compressed::Fresh(_))));
}

#[test]
fn compressed_copy_has_a_double_extension() {
    assert_eq!(create_compressed_extension("maps/test_map.bsp"), "bsp.bz2");
    assert_eq!(create_compressed_extension("sound/music/track.MP3"), "MP3.bz2");
    assert_eq!(create_compressed_extension("readme"), "bz2");
    assert_eq!(create_compressed_extension(".hidden"), "bz2");
    assert_eq!(create_compressed_extension("dir.d/readme"), "bz2");
    assert_eq!(create_compressed_extension("archive.tar.gz"), "gz.bz2");
}

#[test]
fn files_with_the_extension_are_picked_for_removal() {
    let found = vec![
        String::from("out/maps/test_map.bsp.bz2"),
        String::from("out/maps/test_map.bsp"),
        String::from("out/sound/Track.mp3.BZ2"),
        String::from("out/readme"),
    ];
    assert_eq!(
        files_to_remove(&found, "bz2"),
        vec!["out/maps/test_map.bsp.bz2", "out/sound/Track.mp3.BZ2"]
    );
    assert_eq!(files_to_remove(&found, ""), found);
    assert_eq!(files_to_remove(&found, "zip"), Vec::<String>::new());
}

#[test]
fn compressed_copy_goes_beside_the_release() {
    assert_eq!(
        get_compressed_directory("/home/user/gesource").as_deref(),
        Some("/home/user/gesource_compressed/gesource")
    );
    assert_eq!(
        get_compressed_directory("/home/user/gesource/").as_deref(),
        Some("/home/user/gesource_compressed/gesource")
    );
    assert_eq!(
        get_compressed_directory("games//release").as_deref(),
        Some("games/gesource_compressed/gesource")
    );
    assert_eq!(
        get_compressed_directory("C:\\games\\gesource").as_deref(),
        Some("C:\\games/gesource_compressed/gesource")
    );
    assert_eq!(get_compressed_directory("/gesource").as_deref(), Some("/gesource_compressed/gesource"));
    assert_eq!(get_compressed_directory("gesource").as_deref(), Some("gesource_compressed/gesource"));
    assert_eq!(get_compressed_directory("release/..").as_deref(), Some("release/gesource_compressed/gesource"));
}

#[test]
fn root_without_a_parent_has_no_compressed_copy() {
    assert_eq!(get_compressed_directory(""), None);
    assert_eq!(get_compressed_directory("/"), None);
    assert_eq!(get_compressed_directory("\\"), None);
    assert_eq!(get_compressed_directory("//"), None);
}

#[test]
fn compressing_never_fails() {
    let mut args = get_barebones_args("project");
    for contents in [&b""[..], &b"a"[..], &[0u8; 70000][..], &b"BZh91AY&SY"[..]] {
        args.recompress = false;
        assert!(matches!(compress_file(&args, false, contents), Ok(Compressed::Fresh(_))));
        args.recompress = true;
        assert!(matches!(compress_file(&args, true, contents), Ok(Compressed::Fresh(_))));
    }
}
