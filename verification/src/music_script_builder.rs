//! The music script: the playlist of a map.
//!
//! A music script is one block labeled `music`. It holds entries, each the
//! word `file` and then a path, and named blocks of such entries, one level
//! deep.

use crate::directory_index::{
    cached, files_in_directory, has_type, is_of_type, kept, lemma_files_in_directory,
    lemma_snapshot_holds, list_files, listings, roots_of, served, snapshot_of, DirectoryCache,
    DirectoryListing, DirectorySnapshot, Listing, ScanKey, Served,
};
use crate::error::{reports, FullcheckError, ScriptError, ScriptFault};
use crate::line_grammar::{
    is_keyword, is_plain, is_word, join_lines, joined, lemma_lex_closing, lemma_lex_opening,
    lemma_lex_pair_line, lexemes, lexemes_from, lexemes_of, token_is_keyword, token_is_word,
    token_text, tokenize, Lexeme, Token, TokenKind,
};
use crate::paths::{extension_of, is_normal, lemma_extension_at, normal_form, to_normal_form};
use crate::shared::{
    check_all_files_in_dir_with_func, compute_or_get_safe_reference_to_directory_cache, lemma_swept,
    sweep_result, Outcome, ScriptFile,
};
use crate::text::{
    chars_equal, from_chars, push_chars, strings, strings_of_chars, strs, texts, to_chars,
};
use vstd::prelude::*;

verus! {

/// `first` put before the paths `rest`, where there are any.
pub open spec fn path_then(first: Seq<char>, rest: Option<Seq<Seq<char>>>) -> Option<
    Seq<Seq<char>>,
> {
    match rest {
        Some(paths) => Some(seq![first] + paths),
        None => None,
    }
}

/// The paths that the tokens from position `at` on declare, if they are what
/// may follow inside the `music` block. `in_block` says whether a named block
/// is open, `filled` whether the block that is open holds anything yet.
///
/// An entry is the word `file` and then, after white space, a word: the
/// path. Outside a named block, a word followed by an opening brace opens
/// one. A closing brace closes the block that is open, which must hold
/// something; the one that closes the `music` block is the last token.
pub open spec fn music_entries(
    tokens: Seq<Lexeme>,
    at: int,
    in_block: bool,
    filled: bool,
) -> Option<Seq<Seq<char>>>
    decreases tokens.len() - at,
{
    if 0 <= at < tokens.len() {
        if tokens[at].kind == TokenKind::Close {
            if !filled {
                None
            } else if in_block {
                music_entries(tokens, at + 1, false, true)
            } else if at == tokens.len() - 1 {
                Some(Seq::empty())
            } else {
                None
            }
        } else if is_keyword(tokens[at], "file"@) && at + 1 < tokens.len() && is_word(
            tokens[at + 1],
        ) && tokens[at + 1].spaced {
            path_then(tokens[at + 1].text, music_entries(tokens, at + 2, in_block, true))
        } else if !in_block && is_word(tokens[at]) && at + 1 < tokens.len() && tokens[at + 1].kind
            == TokenKind::Open {
            music_entries(tokens, at + 2, true, false)
        } else {
            None
        }
    } else {
        None
    }
}

/// The paths that a music script declares, as it writes them, if its tokens
/// have the shape of a music script: the label `music`, an opening brace,
/// then entries and named blocks of entries up to the closing brace.
pub open spec fn music_declared(tokens: Seq<Lexeme>) -> Option<Seq<Seq<char>>> {
    if tokens.len() >= 2 && is_keyword(tokens[0], "music"@) && tokens[1].kind == TokenKind::Open {
        music_entries(tokens, 2, false, false)
    } else {
        None
    }
}

/// The paths in the form in which they are compared.
pub open spec fn track_paths(values: Seq<Seq<char>>) -> Seq<Seq<char>> {
    Seq::new(values.len(), |i: int| normal_form(values[i]))
}

/// The tracks that a music script names, if it is well formed.
pub open spec fn declared_track_paths(text: Seq<char>) -> Option<Seq<Seq<char>>> {
    match lexemes(text) {
        None => None,
        Some(tokens) => match music_declared(tokens) {
            None => None,
            Some(values) => Some(track_paths(values)),
        },
    }
}

/// What is wrong with a declared track: it is no MP3 file by its extension;
/// or, where the sound files are known, none of them has this path.
pub open spec fn track_fault(path: Seq<char>, sound_files: Option<Seq<Seq<char>>>) -> Option<
    ScriptFault,
> {
    if !has_type(path, "mp3"@) {
        Some(ScriptFault::NotMp3 { path })
    } else {
        match sound_files {
            Some(files) => if files.contains(path) {
                None
            } else {
                Some(ScriptFault::MissingMusic { path })
            },
            None => None,
        }
    }
}

/// The fault of the first track at or after `from` that has one.
pub open spec fn first_track_fault(
    paths: Seq<Seq<char>>,
    sound_files: Option<Seq<Seq<char>>>,
    from: int,
) -> Option<ScriptFault>
    decreases paths.len() - from,
{
    if 0 <= from < paths.len() {
        match track_fault(paths[from], sound_files) {
            Some(fault) => Some(fault),
            None => first_track_fault(paths, sound_files, from + 1),
        }
    } else {
        None
    }
}

/// The sound files, as contracts speak of them, where they are known.
pub open spec fn known_files(mp3_files: Option<&DirectorySnapshot>) -> Option<Seq<Seq<char>>> {
    match mp3_files {
        Some(files) => Some(files@),
        None => None,
    }
}

/// The verdict on a music script: the fault of the first track it names
/// that has one. `sound_files` holds the sound files of the installation and
/// of the release, where the installation is at hand.
pub open spec fn music_script_verdict(
    text: Seq<char>,
    sound_files: Option<Seq<Seq<char>>>,
) -> Result<(), ScriptFault> {
    match declared_track_paths(text) {
        None => Err(ScriptFault::Format { section: "music"@ }),
        Some(paths) => match first_track_fault(paths, sound_files, 0) {
            Some(fault) => Err(fault),
            None => Ok(()),
        },
    }
}

/// Whether a music script can name each of the given tracks so that each is
/// read back as it is written: no path holds a quotation mark or a brace,
/// and each path is its own normal form.
pub open spec fn can_be_named(paths: Seq<Seq<char>>) -> bool {
    forall|i: int| 0 <= i < paths.len() ==> is_plain(#[trigger] paths[i]) && is_normal(paths[i])
}

/// The tracks that a music script names where the release brings none of
/// its own.
pub open spec fn default_music() -> Seq<Seq<char>> {
    seq![
        "music/classy.mp3"@,
        "music/spy.mp3"@,
        "music/always_better.mp3"@,
        "music/shaken_and_stirred.mp3"@,
        "music/martini.mp3"@,
        "music/standard_operating_procedure.mp3"@,
    ]
}

/// The tracks that a fresh music script names: the MP3 files of the sound
/// directory of the release, or the default tracks where it holds none.
pub open spec fn music_file_names(sound_dir: Seq<char>, found: Seq<Seq<char>>) -> Seq<Seq<char>> {
    let local = files_in_directory(
        sound_dir,
        found,
        "mp3"@,
        Seq::<Seq<char>>::empty(),
        found.len() as int,
    );
    if local.len() == 0 {
        default_music()
    } else {
        local
    }
}

/// The line that names a track: a tab, the word `file` between quotation
/// marks, a tab, and the path between quotation marks.
pub open spec fn track_line(path: Seq<char>) -> Seq<char> {
    seq!['\t', '"', 'f', 'i', 'l', 'e', '"', '\t', '"'] + path + seq!['"']
}

/// The lines of the music script that names the given tracks: the label, an
/// opening brace, a line for each track, and a closing brace.
pub open spec fn music_script_lines(tracks: Seq<Seq<char>>) -> Seq<Seq<char>> {
    seq!["\"music\""@, "{"@] + Seq::new(tracks.len(), |i: int| track_line(tracks[i])) + seq![
        "}"@,
    ]
}

/// The text of the music script that names the given tracks.
pub open spec fn music_script_text(tracks: Seq<Seq<char>>) -> Seq<char> {
    joined(music_script_lines(tracks))
}

/// The directory trees that hold the sound files a music script may name:
/// the sound directory of the installation, and that of the release where
/// it exists and is another directory.
pub open spec fn sound_trees(
    gesource_sound_dir: Listing,
    local_sound_dir: Listing,
    local_sound_dir_exists: bool,
) -> Seq<Listing> {
    if local_sound_dir_exists && local_sound_dir.root != gesource_sound_dir.root {
        seq![gesource_sound_dir, local_sound_dir]
    } else {
        seq![gesource_sound_dir]
    }
}

/// The paths found so far, then those of the rest.
pub open spec fn paths_then(found: Seq<Seq<char>>, rest: Option<Seq<Seq<char>>>) -> Option<
    Seq<Seq<char>>,
> {
    match rest {
        Some(paths) => Some(found + paths),
        None => None,
    }
}

/// Reads the declared paths off the tokens of a music script, each in the
/// form in which paths are compared.
fn read_tracks(text: &[char], tokens: &Vec<Token>) -> (r: Option<Vec<Vec<char>>>)
    requires
        forall|i: int| 0 <= i < tokens.len() ==> (#[trigger] tokens[i]).within(text@),
    ensures
        match r {
            Some(paths) => match music_declared(lexemes_of(tokens@, text@)) {
                Some(values) => texts(paths@) == track_paths(values),
                None => false,
            },
            None => music_declared(lexemes_of(tokens@, text@)) is None,
        },
{
    let ghost all = lexemes_of(tokens@, text@);
    let n = tokens.len();
    let label = to_chars("music");
    if n < 2 {
        return None;
    }
    assert(all[0] == tokens[0].lexeme(text@));
    assert(all[1] == tokens[1].lexeme(text@));
    if !token_is_keyword(text, &tokens[0], label.as_slice()) || tokens[1].kind != TokenKind::Open {
        return None;
    }
    let keyword = to_chars("file");
    let mut paths: Vec<Vec<char>> = Vec::new();
    let ghost mut values: Seq<Seq<char>> = Seq::empty();
    let mut at: usize = 2;
    let mut in_block = false;
    let mut filled = false;
    while at < n
        invariant
            2 <= at <= n,
            n == tokens.len(),
            all == lexemes_of(tokens@, text@),
            keyword@ == "file"@,
            forall|k: int| 0 <= k < tokens.len() ==> (#[trigger] tokens[k]).within(text@),
            texts(paths@) == track_paths(values),
            music_declared(all) == paths_then(
                values,
                music_entries(all, at as int, in_block, filled),
            ),
        decreases n - at,
    {
        let token = &tokens[at];
        assert(all[at as int] == token.lexeme(text@));
        if token.kind == TokenKind::Close {
            if !filled {
                return None;
            }
            if in_block {
                in_block = false;
                at += 1;
            } else if at == n - 1 {
                proof {
                    assert(values + Seq::<Seq<char>>::empty() =~= values);
                }
                return Some(paths);
            } else {
                return None;
            }
        } else if token_is_keyword(text, token, keyword.as_slice()) && at + 1 < n && token_is_word(
            &tokens[at + 1],
        ) && tokens[at + 1].spaced {
            let value = &tokens[at + 1];
            assert(all[at + 1] == value.lexeme(text@));
            let ghost before = texts(paths@);
            let path = to_normal_form(token_text(text, value));
            paths.push(path);
            proof {
                let rest = music_entries(all, at + 2, in_block, true);
                let longer = values.push(all[at + 1].text);
                assert(texts(paths@) =~= before.push(normal_form(all[at + 1].text)));
                assert(track_paths(longer) =~= track_paths(values).push(
                    normal_form(all[at + 1].text),
                ));
                if rest is Some {
                    assert(values + (seq![all[at + 1].text] + rest->0) =~= longer + rest->0);
                }
                values = longer;
            }
            filled = true;
            at += 2;
        } else if !in_block && token_is_word(token) && at + 1 < n && tokens[at + 1].kind
            == TokenKind::Open {
            assert(all[at + 1] == tokens[at + 1].lexeme(text@));
            in_block = true;
            filled = false;
            at += 2;
        } else {
            proof {
                if at + 1 < n {
                    assert(all[at + 1] == tokens[at + 1].lexeme(text@));
                }
            }
            return None;
        }
    }
    None
}

/// The tracks that a music script names, each in the form in which paths
/// are compared, in the order in which it names them. `None` where the
/// script is not well formed.
pub fn declared_tracks(contents: &str) -> (r: Option<Vec<String>>)
    ensures
        match r {
            Some(paths) => declared_track_paths(contents@) == Some(strings(paths@)),
            None => declared_track_paths(contents@) is None,
        },
{
    let text = to_chars(contents);
    match tokenize(text.as_slice()) {
        None => None,
        Some(tokens) => match read_tracks(text.as_slice(), &tokens) {
            None => None,
            Some(paths) => Some(strings_of_chars(&paths)),
        },
    }
}

/// Holds the declared tracks against the sound files.
fn check_tracks(paths: &Vec<Vec<char>>, mp3_files: Option<&DirectorySnapshot>) -> (r: Result<
    (),
    ScriptError,
>)
    ensures
        match r {
            Ok(()) => first_track_fault(texts(paths@), known_files(mp3_files), 0) is None,
            Err(e) => first_track_fault(texts(paths@), known_files(mp3_files), 0) == Some(e@),
        },
{
    let ghost sound_files = known_files(mp3_files);
    let suffix = to_chars("mp3");
    let mut i: usize = 0;
    while i < paths.len()
        invariant
            i <= paths.len(),
            suffix@ == "mp3"@,
            sound_files == known_files(mp3_files),
            first_track_fault(texts(paths@), sound_files, 0) == first_track_fault(
                texts(paths@),
                sound_files,
                i as int,
            ),
        decreases paths.len() - i,
    {
        let path = paths[i].as_slice();
        if !is_of_type(path, suffix.as_slice()) {
            return Err(ScriptError::NotMp3 { path: from_chars(path) });
        }
        match mp3_files {
            Some(files) => {
                if !files.holds(path) {
                    return Err(ScriptError::MissingMusic { path: from_chars(path) });
                }
            },
            None => {},
        }
        i += 1;
    }
    Ok(())
}

/// Makes sure that the music script follows the format and that every track
/// it names is an MP3 file. Where the sound files of the installation and of
/// the release are given, every track must be one of them; where they are
/// not, the format and the kind of each track are still checked.
pub fn check_music_script_file(contents: &str, mp3_files: Option<&DirectorySnapshot>) -> (r: Result<
    (),
    ScriptError,
>)
    ensures
        reports(r, music_script_verdict(contents@, known_files(mp3_files))),
{
    let text = to_chars(contents);
    let tokens = match tokenize(text.as_slice()) {
        Some(tokens) => tokens,
        None => {
            return Err(ScriptError::Format { section: String::from_str("music") });
        },
    };
    let paths = match read_tracks(text.as_slice(), &tokens) {
        Some(paths) => paths,
        None => {
            return Err(ScriptError::Format { section: String::from_str("music") });
        },
    };
    check_tracks(&paths, mp3_files)
}

fn make_track_line(path: &[char]) -> (r: Vec<char>)
    ensures
        r@ == track_line(path@),
{
    let mut line: Vec<char> = Vec::new();
    line.push('\t');
    line.push('"');
    line.push('f');
    line.push('i');
    line.push('l');
    line.push('e');
    line.push('"');
    line.push('\t');
    line.push('"');
    push_chars(&mut line, path);
    line.push('"');
    assert(line@ =~= track_line(path@));
    line
}

fn default_music_list() -> (r: Vec<Vec<char>>)
    ensures
        texts(r@) == default_music(),
{
    let mut list: Vec<Vec<char>> = Vec::new();
    list.push(to_chars("music/classy.mp3"));
    list.push(to_chars("music/spy.mp3"));
    list.push(to_chars("music/always_better.mp3"));
    list.push(to_chars("music/shaken_and_stirred.mp3"));
    list.push(to_chars("music/martini.mp3"));
    list.push(to_chars("music/standard_operating_procedure.mp3"));
    assert(texts(list@) =~= default_music());
    list
}

/// Writes a music script that names the MP3 files of the sound directory of
/// the release, or the default tracks where that directory holds none. The
/// script that is written is well formed and names MP3 files only, where
/// it can name each of its tracks.
pub fn create_music_script_file(sound_dir: &DirectoryListing) -> (r: String)
    ensures
        r@ == music_script_text(music_file_names(sound_dir@.root, sound_dir@.files)),
        can_be_named(music_file_names(sound_dir@.root, sound_dir@.files)) ==> music_script_verdict(
            r@,
            None,
        ) is Ok,
{
    proof {
        if can_be_named(music_file_names(sound_dir@.root, sound_dir@.files)) {
            lemma_music_script_round_trip(sound_dir@, None);
        }
    }
    let root = to_chars(sound_dir.root.as_str());
    let target = to_chars("mp3");
    let excluded: Vec<Vec<char>> = Vec::new();
    assert(texts(excluded@) =~= Seq::<Seq<char>>::empty());
    let mut tracks = list_files(root.as_slice(), &sound_dir.files, target.as_slice(), &excluded);
    if tracks.len() == 0 {
        tracks = default_music_list();
    }
    let mut lines: Vec<Vec<char>> = Vec::new();
    lines.push(to_chars("\"music\""));
    lines.push(to_chars("{"));
    let ghost head = texts(lines@);
    assert(head =~= seq!["\"music\""@, "{"@]);
    let mut i: usize = 0;
    while i < tracks.len()
        invariant
            i <= tracks.len(),
            texts(lines@) == head + Seq::new(i as nat, |k: int| track_line(texts(tracks@)[k])),
        decreases tracks.len() - i,
    {
        let ghost before = texts(lines@);
        lines.push(make_track_line(tracks[i].as_slice()));
        assert(texts(lines@) =~= before.push(track_line(texts(tracks@)[i as int])));
        assert(texts(lines@) =~= head + Seq::new(
            (i + 1) as nat,
            |k: int| track_line(texts(tracks@)[k]),
        ));
        i += 1;
    }
    let ghost body = texts(lines@);
    lines.push(to_chars("}"));
    assert(texts(lines@) =~= body.push("}"@));
    assert(texts(lines@) =~= music_script_lines(texts(tracks@)));
    let text = join_lines(&lines);
    from_chars(text.as_slice())
}

/// Writes the music script of a release, or checks the one that exists.
///
/// `existing` holds the music script of the release as it was read, if
/// there is one. Without one, a fresh script is handed back for writing; it
/// names the MP3 files of `sound_dir`, the sound directory of the release.
/// `mp3_files` is the snapshot of the sound files of the installation and of
/// the release, where the installation is at hand. Where it is not, an
/// existing script is checked for its format and the kind of its tracks
/// only, and the outcome says so.
pub fn create_or_verify_music_script_file(
    existing: Option<&str>,
    sound_dir: &DirectoryListing,
    mp3_files: Option<&DirectorySnapshot>,
) -> (r: Result<Outcome, ScriptError>)
    ensures
        match existing {
            None => r matches Ok(Outcome::Created { contents }) && contents@ == music_script_text(
                music_file_names(sound_dir@.root, sound_dir@.files),
            ),
            Some(text) => match music_script_verdict(text@, known_files(mp3_files)) {
                Ok(_) => if mp3_files is Some {
                    r matches Ok(Outcome::Verified)
                } else {
                    r matches Ok(Outcome::FormatVerified)
                },
                Err(fault) => r matches Err(e) && e@ == fault,
            },
        },
{
    match existing {
        None => Ok(Outcome::Created { contents: create_music_script_file(sound_dir) }),
        Some(text) => match check_music_script_file(text, mp3_files) {
            Ok(()) => if mp3_files.is_some() {
                Ok(Outcome::Verified)
            } else {
                Ok(Outcome::FormatVerified)
            },
            Err(e) => Err(e),
        },
    }
}

/// Checks every music script of an installation.
///
/// `directory_exists` says whether the installation has a directory of
/// music scripts, `files` holds the files of that directory as they were
/// read, and `mp3_files` is the snapshot of the sound files, where the
/// installation has a sound directory. Every file with the extension `txt`
/// is checked, in the order given, up to the first that is rejected. Returns
/// the number of scripts checked.
pub fn fullcheck_music_script_files(
    directory_exists: bool,
    files: &Vec<ScriptFile>,
    mp3_files: Option<&DirectorySnapshot>,
) -> (r: Result<usize, FullcheckError>)
    ensures
        if directory_exists {
            sweep_result(
                r,
                files@,
                "txt"@,
                |text: Seq<char>| music_script_verdict(text, known_files(mp3_files)),
            )
        } else {
            r matches Err(FullcheckError::MissingDirectory)
        },
{
    if !directory_exists {
        return Err(FullcheckError::MissingDirectory);
    }
    let check = |contents: &String| -> (checked: Result<(), ScriptError>)
        ensures
            reports(checked, music_script_verdict(contents@, known_files(mp3_files))),
        { check_music_script_file(contents.as_str(), mp3_files) };
    let r = check_all_files_in_dir_with_func(files, "txt", check);
    proof {
        lemma_swept(
            r,
            files@,
            "txt"@,
            check,
            |text: Seq<char>| music_script_verdict(text, known_files(mp3_files)),
        );
    }
    r
}

/// Whether the snapshot of the sound files of the two sound directories
/// with the given roots is in the cache, so that their files need not be
/// listed again.
pub fn is_mp3_directory_tree_cached(
    gesource_sound_dir: &str,
    local_sound_dir: &str,
    local_sound_dir_exists: bool,
    target_type: &str,
    directory_cache: &DirectoryCache,
) -> (r: bool)
    ensures
        r == cached(
            directory_cache.keys(),
            ScanKey {
                roots: if local_sound_dir_exists && local_sound_dir@ != gesource_sound_dir@ {
                    seq![gesource_sound_dir@, local_sound_dir@]
                } else {
                    seq![gesource_sound_dir@]
                },
                target: target_type@,
                excluded: Seq::<Seq<char>>::empty(),
            },
        ) is Some,
{
    let same = chars_equal(
        to_chars(local_sound_dir).as_slice(),
        to_chars(gesource_sound_dir).as_slice(),
    );
    let none: [&str; 0] = [];
    assert(strs(none@) =~= Seq::<Seq<char>>::empty());
    if local_sound_dir_exists && !same {
        let roots: [&str; 2] = [gesource_sound_dir, local_sound_dir];
        assert(strs(roots@) =~= seq![gesource_sound_dir@, local_sound_dir@]);
        directory_cache.is_cached(roots.as_slice(), target_type, none.as_slice())
    } else {
        let roots: [&str; 1] = [gesource_sound_dir];
        assert(strs(roots@) =~= seq![gesource_sound_dir@]);
        directory_cache.is_cached(roots.as_slice(), target_type, none.as_slice())
    }
}

/// The snapshot of the sound files of the installation and of the release:
/// every file of the given kind below the two sound directories. It is made
/// on the first call and kept in the cache; later calls hand out the one
/// that is kept.
pub fn generate_mp3_directory_tree<'a>(
    gesource_sound_dir: &DirectoryListing,
    local_sound_dir: &DirectoryListing,
    local_sound_dir_exists: bool,
    target_type: &str,
    directory_cache: &'a mut DirectoryCache,
) -> (r: &'a DirectorySnapshot)
    ensures
        served(
            old(directory_cache).keys(),
            old(directory_cache).snapshots(),
            ScanKey {
                roots: roots_of(
                    sound_trees(gesource_sound_dir@, local_sound_dir@, local_sound_dir_exists),
                ),
                target: target_type@,
                excluded: Seq::<Seq<char>>::empty(),
            },
            snapshot_of(
                sound_trees(gesource_sound_dir@, local_sound_dir@, local_sound_dir_exists),
                target_type@,
                Seq::<Seq<char>>::empty(),
            ),
        ) == (Served {
            keys: final(directory_cache).keys(),
            snapshots: final(directory_cache).snapshots(),
            answer: r@,
        }),
        final(directory_cache).keys().len() == final(directory_cache).snapshots().len(),
{
    let mut dirs_to_scan: Vec<&DirectoryListing> = Vec::new();
    dirs_to_scan.push(gesource_sound_dir);
    let same = chars_equal(
        to_chars(local_sound_dir.root.as_str()).as_slice(),
        to_chars(gesource_sound_dir.root.as_str()).as_slice(),
    );
    if local_sound_dir_exists && !same {
        dirs_to_scan.push(local_sound_dir);
    }
    let none: [&str; 0] = [];
    proof {
        assert(listings(dirs_to_scan@) =~= sound_trees(
            gesource_sound_dir@,
            local_sound_dir@,
            local_sound_dir_exists,
        ));
        assert(strs(none@) =~= Seq::<Seq<char>>::empty());
    }
    compute_or_get_safe_reference_to_directory_cache(
        dirs_to_scan,
        target_type,
        none.as_slice(),
        directory_cache,
    )
}

spec fn file_word() -> Seq<char> {
    seq!['f', 'i', 'l', 'e']
}

spec fn closing_token() -> Lexeme {
    Lexeme { kind: TokenKind::Close, text: seq!['}'], spaced: true }
}

spec fn track_tokens(tracks: Seq<Seq<char>>) -> Seq<Lexeme>
    decreases tracks.len(),
{
    if tracks.len() == 0 {
        seq![closing_token()]
    } else {
        seq![
            Lexeme { kind: TokenKind::Quoted, text: file_word(), spaced: true },
            Lexeme { kind: TokenKind::Quoted, text: tracks[0], spaced: true },
        ] + track_tokens(tracks.subrange(1, tracks.len() as int))
    }
}

spec fn body_lines(tracks: Seq<Seq<char>>) -> Seq<Seq<char>> {
    Seq::new(tracks.len(), |i: int| track_line(tracks[i])) + seq!["}"@]
}

spec fn music_tokens(tracks: Seq<Seq<char>>) -> Seq<Lexeme> {
    seq![Lexeme { kind: TokenKind::Quoted, text: "music"@, spaced: false }] + (seq![
        Lexeme { kind: TokenKind::Open, text: seq!['{'], spaced: true },
    ] + track_tokens(tracks))
}

proof fn lemma_body_tokens(tracks: Seq<Seq<char>>)
    requires
        forall|i: int| 0 <= i < tracks.len() ==> is_plain(#[trigger] tracks[i]),
    ensures
        lexemes_from(joined(body_lines(tracks)), 0, true) == Some(track_tokens(tracks)),
    decreases tracks.len(),
{
    let lines = body_lines(tracks);
    let later = lines.subrange(1, lines.len() as int);
    if tracks.len() == 0 {
        reveal_strlit("}");
        assert(lines[0] =~= seq!['}']);
        assert(later =~= Seq::<Seq<char>>::empty());
        assert(joined(later) =~= Seq::<char>::empty());
        assert(joined(lines) =~= seq!['}'] + seq!['\r', '\n']);
        lemma_lex_closing();
    } else {
        let rest = tracks.subrange(1, tracks.len() as int);
        assert(later =~= body_lines(rest));
        assert forall|i: int| 0 <= i < rest.len() implies is_plain(#[trigger] rest[i]) by {
            assert(rest[i] == tracks[i + 1]);
        }
        lemma_body_tokens(rest);
        assert(is_plain(tracks[0]));
        assert(is_plain(file_word()));
        let tail = joined(later);
        assert(joined(lines) =~= seq!['\t', '"'] + file_word() + seq!['"', '\t', '"'] + tracks[0]
            + seq!['"'] + seq!['\r', '\n'] + tail);
        lemma_lex_pair_line(file_word(), tracks[0], tail, true);
        assert(seq![Lexeme { kind: TokenKind::Quoted, text: file_word(), spaced: true }] + (seq![
            Lexeme { kind: TokenKind::Quoted, text: tracks[0], spaced: true },
        ] + track_tokens(rest)) =~= track_tokens(tracks));
    }
}

proof fn lemma_track_tokens(tracks: Seq<Seq<char>>)
    ensures
        track_tokens(tracks).len() == 2 * tracks.len() + 1,
        track_tokens(tracks)[2 * (tracks.len() as int)] == closing_token(),
        forall|i: int|
            0 <= i < tracks.len() ==> (#[trigger] track_tokens(tracks)[2 * i]) == (Lexeme {
                kind: TokenKind::Quoted,
                text: file_word(),
                spaced: true,
            }),
        forall|i: int|
            0 <= i < tracks.len() ==> (#[trigger] track_tokens(tracks)[2 * i + 1]) == (Lexeme {
                kind: TokenKind::Quoted,
                text: tracks[i],
                spaced: true,
            }),
    decreases tracks.len(),
{
    if tracks.len() > 0 {
        let rest = tracks.subrange(1, tracks.len() as int);
        lemma_track_tokens(rest);
        let tokens = track_tokens(tracks);
        assert forall|i: int| 0 <= i < tracks.len() implies (#[trigger] tokens[2 * i]) == (Lexeme {
            kind: TokenKind::Quoted,
            text: file_word(),
            spaced: true,
        }) by {
            if i > 0 {
                assert(tokens[2 * i] == track_tokens(rest)[2 * (i - 1)]);
            }
        }
        assert forall|i: int| 0 <= i < tracks.len() implies (#[trigger] tokens[2 * i + 1]) == (
        Lexeme { kind: TokenKind::Quoted, text: tracks[i], spaced: true }) by {
            if i > 0 {
                assert(tokens[2 * i + 1] == track_tokens(rest)[2 * (i - 1) + 1]);
                assert(rest[i - 1] == tracks[i]);
            }
        }
        assert(tokens[2 * (tracks.len() as int)] == track_tokens(rest)[2 * (rest.len() as int)]);
    }
}

proof fn lemma_entries_read(tokens: Seq<Lexeme>, tracks: Seq<Seq<char>>, k: int)
    requires
        tracks.len() > 0,
        0 <= k <= tracks.len(),
        tokens.len() == 2 * tracks.len() + 3,
        tokens[2 + 2 * (tracks.len() as int)].kind == TokenKind::Close,
        forall|i: int|
            0 <= i < tracks.len() ==> is_keyword(#[trigger] tokens[2 + 2 * i], "file"@),
        forall|i: int|
            0 <= i < tracks.len() ==> (#[trigger] tokens[3 + 2 * i]) == (Lexeme {
                kind: TokenKind::Quoted,
                text: tracks[i],
                spaced: true,
            }),
    ensures
        music_entries(tokens, 2 + 2 * k, false, k > 0) == Some(
            tracks.subrange(k, tracks.len() as int),
        ),
    decreases tracks.len() - k,
{
    if k < tracks.len() {
        lemma_entries_read(tokens, tracks, k + 1);
        assert(is_keyword(tokens[2 + 2 * k], "file"@));
        assert(tokens[3 + 2 * k] == (Lexeme {
            kind: TokenKind::Quoted,
            text: tracks[k],
            spaced: true,
        }));
        assert(tokens[2 + 2 * k].kind != TokenKind::Close);
        assert(seq![tracks[k]] + tracks.subrange(k + 1, tracks.len() as int) =~= tracks.subrange(
            k,
            tracks.len() as int,
        ));
    } else {
        assert(tracks.subrange(k, tracks.len() as int) =~= Seq::<Seq<char>>::empty());
    }
}

proof fn lemma_no_track_fault(paths: Seq<Seq<char>>, sound_files: Option<Seq<Seq<char>>>, from: int)
    requires
        0 <= from,
        forall|i: int|
            0 <= i < paths.len() ==> track_fault(#[trigger] paths[i], sound_files) is None,
    ensures
        first_track_fault(paths, sound_files, from) is None,
    decreases paths.len() - from,
{
    if from < paths.len() {
        lemma_no_track_fault(paths, sound_files, from + 1);
    }
}

proof fn lemma_music_script_is_read(tracks: Seq<Seq<char>>)
    requires
        forall|i: int| 0 <= i < tracks.len() ==> is_plain(#[trigger] tracks[i]),
    ensures
        lexemes(music_script_text(tracks)) == Some(music_tokens(tracks)),
{
    let lines = music_script_lines(tracks);
    let after_label = lines.subrange(1, lines.len() as int);
    let body = after_label.subrange(1, after_label.len() as int);
    assert(body =~= body_lines(tracks));
    reveal_strlit("\"music\"");
    reveal_strlit("music");
    reveal_strlit("{");
    let label = "music"@;
    assert(is_plain(label));
    assert(lines[0] =~= seq!['"'] + label + seq!['"']);
    assert(after_label[0] =~= seq!['{']);
    let tail = joined(body_lines(tracks));
    assert(joined(after_label) == after_label[0] + seq!['\r', '\n'] + joined(body));
    assert(joined(lines) == lines[0] + seq!['\r', '\n'] + joined(after_label));
    assert(music_script_text(tracks) =~= seq!['"'] + label + seq!['"'] + seq!['\r', '\n'] + seq![
        '{',
    ] + seq!['\r', '\n'] + tail);
    lemma_lex_opening(label, tail);
    lemma_body_tokens(tracks);
}

proof fn lemma_music_tokens_declare(tracks: Seq<Seq<char>>)
    requires
        tracks.len() > 0,
    ensures
        music_declared(music_tokens(tracks)) == Some(tracks),
{
    reveal_strlit("file");
    lemma_track_tokens(tracks);
    let tokens = music_tokens(tracks);
    let entries = track_tokens(tracks);
    let total = tracks.len() as int;
    assert(tokens.len() == 2 * total + 3);
    assert(tokens[0] == (Lexeme { kind: TokenKind::Quoted, text: "music"@, spaced: false }));
    assert(tokens[1].kind == TokenKind::Open);
    assert(file_word() =~= "file"@);
    assert(tokens[2 + 2 * total] == entries[2 * total]);
    assert forall|i: int| 0 <= i < total implies is_keyword(
        #[trigger] tokens[2 + 2 * i],
        "file"@,
    ) by {
        assert(tokens[2 + 2 * i] == entries[2 * i]);
    }
    assert forall|i: int| 0 <= i < total implies (#[trigger] tokens[3 + 2 * i]) == (Lexeme {
        kind: TokenKind::Quoted,
        text: tracks[i],
        spaced: true,
    }) by {
        assert(tokens[3 + 2 * i] == entries[2 * i + 1]);
    }
    lemma_entries_read(tokens, tracks, 0);
    assert(tracks.subrange(0, total) =~= tracks);
}

/// The tokens of the music script written for the given tracks are those of
/// a music script that names exactly these tracks.
pub proof fn lemma_created_music_script_declares(tracks: Seq<Seq<char>>)
    requires
        tracks.len() > 0,
        forall|i: int| 0 <= i < tracks.len() ==> is_plain(#[trigger] tracks[i]),
    ensures
        lexemes(music_script_text(tracks)) is Some,
        music_declared(lexemes(music_script_text(tracks))->0) == Some(tracks),
{
    lemma_music_script_is_read(tracks);
    lemma_music_tokens_declare(tracks);
}

/// Writing, then checking: the music script written for the given tracks is
/// accepted, as long as there is a track, no path of a track holds a
/// quotation mark or a brace, each track is an MP3 file by its name, and,
/// where the sound files are known, each track is one of them.
pub proof fn lemma_created_music_script_is_valid(
    tracks: Seq<Seq<char>>,
    sound_files: Option<Seq<Seq<char>>>,
)
    requires
        tracks.len() > 0,
        forall|i: int|
            0 <= i < tracks.len() ==> is_plain(#[trigger] tracks[i]) && track_fault(
                normal_form(tracks[i]),
                sound_files,
            ) is None,
    ensures
        music_script_verdict(music_script_text(tracks), sound_files) is Ok,
{
    lemma_created_music_script_declares(tracks);
    let paths = track_paths(tracks);
    assert forall|i: int| 0 <= i < paths.len() implies track_fault(
        #[trigger] paths[i],
        sound_files,
    ) is None by {
        assert(is_plain(tracks[i]));
    }
    lemma_no_track_fault(paths, sound_files, 0);
}

proof fn lemma_default_track(track: Seq<char>, stem: Seq<char>)
    requires
        stem.len() > 0,
        forall|i: int|
            0 <= i < stem.len() ==> (#[trigger] stem[i]) != '.' && stem[i] != '/' && stem[i]
                != '\\',
        track == seq!['m', 'u', 's', 'i', 'c', '/'] + stem + seq!['.', 'm', 'p', '3'],
    ensures
        extension_of(track) == seq!['m', 'p', '3'],
{
    let dot = 6 + stem.len() as int;
    assert(track[dot] == '.');
    assert(track[dot - 1] == stem[stem.len() - 1]);
    lemma_extension_at(track, dot);
    assert(track.subrange(dot + 1, track.len() as int) =~= seq!['m', 'p', '3']);
}

/// Each track that a fresh music script names is an MP3 file by its name;
/// there is at least one.
pub proof fn lemma_music_file_names(sound_dir: Seq<char>, found: Seq<Seq<char>>)
    ensures
        music_file_names(sound_dir, found).len() > 0,
        forall|i: int|
            0 <= i < music_file_names(sound_dir, found).len() ==> has_type(
                #[trigger] music_file_names(sound_dir, found)[i],
                "mp3"@,
            ),
{
    let none = Seq::<Seq<char>>::empty();
    let local = files_in_directory(sound_dir, found, "mp3"@, none, found.len() as int);
    let names = music_file_names(sound_dir, found);
    reveal_strlit("mp3");
    if local.len() == 0 {
        reveal_strlit("music/classy.mp3");
        reveal_strlit("music/spy.mp3");
        reveal_strlit("music/always_better.mp3");
        reveal_strlit("music/shaken_and_stirred.mp3");
        reveal_strlit("music/martini.mp3");
        reveal_strlit("music/standard_operating_procedure.mp3");
        assert forall|i: int| 0 <= i < names.len() implies has_type(
            #[trigger] names[i],
            "mp3"@,
        ) by {
            let track = names[i];
            let stem = track.subrange(6, track.len() - 4);
            assert(track =~= seq!['m', 'u', 's', 'i', 'c', '/'] + stem + seq!['.', 'm', 'p', '3']);
            lemma_default_track(track, stem);
            assert("mp3"@ =~= seq!['m', 'p', '3']);
        }
    } else {
        lemma_files_in_directory(sound_dir, found, "mp3"@, none, found.len() as int);
        assert forall|i: int| 0 <= i < names.len() implies has_type(
            #[trigger] names[i],
            "mp3"@,
        ) by {
            assert(kept(names[i], "mp3"@, none));
        }
    }
}

/// The music script written for a release is accepted where each track it
/// names is its own normal form, so that it is found again as it is
/// written. This does not hold where a track has a quotation mark or a
/// brace in its path, nor where the sound files at hand do not hold one of
/// the tracks: that may be so for the default tracks, which the script names
/// where the release brings none of its own.
pub proof fn lemma_music_script_round_trip(
    sound_dir: Listing,
    sound_files: Option<Seq<Seq<char>>>,
)
    requires
        forall|i: int|
            0 <= i < music_file_names(sound_dir.root, sound_dir.files).len() ==> {
                let track = #[trigger] music_file_names(sound_dir.root, sound_dir.files)[i];
                &&& is_plain(track)
                &&& is_normal(track)
                &&& sound_files matches Some(files) ==> files.contains(track)
            },
    ensures
        music_script_verdict(
            music_script_text(music_file_names(sound_dir.root, sound_dir.files)),
            sound_files,
        ) is Ok,
{
    let names = music_file_names(sound_dir.root, sound_dir.files);
    lemma_music_file_names(sound_dir.root, sound_dir.files);
    assert forall|i: int| 0 <= i < names.len() implies is_plain(#[trigger] names[i])
        && track_fault(normal_form(names[i]), sound_files) is None by {
        assert(is_normal(names[i]));
    }
    lemma_created_music_script_is_valid(names, sound_files);
}

/// The music script written from the tracks that a release brings is
/// accepted against the sound files of the installation and of the release,
/// where each track is its own normal form and has no quotation mark or
/// brace in its path.
pub proof fn lemma_local_music_script_round_trip(
    gesource_sound_dir: Listing,
    local_sound_dir: Listing,
)
    requires
        local_sound_dir.root != gesource_sound_dir.root,
        files_in_directory(
            local_sound_dir.root,
            local_sound_dir.files,
            "mp3"@,
            Seq::<Seq<char>>::empty(),
            local_sound_dir.files.len() as int,
        ).len() > 0,
        forall|i: int|
            0 <= i < music_file_names(local_sound_dir.root, local_sound_dir.files).len() ==> {
                let track = #[trigger] music_file_names(
                    local_sound_dir.root,
                    local_sound_dir.files,
                )[i];
                is_plain(track) && is_normal(track)
            },
    ensures
        music_script_verdict(
            music_script_text(music_file_names(local_sound_dir.root, local_sound_dir.files)),
            Some(
                snapshot_of(
                    sound_trees(gesource_sound_dir, local_sound_dir, true),
                    "mp3"@,
                    Seq::<Seq<char>>::empty(),
                ),
            ),
        ) is Ok,
{
    let none = Seq::<Seq<char>>::empty();
    let trees = sound_trees(gesource_sound_dir, local_sound_dir, true);
    let names = music_file_names(local_sound_dir.root, local_sound_dir.files);
    let sound_files = snapshot_of(trees, "mp3"@, none);
    assert(trees[1] == local_sound_dir);
    assert forall|i: int| 0 <= i < names.len() implies {
        let track = #[trigger] names[i];
        &&& is_plain(track)
        &&& is_normal(track)
        &&& sound_files.contains(track)
    } by {
        lemma_snapshot_holds(trees, "mp3"@, none, 1, i);
    }
    lemma_music_script_round_trip(local_sound_dir, Some(sound_files));
}

} // verus!
