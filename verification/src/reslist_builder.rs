//! The reslist: the manifest of the files that a server sends out with a
//! map.
//!
//! A reslist is one block labeled `resources`, which holds one entry for
//! each file: its path, then the word `file`.

use crate::argument_handler::Arguments;
use crate::directory_index::{
    cached, is_listed, lemma_snapshot_of, lemma_with_path_holds, listed, listings, roots_of, served,
    snapshot_of, with_path, DirectoryCache, DirectoryListing, DirectorySnapshot, Listing, ScanKey,
    Served,
};
use crate::error::{reports, FullcheckError, ScriptError, ScriptFault};
use crate::line_grammar::{
    is_keyword, is_plain, is_word, join_lines, joined, lemma_lex_closing, lemma_lex_opening,
    lemma_lex_pair_line, lexemes, lexemes_from, lexemes_of, token_is_keyword, token_is_word,
    token_text, tokenize, Lexeme, Token, TokenKind,
};
use crate::paths::{extension_of, find_extension, is_normal, normal_form, to_normal_form};
use crate::shared::{
    check_all_files_in_dir_with_func, compute_or_get_safe_reference_to_directory_cache, lemma_swept,
    sweep_result, Outcome, ScriptFile,
};
use crate::text::{
    chars_equal, contains_text, from_chars, lowercase, push_chars, strings, strings_of_chars, strs,
    texts, to_chars, to_lowercase,
};
use vstd::prelude::*;
use vstd::slice::slice_subrange;

verus! {

/// The kinds of file that a reslist never names: the map itself, a reslist,
/// and a program.
pub open spec fn disallowed_filetypes() -> Seq<Seq<char>> {
    seq!["bsp"@, "res"@, "exe"@]
}

/// Whether tokens have the shape of a reslist: the label `resources`, in any
/// letter case, an opening brace, one or more entries, and a closing brace
/// at the end. An entry is a word, the path, and then, after white space,
/// the word `file`.
pub open spec fn is_reslist(tokens: Seq<Lexeme>) -> bool {
    &&& tokens.len() >= 5
    &&& (tokens.len() - 3) % 2 == 0
    &&& is_word(tokens[0])
    &&& lowercase(tokens[0].text) == lowercase("resources"@)
    &&& tokens[1].kind == TokenKind::Open
    &&& tokens[tokens.len() - 1].kind == TokenKind::Close
    &&& forall|i: int|
        0 <= i < (tokens.len() - 3) / 2 ==> is_word(#[trigger] tokens[2 + 2 * i]) && is_keyword(
            tokens[3 + 2 * i],
            "file"@,
        ) && tokens[3 + 2 * i].spaced
}

/// The paths that a reslist declares, as it writes them and in its order, if
/// its tokens have the shape of a reslist.
pub open spec fn reslist_declared(tokens: Seq<Lexeme>) -> Option<Seq<Seq<char>>> {
    if is_reslist(tokens) {
        Some(Seq::new(((tokens.len() - 3) / 2) as nat, |i: int| tokens[2 + 2 * i].text))
    } else {
        None
    }
}

/// The paths in the form in which they are compared.
pub open spec fn normal_forms(values: Seq<Seq<char>>) -> Seq<Seq<char>> {
    Seq::new(values.len(), |i: int| normal_form(values[i]))
}

/// The paths that a reslist declares, if it is well formed.
pub open spec fn declared_paths(text: Seq<char>) -> Option<Seq<Seq<char>>> {
    match lexemes(text) {
        None => None,
        Some(tokens) => match reslist_declared(tokens) {
            None => None,
            Some(values) => Some(normal_forms(values)),
        },
    }
}

/// What is wrong with the declaration at position `i`: the file is of a
/// kind that is not allowed; or the release does not hold it; or it has been
/// declared before.
pub open spec fn entry_fault(paths: Seq<Seq<char>>, i: int, snapshot: Seq<Seq<char>>) -> Option<
    ScriptFault,
> {
    if listed(disallowed_filetypes(), extension_of(paths[i])) {
        Some(ScriptFault::DisallowedFiletype { path: paths[i] })
    } else if !snapshot.contains(paths[i]) {
        Some(ScriptFault::MissingResource { path: paths[i] })
    } else if paths.take(i).contains(paths[i]) {
        Some(ScriptFault::DuplicateResource { path: paths[i] })
    } else {
        None
    }
}

/// The fault of the first declaration at or after `from` that has one.
pub open spec fn first_fault(paths: Seq<Seq<char>>, snapshot: Seq<Seq<char>>, from: int) -> Option<
    ScriptFault,
>
    decreases paths.len() - from,
{
    if 0 <= from < paths.len() {
        match entry_fault(paths, from, snapshot) {
            Some(fault) => Some(fault),
            None => first_fault(paths, snapshot, from + 1),
        }
    } else {
        None
    }
}

/// Those of the first `upto` files of the snapshot that are not declared,
/// in their order.
pub open spec fn undeclared(snapshot: Seq<Seq<char>>, paths: Seq<Seq<char>>, upto: int) -> Seq<
    Seq<char>,
>
    decreases upto,
{
    if upto <= 0 {
        Seq::empty()
    } else if paths.contains(snapshot[upto - 1]) {
        undeclared(snapshot, paths, upto - 1)
    } else {
        undeclared(snapshot, paths, upto - 1).push(snapshot[upto - 1])
    }
}

/// The verdict on declared paths against the snapshot of the release: the
/// fault of the first declaration that has one; else, unless a whole
/// installation is checked, the report of every file that is not declared.
pub open spec fn reconciled(
    paths: Seq<Seq<char>>,
    snapshot: Seq<Seq<char>>,
    fullcheck: bool,
) -> Result<(), ScriptFault> {
    match first_fault(paths, snapshot, 0) {
        Some(fault) => Err(fault),
        None => {
            let missing = undeclared(snapshot, paths, snapshot.len() as int);
            if fullcheck || missing.len() == 0 {
                Ok(())
            } else {
                Err(ScriptFault::UndeclaredResources { paths: missing })
            }
        },
    }
}

/// The verdict on a reslist against the snapshot of the release.
pub open spec fn reslist_verdict(
    text: Seq<char>,
    snapshot: Seq<Seq<char>>,
    fullcheck: bool,
) -> Result<(), ScriptFault> {
    match declared_paths(text) {
        None => Err(ScriptFault::Format { section: "resources"@ }),
        Some(paths) => reconciled(paths, snapshot, fullcheck),
    }
}

/// Those of the first `upto` declared paths that the snapshot does not
/// hold, each once, in the order in which they are declared.
pub open spec fn absent(paths: Seq<Seq<char>>, snapshot: Seq<Seq<char>>, upto: int) -> Seq<
    Seq<char>,
>
    decreases upto,
{
    if upto <= 0 {
        Seq::empty()
    } else if snapshot.contains(paths[upto - 1]) {
        absent(paths, snapshot, upto - 1)
    } else {
        with_path(absent(paths, snapshot, upto - 1), paths[upto - 1])
    }
}

/// Those of the first `upto` declared paths that are declared more than
/// once among them, each once, in the order in which they are declared
/// again.
pub open spec fn repeated(paths: Seq<Seq<char>>, upto: int) -> Seq<Seq<char>>
    decreases upto,
{
    if upto <= 0 {
        Seq::empty()
    } else if paths.take(upto - 1).contains(paths[upto - 1]) {
        with_path(repeated(paths, upto - 1), paths[upto - 1])
    } else {
        repeated(paths, upto - 1)
    }
}

/// The outcome of holding the declared paths of a reslist against the
/// snapshot of a release, as contracts speak of it.
pub struct Reconciliation {
    /// Declared, but not in the release.
    pub absent: Seq<Seq<char>>,
    /// In the release, but not declared.
    pub undeclared: Seq<Seq<char>>,
    /// Declared more than once.
    pub repeated: Seq<Seq<char>>,
}

/// The outcome of holding the declared paths of a reslist against the
/// snapshot of a release.
#[derive(Debug)]
pub struct ReconciliationResult {
    /// Declared, but not in the release.
    pub absent: Vec<String>,
    /// In the release, but not declared.
    pub undeclared: Vec<String>,
    /// Declared more than once.
    pub repeated: Vec<String>,
}

impl View for ReconciliationResult {
    type V = Reconciliation;

    open spec fn view(&self) -> Reconciliation {
        Reconciliation {
            absent: strings(self.absent@),
            undeclared: strings(self.undeclared@),
            repeated: strings(self.repeated@),
        }
    }
}

/// The outcome of holding declared paths against a snapshot.
pub open spec fn reconciliation(paths: Seq<Seq<char>>, snapshot: Seq<Seq<char>>) -> Reconciliation {
    Reconciliation {
        absent: absent(paths, snapshot, paths.len() as int),
        undeclared: undeclared(snapshot, paths, snapshot.len() as int),
        repeated: repeated(paths, paths.len() as int),
    }
}

/// A manifest is ready for release when nothing is absent, nothing is
/// undeclared and nothing is repeated.
pub open spec fn is_release_ready(outcome: Reconciliation) -> bool {
    outcome.absent.len() == 0 && outcome.undeclared.len() == 0 && outcome.repeated.len() == 0
}

/// The outcome of holding a reslist against the snapshot of a release, if
/// the reslist is well formed.
pub open spec fn reslist_reconciliation(text: Seq<char>, snapshot: Seq<Seq<char>>) -> Option<
    Reconciliation,
> {
    match declared_paths(text) {
        None => None,
        Some(paths) => Some(reconciliation(paths, snapshot)),
    }
}

/// Whether a reslist can declare each of the given files so that each is
/// found again: no path holds a quotation mark or a brace, each path is its
/// own normal form, and no file is of a kind that a reslist never names.
pub open spec fn can_be_declared(files: Seq<Seq<char>>) -> bool {
    forall|i: int|
        0 <= i < files.len() ==> is_plain(#[trigger] files[i]) && is_normal(files[i]) && !listed(
            disallowed_filetypes(),
            extension_of(files[i]),
        )
}

/// The line that declares a file: a tab, the path between quotation marks,
/// a tab, and the word `file` between quotation marks.
pub open spec fn entry_line(path: Seq<char>) -> Seq<char> {
    seq!['\t', '"'] + path + seq!['"', '\t', '"', 'f', 'i', 'l', 'e', '"']
}

/// The lines of the reslist that declares the given files: the label, an
/// opening brace, a line for each file, and a closing brace.
pub open spec fn reslist_lines(files: Seq<Seq<char>>) -> Seq<Seq<char>> {
    seq!["\"resources\""@, "{"@] + Seq::new(files.len(), |i: int| entry_line(files[i])) + seq![
        "}"@,
    ]
}

/// The text of the reslist that declares the given files.
pub open spec fn reslist_text(files: Seq<Seq<char>>) -> Seq<char> {
    joined(reslist_lines(files))
}

/// The kinds of file that a reslist never names.
pub fn disallowed_filetype_list() -> (r: Vec<Vec<char>>)
    ensures
        texts(r@) == disallowed_filetypes(),
{
    let mut list: Vec<Vec<char>> = Vec::new();
    list.push(to_chars("bsp"));
    list.push(to_chars("res"));
    list.push(to_chars("exe"));
    assert(texts(list@) =~= disallowed_filetypes());
    list
}

/// Reads the declared paths off the tokens of a reslist, each in the form in
/// which paths are compared.
fn read_declarations(text: &[char], tokens: &Vec<Token>) -> (r: Option<Vec<Vec<char>>>)
    requires
        forall|i: int| 0 <= i < tokens.len() ==> (#[trigger] tokens[i]).within(text@),
    ensures
        match r {
            Some(paths) => match reslist_declared(lexemes_of(tokens@, text@)) {
                Some(values) => texts(paths@) == normal_forms(values),
                None => false,
            },
            None => reslist_declared(lexemes_of(tokens@, text@)) is None,
        },
{
    let ghost all = lexemes_of(tokens@, text@);
    let n = tokens.len();
    if n < 5 || (n - 3) % 2 != 0 {
        return None;
    }
    let label = to_lowercase(token_text(text, &tokens[0]));
    let wanted = to_lowercase(to_chars("resources").as_slice());
    if !token_is_word(&tokens[0]) || !chars_equal(label.as_slice(), wanted.as_slice()) {
        assert(!(is_word(all[0]) && lowercase(all[0].text) == lowercase("resources"@)));
        return None;
    }
    if tokens[1].kind != TokenKind::Open || tokens[n - 1].kind != TokenKind::Close {
        assert(all[1].kind == tokens[1].kind);
        assert(all[n - 1].kind == tokens[n - 1].kind);
        return None;
    }
    let count = (n - 3) / 2;
    let keyword = to_chars("file");
    let mut paths: Vec<Vec<char>> = Vec::new();
    let mut i: usize = 0;
    while i < count
        invariant
            i <= count,
            count == (n - 3) / 2,
            n == tokens.len(),
            n >= 5,
            (n - 3) % 2 == 0,
            all == lexemes_of(tokens@, text@),
            keyword@ == "file"@,
            forall|k: int| 0 <= k < tokens.len() ==> (#[trigger] tokens[k]).within(text@),
            paths.len() == i,
            forall|k: int|
                0 <= k < i ==> is_word(#[trigger] all[2 + 2 * k]) && is_keyword(
                    all[3 + 2 * k],
                    "file"@,
                ) && all[3 + 2 * k].spaced,
            forall|k: int|
                0 <= k < i ==> (#[trigger] paths[k])@ == normal_form(all[2 + 2 * k].text),
        decreases count - i,
    {
        let value = &tokens[2 + 2 * i];
        let marker = &tokens[3 + 2 * i];
        assert(all[2 + 2 * i] == value.lexeme(text@));
        assert(all[3 + 2 * i] == marker.lexeme(text@));
        if !token_is_word(value) || !token_is_keyword(text, marker, keyword.as_slice())
            || !marker.spaced {
            assert(!(is_word(all[2 + 2 * i]) && is_keyword(all[3 + 2 * i], "file"@) && all[3 + 2
                * i].spaced));
            return None;
        }
        paths.push(to_normal_form(token_text(text, value)));
        i += 1;
    }
    proof {
        let values = reslist_declared(all)->0;
        assert(all[0] == tokens[0].lexeme(text@));
        assert(all[1].kind == tokens[1].kind);
        assert(all[n - 1].kind == tokens[n - 1].kind);
        assert(reslist_declared(all) is Some);
        assert(texts(paths@) =~= normal_forms(values));
    }
    Some(paths)
}

/// The paths that a reslist declares, each in the form in which paths are
/// compared, in the order in which it declares them. `None` where the
/// reslist is not well formed.
pub fn declared_resources(contents: &str) -> (r: Option<Vec<String>>)
    ensures
        match r {
            Some(paths) => declared_paths(contents@) == Some(strings(paths@)),
            None => declared_paths(contents@) is None,
        },
{
    let text = to_chars(contents);
    match tokenize(text.as_slice()) {
        None => None,
        Some(tokens) => match read_declarations(text.as_slice(), &tokens) {
            None => None,
            Some(paths) => Some(strings_of_chars(&paths)),
        },
    }
}

fn undeclared_files(paths: &Vec<Vec<char>>, file_list: &DirectorySnapshot) -> (r: Vec<Vec<char>>)
    ensures
        texts(r@) == undeclared(file_list@, texts(paths@), file_list@.len() as int),
{
    let mut missing: Vec<Vec<char>> = Vec::new();
    let total = file_list.len();
    let mut j: usize = 0;
    while j < total
        invariant
            j <= total,
            total == file_list@.len(),
            texts(missing@) == undeclared(file_list@, texts(paths@), j as int),
        decreases total - j,
    {
        let file = file_list.path(j);
        if !contains_text(paths, file.as_slice()) {
            let ghost before = texts(missing@);
            missing.push(file.clone());
            assert(texts(missing@) =~= before.push(file_list@[j as int]));
        }
        j += 1;
    }
    missing
}

/// Holds declared paths against the snapshot of the release.
fn reconcile(paths: &Vec<Vec<char>>, file_list: &DirectorySnapshot, fullcheck: bool) -> (r: Result<
    (),
    ScriptError,
>)
    ensures
        reports(r, reconciled(texts(paths@), file_list@, fullcheck)),
{
    let disallowed = disallowed_filetype_list();
    let mut checked: Vec<Vec<char>> = Vec::new();
    let mut i: usize = 0;
    while i < paths.len()
        invariant
            i <= paths.len(),
            texts(disallowed@) == disallowed_filetypes(),
            texts(checked@) == texts(paths@).take(i as int),
            first_fault(texts(paths@), file_list@, 0) == first_fault(
                texts(paths@),
                file_list@,
                i as int,
            ),
        decreases paths.len() - i,
    {
        let path = paths[i].as_slice();
        let extension = match find_extension(path) {
            Some(start) => slice_subrange(path, start, path.len()),
            None => slice_subrange(path, 0, 0),
        };
        assert(extension@ =~= extension_of(path@));
        if is_listed(&disallowed, extension) {
            return Err(ScriptError::DisallowedFiletype { path: from_chars(path) });
        }
        if !file_list.holds(path) {
            return Err(ScriptError::MissingResource { path: from_chars(path) });
        }
        if contains_text(&checked, path) {
            return Err(ScriptError::DuplicateResource { path: from_chars(path) });
        }
        let ghost before = texts(checked@);
        checked.push(paths[i].clone());
        assert(texts(checked@) =~= before.push(path@));
        assert(texts(paths@).take(i + 1) =~= texts(paths@).take(i as int).push(path@));
        i += 1;
    }
    if fullcheck {
        return Ok(());
    }
    let missing = undeclared_files(paths, file_list);
    if missing.len() > 0 {
        Err(ScriptError::UndeclaredResources { paths: strings_of_chars(&missing) })
    } else {
        Ok(())
    }
}

/// Makes sure that the reslist is formatted correctly, that every file it
/// names exists in the release and may be named, that it names none twice,
/// and, unless a whole installation is checked, that it names every file of
/// the release.
pub fn check_reslist(args: &Arguments, contents: &str, file_list: &DirectorySnapshot) -> (r: Result<
    (),
    ScriptError,
>)
    ensures
        reports(r, reslist_verdict(contents@, file_list@, args.fullcheck)),
{
    let text = to_chars(contents);
    let tokens = match tokenize(text.as_slice()) {
        Some(tokens) => tokens,
        None => {
            return Err(ScriptError::Format { section: String::from_str("resources") });
        },
    };
    let paths = match read_declarations(text.as_slice(), &tokens) {
        Some(paths) => paths,
        None => {
            return Err(ScriptError::Format { section: String::from_str("resources") });
        },
    };
    reconcile(&paths, file_list, args.fullcheck)
}

fn add_text(list: &mut Vec<Vec<char>>, text: &Vec<char>)
    ensures
        texts(final(list)@) == with_path(texts(old(list)@), text@),
{
    if !contains_text(list, text.as_slice()) {
        let ghost before = texts(list@);
        list.push(text.clone());
        assert(texts(list@) =~= before.push(text@));
    }
}

/// Holds a reslist against the snapshot of a release, in both directions:
/// what it declares that the release does not hold, what the release holds
/// that it does not declare, and what it declares more than once. `None`
/// where the reslist is not well formed.
pub fn reconcile_reslist(contents: &str, file_list: &DirectorySnapshot) -> (r: Option<
    ReconciliationResult,
>)
    ensures
        match r {
            Some(outcome) => reslist_reconciliation(contents@, file_list@) == Some(outcome@),
            None => reslist_reconciliation(contents@, file_list@) is None,
        },
{
    let text = to_chars(contents);
    let tokens = match tokenize(text.as_slice()) {
        Some(tokens) => tokens,
        None => {
            return None;
        },
    };
    let paths = match read_declarations(text.as_slice(), &tokens) {
        Some(paths) => paths,
        None => {
            return None;
        },
    };
    let mut absent_paths: Vec<Vec<char>> = Vec::new();
    let mut repeated_paths: Vec<Vec<char>> = Vec::new();
    let mut checked: Vec<Vec<char>> = Vec::new();
    let mut i: usize = 0;
    while i < paths.len()
        invariant
            i <= paths.len(),
            texts(checked@) == texts(paths@).take(i as int),
            texts(absent_paths@) == absent(texts(paths@), file_list@, i as int),
            texts(repeated_paths@) == repeated(texts(paths@), i as int),
        decreases paths.len() - i,
    {
        let path = &paths[i];
        if !file_list.holds(path.as_slice()) {
            add_text(&mut absent_paths, path);
        }
        if contains_text(&checked, path.as_slice()) {
            add_text(&mut repeated_paths, path);
        }
        let ghost before = texts(checked@);
        checked.push(path.clone());
        assert(texts(checked@) =~= before.push(path@));
        assert(texts(paths@).take(i + 1) =~= texts(paths@).take(i as int).push(path@));
        i += 1;
    }
    let missing = undeclared_files(&paths, file_list);
    Some(
        ReconciliationResult {
            absent: strings_of_chars(&absent_paths),
            undeclared: strings_of_chars(&missing),
            repeated: strings_of_chars(&repeated_paths),
        },
    )
}

fn make_entry_line(path: &[char]) -> (r: Vec<char>)
    ensures
        r@ == entry_line(path@),
{
    let mut line: Vec<char> = Vec::new();
    line.push('\t');
    line.push('"');
    push_chars(&mut line, path);
    line.push('"');
    line.push('\t');
    line.push('"');
    line.push('f');
    line.push('i');
    line.push('l');
    line.push('e');
    line.push('"');
    assert(line@ =~= entry_line(path@));
    line
}

/// Writes the reslist that declares every file of the snapshot. There is no
/// reslist to write where the snapshot holds no file. Where a reslist can
/// declare each file of the snapshot, the one that is written is accepted
/// against the snapshot, in the check of a release and in that of a whole
/// installation.
pub fn create_reslist(file_list: &DirectorySnapshot) -> (r: Option<String>)
    ensures
        match r {
            Some(text) => {
                &&& file_list@.len() > 0
                &&& text@ == reslist_text(file_list@)
                &&& can_be_declared(file_list@) ==> forall|fullcheck: bool|
                    #[trigger] reslist_verdict(text@, file_list@, fullcheck) is Ok
            },
            None => file_list@.len() == 0,
        },
{
    let total = file_list.len();
    if total == 0 {
        return None;
    }
    proof {
        if can_be_declared(file_list@) {
            lemma_created_reslist_is_valid(file_list@, true);
            lemma_created_reslist_is_valid(file_list@, false);
            assert forall|fullcheck: bool| #[trigger]
                reslist_verdict(reslist_text(file_list@), file_list@, fullcheck) is Ok by {
                if fullcheck {
                } else {
                }
            }
        }
    }
    let mut lines: Vec<Vec<char>> = Vec::new();
    lines.push(to_chars("\"resources\""));
    lines.push(to_chars("{"));
    let ghost head = texts(lines@);
    assert(head =~= seq!["\"resources\""@, "{"@]);
    let mut i: usize = 0;
    while i < total
        invariant
            i <= total,
            total == file_list@.len(),
            texts(lines@) == head + Seq::new(i as nat, |k: int| entry_line(file_list@[k])),
        decreases total - i,
    {
        let ghost before = texts(lines@);
        lines.push(make_entry_line(file_list.path(i).as_slice()));
        assert(texts(lines@) =~= before.push(entry_line(file_list@[i as int])));
        assert(texts(lines@) =~= head + Seq::new(
            (i + 1) as nat,
            |k: int| entry_line(file_list@[k]),
        ));
        i += 1;
    }
    let ghost body = texts(lines@);
    lines.push(to_chars("}"));
    assert(texts(lines@) =~= body.push("}"@));
    assert(texts(lines@) =~= reslist_lines(file_list@));
    let text = join_lines(&lines);
    Some(from_chars(text.as_slice()))
}

/// Writes the reslist of a release, or checks the one that exists.
///
/// `existing` holds the reslist of the release as it was read, if there is
/// one. Without one, a fresh reslist is handed back for writing, unless the
/// release holds no file to declare.
pub fn create_or_verify_reslist(
    args: &Arguments,
    existing: Option<&str>,
    file_list: &DirectorySnapshot,
) -> (r: Result<Outcome, ScriptError>)
    ensures
        match existing {
            None => if file_list@.len() == 0 {
                r matches Ok(Outcome::NothingToList)
            } else {
                r matches Ok(Outcome::Created { contents }) && contents@ == reslist_text(
                    file_list@,
                )
            },
            Some(text) => match reslist_verdict(text@, file_list@, args.fullcheck) {
                Ok(_) => r matches Ok(Outcome::Verified),
                Err(fault) => r matches Err(e) && e@ == fault,
            },
        },
{
    match existing {
        None => match create_reslist(file_list) {
            Some(contents) => Ok(Outcome::Created { contents }),
            None => Ok(Outcome::NothingToList),
        },
        Some(text) => match check_reslist(args, text, file_list) {
            Ok(()) => Ok(Outcome::Verified),
            Err(e) => Err(e),
        },
    }
}

/// Checks every reslist of an installation.
///
/// `directory_exists` says whether the installation has a directory of
/// maps, `files` holds the files of that directory as they were read, and
/// `file_list` is the snapshot of the installation. Every file with the
/// extension `res` is checked, in the order given, up to the first that is
/// rejected. Returns the number of reslists checked.
pub fn fullcheck_reslist_files(
    args: &Arguments,
    directory_exists: bool,
    files: &Vec<ScriptFile>,
    file_list: &DirectorySnapshot,
) -> (r: Result<usize, FullcheckError>)
    ensures
        if directory_exists {
            sweep_result(
                r,
                files@,
                "res"@,
                |text: Seq<char>| reslist_verdict(text, file_list@, args.fullcheck),
            )
        } else {
            r matches Err(FullcheckError::MissingDirectory)
        },
{
    if !directory_exists {
        return Err(FullcheckError::MissingDirectory);
    }
    let check = |contents: &String| -> (checked: Result<(), ScriptError>)
        ensures
            reports(checked, reslist_verdict(contents@, file_list@, args.fullcheck)),
        { check_reslist(args, contents.as_str(), file_list) };
    let r = check_all_files_in_dir_with_func(files, "res", check);
    proof {
        lemma_swept(
            r,
            files@,
            "res"@,
            check,
            |text: Seq<char>| reslist_verdict(text, file_list@, args.fullcheck),
        );
    }
    r
}

/// Whether the snapshot of the release with the given root is in the
/// cache, so that its files need not be listed again.
pub fn is_directory_tree_cached(release_root: &str, directory_cache: &DirectoryCache) -> (r: bool)
    ensures
        r == cached(
            directory_cache.keys(),
            ScanKey {
                roots: seq![release_root@],
                target: Seq::<char>::empty(),
                excluded: disallowed_filetypes(),
            },
        ) is Some,
{
    let roots: [&str; 1] = [release_root];
    let disallowed: [&str; 3] = ["bsp", "res", "exe"];
    proof {
        assert(strs(roots@) =~= seq![release_root@]);
        assert(strs(disallowed@) =~= disallowed_filetypes());
        assert(""@ =~= Seq::<char>::empty()) by {
            reveal_strlit("");
        }
    }
    directory_cache.is_cached(roots.as_slice(), "", disallowed.as_slice())
}

/// The snapshot of a release for its reslist: every file below the root of
/// the release, but for the kinds that a reslist never names. It is made on
/// the first call and kept in the cache; later calls hand out the one that
/// is kept.
pub fn generate_directory_tree<'a>(
    release: &DirectoryListing,
    directory_cache: &'a mut DirectoryCache,
) -> (r: &'a DirectorySnapshot)
    ensures
        served(
            old(directory_cache).keys(),
            old(directory_cache).snapshots(),
            ScanKey {
                roots: seq![release@.root],
                target: Seq::<char>::empty(),
                excluded: disallowed_filetypes(),
            },
            snapshot_of(seq![release@], Seq::<char>::empty(), disallowed_filetypes()),
        ) == (Served {
            keys: final(directory_cache).keys(),
            snapshots: final(directory_cache).snapshots(),
            answer: r@,
        }),
        final(directory_cache).keys().len() == final(directory_cache).snapshots().len(),
{
    let mut dirs: Vec<&DirectoryListing> = Vec::new();
    dirs.push(release);
    let disallowed: [&str; 3] = ["bsp", "res", "exe"];
    proof {
        assert(listings(dirs@) =~= seq![release@]);
        assert(roots_of(listings(dirs@)) =~= seq![release@.root]);
        assert(strs(disallowed@) =~= disallowed_filetypes());
        assert(""@ =~= Seq::<char>::empty()) by {
            reveal_strlit("");
        }
    }
    compute_or_get_safe_reference_to_directory_cache(dirs, "", disallowed.as_slice(), directory_cache)
}

/// A declaration with a fault makes every search that begins at or before
/// it find a fault.
pub proof fn lemma_fault_is_found(
    paths: Seq<Seq<char>>,
    snapshot: Seq<Seq<char>>,
    from: int,
    at: int,
)
    requires
        0 <= from <= at < paths.len(),
        entry_fault(paths, at, snapshot) is Some,
    ensures
        first_fault(paths, snapshot, from) is Some,
    decreases at - from,
{
    if from < at && entry_fault(paths, from, snapshot) is None {
        lemma_fault_is_found(paths, snapshot, from + 1, at);
    }
}

/// Where no declaration before `at` has a fault, the search comes to the
/// fault of the declaration at `at`.
pub proof fn lemma_first_fault_at(
    paths: Seq<Seq<char>>,
    snapshot: Seq<Seq<char>>,
    from: int,
    at: int,
)
    requires
        0 <= from <= at < paths.len(),
        entry_fault(paths, at, snapshot) is Some,
        forall|i: int| from <= i < at ==> entry_fault(paths, i, snapshot) is None,
    ensures
        first_fault(paths, snapshot, from) == entry_fault(paths, at, snapshot),
    decreases at - from,
{
    if from < at {
        lemma_first_fault_at(paths, snapshot, from + 1, at);
    }
}

proof fn lemma_no_fault_found(paths: Seq<Seq<char>>, snapshot: Seq<Seq<char>>, from: int)
    requires
        0 <= from,
        forall|i: int| from <= i < paths.len() ==> entry_fault(paths, i, snapshot) is None,
    ensures
        first_fault(paths, snapshot, from) is None,
    decreases paths.len() - from,
{
    if from < paths.len() {
        lemma_no_fault_found(paths, snapshot, from + 1);
    }
}

/// A reslist that declares the same file twice is rejected, whatever else
/// it declares: two declarations at positions `i` and `j` of one path make
/// the verdict a fault. Where every declaration before the second of them
/// is faultless and the file is one of an allowed kind that the release
/// holds, the fault is the duplicate, and names the file.
pub proof fn lemma_duplicate_is_rejected(
    text: Seq<char>,
    snapshot: Seq<Seq<char>>,
    fullcheck: bool,
    i: int,
    j: int,
)
    requires
        declared_paths(text) is Some,
        0 <= i < j < declared_paths(text)->0.len(),
        declared_paths(text)->0[i] == declared_paths(text)->0[j],
    ensures
        reslist_verdict(text, snapshot, fullcheck) is Err,
        ({
            let paths = declared_paths(text)->0;
            (forall|k: int| 0 <= k < j ==> entry_fault(paths, k, snapshot) is None) && !listed(
                disallowed_filetypes(),
                extension_of(paths[j]),
            ) && snapshot.contains(paths[j]) ==> reslist_verdict(text, snapshot, fullcheck)
                == Err::<(), ScriptFault>(ScriptFault::DuplicateResource { path: paths[j] })
        }),
{
    let paths = declared_paths(text)->0;
    assert(paths.take(j)[i] == paths[j]);
    assert(paths.take(j).contains(paths[j]));
    assert(entry_fault(paths, j, snapshot) is Some);
    lemma_fault_is_found(paths, snapshot, 0, j);
    if (forall|k: int| 0 <= k < j ==> entry_fault(paths, k, snapshot) is None) {
        lemma_first_fault_at(paths, snapshot, 0, j);
    }
}

/// A reslist that declares a file of a kind that is not allowed is rejected,
/// whether or not the release holds that file: the verdict is a fault
/// against every snapshot.
pub proof fn lemma_disallowed_is_rejected(
    text: Seq<char>,
    snapshot: Seq<Seq<char>>,
    fullcheck: bool,
    i: int,
)
    requires
        declared_paths(text) is Some,
        0 <= i < declared_paths(text)->0.len(),
        listed(disallowed_filetypes(), extension_of(declared_paths(text)->0[i])),
    ensures
        reslist_verdict(text, snapshot, fullcheck) is Err,
        ({
            let paths = declared_paths(text)->0;
            (forall|k: int| 0 <= k < i ==> entry_fault(paths, k, snapshot) is None)
                ==> reslist_verdict(text, snapshot, fullcheck) == Err::<(), ScriptFault>(
                ScriptFault::DisallowedFiletype { path: paths[i] },
            )
        }),
{
    let paths = declared_paths(text)->0;
    lemma_fault_is_found(paths, snapshot, 0, i);
    if (forall|k: int| 0 <= k < i ==> entry_fault(paths, k, snapshot) is None) {
        lemma_first_fault_at(paths, snapshot, 0, i);
    }
}

/// The report of undeclared files names exactly the files of the snapshot
/// that are not declared.
pub proof fn lemma_undeclared(snapshot: Seq<Seq<char>>, paths: Seq<Seq<char>>, upto: int)
    requires
        0 <= upto <= snapshot.len(),
    ensures
        forall|path: Seq<char>| #[trigger]
            undeclared(snapshot, paths, upto).contains(path) <==> snapshot.take(upto).contains(
                path,
            ) && !paths.contains(path),
    decreases upto,
{
    if upto > 0 {
        lemma_undeclared(snapshot, paths, upto - 1);
        let earlier = undeclared(snapshot, paths, upto - 1);
        let now = undeclared(snapshot, paths, upto);
        let last = snapshot[upto - 1];
        let before = snapshot.take(upto - 1);
        let until = snapshot.take(upto);
        assert forall|path: Seq<char>| #[trigger]
            now.contains(path) <==> snapshot.take(upto).contains(path) && !paths.contains(
                path,
            ) by {
            if now.contains(path) {
                let k = choose|k: int| 0 <= k < now.len() && now[k] == path;
                if k < earlier.len() {
                    assert(earlier[k] == path);
                    assert(earlier.contains(path));
                    let m = choose|m: int| 0 <= m < before.len() && before[m] == path;
                    assert(until[m] == path);
                } else {
                    assert(path == last);
                    assert(until[upto - 1] == path);
                }
            }
            if snapshot.take(upto).contains(path) && !paths.contains(path) {
                let m = choose|m: int| 0 <= m < until.len() && until[m] == path;
                if m < upto - 1 {
                    assert(before[m] == path);
                    assert(earlier.contains(path));
                    let k = choose|k: int| 0 <= k < earlier.len() && earlier[k] == path;
                    assert(now[k] == path);
                } else {
                    assert(now[now.len() - 1] == path);
                }
            }
        }
    } else {
        assert forall|path: Seq<char>| #[trigger]
            undeclared(snapshot, paths, upto).contains(path) <==> snapshot.take(upto).contains(
                path,
            ) && !paths.contains(path) by {
        }
    }
}

/// Completeness is asked of the reslist of a release, and of no other. Where
/// every declaration is faultless, a reslist is accepted in the check of a
/// whole installation; in the check of a release it is accepted if it
/// declares every file of the snapshot, and else rejected with a report
/// that names every file it does not declare, and only those.
pub proof fn lemma_completeness(paths: Seq<Seq<char>>, snapshot: Seq<Seq<char>>)
    requires
        first_fault(paths, snapshot, 0) is None,
    ensures
        reconciled(paths, snapshot, true) is Ok,
        reconciled(paths, snapshot, false) is Ok <==> forall|i: int|
            0 <= i < snapshot.len() ==> paths.contains(#[trigger] snapshot[i]),
        reconciled(paths, snapshot, false) matches Err(fault) ==> fault
            matches ScriptFault::UndeclaredResources { paths: missing } && forall|path: Seq<char>| #[trigger]
            missing.contains(path) <==> snapshot.contains(path) && !paths.contains(path),
{
    let missing = undeclared(snapshot, paths, snapshot.len() as int);
    lemma_undeclared(snapshot, paths, snapshot.len() as int);
    assert(snapshot.take(snapshot.len() as int) =~= snapshot);
    if missing.len() == 0 {
        assert forall|i: int| 0 <= i < snapshot.len() implies paths.contains(
            #[trigger] snapshot[i],
        ) by {
            assert(snapshot.contains(snapshot[i]));
            assert(!missing.contains(snapshot[i]));
        }
    } else {
        assert(missing.contains(missing[0]));
        let m = choose|m: int| 0 <= m < snapshot.len() && snapshot[m] == missing[0];
        assert(!paths.contains(snapshot[m]));
    }
}

/// What is absent: the declared paths that the snapshot does not hold.
pub proof fn lemma_absent(paths: Seq<Seq<char>>, snapshot: Seq<Seq<char>>, upto: int)
    requires
        0 <= upto <= paths.len(),
    ensures
        forall|path: Seq<char>| #[trigger]
            absent(paths, snapshot, upto).contains(path) <==> paths.take(upto).contains(path)
                && !snapshot.contains(path),
    decreases upto,
{
    if upto > 0 {
        lemma_absent(paths, snapshot, upto - 1);
        let earlier = absent(paths, snapshot, upto - 1);
        let now = absent(paths, snapshot, upto);
        let last = paths[upto - 1];
        let before = paths.take(upto - 1);
        let until = paths.take(upto);
        assert forall|path: Seq<char>| #[trigger]
            now.contains(path) <==> until.contains(path) && !snapshot.contains(path) by {
            lemma_with_path_holds(earlier, last, path);
            if before.contains(path) {
                let m = choose|m: int| 0 <= m < before.len() && before[m] == path;
                assert(until[m] == path);
            }
            if until.contains(path) {
                let m = choose|m: int| 0 <= m < until.len() && until[m] == path;
                if m < upto - 1 {
                    assert(before[m] == path);
                }
            }
            assert(until[upto - 1] == last);
        }
    } else {
        assert(paths.take(0) =~= Seq::<Seq<char>>::empty());
    }
}

/// What is repeated: the paths that are declared at two places.
pub proof fn lemma_repeated(paths: Seq<Seq<char>>, upto: int)
    requires
        0 <= upto <= paths.len(),
    ensures
        forall|path: Seq<char>| #[trigger]
            repeated(paths, upto).contains(path) <==> exists|i: int, j: int|
                0 <= i < j < upto && paths[i] == path && paths[j] == path,
    decreases upto,
{
    if upto > 0 {
        lemma_repeated(paths, upto - 1);
        let earlier = repeated(paths, upto - 1);
        let now = repeated(paths, upto);
        let last = paths[upto - 1];
        let before = paths.take(upto - 1);
        assert forall|path: Seq<char>| #[trigger]
            now.contains(path) <==> exists|i: int, j: int|
                0 <= i < j < upto && paths[i] == path && paths[j] == path by {
            lemma_with_path_holds(earlier, last, path);
            if before.contains(last) {
                let m = choose|m: int| 0 <= m < before.len() && before[m] == last;
                assert(paths[m] == last);
            }
            if now.contains(path) {
                if earlier.contains(path) {
                    let (i, j) = choose|i: int, j: int|
                        0 <= i < j < upto - 1 && paths[i] == path && paths[j] == path;
                    assert(0 <= i < j < upto && paths[i] == path && paths[j] == path);
                } else {
                    assert(path == last && before.contains(last));
                    let m = choose|m: int| 0 <= m < before.len() && before[m] == last;
                    assert(0 <= m < upto - 1 < upto && paths[m] == path && paths[upto - 1] == path);
                }
            }
            if exists|i: int, j: int| 0 <= i < j < upto && paths[i] == path && paths[j] == path {
                let (i, j) = choose|i: int, j: int|
                    0 <= i < j < upto && paths[i] == path && paths[j] == path;
                if j < upto - 1 {
                    assert(earlier.contains(path));
                } else {
                    assert(before[i] == path);
                    assert(before.contains(last));
                }
            }
        }
    }
}

/// A reslist is ready for release exactly when holding it against the
/// release finds nothing: for declared paths of allowed kinds, the check of
/// a release accepts them if and only if nothing is absent, nothing is
/// undeclared and nothing is repeated.
pub proof fn lemma_release_ready(paths: Seq<Seq<char>>, snapshot: Seq<Seq<char>>)
    requires
        forall|i: int|
            0 <= i < paths.len() ==> !listed(
                disallowed_filetypes(),
                extension_of(#[trigger] paths[i]),
            ),
    ensures
        reconciled(paths, snapshot, false) is Ok <==> is_release_ready(
            reconciliation(paths, snapshot),
        ),
{
    let total = paths.len() as int;
    lemma_absent(paths, snapshot, total);
    lemma_repeated(paths, total);
    assert(paths.take(total) =~= paths);
    let gone = absent(paths, snapshot, total);
    let twice = repeated(paths, total);
    if reconciled(paths, snapshot, false) is Ok {
        assert forall|i: int| 0 <= i < total implies entry_fault(paths, i, snapshot) is None by {
            if entry_fault(paths, i, snapshot) is Some {
                lemma_fault_is_found(paths, snapshot, 0, i);
            }
        }
        if gone.len() > 0 {
            assert(gone.contains(gone[0]));
            let m = choose|m: int| 0 <= m < total && paths[m] == gone[0];
            assert(entry_fault(paths, m, snapshot) is None);
        }
        if twice.len() > 0 {
            assert(twice.contains(twice[0]));
            let (i, j) = choose|i: int, j: int|
                0 <= i < j < total && paths[i] == twice[0] && paths[j] == twice[0];
            assert(paths.take(j)[i] == paths[j]);
            assert(entry_fault(paths, j, snapshot) is None);
        }
    }
    if is_release_ready(reconciliation(paths, snapshot)) {
        assert forall|i: int| 0 <= i < total implies entry_fault(paths, i, snapshot) is None by {
            assert(paths.contains(paths[i]));
            if !snapshot.contains(paths[i]) {
                assert(gone.contains(paths[i]));
            }
            if paths.take(i).contains(paths[i]) {
                let m = choose|m: int| 0 <= m < paths.take(i).len() && paths.take(i)[m] == paths[i];
                assert(0 <= m < i < total && paths[m] == paths[i] && paths[i] == paths[i]);
                assert(twice.contains(paths[i]));
            }
        }
        lemma_no_fault_found(paths, snapshot, 0);
    }
}

spec fn file_word() -> Seq<char> {
    seq!['f', 'i', 'l', 'e']
}

spec fn closing_token() -> Lexeme {
    Lexeme { kind: TokenKind::Close, text: seq!['}'], spaced: true }
}

spec fn entry_tokens(files: Seq<Seq<char>>) -> Seq<Lexeme>
    decreases files.len(),
{
    if files.len() == 0 {
        seq![closing_token()]
    } else {
        seq![
            Lexeme { kind: TokenKind::Quoted, text: files[0], spaced: true },
            Lexeme { kind: TokenKind::Quoted, text: file_word(), spaced: true },
        ] + entry_tokens(files.subrange(1, files.len() as int))
    }
}

spec fn body_lines(files: Seq<Seq<char>>) -> Seq<Seq<char>> {
    Seq::new(files.len(), |i: int| entry_line(files[i])) + seq!["}"@]
}

spec fn reslist_tokens(files: Seq<Seq<char>>) -> Seq<Lexeme> {
    seq![Lexeme { kind: TokenKind::Quoted, text: "resources"@, spaced: false }] + (seq![
        Lexeme { kind: TokenKind::Open, text: seq!['{'], spaced: true },
    ] + entry_tokens(files))
}

proof fn lemma_body_tokens(files: Seq<Seq<char>>)
    requires
        forall|i: int| 0 <= i < files.len() ==> is_plain(#[trigger] files[i]),
    ensures
        lexemes_from(joined(body_lines(files)), 0, true) == Some(entry_tokens(files)),
    decreases files.len(),
{
    let lines = body_lines(files);
    let later = lines.subrange(1, lines.len() as int);
    if files.len() == 0 {
        reveal_strlit("}");
        assert(lines[0] =~= seq!['}']);
        assert(later =~= Seq::<Seq<char>>::empty());
        assert(joined(later) =~= Seq::<char>::empty());
        assert(joined(lines) =~= seq!['}'] + seq!['\r', '\n']);
        lemma_lex_closing();
    } else {
        let rest = files.subrange(1, files.len() as int);
        assert(later =~= body_lines(rest));
        assert forall|i: int| 0 <= i < rest.len() implies is_plain(#[trigger] rest[i]) by {
            assert(rest[i] == files[i + 1]);
        }
        lemma_body_tokens(rest);
        assert(is_plain(files[0]));
        assert(is_plain(file_word()));
        let tail = joined(later);
        assert(joined(lines) =~= seq!['\t', '"'] + files[0] + seq!['"', '\t', '"'] + file_word()
            + seq!['"'] + seq!['\r', '\n'] + tail);
        lemma_lex_pair_line(files[0], file_word(), tail, true);
        assert(seq![Lexeme { kind: TokenKind::Quoted, text: files[0], spaced: true }] + (seq![
            Lexeme { kind: TokenKind::Quoted, text: file_word(), spaced: true },
        ] + entry_tokens(rest)) =~= entry_tokens(files));
    }
}

proof fn lemma_entry_tokens(files: Seq<Seq<char>>)
    ensures
        entry_tokens(files).len() == 2 * files.len() + 1,
        entry_tokens(files)[2 * (files.len() as int)] == closing_token(),
        forall|i: int|
            0 <= i < files.len() ==> (#[trigger] entry_tokens(files)[2 * i]) == (Lexeme {
                kind: TokenKind::Quoted,
                text: files[i],
                spaced: true,
            }),
        forall|i: int|
            0 <= i < files.len() ==> (#[trigger] entry_tokens(files)[2 * i + 1]) == (Lexeme {
                kind: TokenKind::Quoted,
                text: file_word(),
                spaced: true,
            }),
    decreases files.len(),
{
    if files.len() > 0 {
        let rest = files.subrange(1, files.len() as int);
        lemma_entry_tokens(rest);
        let tokens = entry_tokens(files);
        assert forall|i: int| 0 <= i < files.len() implies (#[trigger] tokens[2 * i]) == (Lexeme {
            kind: TokenKind::Quoted,
            text: files[i],
            spaced: true,
        }) by {
            if i > 0 {
                assert(tokens[2 * i] == entry_tokens(rest)[2 * (i - 1)]);
                assert(rest[i - 1] == files[i]);
            }
        }
        assert forall|i: int| 0 <= i < files.len() implies (#[trigger] tokens[2 * i + 1]) == (
        Lexeme { kind: TokenKind::Quoted, text: file_word(), spaced: true }) by {
            if i > 0 {
                assert(tokens[2 * i + 1] == entry_tokens(rest)[2 * (i - 1) + 1]);
            }
        }
        assert(tokens[2 * (files.len() as int)] == entry_tokens(rest)[2 * (rest.len() as int)]);
    }
}

proof fn lemma_no_fault(files: Seq<Seq<char>>, from: int)
    requires
        0 <= from,
        files.no_duplicates(),
        forall|i: int|
            0 <= i < files.len() ==> !listed(
                disallowed_filetypes(),
                extension_of(#[trigger] files[i]),
            ),
    ensures
        first_fault(files, files, from) is None,
    decreases files.len() - from,
{
    if from < files.len() {
        assert(files.contains(files[from]));
        if files.take(from).contains(files[from]) {
            let k = choose|k: int|
                0 <= k < files.take(from).len() && files.take(from)[k] == files[from];
            assert(files[k] == files[from]);
        }
        lemma_no_fault(files, from + 1);
    }
}

proof fn lemma_reslist_is_read(files: Seq<Seq<char>>)
    requires
        forall|i: int| 0 <= i < files.len() ==> is_plain(#[trigger] files[i]),
    ensures
        lexemes(reslist_text(files)) == Some(reslist_tokens(files)),
{
    let lines = reslist_lines(files);
    let after_label = lines.subrange(1, lines.len() as int);
    let body = after_label.subrange(1, after_label.len() as int);
    assert(body =~= body_lines(files));
    reveal_strlit("\"resources\"");
    reveal_strlit("resources");
    reveal_strlit("{");
    let label = "resources"@;
    assert(is_plain(label));
    assert(lines[0] =~= seq!['"'] + label + seq!['"']);
    assert(after_label[0] =~= seq!['{']);
    let tail = joined(body_lines(files));
    assert(joined(after_label) == after_label[0] + seq!['\r', '\n'] + joined(body));
    assert(joined(lines) == lines[0] + seq!['\r', '\n'] + joined(after_label));
    assert(reslist_text(files) =~= seq!['"'] + label + seq!['"'] + seq!['\r', '\n'] + seq!['{']
        + seq!['\r', '\n'] + tail);
    lemma_lex_opening(label, tail);
    lemma_body_tokens(files);
}

proof fn lemma_reslist_tokens_declare(files: Seq<Seq<char>>)
    requires
        files.len() > 0,
    ensures
        reslist_declared(reslist_tokens(files)) == Some(files),
{
    reveal_strlit("resources");
    reveal_strlit("file");
    lemma_entry_tokens(files);
    let tokens = reslist_tokens(files);
    let entries = entry_tokens(files);
    let total = files.len() as int;
    assert(tokens.len() == 2 * total + 3);
    assert(tokens[0] == (Lexeme { kind: TokenKind::Quoted, text: "resources"@, spaced: false }));
    assert(tokens[1].kind == TokenKind::Open);
    assert(file_word() =~= "file"@);
    assert(tokens[tokens.len() - 1] == entries[2 * total]);
    assert(tokens[tokens.len() - 1].kind == TokenKind::Close);
    let count = (tokens.len() - 3) / 2;
    assert(count == total);
    assert((tokens.len() - 3) % 2 == 0);
    assert forall|i: int| 0 <= i < count implies is_word(#[trigger] tokens[2 + 2 * i]) && is_keyword(
        tokens[3 + 2 * i],
        "file"@,
    ) && tokens[3 + 2 * i].spaced by {
        assert(tokens[2 + 2 * i] == entries[2 * i]);
        assert(tokens[3 + 2 * i] == entries[2 * i + 1]);
    }
    assert(is_word(tokens[0]));
    assert(reslist_declared(tokens) is Some);
    assert forall|i: int| 0 <= i < count implies tokens[2 + 2 * i].text == files[i] by {
        assert(tokens[2 + 2 * i] == entries[2 * i]);
    }
    assert(reslist_declared(tokens)->0 =~= files);
}

/// The tokens of the reslist written for the given files are those of a
/// reslist that declares exactly these files.
pub proof fn lemma_created_reslist_declares(files: Seq<Seq<char>>)
    requires
        files.len() > 0,
        forall|i: int| 0 <= i < files.len() ==> is_plain(#[trigger] files[i]),
    ensures
        lexemes(reslist_text(files)) is Some,
        reslist_declared(lexemes(reslist_text(files))->0) == Some(files),
{
    lemma_reslist_is_read(files);
    lemma_reslist_tokens_declare(files);
}

/// Writing, then checking: the reslist written for the files of a release
/// is accepted for that release, in the check of the release and in the
/// check of a whole installation. This holds of every set of files without
/// duplicates, as long as it holds a file, each path is its own normal form
/// and holds no quotation mark or brace, and no file is of a kind that a
/// reslist never names.
pub proof fn lemma_created_reslist_is_valid(files: Seq<Seq<char>>, fullcheck: bool)
    requires
        files.len() > 0,
        files.no_duplicates(),
        forall|i: int|
            0 <= i < files.len() ==> is_plain(#[trigger] files[i]) && is_normal(files[i])
                && !listed(disallowed_filetypes(), extension_of(files[i])),
    ensures
        reslist_verdict(reslist_text(files), files, fullcheck) is Ok,
{
    lemma_created_reslist_declares(files);
    assert forall|i: int| 0 <= i < files.len() implies normal_form(#[trigger] files[i])
        == files[i] by {
        assert(is_normal(files[i]));
    }
    assert(normal_forms(files) =~= files);
    lemma_no_fault(files, 0);
    lemma_undeclared(files, files, files.len() as int);
    let missing = undeclared(files, files, files.len() as int);
    if missing.len() > 0 {
        assert(missing.contains(missing[0]));
        assert(files.take(files.len() as int) =~= files);
    }
}

/// The files of the snapshot of a release for its reslist.
pub open spec fn release_files(release: Listing) -> Seq<Seq<char>> {
    snapshot_of(seq![release], Seq::<char>::empty(), disallowed_filetypes())
}

/// The reslist written from the snapshot of a release is accepted against
/// that snapshot where each key is its own normal form, so that it is found
/// again as it is written. This does not hold where the release holds no
/// file to declare, nor where a path holds a quotation mark or a brace.
pub proof fn lemma_release_reslist_round_trip(release: Listing, fullcheck: bool)
    requires
        release_files(release).len() > 0,
        forall|i: int|
            0 <= i < release_files(release).len() ==> is_plain(
                #[trigger] release_files(release)[i],
            ) && is_normal(release_files(release)[i]),
    ensures
        reslist_verdict(
            reslist_text(release_files(release)),
            release_files(release),
            fullcheck,
        ) is Ok,
{
    lemma_snapshot_of(seq![release], Seq::<char>::empty(), disallowed_filetypes());
    lemma_created_reslist_is_valid(release_files(release), fullcheck);
}

} // verus!
