//! What the three dialects share: the outcome of a task, the sweep over the
//! script files of an installation, and the entry points to the listing of
//! directories.

use crate::argument_handler::Arguments;
use crate::directory_index::{
    files_in_directory, lemma_files_in_directory, list_files, listings, roots_of, served,
    snapshot_of, DirectoryCache, DirectoryListing, DirectorySnapshot, ScanKey, Served,
};
use crate::error::{reports, FullcheckError, ScriptError, ScriptFault};
use crate::paths::{extension_of, find_extension, is_relative, join_path, joined_path};
use crate::text::{
    chars_equal, chars_of_strs, lowercase, strings, strings_of_chars, strs, to_chars, to_lowercase,
};
use vstd::prelude::*;
use vstd::slice::slice_subrange;

verus! {

/// The extension of the given path; the empty string where it has none.
pub fn get_file_extension<'a>(filepath: &'a str) -> (r: &'a str)
    ensures
        r@ == extension_of(filepath@),
{
    let path = to_chars(filepath);
    match find_extension(path.as_slice()) {
        Some(start) => filepath.substring_char(start, path.len()),
        None => {
            assert(filepath@.subrange(0, 0) =~= Seq::<char>::empty());
            filepath.substring_char(0, 0)
        },
    }
}

/// The keys of the files of a directory that are kept under a filter: of
/// each the lower-case form of its path, relative to the directory and with
/// forward slashes.
///
/// `found` holds the path of each regular file below `files_dir`, as a walk
/// of the directory gave it. A file is kept if its extension is
/// `target_extension`, where that is not empty, and none of
/// `excluded_extensions`.
pub fn get_files_in_directory(
    files_dir: &str,
    found: &Vec<String>,
    target_extension: &str,
    excluded_extensions: &[&str],
) -> (r: Vec<String>)
    ensures
        strings(r@) == files_in_directory(
            files_dir@,
            strings(found@),
            target_extension@,
            strs(excluded_extensions@),
            found.len() as int,
        ),
        forall|i: int| 0 <= i < r.len() ==> is_relative(#[trigger] strings(r@)[i]),
{
    let root = to_chars(files_dir);
    let target = to_chars(target_extension);
    let excluded = chars_of_strs(excluded_extensions);
    let files = list_files(root.as_slice(), found, target.as_slice(), &excluded);
    proof {
        lemma_files_in_directory(
            files_dir@,
            strings(found@),
            target_extension@,
            strs(excluded_extensions@),
            found.len() as int,
        );
    }
    strings_of_chars(&files)
}

/// The snapshot of the directory trees `cache_dirs` under the given filter,
/// out of the cache.
///
/// The first call for given roots and a given filter makes the snapshot from
/// the listings and keeps it. Each later call for the same roots and filter
/// hands out the snapshot that is kept, whatever the listings hold by then:
/// nothing is made twice.
pub fn compute_or_get_safe_reference_to_directory_cache<'a>(
    cache_dirs: Vec<&DirectoryListing>,
    target_filetype: &str,
    disallowed_filetypes: &[&str],
    directory_cache: &'a mut DirectoryCache,
) -> (r: &'a DirectorySnapshot)
    ensures
        served(
            old(directory_cache).keys(),
            old(directory_cache).snapshots(),
            ScanKey {
                roots: roots_of(listings(cache_dirs@)),
                target: target_filetype@,
                excluded: strs(disallowed_filetypes@),
            },
            snapshot_of(listings(cache_dirs@), target_filetype@, strs(disallowed_filetypes@)),
        ) == (Served {
            keys: final(directory_cache).keys(),
            snapshots: final(directory_cache).snapshots(),
            answer: r@,
        }),
        final(directory_cache).keys().len() == final(directory_cache).snapshots().len(),
{
    directory_cache.compute_or_get(cache_dirs, target_filetype, disallowed_filetypes)
}

/// A script file as it was read: its path and what it holds.
#[derive(Debug)]
pub struct ScriptFile {
    pub path: String,
    pub contents: String,
}

/// What became of a script of a release.
#[derive(Debug)]
pub enum Outcome {
    /// There was no script: this one is to be written.
    Created { contents: String },
    /// The script that exists is valid.
    Verified,
    /// The script that exists is well formed; the paths it names could not
    /// be held against the installation, which is not at hand.
    FormatVerified,
    /// There was no script, and there is nothing to put in one.
    NothingToList,
}

/// Whether a sweep looks at a file: its extension is the given one, letter
/// case aside.
pub open spec fn selected(file: ScriptFile, extension: Seq<char>) -> bool {
    lowercase(extension_of(file.path@)) == lowercase(extension)
}

/// How many of the first `upto` files a sweep looks at.
pub open spec fn count_selected(files: Seq<ScriptFile>, extension: Seq<char>, upto: int) -> nat
    decreases upto,
{
    if upto <= 0 {
        0
    } else if selected(files[upto - 1], extension) {
        count_selected(files, extension, upto - 1) + 1
    } else {
        count_selected(files, extension, upto - 1)
    }
}

/// Whether `r` is what checking the files with `check_func` comes to: the
/// number of the files looked at, all of which it accepts; or the path of
/// the first file that it rejects, with the fault it gives.
pub open spec fn swept<F: Fn(&String) -> Result<(), ScriptError>>(
    r: Result<usize, FullcheckError>,
    files: Seq<ScriptFile>,
    extension: Seq<char>,
    check_func: F,
) -> bool {
    match r {
        Ok(count) => {
            &&& count == count_selected(files, extension, files.len() as int)
            &&& forall|i: int|
                0 <= i < files.len() && selected(files[i], extension) ==> call_ensures(
                    check_func,
                    (&files[i].contents,),
                    Ok(()),
                )
        },
        Err(FullcheckError::File { path, error }) => exists|k: int|
            {
                &&& 0 <= k < files.len()
                &&& selected(files[k], extension)
                &&& path@ == files[k].path@
                &&& call_ensures(check_func, (&files[k].contents,), Err(error))
                &&& forall|i: int|
                    0 <= i < k && selected(files[i], extension) ==> call_ensures(
                        check_func,
                        (&files[i].contents,),
                        Ok(()),
                    )
            },
        Err(FullcheckError::MissingDirectory) => false,
    }
}

/// Whether a sweep for files with the given extension looks at the file
/// with the given path.
pub fn has_extension(path: &str, extension: &str) -> (r: bool)
    ensures
        r == (lowercase(extension_of(path@)) == lowercase(extension@)),
{
    let chars = to_chars(path);
    let file_extension = match find_extension(chars.as_slice()) {
        Some(start) => slice_subrange(chars.as_slice(), start, chars.len()),
        None => slice_subrange(chars.as_slice(), 0, 0),
    };
    assert(file_extension@ =~= extension_of(path@));
    let have = to_lowercase(file_extension);
    let want = to_lowercase(to_chars(extension).as_slice());
    chars_equal(have.as_slice(), want.as_slice())
}

/// Checks every file with the given extension using the supplied function,
/// in the order given, and stops at the first that is rejected. Returns the
/// number of files checked, or the rejected file with its fault.
pub fn check_all_files_in_dir_with_func<F: Fn(&String) -> Result<(), ScriptError>>(
    files: &Vec<ScriptFile>,
    extension: &str,
    check_func: F,
) -> (r: Result<usize, FullcheckError>)
    requires
        forall|i: int| 0 <= i < files.len() ==> call_requires(check_func, (&files[i].contents,)),
    ensures
        swept(r, files@, extension@, check_func),
{
    let mut scanned_file_count: usize = 0;
    let mut i: usize = 0;
    while i < files.len()
        invariant
            i <= files.len(),
            scanned_file_count == count_selected(files@, extension@, i as int),
            scanned_file_count <= i,
            forall|j: int|
                0 <= j < files.len() ==> call_requires(check_func, (&files[j].contents,)),
            forall|j: int|
                0 <= j < i && selected(files[j], extension@) ==> call_ensures(
                    check_func,
                    (&files[j].contents,),
                    Ok(()),
                ),
        decreases files.len() - i,
    {
        let file = &files[i];
        if has_extension(file.path.as_str(), extension) {
            let result = check_func(&file.contents);
            assert(call_ensures(check_func, (&files[i as int].contents,), result));
            match result {
                Ok(done) => {
                    assert(call_ensures(
                        check_func,
                        (&files[i as int].contents,),
                        Ok::<(), ScriptError>(done),
                    ));
                    assert(done == ());
                },
                Err(error) => {
                    return Err(FullcheckError::File { path: file.path.clone(), error });
                },
            }
            scanned_file_count += 1;
        }
        i += 1;
    }
    Ok(scanned_file_count)
}

/// The position of the first file at or after `from` that a sweep looks at
/// and that the given verdict rejects.
pub open spec fn first_rejected(
    files: Seq<ScriptFile>,
    extension: Seq<char>,
    verdict: spec_fn(Seq<char>) -> Result<(), ScriptFault>,
    from: int,
) -> Option<int>
    decreases files.len() - from,
{
    if 0 <= from < files.len() {
        if selected(files[from], extension) && verdict(files[from].contents@) is Err {
            Some(from)
        } else {
            first_rejected(files, extension, verdict, from + 1)
        }
    } else {
        None
    }
}

/// What a sweep with the given verdict comes to: the number of files looked
/// at, or the position of the first that is rejected.
pub open spec fn sweep(
    files: Seq<ScriptFile>,
    extension: Seq<char>,
    verdict: spec_fn(Seq<char>) -> Result<(), ScriptFault>,
) -> Result<nat, int> {
    match first_rejected(files, extension, verdict, 0) {
        Some(k) => Err(k),
        None => Ok(count_selected(files, extension, files.len() as int)),
    }
}

/// Whether the result of a sweep is what the sweep with the given verdict
/// comes to: the same count, or the path and the fault of the same file.
pub open spec fn sweep_result(
    r: Result<usize, FullcheckError>,
    files: Seq<ScriptFile>,
    extension: Seq<char>,
    verdict: spec_fn(Seq<char>) -> Result<(), ScriptFault>,
) -> bool {
    match r {
        Ok(count) => sweep(files, extension, verdict) == Ok::<nat, int>(count as nat),
        Err(FullcheckError::File { path, error }) => match sweep(files, extension, verdict) {
            Err(k) => path@ == files[k].path@ && verdict(files[k].contents@) == Err::<
                (),
                ScriptFault,
            >(error@),
            Ok(_) => false,
        },
        Err(FullcheckError::MissingDirectory) => false,
    }
}

proof fn lemma_first_rejected(
    files: Seq<ScriptFile>,
    extension: Seq<char>,
    verdict: spec_fn(Seq<char>) -> Result<(), ScriptFault>,
    from: int,
    k: int,
)
    requires
        0 <= from <= k < files.len(),
        selected(files[k], extension),
        verdict(files[k].contents@) is Err,
        forall|i: int|
            from <= i < k && selected(files[i], extension) ==> verdict(
                (#[trigger] files[i]).contents@,
            ) is Ok,
    ensures
        first_rejected(files, extension, verdict, from) == Some(k),
    decreases k - from,
{
    if from < k {
        assert(selected(files[from], extension) ==> verdict(files[from].contents@) is Ok);
        lemma_first_rejected(files, extension, verdict, from + 1, k);
    }
}

proof fn lemma_none_rejected(
    files: Seq<ScriptFile>,
    extension: Seq<char>,
    verdict: spec_fn(Seq<char>) -> Result<(), ScriptFault>,
    from: int,
)
    requires
        0 <= from,
        forall|i: int|
            from <= i < files.len() && selected(files[i], extension) ==> verdict(
                (#[trigger] files[i]).contents@,
            ) is Ok,
    ensures
        first_rejected(files, extension, verdict, from) is None,
    decreases files.len() - from,
{
    if from < files.len() {
        assert(selected(files[from], extension) ==> verdict(files[from].contents@) is Ok);
        lemma_none_rejected(files, extension, verdict, from + 1);
    }
}

/// Where the function that checks the files gives the given verdict, the
/// result of checking them all is what the sweep with that verdict comes to.
pub proof fn lemma_swept<F: Fn(&String) -> Result<(), ScriptError>>(
    r: Result<usize, FullcheckError>,
    files: Seq<ScriptFile>,
    extension: Seq<char>,
    check_func: F,
    verdict: spec_fn(Seq<char>) -> Result<(), ScriptFault>,
)
    requires
        swept(r, files, extension, check_func),
        forall|contents: &String, checked: Result<(), ScriptError>|
            call_ensures(check_func, (contents,), checked) ==> reports(
                checked,
                verdict(contents@),
            ),
    ensures
        sweep_result(r, files, extension, verdict),
{
    match r {
        Ok(_) => {
            assert forall|i: int|
                0 <= i < files.len() && selected(files[i], extension) implies verdict(
                (#[trigger] files[i]).contents@,
            ) is Ok by {
                assert(call_ensures(check_func, (&files[i].contents,), Ok(())));
            }
            lemma_none_rejected(files, extension, verdict, 0);
        },
        Err(FullcheckError::File { path, error }) => {
            let k = choose|k: int|
                {
                    &&& 0 <= k < files.len()
                    &&& selected(files[k], extension)
                    &&& path@ == files[k].path@
                    &&& call_ensures(check_func, (&files[k].contents,), Err(error))
                    &&& forall|i: int|
                        0 <= i < k && selected(files[i], extension) ==> call_ensures(
                            check_func,
                            (&files[i].contents,),
                            Ok(()),
                        )
                };
            assert forall|i: int| 0 <= i < k && selected(files[i], extension) implies verdict(
                (#[trigger] files[i]).contents@,
            ) is Ok by {
                assert(call_ensures(check_func, (&files[i].contents,), Ok(())));
            }
            lemma_first_rejected(files, extension, verdict, 0, k);
        },
        Err(FullcheckError::MissingDirectory) => {},
    }
}

/// The directory that holds the sample files, below the given directory of
/// the project.
pub fn get_root_test_directory(project_dir: &str) -> (r: String)
    ensures
        r@ == joined_path(joined_path(project_dir@, "resources"@), "tests"@),
{
    let resources = join_path(project_dir, "resources");
    join_path(resources.as_str(), "tests")
}

/// A set of barebones arguments over the sample files: a release and an
/// installation below the sample directory, middling numbers, and no
/// option set but the one that skips the prompt at the end.
pub fn get_barebones_args(project_dir: &str) -> (r: Arguments)
    ensures
        r.rootdir@ == joined_path(
            joined_path(
                joined_path(joined_path(project_dir@, "resources"@), "tests"@),
                "rootdir"@,
            ),
            "gesource"@,
        ),
        r.gesdir@ == joined_path(
            joined_path(
                joined_path(joined_path(project_dir@, "resources"@), "tests"@),
                "gesdir"@,
            ),
            "gesource"@,
        ),
        r.baseweight == 700,
        r.minplayers == 0,
        r.maxplayers == 16,
        r.resintensity == 7,
        r.teamthresh == 12,
        !r.compress,
        !r.recompress,
        !r.verbose,
        !r.fullcheck,
        r.noexitprompt,
{
    let test_dir = get_root_test_directory(project_dir);
    let test_gesdir = join_path(join_path(test_dir.as_str(), "gesdir").as_str(), "gesource");
    let test_rootdir = join_path(join_path(test_dir.as_str(), "rootdir").as_str(), "gesource");
    Arguments {
        rootdir: test_rootdir,
        gesdir: test_gesdir,
        baseweight: 700,
        minplayers: 0,
        maxplayers: 16,
        resintensity: 7,
        teamthresh: 12,
        compress: false,
        recompress: false,
        verbose: false,
        fullcheck: false,
        noexitprompt: true,
    }
}

} // verus!
