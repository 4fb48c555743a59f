//! Compressed copies of the files of a release, as a download server offers
//! them.

use crate::argument_handler::Arguments;
use crate::directory_index::{is_kept, kept};
use crate::paths::{extension_start, find_extension, find_parent, join_path, joined_path, parent_of};
use crate::text::{from_chars, push_chars, push_str, strings, texts, to_chars};
use vstd::prelude::*;
use vstd::slice::slice_subrange;

verus! {

/// The bzip2 stream of a sequence of bytes, at the highest level of
/// compression.
pub uninterp spec fn bzip2_stream(data: Seq<u8>) -> Seq<u8>;

/// Why a file could not be compressed.
#[derive(Clone, Copy, Debug, PartialEq, Eq, Structural)]
pub enum CompressError {
    /// The compressor gave up on the data.
    Compressor,
}

/// What became of the compressed copy of a file.
#[derive(Debug)]
pub enum Compressed {
    /// A compressed copy exists and stays as it is.
    Kept,
    /// The compressed copy is to be written with these bytes.
    Fresh(Vec<u8>),
}

/// Runs `bzip2::read::BzEncoder` over `data` at `Compression::best()` and
/// reads it to its end. The bytes that come out are the bzip2 stream of the
/// data. Reading the encoder fails only where reading what it compresses
/// fails, and bytes held in memory are read without fail: the stream always
/// comes.
#[verifier::external_body]
fn compress_bytes(data: &[u8]) -> (r: Option<Vec<u8>>)
    ensures
        r is Some,
        r matches Some(stream) ==> stream@ == bzip2_stream(data@),
{
    let mut encoder = bzip2::read::BzEncoder::new(data, bzip2::Compression::best());
    let mut stream = Vec::new();
    match std::io::Read::read_to_end(&mut encoder, &mut stream) {
        Ok(_) => Some(stream),
        Err(_) => None,
    }
}

/// Whether `r` is the outcome of compressing a file that holds `contents`: a
/// compressed copy that exists stays, unless everything is compressed anew;
/// else the fresh copy is the bzip2 stream of the contents.
pub open spec fn compressed_as(
    r: Result<Compressed, CompressError>,
    recompress: bool,
    compressed_exists: bool,
    contents: Seq<u8>,
) -> bool {
    if !recompress && compressed_exists {
        r matches Ok(Compressed::Kept)
    } else {
        r matches Ok(Compressed::Fresh(stream)) && stream@ == bzip2_stream(contents)
    }
}

/// The outcome for a file, given what the compressor answered: a compressed
/// copy that exists stays, unless everything is compressed anew; else the
/// stream is the fresh copy, and a compressor that failed is an error.
pub fn compressed_copy(args: &Arguments, compressed_exists: bool, stream: Option<Vec<u8>>) -> (r:
    Result<Compressed, CompressError>)
    ensures
        r == if !args.recompress && compressed_exists {
            Ok::<Compressed, CompressError>(Compressed::Kept)
        } else {
            match stream {
                Some(bytes) => Ok(Compressed::Fresh(bytes)),
                None => Err(CompressError::Compressor),
            }
        },
{
    if !args.recompress && compressed_exists {
        Ok(Compressed::Kept)
    } else {
        match stream {
            Some(bytes) => Ok(Compressed::Fresh(bytes)),
            None => Err(CompressError::Compressor),
        }
    }
}

/// Compresses a file of the release. `compressed_exists` says whether the
/// compressed copy exists already: it is then kept, unless everything is
/// compressed anew. `contents` holds the bytes of the file. The outcome is
/// never an error.
pub fn compress_file(args: &Arguments, compressed_exists: bool, contents: &[u8]) -> (r: Result<
    Compressed,
    CompressError,
>)
    ensures
        compressed_as(r, args.recompress, compressed_exists, contents@),
{
    if !args.recompress && compressed_exists {
        return Ok(Compressed::Kept);
    }
    let stream = compress_bytes(contents);
    compressed_copy(args, compressed_exists, stream)
}

/// The extension of the compressed copy of a file: that of the file, a dot,
/// and `bz2`; just `bz2` for a file without an extension.
pub open spec fn compressed_extension(path: Seq<char>) -> Seq<char> {
    match extension_start(path) {
        Some(start) => path.subrange(start, path.len() as int) + ".bz2"@,
        None => "bz2"@,
    }
}

/// The extension of the compressed copy of the given file.
pub fn create_compressed_extension(uncompressed_path: &str) -> (r: String)
    ensures
        r@ == compressed_extension(uncompressed_path@),
{
    let path = to_chars(uncompressed_path);
    match find_extension(path.as_slice()) {
        Some(start) => {
            let mut extension: Vec<char> = Vec::new();
            push_chars(&mut extension, slice_subrange(path.as_slice(), start, path.len()));
            push_str(&mut extension, ".bz2");
            assert(extension@ =~= compressed_extension(uncompressed_path@));
            from_chars(extension.as_slice())
        },
        None => String::from_str("bz2"),
    }
}

/// Where the compressed copy of the release below `root_path` goes: the
/// directory `gesource` in the directory `gesource_compressed`, beside the
/// root of the release. A root without a parent has no such place.
pub fn get_compressed_directory(root_path: &str) -> (r: Option<String>)
    ensures
        r matches Some(p) ==> parent_of(root_path@) matches Some(parent) && p@ == joined_path(
            joined_path(parent, "gesource_compressed"@),
            "gesource"@,
        ),
        r is None <==> parent_of(root_path@) is None,
{
    let root = to_chars(root_path);
    match find_parent(root.as_slice()) {
        Some(end) => {
            let parent = from_chars(slice_subrange(root.as_slice(), 0, end));
            let beside = join_path(parent.as_str(), "gesource_compressed");
            Some(join_path(beside.as_str(), "gesource"))
        },
        None => None,
    }
}

/// Those of the first `upto` files found that have the wanted extension,
/// letter case aside, or all of them where none is wanted: as they were
/// found, in their order.
pub open spec fn raw_files(found: Seq<Seq<char>>, target: Seq<char>, upto: int) -> Seq<Seq<char>>
    decreases upto,
{
    if upto <= 0 {
        Seq::empty()
    } else if kept(found[upto - 1], target, Seq::<Seq<char>>::empty()) {
        raw_files(found, target, upto - 1).push(found[upto - 1])
    } else {
        raw_files(found, target, upto - 1)
    }
}

/// The files found that have the wanted extension, as they were found.
pub fn list_raw_files(found: &Vec<String>, target: &[char]) -> (r: Vec<String>)
    ensures
        strings(r@) == raw_files(strings(found@), target@, found.len() as int),
{
    let none: Vec<Vec<char>> = Vec::new();
    assert(texts(none@) =~= Seq::<Seq<char>>::empty());
    let mut out: Vec<String> = Vec::new();
    let mut i: usize = 0;
    while i < found.len()
        invariant
            i <= found.len(),
            texts(none@) == Seq::<Seq<char>>::empty(),
            strings(out@) == raw_files(strings(found@), target@, i as int),
        decreases found.len() - i,
    {
        let path = to_chars(found[i].as_str());
        if is_kept(path.as_slice(), target, &none) {
            let ghost before = strings(out@);
            out.push(found[i].clone());
            assert(strings(out@) =~= before.push(strings(found@)[i as int]));
        }
        i += 1;
    }
    out
}

/// The files of a directory that are removed before everything is
/// compressed anew: those found below it whose extension is the given one,
/// letter case aside, or all of them where none is given. They are returned
/// as they were found, in their order.
pub fn files_to_remove(found: &Vec<String>, target_extension: &str) -> (r: Vec<String>)
    ensures
        strings(r@) == raw_files(
            strings(found@),
            target_extension@,
            found.len() as int,
        ),
{
    let target = to_chars(target_extension);
    list_raw_files(found, target.as_slice())
}

} // verus!
