//! Paths as text: their components and extensions, and the normal form in
//! which the scripts and the index of files compare them.

use crate::text::{
    from_chars, has_prefix, lowercase, push_chars, push_str, starts_with, to_chars, to_lowercase,
};
use vstd::prelude::*;
use vstd::slice::slice_subrange;

verus! {

/// A slash or a backslash parts the components of a path.
pub open spec fn is_separator(c: char) -> bool {
    c == '/' || c == '\\'
}

/// Where the last component of the first `upto` characters of a path begins:
/// behind their last separator, or at the start where they hold none.
pub open spec fn name_start(path: Seq<char>, upto: int) -> int
    decreases upto,
{
    if upto <= 0 {
        0
    } else if is_separator(path[upto - 1]) {
        upto
    } else {
        name_start(path, upto - 1)
    }
}

/// The position of the last dot at or after `from` in a path, or `from - 1`
/// where there is none.
pub open spec fn last_dot(path: Seq<char>, from: int, upto: int) -> int
    decreases upto - from,
{
    if upto <= from {
        from - 1
    } else if path[upto - 1] == '.' {
        upto - 1
    } else {
        last_dot(path, from, upto - 1)
    }
}

/// Where the extension of a path begins, if the path has one. The extension
/// is what follows the last dot of the last component. A last component that
/// holds no dot, that holds its only dot in front, or that is `..`, has no
/// extension.
pub open spec fn extension_start(path: Seq<char>) -> Option<int> {
    let start = name_start(path, path.len() as int);
    let dot = last_dot(path, start, path.len() as int);
    if dot <= start || (path.len() - start == 2 && path[start] == '.' && path[start + 1] == '.') {
        None
    } else {
        Some(dot + 1)
    }
}

/// The extension of a path; the empty text where the path has none.
pub open spec fn extension_of(path: Seq<char>) -> Seq<char> {
    match extension_start(path) {
        Some(start) => path.subrange(start, path.len() as int),
        None => Seq::empty(),
    }
}

/// Where the last component of a path ends: before the separators that end
/// the path.
pub open spec fn trimmed_end(path: Seq<char>, upto: int) -> int
    decreases upto,
{
    if upto > 0 && is_separator(path[upto - 1]) {
        trimmed_end(path, upto - 1)
    } else {
        upto
    }
}

/// The last component of a path, separators at the end of the path aside;
/// `None` where there is none, or where it is `..`.
pub open spec fn last_component(path: Seq<char>) -> Option<Seq<char>> {
    let end = trimmed_end(path, path.len() as int);
    let name = path.subrange(name_start(path, end), end);
    if name.len() == 0 || name == seq!['.', '.'] {
        None
    } else {
        Some(name)
    }
}

/// The directory that holds the last component of a path: the path up to
/// the separators in front of that component, which stay where nothing else
/// stands before them. Separators at the end of the path count for nothing.
/// A path without a component, empty or made of separators, has no parent.
pub open spec fn parent_of(path: Seq<char>) -> Option<Seq<char>> {
    let end = trimmed_end(path, path.len() as int);
    let start = name_start(path, end);
    let cut = trimmed_end(path, start);
    if end == 0 {
        None
    } else if cut == 0 {
        Some(path.subrange(0, start))
    } else {
        Some(path.subrange(0, cut))
    }
}

/// A path with every backslash turned into a slash.
pub open spec fn slashed(path: Seq<char>) -> Seq<char> {
    Seq::new(path.len(), |i: int| if path[i] == '\\' { '/' } else { path[i] })
}

/// The form in which paths are compared: in lower case, and with forward
/// slashes.
pub open spec fn normal_form(path: Seq<char>) -> Seq<char> {
    slashed(lowercase(path))
}

/// Whether a path is its own normal form: it is compared as it stands.
pub open spec fn is_normal(path: Seq<char>) -> bool {
    normal_form(path) == path
}

/// Whether a path has the shape of a key: a relative path with forward
/// slashes, which holds no backslash and does not begin with a slash.
pub open spec fn is_relative(path: Seq<char>) -> bool {
    &&& forall|i: int| 0 <= i < path.len() ==> #[trigger] path[i] != '\\'
    &&& path.len() > 0 ==> path[0] != '/'
}

/// The first position at or after `from` that holds no slash; the length of
/// the path where only slashes are left.
pub open spec fn name_begin(path: Seq<char>, from: int) -> int
    decreases path.len() - from,
{
    if 0 <= from < path.len() && path[from] == '/' {
        name_begin(path, from + 1)
    } else {
        from
    }
}

/// The part of `path` below `root`, both in normal form: `path` without
/// `root` in front, where it begins with it, and without the slashes in
/// front of what is left.
pub open spec fn below(root: Seq<char>, path: Seq<char>) -> Seq<char> {
    let rest = if starts_with(path, root) {
        path.subrange(root.len() as int, path.len() as int)
    } else {
        path
    };
    rest.subrange(name_begin(rest, 0), rest.len() as int)
}

/// The key under which a file below `root` is known: the normal form of its
/// path, relative to the normal form of the root.
pub open spec fn normalized_path(root: Seq<char>, path: Seq<char>) -> Seq<char> {
    below(normal_form(root), normal_form(path))
}

/// The path of `component` below the directory `base`: the two joined by a
/// slash, unless `base` is empty or ends with a separator already.
pub open spec fn joined_path(base: Seq<char>, component: Seq<char>) -> Seq<char> {
    if base.len() == 0 || is_separator(base.last()) {
        base + component
    } else {
        base + seq!['/'] + component
    }
}

fn char_is_separator(c: char) -> (r: bool)
    ensures
        r == is_separator(c),
{
    c == '/' || c == '\\'
}

/// Finds where the last component of a path begins, separators at the end
/// of the path counted as its end.
pub fn find_name_start(path: &[char]) -> (r: usize)
    ensures
        r == name_start(path@, path.len() as int),
        r <= path.len(),
{
    let mut i = path.len();
    while i > 0 && !char_is_separator(path[i - 1])
        invariant
            i <= path.len(),
            name_start(path@, path.len() as int) == name_start(path@, i as int),
        decreases i,
    {
        i -= 1;
    }
    i
}

/// Finds where the extension of a path begins.
pub fn find_extension(path: &[char]) -> (r: Option<usize>)
    ensures
        match r {
            Some(start) => extension_start(path@) == Some(start as int) && start <= path.len(),
            None => extension_start(path@) is None,
        },
{
    let start = find_name_start(path);
    let mut i = path.len();
    while i > start && path[i - 1] != '.'
        invariant
            start <= i <= path.len(),
            last_dot(path@, start as int, path.len() as int) == last_dot(
                path@,
                start as int,
                i as int,
            ),
        decreases i,
    {
        i -= 1;
    }
    if i - start <= 1 {
        return None;
    }
    if path.len() - start == 2 && path[start] == '.' && path[start + 1] == '.' {
        return None;
    }
    Some(i)
}

/// Finds where the last component of a path begins and ends.
pub fn find_last_component(path: &[char]) -> (r: Option<(usize, usize)>)
    ensures
        match r {
            Some((start, end)) => start <= end <= path.len() && last_component(path@) == Some(
                path@.subrange(start as int, end as int),
            ),
            None => last_component(path@) is None,
        },
{
    let mut end = path.len();
    while end > 0 && (path[end - 1] == '/' || path[end - 1] == '\\')
        invariant
            end <= path.len(),
            trimmed_end(path@, path.len() as int) == trimmed_end(path@, end as int),
        decreases end,
    {
        end -= 1;
    }
    let mut start = end;
    while start > 0 && !(path[start - 1] == '/' || path[start - 1] == '\\')
        invariant
            start <= end <= path.len(),
            name_start(path@, end as int) == name_start(path@, start as int),
        decreases start,
    {
        start -= 1;
    }
    let ghost name = path@.subrange(start as int, end as int);
    if end - start == 0 {
        return None;
    }
    if end - start == 2 && path[start] == '.' && path[start + 1] == '.' {
        assert(name =~= seq!['.', '.']);
        return None;
    }
    proof {
        if name == seq!['.', '.'] {
            assert(name.len() == 2);
            assert(name[0] == '.' && name[1] == '.');
        }
    }
    Some((start, end))
}

/// Finds where the parent of a path ends.
pub fn find_parent(path: &[char]) -> (r: Option<usize>)
    ensures
        match r {
            Some(end) => end <= path.len() && parent_of(path@) == Some(
                path@.subrange(0, end as int),
            ),
            None => parent_of(path@) is None,
        },
{
    let mut end = path.len();
    while end > 0 && char_is_separator(path[end - 1])
        invariant
            end <= path.len(),
            trimmed_end(path@, path.len() as int) == trimmed_end(path@, end as int),
        decreases end,
    {
        end -= 1;
    }
    if end == 0 {
        return None;
    }
    let mut start = end;
    while start > 0 && !char_is_separator(path[start - 1])
        invariant
            start <= end <= path.len(),
            name_start(path@, end as int) == name_start(path@, start as int),
        decreases start,
    {
        start -= 1;
    }
    let mut cut = start;
    while cut > 0 && char_is_separator(path[cut - 1])
        invariant
            cut <= start <= path.len(),
            trimmed_end(path@, start as int) == trimmed_end(path@, cut as int),
        decreases cut,
    {
        cut -= 1;
    }
    if cut == 0 {
        Some(start)
    } else {
        Some(cut)
    }
}

/// The normal form of a path.
pub fn to_normal_form(path: &[char]) -> (r: Vec<char>)
    ensures
        r@ == normal_form(path@),
{
    let lowered = to_lowercase(path);
    let mut out: Vec<char> = Vec::new();
    let mut i: usize = 0;
    while i < lowered.len()
        invariant
            i <= lowered.len(),
            out@ == slashed(lowered@).take(i as int),
        decreases lowered.len() - i,
    {
        let c = lowered[i];
        out.push(if c == '\\' { '/' } else { c });
        i += 1;
    }
    out
}

/// The key of a file found below `root`.
pub fn normalize_path(root: &[char], path: &[char]) -> (r: Vec<char>)
    ensures
        r@ == normalized_path(root@, path@),
        is_relative(r@),
{
    let base = to_normal_form(root);
    let whole = to_normal_form(path);
    let rest = if has_prefix(whole.as_slice(), base.as_slice()) {
        slice_subrange(whole.as_slice(), base.len(), whole.len())
    } else {
        whole.as_slice()
    };
    let mut begin: usize = 0;
    while begin < rest.len() && rest[begin] == '/'
        invariant
            begin <= rest.len(),
            name_begin(rest@, 0) == name_begin(rest@, begin as int),
        decreases rest.len() - begin,
    {
        begin += 1;
    }
    let mut key: Vec<char> = Vec::new();
    push_chars(&mut key, slice_subrange(rest, begin, rest.len()));
    proof {
        lemma_normalized_path(root@, path@);
        assert(key@ =~= normalized_path(root@, path@));
    }
    key
}

/// The path of `component` below the directory `base`.
pub fn join_path(base: &str, component: &str) -> (r: String)
    ensures
        r@ == joined_path(base@, component@),
{
    let mut path = to_chars(base);
    if path.len() > 0 && !char_is_separator(path[path.len() - 1]) {
        path.push('/');
    }
    push_str(&mut path, component);
    assert(path@ =~= joined_path(base@, component@));
    from_chars(path.as_slice())
}

proof fn lemma_name_begin(path: Seq<char>, from: int)
    requires
        0 <= from <= path.len(),
    ensures
        from <= name_begin(path, from) <= path.len(),
        name_begin(path, from) < path.len() ==> path[name_begin(path, from)] != '/',
    decreases path.len() - from,
{
    if from < path.len() && path[from] == '/' {
        lemma_name_begin(path, from + 1);
    }
}

/// The key of a file has the shape of a key, whatever the root and the path
/// are: it holds no backslash and does not begin with a slash.
pub proof fn lemma_normalized_path(root: Seq<char>, path: Seq<char>)
    ensures
        is_relative(normalized_path(root, path)),
{
    let base = normal_form(root);
    let whole = normal_form(path);
    let rest = if starts_with(whole, base) {
        whole.subrange(base.len() as int, whole.len() as int)
    } else {
        whole
    };
    lemma_name_begin(rest, 0);
    let key = normalized_path(root, path);
    assert forall|i: int| 0 <= i < key.len() implies #[trigger] key[i] != '\\' by {
        let at = name_begin(rest, 0) + i;
        assert(key[i] == rest[at]);
        if starts_with(whole, base) {
            assert(rest[at] == whole[base.len() + at]);
        }
    }
}

proof fn lemma_name_start(path: Seq<char>, upto: int)
    requires
        0 <= upto <= path.len(),
    ensures
        0 <= name_start(path, upto) <= upto,
    decreases upto,
{
    if upto > 0 && !is_separator(path[upto - 1]) {
        lemma_name_start(path, upto - 1);
    }
}

proof fn lemma_last_dot(path: Seq<char>, from: int, upto: int)
    requires
        0 <= from <= upto <= path.len(),
    ensures
        from - 1 <= last_dot(path, from, upto) < upto,
    decreases upto - from,
{
    if upto > from && path[upto - 1] != '.' {
        lemma_last_dot(path, from, upto - 1);
    }
}

/// The extension of a path, where it has one, begins within the path, behind
/// a dot.
pub proof fn lemma_extension_start(path: Seq<char>)
    ensures
        extension_start(path) matches Some(start) ==> 0 < start <= path.len(),
{
    lemma_name_start(path, path.len() as int);
    lemma_last_dot(path, name_start(path, path.len() as int), path.len() as int);
}

/// The last component of a path that has an extension begins before the
/// dot of the extension.
pub proof fn lemma_name_before_extension(path: Seq<char>)
    ensures
        extension_start(path) matches Some(start) ==> 0 <= name_start(path, path.len() as int)
            < start - 1,
{
    lemma_name_start(path, path.len() as int);
    lemma_last_dot(path, name_start(path, path.len() as int), path.len() as int);
}

proof fn lemma_name_start_after(path: Seq<char>, from: int, upto: int)
    requires
        0 <= from <= upto <= path.len(),
        forall|i: int| from <= i < upto ==> !is_separator(path[i]),
    ensures
        name_start(path, upto) == name_start(path, from),
    decreases upto - from,
{
    if from < upto {
        lemma_name_start_after(path, from, upto - 1);
    }
}

proof fn lemma_last_dot_at(path: Seq<char>, from: int, dot: int, upto: int)
    requires
        0 <= from <= dot < upto <= path.len(),
        path[dot] == '.',
        forall|i: int| dot < i < upto ==> path[i] != '.',
    ensures
        last_dot(path, from, upto) == dot,
    decreases upto - dot,
{
    if dot + 1 < upto {
        lemma_last_dot_at(path, from, dot, upto - 1);
    }
}

/// The extension of a path whose last dot stands at `dot`, behind a
/// character of the last component and before one or more characters that
/// are neither dots nor separators: it begins behind that dot.
pub proof fn lemma_extension_at(path: Seq<char>, dot: int)
    requires
        0 < dot,
        dot + 1 < path.len(),
        path[dot] == '.',
        !is_separator(path[dot - 1]),
        forall|i: int| dot < i < path.len() ==> path[i] != '.' && !is_separator(path[i]),
    ensures
        extension_start(path) == Some(dot + 1),
        extension_of(path) == path.subrange(dot + 1, path.len() as int),
{
    let total = path.len() as int;
    assert forall|i: int| dot - 1 <= i < total implies !is_separator(path[i]) by {
    }
    lemma_name_start_after(path, dot - 1, total);
    lemma_name_start(path, dot - 1);
    let start = name_start(path, total);
    lemma_last_dot_at(path, start, dot, total);
}

} // verus!
