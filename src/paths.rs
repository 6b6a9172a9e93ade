use vstd::prelude::*;
use vstd::string::*;

verus! {

/// A path with one leading separator removed, if it has one.
pub open spec fn normalized(p: Seq<char>) -> Seq<char> {
    if p.len() > 0 && p[0] == '/' {
        p.drop_first()
    } else {
        p
    }
}

/// Index of the last occurrence of `c` in `s`, or -1 when `c` does not occur.
pub open spec fn last_index_of(s: Seq<char>, c: char) -> int
    decreases s.len(),
{
    if s.len() == 0 {
        -1
    } else if s.last() == c {
        s.len() - 1
    } else {
        last_index_of(s.drop_last(), c)
    }
}

/// Everything up to and including the last `/` (empty when there is none).
pub open spec fn dir_part(p: Seq<char>) -> Seq<char> {
    p.subrange(0, last_index_of(p, '/') + 1)
}

/// The final component of a path: everything after the last `/`.
pub open spec fn file_name(p: Seq<char>) -> Seq<char> {
    p.subrange(last_index_of(p, '/') + 1, p.len() as int)
}

/// A file name has an extension when it holds a `.` that is not its first
/// character; the extension is what follows the last such `.`.
pub open spec fn name_has_extension(name: Seq<char>) -> bool {
    last_index_of(name, '.') > 0
}

/// The file name without its extension.
pub open spec fn name_stem(name: Seq<char>) -> Seq<char> {
    if name_has_extension(name) {
        name.subrange(0, last_index_of(name, '.'))
    } else {
        name
    }
}

/// The extension of a file name, without the dot.
pub open spec fn name_extension(name: Seq<char>) -> Option<Seq<char>> {
    if name_has_extension(name) {
        Some(name.subrange(last_index_of(name, '.') + 1, name.len() as int))
    } else {
        None
    }
}

/// The extension of the file a path names.
pub open spec fn extension_of(p: Seq<char>) -> Option<Seq<char>> {
    name_extension(file_name(p))
}

/// The path of an asset once its content hash is embedded in its name:
/// `{dir}{stem}_{hash}.{extension}`, and `{dir}{stem}_{hash}` when the file
/// has no extension.
pub open spec fn hashed_name(p: Seq<char>, hash: Seq<char>) -> Seq<char> {
    let base = dir_part(p) + name_stem(file_name(p)) + "_"@ + hash;
    match extension_of(p) {
        Some(e) => base + "."@ + e,
        None => base,
    }
}

proof fn lemma_last_index(s: Seq<char>, c: char, k: int)
    requires
        -1 <= k < s.len(),
        k >= 0 ==> s[k] == c,
        forall|j: int| k < j < s.len() ==> s[j] != c,
    ensures
        last_index_of(s, c) == k,
    decreases s.len(),
{
    if s.len() > 0 && s.last() != c {
        lemma_last_index(s.drop_last(), c, k);
    }
}

proof fn lemma_last_index_bounds(s: Seq<char>, c: char)
    ensures
        -1 <= last_index_of(s, c) < s.len(),
        last_index_of(s, c) >= 0 ==> s[last_index_of(s, c)] == c,
    decreases s.len(),
{
    if s.len() > 0 && s.last() != c {
        lemma_last_index_bounds(s.drop_last(), c);
    }
}

/// Position of the last `c` in `s`, counted in characters.
fn find_last(s: &str, c: char) -> (r: Option<usize>)
    ensures
        match r {
            Some(k) => k as int == last_index_of(s@, c),
            None => last_index_of(s@, c) == -1,
        },
{
    let n = s.unicode_len();
    let mut i: usize = n;
    while i > 0
        invariant
            i <= n == s@.len(),
            forall|j: int| i <= j < n ==> s@[j] != c,
        decreases i,
    {
        if s.get_char(i - 1) == c {
            proof {
                lemma_last_index(s@, c, i - 1);
            }
            return Some(i - 1);
        }
        i = i - 1;
    }
    proof {
        lemma_last_index(s@, c, -1);
    }
    None
}

/// Strips one leading `/`, so that `/assets/x` and `assets/x` compare equal.
pub fn normalize_path(path: &str) -> (r: &str)
    ensures
        r@ == normalized(path@),
{
    let n = path.unicode_len();
    if n > 0 && path.get_char(0) == '/' {
        path.substring_char(1, n)
    } else {
        path
    }
}

/// Whether `s` begins with `prefix`.
pub fn starts_with(s: &str, prefix: &str) -> (r: bool)
    ensures
        r == prefix@.is_prefix_of(s@),
{
    let n = s.unicode_len();
    let m = prefix.unicode_len();
    if m > n {
        return false;
    }
    let mut i: usize = 0;
    while i < m
        invariant
            m <= n,
            n == s@.len(),
            m == prefix@.len(),
            i <= m,
            forall|j: int| 0 <= j < i ==> prefix@[j] == s@[j],
        decreases m - i,
    {
        if s.get_char(i) != prefix.get_char(i) {
            return false;
        }
        i = i + 1;
    }
    true
}

/// Whether two strings hold the same characters.
pub fn same_text(a: &str, b: &str) -> (r: bool)
    ensures
        r == (a@ == b@),
{
    let r = starts_with(a, b) && starts_with(b, a);
    if r {
        assert(a@ =~= b@);
    }
    r
}

/// Whether `s` ends with `suffix`.
pub fn ends_with(s: &str, suffix: &str) -> (r: bool)
    ensures
        r == (suffix@.len() <= s@.len() && s@.subrange(
            s@.len() - suffix@.len(),
            s@.len() as int,
        ) == suffix@),
{
    let n = s.unicode_len();
    let m = suffix.unicode_len();
    if m > n {
        return false;
    }
    let d = n - m;
    let mut i: usize = 0;
    while i < m
        invariant
            m <= n,
            d == n - m,
            n == s@.len(),
            m == suffix@.len(),
            i <= m,
            forall|j: int| 0 <= j < i ==> suffix@[j] == s@[d + j],
        decreases m - i,
    {
        if s.get_char(d + i) != suffix.get_char(i) {
            return false;
        }
        i = i + 1;
    }
    assert(s@.subrange(d as int, n as int) =~= suffix@);
    true
}

/// Splits a path into the directory part (with its trailing `/`) and the
/// file name.
fn split_file_name(p: &str) -> (r: (&str, &str))
    ensures
        r.0@ == dir_part(p@),
        r.1@ == file_name(p@),
{
    proof {
        lemma_last_index_bounds(p@, '/');
    }
    let n = p.unicode_len();
    let cut = match find_last(p, '/') {
        Some(k) => k + 1,
        None => 0,
    };
    (p.substring_char(0, cut), p.substring_char(cut, n))
}

/// Splits a file name into its stem and its extension.
fn split_extension(name: &str) -> (r: (&str, Option<&str>))
    ensures
        r.0@ == name_stem(name@),
        match r.1 {
            Some(e) => name_extension(name@) == Some(e@),
            None => name_extension(name@) is None,
        },
{
    proof {
        lemma_last_index_bounds(name@, '.');
    }
    let n = name.unicode_len();
    match find_last(name, '.') {
        Some(k) => {
            if k > 0 {
                (name.substring_char(0, k), Some(name.substring_char(k + 1, n)))
            } else {
                (name, None)
            }
        },
        None => (name, None),
    }
}

/// The extension of the file that `path` names, if it has one.
pub fn extension(path: &str) -> (r: Option<&str>)
    ensures
        match r {
            Some(e) => extension_of(path@) == Some(e@),
            None => extension_of(path@) is None,
        },
{
    let (_, name) = split_file_name(path);
    split_extension(name).1
}

/// The path with `hash` embedded in the file name: `app.js` becomes
/// `app_{hash}.js`, `LICENSE` becomes `LICENSE_{hash}`.
pub fn hashed_filename(path: &str, hash: &str) -> (r: String)
    ensures
        r@ == hashed_name(path@, hash@),
{
    let (dir, name) = split_file_name(path);
    let (stem, ext) = split_extension(name);
    let base = String::from_str(dir).concat(stem).concat("_").concat(hash);
    match ext {
        Some(e) => base.concat(".").concat(e),
        None => base,
    }
}

/// Whether a path's extension is one of `excluded`. A path without an
/// extension is never excluded.
pub fn is_excluded(path: &str, excluded: &Vec<String>) -> (r: bool)
    ensures
        r == (extension_of(path@) is Some && exists|i: int|
            0 <= i < excluded@.len() && excluded@[i]@ == extension_of(path@)->0),
{
    match extension(path) {
        None => false,
        Some(e) => {
            let mut i: usize = 0;
            while i < excluded.len()
                invariant
                    i <= excluded@.len(),
                    extension_of(path@) == Some(e@),
                    forall|j: int| 0 <= j < i ==> excluded@[j]@ != e@,
                decreases excluded@.len() - i,
            {
                if same_text(excluded[i].as_str(), e) {
                    return true;
                }
                i = i + 1;
            }
            false
        },
    }
}

/// Whether a file name is that of an HTML document (`.htm` or `.html`).
pub fn is_html_document(name: &str) -> (r: bool)
    ensures
        r == (ends_with_spec(name@, ".htm"@) || ends_with_spec(name@, ".html"@)),
{
    ends_with(name, ".htm") || ends_with(name, ".html")
}

/// Whether `s` ends with `suffix`.
pub open spec fn ends_with_spec(s: Seq<char>, suffix: Seq<char>) -> bool {
    suffix.len() <= s.len() && s.subrange(s.len() - suffix.len(), s.len() as int) == suffix
}

/// Normalizing a path without a leading separator leaves it unchanged, and
/// normalizing one with a leading separator strips exactly that separator.
pub proof fn lemma_normalize_path(p: Seq<char>)
    ensures
        !(p.len() > 0 && p[0] == '/') ==> normalized(p) == p,
        p.len() > 0 && p[0] == '/' ==> "/"@ + normalized(p) == p && normalized(p).len() == p.len() - 1,
        normalized(normalized(p)) == normalized(p) <== !(p.len() > 1 && p[0] == '/' && p[1] == '/'),
{
    reveal_strlit("/");
    if p.len() > 0 && p[0] == '/' {
        assert("/"@ + normalized(p) =~= p);
    }
}

} // verus!
