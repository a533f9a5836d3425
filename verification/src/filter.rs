//! Which entries of a directory the search looks at: the directory names that
//! are never entered, and the file extensions that are known as text or as
//! binary.

use crate::config::Config;
use crate::text::{split_once_ascii, str_eq};
use vstd::prelude::*;
use vstd::string::*;

verus! {

/// The names of the directories that are never entered.
pub open spec fn ignored_names() -> Set<Seq<char>> {
    set![
        "_built"@,
        "_install"@,
        "_publish"@,
        "_package"@,
        "_unused"@,
        "node_modules"@,
        ".git"@,
        ".built"@,
        "target"@,
    ]
}

/// The extensions of files that are known to hold text.
pub open spec fn text_extensions() -> Set<Seq<char>> {
    set![
        "cpp"@,
        "c"@,
        "cc"@,
        "css"@,
        "cs"@,
        "ck"@,
        "go"@,
        "html"@,
        "htm"@,
        "h"@,
        "hpp"@,
        "ini"@,
        "inl"@,
        "ino"@,
        "java"@,
        "js"@,
        "json"@,
        "jsmk"@,
        "mel"@,
        "md"@,
        "py"@,
        "pymk"@,
        "rc"@,
        "rs"@,
        "tcl"@,
        "txt"@,
        "tpp"@,
        "toml"@,
        "xml"@,
        "yaml"@,
        "yml"@,
    ]
}

/// The extensions of files that are known not to hold text.
pub open spec fn binary_extensions() -> Set<Seq<char>> {
    set![
        "a"@,
        "apk"@,
        "avi"@,
        "bkm"@,
        "bin"@,
        "class"@,
        "db"@,
        "db-wal"@,
        "db-shm"@,
        "dll"@,
        "dis"@,
        "dtex"@,
        "elf"@,
        "env"@,
        "exe"@,
        "exr"@,
        "exp"@,
        "gif"@,
        "gz"@,
        "icns"@,
        "ilk"@,
        "ipch"@,
        "jar"@,
        "lib"@,
        "Lib"@,
        "nib"@,
        "o"@,
        "obj"@,
        "png"@,
        "pic"@,
        "pyc"@,
        "pyo"@,
        "pdb"@,
        "pdf"@,
        "ptc"@,
        "rtf"@,
        "rib"@,
        "sf2"@,
        "sdf"@,
        "shm"@,
        "sl"@,
        "slo"@,
        "so"@,
        "suo"@,
        "swp"@,
        "sqlite"@,
        "sql"@,
        "tar"@,
        "tgz"@,
        "tif"@,
        "tiff"@,
        "tex"@,
        "ttf"@,
        "wav"@,
        "xpm"@,
        "zip"@,
        "z"@,
    ]
}

/// The table of extensions: whether an extension is known as text (`true`) or
/// as binary (`false`), and `None` for one that is not listed.
pub open spec fn extension_kind(ext: Seq<char>) -> Option<bool> {
    if text_extensions().contains(ext) {
        Some(true)
    } else if binary_extensions().contains(ext) {
        Some(false)
    } else {
        None
    }
}

/// Index of the last character of `s` that is `a` or `b`, or -1 where it
/// holds neither.
pub open spec fn last_of(s: Seq<char>, a: char, b: char) -> int
    decreases s.len(),
{
    if s.len() == 0 {
        -1
    } else if s.last() == a || s.last() == b {
        s.len() - 1
    } else {
        last_of(s.drop_last(), a, b)
    }
}

/// The name of the entry that a path leads to: what follows the last slash or
/// backslash in it, and the whole path where it holds neither.
pub open spec fn file_name_of(path: Seq<char>) -> Seq<char> {
    path.skip(last_of(path, '/', '\\') + 1)
}

/// Index of the last dot in `name`, or -1 where it holds none.
pub open spec fn last_dot(name: Seq<char>) -> int {
    last_of(name, '.', '.')
}

/// The extension of the file that a path leads to: what follows the last dot
/// of its name. A name without a dot has none, nor has one whose only dot is
/// its first character, nor the name `..`.
pub open spec fn extension_of(path: Seq<char>) -> Option<Seq<char>> {
    let name = file_name_of(path);
    let dot = last_dot(name);
    if dot <= 0 || name == seq!['.', '.'] {
        None
    } else {
        Some(name.skip(dot + 1))
    }
}

/// Whether the file at this path is searched. With a filter, exactly the files
/// with that extension are. Without one, the files without extension are, and
/// those whose extension is known as text.
pub open spec fn is_interesting(path: Seq<char>, filter: Seq<char>) -> bool {
    match extension_of(path) {
        None => filter.len() == 0,
        Some(ext) => if filter.len() > 0 {
            ext == filter
        } else {
            extension_kind(ext) == Some(true)
        },
    }
}

/// With a filter, the table plays no part: a file is searched exactly when its
/// extension is the filter.
pub proof fn lemma_filter_overrides_table(path: Seq<char>, filter: Seq<char>)
    requires
        filter.len() > 0,
    ensures
        is_interesting(path, filter) <==> extension_of(path) == Some(filter),
{
}

proof fn lemma_last_of_at(s: Seq<char>, k: int, a: char, b: char)
    requires
        0 <= k < s.len(),
        s[k] == a || s[k] == b,
        forall|j: int| k < j < s.len() ==> s[j] != a && s[j] != b,
    ensures
        last_of(s, a, b) == k,
    decreases s.len(),
{
    if k < s.len() - 1 {
        lemma_last_of_at(s.drop_last(), k, a, b);
    }
}

proof fn lemma_last_of_none(s: Seq<char>, a: char, b: char)
    requires
        forall|j: int| 0 <= j < s.len() ==> s[j] != a && s[j] != b,
    ensures
        last_of(s, a, b) == -1,
    decreases s.len(),
{
    if s.len() > 0 {
        lemma_last_of_none(s.drop_last(), a, b);
    }
}

/// Whether a directory of this name is never entered.
pub fn is_ignored(name: &str) -> (r: bool)
    ensures
        r == ignored_names().contains(name@),
{
    str_eq(name, "_built")
    || str_eq(name, "_install")
    || str_eq(name, "_publish")
    || str_eq(name, "_package")
    || str_eq(name, "_unused")
    || str_eq(name, "node_modules")
    || str_eq(name, ".git")
    || str_eq(name, ".built")
    || str_eq(name, "target")
}

fn is_text_extension(ext: &str) -> (r: bool)
    ensures
        r == text_extensions().contains(ext@),
{
    str_eq(ext, "cpp")
    || str_eq(ext, "c")
    || str_eq(ext, "cc")
    || str_eq(ext, "css")
    || str_eq(ext, "cs")
    || str_eq(ext, "ck")
    || str_eq(ext, "go")
    || str_eq(ext, "html")
    || str_eq(ext, "htm")
    || str_eq(ext, "h")
    || str_eq(ext, "hpp")
    || str_eq(ext, "ini")
    || str_eq(ext, "inl")
    || str_eq(ext, "ino")
    || str_eq(ext, "java")
    || str_eq(ext, "js")
    || str_eq(ext, "json")
    || str_eq(ext, "jsmk")
    || str_eq(ext, "mel")
    || str_eq(ext, "md")
    || str_eq(ext, "py")
    || str_eq(ext, "pymk")
    || str_eq(ext, "rc")
    || str_eq(ext, "rs")
    || str_eq(ext, "tcl")
    || str_eq(ext, "txt")
    || str_eq(ext, "tpp")
    || str_eq(ext, "toml")
    || str_eq(ext, "xml")
    || str_eq(ext, "yaml")
    || str_eq(ext, "yml")
}

fn is_binary_extension(ext: &str) -> (r: bool)
    ensures
        r == binary_extensions().contains(ext@),
{
    str_eq(ext, "a")
    || str_eq(ext, "apk")
    || str_eq(ext, "avi")
    || str_eq(ext, "bkm")
    || str_eq(ext, "bin")
    || str_eq(ext, "class")
    || str_eq(ext, "db")
    || str_eq(ext, "db-wal")
    || str_eq(ext, "db-shm")
    || str_eq(ext, "dll")
    || str_eq(ext, "dis")
    || str_eq(ext, "dtex")
    || str_eq(ext, "elf")
    || str_eq(ext, "env")
    || str_eq(ext, "exe")
    || str_eq(ext, "exr")
    || str_eq(ext, "exp")
    || str_eq(ext, "gif")
    || str_eq(ext, "gz")
    || str_eq(ext, "icns")
    || str_eq(ext, "ilk")
    || str_eq(ext, "ipch")
    || str_eq(ext, "jar")
    || str_eq(ext, "lib")
    || str_eq(ext, "Lib")
    || str_eq(ext, "nib")
    || str_eq(ext, "o")
    || str_eq(ext, "obj")
    || str_eq(ext, "png")
    || str_eq(ext, "pic")
    || str_eq(ext, "pyc")
    || str_eq(ext, "pyo")
    || str_eq(ext, "pdb")
    || str_eq(ext, "pdf")
    || str_eq(ext, "ptc")
    || str_eq(ext, "rtf")
    || str_eq(ext, "rib")
    || str_eq(ext, "sf2")
    || str_eq(ext, "sdf")
    || str_eq(ext, "shm")
    || str_eq(ext, "sl")
    || str_eq(ext, "slo")
    || str_eq(ext, "so")
    || str_eq(ext, "suo")
    || str_eq(ext, "swp")
    || str_eq(ext, "sqlite")
    || str_eq(ext, "sql")
    || str_eq(ext, "tar")
    || str_eq(ext, "tgz")
    || str_eq(ext, "tif")
    || str_eq(ext, "tiff")
    || str_eq(ext, "tex")
    || str_eq(ext, "ttf")
    || str_eq(ext, "wav")
    || str_eq(ext, "xpm")
    || str_eq(ext, "zip")
    || str_eq(ext, "z")
}

/// Looks an extension up in the table.
pub fn lookup_extension(ext: &str) -> (r: Option<bool>)
    ensures
        r == extension_kind(ext@),
{
    if is_text_extension(ext) {
        Some(true)
    } else if is_binary_extension(ext) {
        Some(false)
    } else {
        None
    }
}

/// Whether a file with this extension is taken for binary: every extension is,
/// but those known as text.
pub fn fileext_implies_binary(ext: &str) -> (r: bool)
    ensures
        r == (extension_kind(ext@) != Some(true)),
{
    match lookup_extension(ext) {
        Some(is_text) => !is_text,
        None => true,
    }
}

/// What follows the last ASCII character `c` in `s`, and all of `s` where it
/// does not hold `c`.
fn after_last<'a>(s: &'a str, c: u8) -> (r: &'a str)
    requires
        c < 128,
    ensures
        !r@.contains(c as char),
        exists|head: Seq<char>|
            s@ == #[trigger] (head + r@) && (head.len() > 0 ==> head.last() == c as char),
{
    let ghost mut head: Seq<char> = Seq::empty();
    let mut rest = s;
    assert(s@ =~= head + rest@);
    loop
        invariant_except_break
            s@ == head + rest@,
            head.len() > 0 ==> head.last() == c as char,
        invariant
            c < 128,
        ensures
            s@ == head + rest@,
            head.len() > 0 ==> head.last() == c as char,
            !rest@.contains(c as char),
        decreases rest@.len(),
    {
        match split_once_ascii(rest, c) {
            None => {
                break;
            },
            Some((_, after)) => {
                proof {
                    let longer = head + rest@.take(rest@.len() - after@.len());
                    assert(s@ =~= longer + after@);
                    assert(longer.last() == c as char);
                    head = longer;
                }
                rest = after;
            },
        }
    }
    rest
}

/// The name of the entry that a path leads to.
pub fn file_name<'a>(path: &'a str) -> (name: &'a str)
    ensures
        name@ == file_name_of(path@),
{
    let tail = after_last(path, 47);
    let name = after_last(tail, 92);
    proof {
        let first = choose|head: Seq<char>|
            path@ == #[trigger] (head + tail@) && (head.len() > 0 ==> head.last() == '/');
        let second = choose|head: Seq<char>|
            tail@ == #[trigger] (head + name@) && (head.len() > 0 ==> head.last() == '\\');
        let head = first + second;
        assert(path@ =~= head + name@);
        assert forall|j: int| head.len() <= j < path@.len() implies path@[j] != '/' && path@[j]
            != '\\' by {
            assert(name@.contains(name@[j - head.len()]));
            assert(tail@.contains(tail@[j - first.len()]));
        }
        if head.len() > 0 {
            lemma_last_of_at(path@, head.len() - 1, '/', '\\');
        } else {
            lemma_last_of_none(path@, '/', '\\');
        }
        assert(path@.skip(head.len() as int) =~= name@);
    }
    name
}

/// The extension of the file that a path leads to, if it has one.
pub fn file_extension<'a>(path: &'a str) -> (r: Option<&'a str>)
    ensures
        r.deep_view() == extension_of(path@),
{
    let name = file_name(path);
    proof {
        reveal_strlit("..");
        assert(".."@ =~= seq!['.', '.']);
    }
    if str_eq(name, "..") {
        return None;
    }
    let ghost mut head: Seq<char> = Seq::empty();
    let mut rest = name;
    let mut found = false;
    let mut long = false;
    assert(name@ =~= head + rest@);
    loop
        invariant_except_break
            name@ == head + rest@,
            found == (head.len() > 0),
            long == (head.len() > 1),
            found ==> head.last() == '.',
        ensures
            name@ == head + rest@,
            found == (head.len() > 0),
            long == (head.len() > 1),
            found ==> head.last() == '.',
            !rest@.contains('.'),
        decreases rest@.len(),
    {
        match split_once_ascii(rest, 46) {
            None => {
                break;
            },
            Some((before, after)) => {
                long = found || !before.is_empty();
                found = true;
                proof {
                    let longer = head + before@ + seq!['.'];
                    assert(name@ =~= longer + after@);
                    head = longer;
                }
                rest = after;
            },
        }
    }
    proof {
        assert forall|j: int| head.len() <= j < name@.len() implies name@[j] != '.' by {
            assert(rest@.contains(rest@[j - head.len()]));
        }
        if found {
            lemma_last_of_at(name@, head.len() - 1, '.', '.');
            assert(name@.skip(head.len() as int) =~= rest@);
        } else {
            lemma_last_of_none(name@, '.', '.');
        }
    }
    if long {
        Some(rest)
    } else {
        None
    }
}

/// Whether the file at this path is searched under `cfg`.
pub fn file_is_interesting(path: &str, cfg: &Config) -> (r: bool)
    ensures
        r == is_interesting(path@, cfg@.ext),
{
    let filter = cfg.ext();
    match file_extension(path) {
        None => filter.is_empty(),
        Some(ext) => {
            if !filter.is_empty() {
                str_eq(filter, ext)
            } else {
                !fileext_implies_binary(ext)
            }
        },
    }
}

} // verus!
