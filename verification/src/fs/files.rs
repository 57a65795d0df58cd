//! Files inside a volume's filesystem: where they go, and what a listing
//! shows.
use crate::text;
use vstd::prelude::*;

verus! {

/// A file to place into a filesystem.
pub struct SeedFile {
    /// Absolute path. Parent directories are created.
    pub path: String,
    pub contents: Vec<u8>,
}

impl SeedFile {
    /// A file to place at `path`.
    pub fn new(path: String, contents: Vec<u8>) -> (f: Self)
        ensures
            f.path == path,
            f.contents == contents,
    {
        SeedFile { path, contents }
    }
}

/// An entry of a directory listing.
pub struct DirEntry {
    pub name: String,
    pub is_dir: bool,
    pub size: u64,
}

/// The last place of `c` in `s`, or -1.
pub open spec fn last_at(s: Seq<char>, c: char) -> int
    decreases s.len(),
{
    if s.len() == 0 {
        -1
    } else if s.last() == c {
        s.len() - 1
    } else {
        last_at(s.drop_last(), c)
    }
}

/// The directory that a path lies in: what stands before its last slash,
/// slashes at its end left out; nothing at the root.
pub open spec fn parent(path: Seq<char>) -> Option<Seq<char>> {
    let t = text::trim_end_char(path, '/');
    let i = last_at(t, '/');
    if i <= 0 {
        None
    } else {
        Some(t.take(i))
    }
}

fn find_last(v: &[char], c: char) -> (r: Option<usize>)
    ensures
        match r {
            Some(i) => i == last_at(v@, c) && i < v@.len(),
            None => last_at(v@, c) == -1,
        },
{
    let mut n: usize = v.len();
    assert(v@.subrange(0, n as int) =~= v@);
    while n > 0
        invariant
            n <= v@.len(),
            last_at(v@, c) == last_at(v@.subrange(0, n as int), c),
        decreases n,
    {
        let ghost now = v@.subrange(0, n as int);
        if v[n - 1] == c {
            return Some(n - 1);
        }
        assert(now.drop_last() =~= v@.subrange(0, n - 1));
        n = n - 1;
    }
    None
}

/// The directory that a path lies in; nothing at the root.
pub fn parent_of(path: &str) -> (r: Option<String>)
    ensures
        match r {
            Some(p) => parent(path@) == Some(p@),
            None => parent(path@) is None,
        },
{
    let t = text::drop_end_char(&text::to_chars(path), '/');
    match find_last(&t, '/') {
        None => None,
        Some(i) => {
            if i == 0 {
                None
            } else {
                assert(t@.subrange(0, i as int) =~= t@.take(i as int));
                Some(text::from_chars(&t, 0, i))
            }
        },
    }
}

/// A path that no file can be placed at.
#[derive(Debug)]
pub struct NotAbsolute {
    pub path: String,
}

impl NotAbsolute {
    /// The fault in words.
    pub fn to_string(&self) -> (s: String)
        ensures
            s@ == "path "@ + text::quoted(self.path@) + " must be absolute"@,
    {
        let mut s = "path ".to_owned();
        s.append(&text::quoted_text(&self.path));
        s.append(" must be absolute");
        s
    }
}

/// Whether a path is absolute.
pub open spec fn absolute(path: Seq<char>) -> bool {
    path.len() > 0 && path[0] == '/'
}

/// The directory to make before a file is written, if there is one to make.
/// Only absolute paths are written to.
pub fn place(file: &SeedFile) -> (r: Result<Option<String>, NotAbsolute>)
    ensures
        match r {
            Ok(p) => absolute(file.path@) && (match p {
                Some(d) => parent(file.path@) == Some(d@),
                None => parent(file.path@) is None,
            }),
            Err(e) => !absolute(file.path@) && e.path@ == file.path@,
        },
{
    let v = text::to_chars(&file.path);
    if v.len() == 0 || v[0] != '/' {
        return Err(NotAbsolute { path: file.path.clone() });
    }
    Ok(parent_of(&file.path))
}

/// Whether a name stands for a directory itself or for its parent.
pub open spec fn is_dots(name: Seq<char>) -> bool {
    name == "."@ || name == ".."@
}

/// Path of an entry of a directory.
pub open spec fn child(dir: Seq<char>, name: Seq<char>) -> Seq<char> {
    if dir.len() > 0 && dir.last() == '/' {
        dir + name
    } else {
        dir + "/"@ + name
    }
}

/// Path of an entry of a directory, unless it is one of the dots, which a
/// listing does not show.
pub fn entry_path(dir: &str, name: &str) -> (r: Option<String>)
    ensures
        match r {
            Some(p) => !is_dots(name@) && p@ == child(dir@, name@),
            None => is_dots(name@),
        },
{
    if text::same_text(name, ".") || text::same_text(name, "..") {
        return None;
    }
    let v = text::to_chars(dir);
    let mut p = dir.to_owned();
    if v.len() == 0 || v[v.len() - 1] != '/' {
        p.append("/");
    }
    p.append(name);
    Some(p)
}

/// A file lies in its parent: their paths differ by a slash, the file's name
/// and slashes at the end.
pub proof fn a_parent_is_a_prefix(path: Seq<char>)
    ensures
        parent(path) matches Some(p) ==> p.len() > 0 && p.len() < path.len() && p == path.take(
            p.len() as int,
        ) && path[p.len() as int] == '/',
{
    let t = text::trim_end_char(path, '/');
    lemma_trimmed_is_prefix(path);
    lemma_last_at(t, '/');
    let i = last_at(t, '/');
    if i > 0 {
        assert(t.take(i) =~= path.take(i));
        assert(path[i] == t[i]);
    }
}

proof fn lemma_trimmed_is_prefix(s: Seq<char>)
    ensures
        text::trim_end_char(s, '/').len() <= s.len(),
        text::trim_end_char(s, '/') == s.take(text::trim_end_char(s, '/').len() as int),
    decreases s.len(),
{
    let t = text::trim_end_char(s, '/');
    if s.len() > 0 && s.last() == '/' {
        lemma_trimmed_is_prefix(s.drop_last());
        assert(s.drop_last().take(t.len() as int) =~= s.take(t.len() as int));
    } else {
        assert(s.take(s.len() as int) =~= s);
    }
}

proof fn lemma_last_at(s: Seq<char>, c: char)
    ensures
        -1 <= last_at(s, c) < s.len(),
        last_at(s, c) >= 0 ==> s[last_at(s, c)] == c,
    decreases s.len(),
{
    if s.len() > 0 && s.last() != c {
        lemma_last_at(s.drop_last(), c);
    }
}

} // verus!
