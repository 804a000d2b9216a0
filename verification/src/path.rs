//! Paths as text: components are separated by `/`.
//!
//! Nothing here looks at a disk. The functions compose the paths of
//! directory entries from the path of their directory, and take file names
//! apart into stem and extension.

use crate::text::to_chars;
use vstd::prelude::*;

verus! {

/// Position of the last `c` in `s` before `end`, or -1 when there is none.
pub open spec fn last_index(s: Seq<char>, c: char, end: int) -> int
    decreases end,
{
    if end <= 0 || end > s.len() {
        -1
    } else if s[end - 1] == c {
        end - 1
    } else {
        last_index(s, c, end - 1)
    }
}

/// Length of the path without the separators at its end.
pub open spec fn trimmed_len(path: Seq<char>, end: int) -> int
    decreases end,
{
    if end <= 0 || end > path.len() {
        0
    } else if path[end - 1] != '/' {
        end
    } else {
        trimmed_len(path, end - 1)
    }
}

/// The path `name` taken from the directory `dir`. A `name` that starts
/// at the root stands for itself. Any other is put behind `dir`, with one
/// separator between the two, which is left out where `dir` is empty or
/// ends in one.
pub open spec fn join_spec(dir: Seq<char>, name: Seq<char>) -> Seq<char> {
    if is_absolute_spec(name) {
        name
    } else if dir.len() == 0 || dir.last() == '/' {
        dir + name
    } else {
        dir + seq!['/'] + name
    }
}

/// The final component of a path: the text between the last separator and
/// the end, separators at the end not counted. A path without such text
/// has none, nor has one that ends in the component `.` or `..`.
pub open spec fn file_name_spec(path: Seq<char>) -> Option<Seq<char>> {
    let end = trimmed_len(path, path.len() as int);
    let start = last_index(path, '/', end) + 1;
    let name = path.subrange(start, end);
    if name.len() == 0 || name == seq!['.'] || name == seq!['.', '.'] {
        None
    } else {
        Some(name)
    }
}

/// Where a file name divides into stem and extension: at its last `.`,
/// unless that is its first character or the name has none or is `..`.
/// Without such a place the result is the length of the name.
pub open spec fn extension_dot(name: Seq<char>) -> int {
    let dot = last_index(name, '.', name.len() as int);
    if dot <= 0 || name == seq!['.', '.'] {
        name.len() as int
    } else {
        dot
    }
}

/// The file name without its extension: the whole name where it has none.
pub open spec fn stem_spec(name: Seq<char>) -> Seq<char> {
    name.subrange(0, extension_dot(name))
}

/// The text behind the last `.` of a file name, if the name has an
/// extension.
pub open spec fn extension_spec(name: Seq<char>) -> Option<Seq<char>> {
    let dot = extension_dot(name);
    if dot < name.len() {
        Some(name.subrange(dot + 1, name.len() as int))
    } else {
        None
    }
}

/// The extension of the final component of a path; empty where the path
/// has no final component or that has no extension.
pub open spec fn path_extension_spec(path: Seq<char>) -> Seq<char> {
    match file_name_spec(path) {
        Some(name) => match extension_spec(name) {
            Some(ext) => ext,
            None => Seq::empty(),
        },
        None => Seq::empty(),
    }
}

/// A name can stand for an entry of a directory: it is not empty and
/// holds no separator.
pub open spec fn is_entry_name(name: Seq<char>) -> bool {
    name.len() > 0 && forall|i: int| 0 <= i < name.len() ==> name[i] != '/'
}

/// A path is absolute when it starts at the root.
pub open spec fn is_absolute_spec(path: Seq<char>) -> bool {
    path.len() > 0 && path[0] == '/'
}

fn find_last(s: &Vec<char>, c: char, end: usize) -> (r: Option<usize>)
    requires
        end <= s.len(),
    ensures
        match r {
            Some(i) => i == last_index(s@, c, end as int) && i < end,
            None => last_index(s@, c, end as int) == -1,
        },
{
    let mut i: usize = end;
    while i > 0
        invariant
            i <= end <= s.len(),
            last_index(s@, c, end as int) == last_index(s@, c, i as int),
        decreases i,
    {
        if s[i - 1] == c {
            return Some(i - 1);
        }
        i -= 1;
    }
    None
}

fn trim_separators(path: &Vec<char>) -> (end: usize)
    ensures
        end == trimmed_len(path@, path.len() as int),
        end <= path.len(),
{
    let mut end: usize = path.len();
    while end > 0 && path[end - 1] == '/'
        invariant
            end <= path.len(),
            trimmed_len(path@, path.len() as int) == trimmed_len(path@, end as int),
        decreases end,
    {
        end -= 1;
    }
    end
}

/// The path `name` taken from the directory `dir`; `name` itself where
/// it starts at the root.
pub fn join(dir: &str, name: &str) -> (r: String)
    ensures
        r@ == join_spec(dir@, name@),
{
    if is_absolute(name) {
        return name.to_owned();
    }
    let n: usize = dir.unicode_len();
    let mut out: String = dir.to_owned();
    if n > 0 && dir.get_char(n - 1) != '/' {
        proof {
            reveal_strlit("/");
            assert("/"@ =~= seq!['/']);
        }
        out.append("/");
    }
    out.append(name);
    out
}

/// The final component of a path, if it has one.
pub fn file_name(path: &str) -> (r: Option<String>)
    ensures
        match file_name_spec(path@) {
            Some(name) => r matches Some(s) && s@ == name,
            None => r is None,
        },
{
    let chars = to_chars(path);
    let end: usize = trim_separators(&chars);
    let start: usize = match find_last(&chars, '/', end) {
        Some(i) => i + 1,
        None => 0,
    };
    let ghost name = chars@.subrange(start as int, end as int);
    if end == start {
        return None;
    }
    if end - start == 1 && chars[start] == '.' {
        assert(name =~= seq!['.']);
        return None;
    }
    if end - start == 2 && chars[start] == '.' && chars[start + 1] == '.' {
        assert(name =~= seq!['.', '.']);
        return None;
    }
    proof {
        assert(name.len() == end - start);
        if name == seq!['.'] {
            assert(name.len() == 1 && name[0] == '.');
        }
        if name == seq!['.', '.'] {
            assert(name.len() == 2 && name[0] == '.' && name[1] == '.');
        }
        assert(name == path@.subrange(start as int, end as int));
        assert(file_name_spec(path@) == Some(name));
    }
    Some(path.substring_char(start, end).to_owned())
}

fn dot_of(name: &Vec<char>) -> (dot: usize)
    ensures
        dot == extension_dot(name@),
        dot <= name.len(),
{
    let len: usize = name.len();
    if len == 2 && name[0] == '.' && name[1] == '.' {
        assert(name@ =~= seq!['.', '.']);
        return len;
    }
    proof {
        if name@ == seq!['.', '.'] {
            assert(name@.len() == 2 && name@[0] == '.' && name@[1] == '.');
        }
    }
    match find_last(name, '.', len) {
        Some(i) => if i == 0 {
            len
        } else {
            i
        },
        None => len,
    }
}

/// The file name without its extension.
pub fn file_stem(name: &str) -> (r: String)
    ensures
        r@ == stem_spec(name@),
{
    let chars = to_chars(name);
    let dot: usize = dot_of(&chars);
    name.substring_char(0, dot).to_owned()
}

/// The extension of a file name, if it has one.
pub fn extension(name: &str) -> (r: Option<String>)
    ensures
        match extension_spec(name@) {
            Some(ext) => r matches Some(s) && s@ == ext,
            None => r is None,
        },
{
    let chars = to_chars(name);
    let dot: usize = dot_of(&chars);
    if dot < chars.len() {
        Some(name.substring_char(dot + 1, chars.len()).to_owned())
    } else {
        None
    }
}

/// The extension of the final component of a path; empty where there is
/// none.
pub fn path_extension(path: &str) -> (r: String)
    ensures
        r@ == path_extension_spec(path@),
{
    match file_name(path) {
        Some(name) => match extension(name.as_str()) {
            Some(ext) => ext,
            None => String::new(),
        },
        None => String::new(),
    }
}

/// Whether a name can stand for an entry of a directory.
pub fn entry_name(name: &str) -> (r: bool)
    ensures
        r == is_entry_name(name@),
{
    let chars = to_chars(name);
    chars.len() > 0 && crate::text::find_char(&chars, '/', 0) == chars.len()
}

/// Where `c` does not stand in `s` from `from` up to `end`, the last `c`
/// before `end` is the last one before `from`.
pub proof fn lemma_last_index_skips(s: Seq<char>, c: char, from: int, end: int)
    requires
        0 <= from <= end <= s.len(),
        forall|i: int| from <= i < end ==> s[i] != c,
    ensures
        last_index(s, c, end) == last_index(s, c, from),
    decreases end - from,
{
    if from < end {
        lemma_last_index_skips(s, c, from, end - 1);
    }
}

/// The final component of the path of an entry is the name of the entry,
/// unless the name is `.` or `..`, which are no final component.
pub proof fn lemma_file_name_of_join(dir: Seq<char>, name: Seq<char>)
    requires
        is_entry_name(name),
    ensures
        file_name_spec(join_spec(dir, name)) == if name == seq!['.'] || name == seq!['.', '.'] {
            None
        } else {
            Some(name)
        },
        dir.is_prefix_of(join_spec(dir, name)),
{
    let path = join_spec(dir, name);
    let start = path.len() - name.len();
    assert(path.subrange(start, path.len() as int) =~= name);
    assert forall|i: int| start <= i < path.len() implies path[i] != '/' by {
        assert(path[i] == name[i - start]);
    }
    assert(path[path.len() - 1] == name[name.len() - 1]);
    assert(trimmed_len(path, path.len() as int) == path.len());
    lemma_last_index_skips(path, '/', start, path.len() as int);
    if start > 0 {
        assert(path[start - 1] == '/');
        assert(last_index(path, '/', start) == start - 1);
    } else {
        assert(last_index(path, '/', start) == -1);
    }
    assert(dir =~= path.subrange(0, dir.len() as int));
}

/// The path of an entry is longer than the path of its directory.
pub proof fn lemma_join_longer(dir: Seq<char>, name: Seq<char>)
    requires
        is_entry_name(name),
    ensures
        join_spec(dir, name).len() > dir.len(),
        join_spec(dir, name) != dir,
{
}

/// Whether a path starts at the root.
pub fn is_absolute(path: &str) -> (r: bool)
    ensures
        r == is_absolute_spec(path@),
{
    path.unicode_len() > 0 && path.get_char(0) == '/'
}

} // verus!
