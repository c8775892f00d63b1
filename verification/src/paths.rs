//! Reading a `/`-separated path: its final component, that component's stem
//! and extension, and the directory the component lies in.
//!
//! Separators that follow one another count as one, a `.` component after the
//! first names nothing, and a path that ends in `..` or in the root has no
//! file name.

use vstd::prelude::*;
use crate::text::{chars_of, text_of};

verus! {

/// The offset of the last `c` in `s`, or -1 where there is none.
pub open spec fn last_index_of(s: Seq<char>, c: char) -> int
    decreases s.len(),
{
    if s.len() == 0 {
        -1
    } else if s.last() == c {
        s.len() - 1
    } else {
        last_index_of(s.drop_last(), c)
    }
}

/// `path` ends in a `.` component that follows a separator.
pub open spec fn ends_in_dot_component(path: Seq<char>) -> bool {
    path.len() >= 2 && path[path.len() - 1] == '.' && path[path.len() - 2] == '/'
}

/// Where the final component of `path` begins and ends: trailing separators
/// and trailing `.` components are passed over. `None` for the empty path and
/// for a path made of separators and dots that name nothing.
pub open spec fn final_component(path: Seq<char>) -> Option<(int, int)>
    decreases path.len(),
{
    if path.len() == 0 {
        None
    } else if path.last() == '/' || ends_in_dot_component(path) {
        final_component(path.drop_last())
    } else {
        Some((last_index_of(path, '/') + 1, path.len() as int))
    }
}

/// The file name of `path`: its final component, unless that is `.` or `..`.
pub open spec fn name_of(path: Seq<char>) -> Option<Seq<char>> {
    match final_component(path) {
        None => None,
        Some((start, end)) => {
            let name = path.subrange(start, end);
            if name == seq!['.'] || name == seq!['.', '.'] {
                None
            } else {
                Some(name)
            }
        },
    }
}

/// The extension of a file name: what follows its last dot. A name without a
/// dot, or whose only dot comes first, has none.
pub open spec fn extension_of_name(name: Seq<char>) -> Option<Seq<char>> {
    let dot = last_index_of(name, '.');
    if dot <= 0 || name == seq!['.', '.'] {
        None
    } else {
        Some(name.subrange(dot + 1, name.len() as int))
    }
}

/// The stem of a file name: what precedes the dot of its extension, or the
/// whole name where it has no extension.
pub open spec fn stem_of_name(name: Seq<char>) -> Seq<char> {
    let dot = last_index_of(name, '.');
    if dot <= 0 || name == seq!['.', '.'] {
        name
    } else {
        name.take(dot)
    }
}

/// The extension of the file that `path` names.
pub open spec fn extension_of(path: Seq<char>) -> Option<Seq<char>> {
    match name_of(path) {
        None => None,
        Some(name) => extension_of_name(name),
    }
}

/// Whether `path` names a hidden file: one whose name begins with a dot.
pub open spec fn is_hidden_path(path: Seq<char>) -> bool {
    match name_of(path) {
        None => false,
        Some(name) => name.len() > 0 && name[0] == '.',
    }
}

/// How many leading characters of `path` no trimming may remove: the root
/// separator, or a leading `.` component.
pub open spec fn anchor_len(path: Seq<char>) -> int {
    if path.len() == 0 {
        0
    } else if path[0] == '/' {
        1
    } else if path[0] == '.' && (path.len() == 1 || path[1] == '/') {
        1
    } else {
        0
    }
}

/// `dir` without the separators and `.` components that end it, the first
/// `keep` characters left alone.
pub open spec fn trimmed_dir(dir: Seq<char>, keep: int) -> Seq<char>
    decreases dir.len(),
{
    if dir.len() <= keep || dir.len() == 0 {
        dir
    } else if dir.last() == '/' || ends_in_dot_component(dir) {
        trimmed_dir(dir.drop_last(), keep)
    } else {
        dir
    }
}

/// The directory that the final component of `path` lies in; empty for a lone
/// component, `None` where there is no final component.
pub open spec fn parent_of(path: Seq<char>) -> Option<Seq<char>> {
    match final_component(path) {
        None => None,
        Some((start, end)) => Some(trimmed_dir(path.take(start), anchor_len(path))),
    }
}

/// The last dot or separator lies inside the text, and nothing after it is one.
pub proof fn lemma_last_index_of(s: Seq<char>, c: char)
    ensures
        -1 <= last_index_of(s, c) < s.len(),
        last_index_of(s, c) >= 0 ==> s[last_index_of(s, c)] == c,
        forall|k: int| last_index_of(s, c) < k < s.len() ==> s[k] != c,
    decreases s.len(),
{
    if s.len() > 0 && s.last() != c {
        let init = s.drop_last();
        lemma_last_index_of(init, c);
        assert forall|k: int| last_index_of(s, c) < k < s.len() implies s[k] != c by {
            if k < init.len() {
                assert(init[k] == s[k]);
            }
        }
    }
}

/// The final component lies inside the path, is not empty and holds no
/// separator.
pub proof fn lemma_final_component(path: Seq<char>)
    ensures
        final_component(path) matches Some((start, end)) ==> {
            &&& 0 <= start < end <= path.len()
            &&& !path.subrange(start, end).contains('/')
        },
    decreases path.len(),
{
    if path.len() > 0 {
        if path.last() == '/' || ends_in_dot_component(path) {
            let short = path.drop_last();
            lemma_final_component(short);
            if let Some((start, end)) = final_component(short) {
                assert(path.subrange(start, end) =~= short.subrange(start, end));
            }
        } else {
            lemma_last_index_of(path, '/');
        }
    }
}

/// The offset of the last `c` among the first `end` characters, if any.
pub fn last_index_before(chars: &Vec<char>, end: usize, c: char) -> (found: Option<usize>)
    requires
        end <= chars.len(),
    ensures
        match found {
            Some(at) => at < end && at as int == last_index_of(chars@.take(end as int), c),
            None => last_index_of(chars@.take(end as int), c) == -1,
        },
{
    let mut i = end;
    while i > 0
        invariant
            i <= end <= chars.len(),
            last_index_of(chars@.take(end as int), c) == last_index_of(chars@.take(i as int), c),
        decreases i,
    {
        proof {
            let head = chars@.take(i as int);
            assert(head.drop_last() =~= chars@.take(i - 1));
        }
        if chars[i - 1] == c {
            return Some(i - 1);
        }
        i -= 1;
    }
    None
}

/// Where the final component of the path begins and ends.
pub fn final_component_span(path: &Vec<char>) -> (span: Option<(usize, usize)>)
    ensures
        match span {
            Some((start, end)) => final_component(path@) == Some((start as int, end as int)),
            None => final_component(path@) is None,
        },
{
    let mut end = path.len();
    assert(path@.take(end as int) =~= path@);
    while end > 0
        invariant
            end <= path.len(),
            final_component(path@) == final_component(path@.take(end as int)),
        decreases end,
    {
        let ghost head = path@.take(end as int);
        proof {
            assert(head.drop_last() =~= path@.take(end - 1));
        }
        if path[end - 1] == '/' || (end >= 2 && path[end - 1] == '.' && path[end - 2] == '/') {
            end -= 1;
        } else {
            let start = match last_index_before(path, end, '/') {
                Some(at) => at + 1,
                None => 0,
            };
            return Some((start, end));
        }
    }
    None
}

/// The file name of `path`.
pub fn file_name(path: &str) -> (name: Option<String>)
    ensures
        match name {
            Some(n) => name_of(path@) == Some(n@),
            None => name_of(path@) is None,
        },
{
    let chars = chars_of(path);
    match final_component_span(&chars) {
        None => None,
        Some((start, end)) => {
            proof {
                lemma_final_component(chars@);
            }
            let ghost name = chars@.subrange(start as int, end as int);
            let one_dot = end - start == 1 && chars[start] == '.';
            let two_dots = end - start == 2 && chars[start] == '.' && chars[start + 1] == '.';
            proof {
                if one_dot {
                    assert(name =~= seq!['.']);
                }
                if two_dots {
                    assert(name =~= seq!['.', '.']);
                }
                if name == seq!['.'] {
                    assert(name.len() == 1 && name[0] == '.');
                }
            }
            if one_dot || two_dots {
                None
            } else {
                Some(text_of(&chars, start, end))
            }
        },
    }
}

/// Where the extension of the name begins, if the name has one.
pub fn extension_start(name: &Vec<char>) -> (found: Option<usize>)
    ensures
        match found {
            Some(start) => {
                &&& 2 <= start <= name.len()
                &&& extension_of_name(name@) == Some(name@.subrange(start as int, name.len() as int))
                &&& stem_of_name(name@) == name@.take(start - 1)
            },
            None => extension_of_name(name@) is None && stem_of_name(name@) == name@,
        },
{
    assert(name@.take(name.len() as int) =~= name@);
    proof {
        lemma_last_index_of(name@, '.');
    }
    if name.len() == 2 && name[0] == '.' && name[1] == '.' {
        assert(name@ =~= seq!['.', '.']);
        return None;
    }
    match last_index_before(name, name.len(), '.') {
        None => None,
        Some(dot) => {
            if dot == 0 {
                None
            } else {
                Some(dot + 1)
            }
        },
    }
}

/// The extension of the file that `path` names.
pub fn extension(path: &str) -> (ext: Option<String>)
    ensures
        match ext {
            Some(e) => extension_of(path@) == Some(e@),
            None => extension_of(path@) is None,
        },
{
    match file_name(path) {
        None => None,
        Some(name) => {
            let chars = chars_of(name.as_str());
            match extension_start(&chars) {
                None => None,
                Some(start) => Some(text_of(&chars, start, chars.len())),
            }
        },
    }
}

/// Whether `path` names a hidden file.
pub fn is_hidden(path: &str) -> (hidden: bool)
    ensures
        hidden == is_hidden_path(path@),
{
    match file_name(path) {
        None => false,
        Some(name) => {
            let chars = chars_of(name.as_str());
            chars.len() > 0 && chars[0] == '.'
        },
    }
}

/// The directory that the final component of `path` lies in.
pub fn parent(path: &str) -> (dir: Option<String>)
    ensures
        match dir {
            Some(d) => parent_of(path@) == Some(d@),
            None => parent_of(path@) is None,
        },
{
    let chars = chars_of(path);
    match final_component_span(&chars) {
        None => None,
        Some((start, _end)) => {
            proof {
                lemma_final_component(chars@);
            }
            let keep: usize = if chars.len() == 0 {
                0
            } else if chars[0] == '/' {
                1
            } else if chars[0] == '.' && (chars.len() == 1 || chars[1] == '/') {
                1
            } else {
                0
            };
            let mut end = start;
            while end > keep && end > 0 && (chars[end - 1] == '/' || (end >= 2 && chars[end - 1]
                == '.' && chars[end - 2] == '/'))
                invariant
                    end <= start <= chars.len(),
                    trimmed_dir(chars@.take(start as int), keep as int) == trimmed_dir(
                        chars@.take(end as int),
                        keep as int,
                    ),
                decreases end,
            {
                assert(chars@.take(end as int).drop_last() =~= chars@.take(end - 1));
                end -= 1;
            }
            Some(text_of(&chars, 0, end))
        },
    }
}

} // verus!
