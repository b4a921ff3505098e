//! Paths as the preview reads them: `/`-separated, as on Unix. A path's
//! file name is its last component, and a relative path is joined to a
//! directory with one separator between them.
use vstd::prelude::*;

use crate::text::{append_str, chars_of, push_char};

verus! {

/// The index of the last separator in `p`, or -1 where it has none.
pub open spec fn last_separator(p: Seq<char>) -> int
    decreases p.len(),
{
    if p.len() == 0 {
        -1
    } else if p.last() == '/' {
        p.len() - 1
    } else {
        last_separator(p.drop_last())
    }
}

/// The last separator lies inside the path, and none follows it.
pub proof fn lemma_last_separator_range(p: Seq<char>)
    ensures
        -1 <= last_separator(p) < p.len(),
        last_separator(p) >= 0 ==> p[last_separator(p)] == '/',
        forall|j: int| last_separator(p) < j < p.len() ==> p[j] != '/',
    decreases p.len(),
{
    if p.len() > 0 && p.last() != '/' {
        lemma_last_separator_range(p.drop_last());
        assert forall|j: int| last_separator(p) < j < p.len() implies p[j] != '/' by {
            if j < p.len() - 1 {
                assert(p[j] == p.drop_last()[j]);
            }
        }
    }
}

/// A path's file name, as `Path::file_name` gives it: the last component
/// once trailing separators and `.` components are passed over; none when
/// the path has no component left or ends in `..`.
pub open spec fn path_file_name(p: Seq<char>) -> Option<Seq<char>>
    decreases p.len(),
{
    if p.len() == 0 {
        None
    } else if p.last() == '/' {
        path_file_name(p.drop_last())
    } else {
        let start = last_separator(p) + 1;
        proof {
            lemma_last_separator_range(p);
        }
        let piece = p.subrange(start, p.len() as int);
        if piece.len() == 1 && piece[0] == '.' {
            path_file_name(p.subrange(0, start))
        } else if piece.len() == 2 && piece[0] == '.' && piece[1] == '.' {
            None
        } else {
            Some(piece)
        }
    }
}

/// A file name holds no separator.
pub proof fn lemma_file_name_has_no_separator(p: Seq<char>)
    ensures
        path_file_name(p) matches Some(name) ==> forall|i: int|
            0 <= i < name.len() ==> #[trigger] name[i] != '/',
    decreases p.len(),
{
    if p.len() == 0 {
    } else if p.last() == '/' {
        lemma_file_name_has_no_separator(p.drop_last());
    } else {
        lemma_last_separator_range(p);
        let start = last_separator(p) + 1;
        let piece = p.subrange(start, p.len() as int);
        if piece.len() == 1 && piece[0] == '.' {
            lemma_file_name_has_no_separator(p.subrange(0, start));
        }
    }
}

/// The last separator of `p` is at `start - 1` where no separator lies in
/// `[start, len)` and `start` is 0 or follows a separator.
proof fn lemma_last_separator_at(p: Seq<char>, start: int)
    requires
        0 <= start <= p.len(),
        forall|j: int| start <= j < p.len() ==> p[j] != '/',
        start == 0 || p[start - 1] == '/',
    ensures
        last_separator(p) == start - 1,
    decreases p.len(),
{
    if p.len() > start {
        lemma_last_separator_at(p.drop_last(), start);
    }
}

/// The characters `chars[start..end]` as a string.
fn string_of_range(chars: &Vec<char>, start: usize, end: usize) -> (s: String)
    requires
        start <= end <= chars@.len(),
    ensures
        s@ == chars@.subrange(start as int, end as int),
{
    let mut s = String::new();
    assert(s@ =~= chars@.subrange(start as int, start as int));
    let mut i = start;
    while i < end
        invariant
            start <= i <= end <= chars@.len(),
            s@ == chars@.subrange(start as int, i as int),
        decreases end - i,
    {
        push_char(&mut s, chars[i]);
        assert(s@ =~= chars@.subrange(start as int, i + 1));
        i = i + 1;
    }
    s
}

/// The file name of a path (its last component), as `Path::file_name`
/// gives it.
pub fn file_name_of_path(path: &str) -> (name: Option<String>)
    ensures
        match name {
            Some(n) => path_file_name(path@) == Some(n@),
            None => path_file_name(path@) is None,
        },
{
    let chars = chars_of(path);
    let mut end = chars.len();
    assert(chars@.subrange(0, end as int) =~= path@);
    loop
        invariant
            end <= chars@.len(),
            chars@ == path@,
            path_file_name(chars@.subrange(0, end as int)) == path_file_name(path@),
        decreases end,
    {
        let ghost prefix = chars@.subrange(0, end as int);
        if end == 0 {
            return None;
        }
        if chars[end - 1] == '/' {
            assert(prefix.drop_last() =~= chars@.subrange(0, end - 1));
            end = end - 1;
        } else {
            let mut start = end - 1;
            while start > 0 && chars[start - 1] != '/'
                invariant
                    start < end <= chars@.len(),
                    forall|j: int| start <= j < end ==> chars@[j] != '/',
                decreases start,
            {
                start = start - 1;
            }
            proof {
                lemma_last_separator_at(prefix, start as int);
                assert(prefix.subrange(start as int, end as int) =~= chars@.subrange(
                    start as int,
                    end as int,
                ));
                assert(prefix.subrange(0, start as int) =~= chars@.subrange(0, start as int));
            }
            if end - start == 1 && chars[start] == '.' {
                end = start;
            } else if end - start == 2 && chars[start] == '.' && chars[start + 1] == '.' {
                return None;
            } else {
                return Some(string_of_range(&chars, start, end));
            }
        }
    }
}

/// Whether a path is absolute: it starts at the root.
pub open spec fn is_absolute_path(p: Seq<char>) -> bool {
    p.len() > 0 && p[0] == '/'
}

/// `dir` joined with the relative path `rest`, as `Path::join` does it: one
/// separator between them unless `dir` is empty or already ends in one.
pub open spec fn join_path(dir: Seq<char>, rest: Seq<char>) -> Seq<char> {
    if dir.len() > 0 && dir.last() != '/' {
        dir + seq!['/'] + rest
    } else {
        dir + rest
    }
}

/// Whether `path` is absolute.
pub fn path_is_absolute(path: &str) -> (absolute: bool)
    ensures
        absolute == is_absolute_path(path@),
{
    let chars = chars_of(path);
    chars.len() > 0 && chars[0] == '/'
}

/// `dir` joined with the relative path `rest`.
pub fn join_relative(dir: &str, rest: &str) -> (joined: String)
    ensures
        joined@ == join_path(dir@, rest@),
{
    let chars = chars_of(dir);
    let mut joined = String::new();
    append_str(&mut joined, dir);
    assert(joined@ =~= dir@);
    if chars.len() > 0 && chars[chars.len() - 1] != '/' {
        push_char(&mut joined, '/');
    }
    append_str(&mut joined, rest);
    joined
}

} // verus!
