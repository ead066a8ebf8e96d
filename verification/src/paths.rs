//! The names that paths end in.
use vstd::prelude::*;
use vstd::slice::*;

use crate::text::{chars_of, text_of};

verus! {

/// Where the last part of a path starts: behind its last slash.
pub open spec fn last_part(path: Seq<char>) -> int
    decreases path.len(),
{
    if path.len() == 0 || path.last() == '/' {
        path.len() as int
    } else {
        last_part(path.drop_last())
    }
}

/// Where the last part of a path that names something starts and ends: empty
/// parts and `.` at the end are passed over, and `..` is no name.
pub open spec fn name_span(path: Seq<char>) -> Option<(int, int)>
    decreases path.len(),
{
    proof {
        lemma_last_part(path);
    }
    let start = last_part(path);
    let part = path.skip(start);
    if part.len() == 0 || part == seq!['.'] {
        if start == 0 {
            None
        } else {
            name_span(path.take(start - 1))
        }
    } else if part == seq!['.', '.'] {
        None
    } else {
        Some((start, path.len() as int))
    }
}

/// The last part of a path that names something.
pub open spec fn final_name(path: Seq<char>) -> Option<Seq<char>> {
    match name_span(path) {
        Some((start, end)) => Some(path.subrange(start, end)),
        None => None,
    }
}

/// The name has an extension: a dot that is not its first character.
pub open spec fn has_extension(name: Seq<char>) -> bool {
    exists|i: int| 0 < i < name.len() && #[trigger] name[i] == '.'
}

/// The path with an extension, if what it leads to has none. A path without a
/// name is left as it is.
pub open spec fn with_default_extension(path: Seq<char>, extension: Seq<char>) -> Seq<char> {
    match name_span(path) {
        Some((start, end)) => if has_extension(path.subrange(start, end)) {
            path
        } else {
            path.take(end) + seq!['.'] + extension
        },
        None => path,
    }
}

pub proof fn lemma_last_part(path: Seq<char>)
    ensures
        0 <= last_part(path) <= path.len(),
    decreases path.len(),
{
    if path.len() > 0 && path.last() != '/' {
        lemma_last_part(path.drop_last());
    }
}

fn find_last_part(path: &[char], end: usize) -> (start: usize)
    requires
        end <= path@.len(),
    ensures
        start == last_part(path@.take(end as int)),
        start <= end,
{
    let mut start: usize = end;
    assert(path@.take(end as int) =~= path@.take(start as int));
    while start > 0 && path[start - 1] != '/'
        invariant
            start <= end <= path@.len(),
            last_part(path@.take(end as int)) == last_part(path@.take(start as int)),
        decreases start,
    {
        assert(path@.take(start as int).drop_last() =~= path@.take(start - 1));
        start = start - 1;
    }
    start
}

fn find_name(chars: &[char]) -> (span: Option<(usize, usize)>)
    ensures
        match span {
            Some((start, end)) => name_span(chars@) == Some((start as int, end as int)) && start
                <= end <= chars@.len(),
            None => name_span(chars@) is None,
        },
{
    let mut end: usize = chars.len();
    assert(chars@.take(end as int) =~= chars@);
    loop
        invariant
            end <= chars@.len(),
            name_span(chars@) == name_span(chars@.take(end as int)),
        decreases end,
    {
        let start: usize = find_last_part(chars, end);
        let ghost part = chars@.take(end as int).skip(start as int);
        let length: usize = end - start;
        assert(part =~= chars@.subrange(start as int, end as int));
        if length == 0 || (length == 1 && chars[start] == '.') {
            assert(part.len() == 0 || part =~= seq!['.']);
            if start == 0 {
                return None;
            }
            assert(chars@.take(end as int).take(start - 1) =~= chars@.take(start - 1));
            end = start - 1;
        } else {
            assert(part.len() > 0 && part != seq!['.']) by {
                assert(part[0] == chars@[start as int]);
            }
            if length == 2 && chars[start] == '.' && chars[start + 1] == '.' {
                assert(part =~= seq!['.', '.']);
                return None;
            }
            assert(part != seq!['.', '.']) by {
                if part == seq!['.', '.'] {
                    assert(part[0] == chars@[start as int] && part[1] == chars@[start + 1]);
                }
            }
            return Some((start, end));
        }
    }
}

/// The name of the file that a path leads to, as Unix reads paths.
pub fn file_name(path: &str) -> (name: Option<String>)
    ensures
        match name {
            Some(name) => final_name(path@) == Some(name@),
            None => final_name(path@) is None,
        },
{
    let chars: Vec<char> = chars_of(path);
    match find_name(chars.as_slice()) {
        Some((start, end)) => Some(text_of(slice_subrange(chars.as_slice(), start, end))),
        None => None,
    }
}

/// Gives a path an extension, if what it leads to has none.
pub fn default_extension(path: &str, extension: &str) -> (full: String)
    ensures
        full@ == with_default_extension(path@, extension@),
{
    let chars: Vec<char> = chars_of(path);
    let (start, end) = match find_name(chars.as_slice()) {
        Some(span) => span,
        None => {
            return path.to_owned();
        },
    };
    let ghost name = chars@.subrange(start as int, end as int);
    let mut at: usize = start;
    while at < end
        invariant
            start <= at <= end <= chars@.len(),
            chars@ == path@,
            name_span(path@) == Some((start as int, end as int)),
            name == path@.subrange(start as int, end as int),
            forall|i: int| 0 < i < at - start ==> #[trigger] name[i] != '.',
        decreases end - at,
    {
        if at > start && chars[at] == '.' {
            assert(name[at - start] == '.');
            return path.to_owned();
        }
        assert(name[at - start] == chars@[at as int]);
        at = at + 1;
    }
    let mut full: String = text_of(slice_subrange(chars.as_slice(), 0, end));
    assert(full@ =~= path@.take(end as int));
    full.push('.');
    full.append(extension);
    assert(full@ =~= path@.take(end as int) + seq!['.'] + extension@);
    full
}

proof fn lemma_part_behind_slash(front: Seq<char>, name: Seq<char>)
    requires
        front.len() > 0 ==> front.last() == '/',
        forall|i: int| 0 <= i < name.len() ==> #[trigger] name[i] != '/',
    ensures
        last_part(front + name) == front.len(),
    decreases name.len(),
{
    let path = front + name;
    if name.len() == 0 {
        assert(path =~= front);
    } else {
        assert(path.last() == name.last());
        assert(path.drop_last() =~= front + name.drop_last());
        lemma_part_behind_slash(front, name.drop_last());
    }
}

/// A path ends in what stands behind its last slash, and a slash at the end of it
/// does not matter.
pub proof fn a_path_ends_in_a_name(front: Seq<char>, name: Seq<char>)
    requires
        front.len() > 0 ==> front.last() == '/',
        name.len() > 0,
        name != seq!['.'],
        name != seq!['.', '.'],
        forall|i: int| 0 <= i < name.len() ==> #[trigger] name[i] != '/',
    ensures
        final_name(front + name) == Some(name),
        final_name((front + name).push('/')) == Some(name),
{
    let path = front + name;
    lemma_part_behind_slash(front, name);
    assert(path.skip(front.len() as int) =~= name);
    assert(path.subrange(front.len() as int, path.len() as int) =~= name);
    let longer = path.push('/');
    assert(longer.last() == '/');
    assert(longer.skip(longer.len() as int).len() == 0);
    assert(longer.take(longer.len() - 1) =~= path);
    assert(longer.subrange(front.len() as int, path.len() as int) =~= name);
}

/// A name without an extension gets the default one, a name with an extension
/// keeps its own.
pub proof fn a_missing_extension_is_added(
    front: Seq<char>,
    name: Seq<char>,
    extension: Seq<char>,
    dot: int,
)
    requires
        front.len() > 0 ==> front.last() == '/',
        name.len() > 0,
        name != seq!['.'],
        name != seq!['.', '.'],
        forall|i: int| 0 <= i < name.len() ==> #[trigger] name[i] != '/',
    ensures
        (forall|i: int| 0 < i < name.len() ==> #[trigger] name[i] != '.')
            ==> with_default_extension(front + name, extension) == front + name + seq!['.']
            + extension,
        0 < dot < name.len() && name[dot] == '.' ==> with_default_extension(front + name, extension)
            == front + name,
{
    let path = front + name;
    a_path_ends_in_a_name(front, name);
    lemma_part_behind_slash(front, name);
    assert(path.skip(front.len() as int) =~= name);
    assert(path.subrange(front.len() as int, path.len() as int) =~= name);
    assert(path.take(path.len() as int) =~= path);
}

} // verus!
