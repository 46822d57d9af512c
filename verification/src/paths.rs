//! File names and joins of slash-separated paths.

use crate::text::chars_between;
use crate::text::chars_of;
use vstd::prelude::*;

verus! {

/// Where the last component of `path` starts.
pub open spec fn component_start(path: Seq<char>) -> int
    decreases path.len(),
{
    if path.len() == 0 {
        0
    } else if path.last() == '/' {
        path.len() as int
    } else {
        component_start(path.drop_last())
    }
}

/// The final component of a path, if it is a name: separators and lone dots at
/// the end are passed over, a leading dot or a parent component is no name.
pub open spec fn file_name_spec(path: Seq<char>) -> Option<Seq<char>>
    decreases path.len(),
{
    if path.len() == 0 {
        None
    } else if path.last() == '/' {
        file_name_spec(path.drop_last())
    } else {
        let start = component_start(path);
        let component = path.skip(start);
        if component == seq!['.'] {
            if start == 0 {
                None
            } else {
                file_name_spec(path.take(path.len() - 1))
            }
        } else if component == seq!['.', '.'] {
            None
        } else {
            Some(component)
        }
    }
}

proof fn lemma_component_start_bounds(path: Seq<char>)
    ensures
        0 <= component_start(path) <= path.len(),
        forall|i: int| component_start(path) <= i < path.len() ==> path[i] != '/',
        component_start(path) > 0 ==> path[component_start(path) - 1] == '/',
    decreases path.len(),
{
    if path.len() > 0 && path.last() != '/' {
        let shorter = path.drop_last();
        lemma_component_start_bounds(shorter);
        assert forall|i: int| component_start(path) <= i < path.len() implies path[i] != '/' by {
            if i < shorter.len() {
                assert(shorter[i] != '/');
            }
        }
    }
}

proof fn lemma_component_start_is(path: Seq<char>, start: int)
    requires
        0 <= start <= path.len(),
        forall|i: int| start <= i < path.len() ==> path[i] != '/',
        start > 0 ==> path[start - 1] == '/',
    ensures
        component_start(path) == start,
{
    lemma_component_start_bounds(path);
}

/// The final component of `path`, if it is a name.
pub fn file_name(path: &str) -> (name: Option<Vec<char>>)
    ensures
        match name {
            Some(chars) => file_name_spec(path@) == Some(chars@),
            None => file_name_spec(path@) is None,
        },
{
    let chars = chars_of(path);
    let mut end: usize = chars.len();
    assert(chars@.take(end as int) == chars@);
    while end > 0
        invariant
            end <= chars.len(),
            file_name_spec(chars@.take(end as int)) == file_name_spec(path@),
        decreases end,
    {
        let ghost here = chars@.take(end as int);
        if chars[end - 1] == '/' {
            assert(here.drop_last() == chars@.take(end - 1));
            end = end - 1;
            continue;
        }
        let mut start: usize = end - 1;
        while start > 0 && chars[start - 1] != '/'
            invariant
                start < end <= chars.len(),
                forall|i: int| start <= i < end ==> chars@[i] != '/',
            decreases start,
        {
            start = start - 1;
        }
        proof {
            lemma_component_start_is(here, start as int);
        }
        let component = chars_between(&chars, start, end);
        assert(component@ == here.skip(start as int));
        if component.len() == 1 && component[0] == '.' {
            assert(component@ == seq!['.']);
            if start == 0 {
                return None;
            }
            assert(here.take(here.len() - 1) == chars@.take(end - 1));
            end = end - 1;
            continue;
        }
        assert(component@ != seq!['.']);
        if component.len() == 2 && component[0] == '.' && component[1] == '.' {
            assert(component@ == seq!['.', '.']);
            return None;
        }
        assert(component@ != seq!['.', '.']);
        return Some(component);
    }
    None
}

/// The path of a relative name inside a directory.
pub open spec fn joined(directory: Seq<char>, name: Seq<char>) -> Seq<char> {
    if directory.len() == 0 || directory.last() == '/' {
        directory + name
    } else {
        directory.push('/') + name
    }
}

/// The path of a relative name inside a directory.
pub fn join(directory: &str, name: &str) -> (path: String)
    ensures
        path@ == joined(directory@, name@),
{
    let chars = chars_of(directory);
    let mut path = directory.to_owned();
    if chars.len() > 0 && chars[chars.len() - 1] != '/' {
        proof {
            reveal_strlit("/");
        }
        path.append("/");
        assert(path@ == directory@.push('/'));
    }
    path.append(name);
    path
}

} // verus!
