use vstd::prelude::*;
use super::error::ReadError;

verus! {

/// Returns a copy of the last element of `src`, or `EmptyPath` when there is
/// none.
pub fn get_last_vec_element(src: &Vec<String>) -> (last: Result<String, ReadError>)
    ensures
        src@.len() == 0 ==> last == Err::<String, ReadError>(ReadError::EmptyPath),
        src@.len() > 0 ==> last is Ok && last->Ok_0@ == src.deep_view().last(),
{
    let n: usize = src.len();
    if n == 0 {
        Err(ReadError::EmptyPath)
    } else {
        Ok(src[n - 1].clone())
    }
}

/// Structural equality of two tag paths: same length, same names in order.
pub fn same_tag_hierarchy(left: &Vec<String>, right: &Vec<String>) -> (same: bool)
    ensures
        same == (left.deep_view() == right.deep_view()),
{
    if left.len() != right.len() {
        assert(left.deep_view().len() != right.deep_view().len());
        return false;
    }
    let mut i: usize = 0;
    while i < left.len()
        invariant
            left@.len() == right@.len(),
            i <= left@.len(),
            forall|j: int| 0 <= j < i ==> left@[j]@ == right@[j]@,
        decreases left@.len() - i,
    {
        if left[i] != right[i] {
            assert(left.deep_view()[i as int] != right.deep_view()[i as int]);
            return false;
        }
        i += 1;
    }
    assert(left.deep_view() =~= right.deep_view());
    true
}

/// An independent copy of a tag path.
pub fn clone_tag_hierarchy(src: &Vec<String>) -> (copy: Vec<String>)
    ensures
        copy.deep_view() == src.deep_view(),
{
    let mut copy: Vec<String> = Vec::new();
    let mut i: usize = 0;
    while i < src.len()
        invariant
            i <= src@.len(),
            copy@.len() == i,
            forall|j: int| 0 <= j < i ==> copy@[j]@ == src@[j]@,
        decreases src@.len() - i,
    {
        copy.push(src[i].clone());
        i += 1;
    }
    assert(copy.deep_view() =~= src.deep_view());
    copy
}

} // verus!
