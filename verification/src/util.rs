//! Small helpers: turning an optional result inside out, and picking the
//! paths that exist.

use vstd::prelude::*;
use std::path::Path;

verus! {

/// `std::path::Path`, carried through unread.
#[verifier::external_type_specification]
#[verifier::external_body]
pub struct ExPath(Path);

/// `Path::exists`: whether the path points at an existing entity. The answer
/// is the file system's at the moment of the call, so nothing is promised of
/// it.
#[verifier::external_body]
fn path_exists(path: &Path) -> bool {
    path.exists()
}

/// Turns an optional result into a result of an option: an absent value is a
/// success without a value, a present one succeeds or fails as it did.
pub fn transpose<T, E>(opt: Option<Result<T, E>>) -> (r: Result<Option<T>, E>)
    ensures
        r == match opt {
            None => Ok::<Option<T>, E>(None),
            Some(Ok(value)) => Ok(Some(value)),
            Some(Err(e)) => Err(e),
        },
{
    match opt {
        None => Ok(None),
        Some(Ok(value)) => Ok(Some(value)),
        Some(Err(e)) => Err(e),
    }
}

/// The first of `paths` that is found to exist when probed in order. Whatever
/// the file system answers, the result is one of `paths`, and none where
/// there is no path to probe.
pub fn get_first_existing_path<'a>(paths: &[&'a Path]) -> (r: Option<&'a Path>)
    ensures
        r matches Some(path) ==> paths@.contains(path),
        paths@.len() == 0 ==> r is None,
{
    let mut answers: Vec<bool> = Vec::new();
    let mut found = false;
    while answers.len() < paths.len() && !found
        invariant
            answers@.len() <= paths@.len(),
        decreases paths@.len() - answers@.len(), if found { 0int } else { 1int },
    {
        found = path_exists(paths[answers.len()]);
        answers.push(found);
    }
    first_existing(paths, answers.as_slice())
}

/// The first of the items whose answer, at the same place among the answers,
/// is yes. An item without an answer counts as one whose answer is no.
pub open spec fn first_answered<T>(items: Seq<T>, answers: Seq<bool>) -> Option<T>
    decreases items.len(),
{
    if items.len() == 0 || answers.len() == 0 {
        None
    } else if answers[0] {
        Some(items[0])
    } else {
        first_answered(items.drop_first(), answers.drop_first())
    }
}

/// The first of `paths` that exists, where `exists` holds for each path, at
/// the same place, what probing it answered.
pub fn first_existing<'a>(paths: &[&'a Path], exists: &[bool]) -> (r: Option<&'a Path>)
    ensures
        r == first_answered(paths@, exists@),
        r matches Some(path) ==> paths@.contains(path),
{
    let mut i: usize = 0;
    assert(paths@.skip(0) == paths@ && exists@.skip(0) == exists@);
    while i < paths.len() && i < exists.len()
        invariant
            i <= paths@.len(),
            i <= exists@.len(),
            first_answered(paths@, exists@) == first_answered(
                paths@.skip(i as int),
                exists@.skip(i as int),
            ),
        decreases paths@.len() - i,
    {
        assert(paths@.skip(i as int)[0] == paths@[i as int]);
        assert(exists@.skip(i as int)[0] == exists@[i as int]);
        if exists[i] {
            return Some(paths[i]);
        }
        assert(paths@.skip(i as int).drop_first() == paths@.skip(i + 1));
        assert(exists@.skip(i as int).drop_first() == exists@.skip(i + 1));
        i += 1;
    }
    None
}

/// Whether `picked` lists, in increasing order, positions of a sequence of
/// length `len`.
pub open spec fn increasing_positions(picked: Seq<int>, len: nat) -> bool {
    &&& forall|k: int| 0 <= k < picked.len() ==> 0 <= #[trigger] picked[k] < len
    &&& forall|j: int, k: int| 0 <= j < k < picked.len() ==> picked[j] < picked[k]
}

/// Those of `paths` that are found to exist when probed in order. Whatever the
/// file system answers, the result keeps some of `paths`, each at most once
/// and in the order they came in.
pub fn get_all_existing_paths<'a>(paths: &[&'a Path]) -> (r: Vec<&'a Path>)
    ensures
        exists|picked: Seq<int>|
            {
                &&& increasing_positions(picked, paths@.len())
                &&& picked.len() == r@.len()
                &&& forall|k: int| 0 <= k < picked.len() ==> r@[k] == paths@[#[trigger] picked[k]]
            },
{
    let mut existing: Vec<&'a Path> = Vec::new();
    let ghost mut picked: Seq<int> = Seq::empty();
    let mut i: usize = 0;
    while i < paths.len()
        invariant
            i <= paths@.len(),
            increasing_positions(picked, i as nat),
            picked.len() == existing@.len(),
            forall|k: int| 0 <= k < picked.len() ==> existing@[k] == paths@[#[trigger] picked[k]],
        decreases paths@.len() - i,
    {
        if path_exists(paths[i]) {
            existing.push(paths[i]);
            proof {
                picked = picked.push(i as int);
            }
        }
        i += 1;
    }
    existing
}

} // verus!
