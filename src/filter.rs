//! Looking names up in lists: the identity filter and column resolution.
use vstd::prelude::*;

verus! {

/// `name` occurs in `list`.
pub open spec fn listed(list: Seq<String>, name: Seq<char>) -> bool {
    exists|i: int| 0 <= i < list.len() && (#[trigger] list[i])@ == name
}

/// `i` is the first position of `name` in `list`.
pub open spec fn first_position(list: Seq<String>, name: Seq<char>, i: int) -> bool {
    &&& 0 <= i < list.len()
    &&& list[i]@ == name
    &&& forall|j: int| 0 <= j < i ==> (#[trigger] list[j])@ != name
}

/// Whether `name` occurs in `list`.
pub fn is_listed(list: &Vec<String>, name: &String) -> (r: bool)
    ensures
        r == listed(list@, name@),
{
    match resolve_column(list, name) {
        Some(_) => true,
        None => false,
    }
}

/// The first position of `name` among `headers`, if it occurs.
pub fn resolve_column(headers: &Vec<String>, name: &String) -> (r: Option<usize>)
    ensures
        r is None <==> !listed(headers@, name@),
        r matches Some(i) ==> first_position(headers@, name@, i as int),
{
    let mut i: usize = 0;
    while i < headers.len()
        invariant
            0 <= i <= headers@.len(),
            forall|j: int| 0 <= j < i ==> (#[trigger] headers@[j])@ != name@,
        decreases headers@.len() - i,
    {
        if headers[i] == *name {
            return Some(i);
        }
        i = i + 1;
    }
    None
}

/// How a record is treated, by its identifier.
#[derive(Clone, Copy, Debug, PartialEq, Eq, Structural)]
pub enum Class {
    /// Dropped before it competes.
    Excluded,
    /// Kept with a key above every computed key.
    Forced,
    /// Competes by its weight.
    Normal,
}

/// The class of identifier `id`; being excluded wins over being forced in.
pub open spec fn class_of(id: Seq<char>, forced: Seq<String>, exclude: Seq<String>) -> Class {
    if listed(exclude, id) {
        Class::Excluded
    } else if listed(forced, id) {
        Class::Forced
    } else {
        Class::Normal
    }
}

/// Classifies identifier `id` against the forced and exclude lists.
pub fn classify(id: &String, forced: &Vec<String>, exclude: &Vec<String>) -> (r: Class)
    ensures
        r == class_of(id@, forced@, exclude@),
{
    if is_listed(exclude, id) {
        Class::Excluded
    } else if is_listed(forced, id) {
        Class::Forced
    } else {
        Class::Normal
    }
}

} // verus!
