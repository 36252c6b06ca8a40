//! Identifiers and lists of identifiers.
//!
//! A voter or a candidate is identified by a `String`; contracts speak of an
//! identifier through its characters, a [`Name`].

use vstd::prelude::*;

verus! {

/// What an identifier is in contracts: its sequence of characters.
pub type Name = Seq<char>;

/// The names held by a list of identifiers, in the list's order.
pub open spec fn names(list: Seq<String>) -> Seq<Name> {
    Seq::new(list.len(), |i: int| list[i]@)
}

/// Appending an identifier appends its name.
pub proof fn lemma_names_push(list: Seq<String>, id: String)
    ensures
        names(list.push(id)) == names(list).push(id@),
{
    assert(names(list.push(id)) =~= names(list).push(id@));
}

/// A list without repetition stays one when a name that it lacks is appended,
/// and then holds what it held and that name.
pub proof fn lemma_push_fresh(list: Seq<Name>, name: Name)
    ensures
        forall|x: Name| #[trigger] list.push(name).contains(x) <==> list.contains(x) || x == name,
        list.no_duplicates() && !list.contains(name) ==> list.push(name).no_duplicates(),
{
    let pushed = list.push(name);
    assert forall|x: Name| #[trigger] pushed.contains(x) <==> list.contains(x) || x == name by {
        if list.contains(x) {
            let i = choose|i: int| 0 <= i < list.len() && list[i] == x;
            assert(pushed[i] == x);
        }
        if x == name {
            assert(pushed[list.len() as int] == x);
        }
    }
}

/// Whether `id` occurs in `list`.
pub fn contains(list: &Vec<String>, id: &String) -> (found: bool)
    ensures
        found == names(list@).contains(id@),
{
    let mut i: usize = 0;
    while i < list.len()
        invariant
            i <= list.len(),
            forall|j: int| 0 <= j < i ==> names(list@)[j] != id@,
        decreases list.len() - i,
    {
        if list[i] == *id {
            assert(names(list@)[i as int] == id@);
            return true;
        }
        i += 1;
    }
    false
}

/// A fresh list that holds the same names as `list`, in the same order.
pub fn copy_list(list: &Vec<String>) -> (out: Vec<String>)
    ensures
        names(out@) == names(list@),
{
    let mut out: Vec<String> = Vec::new();
    let mut i: usize = 0;
    while i < list.len()
        invariant
            i <= list.len(),
            out.len() == i,
            forall|j: int| 0 <= j < i ==> out@[j]@ == list@[j]@,
        decreases list.len() - i,
    {
        out.push(list[i].clone());
        i += 1;
    }
    assert(names(out@) =~= names(list@));
    out
}

} // verus!
