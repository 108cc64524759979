use vstd::prelude::*;

verus! {

/// Whether a string holds exactly the characters of a literal.
pub fn str_is(s: &String, lit: &str) -> (r: bool)
    ensures
        r == (s@ == lit@),
{
    s.eq(&lit.to_owned())
}

/// Model of a vector of strings.
pub open spec fn strings_view(v: Seq<String>) -> Seq<Seq<char>>
    decreases v,
{
    if v.len() == 0 {
        Seq::empty()
    } else {
        strings_view(v.drop_last()).push(v.last()@)
    }
}

/// Appending one string extends the model by that string's characters.
pub proof fn lemma_strings_view_push(v: Seq<String>, x: String)
    ensures
        strings_view(v.push(x)) == strings_view(v).push(x@),
{
    assert(v.push(x).drop_last() =~= v);
    assert(v.push(x).last() == x);
}

/// The model of a vector of strings has the same length and the view of
/// each element at its place.
pub proof fn lemma_strings_view_index(v: Seq<String>)
    ensures
        strings_view(v).len() == v.len(),
        forall|i: int| 0 <= i < v.len() ==> #[trigger] strings_view(v)[i] == v[i]@,
    decreases v,
{
    if v.len() > 0 {
        lemma_strings_view_index(v.drop_last());
        assert(forall|i: int|
            0 <= i < v.len() - 1 ==> #[trigger] strings_view(v)[i] == strings_view(
                v.drop_last(),
            )[i] && v.drop_last()[i] == v[i]);
    }
}

} // verus!

verus! {

/// Dropping the final string drops the final element of the model.
pub proof fn lemma_strings_view_drop_last(v: Seq<String>)
    requires
        v.len() > 0,
    ensures
        strings_view(v).drop_last() == strings_view(v.drop_last()),
        strings_view(v).last() == v.last()@,
{
    assert(strings_view(v).drop_last() =~= strings_view(v.drop_last()));
}

} // verus!
