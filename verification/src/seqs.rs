//! Facts about sequences, and searches in lists of numbers.
use vstd::prelude::*;

verus! {

/// What a sequence contains after one more element was appended.
pub proof fn lemma_push_contains<A>(s: Seq<A>, x: A)
    ensures
        forall|y: A| #[trigger] s.push(x).contains(y) <==> (s.contains(y) || y == x),
{
    assert(s.push(x)[s.len() as int] == x);
    assert forall|y: A| s.contains(y) implies #[trigger] s.push(x).contains(y) by {
        let i = choose|i: int| 0 <= i < s.len() && s[i] == y;
        assert(s.push(x)[i] == y);
    }
    assert forall|y: A| #[trigger] s.push(x).contains(y) implies (s.contains(y) || y == x) by {
        let i = choose|i: int| 0 <= i < s.push(x).len() && s.push(x)[i] == y;
        if i < s.len() {
            assert(s[i] == y);
        }
    }
}

pub fn contains_u16(list: &Vec<u16>, value: u16) -> (found: bool)
    ensures
        found == list@.contains(value),
{
    for index in 0..list.len()
        invariant
            forall|i: int| 0 <= i < index ==> list@[i] != value,
    {
        if list[index] == value {
            return true;
        }
    }
    false
}

pub fn contains_u32(list: &Vec<u32>, value: u32) -> (found: bool)
    ensures
        found == list@.contains(value),
{
    for index in 0..list.len()
        invariant
            forall|i: int| 0 <= i < index ==> list@[i] != value,
    {
        if list[index] == value {
            return true;
        }
    }
    false
}

} // verus!
