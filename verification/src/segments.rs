//! A sequence that occurs inside another at a given position.

use vstd::prelude::*;

verus! {

/// Whether `part` stands in `whole` from position `pos` on.
pub open spec fn occurs_at<A>(whole: Seq<A>, pos: int, part: Seq<A>) -> bool {
    &&& 0 <= pos
    &&& pos + part.len() <= whole.len()
    &&& forall|i: int| 0 <= i < part.len() ==> whole[pos + i] == #[trigger] part[i]
}

/// Where a concatenation occurs, its two halves occur one after the other.
pub proof fn lemma_occurs_split<A>(whole: Seq<A>, pos: int, front: Seq<A>, back: Seq<A>)
    requires
        occurs_at(whole, pos, front + back),
    ensures
        occurs_at(whole, pos, front),
        occurs_at(whole, pos + front.len(), back),
{
    let both = front + back;
    assert forall|i: int| 0 <= i < front.len() implies whole[pos + i] == #[trigger] front[i] by {
        assert(both[i] == front[i]);
    }
    assert forall|i: int| 0 <= i < back.len() implies whole[pos + front.len() + i]
        == #[trigger] back[i] by {
        assert(both[front.len() + i] == back[i]);
    }
}

} // verus!
