//! How the entries of an image are laid out in one list, and how they are read back.

use vstd::prelude::*;

verus! {

/// The lists of a list, one after the other.
pub open spec fn concat<T>(lists: Seq<Seq<T>>) -> Seq<T>
    decreases lists.len(),
{
    if lists.len() == 0 {
        Seq::empty()
    } else {
        concat(lists.drop_last()) + lists.last()
    }
}

/// A list cut into pieces of `size` entries, read from its end: the last `size` entries
/// are the last piece. What is left at the front, shorter than a piece, is dropped.
pub open spec fn pieces<T>(list: Seq<T>, size: nat) -> Seq<Seq<T>>
    decreases list.len(),
{
    if size == 0 || list.len() < size {
        Seq::empty()
    } else {
        pieces(list.take(list.len() - size), size).push(list.skip(list.len() - size))
    }
}

/// Whether every list has `size` entries.
pub open spec fn all_of_len<T>(lists: Seq<Seq<T>>, size: nat) -> bool {
    forall|i: int| 0 <= i < lists.len() ==> (#[trigger] lists[i]).len() == size
}

/// Lists of `size` entries each come, one after the other, to as many times `size`
/// entries.
pub proof fn lemma_concat_len<T>(lists: Seq<Seq<T>>, size: nat)
    requires
        all_of_len(lists, size),
    ensures
        concat(lists).len() == lists.len() * size,
    decreases lists.len(),
{
    if lists.len() > 0 {
        assert forall|i: int| 0 <= i < lists.drop_last().len() implies (
        #[trigger] lists.drop_last()[i]).len() == size by {
            assert(lists.drop_last()[i] == lists[i]);
        }
        lemma_concat_len(lists.drop_last(), size);
        assert(lists.last() == lists[lists.len() - 1]);
        vstd::arithmetic::mul::lemma_mul_is_distributive_add_other_way(
            size as int,
            lists.len() - 1,
            1,
        );
    } else {
        assert(lists.len() * size == 0) by (nonlinear_arith)
            requires
                lists.len() == 0,
        ;
    }
}

/// Cutting into pieces undoes putting pieces one after the other: lists of `size` entries
/// each, `size` being at least one, are the pieces of their concatenation.
pub proof fn lemma_pieces_of_concat<T>(lists: Seq<Seq<T>>, size: nat)
    requires
        size >= 1,
        all_of_len(lists, size),
    ensures
        pieces(concat(lists), size) == lists,
    decreases lists.len(),
{
    let whole = concat(lists);
    if lists.len() == 0 {
        assert(pieces(whole, size) =~= lists);
    } else {
        let head = lists.drop_last();
        assert forall|i: int| 0 <= i < head.len() implies (#[trigger] head[i]).len() == size by {
            assert(head[i] == lists[i]);
        }
        assert(lists.last() == lists[lists.len() - 1]);
        lemma_pieces_of_concat(head, size);
        assert(whole == concat(head) + lists.last());
        assert(whole.take(whole.len() - size) =~= concat(head));
        assert(whole.skip(whole.len() - size) =~= lists.last());
        assert(pieces(whole, size) =~= lists);
    }
}

/// The pieces of a list have `size` entries each.
pub proof fn lemma_pieces_len<T>(list: Seq<T>, size: nat)
    ensures
        all_of_len(pieces(list, size), size),
    decreases list.len(),
{
    if !(size == 0 || list.len() < size) {
        let head = pieces(list.take(list.len() - size), size);
        lemma_pieces_len(list.take(list.len() - size), size);
        assert forall|i: int| 0 <= i < pieces(list, size).len() implies (#[trigger] pieces(
            list,
            size,
        )[i]).len() == size by {
            if i < head.len() {
                assert(pieces(list, size)[i] == head[i]);
            }
        }
    }
}

} // verus!
