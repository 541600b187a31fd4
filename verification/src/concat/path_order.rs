//! The order of the paths of files in one directory.

use vstd::prelude::*;
use vstd::utf8::encode_utf8;

verus! {

/// Whether `front` is no later than `back` in the order of dictionaries.
pub open spec fn bytes_ordered(front: Seq<u8>, back: Seq<u8>) -> bool
    decreases front.len(),
{
    if front.len() == 0 {
        true
    } else if back.len() == 0 {
        false
    } else if front[0] == back[0] {
        bytes_ordered(front.skip(1), back.skip(1))
    } else {
        front[0] < back[0]
    }
}

/// Whether the path `front` is no later than the path `back`: paths are compared byte by byte.
pub open spec fn paths_ordered(front: Seq<char>, back: Seq<char>) -> bool {
    bytes_ordered(encode_utf8(front), encode_utf8(back))
}

/// Whether no path comes before an earlier one.
pub open spec fn in_path_order(paths: Seq<String>) -> bool {
    forall|i: int, j: int|
        0 <= i < j < paths.len() ==> paths_ordered((#[trigger] paths[i])@, (#[trigger] paths[j])@)
}

/// Any two texts are in order one way or the other, and both ways only where they are the same.
pub proof fn order_is_total(one: Seq<u8>, other: Seq<u8>)
    ensures
        bytes_ordered(one, other) || bytes_ordered(other, one),
        bytes_ordered(one, other) && bytes_ordered(other, one) ==> one == other,
    decreases one.len(),
{
    if one.len() > 0 && other.len() > 0 && one[0] == other[0] {
        order_is_total(one.skip(1), other.skip(1));
        if bytes_ordered(one, other) && bytes_ordered(other, one) {
            assert(one =~= seq![one[0]] + one.skip(1));
            assert(other =~= seq![other[0]] + other.skip(1));
        }
    } else if one.len() == 0 && other.len() == 0 {
        assert(one =~= other);
    }
}

/// What is in order with a text is in order with all that follow that text.
pub proof fn order_is_transitive(first: Seq<u8>, second: Seq<u8>, third: Seq<u8>)
    requires
        bytes_ordered(first, second),
        bytes_ordered(second, third),
    ensures
        bytes_ordered(first, third),
    decreases first.len(),
{
    if first.len() > 0 && first[0] == second[0] && second[0] == third[0] {
        order_is_transitive(first.skip(1), second.skip(1), third.skip(1));
    }
}

proof fn lemma_common_front_keeps_order(front: Seq<u8>, one: Seq<u8>, other: Seq<u8>)
    ensures
        bytes_ordered(front + one, front + other) == bytes_ordered(one, other),
    decreases front.len(),
{
    if front.len() == 0 {
        assert(front + one =~= one);
        assert(front + other =~= other);
    } else {
        lemma_common_front_keeps_order(front.skip(1), one, other);
        assert((front + one).skip(1) =~= front.skip(1) + one);
        assert((front + other).skip(1) =~= front.skip(1) + other);
    }
}

proof fn lemma_encode_parts(front: Seq<char>, back: Seq<char>)
    ensures
        encode_utf8(front + back) == encode_utf8(front) + encode_utf8(back),
    decreases front.len(),
{
    if front.len() == 0 {
        assert(front + back =~= back);
        assert(encode_utf8(front) + encode_utf8(back) =~= encode_utf8(back));
    } else {
        lemma_encode_parts(front.drop_first(), back);
        assert((front + back).drop_first() =~= front.drop_first() + back);
        assert(encode_utf8(front + back) =~= encode_utf8(front) + encode_utf8(back));
    }
}

/// The paths of files in one directory are ordered as the names of the files are.
pub proof fn directory_keeps_order(directory: Seq<char>, one: Seq<char>, other: Seq<char>)
    ensures
        paths_ordered(directory + one, directory + other) == paths_ordered(one, other),
{
    lemma_encode_parts(directory, one);
    lemma_encode_parts(directory, other);
    lemma_common_front_keeps_order(
        encode_utf8(directory),
        encode_utf8(one),
        encode_utf8(other),
    );
}

/// Compares two paths.
fn is_ordered(front: &String, back: &String) -> (ordered: bool)
    ensures
        ordered == paths_ordered(front@, back@),
{
    let front: &[u8] = front.as_str().as_bytes();
    let back: &[u8] = back.as_str().as_bytes();
    assert(front@.len() == front.len() && back@.len() == back.len());
    let mut at: usize = 0;
    assert(front@.skip(0) =~= front@ && back@.skip(0) =~= back@);
    while at < front.len() && at < back.len() && front[at] == back[at]
        invariant
            at <= front@.len() == front.len(),
            at <= back@.len() == back.len(),
            bytes_ordered(front@, back@) == bytes_ordered(
                front@.skip(at as int),
                back@.skip(at as int),
            ),
        decreases front@.len() - at,
    {
        assert(front@.skip(at as int).skip(1) =~= front@.skip(at + 1));
        assert(back@.skip(at as int).skip(1) =~= back@.skip(at + 1));
        at = at + 1;
    }
    if at == front.len() {
        true
    } else if at == back.len() {
        false
    } else {
        front[at] < back[at]
    }
}

/// Sorts paths.
pub fn sort_paths(paths: &mut Vec<String>)
    ensures
        final(paths)@.to_multiset() == old(paths)@.to_multiset(),
        in_path_order(final(paths)@),
        forall|i: int, j: int|
            0 <= i < j < final(paths)@.len() ==> bytes_ordered(
                encode_utf8((#[trigger] final(paths)@[i])@),
                encode_utf8((#[trigger] final(paths)@[j])@),
            ),
{
    let len: usize = paths.len();
    let mut sorted: usize = 0;
    while sorted < len
        invariant
            len == paths@.len(),
            sorted <= len,
            paths@.to_multiset() == old(paths)@.to_multiset(),
            in_path_order(paths@.take(sorted as int)),
        decreases len - sorted,
    {
        let ghost before = paths@;
        let ghost moved = before[sorted as int];
        let ghost front = before.take(sorted as int);
        // Everything in front of `low` is no later than the path, and everything from `high` on is
        // no earlier.
        let mut low: usize = 0;
        let mut high: usize = sorted;
        while low < high
            invariant
                low <= high <= sorted < len == paths@.len(),
                paths@ == before,
                moved == before[sorted as int],
                front == before.take(sorted as int),
                in_path_order(front),
                forall|i: int| 0 <= i < low ==> paths_ordered((#[trigger] before[i])@, moved@),
                forall|i: int|
                    high <= i < sorted ==> paths_ordered(moved@, (#[trigger] before[i])@),
            decreases high - low,
        {
            let middle: usize = low + (high - low) / 2;
            let ghost here = encode_utf8(before[middle as int]@);
            let ghost there = encode_utf8(moved@);
            if is_ordered(&paths[middle], &paths[sorted]) {
                assert forall|i: int| 0 <= i < middle + 1 implies paths_ordered(
                    (#[trigger] before[i])@,
                    moved@,
                ) by {
                    if i < middle {
                        assert(front[i] == before[i] && front[middle as int]
                            == before[middle as int]);
                        order_is_transitive(encode_utf8(before[i]@), here, there);
                    }
                }
                low = middle + 1;
            } else {
                proof {
                    order_is_total(here, there);
                }
                assert forall|i: int| middle <= i < sorted implies paths_ordered(
                    moved@,
                    (#[trigger] before[i])@,
                ) by {
                    if i > middle {
                        assert(front[i] == before[i] && front[middle as int]
                            == before[middle as int]);
                        order_is_transitive(there, here, encode_utf8(before[i]@));
                    }
                }
                high = middle;
            }
        }
        let path: String = paths.remove(sorted);
        paths.insert(low, path);
        proof {
            let after = paths@;
            before.to_multiset_ensures();
            after.to_multiset_ensures();
            assert(after.remove(low as int) =~= before.remove(sorted as int));
            assert(after[low as int] == moved);
            assert(after.to_multiset() =~= before.to_multiset()) by {
                broadcast use vstd::multiset::group_multiset_axioms;

                assert(before.contains(moved) && after.contains(moved));
                assert(after.to_multiset() =~= after.remove(low as int).to_multiset().insert(moved));
                assert(before.to_multiset() =~= before.remove(sorted as int).to_multiset().insert(
                    moved,
                ));
            }
            let next = after.take(sorted + 1);
            assert forall|i: int, j: int| 0 <= i < j < next.len() implies paths_ordered(
                (#[trigger] next[i])@,
                (#[trigger] next[j])@,
            ) by {
                if j < low {
                    assert(next[i] == front[i] && next[j] == front[j]);
                } else if j == low {
                    assert(next[i] == before[i] && next[j] == moved);
                } else if i == low {
                    assert(next[i] == moved && next[j] == before[j - 1]);
                } else if i < low {
                    assert(next[i] == front[i] && next[j] == front[j - 1]);
                } else {
                    assert(next[i] == front[i - 1] && next[j] == front[j - 1]);
                }
            }
        }
        sorted = sorted + 1;
    }
    assert(paths@.take(len as int) =~= paths@);
}

/// The first byte in which two texts differ decides; a text that ends first comes first.
pub proof fn first_difference_decides(
    common: Seq<u8>,
    one: u8,
    rest: Seq<u8>,
    other: u8,
    other_rest: Seq<u8>,
)
    ensures
        bytes_ordered(common, common + rest),
        rest.len() > 0 ==> !bytes_ordered(common + rest, common),
        one != other ==> (bytes_ordered(
            common + (seq![one] + rest),
            common + (seq![other] + other_rest),
        ) <==> one < other),
{
    lemma_common_front_keeps_order(common, Seq::empty(), rest);
    lemma_common_front_keeps_order(common, rest, Seq::empty());
    lemma_common_front_keeps_order(common, seq![one] + rest, seq![other] + other_rest);
    assert(common + Seq::<u8>::empty() =~= common);
}

} // verus!
