//! How chunks are put into groups that are small enough to be merged at once.

use crate::concat::names::chunk_file_name;
use crate::encoder::Encoder;
use vstd::prelude::*;

verus! {

/// How many groups `num_chunks` chunks make, of `limit` chunks at most.
pub open spec fn group_count(num_chunks: nat, limit: nat) -> nat {
    ((num_chunks + limit - 1) / limit as int) as nat
}

/// The chunk with which group `group` begins.
pub open spec fn group_start(group: nat, limit: nat) -> nat {
    group * limit
}

/// How many chunks are in group `group`: all groups but the last are full.
pub open spec fn group_size(group: nat, num_chunks: nat, limit: nat) -> nat {
    if num_chunks - group_start(group, limit) <= limit {
        (num_chunks - group_start(group, limit)) as nat
    } else {
        limit
    }
}

/// The names of the chunks in group `group`.
pub open spec fn group_chunks(
    group: nat,
    encoder: Encoder,
    num_chunks: nat,
    limit: nat,
) -> Seq<Seq<char>> {
    Seq::new(
        group_size(group, num_chunks, limit),
        |i: int|
            crate::concat::names::chunk_name((group_start(group, limit) + i) as nat, encoder),
    )
}

proof fn lemma_group(group: nat, num_chunks: nat, limit: nat)
    requires
        num_chunks > 0,
        limit > 0,
        group < group_count(num_chunks, limit),
    ensures
        group_start(group, limit) < num_chunks,
        1 <= group_size(group, num_chunks, limit) <= limit,
{
    let size = limit as int;
    let sum = num_chunks + limit - 1;
    vstd::arithmetic::div_mod::lemma_fundamental_div_mod(sum, size);
    let count = sum / size;
    assert(count >= 0) by (nonlinear_arith)
        requires
            count == sum / size,
            sum >= 0,
            size > 0,
    ;
    assert(group * size + size <= size * count) by (nonlinear_arith)
        requires
            group + 1 <= count,
            size > 0,
    ;
}

/// No group is empty or larger than the limit, and there is one group alone exactly where all
/// chunks fit into it.
pub proof fn groups_fit(num_chunks: nat, limit: nat)
    requires
        num_chunks > 0,
        limit > 0,
    ensures
        group_count(num_chunks, limit) >= 1,
        group_count(num_chunks, limit) == 1 <==> num_chunks <= limit,
        forall|group: nat|
            group < group_count(num_chunks, limit) ==> 1 <= #[trigger] group_size(
                group,
                num_chunks,
                limit,
            ) <= limit,
{
    let size = limit as int;
    let sum = num_chunks + limit - 1;
    let count = sum / size;
    vstd::arithmetic::div_mod::lemma_fundamental_div_mod(sum, size);
    assert(count >= 1) by (nonlinear_arith)
        requires
            count == sum / size,
            sum >= size,
            size > 0,
    ;
    assert(count == 1 <==> sum < 2 * size) by (nonlinear_arith)
        requires
            sum == size * count + sum % size,
            0 <= sum % size < size,
            size > 0,
            count >= 1,
    ;
    assert forall|group: nat| group < group_count(num_chunks, limit) implies 1
        <= #[trigger] group_size(group, num_chunks, limit) <= limit by {
        lemma_group(group, num_chunks, limit);
    }
}

/// The chunks of the first `groups` groups, one group behind the other.
pub open spec fn grouped_chunks(
    groups: nat,
    encoder: Encoder,
    num_chunks: nat,
    limit: nat,
) -> Seq<Seq<char>>
    decreases groups,
{
    if groups == 0 {
        Seq::empty()
    } else {
        grouped_chunks((groups - 1) as nat, encoder, num_chunks, limit) + group_chunks(
            (groups - 1) as nat,
            encoder,
            num_chunks,
            limit,
        )
    }
}

/// The names of the first `num_chunks` chunks, in order.
pub open spec fn chunk_names(num_chunks: nat, encoder: Encoder) -> Seq<Seq<char>> {
    Seq::new(num_chunks, |i: int| crate::concat::names::chunk_name(i as nat, encoder))
}

proof fn lemma_grouped_chunks(groups: nat, encoder: Encoder, num_chunks: nat, limit: nat)
    requires
        num_chunks > 0,
        limit > 0,
        groups <= group_count(num_chunks, limit),
    ensures
        grouped_chunks(groups, encoder, num_chunks, limit) == chunk_names(
            if group_start(groups, limit) <= num_chunks {
                group_start(groups, limit)
            } else {
                num_chunks
            },
            encoder,
        ),
    decreases groups,
{
    let joined = grouped_chunks(groups, encoder, num_chunks, limit);
    if groups == 0 {
        assert(group_start(0, limit) == 0) by (nonlinear_arith);
        assert(joined =~= chunk_names(0, encoder));
    } else {
        let before = (groups - 1) as nat;
        lemma_grouped_chunks(before, encoder, num_chunks, limit);
        lemma_group(before, num_chunks, limit);
        assert(group_start(groups, limit) == group_start(before, limit) + limit)
            by (nonlinear_arith)
            requires
                groups == before + 1,
        ;
        assert(joined =~= chunk_names(
            if group_start(groups, limit) <= num_chunks {
                group_start(groups, limit)
            } else {
                num_chunks
            },
            encoder,
        ));
    }
}

/// The groups one behind the other are all chunks in order: none is left out, and none stands in two
/// groups.
pub proof fn groups_are_all_chunks_in_order(num_chunks: nat, limit: nat, encoder: Encoder)
    requires
        num_chunks > 0,
        limit > 0,
    ensures
        grouped_chunks(group_count(num_chunks, limit), encoder, num_chunks, limit) == chunk_names(
            num_chunks,
            encoder,
        ),
{
    let count = group_count(num_chunks, limit);
    let size = limit as int;
    let sum = num_chunks + limit - 1;
    lemma_grouped_chunks(count, encoder, num_chunks, limit);
    groups_fit(num_chunks, limit);
    vstd::arithmetic::div_mod::lemma_fundamental_div_mod(sum, size);
    assert(count * size == size * count) by (nonlinear_arith);
    assert(group_start(count, limit) >= num_chunks);
}

/// Counts the groups that `num_chunks` chunks make, of `limit` chunks at most.
pub fn chunk_group_count(num_chunks: usize, limit: usize) -> (groups: usize)
    requires
        num_chunks != 0,
        limit != 0,
    ensures
        groups == group_count(num_chunks as nat, limit as nat),
{
    proof {
        let sum = num_chunks + limit - 1;
        let size = limit as int;
        vstd::arithmetic::div_mod::lemma_fundamental_div_mod(sum, size);
        vstd::arithmetic::div_mod::lemma_fundamental_div_mod(num_chunks - 1, size);
        vstd::arithmetic::div_mod::lemma_div_plus_one(num_chunks - 1, size);
        assert((num_chunks - 1) / size <= num_chunks - 1) by (nonlinear_arith)
            requires
                num_chunks >= 1,
                size >= 1,
        ;
    }
    (num_chunks - 1) / limit + 1
}

/// Lists the names of the chunks in group `group`.
pub fn chunk_group(group: usize, encoder: Encoder, num_chunks: usize, limit: usize) -> (names: Vec<
    String,
>)
    requires
        num_chunks != 0,
        limit != 0,
        group < group_count(num_chunks as nat, limit as nat),
    ensures
        crate::concat::mkvmerge::texts(names@) == group_chunks(
            group as nat,
            encoder,
            num_chunks as nat,
            limit as nat,
        ),
{
    proof {
        lemma_group(group as nat, num_chunks as nat, limit as nat);
    }
    let start: usize = group * limit;
    let size: usize = if num_chunks - start <= limit {
        num_chunks - start
    } else {
        limit
    };
    let mut names: Vec<String> = Vec::new();
    while names.len() < size
        invariant
            names@.len() <= size,
            start + size <= num_chunks,
            forall|i: int|
                0 <= i < names@.len() ==> (#[trigger] names@[i])@
                    == crate::concat::names::chunk_name((start + i) as nat, encoder),
        decreases size - names@.len(),
    {
        names.push(chunk_file_name(start + names.len(), encoder));
    }
    assert(crate::concat::mkvmerge::texts(names@) =~= group_chunks(
        group as nat,
        encoder,
        num_chunks as nat,
        limit as nat,
    ));
    names
}

} // verus!
