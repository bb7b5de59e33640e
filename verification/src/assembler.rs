//! Completion assembler: puts the receipts of the parts in order and builds
//! the request that finalizes the session.

use crate::error::TransferError;
use crate::session::CompletedPart;
use vstd::prelude::*;

verus! {

/// What the remote service needs to turn the parts into one object: the
/// session and the receipts in ascending order of part number.
#[derive(Clone, Debug, PartialEq, Eq)]
pub struct FinalizeRequest {
    pub upload_id: String,
    pub parts: Vec<CompletedPart>,
}

/// No part number is larger than one that follows it.
pub open spec fn ascending(s: Seq<CompletedPart>) -> bool {
    forall|i: int, j: int|
        0 <= i < j < s.len() ==> (#[trigger] s[i]).part_number <= (#[trigger] s[j]).part_number
}

/// Every part number is smaller than those that follow it.
pub open spec fn strictly_ascending(s: Seq<CompletedPart>) -> bool {
    forall|i: int, j: int|
        0 <= i < j < s.len() ==> (#[trigger] s[i]).part_number < (#[trigger] s[j]).part_number
}

/// No part number occurs twice.
pub open spec fn distinct_numbers(s: Seq<CompletedPart>) -> bool {
    forall|i: int, j: int|
        0 <= i < j < s.len() ==> (#[trigger] s[i]).part_number != (#[trigger] s[j]).part_number
}

/// The index of the first receipt whose part number is not below `number`;
/// the length where there is none.
pub open spec fn insert_point(s: Seq<CompletedPart>, number: u64) -> int
    decreases s.len(),
{
    if s.len() == 0 || s[0].part_number >= number {
        0
    } else {
        1 + insert_point(s.drop_first(), number)
    }
}

/// The receipts in ascending order of part number; receipts of one part
/// number keep the order they came in.
pub open spec fn ordered(s: Seq<CompletedPart>) -> Seq<CompletedPart>
    decreases s.len(),
{
    if s.len() == 0 {
        s
    } else {
        let rest = ordered(s.drop_first());
        rest.insert(insert_point(rest, s[0].part_number), s[0])
    }
}

/// The insert point lies within the sequence, after every smaller number,
/// and at a number that is not smaller.
pub proof fn lemma_insert_point(s: Seq<CompletedPart>, number: u64)
    ensures
        0 <= insert_point(s, number) <= s.len(),
        forall|i: int| 0 <= i < insert_point(s, number) ==> (#[trigger] s[i]).part_number < number,
        insert_point(s, number) < s.len() ==> s[insert_point(s, number)].part_number >= number,
    decreases s.len(),
{
    if s.len() == 0 || s[0].part_number >= number {
    } else {
        let tail = s.drop_first();
        lemma_insert_point(tail, number);
        assert forall|i: int| 0 <= i < insert_point(s, number) implies (#[trigger] s[i]).part_number
            < number by {
            if i > 0 {
                assert(s[i] == tail[i - 1]);
            }
        }
        if insert_point(s, number) < s.len() {
            assert(s[insert_point(s, number)] == tail[insert_point(tail, number)]);
        }
    }
}

/// Ordering keeps every receipt, once each, and leaves them ascending.
pub proof fn lemma_ordered_is_sorted_permutation(s: Seq<CompletedPart>)
    ensures
        ordered(s).len() == s.len(),
        ordered(s).to_multiset() == s.to_multiset(),
        ascending(ordered(s)),
    decreases s.len(),
{
    if s.len() == 0 {
    } else {
        let tail = s.drop_first();
        let rest = ordered(tail);
        let at = insert_point(rest, s[0].part_number);
        lemma_ordered_is_sorted_permutation(tail);
        lemma_insert_point(rest, s[0].part_number);
        vstd::seq_lib::to_multiset_insert(rest, at, s[0]);
        vstd::seq_lib::to_multiset_insert(tail, 0, s[0]);
        assert(tail.insert(0, s[0]) =~= s);
        let out = rest.insert(at, s[0]);
        assert forall|i: int, j: int| 0 <= i < j < out.len() implies (#[trigger] out[i]).part_number
            <= (#[trigger] out[j]).part_number by {
            lemma_insert_index(rest, at, s[0], i);
            lemma_insert_index(rest, at, s[0], j);
        }
    }
}

/// What stands at each index after an insertion.
proof fn lemma_insert_index(s: Seq<CompletedPart>, at: int, p: CompletedPart, i: int)
    requires
        0 <= at <= s.len(),
        0 <= i <= s.len(),
    ensures
        i < at ==> s.insert(at, p)[i] == s[i],
        i == at ==> s.insert(at, p)[i] == p,
        i > at ==> s.insert(at, p)[i] == s[i - 1],
{
}

/// Every receipt of the ordered sequence is one of the given receipts.
pub proof fn lemma_ordered_members(s: Seq<CompletedPart>, i: int)
    requires
        0 <= i < ordered(s).len(),
    ensures
        exists|j: int| 0 <= j < s.len() && #[trigger] s[j] == ordered(s)[i],
{
    broadcast use vstd::seq_lib::group_to_multiset_ensures;

    lemma_ordered_is_sorted_permutation(s);
    let x = ordered(s)[i];
    assert(ordered(s).to_multiset().contains(x));
    assert(s.to_multiset().contains(x));
    assert(s.contains(x));
}

/// Receipts with distinct part numbers come out strictly ascending,
/// whatever order they came in.
pub proof fn lemma_ordered_strictly_ascending(s: Seq<CompletedPart>)
    requires
        distinct_numbers(s),
    ensures
        strictly_ascending(ordered(s)),
    decreases s.len(),
{
    if s.len() == 0 {
    } else {
        let tail = s.drop_first();
        let rest = ordered(tail);
        let at = insert_point(rest, s[0].part_number);
        assert(distinct_numbers(tail)) by {
            assert forall|i: int, j: int| 0 <= i < j < tail.len() implies (
            #[trigger] tail[i]).part_number != (#[trigger] tail[j]).part_number by {
                assert(tail[i] == s[i + 1] && tail[j] == s[j + 1]);
            }
        }
        lemma_ordered_strictly_ascending(tail);
        lemma_ordered_is_sorted_permutation(tail);
        lemma_insert_point(rest, s[0].part_number);
        assert forall|k: int| 0 <= k < rest.len() implies (#[trigger] rest[k]).part_number
            != s[0].part_number by {
            lemma_ordered_members(tail, k);
            let j = choose|j: int| 0 <= j < tail.len() && #[trigger] tail[j] == rest[k];
            assert(tail[j] == s[j + 1]);
        }
        let out = rest.insert(at, s[0]);
        assert forall|i: int, j: int| 0 <= i < j < out.len() implies (#[trigger] out[i]).part_number
            < (#[trigger] out[j]).part_number by {
            lemma_insert_index(rest, at, s[0], i);
            lemma_insert_index(rest, at, s[0], j);
            if i == at {
                assert(rest[at].part_number >= s[0].part_number);
                assert(rest[j - 1].part_number >= rest[at].part_number) by {
                    if j - 1 > at {
                        assert(rest[at].part_number < rest[j - 1].part_number);
                    }
                }
            }
        }
    }
}

/// Receipts that are already ascending are left as they are: ordering
/// moves no receipt past another of the same part number.
pub proof fn lemma_ordered_keeps_ascending(s: Seq<CompletedPart>)
    requires
        ascending(s),
    ensures
        ordered(s) == s,
    decreases s.len(),
{
    if s.len() == 0 {
    } else {
        let tail = s.drop_first();
        assert(ascending(tail)) by {
            assert forall|i: int, j: int| 0 <= i < j < tail.len() implies (
            #[trigger] tail[i]).part_number <= (#[trigger] tail[j]).part_number by {
                assert(tail[i] == s[i + 1] && tail[j] == s[j + 1]);
            }
        }
        lemma_ordered_keeps_ascending(tail);
        if tail.len() > 0 {
            assert(tail[0] == s[1]);
            assert(s[0].part_number <= s[1].part_number);
        }
        assert(insert_point(tail, s[0].part_number) == 0);
        assert(tail.insert(0, s[0]) =~= s);
    }
}

/// Two strictly ascending sequences of the same receipts are one sequence.
pub proof fn lemma_strictly_ascending_unique(x: Seq<CompletedPart>, y: Seq<CompletedPart>)
    requires
        strictly_ascending(x),
        strictly_ascending(y),
        x.to_multiset() == y.to_multiset(),
    ensures
        x == y,
    decreases x.len(),
{
    broadcast use vstd::seq_lib::group_to_multiset_ensures;
    broadcast use vstd::multiset::group_multiset_axioms;

    vstd::seq_lib::to_multiset_len(x);
    vstd::seq_lib::to_multiset_len(y);
    if x.len() == 0 {
        assert(x =~= y);
    } else {
        assert(x.to_multiset().contains(x[0]));
        assert(y.to_multiset().contains(y[0]));
        assert(y.contains(x[0]));
        assert(x.contains(y[0]));
        let i = choose|i: int| 0 <= i < y.len() && y[i] == x[0];
        let j = choose|j: int| 0 <= j < x.len() && x[j] == y[0];
        assert(i == 0) by {
            if i > 0 {
                assert(y[0].part_number < y[i].part_number);
                if j > 0 {
                    assert(x[0].part_number < x[j].part_number);
                }
            }
        }
        assert(x[0] == y[0]);
        let xt = x.drop_first();
        let yt = y.drop_first();
        assert(xt =~= x.remove(0));
        assert(yt =~= y.remove(0));
        vstd::seq_lib::to_multiset_remove(x, 0);
        vstd::seq_lib::to_multiset_remove(y, 0);
        assert(strictly_ascending(xt)) by {
            assert forall|a: int, b: int| 0 <= a < b < xt.len() implies (
            #[trigger] xt[a]).part_number < (#[trigger] xt[b]).part_number by {
                assert(xt[a] == x[a + 1] && xt[b] == x[b + 1]);
            }
        }
        assert(strictly_ascending(yt)) by {
            assert forall|a: int, b: int| 0 <= a < b < yt.len() implies (
            #[trigger] yt[a]).part_number < (#[trigger] yt[b]).part_number by {
                assert(yt[a] == y[a + 1] && yt[b] == y[b + 1]);
            }
        }
        lemma_strictly_ascending_unique(xt, yt);
        assert(x =~= seq![x[0]] + xt);
        assert(y =~= seq![y[0]] + yt);
    }
}

/// The order in which the receipts arrive does not show in the result:
/// the same receipts, with distinct part numbers, give the same sequence.
pub proof fn lemma_ordered_ignores_arrival(a: Seq<CompletedPart>, b: Seq<CompletedPart>)
    requires
        distinct_numbers(a),
        distinct_numbers(b),
        a.to_multiset() == b.to_multiset(),
    ensures
        ordered(a) == ordered(b),
{
    lemma_ordered_strictly_ascending(a);
    lemma_ordered_strictly_ascending(b);
    lemma_ordered_is_sorted_permutation(a);
    lemma_ordered_is_sorted_permutation(b);
    lemma_strictly_ascending_unique(ordered(a), ordered(b));
}

/// In a strictly ascending sequence the part number at index `i` is at
/// least `i` above the first and at least `len - 1 - i` below the last.
proof fn lemma_strictly_ascending_spread(s: Seq<CompletedPart>, i: int)
    requires
        strictly_ascending(s),
        0 <= i < s.len(),
    ensures
        s[i].part_number >= s[0].part_number + i,
        s[i].part_number + (s.len() - 1 - i) <= s[s.len() - 1].part_number,
    decreases i, s.len() - i,
{
    if i > 0 {
        lemma_strictly_ascending_spread(s, i - 1);
        assert(s[i - 1].part_number < s[i].part_number);
    }
    if i < s.len() - 1 {
        lemma_strictly_ascending_from(s, i + 1);
        assert(s[i].part_number < s[i + 1].part_number);
    }
}

/// The upper half of the spread, from index `i` to the end.
proof fn lemma_strictly_ascending_from(s: Seq<CompletedPart>, i: int)
    requires
        strictly_ascending(s),
        0 <= i < s.len(),
    ensures
        s[i].part_number + (s.len() - 1 - i) <= s[s.len() - 1].part_number,
    decreases s.len() - i,
{
    if i < s.len() - 1 {
        lemma_strictly_ascending_from(s, i + 1);
        assert(s[i].part_number < s[i + 1].part_number);
    }
}

/// Strictly ascending receipts whose part numbers all lie between 1 and
/// their count are the receipts of parts 1, 2, .. in turn: one per part.
pub proof fn lemma_one_receipt_per_part(s: Seq<CompletedPart>)
    requires
        strictly_ascending(s),
        forall|i: int| 0 <= i < s.len() ==> 1 <= (#[trigger] s[i]).part_number <= s.len(),
    ensures
        forall|i: int| 0 <= i < s.len() ==> (#[trigger] s[i]).part_number == i + 1,
{
    assert forall|i: int| 0 <= i < s.len() implies (#[trigger] s[i]).part_number == i + 1 by {
        lemma_strictly_ascending_spread(s, i);
        assert(1 <= s[0].part_number);
        assert(s[s.len() - 1].part_number <= s.len());
    }
}

/// Finds where a receipt of part `number` goes in ordered receipts.
fn find_insert_point(sorted: &Vec<CompletedPart>, number: u64) -> (at: usize)
    ensures
        at == insert_point(sorted@, number),
        at <= sorted@.len(),
{
    let mut i: usize = 0;
    proof {
        assert(sorted@.subrange(0, sorted@.len() as int) =~= sorted@);
    }
    while i < sorted.len() && sorted[i].part_number < number
        invariant
            i <= sorted@.len(),
            insert_point(sorted@, number) == i + insert_point(
                sorted@.subrange(i as int, sorted@.len() as int),
                number,
            ),
        decreases sorted@.len() - i,
    {
        proof {
            let here = sorted@.subrange(i as int, sorted@.len() as int);
            assert(here[0] == sorted@[i as int]);
            assert(here.drop_first() =~= sorted@.subrange(i + 1, sorted@.len() as int));
        }
        i += 1;
    }
    proof {
        let here = sorted@.subrange(i as int, sorted@.len() as int);
        if i < sorted@.len() {
            assert(here[0] == sorted@[i as int]);
        }
        assert(insert_point(here, number) == 0);
    }
    i
}

/// Puts receipts in ascending order of part number, keeping the order of
/// arrival among receipts of one part number.
pub fn sort_parts(completed: Vec<CompletedPart>) -> (out: Vec<CompletedPart>)
    ensures
        out@ == ordered(completed@),
        out@.len() == completed@.len(),
        out@.to_multiset() == completed@.to_multiset(),
        ascending(out@),
        distinct_numbers(completed@) ==> strictly_ascending(out@),
{
    let ghost all = completed@;
    let mut input = completed;
    let mut out: Vec<CompletedPart> = Vec::new();
    proof {
        assert(all.subrange(all.len() as int, all.len() as int) =~= Seq::<CompletedPart>::empty());
        assert(all.subrange(0, all.len() as int) =~= all);
    }
    while input.len() > 0
        invariant
            input@.len() <= all.len(),
            input@ == all.subrange(0, input@.len() as int),
            out@ == ordered(all.subrange(input@.len() as int, all.len() as int)),
        decreases input@.len(),
    {
        let ghost n = input@.len() as int;
        let part = input.pop().unwrap();
        let at = find_insert_point(&out, part.part_number);
        proof {
            let from = all.subrange(n - 1, all.len() as int);
            assert(from[0] == part);
            assert(from.drop_first() =~= all.subrange(n, all.len() as int));
            assert(input@ =~= all.subrange(0, n - 1));
        }
        out.insert(at, part);
    }
    proof {
        assert(all.subrange(0, all.len() as int) =~= all);
        lemma_ordered_is_sorted_permutation(all);
        if distinct_numbers(all) {
            lemma_ordered_strictly_ascending(all);
        }
    }
    out
}

/// Builds the request that finalizes session `upload_id` from the receipts
/// of its parts. There must be exactly `expected_total` receipts; with any
/// other number the upload is incomplete and no request is built.
pub fn assemble(upload_id: &str, completed: Vec<CompletedPart>, expected_total: u64) -> (r: Result<
    FinalizeRequest,
    TransferError,
>)
    ensures
        r is Ok <==> completed@.len() == expected_total,
        r matches Ok(request) ==> request.upload_id@ == upload_id@ && request.parts@ == ordered(
            completed@,
        ) && request.parts@.len() == expected_total && request.parts@.to_multiset()
            == completed@.to_multiset() && ascending(request.parts@) && (distinct_numbers(
            completed@,
        ) ==> strictly_ascending(request.parts@)),
        r matches Err(e) ==> e == (TransferError::IncompleteUpload {
            expected: expected_total,
            completed: completed@.len() as u64,
        }),
{
    let count: u64 = completed.len() as u64;
    let parts = sort_parts(completed);
    if count != expected_total {
        return Err(TransferError::IncompleteUpload { expected: expected_total, completed: count });
    }
    Ok(FinalizeRequest { upload_id: upload_id.to_owned(), parts })
}

} // verus!
