//! C3 linearization: merging the lineages of several bases into one order.
use vstd::prelude::*;
use crate::edges::contains;
use crate::value::Value;

verus! {

/// How many members the sequences have together.
pub open spec fn total(sequences: Seq<Seq<Value>>) -> nat
    decreases sequences.len(),
{
    if sequences.len() == 0 {
        0
    } else {
        total(sequences.drop_last()) + sequences.last().len()
    }
}

/// Whether no sequence has `value` behind its head.
pub open spec fn free(sequences: Seq<Seq<Value>>, value: Value) -> bool {
    forall|i: int|
        0 <= i < sequences.len() && sequences[i].len() > 0 ==> !(#[trigger] sequences[i]).skip(
            1,
        ).contains(value)
}

/// The first head, from a sequence on, that is behind no other head.
pub open spec fn next_head(sequences: Seq<Seq<Value>>, from: int) -> Option<Value>
    decreases sequences.len() - from,
{
    if from < 0 || from >= sequences.len() {
        None
    } else if sequences[from].len() > 0 && free(sequences, sequences[from][0]) {
        Some(sequences[from][0])
    } else {
        next_head(sequences, from + 1)
    }
}

/// A sequence without `head`, if it begins with it.
pub open spec fn behead(sequence: Seq<Value>, head: Value) -> Seq<Value> {
    if sequence.len() > 0 && sequence[0] == head {
        sequence.skip(1)
    } else {
        sequence
    }
}

/// The sequences without `head` where they begin with it.
pub open spec fn stripped(sequences: Seq<Seq<Value>>, head: Value) -> Seq<Seq<Value>> {
    Seq::new(sequences.len(), |i: int| behead(sequences[i], head))
}

/// One order that keeps the order of every sequence, taking the first head
/// that stands behind no other; none, if at some point there is no such head.
pub open spec fn merged(sequences: Seq<Seq<Value>>) -> Option<Seq<Value>>
    decreases total(sequences),
    via merged_decreases
{
    if total(sequences) == 0 {
        Some(Seq::empty())
    } else {
        match next_head(sequences, 0) {
            None => None,
            Some(head) => match merged(stripped(sequences, head)) {
                None => None,
                Some(rest) => Some(seq![head] + rest),
            },
        }
    }
}

#[via_fn]
proof fn merged_decreases(sequences: Seq<Seq<Value>>) {
    if let Some(head) = next_head(sequences, 0) {
        lemma_next_head(sequences, 0);
        lemma_stripped_total(sequences, head);
    }
}

/// What [`next_head`] finds.
pub proof fn lemma_next_head(sequences: Seq<Seq<Value>>, from: int)
    requires
        from >= 0,
    ensures
        next_head(sequences, from) matches Some(head) ==> free(sequences, head) && exists|i: int|
            from <= i < sequences.len() && (#[trigger] sequences[i]).len() > 0 && sequences[i][0]
                == head,
    decreases sequences.len() - from,
{
    if from < sequences.len() {
        if sequences[from].len() > 0 && free(sequences, sequences[from][0]) {
            assert(sequences[from][0] == sequences[from][0]);
        } else {
            lemma_next_head(sequences, from + 1);
        }
    }
}

proof fn lemma_stripped_total(sequences: Seq<Seq<Value>>, head: Value)
    ensures
        total(stripped(sequences, head)) <= total(sequences),
        (exists|i: int|
            0 <= i < sequences.len() && (#[trigger] sequences[i]).len() > 0 && sequences[i][0]
                == head) ==> total(stripped(sequences, head)) < total(sequences),
    decreases sequences.len(),
{
    if sequences.len() > 0 {
        let rest = sequences.drop_last();
        lemma_stripped_total(rest, head);
        assert(stripped(sequences, head).drop_last() =~= stripped(rest, head));
        if exists|i: int|
            0 <= i < sequences.len() && (#[trigger] sequences[i]).len() > 0 && sequences[i][0]
                == head {
            let i = choose|i: int|
                0 <= i < sequences.len() && (#[trigger] sequences[i]).len() > 0 && sequences[i][0]
                    == head;
            if i < rest.len() {
                assert(rest[i].len() > 0 && rest[i][0] == head);
            }
        }
    }
}

/// Sequences that have members have a total.
pub proof fn lemma_total(sequences: Seq<Seq<Value>>)
    ensures
        total(sequences) == 0 <==> forall|i: int|
            0 <= i < sequences.len() ==> (#[trigger] sequences[i]).len() == 0,
    decreases sequences.len(),
{
    if sequences.len() > 0 {
        let rest = sequences.drop_last();
        lemma_total(rest);
        if total(sequences) == 0 {
            assert forall|i: int| 0 <= i < sequences.len() implies (
            #[trigger] sequences[i]).len() == 0 by {
                if i < rest.len() {
                    assert(rest[i].len() == 0);
                }
            }
        }
        if forall|i: int| 0 <= i < sequences.len() ==> (#[trigger] sequences[i]).len() == 0 {
            assert(sequences[sequences.len() - 1].len() == 0);
            assert forall|i: int| 0 <= i < rest.len() implies (#[trigger] rest[i]).len() == 0 by {
                assert(sequences[i].len() == 0);
            }
        }
    }
}

/// A linearization lists each class once.
pub proof fn linearization_has_no_duplicates(sequences: Seq<Seq<Value>>)
    requires
        merged(sequences) is Some,
    ensures
        merged(sequences).unwrap().no_duplicates(),
    decreases total(sequences),
{
    if total(sequences) > 0 {
        lemma_next_head(sequences, 0);
        let head = next_head(sequences, 0).unwrap();
        let rest = stripped(sequences, head);
        lemma_stripped_total(sequences, head);
        linearization_has_no_duplicates(rest);
        linearization_has_no_others(rest);
        let tail = merged(rest).unwrap();
        assert(!tail.contains(head)) by {
            if tail.contains(head) {
                let i = choose|i: int|
                    0 <= i < rest.len() && (#[trigger] rest[i]).contains(head);
                let k = choose|k: int| 0 <= k < rest[i].len() && rest[i][k] == head;
                if sequences[i].len() > 0 && sequences[i][0] == head {
                    assert(sequences[i].skip(1)[k] == head);
                } else {
                    assert(sequences[i][k] == head);
                    assert(sequences[i].skip(1)[k - 1] == head);
                }
                assert(sequences[i].skip(1).contains(head));
            }
        }
        let all = merged(sequences).unwrap();
        assert forall|i: int, j: int|
            0 <= i < all.len() && 0 <= j < all.len() && i != j implies all[i] != all[j] by {
            if i == 0 {
                assert(tail[j - 1] == all[j]);
            } else if j == 0 {
                assert(tail[i - 1] == all[i]);
            } else {
                assert(tail[i - 1] != tail[j - 1]);
            }
        }
    }
}

/// A linearization lists only what the sequences list.
pub proof fn linearization_has_no_others(sequences: Seq<Seq<Value>>)
    requires
        merged(sequences) is Some,
    ensures
        forall|v: Value| #[trigger]
            merged(sequences).unwrap().contains(v) ==> exists|i: int|
                0 <= i < sequences.len() && (#[trigger] sequences[i]).contains(v),
    decreases total(sequences),
{
    if total(sequences) > 0 {
        lemma_next_head(sequences, 0);
        let head = next_head(sequences, 0).unwrap();
        let rest = stripped(sequences, head);
        lemma_stripped_total(sequences, head);
        linearization_has_no_others(rest);
        let all = merged(sequences).unwrap();
        let tail = merged(rest).unwrap();
        assert forall|v: Value| #[trigger] all.contains(v) implies exists|i: int|
            0 <= i < sequences.len() && (#[trigger] sequences[i]).contains(v) by {
            let k = choose|k: int| 0 <= k < all.len() && all[k] == v;
            if k == 0 {
                let i = choose|i: int|
                    0 <= i < sequences.len() && (#[trigger] sequences[i]).len() > 0
                        && sequences[i][0] == head;
                assert(sequences[i].contains(v));
            } else {
                assert(tail[k - 1] == v);
                assert(tail.contains(v));
                let i = choose|i: int| 0 <= i < rest.len() && (#[trigger] rest[i]).contains(v);
                let m = choose|m: int| 0 <= m < rest[i].len() && rest[i][m] == v;
                if sequences[i].len() > 0 && sequences[i][0] == head {
                    assert(sequences[i][m + 1] == v);
                } else {
                    assert(sequences[i][m] == v);
                }
                assert(sequences[i].contains(v));
            }
        }
    }
}

/// A linearization keeps the order of every sequence: what stands before
/// another in a lineage or in the list of bases stands before it in the
/// result.
pub proof fn linearization_keeps_order(sequences: Seq<Seq<Value>>, i: int, a: int, b: int)
    requires
        merged(sequences) is Some,
        0 <= i < sequences.len(),
        0 <= a < b < sequences[i].len(),
    ensures
        exists|p: int, q: int|
            0 <= p < q < merged(sequences).unwrap().len()
                && #[trigger] merged(sequences).unwrap()[p] == sequences[i][a]
                && #[trigger] merged(sequences).unwrap()[q] == sequences[i][b],
    decreases total(sequences),
{
    lemma_total(sequences);
    assert(sequences[i].len() > 0);
    lemma_next_head(sequences, 0);
    let head = next_head(sequences, 0).unwrap();
    let rest = stripped(sequences, head);
    lemma_stripped_total(sequences, head);
    let all = merged(sequences).unwrap();
    let tail = merged(rest).unwrap();
    if sequences[i][0] == head {
        if a == 0 {
            assert(rest[i][b - 1] == sequences[i][b]);
            linearization_lists_all(rest, i, b - 1);
            let q = choose|q: int| 0 <= q < tail.len() && tail[q] == rest[i][b - 1];
            assert(all[0] == sequences[i][a] && all[q + 1] == sequences[i][b]);
        } else {
            linearization_keeps_order(rest, i, a - 1, b - 1);
            let (p, q) = choose|p: int, q: int|
                0 <= p < q < tail.len() && #[trigger] tail[p] == rest[i][a - 1]
                    && #[trigger] tail[q] == rest[i][b - 1];
            assert(all[p + 1] == sequences[i][a] && all[q + 1] == sequences[i][b]);
        }
    } else {
        linearization_keeps_order(rest, i, a, b);
        let (p, q) = choose|p: int, q: int|
            0 <= p < q < tail.len() && #[trigger] tail[p] == rest[i][a] && #[trigger] tail[q]
                == rest[i][b];
        assert(all[p + 1] == sequences[i][a] && all[q + 1] == sequences[i][b]);
    }
}

/// A linearization lists everything that the sequences list.
pub proof fn linearization_lists_all(sequences: Seq<Seq<Value>>, i: int, a: int)
    requires
        merged(sequences) is Some,
        0 <= i < sequences.len(),
        0 <= a < sequences[i].len(),
    ensures
        merged(sequences).unwrap().contains(sequences[i][a]),
    decreases total(sequences),
{
    lemma_total(sequences);
    assert(sequences[i].len() > 0);
    lemma_next_head(sequences, 0);
    let head = next_head(sequences, 0).unwrap();
    let rest = stripped(sequences, head);
    lemma_stripped_total(sequences, head);
    let all = merged(sequences).unwrap();
    let tail = merged(rest).unwrap();
    if sequences[i][0] == head && a == 0 {
        assert(all[0] == sequences[i][a]);
    } else {
        let k = if sequences[i][0] == head {
            a - 1
        } else {
            a
        };
        assert(rest[i][k] == sequences[i][a]);
        linearization_lists_all(rest, i, k);
        let q = choose|q: int| 0 <= q < tail.len() && tail[q] == rest[i][k];
        assert(all[q + 1] == sequences[i][a]);
    }
}

/// Whether ranks rise along every sequence: an order that keeps the order of
/// each of them.
pub open spec fn ranked(sequences: Seq<Seq<Value>>, rank: spec_fn(Value) -> int) -> bool {
    forall|i: int, a: int, b: int|
        #![trigger sequences[i][a], sequences[i][b]]
        0 <= i < sequences.len() && 0 <= a < b < sequences[i].len() ==> rank(sequences[i][a])
            < rank(sequences[i][b])
}

/// The head of least rank, of the first `count` sequences.
proof fn lemma_least_head(
    sequences: Seq<Seq<Value>>,
    rank: spec_fn(Value) -> int,
    count: int,
) -> (least: int)
    requires
        0 <= count <= sequences.len(),
        exists|i: int| 0 <= i < count && (#[trigger] sequences[i]).len() > 0,
    ensures
        0 <= least < count,
        sequences[least].len() > 0,
        forall|i: int|
            0 <= i < count && (#[trigger] sequences[i]).len() > 0 ==> rank(sequences[least][0])
                <= rank(sequences[i][0]),
    decreases count,
{
    let last = count - 1;
    if exists|i: int| 0 <= i < last && (#[trigger] sequences[i]).len() > 0 {
        let least = lemma_least_head(sequences, rank, last);
        if sequences[last].len() > 0 && rank(sequences[last][0]) < rank(sequences[least][0]) {
            last
        } else {
            least
        }
    } else {
        let i = choose|i: int| 0 <= i < count && (#[trigger] sequences[i]).len() > 0;
        assert(i == last);
        last
    }
}

/// Where a head stands behind no other, there is a next head.
proof fn lemma_head_found(sequences: Seq<Seq<Value>>, from: int, i: int)
    requires
        0 <= from <= i < sequences.len(),
        sequences[i].len() > 0,
        free(sequences, sequences[i][0]),
    ensures
        next_head(sequences, from) is Some,
    decreases sequences.len() - from,
{
    if from < i {
        lemma_head_found(sequences, from + 1, i);
    }
}

/// Where some order keeps the order of every sequence, the merge finds one.
pub proof fn consistent_sequences_merge(
    sequences: Seq<Seq<Value>>,
    rank: spec_fn(Value) -> int,
)
    requires
        ranked(sequences, rank),
    ensures
        merged(sequences) is Some,
    decreases total(sequences),
{
    lemma_total(sequences);
    if total(sequences) > 0 {
        let least = lemma_least_head(sequences, rank, sequences.len() as int);
        let first = sequences[least][0];
        assert forall|i: int| 0 <= i < sequences.len() && sequences[i].len() > 0 implies !(
        #[trigger] sequences[i]).skip(1).contains(first) by {
            let tail = sequences[i].skip(1);
            if tail.contains(first) {
                let k = choose|k: int| 0 <= k < tail.len() && tail[k] == first;
                assert(tail[k] == sequences[i][k + 1]);
                assert(rank(sequences[i][0]) < rank(sequences[i][k + 1]));
            }
        }
        lemma_head_found(sequences, 0, least);
        lemma_next_head(sequences, 0);
        let head = next_head(sequences, 0).unwrap();
        lemma_stripped_total(sequences, head);
        let rest = stripped(sequences, head);
        assert forall|i: int, a: int, b: int|
            #![trigger rest[i][a], rest[i][b]]
            0 <= i < rest.len() && 0 <= a < b < rest[i].len() implies rank(rest[i][a]) < rank(
            rest[i][b],
        ) by {
            let off: int = if sequences[i].len() > 0 && sequences[i][0] == head {
                1
            } else {
                0
            };
            assert(rest[i][a] == sequences[i][a + off]);
            assert(rest[i][b] == sequences[i][b + off]);
        }
        consistent_sequences_merge(rest, rank);
    }
}

/// Sequences merge exactly where some order keeps the order of each of them.
pub proof fn merging_finds_an_order(sequences: Seq<Seq<Value>>)
    ensures
        merged(sequences) is Some <==> exists|rank: spec_fn(Value) -> int| #[trigger]
            ranked(sequences, rank),
{
    if exists|rank: spec_fn(Value) -> int| #[trigger] ranked(sequences, rank) {
        let rank = choose|rank: spec_fn(Value) -> int| #[trigger] ranked(sequences, rank);
        consistent_sequences_merge(sequences, rank);
    }
    if merged(sequences) is Some {
        let order = merged(sequences).unwrap();
        let rank = |v: Value| order.index_of(v);
        linearization_has_no_duplicates(sequences);
        assert forall|i: int, a: int, b: int|
            #![trigger sequences[i][a], sequences[i][b]]
            0 <= i < sequences.len() && 0 <= a < b < sequences[i].len() implies rank(
            sequences[i][a],
        ) < rank(sequences[i][b]) by {
            linearization_keeps_order(sequences, i, a, b);
            let (p, q) = choose|p: int, q: int|
                0 <= p < q < order.len() && #[trigger] order[p] == sequences[i][a]
                    && #[trigger] order[q] == sequences[i][b];
            assert(order.contains(order[p]) && order.contains(order[q]));
            assert(order[order.index_of(order[p])] == order[p]);
            assert(order[order.index_of(order[q])] == order[q]);
        }
        assert(ranked(sequences, rank));
    }
}

/// The sequences as lists of values.
pub open spec fn lists(sequences: Seq<Vec<Value>>) -> Seq<Seq<Value>> {
    Seq::new(sequences.len(), |i: int| sequences[i]@)
}

/// Whether a value stands behind no head.
fn is_free(sequences: &Vec<Vec<Value>>, value: Value) -> (r: bool)
    ensures
        r == free(lists(sequences@), value),
{
    let ghost all = lists(sequences@);
    let mut i: usize = 0;
    while i < sequences.len()
        invariant
            i <= sequences.len(),
            all == lists(sequences@),
            forall|k: int|
                0 <= k < i && all[k].len() > 0 ==> !(#[trigger] all[k]).skip(1).contains(value),
        decreases sequences.len() - i,
    {
        let sequence = &sequences[i];
        let mut j: usize = 1;
        while j < sequence.len()
            invariant
                1 <= j,
                j <= sequence.len() || sequence.len() == 0,
                forall|k: int| 1 <= k < j && k < sequence.len() ==> sequence[k] != value,
                *sequence == sequences[i as int],
                i < sequences.len(),
                all == lists(sequences@),
            decreases sequence.len() - j,
        {
            if sequence[j] == value {
                assert(all[i as int].skip(1)[j - 1] == value);
                assert(all[i as int].skip(1).contains(value));
                return false;
            }
            j += 1;
        }
        assert(all[i as int].len() > 0 ==> !all[i as int].skip(1).contains(value)) by {
            if all[i as int].len() > 0 && all[i as int].skip(1).contains(value) {
                let k = choose|k: int|
                    0 <= k < all[i as int].skip(1).len() && all[i as int].skip(1)[k] == value;
                assert(sequence[k + 1] == value);
            }
        }
        i += 1;
    }
    true
}

/// The first head that stands behind no other.
fn find_head(sequences: &Vec<Vec<Value>>) -> (r: Option<Value>)
    ensures
        r == next_head(lists(sequences@), 0),
{
    let ghost all = lists(sequences@);
    let mut i: usize = 0;
    while i < sequences.len()
        invariant
            i <= sequences.len(),
            all == lists(sequences@),
            next_head(all, 0) == next_head(all, i as int),
        decreases sequences.len() - i,
    {
        if sequences[i].len() > 0 {
            let candidate = sequences[i][0];
            if is_free(sequences, candidate) {
                return Some(candidate);
            }
        }
        i += 1;
    }
    None
}

/// Takes `head` from the front of every sequence that begins with it.
fn strip(sequences: &mut Vec<Vec<Value>>, head: Value)
    ensures
        lists(final(sequences)@) == stripped(lists(old(sequences)@), head),
{
    let ghost all = lists(sequences@);
    let mut i: usize = 0;
    while i < sequences.len()
        invariant
            i <= sequences.len(),
            sequences.len() == all.len(),
            forall|k: int| 0 <= k < i ==> (#[trigger] sequences[k])@ == behead(all[k], head),
            forall|k: int| i <= k < sequences.len() ==> (#[trigger] sequences[k])@ == all[k],
        decreases sequences.len() - i,
    {
        if sequences[i].len() > 0 && sequences[i][0] == head {
            let ghost before = sequences[i as int]@;
            sequences[i].remove(0);
            assert(sequences[i as int]@ =~= before.skip(1));
        }
        i += 1;
    }
    assert(lists(sequences@) =~= stripped(all, head));
}

/// Merges lineages into one order.
pub fn merge(sequences: Vec<Vec<Value>>) -> (r: Option<Vec<Value>>)
    ensures
        match r {
            Some(order) => merged(lists(sequences@)) == Some(order@),
            None => merged(lists(sequences@)) is None,
        },
{
    let ghost whole = merged(lists(sequences@));
    let mut rest = sequences;
    let mut order: Vec<Value> = Vec::new();
    loop
        invariant
            whole == match merged(lists(rest@)) {
                Some(tail) => Some(order@ + tail),
                None => None,
            },
            whole == merged(lists(sequences@)),
        ensures
            whole == Some(order@),
        decreases total(lists(rest@)),
    {
        let ghost current = lists(rest@);
        proof {
            lemma_total(current);
            lemma_next_head(current, 0);
        }
        let mut i: usize = 0;
        let mut empty = true;
        while i < rest.len()
            invariant
                i <= rest.len(),
                current == lists(rest@),
                empty ==> forall|k: int| 0 <= k < i ==> (#[trigger] current[k]).len() == 0,
                !empty ==> exists|k: int| 0 <= k < current.len() && (#[trigger] current[k]).len()
                    != 0,
            decreases rest.len() - i,
        {
            if rest[i].len() > 0 {
                assert(current[i as int].len() != 0);
                empty = false;
            }
            i += 1;
        }
        if empty {
            assert(order@ + Seq::<Value>::empty() =~= order@);
            break;
        }
        match find_head(&rest) {
            None => {
                return None;
            },
            Some(head) => {
                let ghost before = order@;
                strip(&mut rest, head);
                order.push(head);
                proof {
                    lemma_stripped_total(current, head);
                    if let Some(tail) = merged(lists(rest@)) {
                        assert(before + (seq![head] + tail) =~= order@ + tail);
                    }
                }
            },
        }
    }
    Some(order)
}

} // verus!
