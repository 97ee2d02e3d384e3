use vstd::prelude::*;
use crate::action::Payload;
use crate::issue::{IssueView, step_view};
use crate::log::Entry;
use crate::issue::Issue;
use crate::query::{query_le, query_sorted};

verus! {

/// Idempotence of set operations: folding two additions of the same label,
/// one after the other, leaves the same label set as folding the first
/// alone, whatever issue value they are folded into.
pub proof fn lemma_add_label_idempotent(v: IssueView, e1: Entry, e2: Entry)
    requires
        e1.action.payload matches Payload::AddLabel { label: l1 } && e2.action.payload
            matches Payload::AddLabel { label: l2 } && l1@ == l2@,
    ensures
        step_view(step_view(v, e1), e2).labels == step_view(v, e1).labels,
{
    assert(step_view(step_view(v, e1), e2).labels =~= step_view(v, e1).labels);
}

/// The presentation order pins the output: two sequences in presentation
/// order that hold the same issues are equal, whenever no two issues of the
/// snapshot share both timestamp and id. With the contract of `query`, the
/// ordered listing of such a snapshot is uniquely determined.
pub proof fn lemma_query_output_unique(r1: Seq<Issue>, r2: Seq<Issue>)
    requires
        query_sorted(r1),
        query_sorted(r2),
        r1.to_multiset() == r2.to_multiset(),
        forall|i: int, j: int|
            0 <= i < j < r1.len() ==> ((#[trigger] r1[i]).timestamp != (#[trigger] r1[j]).timestamp
                || r1[i].id != r1[j].id),
    ensures
        r1 == r2,
    decreases r1.len(),
{
    broadcast use vstd::seq_lib::group_to_multiset_ensures;
    broadcast use vstd::multiset::group_multiset_axioms;

    if r1.len() == 0 {
        assert(r2.to_multiset().len() == 0);
        assert(r1 =~= r2);
    } else {
        assert(r1.no_duplicates()) by {
            assert forall|i: int, j: int|
                0 <= i < r1.len() && 0 <= j < r1.len() && i != j implies r1[i] != r1[j] by {
                if i < j {
                    assert(r1[i].timestamp != r1[j].timestamp || r1[i].id != r1[j].id);
                } else {
                    assert(r1[j].timestamp != r1[i].timestamp || r1[j].id != r1[i].id);
                }
            }
        }
        r1.lemma_multiset_has_no_duplicates();
        assert(r1.contains(r1[0]));
        assert(r2.to_multiset().contains(r1[0]));
        assert(r2.contains(r1[0]));
        let j = choose|j: int| 0 <= j < r2.len() && r2[j] == r1[0];
        assert(r2.contains(r2[0]));
        assert(r1.to_multiset().contains(r2[0]));
        assert(r1.contains(r2[0]));
        let i = choose|i: int| 0 <= i < r1.len() && r1[i] == r2[0];
        if j > 0 {
            assert(query_le(r2[0], r2[j]));
            if i > 0 {
                assert(query_le(r1[0], r1[i]));
                assert(r1[0].timestamp == r2[0].timestamp && r1[0].id == r2[0].id);
                assert(r1[i].timestamp != r1[0].timestamp || r1[i].id != r1[0].id);
                assert(false);
            } else {
                // The head of `r2` repeats at position `j`, so it would be
                // counted twice, which distinct keys rule out.
                assert(r2[j] == r2[0]);
                assert(r2.remove(0) =~= r2.drop_first());
                assert(r2.remove(0).to_multiset() =~= r2.to_multiset().remove(r2[0]));
                assert(r2.drop_first()[j - 1] == r2[0]);
                assert(r2.drop_first().contains(r2[0]));
                assert(r2.drop_first().to_multiset() =~= r2.to_multiset().remove(r2[0]));
                assert(r2.drop_first().to_multiset().count(r2[0]) > 0);
                assert(r2.to_multiset().count(r2[0]) >= 2);
                assert(r1.to_multiset().count(r2[0]) <= 1);
                assert(false);
            }
        }
        assert(r2[0] == r1[0]);
        assert(r1.remove(0) =~= r1.drop_first());
        assert(r2.remove(0) =~= r2.drop_first());
        assert(r1.drop_first().to_multiset() =~= r1.to_multiset().remove(r1[0]));
        assert(r2.drop_first().to_multiset() =~= r2.to_multiset().remove(r2[0]));
        assert(query_sorted(r1.drop_first()));
        assert(query_sorted(r2.drop_first()));
        assert forall|a: int, b: int|
            0 <= a < b < r1.drop_first().len() implies ((#[trigger] r1.drop_first()[a]).timestamp
            != (#[trigger] r1.drop_first()[b]).timestamp || r1.drop_first()[a].id
            != r1.drop_first()[b].id) by {
            assert(r1.drop_first()[a] == r1[a + 1]);
            assert(r1.drop_first()[b] == r1[b + 1]);
        }
        lemma_query_output_unique(r1.drop_first(), r2.drop_first());
        assert(r1.len() == r2.len());
        assert(r1 =~= r2) by {
            assert forall|k: int| 0 <= k < r1.len() implies r1[k] == r2[k] by {
                if k > 0 {
                    assert(r1.drop_first()[k - 1] == r2.drop_first()[k - 1]);
                    assert(r1.drop_first()[k - 1] == r1[k]);
                    assert(r2.drop_first()[k - 1] == r2[k]);
                }
            }
        }
    }
}

} // verus!
