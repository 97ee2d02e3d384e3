use vstd::prelude::*;
use crate::action::Payload;
use crate::issue::fold_view;
use crate::log::{
    ActionLog, Entry, actions_of, contains_id, depth_of_id, entries_sorted, entry_lt, entry_wf,
    index_of_id, lemma_entry_lt_asym, lemma_index_of_id, lemma_max_pred_depth_congruence,
    lemma_max_pred_depth_ge, log_wf, max_pred_depth,
};

verus! {

/// Two sequences that stand in materialization order and hold the same
/// multiset of entries are the same sequence.
pub proof fn lemma_sorted_entries_unique(x: Seq<Entry>, y: Seq<Entry>)
    requires
        entries_sorted(x),
        entries_sorted(y),
        x.to_multiset() == y.to_multiset(),
    ensures
        x == y,
    decreases x.len(),
{
    broadcast use vstd::seq_lib::group_to_multiset_ensures;
    broadcast use vstd::multiset::group_multiset_axioms;

    if x.len() == 0 {
        assert(y.to_multiset().len() == 0);
        assert(x =~= y);
    } else {
        assert(x.contains(x[0]));
        assert(y.to_multiset().contains(x[0]));
        assert(y.contains(x[0]));
        let j = choose|j: int| 0 <= j < y.len() && y[j] == x[0];
        assert(y.contains(y[0]));
        assert(x.to_multiset().contains(y[0]));
        assert(x.contains(y[0]));
        let i = choose|i: int| 0 <= i < x.len() && x[i] == y[0];
        if j > 0 {
            assert(entry_lt(y[0], y[j]));
            if i > 0 {
                assert(entry_lt(x[0], x[i]));
                lemma_entry_lt_asym(x[0], y[0]);
            } else {
                lemma_entry_lt_asym(y[0], y[j]);
            }
            assert(false);
        }
        assert(y[0] == x[0]);
        assert(x.remove(0) =~= x.drop_first());
        assert(y.remove(0) =~= y.drop_first());
        assert(x.drop_first().to_multiset() =~= x.to_multiset().remove(x[0]));
        assert(y.drop_first().to_multiset() =~= y.to_multiset().remove(y[0]));
        assert(entries_sorted(x.drop_first()));
        assert(entries_sorted(y.drop_first()));
        lemma_sorted_entries_unique(x.drop_first(), y.drop_first());
        assert(x.len() == y.len());
        assert(x =~= y) by {
            assert forall|k: int| 0 <= k < x.len() implies x[k] == y[k] by {
                if k > 0 {
                    assert(x.drop_first()[k - 1] == y.drop_first()[k - 1]);
                    assert(x.drop_first()[k - 1] == x[k]);
                    assert(y.drop_first()[k - 1] == y[k]);
                }
            }
        }
    }
}

/// Every entry of one well-formed log appears, with the same action and the
/// same content id, in any well-formed log that holds the same actions.
pub proof fn lemma_action_found(a: Seq<Entry>, b: Seq<Entry>, i: int)
    requires
        log_wf(a),
        log_wf(b),
        actions_of(a).to_multiset() == actions_of(b).to_multiset(),
        0 <= i < a.len(),
    ensures
        exists|j: int|
            0 <= j < b.len() && (#[trigger] b[j]).action == a[i].action && b[j].id == a[i].id,
{
    broadcast use vstd::seq_lib::group_to_multiset_ensures;

    let ma = actions_of(a);
    let mb = actions_of(b);
    assert(ma[i] == a[i].action);
    assert(ma.contains(a[i].action));
    assert(mb.to_multiset().contains(a[i].action));
    assert(mb.contains(a[i].action));
    let j = choose|j: int| 0 <= j < mb.len() && mb[j] == a[i].action;
    assert(b[j].action == a[i].action);
    assert(entry_wf(b, j));
    assert(entry_wf(a, i));
    assert(b[j].id == a[i].id);
}

/// Entries of two such logs that carry the same id carry the same action.
pub proof fn lemma_same_id_same_action(a: Seq<Entry>, b: Seq<Entry>, i: int, j: int)
    requires
        log_wf(a),
        log_wf(b),
        actions_of(a).to_multiset() == actions_of(b).to_multiset(),
        0 <= i < a.len(),
        0 <= j < b.len(),
        a[i].id == b[j].id,
    ensures
        a[i].action == b[j].action,
{
    lemma_action_found(a, b, i);
    let j2 = choose|j2: int|
        0 <= j2 < b.len() && (#[trigger] b[j2]).action == a[i].action && b[j2].id == a[i].id;
    if j2 < j {
        assert(b[j2].id != b[j].id);
    } else if j < j2 {
        assert(b[j].id != b[j2].id);
    }
}

/// The causal depth of an action is the same in the two logs: it is derived
/// from the action set alone.
pub proof fn lemma_depth_agree(a: Seq<Entry>, b: Seq<Entry>, i: int)
    requires
        log_wf(a),
        log_wf(b),
        actions_of(a).to_multiset() == actions_of(b).to_multiset(),
        0 <= i < a.len(),
    ensures
        forall|j: int|
            0 <= j < b.len() && (#[trigger] b[j]).id == a[i].id ==> b[j].depth == a[i].depth,
    decreases i,
{
    assert forall|j: int|
        0 <= j < b.len() && (#[trigger] b[j]).id == a[i].id implies b[j].depth
        == a[i].depth by {
        lemma_same_id_same_action(a, b, i, j);
        assert(entry_wf(a, i));
        assert(entry_wf(b, j));
        match a[i].action.payload {
            Payload::Create { .. } => {
                assert(a[i].depth == 0 && b[j].depth == 0);
            },
            _ => {
                let preds = a[i].action.predecessors@;
                assert(b[j].action.predecessors@ == preds);
                assert forall|k: int| 0 <= k < preds.len() implies depth_of_id(
                    b,
                    #[trigger] preds[k],
                ) == depth_of_id(a, preds[k]) by {
                    assert(contains_id(a, preds[k]));
                    let ia = index_of_id(a, preds[k]);
                    assert(0 <= ia < a.len() && a[ia].id == preds[k]);
                    lemma_max_pred_depth_ge(a, preds, k);
                    assert(a[ia].depth as nat == depth_of_id(a, preds[k])) by {
                        lemma_index_of_id(a, ia);
                    }
                    assert(a[ia].depth < a[i].depth);
                    if ia == i {
                        assert(false);
                    }
                    if ia > i {
                        assert(entry_lt(a[i], a[ia]));
                        assert(false);
                    }
                    lemma_action_found(a, b, ia);
                    let jb = choose|jb: int|
                        0 <= jb < b.len() && (#[trigger] b[jb]).action == a[ia].action
                            && b[jb].id == a[ia].id;
                    lemma_depth_agree(a, b, ia);
                    assert(contains_id(b, preds[k])) by {
                        assert(b[jb].id == preds[k]);
                    }
                    let ib = index_of_id(b, preds[k]);
                    assert(0 <= ib < b.len() && b[ib].id == preds[k]);
                    assert(b[ib].depth == a[ia].depth);
                    assert(depth_of_id(b, preds[k]) == b[ib].depth as nat);
                    assert(depth_of_id(a, preds[k]) == a[ia].depth as nat);
                }
                lemma_max_pred_depth_congruence(a, b, preds);
                assert(b[j].depth as nat == 1 + max_pred_depth(b, preds));
                assert(a[i].depth as nat == 1 + max_pred_depth(a, preds));
            },
        }
    }
}

/// Two well-formed logs holding the same multiset of actions are the same
/// sequence of entries.
pub proof fn lemma_logs_equal(a: Seq<Entry>, b: Seq<Entry>)
    requires
        log_wf(a),
        log_wf(b),
        actions_of(a).to_multiset() == actions_of(b).to_multiset(),
    ensures
        a == b,
{
    broadcast use vstd::seq_lib::group_to_multiset_ensures;
    broadcast use vstd::multiset::group_multiset_axioms;

    assert(a.no_duplicates()) by {
        assert forall|i: int, j: int|
            0 <= i < a.len() && 0 <= j < a.len() && i != j implies a[i] != a[j] by {
            if i < j {
                assert(a[i].id != a[j].id);
            } else {
                assert(a[j].id != a[i].id);
            }
        }
    }
    assert(b.no_duplicates()) by {
        assert forall|i: int, j: int|
            0 <= i < b.len() && 0 <= j < b.len() && i != j implies b[i] != b[j] by {
            if i < j {
                assert(b[i].id != b[j].id);
            } else {
                assert(b[j].id != b[i].id);
            }
        }
    }
    a.lemma_multiset_has_no_duplicates();
    b.lemma_multiset_has_no_duplicates();
    assert(a.to_multiset() =~= b.to_multiset()) by {
        assert forall|e: Entry|
            #[trigger] a.to_multiset().count(e) == b.to_multiset().count(e) by {
            if a.to_multiset().count(e) > 0 {
                assert(a.contains(e));
                let i = choose|i: int| 0 <= i < a.len() && a[i] == e;
                lemma_action_found(a, b, i);
                let j = choose|j: int|
                    0 <= j < b.len() && (#[trigger] b[j]).action == a[i].action && b[j].id
                        == a[i].id;
                lemma_depth_agree(a, b, i);
                assert(b[j].depth == a[i].depth);
                assert(b[j] == e);
                assert(b.contains(e));
                assert(a.to_multiset().count(e) == 1 && b.to_multiset().count(e) == 1);
            } else if b.to_multiset().count(e) > 0 {
                assert(b.contains(e));
                let j = choose|j: int| 0 <= j < b.len() && b[j] == e;
                lemma_action_found(b, a, j);
                let i = choose|i: int|
                    0 <= i < a.len() && (#[trigger] a[i]).action == b[j].action && a[i].id
                        == b[j].id;
                lemma_depth_agree(b, a, j);
                assert(a[i].depth == b[j].depth);
                assert(a[i] == e);
                assert(a.contains(e));
                assert(a.to_multiset().count(e) > 0);
                assert(false);
            }
        }
    }
    lemma_sorted_entries_unique(a, b);
}

/// Convergence: two well-formed logs that have received the same finite set
/// of actions, in whatever order, hold the same entries and materialize
/// identical issues.
pub proof fn lemma_convergence(l1: &ActionLog, l2: &ActionLog)
    requires
        l1.wf(),
        l2.wf(),
        l1.actions().to_multiset() == l2.actions().to_multiset(),
    ensures
        l1@ == l2@,
        fold_view(l1@) == fold_view(l2@),
{
    lemma_logs_equal(l1@, l2@);
}

} // verus!
