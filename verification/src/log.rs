use vstd::prelude::*;
use crate::action::{Action, Payload};
use crate::digest::{action_id, spec_action_id};
use crate::errors::CobError;

verus! {

/// One action as recorded in a log, together with its content-derived id and
/// its causal depth (the length of the longest chain of references from it
/// back to the `Create` action).
pub struct Entry {
    pub id: u64,
    pub depth: usize,
    pub action: Action,
}

/// The strict total order in which entries are materialized: causal depth
/// first, so every action comes after everything it references; concurrent
/// actions (equal depth) are tie-broken by author key, then timestamp, then
/// content id. The order depends on content alone, so replicas agree on it.
pub open spec fn entry_lt(a: Entry, b: Entry) -> bool {
    ||| a.depth < b.depth
    ||| (a.depth == b.depth && a.action.author < b.action.author)
    ||| (a.depth == b.depth && a.action.author == b.action.author
        && a.action.timestamp < b.action.timestamp)
    ||| (a.depth == b.depth && a.action.author == b.action.author
        && a.action.timestamp == b.action.timestamp && a.id < b.id)
}

/// Entries with distinct ids are always ordered one way or the other,
/// and never both ways.
pub proof fn lemma_entry_lt_total(a: Entry, b: Entry)
    requires
        a.id != b.id,
    ensures
        entry_lt(a, b) || entry_lt(b, a),
        !(entry_lt(a, b) && entry_lt(b, a)),
{
}

/// The materialization order never holds in both directions.
pub proof fn lemma_entry_lt_asym(a: Entry, b: Entry)
    ensures
        !(entry_lt(a, b) && entry_lt(b, a)),
{
}

/// The materialization order is transitive.
pub proof fn lemma_entry_lt_trans(a: Entry, b: Entry, c: Entry)
    requires
        entry_lt(a, b),
        entry_lt(b, c),
    ensures
        entry_lt(a, c),
{
}

/// Some entry of `s` carries the id.
pub open spec fn contains_id(s: Seq<Entry>, id: u64) -> bool {
    exists|i: int| 0 <= i < s.len() && s[i].id == id
}

/// The index of the entry carrying the id (meaningful when `contains_id`).
pub open spec fn index_of_id(s: Seq<Entry>, id: u64) -> int {
    choose|i: int| 0 <= i < s.len() && s[i].id == id
}

/// The causal depth recorded for the id (meaningful when `contains_id`).
pub open spec fn depth_of_id(s: Seq<Entry>, id: u64) -> nat {
    s[index_of_id(s, id)].depth as nat
}

/// Every id of `preds` is carried by some entry of `s`.
pub open spec fn preds_present(s: Seq<Entry>, preds: Seq<u64>) -> bool {
    forall|k: int| 0 <= k < preds.len() ==> contains_id(s, #[trigger] preds[k])
}

/// The greatest depth among the referenced predecessors, 0 for none.
pub open spec fn max_pred_depth(s: Seq<Entry>, preds: Seq<u64>) -> nat
    decreases preds.len(),
{
    if preds.len() == 0 {
        0
    } else {
        let d = depth_of_id(s, preds.last());
        let rest = max_pred_depth(s, preds.drop_last());
        if d >= rest {
            d
        } else {
            rest
        }
    }
}

/// The actions carried by the entries, in entry order.
pub open spec fn actions_of(s: Seq<Entry>) -> Seq<Action> {
    s.map_values(|e: Entry| e.action)
}

/// No two entries of `s` carry the same id.
pub open spec fn ids_unique(s: Seq<Entry>) -> bool {
    forall|i: int, j: int| 0 <= i < j < s.len() ==> s[i].id != s[j].id
}

/// The entries stand in materialization order.
pub open spec fn entries_sorted(s: Seq<Entry>) -> bool {
    forall|i: int, j: int| 0 <= i < j < s.len() ==> entry_lt(s[i], s[j])
}

/// The entry at `i` is well formed with respect to the whole log: its id is
/// content-derived; the `Create` action stands first, carries no references
/// and has depth 0; every other action references at least one present
/// predecessor and sits one step deeper than its deepest predecessor.
pub open spec fn entry_wf(s: Seq<Entry>, i: int) -> bool {
    let e = s[i];
    &&& e.id == spec_action_id(e.action)
    &&& match e.action.payload {
        Payload::Create { .. } => {
            &&& e.action.predecessors@.len() == 0
            &&& e.depth == 0
            &&& i == 0
        },
        _ => {
            &&& i > 0
            &&& e.action.predecessors@.len() > 0
            &&& preds_present(s, e.action.predecessors@)
            &&& e.depth as nat == 1 + max_pred_depth(s, e.action.predecessors@)
        },
    }
}

/// Well-formedness of a whole log: unique content ids, entries in
/// materialization order, depth bounded by position, and every entry causally
/// well formed. Every reachable `ActionLog` satisfies this.
pub open spec fn log_wf(s: Seq<Entry>) -> bool {
    &&& ids_unique(s)
    &&& entries_sorted(s)
    &&& forall|i: int| 0 <= i < s.len() ==> (#[trigger] s[i]).depth <= i
    &&& forall|i: int| 0 <= i < s.len() ==> entry_wf(s, i)
}

/// The entry carrying an id is the only one, so any witness index agrees with
/// `index_of_id`, and `depth_of_id` reads that entry's depth.
pub proof fn lemma_index_of_id(s: Seq<Entry>, i: int)
    requires
        ids_unique(s),
        0 <= i < s.len(),
    ensures
        contains_id(s, s[i].id),
        index_of_id(s, s[i].id) == i,
        depth_of_id(s, s[i].id) == s[i].depth,
{
    assert(contains_id(s, s[i].id)) by {
        assert(0 <= i < s.len() && s[i].id == s[i].id);
    }
    let j = index_of_id(s, s[i].id);
    assert(0 <= j < s.len() && s[j].id == s[i].id);
    if i < j {
        assert(s[i].id != s[j].id);
    } else if j < i {
        assert(s[j].id != s[i].id);
    }
}

/// Inserting an entry with a fresh id keeps ids unique and leaves the
/// presence and recorded depth of every old id unchanged.
pub proof fn lemma_insert_preserves_ids(s: Seq<Entry>, p: int, e: Entry)
    requires
        ids_unique(s),
        !contains_id(s, e.id),
        0 <= p <= s.len(),
    ensures
        ids_unique(s.insert(p, e)),
        contains_id(s.insert(p, e), e.id),
        depth_of_id(s.insert(p, e), e.id) == e.depth,
        forall|id: u64|
            contains_id(s, id) ==> #[trigger] contains_id(s.insert(p, e), id)
                && depth_of_id(s.insert(p, e), id) == depth_of_id(s, id),
{
    let t = s.insert(p, e);
    assert(forall|j: int| 0 <= j < p ==> t[j] == s[j]);
    assert(t[p] == e);
    assert(forall|j: int| p < j <= s.len() ==> t[j] == s[j - 1]);
    assert(ids_unique(t)) by {
        assert forall|i: int, j: int| 0 <= i < j < t.len() implies t[i].id != t[j].id by {
            if i == p {
                assert(t[j] == s[j - 1]);
                assert(contains_id(s, s[j - 1].id)) by {
                    lemma_index_of_id(s, j - 1);
                }
            } else if j == p {
                assert(contains_id(s, t[i].id)) by {
                    lemma_index_of_id(s, i);
                }
            } else {
                let i0: int = if i < p { i } else { i - 1 };
                let j0: int = if j < p { j } else { j - 1 };
                assert(t[i] == s[i0] && t[j] == s[j0]);
                assert(i0 < j0);
            }
        }
    }
    assert(contains_id(t, e.id)) by {
        assert(t[p].id == e.id);
    }
    assert(depth_of_id(t, e.id) == e.depth) by {
        lemma_index_of_id(t, p);
    }
    assert forall|id: u64| contains_id(s, id) implies #[trigger] contains_id(t, id)
        && depth_of_id(t, id) == depth_of_id(s, id) by {
        let i = index_of_id(s, id);
        assert(0 <= i < s.len() && s[i].id == id);
        let i2: int = if i < p { i } else { i + 1 };
        assert(t[i2] == s[i]);
        assert(contains_id(t, id)) by {
            assert(t[i2].id == id);
        }
        lemma_index_of_id(t, i2);
        lemma_index_of_id(s, i);
    }
}

/// The maximal predecessor depth only depends on what each referenced id
/// resolves to, so it is unchanged by any extension that keeps those
/// resolutions.
pub proof fn lemma_max_pred_depth_congruence(s: Seq<Entry>, t: Seq<Entry>, preds: Seq<u64>)
    requires
        forall|k: int| 0 <= k < preds.len()
            ==> depth_of_id(t, #[trigger] preds[k]) == depth_of_id(s, preds[k]),
    ensures
        max_pred_depth(t, preds) == max_pred_depth(s, preds),
    decreases preds.len(),
{
    if preds.len() > 0 {
        lemma_max_pred_depth_congruence(s, t, preds.drop_last());
    }
}

/// The maximal predecessor depth bounds every referenced depth.
pub proof fn lemma_max_pred_depth_ge(s: Seq<Entry>, preds: Seq<u64>, k: int)
    requires
        0 <= k < preds.len(),
    ensures
        max_pred_depth(s, preds) >= depth_of_id(s, preds[k]),
    decreases preds.len(),
{
    if k < preds.len() - 1 {
        lemma_max_pred_depth_ge(s, preds.drop_last(), k);
    }
}

/// The maximal predecessor depth is attained by some referenced id.
pub proof fn lemma_max_pred_depth_attained(s: Seq<Entry>, preds: Seq<u64>)
    requires
        preds.len() > 0,
    ensures
        exists|k: int|
            0 <= k < preds.len() && max_pred_depth(s, preds) == depth_of_id(
                s,
                #[trigger] preds[k],
            ),
    decreases preds.len(),
{
    let d = depth_of_id(s, preds.last());
    let rest = max_pred_depth(s, preds.drop_last());
    if d >= rest {
        assert(max_pred_depth(s, preds) == depth_of_id(s, preds[preds.len() - 1]));
    } else {
        lemma_max_pred_depth_attained(s, preds.drop_last());
        let k = choose|k: int|
            0 <= k < preds.drop_last().len() && rest == depth_of_id(
                s,
                #[trigger] preds.drop_last()[k],
            );
        assert(preds.drop_last()[k] == preds[k]);
        assert(max_pred_depth(s, preds) == depth_of_id(s, preds[k]));
    }
}

} // verus!

verus! {

/// Whether `a` may be appended to a log whose entries are `s`: the first
/// action must be a `Create` without references; every later one must not be
/// a `Create`, must reference only present predecessors, and must carry a
/// fresh content id.
pub open spec fn can_append(s: Seq<Entry>, a: Action) -> bool {
    if s.len() == 0 {
        (a.payload is Create) && a.predecessors@.len() == 0
    } else {
        &&& !(a.payload is Create)
        &&& a.predecessors@.len() > 0
        &&& preds_present(s, a.predecessors@)
        &&& !contains_id(s, spec_action_id(a))
    }
}

/// The error reported when `a` cannot be appended to `s`.
pub open spec fn append_error(s: Seq<Entry>, a: Action) -> CobError {
    if s.len() == 0 {
        if !(a.payload is Create) {
            CobError::MissingCreate
        } else {
            CobError::Causality
        }
    } else {
        if a.payload is Create {
            CobError::Causality
        } else if a.predecessors@.len() == 0 {
            CobError::Causality
        } else if !preds_present(s, a.predecessors@) {
            CobError::Causality
        } else {
            CobError::DuplicateId
        }
    }
}

/// The append-only, causally ordered log of the actions of one issue. Entries
/// are kept in materialization order, which is derived from content alone.
pub struct ActionLog {
    entries: Vec<Entry>,
}

impl View for ActionLog {
    type V = Seq<Entry>;

    closed spec fn view(&self) -> Seq<Entry> {
        self.entries@
    }
}

impl ActionLog {
    /// Every reachable log is well formed.
    pub open spec fn wf(&self) -> bool {
        log_wf(self@)
    }

    /// The recorded actions, in materialization order.
    pub open spec fn actions(&self) -> Seq<Action> {
        actions_of(self@)
    }

    /// An empty log, before its `Create` action has arrived.
    pub fn new() -> (r: ActionLog)
        ensures
            r@ =~= Seq::<Entry>::empty(),
            r.wf(),
    {
        ActionLog { entries: Vec::new() }
    }

    /// Number of recorded actions.
    pub fn len(&self) -> (n: usize)
        ensures
            n == self@.len(),
    {
        self.entries.len()
    }

    /// The entry at a position of the materialization order.
    pub fn entry_at(&self, i: usize) -> (e: &Entry)
        requires
            i < self@.len(),
        ensures
            *e == self@[i as int],
    {
        &self.entries[i]
    }

    /// The position of the entry carrying `id`, if any.
    fn find_id(&self, id: u64) -> (r: Option<usize>)
        ensures
            match r {
                Some(i) => i < self@.len() && self@[i as int].id == id && contains_id(self@, id),
                None => !contains_id(self@, id),
            },
    {
        let mut i: usize = 0;
        while i < self.entries.len()
            invariant
                i <= self@.len(),
                forall|k: int| 0 <= k < i ==> (#[trigger] self@[k]).id != id,
            decreases self@.len() - i,
        {
            if self.entries[i].id == id {
                return Some(i);
            }
            i = i + 1;
        }
        None
    }
}

/// The materialization order of `a` relative to `b`.
pub fn entry_before(a: &Entry, b: &Entry) -> (r: bool)
    ensures
        r == entry_lt(*a, *b),
{
    if a.depth != b.depth {
        a.depth < b.depth
    } else if a.action.author != b.action.author {
        a.action.author < b.action.author
    } else if a.action.timestamp != b.action.timestamp {
        a.action.timestamp < b.action.timestamp
    } else {
        a.id < b.id
    }
}

} // verus!

verus! {

impl ActionLog {
    /// Appends one action, or reports exactly why it cannot be appended and
    /// leaves the log unchanged. On success the set of recorded actions grows
    /// by the action; its place in the materialization order is derived from
    /// content, so the log stays well formed and canonical.
    #[verifier::rlimit(100)]
    pub fn append(&mut self, action: Action) -> (r: Result<(), CobError>)
        requires
            old(self).wf(),
        ensures
            final(self).wf(),
            match r {
                Ok(()) => {
                    &&& can_append(old(self)@, action)
                    &&& final(self).actions().to_multiset() =~= old(self).actions().to_multiset()
                        .insert(action)
                    &&& final(self)@.len() == old(self)@.len() + 1
                    &&& contains_id(final(self)@, spec_action_id(action))
                    &&& (old(self)@.len() > 0 ==> final(self)@[0] == old(self)@[0])
                    &&& (old(self)@.len() == 0 ==> final(self)@[0].action == action
                        && final(self)@[0].id == spec_action_id(action))
                },
                Err(e) => {
                    &&& final(self)@ == old(self)@
                    &&& !can_append(old(self)@, action)
                    &&& e == append_error(old(self)@, action)
                },
            },
    {
        let ghost s = self.entries@;
        let is_create = match &action.payload {
            Payload::Create { .. } => true,
            _ => false,
        };
        if self.entries.len() == 0 {
            if !is_create {
                return Err(CobError::MissingCreate);
            }
            if action.predecessors.len() > 0 {
                return Err(CobError::Causality);
            }
            let id = action_id(&action);
            let e = Entry { id, depth: 0, action };
            self.entries.push(e);
            proof {
                let t = self.entries@;
                assert(t =~= s.push(e));
                assert(t.len() == 1);
                assert(log_wf(t)) by {
                    assert(entry_wf(t, 0));
                }
                assert(t =~= s.insert(0, e));
                crate::seqextra::lemma_to_multiset_insert(s, 0, e);
                assert(actions_of(t) =~= actions_of(s).insert(0, e.action));
                crate::seqextra::lemma_to_multiset_insert(actions_of(s), 0, e.action);
                assert(contains_id(t, e.id)) by {
                    assert(t[0].id == e.id);
                }
            }
            return Ok(());
        }
        if is_create {
            return Err(CobError::Causality);
        }
        if action.predecessors.len() == 0 {
            return Err(CobError::Causality);
        }
        // All referenced predecessors must already be present; record the
        // deepest one while checking.
        let mut maxd: usize = 0;
        let mut k: usize = 0;
        proof {
            assert(s.len() > 0);
            assert(action.predecessors@.take(0) =~= Seq::<u64>::empty());
        }
        while k < action.predecessors.len()
            invariant
                old(self).wf(),
                self@ == s,
                s == old(self)@,
                s.len() > 0,
                k <= action.predecessors@.len(),
                preds_present(s, action.predecessors@.take(k as int)),
                maxd as nat == max_pred_depth(s, action.predecessors@.take(k as int)),
                maxd < s.len(),
            decreases action.predecessors@.len() - k,
        {
            let pid = action.predecessors[k];
            let found = self.find_id(pid);
            match found {
                None => {
                    proof {
                        assert(!preds_present(s, action.predecessors@)) by {
                            assert(action.predecessors@[k as int] == pid);
                        }
                    }
                    return Err(CobError::Causality);
                },
                Some(idx) => {
                    let d = self.entries[idx].depth;
                    proof {
                        lemma_index_of_id(s, idx as int);
                        assert(depth_of_id(s, pid) == s[idx as int].depth);
                        let pre = action.predecessors@.take(k as int);
                        let cur = action.predecessors@.take(k as int + 1);
                        assert(cur.drop_last() =~= pre);
                        assert(cur.last() == pid);
                        assert(s[idx as int].depth <= idx < s.len());
                    }
                    if d > maxd {
                        maxd = d;
                    }
                    k = k + 1;
                },
            }
        }
        proof {
            assert(action.predecessors@.take(k as int) =~= action.predecessors@);
        }
        let id = action_id(&action);
        if self.find_id(id).is_some() {
            return Err(CobError::DuplicateId);
        }
        let depth: usize = maxd + 1;
        let e = Entry { id, depth, action };
        // Find the canonical position: the first entry that follows `e` in
        // the materialization order.
        let mut p: usize = 0;
        while p < self.entries.len() && entry_before(&self.entries[p], &e)
            invariant
                self@ == s,
                s == old(self)@,
                p <= s.len(),
                forall|j: int| 0 <= j < p ==> entry_lt(#[trigger] s[j], e),
            decreases s.len() - p,
        {
            p = p + 1;
        }
        proof {
            // Everything at or after the found position follows `e`.
            assert forall|j: int| p <= j < s.len() implies entry_lt(e, #[trigger] s[j]) by {
                if j == p {
                    lemma_index_of_id(s, j);
                    lemma_entry_lt_total(s[j], e);
                } else {
                    lemma_index_of_id(s, p as int);
                    lemma_entry_lt_total(s[p as int], e);
                    lemma_entry_lt_trans(e, s[p as int], s[j]);
                }
            }
            // The root stays in front: the new entry is strictly deeper.
            assert(entry_wf(s, 0));
            assert(s[0].depth == 0) by {
                if !(s[0].action.payload is Create) {
                    assert(false);
                }
            }
            assert(entry_lt(s[0], e));
            if p == 0 {
                lemma_entry_lt_asym(s[0], e);
                assert(false);
            }
        }
        self.entries.insert(p, e);
        proof {
            lemma_insert_entry_ok(s, p as int, e);
        }
        Ok(())
    }
}

} // verus!

verus! {

/// Dropping the last entry of a well-formed log leaves a well-formed log:
/// every predecessor of an earlier entry stands before it.
pub proof fn lemma_wf_drop_last(s: Seq<Entry>)
    requires
        log_wf(s),
        s.len() > 0,
    ensures
        log_wf(s.drop_last()),
{
    let t = s.drop_last();
    let n = s.len() - 1;
    assert(forall|j: int| 0 <= j < n ==> t[j] == s[j]);
    assert forall|kk: int| 0 <= kk < n implies entry_wf(t, kk) by {
        assert(entry_wf(s, kk));
        match s[kk].action.payload {
            Payload::Create { .. } => {},
            _ => {
                let preds = s[kk].action.predecessors@;
                assert forall|k: int| 0 <= k < preds.len() implies contains_id(
                    t,
                    #[trigger] preds[k],
                ) && depth_of_id(t, preds[k]) == depth_of_id(s, preds[k]) by {
                    assert(contains_id(s, preds[k]));
                    let ia = index_of_id(s, preds[k]);
                    assert(0 <= ia < s.len() && s[ia].id == preds[k]);
                    lemma_max_pred_depth_ge(s, preds, k);
                    assert(s[ia].depth as nat == depth_of_id(s, preds[k])) by {
                        lemma_index_of_id(s, ia);
                    }
                    assert(s[ia].depth < s[kk].depth);
                    if ia >= kk {
                        if ia > kk {
                            assert(entry_lt(s[kk], s[ia]));
                        }
                        assert(false);
                    }
                    assert(t[ia] == s[ia]);
                    assert(contains_id(t, preds[k])) by {
                        assert(t[ia].id == preds[k]);
                    }
                    assert(ids_unique(t));
                    lemma_index_of_id(t, ia);
                    lemma_index_of_id(s, ia);
                }
                lemma_max_pred_depth_congruence(s, t, preds);
            },
        }
    }
}

} // verus!

verus! {

/// Inserting a well-formed non-root entry at its canonical position keeps
/// the whole log well formed and grows the recorded actions by exactly its
/// action.
#[verifier::rlimit(100)]
proof fn lemma_insert_entry_ok(s: Seq<Entry>, p: int, e: Entry)
    requires
        log_wf(s),
        s.len() > 0,
        !(e.action.payload is Create),
        e.action.predecessors@.len() > 0,
        preds_present(s, e.action.predecessors@),
        !contains_id(s, e.id),
        e.id == spec_action_id(e.action),
        e.depth as nat == 1 + max_pred_depth(s, e.action.predecessors@),
        1 <= p <= s.len(),
        forall|j: int| 0 <= j < p ==> entry_lt(#[trigger] s[j], e),
        forall|j: int| p <= j < s.len() ==> entry_lt(e, #[trigger] s[j]),
    ensures
        log_wf(s.insert(p, e)),
        contains_id(s.insert(p, e), e.id),
        actions_of(s.insert(p, e)).to_multiset() =~= actions_of(s).to_multiset().insert(
            e.action,
        ),
        s.insert(p, e)[0] == s[0],
{
    let preds = e.action.predecessors@;
    let t = s.insert(p, e);
    assert(forall|j: int| 0 <= j < p ==> t[j] == s[j]);
    assert(t[p] == e);
    assert(forall|j: int| p < j <= s.len() ==> t[j] == s[j - 1]);
    lemma_insert_preserves_ids(s, p, e);
    assert forall|id: u64| #[trigger] contains_id(s, id) implies contains_id(t, id)
        && depth_of_id(t, id) == depth_of_id(s, id) by {
        assert(contains_id(s.insert(p, e), id) && depth_of_id(s.insert(p, e), id)
            == depth_of_id(s, id));
    }
    // Entries remain in materialization order.
    assert(entries_sorted(t)) by {
        assert forall|i: int, j: int| 0 <= i < j < t.len() implies entry_lt(t[i], t[j]) by {
            if i == p {
                assert(t[j] == s[j - 1] && p <= j - 1 < s.len());
            } else if j == p {
                assert(t[i] == s[i] && 0 <= i < p);
            } else {
                let i0: int = if i < p { i } else { i - 1 };
                let j0: int = if j < p { j } else { j - 1 };
                assert(t[i] == s[i0] && t[j] == s[j0]);
                assert(i0 < j0);
            }
        }
    }
    // Depth stays bounded by position: every predecessor of the new entry
    // sits in front of it.
    assert forall|kk: int| 0 <= kk < preds.len() implies index_of_id(
        s,
        #[trigger] preds[kk],
    ) < p by {
        let ia = index_of_id(s, preds[kk]);
        assert(0 <= ia < s.len() && s[ia].id == preds[kk]);
        lemma_max_pred_depth_ge(s, preds, kk);
        assert(s[ia].depth as nat == depth_of_id(s, preds[kk])) by {
            lemma_index_of_id(s, ia);
        }
        assert(s[ia].depth < e.depth);
        if ia >= p {
            assert(entry_lt(e, s[ia]));
            assert(false);
        }
    }
    assert(e.depth <= p) by {
        lemma_max_pred_depth_attained(s, preds);
        let kk = choose|kk: int|
            0 <= kk < preds.len() && max_pred_depth(s, preds) == depth_of_id(
                s,
                #[trigger] preds[kk],
            );
        let ia = index_of_id(s, preds[kk]);
        assert(0 <= ia < s.len() && s[ia].id == preds[kk]);
        assert(s[ia].depth as nat == depth_of_id(s, preds[kk])) by {
            lemma_index_of_id(s, ia);
        }
        assert(ia < p);
        assert(s[ia].depth <= ia);
    }
    assert(forall|j: int| 0 <= j < t.len() ==> (#[trigger] t[j]).depth <= j);
    // Every entry stays causally well formed.
    assert forall|j: int| 0 <= j < t.len() implies entry_wf(t, j) by {
        if j == p {
            lemma_max_pred_depth_congruence(s, t, preds);
        } else {
            let j0: int = if j < p { j } else { j - 1 };
            assert(t[j] == s[j0]);
            assert(entry_wf(s, j0));
            match s[j0].action.payload {
                Payload::Create { .. } => {
                    assert(j0 == 0 && j == 0);
                },
                _ => {
                    lemma_max_pred_depth_congruence(s, t, s[j0].action.predecessors@);
                },
            }
        }
    }
    assert(log_wf(t));
    // The recorded multiset of actions grows by exactly this action.
    crate::seqextra::lemma_to_multiset_insert(actions_of(s), p, e.action);
    assert(actions_of(t) =~= actions_of(s).insert(p, e.action));
}

} // verus!
