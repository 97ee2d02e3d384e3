use vstd::prelude::*;
use crate::action::{Action, NewIssue, Payload};
use crate::digest::{
    DIGEST_SEED, action_id, spec_action_id, spec_digest_payload, spec_digest_u64s, spec_mix,
};
use crate::errors::CobError;
use crate::issue::{Issue, fold_view, lemma_fold_view_id};
use crate::log::{ActionLog, Entry, actions_of, append_error, can_append, log_wf};

verus! {

/// The content-derived id that `create` gives an issue synthesized from
/// these inputs: the id of its `Create` action, which carries no
/// predecessors.
pub open spec fn create_id(new: NewIssue, author: u64, timestamp: u64) -> u64 {
    spec_digest_payload(
        spec_digest_u64s(
            spec_mix(spec_mix(spec_mix(DIGEST_SEED, author), timestamp), 0),
            Seq::<u64>::empty(),
        ),
        Payload::Create {
            title: new.title,
            description: new.description,
            labels: new.labels,
            assignees: new.assignees,
            embeds: new.embeds,
        },
    )
}

/// Some log of the collection is rooted at an issue with this id.
pub open spec fn logs_contain(s: Seq<ActionLog>, id: u64) -> bool {
    exists|i: int| 0 <= i < s.len() && s[i]@[0].id == id
}

/// The position of that log (meaningful when `logs_contain`).
pub open spec fn logs_index(s: Seq<ActionLog>, id: u64) -> int {
    choose|i: int| 0 <= i < s.len() && s[i]@[0].id == id
}

/// Well-formedness of the collection: every log is well formed and rooted,
/// and no two issues share an id.
pub open spec fn logs_wf(s: Seq<ActionLog>) -> bool {
    &&& forall|i: int|
        0 <= i < s.len() ==> log_wf((#[trigger] s[i])@) && s[i]@.len() > 0
    &&& forall|i: int, j: int| 0 <= i < j < s.len() ==> s[i]@[0].id != s[j]@[0].id
}

/// Any witness position for an issue id agrees with `logs_index`.
proof fn lemma_logs_index(s: Seq<ActionLog>, i: int)
    requires
        logs_wf(s),
        0 <= i < s.len(),
    ensures
        logs_contain(s, s[i]@[0].id),
        logs_index(s, s[i]@[0].id) == i,
{
    assert(logs_contain(s, s[i]@[0].id)) by {
        assert(0 <= i < s.len() && s[i]@[0].id == s[i]@[0].id);
    }
    let j = logs_index(s, s[i]@[0].id);
    assert(0 <= j < s.len() && s[j]@[0].id == s[i]@[0].id);
    if i < j {
        assert(s[i]@[0].id != s[j]@[0].id);
    } else if j < i {
        assert(s[j]@[0].id != s[i]@[0].id);
    }
}

/// The keyed collection of the issues of one repository: it owns the mapping
/// from issue id to action log; nothing else appends to a log.
pub struct IssueStore {
    items: Vec<ActionLog>,
}

impl IssueStore {
    /// Every reachable store is well formed.
    pub closed spec fn wf(&self) -> bool {
        logs_wf(self.items@)
    }

    /// Whether an issue with this id exists.
    pub closed spec fn contains_issue(&self, id: u64) -> bool {
        logs_contain(self.items@, id)
    }

    /// The entries of the log of that issue (meaningful when present).
    pub closed spec fn log_of(&self, id: u64) -> Seq<Entry> {
        self.items@[logs_index(self.items@, id)]@
    }

    /// The ids of all issues, in store order.
    pub closed spec fn issue_ids(&self) -> Seq<u64> {
        self.items@.map_values(|l: ActionLog| l@[0].id)
    }

    /// An empty store.
    pub fn new() -> (r: IssueStore)
        ensures
            r.wf(),
            forall|id: u64| !r.contains_issue(id),
            r.issue_ids() =~= Seq::<u64>::empty(),
    {
        IssueStore { items: Vec::new() }
    }

    /// The position of the issue with this id, if present.
    fn find_issue(&self, id: u64) -> (r: Option<usize>)
        requires
            self.wf(),
        ensures
            match r {
                Some(i) => i < self.items@.len() && self.items@[i as int]@[0].id == id
                    && self.contains_issue(id) && self.log_of(id) == self.items@[i as int]@,
                None => !self.contains_issue(id),
            },
    {
        let mut i: usize = 0;
        while i < self.items.len()
            invariant
                self.wf(),
                i <= self.items@.len(),
                forall|k: int| 0 <= k < i ==> (#[trigger] self.items@[k])@[0].id != id,
            decreases self.items@.len() - i,
        {
            let log = &self.items[i];
            let e = log.entry_at(0);
            if e.id == id {
                proof {
                    lemma_logs_index(self.items@, i as int);
                }
                return Some(i);
            }
            i = i + 1;
        }
        None
    }

    /// Synthesizes the `Create` action of a new issue, appends it to a fresh
    /// log, and returns the materialized issue. The issue id is derived from
    /// the content; creation fails exactly when that id collides with an
    /// issue already present, and then changes nothing.
    pub fn create(&mut self, new: NewIssue, author: u64, timestamp: u64) -> (r: Result<
        Issue,
        CobError,
    >)
        requires
            old(self).wf(),
        ensures
            final(self).wf(),
            match r {
                Ok(issue) => {
                    &&& !old(self).contains_issue(create_id(new, author, timestamp))
                    &&& issue@.id == create_id(new, author, timestamp)
                    &&& issue.wf()
                    &&& final(self).contains_issue(issue@.id)
                    &&& final(self).log_of(issue@.id).len() == 1
                    &&& final(self).log_of(issue@.id)[0].action.payload == Payload::Create {
                        title: new.title,
                        description: new.description,
                        labels: new.labels,
                        assignees: new.assignees,
                        embeds: new.embeds,
                    }
                    &&& final(self).log_of(issue@.id)[0].action.author == author
                    &&& final(self).log_of(issue@.id)[0].action.timestamp == timestamp
                    &&& issue@ == fold_view(final(self).log_of(issue@.id))
                    &&& final(self).issue_ids() =~= old(self).issue_ids().push(issue@.id)
                    &&& forall|x: u64|
                        x != issue@.id ==> (final(self).contains_issue(x) <==> old(
                            self,
                        ).contains_issue(x))
                    &&& forall|x: u64|
                        x != issue@.id && old(self).contains_issue(x) ==> final(self).log_of(x)
                            == old(self).log_of(x)
                },
                Err(e) => {
                    &&& e == CobError::DuplicateId
                    &&& old(self).contains_issue(create_id(new, author, timestamp))
                    &&& *final(self) == *old(self)
                },
            },
    {
        let action = Action {
            author,
            timestamp,
            predecessors: Vec::new(),
            payload: Payload::Create {
                title: new.title,
                description: new.description,
                labels: new.labels,
                assignees: new.assignees,
                embeds: new.embeds,
            },
        };
        let id = action_id(&action);
        proof {
            assert(action.predecessors@ =~= Seq::<u64>::empty());
            assert(id == create_id(new, author, timestamp));
        }
        if self.find_issue(id).is_some() {
            return Err(CobError::DuplicateId);
        }
        let mut log = ActionLog::new();
        let appended = log.append(action);
        proof {
            assert(appended is Ok);
        }
        let materialized = log.materialize();
        let issue = match materialized {
            Ok(issue) => issue,
            Err(_) => {
                proof {
                    assert(false);
                }
                return Err(CobError::DuplicateId);
            },
        };
        proof {
            assert(log@.len() == 1);
            assert(log@[0].action == action);
            assert(log@[0].id == id);
            lemma_fold_view_id(log@);
            assert(issue@.id == id);
        }
        let ghost items0 = self.items@;
        self.items.push(log);
        proof {
            let t = self.items@;
            assert(forall|k: int| 0 <= k < items0.len() ==> t[k] == items0[k]);
            assert(t[items0.len() as int] == log);
            assert(logs_wf(t)) by {
                assert forall|a: int, b: int|
                    0 <= a < b < t.len() implies t[a]@[0].id != t[b]@[0].id by {
                    if b == items0.len() {
                        lemma_logs_index(items0, a);
                    }
                }
            }
            lemma_logs_index(t, items0.len() as int);
            assert(self.contains_issue(id));
            assert(self.log_of(id) == log@);
            assert(self.issue_ids() =~= old(self).issue_ids().push(id));
            assert forall|x: u64| x != id implies (logs_contain(t, x) <==> logs_contain(
                items0,
                x,
            )) by {
                if logs_contain(items0, x) {
                    let k = logs_index(items0, x);
                    assert(t[k]@[0].id == x);
                }
                if logs_contain(t, x) {
                    let k = logs_index(t, x);
                    assert(0 <= k < t.len() && t[k]@[0].id == x);
                    assert(k != items0.len());
                    assert(items0[k]@[0].id == x);
                }
            }
            assert forall|x: u64|
                x != id && logs_contain(items0, x) implies self.log_of(x) == old(
                self,
            ).log_of(x) by {
                let k = logs_index(items0, x);
                assert(0 <= k < items0.len() && items0[k]@[0].id == x);
                assert(t[k]@[0].id == x);
                lemma_logs_index(items0, k);
                lemma_logs_index(t, k);
            }
        }
        Ok(issue)
    }

    /// Appends one action to the log of the issue with this id, re-derives
    /// the issue and returns it. Fails with `NotFound` for an unknown id,
    /// and otherwise exactly as the log append does; any failure leaves the
    /// store unchanged.
    pub fn apply(&mut self, id: u64, action: Action) -> (r: Result<Issue, CobError>)
        requires
            old(self).wf(),
        ensures
            final(self).wf(),
            match r {
                Ok(issue) => {
                    &&& old(self).contains_issue(id)
                    &&& can_append(old(self).log_of(id), action)
                    &&& final(self).contains_issue(id)
                    &&& log_wf(final(self).log_of(id))
                    &&& actions_of(final(self).log_of(id)).to_multiset() == actions_of(
                        old(self).log_of(id),
                    ).to_multiset().insert(action)
                    &&& issue@ == fold_view(final(self).log_of(id))
                    &&& issue@.id == id
                    &&& issue.wf()
                    &&& final(self).issue_ids() == old(self).issue_ids()
                    &&& forall|x: u64|
                        final(self).contains_issue(x) <==> old(self).contains_issue(x)
                    &&& forall|x: u64|
                        x != id && old(self).contains_issue(x) ==> final(self).log_of(x) == old(
                            self,
                        ).log_of(x)
                },
                Err(e) => {
                    &&& (e == CobError::NotFound <==> !old(self).contains_issue(id))
                    &&& (e != CobError::NotFound ==> old(self).contains_issue(id)
                        && !can_append(old(self).log_of(id), action)
                        && e == append_error(old(self).log_of(id), action))
                    &&& final(self).issue_ids() == old(self).issue_ids()
                    &&& forall|x: u64|
                        final(self).contains_issue(x) <==> old(self).contains_issue(x)
                    &&& forall|x: u64|
                        old(self).contains_issue(x) ==> final(self).log_of(x) == old(
                            self,
                        ).log_of(x)
                },
            },
    {
        let found = self.find_issue(id);
        let k = match found {
            None => {
                return Err(CobError::NotFound);
            },
            Some(k) => k,
        };
        let ghost items0 = self.items@;
        let mut log = self.items.remove(k);
        let appended = log.append(action);
        let ghost newlog = log@;
        self.items.insert(k, log);
        proof {
            let t = self.items@;
            assert(t.len() == items0.len());
            assert forall|j: int| 0 <= j < t.len() && j != k implies t[j] == items0[j] by {
                assert(t[j] == items0.remove(k as int).insert(k as int, log)[j]);
            }
            assert(t[k as int]@ == newlog);
            assert(newlog[0] == items0[k as int]@[0]);
            assert(log_wf(newlog));
            assert(logs_wf(t)) by {
                assert forall|a: int, b: int|
                    0 <= a < b < t.len() implies t[a]@[0].id != t[b]@[0].id by {
                    assert(items0[a]@[0].id != items0[b]@[0].id);
                }
            }
            assert(t.map_values(|l: ActionLog| l@[0].id) =~= items0.map_values(
                |l: ActionLog| l@[0].id,
            ));
            assert forall|x: u64| logs_contain(t, x) <==> logs_contain(items0, x) by {
                if logs_contain(items0, x) {
                    let w = logs_index(items0, x);
                    assert(t[w]@[0].id == x);
                }
                if logs_contain(t, x) {
                    let w = logs_index(t, x);
                    assert(items0[w]@[0].id == x);
                }
            }
            assert forall|x: u64| x != id && logs_contain(items0, x) implies self.log_of(x)
                == old(self).log_of(x) by {
                let w = logs_index(items0, x);
                assert(0 <= w < items0.len() && items0[w]@[0].id == x);
                assert(w != k);
                assert(t[w]@[0].id == x);
                lemma_logs_index(items0, w);
                lemma_logs_index(t, w);
            }
            lemma_logs_index(items0, k as int);
            lemma_logs_index(t, k as int);
            assert(old(self).log_of(id) == items0[k as int]@);
            assert(self.log_of(id) == newlog);
        }
        match appended {
            Err(e) => {
                proof {
                    assert(self.log_of(id) == old(self).log_of(id));
                }
                return Err(e);
            },
            Ok(()) => {},
        }
        let materialized = self.items[k].materialize();
        match materialized {
            Ok(issue) => {
                proof {
                    lemma_fold_view_id(newlog);
                }
                Ok(issue)
            },
            Err(_) => {
                proof {
                    assert(false);
                }
                Err(CobError::NotFound)
            },
        }
    }

    /// The current materialized snapshot of one issue; side-effect-free.
    pub fn get(&self, id: u64) -> (r: Option<Issue>)
        requires
            self.wf(),
        ensures
            match r {
                Some(issue) => self.contains_issue(id) && issue@ == fold_view(self.log_of(id))
                    && issue@.id == id && issue.wf(),
                None => !self.contains_issue(id),
            },
    {
        let found = self.find_issue(id);
        match found {
            None => None,
            Some(k) => {
                let materialized = self.items[k].materialize();
                match materialized {
                    Ok(issue) => {
                        proof {
                            lemma_logs_index(self.items@, k as int);
                            lemma_fold_view_id(self.items@[k as int]@);
                        }
                        Some(issue)
                    },
                    Err(_) => {
                        proof {
                            assert(false);
                        }
                        None
                    },
                }
            },
        }
    }

    /// A snapshot of every issue's current materialization, in store order;
    /// ordering for presentation is the query engine's job.
    pub fn list(&self) -> (r: Vec<Issue>)
        requires
            self.wf(),
        ensures
            r@.len() == self.issue_ids().len(),
            forall|k: int|
                0 <= k < r@.len() ==> (#[trigger] r@[k])@ == fold_view(
                    self.log_of(self.issue_ids()[k]),
                ) && r@[k]@.id == self.issue_ids()[k] && r@[k].wf(),
    {
        let mut out: Vec<Issue> = Vec::new();
        let mut i: usize = 0;
        while i < self.items.len()
            invariant
                self.wf(),
                i <= self.items@.len(),
                out@.len() == i,
                forall|k: int|
                    0 <= k < i ==> (#[trigger] out@[k])@ == fold_view(
                        self.log_of(self.issue_ids()[k]),
                    ) && out@[k]@.id == self.issue_ids()[k] && out@[k].wf(),
            decreases self.items@.len() - i,
        {
            let materialized = self.items[i].materialize();
            match materialized {
                Ok(issue) => {
                    proof {
                        lemma_logs_index(self.items@, i as int);
                        lemma_fold_view_id(self.items@[i as int]@);
                        assert(self.issue_ids()[i as int] == self.items@[i as int]@[0].id);
                        assert(self.log_of(self.issue_ids()[i as int]) == self.items@[
                            i as int
                        ]@);
                    }
                    out.push(issue);
                },
                Err(_) => {
                    proof {
                        assert(false);
                    }
                },
            }
            i = i + 1;
        }
        out
    }
}

} // verus!
