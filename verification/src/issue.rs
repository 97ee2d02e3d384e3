use vstd::prelude::*;
use crate::action::{Embed, Payload, Status};
use crate::errors::CobError;
use crate::log::{ActionLog, Entry, entry_wf, log_wf};
use crate::setvec::{
    add_string, add_u64, remove_string, remove_u64, strings_nodup, strings_set, u64s_nodup,
};

verus! {

/// Mathematical view of one embed slot of a materialized issue.
#[verifier::ext_equal]
pub ghost struct EmbedSlotView {
    pub name: Seq<char>,
    pub content: Seq<char>,
    pub removed: bool,
}

/// One attachment slot of a materialized issue. Slots are append-only;
/// removing an embed only marks matching slots, keeping the position of the
/// others stable.
pub struct EmbedSlot {
    pub name: String,
    pub content: String,
    pub removed: bool,
}

impl View for EmbedSlot {
    type V = EmbedSlotView;

    open spec fn view(&self) -> EmbedSlotView {
        EmbedSlotView { name: self.name@, content: self.content@, removed: self.removed }
    }
}

/// Mathematical view of a materialized issue: scalar fields as sequences of
/// characters, label and assignee collections as sets, embeds as an ordered
/// sequence of slots.
#[verifier::ext_equal]
pub ghost struct IssueView {
    pub id: u64,
    pub author: u64,
    pub title: Seq<char>,
    pub description: Seq<char>,
    pub state: Status,
    pub labels: Set<Seq<char>>,
    pub assignees: Set<u64>,
    pub embeds: Seq<EmbedSlotView>,
    pub timestamp: u64,
}

/// The materialized view of an issue: a pure function of its action log,
/// never stored authoritatively.
pub struct Issue {
    /// Content-derived id of the `Create` action.
    pub id: u64,
    /// Author of the `Create` action.
    pub author: u64,
    pub title: String,
    pub description: String,
    pub state: Status,
    pub labels: Vec<String>,
    pub assignees: Vec<u64>,
    pub embeds: Vec<EmbedSlot>,
    /// Timestamp of the action that comes last in materialization order.
    pub timestamp: u64,
}

impl View for Issue {
    type V = IssueView;

    open spec fn view(&self) -> IssueView {
        IssueView {
            id: self.id,
            author: self.author,
            title: self.title@,
            description: self.description@,
            state: self.state,
            labels: strings_set(self.labels@),
            assignees: self.assignees@.to_set(),
            embeds: self.embeds@.map_values(|e: EmbedSlot| e@),
            timestamp: self.timestamp,
        }
    }
}

impl Issue {
    /// The label and assignee lists carry no duplicates, so they faithfully
    /// represent the sets of the view.
    pub open spec fn wf(&self) -> bool {
        &&& strings_nodup(self.labels@)
        &&& u64s_nodup(self.assignees@)
    }
}

/// Initial slots of a `Create` action's embeds: none removed.
pub open spec fn embeds_init(v: Seq<Embed>) -> Seq<EmbedSlotView> {
    v.map_values(|e: Embed| EmbedSlotView { name: e.name@, content: e.content@, removed: false })
}

/// Slots with a matching name tombstoned; the others untouched.
pub open spec fn embeds_tombstone(s: Seq<EmbedSlotView>, name: Seq<char>) -> Seq<EmbedSlotView> {
    s.map_values(
        |slot: EmbedSlotView|
            if slot.name == name {
                EmbedSlotView { name: slot.name, content: slot.content, removed: true }
            } else {
                slot
            },
    )
}

/// The issue value established by the `Create` entry of a log.
pub open spec fn create_view(e: Entry) -> IssueView {
    match e.action.payload {
        Payload::Create { title, description, labels, assignees, embeds } => IssueView {
            id: e.id,
            author: e.action.author,
            title: title@,
            description: description@,
            state: Status::Open,
            labels: strings_set(labels@),
            assignees: assignees@.to_set(),
            embeds: embeds_init(embeds@),
            timestamp: e.action.timestamp,
        },
        _ => vstd::pervasive::arbitrary(),
    }
}

/// One non-`Create` entry folded into the running issue view. Scalar fields
/// are overwritten (so the entry that is last in materialization order wins);
/// label and assignee edits are idempotent set operations; embeds are
/// appended or tombstoned; a comment only refreshes the timestamp.
pub open spec fn step_view(v: IssueView, e: Entry) -> IssueView {
    let w = IssueView { timestamp: e.action.timestamp, ..v };
    match e.action.payload {
        Payload::Create { .. } => v,
        Payload::SetTitle { title } => IssueView { title: title@, ..w },
        Payload::SetDescription { description } => IssueView { description: description@, ..w },
        Payload::SetStatus { status } => IssueView { state: status, ..w },
        Payload::AddLabel { label } => IssueView { labels: w.labels.insert(label@), ..w },
        Payload::RemoveLabel { label } => IssueView { labels: w.labels.remove(label@), ..w },
        Payload::AddAssignee { assignee } => IssueView {
            assignees: w.assignees.insert(assignee),
            ..w
        },
        Payload::RemoveAssignee { assignee } => IssueView {
            assignees: w.assignees.remove(assignee),
            ..w
        },
        Payload::AddEmbed { embed } => IssueView {
            embeds: w.embeds.push(
                EmbedSlotView { name: embed.name@, content: embed.content@, removed: false },
            ),
            ..w
        },
        Payload::RemoveEmbed { name } => IssueView {
            embeds: embeds_tombstone(w.embeds, name@),
            ..w
        },
        Payload::Comment { .. } => w,
    }
}

/// The materialization of a whole log: the `Create` entry's value, with every
/// later entry folded in, in the materialization order the log maintains.
pub open spec fn fold_view(s: Seq<Entry>) -> IssueView
    decreases s.len(),
{
    if s.len() == 0 {
        vstd::pervasive::arbitrary()
    } else if s.len() == 1 {
        create_view(s[0])
    } else {
        step_view(fold_view(s.drop_last()), s.last())
    }
}

/// Copies a list of strings, deduplicating contents.
fn dedup_strings(src: &Vec<String>) -> (r: Vec<String>)
    ensures
        strings_nodup(r@),
        strings_set(r@) == strings_set(src@),
{
    let mut out: Vec<String> = Vec::new();
    let mut i: usize = 0;
    proof {
        assert(strings_set(out@) =~= strings_set(src@.take(0)));
    }
    while i < src.len()
        invariant
            i <= src@.len(),
            strings_nodup(out@),
            strings_set(out@) == strings_set(src@.take(i as int)),
        decreases src@.len() - i,
    {
        add_string(&mut out, &src[i]);
        proof {
            let pre = src@.take(i as int);
            let cur = src@.take(i as int + 1);
            assert(cur =~= pre.push(src@[i as int]));
            assert(strings_set(cur) =~= strings_set(pre).insert(src@[i as int]@)) by {
                let mp = pre.map_values(|s: String| s@);
                let mc = cur.map_values(|s: String| s@);
                assert(mc =~= mp.push(src@[i as int]@));
                assert forall|a: Seq<char>|
                    mc.contains(a) <==> (mp.contains(a) || a == src@[i as int]@) by {
                    if mc.contains(a) {
                        let k = choose|k: int| 0 <= k < mc.len() && mc[k] == a;
                        if k < mp.len() {
                            assert(mp[k] == a);
                        }
                    }
                    if mp.contains(a) {
                        let k = choose|k: int| 0 <= k < mp.len() && mp[k] == a;
                        assert(mc[k] == a);
                    }
                    if a == src@[i as int]@ {
                        assert(mc[mc.len() - 1] == a);
                    }
                }
            }
        }
        i = i + 1;
    }
    proof {
        assert(src@.take(i as int) =~= src@);
    }
    out
}

/// Copies a list of values, deduplicating.
fn dedup_u64s(src: &Vec<u64>) -> (r: Vec<u64>)
    ensures
        u64s_nodup(r@),
        r@.to_set() == src@.to_set(),
{
    let mut out: Vec<u64> = Vec::new();
    let mut i: usize = 0;
    proof {
        assert(out@.to_set() =~= src@.take(0).to_set());
    }
    while i < src.len()
        invariant
            i <= src@.len(),
            u64s_nodup(out@),
            out@.to_set() == src@.take(i as int).to_set(),
        decreases src@.len() - i,
    {
        add_u64(&mut out, src[i]);
        proof {
            let pre = src@.take(i as int);
            let cur = src@.take(i as int + 1);
            assert(cur =~= pre.push(src@[i as int]));
            assert(cur.to_set() =~= pre.to_set().insert(src@[i as int])) by {
                assert forall|c: u64|
                    cur.contains(c) <==> (pre.contains(c) || c == src@[i as int]) by {
                    if cur.contains(c) {
                        let k = choose|k: int| 0 <= k < cur.len() && cur[k] == c;
                        if k < pre.len() {
                            assert(pre[k] == c);
                        }
                    }
                    if pre.contains(c) {
                        let k = choose|k: int| 0 <= k < pre.len() && pre[k] == c;
                        assert(cur[k] == c);
                    }
                    if c == src@[i as int] {
                        assert(cur[cur.len() - 1] == c);
                    }
                }
            }
        }
        i = i + 1;
    }
    proof {
        assert(src@.take(i as int) =~= src@);
    }
    out
}

/// Copies the embeds of a `Create` action into initial slots.
fn init_embeds(src: &Vec<Embed>) -> (r: Vec<EmbedSlot>)
    ensures
        r@.map_values(|e: EmbedSlot| e@) == embeds_init(src@),
{
    let mut out: Vec<EmbedSlot> = Vec::new();
    let mut i: usize = 0;
    while i < src.len()
        invariant
            i <= src@.len(),
            out@.len() == i,
            out@.map_values(|e: EmbedSlot| e@) =~= embeds_init(src@.take(i as int)),
        decreases src@.len() - i,
    {
        let ghost out0 = out@;
        let e = &src[i];
        out.push(EmbedSlot { name: e.name.clone(), content: e.content.clone(), removed: false });
        proof {
            let m0 = out0.map_values(|x: EmbedSlot| x@);
            let m1 = out@.map_values(|x: EmbedSlot| x@);
            let g = embeds_init(src@.take(i as int + 1));
            assert(m1.len() == g.len());
            assert forall|k: int| 0 <= k < m1.len() implies m1[k] == g[k] by {
                assert(g[k] == EmbedSlotView {
                    name: src@.take(i as int + 1)[k].name@,
                    content: src@.take(i as int + 1)[k].content@,
                    removed: false,
                });
                if k < i {
                    assert(m1[k] == out0[k]@);
                    assert(m0[k] == embeds_init(src@.take(i as int))[k]);
                } else {
                    assert(m1[k] == out@[k]@);
                    assert(out@[k as int] == out@[out@.len() - 1]);
                }
            }
            assert(m1 =~= g);
        }
        i = i + 1;
    }
    proof {
        assert(src@.take(i as int) =~= src@);
    }
    out
}

/// Rebuilds the slots with every slot of a matching name tombstoned.
fn tombstone_embeds(src: &Vec<EmbedSlot>, name: &String) -> (r: Vec<EmbedSlot>)
    ensures
        r@.map_values(|e: EmbedSlot| e@) == embeds_tombstone(
            src@.map_values(|e: EmbedSlot| e@),
            name@,
        ),
{
    let ghost goal = embeds_tombstone(src@.map_values(|e: EmbedSlot| e@), name@);
    let mut out: Vec<EmbedSlot> = Vec::new();
    let mut i: usize = 0;
    while i < src.len()
        invariant
            i <= src@.len(),
            goal == embeds_tombstone(src@.map_values(|e: EmbedSlot| e@), name@),
            out@.len() == i,
            forall|k: int| 0 <= k < i ==> out@.map_values(|e: EmbedSlot| e@)[k] == goal[k],
        decreases src@.len() - i,
    {
        let e = &src[i];
        if e.name == *name {
            out.push(EmbedSlot { name: e.name.clone(), content: e.content.clone(), removed: true });
        } else {
            out.push(
                EmbedSlot { name: e.name.clone(), content: e.content.clone(), removed: e.removed },
            );
        }
        i = i + 1;
    }
    proof {
        assert(out@.map_values(|e: EmbedSlot| e@) =~= goal);
    }
    out
}

/// Folds one non-`Create` entry into a materialized issue, exactly as
/// `step_view` does on the view.
fn apply_entry(issue: &mut Issue, e: &Entry)
    requires
        old(issue).wf(),
    ensures
        final(issue).wf(),
        final(issue)@ == step_view(old(issue)@, *e),
{
    match &e.action.payload {
        Payload::Create { .. } => {
            return;
        },
        _ => {},
    }
    issue.timestamp = e.action.timestamp;
    match &e.action.payload {
        Payload::Create { .. } => {},
        Payload::SetTitle { title } => {
            issue.title = title.clone();
        },
        Payload::SetDescription { description } => {
            issue.description = description.clone();
        },
        Payload::SetStatus { status } => {
            issue.state = *status;
        },
        Payload::AddLabel { label } => {
            add_string(&mut issue.labels, label);
        },
        Payload::RemoveLabel { label } => {
            remove_string(&mut issue.labels, label);
        },
        Payload::AddAssignee { assignee } => {
            add_u64(&mut issue.assignees, *assignee);
        },
        Payload::RemoveAssignee { assignee } => {
            remove_u64(&mut issue.assignees, *assignee);
        },
        Payload::AddEmbed { embed } => {
            issue.embeds.push(
                EmbedSlot {
                    name: embed.name.clone(),
                    content: embed.content.clone(),
                    removed: false,
                },
            );
            proof {
                assert(issue.embeds@.map_values(|x: EmbedSlot| x@) =~= old(
                    issue,
                ).embeds@.map_values(|x: EmbedSlot| x@).push(
                    EmbedSlotView { name: embed.name@, content: embed.content@, removed: false },
                ));
            }
        },
        Payload::RemoveEmbed { name } => {
            let rebuilt = tombstone_embeds(&issue.embeds, name);
            issue.embeds = rebuilt;
        },
        Payload::Comment { .. } => {},
    }
}

impl ActionLog {
    /// Derives the current issue from the log: the `Create` entry's fields,
    /// with every later entry folded in, in materialization order. Pure: the
    /// log is read, never changed, and the result is a function of its
    /// content alone. Fails exactly on a log that still lacks its `Create`
    /// action.
    pub fn materialize(&self) -> (r: Result<Issue, CobError>)
        requires
            self.wf(),
        ensures
            match r {
                Ok(issue) => self@.len() > 0 && issue@ == fold_view(self@) && issue.wf(),
                Err(e) => self@.len() == 0 && e == CobError::IncompleteLog,
            },
    {
        if self.len() == 0 {
            return Err(CobError::IncompleteLog);
        }
        proof {
            assert(entry_wf(self@, 0));
        }
        let first = self.entry_at(0);
        let mut issue: Issue = match &first.action.payload {
            Payload::Create { title, description, labels, assignees, embeds } => {
                Issue {
                    id: first.id,
                    author: first.action.author,
                    title: title.clone(),
                    description: description.clone(),
                    state: Status::Open,
                    labels: dedup_strings(labels),
                    assignees: dedup_u64s(assignees),
                    embeds: init_embeds(embeds),
                    timestamp: first.action.timestamp,
                }
            },
            _ => {
                proof {
                    assert(false);
                }
                return Err(CobError::IncompleteLog);
            },
        };
        proof {
            assert(issue@ == create_view(self@[0]));
            assert(self@.take(1) =~= seq![self@[0]]);
            assert(fold_view(self@.take(1)) == create_view(self@[0]));
        }
        let mut i: usize = 1;
        while i < self.len()
            invariant
                self.wf(),
                1 <= i <= self@.len(),
                issue.wf(),
                issue@ == fold_view(self@.take(i as int)),
            decreases self@.len() - i,
        {
            let e = self.entry_at(i);
            apply_entry(&mut issue, e);
            proof {
                let pre = self@.take(i as int);
                let cur = self@.take(i as int + 1);
                assert(cur.drop_last() =~= pre);
                assert(cur.last() == self@[i as int]);
                assert(cur.len() > 1);
            }
            i = i + 1;
        }
        proof {
            assert(self@.take(i as int) =~= self@);
        }
        Ok(issue)
    }
}

} // verus!

verus! {

/// The id and the author of a materialized issue are those of the `Create`
/// entry; no later action changes them.
pub proof fn lemma_fold_view_id(s: Seq<Entry>)
    requires
        log_wf(s),
        s.len() > 0,
    ensures
        fold_view(s).id == s[0].id,
        fold_view(s).author == s[0].action.author,
    decreases s.len(),
{
    if s.len() == 1 {
        assert(entry_wf(s, 0));
        if !(s[0].action.payload is Create) {
            assert(false);
        }
    } else {
        crate::log::lemma_wf_drop_last(s);
        lemma_fold_view_id(s.drop_last());
        assert(s.drop_last()[0] == s[0]);
    }
}

} // verus!
