use issue_cob::action::{Action, CloseReason, Embed, NewIssue, Payload, Status};
use issue_cob::digest::action_id;
use issue_cob::errors::CobError;
use issue_cob::log::ActionLog;
use issue_cob::store::IssueStore;

fn new_issue(title: &str, description: &str, labels: &[&str]) -> NewIssue {
    NewIssue {
        title: title.to_string(),
        description: description.to_string(),
        labels: labels.iter().map(|s| s.to_string()).collect(),
        assignees: Vec::new(),
        embeds: Vec::new(),
    }
}

fn create_action(author: u64, ts: u64, title: &str, labels: &[&str]) -> Action {
    Action {
        author,
        timestamp: ts,
        predecessors: Vec::new(),
        payload: Payload::Create {
            title: title.to_string(),
            description: String::new(),
            labels: labels.iter().map(|s| s.to_string()).collect(),
            assignees: Vec::new(),
            embeds: Vec::new(),
        },
    }
}

fn add_label(author: u64, ts: u64, preds: Vec<u64>, label: &str) -> Action {
    Action {
        author,
        timestamp: ts,
        predecessors: preds,
        payload: Payload::AddLabel { label: label.to_string() },
    }
}

fn remove_label(author: u64, ts: u64, preds: Vec<u64>, label: &str) -> Action {
    Action {
        author,
        timestamp: ts,
        predecessors: preds,
        payload: Payload::RemoveLabel { label: label.to_string() },
    }
}

fn set_title(author: u64, ts: u64, preds: Vec<u64>, title: &str) -> Action {
    Action {
        author,
        timestamp: ts,
        predecessors: preds,
        payload: Payload::SetTitle { title: title.to_string() },
    }
}

fn sorted_labels(labels: &[String]) -> Vec<String> {
    let mut v: Vec<String> = labels.to_vec();
    v.sort();
    v
}

#[test]
fn convergence_two_delivery_orders() {
    let mut log1 = ActionLog::new();
    let mut log2 = ActionLog::new();
    let root_id = {
        let c = create_action(1, 10, "Bug A", &[]);
        action_id(&c)
    };

    assert!(log1.append(create_action(1, 10, "Bug A", &[])).is_ok());
    assert!(log2.append(create_action(1, 10, "Bug A", &[])).is_ok());

    // Two concurrent edits, delivered in opposite orders.
    assert!(log1.append(add_label(2, 20, vec![root_id], "x")).is_ok());
    assert!(log1.append(set_title(3, 30, vec![root_id], "Bug B")).is_ok());

    assert!(log2.append(set_title(3, 30, vec![root_id], "Bug B")).is_ok());
    assert!(log2.append(add_label(2, 20, vec![root_id], "x")).is_ok());

    let i1 = log1.materialize().unwrap();
    let i2 = log2.materialize().unwrap();
    assert_eq!(i1.title, i2.title);
    assert_eq!(i1.description, i2.description);
    assert_eq!(i1.state, i2.state);
    assert_eq!(sorted_labels(&i1.labels), sorted_labels(&i2.labels));
    assert_eq!(i1.assignees, i2.assignees);
    assert_eq!(i1.timestamp, i2.timestamp);
    assert_eq!(i1.id, i2.id);
    assert_eq!(i1.title, "Bug B");
    assert_eq!(sorted_labels(&i1.labels), vec!["x".to_string()]);
}

#[test]
fn tie_break_is_deterministic() {
    // Two concurrent title edits with no causal link between them.
    let root_id = action_id(&create_action(1, 10, "T", &[]));
    let mut log1 = ActionLog::new();
    let mut log2 = ActionLog::new();
    assert!(log1.append(create_action(1, 10, "T", &[])).is_ok());
    assert!(log2.append(create_action(1, 10, "T", &[])).is_ok());

    assert!(log1.append(set_title(2, 50, vec![root_id], "A")).is_ok());
    assert!(log1.append(set_title(3, 50, vec![root_id], "B")).is_ok());

    assert!(log2.append(set_title(3, 50, vec![root_id], "B")).is_ok());
    assert!(log2.append(set_title(2, 50, vec![root_id], "A")).is_ok());

    let first = log1.materialize().unwrap();
    let second = log1.materialize().unwrap();
    let other = log2.materialize().unwrap();
    // Repeated materialization of the same log, and materialization on the
    // other replica, all pick the same winner.
    assert_eq!(first.title, second.title);
    assert_eq!(first.title, other.title);
    // Concurrent scalar writes are won by the higher author-then-timestamp
    // pair, which is folded last.
    assert_eq!(first.title, "B");
}

#[test]
fn causal_rejection_leaves_log_unchanged() {
    let mut log = ActionLog::new();
    assert!(log.append(create_action(1, 10, "T", &[])).is_ok());
    let before = log.materialize().unwrap();

    let bogus = add_label(2, 20, vec![0xdead], "x");
    assert_eq!(log.append(bogus), Err(CobError::Causality));

    assert_eq!(log.len(), 1);
    let after = log.materialize().unwrap();
    assert_eq!(before.title, after.title);
    assert_eq!(before.labels, after.labels);
    assert_eq!(before.timestamp, after.timestamp);
}

#[test]
fn orphan_edit_and_missing_create_are_rejected() {
    let mut log = ActionLog::new();
    // The first action of a log must be its `Create`.
    let r = log.append(add_label(1, 10, vec![], "x"));
    assert_eq!(r, Err(CobError::MissingCreate));
    assert_eq!(log.len(), 0);
    assert_eq!(log.materialize().err(), Some(CobError::IncompleteLog));

    assert!(log.append(create_action(1, 10, "T", &[])).is_ok());
    // An edit that references nothing is an orphan.
    let r = log.append(add_label(2, 20, vec![], "x"));
    assert_eq!(r, Err(CobError::Causality));
    // A second root is refused as well.
    let r = log.append(create_action(2, 20, "T2", &[]));
    assert_eq!(r, Err(CobError::Causality));
}

#[test]
fn duplicate_delivery_is_rejected_and_harmless() {
    let root_id = action_id(&create_action(1, 10, "T", &[]));
    let mut log = ActionLog::new();
    assert!(log.append(create_action(1, 10, "T", &[])).is_ok());
    assert!(log.append(add_label(2, 20, vec![root_id], "x")).is_ok());
    // The same action again carries the same content id.
    let r = log.append(add_label(2, 20, vec![root_id], "x"));
    assert_eq!(r, Err(CobError::DuplicateId));
    let issue = log.materialize().unwrap();
    assert_eq!(issue.labels, vec!["x".to_string()]);
}

#[test]
fn add_label_twice_is_idempotent() {
    // Two distinct additions of the same label leave the same label set as
    // one.
    let root_id = action_id(&create_action(1, 10, "T", &[]));
    let mut once = ActionLog::new();
    assert!(once.append(create_action(1, 10, "T", &[])).is_ok());
    assert!(once.append(add_label(2, 20, vec![root_id], "x")).is_ok());

    let mut twice = ActionLog::new();
    assert!(twice.append(create_action(1, 10, "T", &[])).is_ok());
    assert!(twice.append(add_label(2, 20, vec![root_id], "x")).is_ok());
    assert!(twice.append(add_label(2, 21, vec![root_id], "x")).is_ok());

    let a = once.materialize().unwrap();
    let b = twice.materialize().unwrap();
    assert_eq!(sorted_labels(&a.labels), sorted_labels(&b.labels));
    assert_eq!(sorted_labels(&b.labels), vec!["x".to_string()]);
}

#[test]
fn concurrent_add_and_remove_resolve_deterministically() {
    let root_id = action_id(&create_action(1, 10, "T", &[]));
    let add = || add_label(2, 20, vec![root_id], "x");
    let remove = || remove_label(3, 20, vec![root_id], "x");

    let mut log1 = ActionLog::new();
    assert!(log1.append(create_action(1, 10, "T", &[])).is_ok());
    assert!(log1.append(add()).is_ok());
    assert!(log1.append(remove()).is_ok());

    let mut log2 = ActionLog::new();
    assert!(log2.append(create_action(1, 10, "T", &[])).is_ok());
    assert!(log2.append(remove()).is_ok());
    assert!(log2.append(add()).is_ok());

    let i1 = log1.materialize().unwrap();
    let i2 = log2.materialize().unwrap();
    assert_eq!(i1.labels, i2.labels);
    // The remove carries the higher author key, so it is folded last and
    // wins over the concurrent add.
    assert!(i1.labels.is_empty());
}

#[test]
fn causally_linked_edits_fold_in_causal_order() {
    // A status change that has seen an earlier one overrides it, whatever
    // the tie-break keys say.
    let create = || create_action(5, 10, "T", &[]);
    let root_id = action_id(&create());
    let close = Action {
        author: 4,
        timestamp: 20,
        predecessors: vec![root_id],
        payload: Payload::SetStatus { status: Status::Closed { reason: CloseReason::Solved } },
    };
    let close_id = action_id(&close);
    let reopen = Action {
        author: 1,
        timestamp: 5,
        predecessors: vec![close_id],
        payload: Payload::SetStatus { status: Status::Open },
    };
    let mut log = ActionLog::new();
    assert!(log.append(create()).is_ok());
    assert!(log.append(close).is_ok());
    assert!(log.append(reopen).is_ok());
    let issue = log.materialize().unwrap();
    assert_eq!(issue.state, Status::Open);
}

#[test]
fn embeds_are_appended_and_tombstoned_in_place() {
    let mut create = create_action(1, 10, "T", &[]);
    if let Payload::Create { embeds, .. } = &mut create.payload {
        embeds.push(Embed { name: "shot.png".to_string(), content: "aaa".to_string() });
    }
    let root_id = action_id(&create);
    let add = Action {
        author: 2,
        timestamp: 20,
        predecessors: vec![root_id],
        payload: Payload::AddEmbed {
            embed: Embed { name: "log.txt".to_string(), content: "bbb".to_string() },
        },
    };
    let add_id = action_id(&add);
    let remove = Action {
        author: 2,
        timestamp: 30,
        predecessors: vec![add_id],
        payload: Payload::RemoveEmbed { name: "shot.png".to_string() },
    };
    let mut log = ActionLog::new();
    assert!(log.append(create).is_ok());
    assert!(log.append(add).is_ok());
    assert!(log.append(remove).is_ok());
    let issue = log.materialize().unwrap();
    assert_eq!(issue.embeds.len(), 2);
    assert_eq!(issue.embeds[0].name, "shot.png");
    assert!(issue.embeds[0].removed);
    assert_eq!(issue.embeds[1].name, "log.txt");
    assert!(!issue.embeds[1].removed);
}

#[test]
fn comment_refreshes_timestamp_only() {
    let root_id = action_id(&create_action(1, 10, "T", &[]));
    let mut log = ActionLog::new();
    assert!(log.append(create_action(1, 10, "T", &[])).is_ok());
    let comment = Action {
        author: 2,
        timestamp: 99,
        predecessors: vec![root_id],
        payload: Payload::Comment { body: "hello".to_string(), reply_to: None },
    };
    assert!(log.append(comment).is_ok());
    let issue = log.materialize().unwrap();
    assert_eq!(issue.title, "T");
    assert_eq!(issue.timestamp, 99);
}

#[test]
fn store_scenario_create_label_close() {
    let mut store = IssueStore::new();
    let issue = store.create(new_issue("Bug A", "", &["bug"]), 7, 100).unwrap();
    let id = issue.id;
    assert_eq!(issue.title, "Bug A");
    assert_eq!(issue.state, Status::Open);

    let issue = store.apply(id, add_label(7, 110, vec![id], "urgent")).unwrap();
    assert_eq!(sorted_labels(&issue.labels), vec!["bug".to_string(), "urgent".to_string()]);

    let close = Action {
        author: 7,
        timestamp: 120,
        predecessors: vec![id],
        payload: Payload::SetStatus { status: Status::Closed { reason: CloseReason::Other } },
    };
    store.apply(id, close).unwrap();

    let got = store.get(id).unwrap();
    assert_eq!(got.title, "Bug A");
    assert_eq!(sorted_labels(&got.labels), vec!["bug".to_string(), "urgent".to_string()]);
    assert_eq!(got.state, Status::Closed { reason: CloseReason::Other });
}

#[test]
fn store_reports_not_found_and_duplicate() {
    let mut store = IssueStore::new();
    assert!(store.get(42).is_none());
    let r = store.apply(42, add_label(1, 10, vec![1], "x"));
    assert_eq!(r.err(), Some(CobError::NotFound));

    let first = store.create(new_issue("Same", "d", &[]), 1, 10).unwrap();
    let again = store.create(new_issue("Same", "d", &[]), 1, 10);
    assert_eq!(again.err(), Some(CobError::DuplicateId));
    assert!(store.get(first.id).is_some());
}

#[test]
fn store_propagates_causality_error() {
    let mut store = IssueStore::new();
    let issue = store.create(new_issue("T", "", &[]), 1, 10).unwrap();
    let r = store.apply(issue.id, add_label(2, 20, vec![0xbeef], "x"));
    assert_eq!(r.err(), Some(CobError::Causality));
    // The failed apply left the issue unchanged.
    let got = store.get(issue.id).unwrap();
    assert!(got.labels.is_empty());
    assert_eq!(got.timestamp, 10);
}

#[test]
fn assignees_and_description_fold_as_sets_and_scalars() {
    let create = || create_action(1, 10, "T", &[]);
    let root_id = action_id(&create());
    let assign = |author: u64, ts: u64, who: u64| Action {
        author,
        timestamp: ts,
        predecessors: vec![root_id],
        payload: Payload::AddAssignee { assignee: who },
    };
    let unassign = |author: u64, ts: u64, who: u64| Action {
        author,
        timestamp: ts,
        predecessors: vec![root_id],
        payload: Payload::RemoveAssignee { assignee: who },
    };
    let describe = Action {
        author: 2,
        timestamp: 40,
        predecessors: vec![root_id],
        payload: Payload::SetDescription { description: "details".to_string() },
    };
    let mut log = ActionLog::new();
    assert!(log.append(create()).is_ok());
    assert!(log.append(assign(2, 20, 11)).is_ok());
    assert!(log.append(assign(2, 21, 12)).is_ok());
    assert!(log.append(assign(2, 22, 11)).is_ok());
    assert!(log.append(unassign(2, 23, 12)).is_ok());
    assert!(log.append(describe).is_ok());
    let issue = log.materialize().unwrap();
    assert_eq!(issue.assignees, vec![11]);
    assert_eq!(issue.description, "details");
}

#[test]
fn errors_describe_themselves() {
    assert_eq!(CobError::Causality.describe(), "referenced predecessor is missing");
    assert_eq!(CobError::MissingCreate.describe(), "first action must be a create");
    assert_eq!(CobError::IncompleteLog.describe(), "log lacks its create action");
    assert_eq!(CobError::DuplicateId.describe(), "content-derived id already present");
    assert_eq!(CobError::NotFound.describe(), "no issue with this id");
}
