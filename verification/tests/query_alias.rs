use issue_cob::action::{CloseReason, Status};
use issue_cob::alias::AliasBook;
use issue_cob::issue::Issue;
use issue_cob::query::{StatusFilter, query};

fn issue(id: u64, ts: u64, state: Status) -> Issue {
    Issue {
        id,
        author: 1,
        title: format!("issue {}", id),
        description: String::new(),
        state,
        labels: Vec::new(),
        assignees: Vec::new(),
        embeds: Vec::new(),
        timestamp: ts,
    }
}

#[test]
fn query_orders_newest_first() {
    let closed = Status::Closed { reason: CloseReason::Other };
    // Timestamps t1 > t2 > t3, handed over out of order.
    let snapshot = vec![
        issue(2, 200, Status::Open),
        issue(3, 100, closed),
        issue(1, 300, Status::Open),
    ];
    let r = query(snapshot, None);
    let ids: Vec<u64> = r.iter().map(|i| i.id).collect();
    assert_eq!(ids, vec![1, 2, 3]);

    let snapshot = vec![
        issue(2, 200, Status::Open),
        issue(3, 100, closed),
        issue(1, 300, Status::Open),
    ];
    let r = query(snapshot, Some(StatusFilter::Open));
    let ids: Vec<u64> = r.iter().map(|i| i.id).collect();
    // Only the open issues, in the same relative order.
    assert_eq!(ids, vec![1, 2]);

    let snapshot = vec![
        issue(2, 200, Status::Open),
        issue(3, 100, closed),
        issue(1, 300, Status::Open),
    ];
    let r = query(snapshot, Some(StatusFilter::Closed));
    let ids: Vec<u64> = r.iter().map(|i| i.id).collect();
    assert_eq!(ids, vec![3]);
}

#[test]
fn query_breaks_timestamp_ties_by_id() {
    let snapshot = vec![
        issue(9, 100, Status::Open),
        issue(3, 100, Status::Open),
        issue(5, 100, Status::Open),
    ];
    let r = query(snapshot, None);
    let ids: Vec<u64> = r.iter().map(|i| i.id).collect();
    assert_eq!(ids, vec![3, 5, 9]);
}

#[test]
fn alias_book_resolves_and_replaces() {
    let mut book = AliasBook::new();
    assert!(book.resolve(1).is_none());
    book.register(1, "alice".to_string());
    book.register(2, "bob".to_string());
    assert_eq!(book.resolve(1).as_deref(), Some("alice"));
    assert_eq!(book.resolve(2).as_deref(), Some("bob"));
    assert!(book.resolve(3).is_none());
    book.register(1, "alicia".to_string());
    assert_eq!(book.resolve(1).as_deref(), Some("alicia"));
    assert_eq!(book.resolve(2).as_deref(), Some("bob"));
}
