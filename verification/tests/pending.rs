use skillsupport::json::JsonValue;
use skillsupport::runtime::transport::pending::{PendingForward, PendingRequests};
use skillsupport::runtime::transport::session::SessionId;

const SECOND: u64 = 1_000;

fn forward(caller: u64, owner: u64, deadline: u64) -> PendingForward {
    PendingForward {
        caller: SessionId::new(caller),
        owner: SessionId::new(owner),
        original_id: JsonValue::from_u64(caller * 100),
        method: "math.add".to_string(),
        deadline,
    }
}

#[test]
fn insert_and_take_correlates_owner_response() {
    let mut pending = PendingRequests::default();
    let deadline = 5 * SECOND + SECOND;
    pending.insert(42, forward(1, 2, deadline));

    assert!(pending.take(42, SessionId::new(1)).is_none());
    assert!(pending.take(42, SessionId::new(2)).is_some());
    assert!(pending.is_empty());
}

#[test]
fn cancel_removes_pending_request() {
    let mut pending = PendingRequests::default();
    pending.insert(42, forward(1, 2, 5 * SECOND));

    assert!(pending.cancel(42).is_some());
    assert_eq!(pending.len(), 0);
}

#[test]
fn take_expired_removes_due_entries() {
    let mut pending = PendingRequests::default();
    let now = 5 * SECOND;
    pending.insert(1, forward(1, 2, now - 1));
    pending.insert(2, forward(1, 2, now + SECOND));

    let expired = pending.take_expired(now);

    assert_eq!(expired.len(), 1);
    assert_eq!(expired[0].0, 1);
    assert_eq!(pending.len(), 1);
}

#[test]
fn drain_owner_removes_owner_entries() {
    let mut pending = PendingRequests::default();
    let deadline = 5 * SECOND + SECOND;
    pending.insert(1, forward(1, 2, deadline));
    pending.insert(2, forward(1, 3, deadline));

    let drained = pending.drain_owner(SessionId::new(2));

    assert_eq!(drained.len(), 1);
    assert_eq!(drained[0].0, 1);
    assert_eq!(pending.len(), 1);
}

#[test]
fn drain_caller_removes_caller_entries() {
    let mut pending = PendingRequests::default();
    let deadline = 5 * SECOND + SECOND;
    pending.insert(1, forward(1, 2, deadline));
    pending.insert(2, forward(3, 2, deadline));

    let drained = pending.drain_caller(SessionId::new(1));

    assert_eq!(drained.len(), 1);
    assert_eq!(drained[0].0, 1);
    assert_eq!(pending.len(), 1);
}

#[test]
fn next_deadline_skips_canceled_entries() {
    let mut pending = PendingRequests::default();
    let first = 5 * SECOND + SECOND;
    let second = first + SECOND;
    pending.insert(1, forward(1, 2, first));
    pending.insert(2, forward(1, 2, second));
    pending.cancel(1);

    assert_eq!(pending.next_deadline(), Some(second));
}

#[test]
fn forward_ids_count_up_from_one() {
    let mut pending = PendingRequests::new();
    assert_eq!(pending.next_id(), 1);
    assert_eq!(pending.next_id(), 2);
    assert_eq!(pending.next_id(), 3);
    assert!(pending.is_empty());
    assert_eq!(pending.next_deadline(), None);
}

#[test]
fn expired_entries_come_out_in_deadline_order() {
    let mut pending = PendingRequests::new();
    pending.insert(7, forward(1, 2, 30));
    pending.insert(8, forward(1, 2, 10));
    pending.insert(9, forward(1, 2, 20));
    pending.insert(10, forward(1, 2, 10));
    assert_eq!(pending.next_deadline(), Some(10));

    let expired = pending.take_expired(20);
    let ids: Vec<u64> = expired.iter().map(|(id, _)| *id).collect();
    assert_eq!(ids, vec![8, 10, 9]);
    assert_eq!(pending.len(), 1);
    assert_eq!(pending.next_deadline(), Some(30));
    assert!(pending.take_expired(29).is_empty());
}

#[test]
fn inserting_an_id_again_replaces_the_entry() {
    let mut pending = PendingRequests::new();
    pending.insert(1, forward(1, 2, 10));
    pending.insert(1, forward(3, 4, 50));
    assert_eq!(pending.len(), 1);
    assert!(pending.take(1, SessionId::new(2)).is_none());
    let taken = pending.take(1, SessionId::new(4)).expect("replaced entry");
    assert_eq!(taken.caller, SessionId::new(3));
    assert_eq!(taken.original_id, JsonValue::from_u64(300));
    assert!(pending.take(1, SessionId::new(4)).is_none());
}
