use but_ai::circulation::holds::HoldsQueue;
use but_ai::circulation::tracker::CirculationTracker;
use but_ai::circulation::{CollectionRef, HoldUrgency};
use but_ai::ids::{AgentId, ItemId};

fn make_hold(queue: &mut HoldsQueue, item: &str, urgency: HoldUrgency) -> String {
    queue.place_hold(
        ItemId(item.into()),
        CollectionRef {
            uri: "github.com/org/repo".into(),
        },
        AgentId("shelver".into()),
        urgency,
        "2026-03-28T14:00:00Z",
        None,
    )
}

#[test]
fn place_and_satisfy() {
    let mut queue = HoldsQueue::new();
    let id = make_hold(&mut queue, "mem_001", HoldUrgency::Normal);

    assert_eq!(queue.pending_count(), 1);
    assert!(queue.satisfy(&id));
    assert_eq!(queue.pending_count(), 0);
}

#[test]
fn urgency_ordering() {
    let mut queue = HoldsQueue::new();
    let _normal = make_hold(&mut queue, "item_a", HoldUrgency::Normal);
    let rush = make_hold(&mut queue, "item_b", HoldUrgency::Rush);

    let pending = queue.pending();
    assert_eq!(pending[0].hold_id, rush);
}

#[test]
fn satisfy_item_batch() {
    let mut queue = HoldsQueue::new();
    make_hold(&mut queue, "mem_001", HoldUrgency::Normal);
    make_hold(&mut queue, "mem_001", HoldUrgency::Rush);
    make_hold(&mut queue, "mem_002", HoldUrgency::Normal);

    let count = queue.satisfy_item(&ItemId("mem_001".into()));
    assert_eq!(count, 2);
    assert_eq!(queue.pending_count(), 1);
}

#[test]
fn overdue_detection() {
    let mut queue = HoldsQueue::new();
    queue.place_hold(
        ItemId("mem_001".into()),
        CollectionRef {
            uri: "github.com/org/repo".into(),
        },
        AgentId("shelver".into()),
        HoldUrgency::Normal,
        "2026-03-01T00:00:00Z",
        Some("2026-03-15T00:00:00Z".into()),
    );

    let overdue = queue.find_overdue("2026-03-28T00:00:00Z");
    assert_eq!(overdue.len(), 1);
}

#[test]
fn purge_satisfied() {
    let mut queue = HoldsQueue::new();
    let id = make_hold(&mut queue, "mem_001", HoldUrgency::Normal);
    make_hold(&mut queue, "mem_002", HoldUrgency::Normal);

    queue.satisfy(&id);
    let purged = queue.purge_satisfied();
    assert_eq!(purged, 1);
    assert_eq!(queue.total_count(), 1);
}

#[test]
fn holds_are_renumbered_by_urgency() {
    let mut queue = HoldsQueue::new();
    let n = make_hold(&mut queue, "a", HoldUrgency::Normal);
    let ill = make_hold(&mut queue, "b", HoldUrgency::InterlibraryLoan);
    let rush = make_hold(&mut queue, "c", HoldUrgency::Rush);
    let pending = queue.pending();
    assert_eq!(pending.len(), 3);
    assert_eq!(pending[0].hold_id, rush);
    assert_eq!(pending[1].hold_id, ill);
    assert_eq!(pending[2].hold_id, n);
    assert_eq!(pending[0].queue_position, 1);
    assert_eq!(pending[1].queue_position, 2);
    assert_eq!(pending[2].queue_position, 3);
    assert_eq!(queue.interlibrary_loans().len(), 1);
    assert_eq!(queue.holds_for_item(&ItemId("c".into())).len(), 1);
    assert!(queue.get(&ill).is_some());
    assert!(!queue.satisfy("no-such-hold"));
}

#[test]
fn not_overdue_before_due_date() {
    let mut queue = HoldsQueue::new();
    queue.place_hold(
        ItemId("m".into()),
        CollectionRef { uri: "r".into() },
        AgentId("s".into()),
        HoldUrgency::Normal,
        "2026-03-01T00:00:00Z",
        Some("2026-03-15T00:00:00Z".into()),
    );
    assert!(queue.find_overdue("2026-03-10T00:00:00Z").is_empty());
}

#[test]
fn checkout_tracking() {
    let mut tracker = CirculationTracker::new();
    let item = ItemId("mem_001".into());
    let agent = AgentId("shelver".into());

    tracker.record_checkout(
        item.clone(),
        agent.clone(),
        "auth-refactor".into(),
        "2026-03-28T14:00:00Z".into(),
    );
    tracker.record_checkout(
        item.clone(),
        agent.clone(),
        "security-audit".into(),
        "2026-03-28T15:00:00Z".into(),
    );

    let stats = tracker.stats_for(&item);
    assert_eq!(stats.checkouts, 2);
    assert_eq!(stats.contexts.len(), 2);
}

#[test]
fn most_circulated_ranking() {
    let mut tracker = CirculationTracker::new();
    let agent = AgentId("shelver".into());

    for i in 0..3 {
        tracker.record_checkout(
            ItemId("a".into()),
            agent.clone(),
            format!("ctx_{}", i),
            "2026-03-28T14:00:00Z".into(),
        );
    }
    tracker.record_checkout(
        ItemId("b".into()),
        agent.clone(),
        "ctx_0".into(),
        "2026-03-28T14:00:00Z".into(),
    );

    let top = tracker.most_circulated(10);
    assert_eq!(top[0].0, ItemId("a".into()));
    assert_eq!(top[0].1, 3);
}

#[test]
fn to_record_conversion() {
    let mut tracker = CirculationTracker::new();
    let item = ItemId("mem_001".into());

    tracker.record_checkout(
        item.clone(),
        AgentId("shelver".into()),
        "task-1".into(),
        "2026-03-28T14:00:00Z".into(),
    );

    let record = tracker.to_record(&item);
    assert_eq!(record.total_checkouts, 1);
    assert!(record.last_checkout.is_some());
}

#[test]
fn checkins_and_uncirculated() {
    let mut tracker = CirculationTracker::new();
    tracker.record_checkin(ItemId("x".into()), AgentId("a".into()), "c".into(), "t1".into());
    tracker.record_checkout(ItemId("y".into()), AgentId("a".into()), "c".into(), "t2".into());
    assert_eq!(tracker.event_count(), 2);
    assert_eq!(tracker.uncirculated_items(), vec![ItemId("x".into())]);
    let s = tracker.stats_for(&ItemId("x".into()));
    assert_eq!(s.checkins, 1);
    assert_eq!(s.checkouts, 0);
    assert_eq!(s.last_event, Some("t1".to_string()));
    assert_eq!(tracker.events_for(&ItemId("y".into())).len(), 1);
    assert_eq!(tracker.most_circulated(1).len(), 1);
}

#[test]
fn queue_keeps_distinct_ids_and_increasing_positions() {
    let mut q = HoldsQueue::new();
    let a = make_hold(&mut q, "x", HoldUrgency::Normal);
    let b = make_hold(&mut q, "y", HoldUrgency::Rush);
    let c = make_hold(&mut q, "x", HoldUrgency::InterlibraryLoan);
    assert_eq!((a.as_str(), b.as_str(), c.as_str()), ("hold_0001", "hold_0002", "hold_0003"));
    assert!(q.satisfy(&b));
    let d = make_hold(&mut q, "z", HoldUrgency::Normal);
    assert_eq!(d, "hold_0004");
    let positions: Vec<u32> = q.pending().iter().map(|h| h.queue_position).collect();
    assert_eq!(positions, vec![1, 2, 3]);
    assert_eq!(q.satisfy_item(&ItemId("x".into())), 2);
    let positions: Vec<u32> = q.pending().iter().map(|h| h.queue_position).collect();
    // Satisfying holds does not renumber the rest; the positions still increase.
    assert_eq!(positions, vec![3]);
    assert_eq!(q.purge_satisfied(), 3);
    assert_eq!(q.total_count(), 1);
}
