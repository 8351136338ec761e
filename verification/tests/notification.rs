use birei::notification::{
    notification_class_name, notification_icon_label, notification_record, toast_class_name, NotificationOptions, NotificationQueue, NotificationStack, NotificationVariant,
    MAX_VISIBLE_NOTIFICATIONS,
};

#[test]
fn variants_have_classes_icons_and_durations() {
    assert_eq!(NotificationVariant::Success.class_name(), "birei-notification--success");
    assert_eq!(NotificationVariant::Warning.icon_name(), "triangle-alert");
    assert_eq!(NotificationVariant::default(), NotificationVariant::Info);
    let record = notification_record(7, NotificationOptions::new("x").variant(NotificationVariant::Error));
    assert_eq!(record.id, 7);
    assert_eq!(record.duration_ms, NotificationVariant::Error.default_duration_ms());
    let record = notification_record(8, NotificationOptions::new("x").duration_ms(-5));
    assert_eq!(record.duration_ms, 0);
}

#[test]
fn queue_waits_for_the_host_and_replays_in_order() {
    let mut queue = NotificationQueue::new();
    assert!(queue.claim_mount());
    assert!(!queue.claim_mount());
    let (first, second, third) = (1, 2, 3);
    let handed = queue.notify(first, NotificationOptions::new("one"));
    assert!(handed.is_none());
    queue.notify(second, NotificationOptions::new("two"));
    queue.notify(third, NotificationOptions::new("three"));
    assert!(!queue.remove(second));
    let delivered = queue.attach();
    assert_eq!(delivered.iter().map(|r| r.id).collect::<Vec<_>>(), vec![1, 3]);
    assert!(queue.pending.is_empty());
    let fourth = 4;
    let handed = queue.notify(fourth, NotificationOptions::new("four"));
    assert_eq!(handed.map(|r| r.id), Some(fourth));
    assert!(queue.remove(fourth));
    assert!(queue.clear());
}

#[test]
fn stack_keeps_the_newest_within_the_limit() {
    let mut stack = NotificationStack::new();
    for id in 0..(MAX_VISIBLE_NOTIFICATIONS + 2) {
        stack.add(notification_record(id, NotificationOptions::new("n")));
    }
    assert_eq!(stack.entries.len(), MAX_VISIBLE_NOTIFICATIONS);
    assert_eq!(stack.entries[0].record.id, MAX_VISIBLE_NOTIFICATIONS + 1);
    assert_eq!(stack.entries[MAX_VISIBLE_NOTIFICATIONS - 1].record.id, 2);
}

#[test]
fn stack_removal_waits_while_hovered() {
    let mut stack = NotificationStack::new();
    stack.add(notification_record(1, NotificationOptions::new("a")));
    stack.add(notification_record(2, NotificationOptions::new("b")));
    stack.hover_changed(true);
    assert!(!stack.remove(1));
    assert!(stack.entries[1].exiting);
    assert!(stack.take_due_removals().is_empty());
    stack.hover_changed(false);
    assert_eq!(stack.take_due_removals(), vec![1]);
    assert!(stack.take_due_removals().is_empty());
    stack.finish_removal(1);
    assert_eq!(stack.entries.len(), 1);
    assert!(stack.clear());
    assert_eq!(stack.take_due_removals(), vec![2]);
}

#[test]
fn names_notification_classes_and_labels() {
    assert_eq!(
        notification_class_name(NotificationVariant::Warning, Some("x")),
        "birei-notification birei-notification--warning x"
    );
    assert_eq!(notification_icon_label(NotificationVariant::Success), "Success notification");
    assert_eq!(toast_class_name(true, false), "birei-notification-toast birei-notification-toast--entered");
    assert_eq!(toast_class_name(true, true), "birei-notification-toast birei-notification-toast--exiting");
    assert_eq!(toast_class_name(false, false), "birei-notification-toast");
}

#[test]
fn dismissing_a_waiting_notification_takes_it_back() {
    let mut queue = NotificationQueue::new();
    queue.notify(1, NotificationOptions::new("first"));
    queue.notify(2, NotificationOptions::new("second"));
    let before: Vec<usize> = queue.pending.iter().map(|record| record.id).collect();
    let id = 3;
    let handed = queue.notify(id, NotificationOptions::new("third"));
    assert!(handed.is_none());
    assert_eq!(queue.pending.len(), 3);
    assert!(!queue.remove(id));
    let after: Vec<usize> = queue.pending.iter().map(|record| record.id).collect();
    assert_eq!(after, before);
    assert_eq!(queue.pending[0].text, "second");
}

#[test]
fn notify_records_text_variant_and_duration() {
    let mut queue = NotificationQueue::new();
    queue.notify(10, NotificationOptions::new("saved").variant(NotificationVariant::Success).duration_ms(1200));
    assert_eq!(queue.pending[0].id, 10);
    assert_eq!(queue.pending[0].text, "saved");
    assert_eq!(queue.pending[0].variant, NotificationVariant::Success);
    assert_eq!(queue.pending[0].duration_ms, 1200);
    queue.attach();
    let id = 11;
    let handed = queue.notify(id, NotificationOptions::new("oops").variant(NotificationVariant::Error));
    let record = handed.expect("attached host receives the record");
    assert_eq!(record.id, id);
    assert_eq!(record.text, "oops");
    assert_eq!(record.variant, NotificationVariant::Error);
    assert_eq!(record.duration_ms, NotificationVariant::Error.default_duration_ms());
}
