use ashell::notification::{
    clear_unread_indicator, enqueue_coalesced_signal, queue_terminal_notification_activation,
    set_unread_indicator, signal_will_arrive, take_terminal_notification_activation,
    windows_badge_icon_resource, windows_badge_pixel_is_red, ActivationQueue, Desktop,
    IndicatorAction, SignalOutcome, MAX_PENDING_TERMINAL_NOTIFICATION_ACTIVATIONS,
};

#[test]
fn coalesces_pending_non_blocking_worker_signals() {
    let (sender, receiver) = std::sync::mpsc::sync_channel(1);

    assert!(enqueue_coalesced_signal(&sender));
    assert!(enqueue_coalesced_signal(&sender));
    assert_eq!(receiver.try_iter().count(), 1);

    drop(receiver);
    assert!(!enqueue_coalesced_signal(&sender));
}

#[test]
fn only_a_gone_worker_misses_the_signal() {
    assert!(signal_will_arrive(SignalOutcome::Sent));
    assert!(signal_will_arrive(SignalOutcome::Full));
    assert!(!signal_will_arrive(SignalOutcome::Disconnected));
}

#[test]
fn activations_come_out_in_order() {
    let mut queue = ActivationQueue::new();
    assert_eq!(take_terminal_notification_activation(&mut queue), None);
    queue_terminal_notification_activation(&mut queue, "a".to_string());
    queue_terminal_notification_activation(&mut queue, "b".to_string());

    assert_eq!(take_terminal_notification_activation(&mut queue), Some("a".to_string()));
    assert_eq!(take_terminal_notification_activation(&mut queue), Some("b".to_string()));
    assert_eq!(take_terminal_notification_activation(&mut queue), None);
}

#[test]
fn the_oldest_activation_gives_way() {
    let mut queue = ActivationQueue::new();
    for index in 0..MAX_PENDING_TERMINAL_NOTIFICATION_ACTIVATIONS + 1 {
        queue_terminal_notification_activation(&mut queue, format!("tab-{index}"));
    }

    assert_eq!(take_terminal_notification_activation(&mut queue), Some("tab-1".to_string()));
}

#[test]
fn badge_pixels_lie_in_the_disc() {
    for x in 0..16usize {
        for y in 0..16usize {
            let dx = x as f32 - 7.5;
            let dy = y as f32 - 7.5;
            assert_eq!(windows_badge_pixel_is_red(x, y), dx * dx + dy * dy <= 42.25);
        }
    }
    assert!(windows_badge_pixel_is_red(7, 7));
    assert!(!windows_badge_pixel_is_red(0, 0));
}

#[test]
fn the_badge_is_a_bitmap_resource() {
    let resource = windows_badge_icon_resource();

    assert_eq!(resource.len(), 40 + 16 * 16 * 4 + 16 * 4);
    assert_eq!(&resource[0..4], &40u32.to_le_bytes());
    assert_eq!(&resource[4..8], &16i32.to_le_bytes());
    assert_eq!(&resource[8..12], &32i32.to_le_bytes());
    let middle = 40 + (8 * 16 + 8) * 4;
    assert_eq!(&resource[middle..middle + 4], &[42, 48, 239, 255]);
    assert_eq!(&resource[40..44], &[0, 0, 0, 0]);
}

#[test]
fn unread_marks_differ_by_system() {
    assert!(matches!(
        set_unread_indicator(Desktop::MacOs, true, None),
        IndicatorAction::DockLabel(Some(label)) if label == "\u{2022}"
    ));
    assert!(matches!(
        clear_unread_indicator(Desktop::MacOs, None),
        IndicatorAction::DockLabel(None)
    ));
    assert!(matches!(
        set_unread_indicator(Desktop::Windows, true, Some(7)),
        IndicatorAction::TaskbarOverlay(7, Some(_))
    ));
    assert!(matches!(
        clear_unread_indicator(Desktop::Windows, Some(7)),
        IndicatorAction::TaskbarOverlay(7, None)
    ));
    assert!(matches!(
        set_unread_indicator(Desktop::Windows, true, None),
        IndicatorAction::Nothing
    ));
    assert!(matches!(
        set_unread_indicator(Desktop::Other, true, Some(7)),
        IndicatorAction::Nothing
    ));
}
