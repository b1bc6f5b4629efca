use cc_limit::bar::{decide, reset_countdown, BarState, RetryTimer, WindowAction, WindowEvent};
use cc_limit::monitor::Monitor;

fn state_with_monitors() -> BarState {
    let mut s = BarState::new(None);
    s.monitors = vec![
        Monitor { device: "A".to_string(), left: 0, top: 0, right: 10, bottom: 10, primary: true },
        Monitor { device: "B".to_string(), left: 10, top: 0, right: 20, bottom: 10, primary: false },
    ];
    s
}

#[test]
fn initial_state() {
    let s = BarState::new(Some("B".to_string()));
    assert_eq!(s.label, "loading…");
    assert_eq!(s.selected_device, Some("B".to_string()));
    assert!(s.resets_at_epoch.is_none() && s.error.is_none() && !s.appbar_registered);
}

#[test]
fn success_shows_new_label() {
    let mut s = BarState::new(None);
    s.error = Some("old".to_string());
    let r = s.record_success("42% used".to_string(), Some(99));
    assert_eq!(r.tip, "cc_limit · 42% used");
    assert!(matches!(r.retry, RetryTimer::Stop));
    assert_eq!(s.label, "42% used");
    assert_eq!(s.resets_at_epoch, Some(99));
    assert!(s.error.is_none());
}

#[test]
fn failure_keeps_last_good_value() {
    let mut s = BarState::new(None);
    s.record_success("42% used".to_string(), Some(99));
    let r = s.record_failure("WinHttpSendRequest 12007".to_string());
    assert_eq!(r.tip, "cc_limit · 42% used (transient err: WinHttpSendRequest 12007)");
    assert!(matches!(r.retry, RetryTimer::Start));
    assert_eq!(s.label, "42% used");
    assert_eq!(s.resets_at_epoch, Some(99));
    assert_eq!(s.error, Some("WinHttpSendRequest 12007".to_string()));
    s.record_failure("again".to_string());
    assert_eq!(s.label, "42% used");
}

#[test]
fn selecting_a_connected_screen() {
    let mut s = state_with_monitors();
    assert_eq!(s.select_screen(1), Some("B".to_string()));
    assert_eq!(s.selected_device, Some("B".to_string()));
}

#[test]
fn selecting_a_missing_screen_changes_nothing() {
    let mut s = state_with_monitors();
    s.selected_device = Some("A".to_string());
    assert_eq!(s.select_screen(2), None);
    assert_eq!(s.selected_device, Some("A".to_string()));
}

#[test]
fn countdown_hours_and_minutes() {
    assert_eq!(reset_countdown(Some(1000 + 3 * 3600 + 18 * 60 + 59), 1000), Some((3, 18)));
    assert_eq!(reset_countdown(Some(1059), 1000), Some((0, 0)));
    assert_eq!(reset_countdown(Some(1000 + 26 * 3600), 1000), Some((26, 0)));
}

#[test]
fn no_countdown_when_reset_passed_or_unknown() {
    assert_eq!(reset_countdown(Some(1000), 1000), None);
    assert_eq!(reset_countdown(Some(10), 1000), None);
    assert_eq!(reset_countdown(None, 1000), None);
}

#[test]
fn timers_refresh() {
    assert!(matches!(decide(WindowEvent::Timer(1)), WindowAction::Refresh));
    assert!(matches!(decide(WindowEvent::Timer(2)), WindowAction::Refresh));
    assert!(matches!(decide(WindowEvent::Timer(3)), WindowAction::Nothing));
}

#[test]
fn tray_clicks_open_the_menu() {
    assert!(matches!(decide(WindowEvent::TrayNotify(0x0202)), WindowAction::ShowMenu));
    assert!(matches!(decide(WindowEvent::TrayNotify(0x0205)), WindowAction::ShowMenu));
    assert!(matches!(decide(WindowEvent::TrayNotify(0x7_0205)), WindowAction::ShowMenu));
    assert!(matches!(decide(WindowEvent::TrayNotify(0x0200)), WindowAction::Nothing));
}

#[test]
fn menu_commands() {
    assert!(matches!(decide(WindowEvent::Command(1001)), WindowAction::Quit));
    assert!(matches!(decide(WindowEvent::Command(1002)), WindowAction::Refresh));
    assert!(matches!(decide(WindowEvent::Command(2000)), WindowAction::SelectScreen(0)));
    assert!(matches!(decide(WindowEvent::Command(0x1_0000 + 2003)), WindowAction::SelectScreen(3)));
    assert!(matches!(decide(WindowEvent::Command(1500)), WindowAction::Nothing));
}

#[test]
fn other_events() {
    assert!(matches!(decide(WindowEvent::Create), WindowAction::Setup));
    assert!(matches!(decide(WindowEvent::Paint), WindowAction::Paint));
    assert!(matches!(decide(WindowEvent::RightButtonUp), WindowAction::ShowMenu));
    assert!(matches!(decide(WindowEvent::AppbarNotify), WindowAction::Nothing));
    assert!(matches!(decide(WindowEvent::DisplayChange), WindowAction::Reposition));
    assert!(matches!(decide(WindowEvent::Destroy), WindowAction::Teardown));
    assert!(matches!(decide(WindowEvent::Other), WindowAction::Default));
}

#[test]
fn chosen_screen_carries_the_bar() {
    let mut s = state_with_monitors();
    assert_eq!(cc_limit::monitor::pick_monitor(&s.monitors, &s.selected_device).map(|m| m.device.clone()), Some("A".to_string()));
    s.select_screen(1);
    assert_eq!(cc_limit::monitor::pick_monitor(&s.monitors, &s.selected_device).map(|m| m.device.clone()), Some("B".to_string()));
}
