use cc_limit::monitor::{bar_rect, pick_monitor, screen_menu, track_layout, Monitor, Rect};

fn mon(device: &str, left: i32, top: i32, right: i32, bottom: i32, primary: bool) -> Monitor {
    Monitor { device: device.to_string(), left, top, right, bottom, primary }
}

fn three() -> Vec<Monitor> {
    vec![
        mon("A", -1920, 0, 0, 1080, false),
        mon("B", 0, 0, 2560, 1440, true),
        mon("C", 2560, 0, 4480, 1200, false),
    ]
}

#[test]
fn saved_monitor_is_used_when_connected() {
    let ms = three();
    assert_eq!(pick_monitor(&ms, &Some("C".to_string())).map(|m| m.device.clone()), Some("C".to_string()));
}

#[test]
fn primary_monitor_when_saved_one_is_gone() {
    let ms = three();
    assert_eq!(pick_monitor(&ms, &Some("Z".to_string())).map(|m| m.device.clone()), Some("B".to_string()));
    assert_eq!(pick_monitor(&ms, &None).map(|m| m.device.clone()), Some("B".to_string()));
}

#[test]
fn first_monitor_when_none_is_primary() {
    let ms = vec![mon("A", 0, 0, 10, 10, false), mon("B", 10, 0, 20, 10, false)];
    assert_eq!(pick_monitor(&ms, &None).map(|m| m.device.clone()), Some("A".to_string()));
}

#[test]
fn no_monitor_no_bar() {
    let ms: Vec<Monitor> = vec![];
    assert!(pick_monitor(&ms, &Some("A".to_string())).is_none());
}

#[test]
fn screen_menu_entries() {
    let ms = three();
    let e = screen_menu(&ms, &None);
    assert_eq!(e.len(), 3);
    assert_eq!((e[0].number, e[0].command, e[0].width, e[0].height), (1, 2000, 1920, 1080));
    assert_eq!((e[2].number, e[2].command, e[2].width, e[2].height), (3, 2002, 1920, 1200));
    assert_eq!(e.iter().map(|x| x.checked).collect::<Vec<_>>(), vec![false, true, false]);
    assert_eq!(e.iter().map(|x| x.primary).collect::<Vec<_>>(), vec![false, true, false]);
    let e2 = screen_menu(&ms, &Some("A".to_string()));
    assert_eq!(e2.iter().map(|x| x.checked).collect::<Vec<_>>(), vec![true, false, false]);
}

#[test]
fn reversed_rectangle_gives_positive_size() {
    let ms = vec![mon("R", 100, 50, 0, 0, true)];
    let e = screen_menu(&ms, &None);
    assert_eq!((e[0].width, e[0].height), (100, 50));
}

#[test]
fn bar_along_top_edge() {
    let m = mon("B", 0, 0, 2560, 1440, true);
    assert!(bar_rect(&m) == Rect { left: 0, top: 0, right: 2560, bottom: 18 });
    let m2 = mon("A", -1920, -200, 0, 880, false);
    assert!(bar_rect(&m2) == Rect { left: -1920, top: -200, right: 0, bottom: -182 });
}

#[test]
fn track_layout_of_a_wide_bar() {
    let l = track_layout(&Rect { left: 0, top: 0, right: 800, bottom: 18 });
    assert!(l.track == Rect { left: 4, top: 5, right: 560, bottom: 13 });
    assert_eq!((l.text_x, l.text_y), (568, 2));
}

#[test]
fn track_layout_of_a_narrow_bar() {
    let l = track_layout(&Rect { left: 0, top: 0, right: 100, bottom: 3 });
    assert!(l.track == Rect { left: 4, top: -3, right: 24, bottom: 5 });
    assert_eq!((l.text_x, l.text_y), (4, -6));
}
