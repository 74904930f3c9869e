use arlo_wm::{
    bar_region, parse_binding, target_screen, Align, BarPosition, CommandListener, CycleDirection, Dracula, KeyMod,
    Message, NewWindowHook, Region, StatusBarEvent, StatusBarHook,
};

#[test]
fn message_keeps_its_text() {
    let m = Message::new("restart bar");
    assert_eq!(m.text(), "restart bar");
    assert_eq!(Message::new("").text(), "");
}

#[test]
fn command_listener_receives_what_is_sent() {
    let (tx, listener) = CommandListener::new();
    tx.send(Message::new("ls")).unwrap();
    assert_eq!(listener.next_message().map(|m| m.text().to_string()), Some("ls".to_string()));
    drop(tx);
    assert!(listener.next_message().is_none());
}

#[test]
fn status_bar_hook_forwards_events() {
    let (tx, rx) = std::sync::mpsc::channel();
    let hook = StatusBarHook::new(tx);
    assert!(hook.notify(StatusBarEvent::Startup));
    assert!(hook.notify(StatusBarEvent::ScreensUpdated));
    assert_eq!(rx.recv().unwrap(), StatusBarEvent::Startup);
    assert_eq!(rx.recv().unwrap(), StatusBarEvent::ScreensUpdated);
    drop(rx);
    assert!(!hook.notify(StatusBarEvent::Startup));
}

#[test]
fn only_screen_changes_need_new_windows() {
    assert!(StatusBarEvent::ScreensUpdated.needs_new_windows());
    assert!(!StatusBarEvent::Startup.needs_new_windows());
}

#[test]
fn widget_offsets_by_alignment() {
    assert_eq!(Align::Left.x_offset(12, 1000, 100), 12);
    assert_eq!(Align::Center.x_offset(0, 1000, 100), 450);
    assert_eq!(Align::Center.x_offset(3, 1001, 100), 453);
    assert_eq!(Align::Right.x_offset(20, 1000, 100), 880);
}

#[test]
fn bar_sits_at_top_or_bottom() {
    let screen = Region::new(1920, 0, 2560, 1440);
    assert_eq!(bar_region(&screen, BarPosition::Top, 24), Region::new(1920, 0, 2560, 24));
    assert_eq!(bar_region(&screen, BarPosition::Bottom, 24), Region::new(1920, 1416, 2560, 24));
}

#[test]
fn screens_cycle_with_wrap_around() {
    assert_eq!(target_screen(0, 3, CycleDirection::Forward), 1);
    assert_eq!(target_screen(2, 3, CycleDirection::Forward), 0);
    assert_eq!(target_screen(0, 3, CycleDirection::Backward), 2);
    assert_eq!(target_screen(2, 3, CycleDirection::Backward), 1);
    assert_eq!(target_screen(0, 1, CycleDirection::Forward), 0);
    assert_eq!(target_screen(0, 1, CycleDirection::Backward), 0);
}

#[test]
fn new_window_goes_to_screen_under_pointer() {
    let _hook: Box<NewWindowHook> = NewWindowHook::new();
    let screens = vec![Region::new(0, 0, 1920, 1080), Region::new(1920, 0, 2560, 1440)];
    assert_eq!(NewWindowHook::screen_under_pointer(&screens, 10, 10), Some(0));
    assert_eq!(NewWindowHook::screen_under_pointer(&screens, 1920, 1200), Some(1));
    assert_eq!(NewWindowHook::screen_under_pointer(&screens, 1919, 1079), Some(0));
    assert_eq!(NewWindowHook::screen_under_pointer(&screens, 100, 1080), None);
    assert_eq!(NewWindowHook::screen_under_pointer(&vec![], 0, 0), None);
}

#[test]
fn bindings_parse_into_mask_and_key() {
    let chord = parse_binding("meta shift B");
    assert_eq!(chord.mask, KeyMod::META | KeyMod::SHIFT);
    assert_eq!(chord.key, "b");
    let chord = parse_binding("meta ctrl escape");
    assert_eq!(chord.mask, 68);
    assert_eq!(chord.key, "escape");
    let chord = parse_binding("XF86AudioRaiseVolume");
    assert_eq!(chord.mask, KeyMod::NONE);
    assert_eq!(chord.key, "xf86audioraisevolume");
    let chord = parse_binding("alt hyper  Tab");
    assert_eq!(chord.mask, KeyMod::ALT);
    assert_eq!(chord.key, "tab");
    let chord = parse_binding("meta ");
    assert_eq!(chord.mask, KeyMod::META);
    assert_eq!(chord.key, "");
}

#[test]
fn palette_values() {
    assert_eq!(Dracula::BG, 0x282a36ff);
    assert_eq!(Dracula::PURPLE, 0xbd93f9ff);
    assert_eq!(KeyMod::CTRL, 4);
}
