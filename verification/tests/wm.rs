use fpwm::ascension::{ascend, Ascension};
use fpwm::command::Command;
use fpwm::config::Config;
use fpwm::error::Error;
use fpwm::machine::Geometry;
use fpwm::wm::{AppWindow, Event, Request, WM};
use std::collections::BTreeSet;

fn manager(text: &str) -> WM {
    WM::new(Config::parse(text).unwrap())
}

fn carry_out(requests: &[Request], mapped: &mut BTreeSet<u64>) {
    for request in requests {
        match request {
            Request::MapWindow(w) => {
                mapped.insert(*w);
            }
            Request::UnmapWindow(w) => {
                mapped.remove(w);
            }
            _ => {}
        }
    }
}

fn key(name: &str, modifiers: u32) -> Event {
    Event::KeyPress { key: name.to_string(), modifiers }
}

#[test]
fn app_window_new_keeps_its_parts() {
    let w = AppWindow::new(7, 3);
    assert_eq!(w.window, 7);
    assert_eq!(w.workspace_id, 3);
}

#[test]
fn new_manager_starts_on_the_first_workspace() {
    let wm = manager("");
    assert!(wm.is_running());
    assert_eq!(wm.current_workspace(), 1);
    assert_eq!(wm.window_count(), 0);
    assert_eq!(wm.root(), 0);
}

#[test]
fn init_attaches_to_the_root_window() {
    let mut wm = manager("");
    assert_eq!(wm.init(Some(0x1d4), Ascension::begin()), Ok(()));
    assert_eq!(wm.root(), 0x1d4);
}

#[test]
fn init_fails_without_a_connection() {
    let mut wm = manager("");
    assert_eq!(wm.init(None, Ascension::begin()), Err(Error::ConnectionFailed));
    let mut refused = Ascension::begin();
    refused.on_error(10);
    assert_eq!(wm.init(None, refused), Err(Error::ConnectionFailed));
    assert_eq!(wm.root(), 0);
}

#[test]
fn init_fails_when_another_manager_is_running() {
    let mut wm = manager("");
    let mut negotiation = Ascension::begin();
    negotiation.on_error(10);
    assert_eq!(wm.init(Some(5), negotiation), Err(Error::AlreadyRunning));
    assert_eq!(wm.root(), 0);
}

#[test]
fn ascension_is_refused_only_by_access_denied() {
    let mut a = Ascension::begin();
    a.on_error(3);
    a.on_error(8);
    assert_eq!(a.finish(), Ok(()));
    let mut a = Ascension::begin();
    a.on_error(3);
    a.on_error(10);
    a.on_error(8);
    assert_eq!(a.finish(), Err(Error::AlreadyRunning));
    assert_eq!(Ascension::begin().finish(), Ok(()));
}

#[test]
fn ascend_decides_from_the_observed_errors() {
    assert_eq!(ascend(&vec![]), Ok(()));
    assert_eq!(ascend(&vec![1, 2, 3]), Ok(()));
    assert_eq!(ascend(&vec![10]), Err(Error::AlreadyRunning));
    assert_eq!(ascend(&vec![1, 10, 3]), Err(Error::AlreadyRunning));
}

#[test]
fn created_windows_join_the_active_workspace() {
    let mut wm = manager("");
    wm.on_create(11);
    wm.switch_workspace(4);
    wm.on_create(12);
    assert_eq!(wm.window(11), Some(AppWindow::new(11, 1)));
    assert_eq!(wm.window(12), Some(AppWindow::new(12, 4)));
    assert_eq!(wm.window(13), None);
    assert_eq!(wm.window_count(), 2);
    wm.on_create(11);
    assert_eq!(wm.window(11), Some(AppWindow::new(11, 4)));
    assert_eq!(wm.window_count(), 2);
}

#[test]
fn destroy_removes_and_is_idempotent() {
    let mut wm = manager("");
    wm.on_create(11);
    wm.on_create(12);
    wm.on_destroy(11);
    assert_eq!(wm.window(11), None);
    assert_eq!(wm.window_count(), 1);
    wm.on_destroy(11);
    assert_eq!(wm.window_count(), 1);
    assert_eq!(wm.window(12), Some(AppWindow::new(12, 1)));
}

#[test]
fn destroy_of_an_unknown_window_changes_nothing() {
    let mut wm = manager("");
    wm.on_create(11);
    wm.on_destroy(99);
    assert!(wm.handle_event(&Event::DestroyNotify { window: 98 }).is_empty());
    assert_eq!(wm.window_count(), 1);
    assert_eq!(wm.window(11), Some(AppWindow::new(11, 1)));
    assert_eq!(wm.current_workspace(), 1);
    assert!(wm.is_running());
}

#[test]
fn switch_workspace_maps_exactly_the_windows_of_the_target() {
    let mut wm = manager("");
    wm.on_create(1);
    wm.on_create(2);
    wm.switch_workspace(2);
    wm.on_create(3);
    wm.on_create(4);
    wm.switch_workspace(3);
    wm.on_create(5);
    for before in [vec![], vec![1, 2, 3, 4, 5], vec![1, 5], vec![3, 77]] {
        let mut mapped: BTreeSet<u64> = before.into_iter().collect();
        let requests = wm.switch_workspace(2);
        assert_eq!(requests.len(), 5);
        carry_out(&requests, &mut mapped);
        assert_eq!(wm.current_workspace(), 2);
        for w in 1..=5u64 {
            assert_eq!(mapped.contains(&w), wm.window(w).unwrap().workspace_id == 2, "window {}", w);
        }
        assert!(mapped.contains(&3) && mapped.contains(&4));
        assert!(!mapped.contains(&1) && !mapped.contains(&2) && !mapped.contains(&5));
    }
}

#[test]
fn switch_workspace_without_windows_asks_for_nothing() {
    let mut wm = manager("");
    assert!(wm.switch_workspace(9).is_empty());
    assert_eq!(wm.current_workspace(), 9);
}

#[test]
fn move_focused_window_hides_and_reassigns() {
    let mut wm = manager("");
    wm.init(Some(100), Ascension::begin()).unwrap();
    wm.on_create(11);
    let requests = wm.move_focused_window(11, 3);
    assert!(matches!(requests.as_slice(), [Request::UnmapWindow(11)]));
    assert_eq!(wm.window(11), Some(AppWindow::new(11, 3)));
    assert_eq!(wm.current_workspace(), 1);
}

#[test]
fn move_focused_window_leaves_the_root_alone() {
    let mut wm = manager("");
    wm.init(Some(100), Ascension::begin()).unwrap();
    wm.on_create(11);
    wm.on_create(100);
    let requests = wm.move_focused_window(100, 3);
    assert!(requests.is_empty());
    assert_eq!(wm.window(11), Some(AppWindow::new(11, 1)));
    assert_eq!(wm.window(100), Some(AppWindow::new(100, 1)));
    assert_eq!(wm.window_count(), 2);
    assert_eq!(wm.current_workspace(), 1);
}

#[test]
fn move_focused_window_ignores_an_unmanaged_window() {
    let mut wm = manager("");
    wm.init(Some(100), Ascension::begin()).unwrap();
    wm.on_create(11);
    assert!(wm.move_focused_window(12, 3).is_empty());
    assert_eq!(wm.window(12), None);
    assert_eq!(wm.window_count(), 1);
}

#[test]
fn configure_request_is_answered_for_any_window() {
    let mut wm = manager("");
    let geometry = Geometry { x: 1, y: -2, width: 300, height: 200, border_width: 4, sibling: 9, stack_mode: 1 };
    let requests = wm.handle_event(&Event::ConfigureRequest { window: 55, geometry, value_mask: 0x4f });
    match requests.as_slice() {
        [Request::ConfigureWindow { window, geometry: g, value_mask }] => {
            assert_eq!(*window, 55);
            assert_eq!(*g, geometry);
            assert_eq!(*value_mask, 0x4f);
        }
        other => panic!("{:?}", other),
    }
    assert_eq!(wm.window_count(), 0);
    wm.on_create(56);
    let requests = wm.handle_event(&Event::ConfigureRequest { window: 56, geometry, value_mask: 1 });
    assert!(matches!(requests.as_slice(), [Request::ConfigureWindow { window: 56, value_mask: 1, .. }]));
}

#[test]
fn map_request_is_honoured() {
    let mut wm = manager("");
    let requests = wm.handle_event(&Event::MapRequest { window: 8 });
    assert!(matches!(requests.as_slice(), [Request::MapWindow(8)]));
    assert_eq!(wm.window_count(), 0);
}

#[test]
fn create_and_destroy_events_update_the_registry() {
    let mut wm = manager("");
    assert!(wm.handle_event(&Event::CreateNotify { window: 8 }).is_empty());
    assert_eq!(wm.window(8), Some(AppWindow::new(8, 1)));
    assert!(wm.handle_event(&Event::DestroyNotify { window: 8 }).is_empty());
    assert_eq!(wm.window(8), None);
}

#[test]
fn other_events_are_ignored() {
    let mut wm = manager("bind d exit\n");
    wm.on_create(1);
    assert!(wm.handle_event(&Event::Other).is_empty());
    assert!(wm.is_running());
    assert_eq!(wm.window_count(), 1);
}

#[test]
fn key_press_runs_the_bound_command() {
    let mut wm = manager("set ws2 2\nbind mod1+d exec rofi -show drun\nbind mod1+2 workspace $ws2\nbind mod1+shift+3 move 3\nbind mod1+Escape exit\nbind mod1+x ws none\n");
    wm.on_create(1);

    match wm.handle_event(&key("d", 0x08)).as_slice() {
        [Request::Spawn { program, args }] => {
            assert_eq!(program, "rofi");
            assert_eq!(args, &vec!["-show".to_string(), "drun".to_string()]);
        }
        other => panic!("{:?}", other),
    }
    assert!(wm.handle_event(&key("d", 0x01)).is_empty());
    assert!(wm.handle_event(&key("q", 0x08)).is_empty());

    let requests = wm.handle_event(&key("2", 0x08));
    assert!(matches!(requests.as_slice(), [Request::UnmapWindow(1)]));
    assert_eq!(wm.current_workspace(), 2);

    assert!(wm.handle_event(&key("x", 0x08)).is_empty());
    assert_eq!(wm.current_workspace(), 2);

    let requests = wm.handle_event(&key("3", 0x09));
    assert!(matches!(requests.as_slice(), [Request::MoveFocused(3)]));
    assert_eq!(wm.window(1), Some(AppWindow::new(1, 1)));

    assert!(wm.is_running());
    assert!(wm.handle_event(&key("Escape", 0x08)).is_empty());
    assert!(!wm.is_running());
}

#[test]
fn dispatch_carries_out_each_action() {
    let mut wm = manager("");
    wm.on_create(1);
    assert!(wm.dispatch(Command::Nothing).is_empty());
    assert!(matches!(wm.dispatch(Command::Move(2)).as_slice(), [Request::MoveFocused(2)]));
    assert!(matches!(wm.dispatch(Command::Workspace(1)).as_slice(), [Request::MapWindow(1)]));
    assert!(matches!(wm.dispatch(Command::Workspace(2)).as_slice(), [Request::UnmapWindow(1)]));
    assert_eq!(wm.current_workspace(), 2);
    assert!(wm.is_running());
    assert!(wm.dispatch(Command::Exit).is_empty());
    assert!(!wm.is_running());
}

#[test]
fn run_handles_events_until_the_manager_stops() {
    let mut wm = manager("bind mod1+d exec term\nbind mod1+Escape exit\n");
    let events = vec![
        Event::CreateNotify { window: 1 },
        key("d", 0x08),
        Event::MapRequest { window: 1 },
        key("Escape", 0x08),
        Event::CreateNotify { window: 2 },
        Event::MapRequest { window: 2 },
        key("d", 0x08),
    ];
    let requests = wm.run(&events);
    assert!(!wm.is_running());
    assert_eq!(wm.window_count(), 1);
    assert_eq!(wm.window(2), None);
    match requests.as_slice() {
        [Request::Spawn { program, args }, Request::MapWindow(1)] => {
            assert_eq!(program, "term");
            assert!(args.is_empty());
        }
        other => panic!("{:?}", other),
    }
    assert!(wm.run(&events).is_empty());
    assert_eq!(wm.window_count(), 1);
}

#[test]
fn run_of_no_events_does_nothing() {
    let mut wm = manager("");
    assert!(wm.run(&vec![]).is_empty());
    assert!(wm.is_running());
}

#[test]
fn create_decides_from_the_outcome_of_start_up() {
    let wm = WM::create(Config::parse("bind d exit\n").unwrap(), Some(77), &vec![3, 8]).unwrap();
    assert_eq!(wm.root(), 77);
    assert_eq!(wm.current_workspace(), 1);
    assert_eq!(wm.window_count(), 0);
    assert!(wm.is_running());
    assert_eq!(wm.config().keybinds().len(), 1);
    assert_eq!(WM::create(Config::default(), None, &vec![]).err(), Some(Error::ConnectionFailed));
    assert_eq!(WM::create(Config::default(), None, &vec![10]).err(), Some(Error::ConnectionFailed));
    assert_eq!(WM::create(Config::default(), Some(77), &vec![3, 10]).err(), Some(Error::AlreadyRunning));
}
