use netscan::app::{App, FocusZone, Key};
use netscan::net::IpAddress;
use netscan::scan::ScanResult;
use netscan::store::{HostKey, ResultStore};

fn host(last: u8) -> HostKey {
    HostKey { addr: IpAddress { v6: false, bits: last as u128 }, reachable: true }
}

fn app_with_hosts() -> App {
    let mut store = ResultStore::new();
    store.insert(host(1), vec![ScanResult { port: 22, is_open: true }, ScanResult { port: 80, is_open: false }]);
    store.insert(host(2), vec![]);
    let mut app = App::init();
    app.on_tick(store);
    app
}

#[test]
fn init_focuses_inputs() {
    let app = App::init();
    assert_eq!(app.focus_zone, FocusZone::InputList);
    assert!(!app.exit && !app.input_mode && !app.ready_to_run);
    assert_eq!(app.total_targets, 0);
}

#[test]
fn tab_cycles_focus_and_resets_selection() {
    let mut app = app_with_hosts();
    app.targets_selected = 1;
    app.handle_key_event(Key::Tab);
    assert_eq!(app.focus_zone, FocusZone::AddressList);
    assert_eq!(app.targets_selected, 0);
    app.port_results_selected = 1;
    app.handle_key_event(Key::Tab);
    assert_eq!(app.focus_zone, FocusZone::PortList);
    assert_eq!(app.port_results_selected, 0);
    app.input_selected = 1;
    app.handle_key_event(Key::Tab);
    assert_eq!(app.focus_zone, FocusZone::InputList);
    assert_eq!(app.input_selected, 0);
}

#[test]
fn up_down_stay_in_bounds() {
    let mut app = app_with_hosts();
    app.handle_key_event(Key::Tab);
    app.handle_key_event(Key::Up);
    assert_eq!(app.targets_selected, 0);
    app.handle_key_event(Key::Down);
    app.handle_key_event(Key::Down);
    assert_eq!(app.targets_selected, 1);
    app.handle_key_event(Key::Up);
    assert_eq!(app.targets_selected, 0);
    app.handle_key_event(Key::Tab);
    app.handle_key_event(Key::Down);
    app.handle_key_event(Key::Down);
    assert_eq!(app.port_results_selected, 1);
    app.handle_key_event(Key::Up);
    assert_eq!(app.port_results_selected, 0);
    app.handle_key_event(Key::Tab);
    app.handle_key_event(Key::Down);
    app.handle_key_event(Key::Down);
    assert_eq!(app.input_selected, 1);
}

#[test]
fn quit_and_run_keys() {
    let mut app = App::init();
    app.handle_key_event(Key::Char('x'));
    assert!(!app.exit && !app.ready_to_run);
    app.handle_key_event(Key::Char('e'));
    assert!(app.ready_to_run);
    app.handle_key_event(Key::Char('q'));
    assert!(app.exit);
}

#[test]
fn typing_fills_selected_field() {
    let mut app = App::init();
    app.handle_key_event(Key::Enter);
    assert!(app.input_mode);
    for c in "10.0.0.0/31 10.0.0.9".chars() {
        app.handle_input_event(Key::Char(c));
    }
    app.handle_input_event(Key::Char('!'));
    app.handle_input_event(Key::Backspace);
    assert_eq!(app.target_input, "10.0.0.0/31 10.0.0.9");
    app.handle_input_event(Key::Enter);
    assert!(!app.input_mode);
    app.handle_key_event(Key::Down);
    app.handle_input_event(Key::Char('8'));
    app.handle_input_event(Key::Char('0'));
    assert_eq!(app.port_input, "80");
    app.handle_key_event(Key::Char('e'));
    let req = app.begin_scan().unwrap();
    assert_eq!(req.targets, vec!["10.0.0.0/31".to_string(), "10.0.0.9".to_string()]);
    assert_eq!(req.ports, "80");
    assert_eq!(app.total_targets, 3);
    assert!(!app.ready_to_run);
    assert!(app.begin_scan().is_none());
}

#[test]
fn backspace_on_empty_field_is_harmless() {
    let mut app = App::init();
    app.handle_input_event(Key::Backspace);
    assert_eq!(app.target_input, "");
}
