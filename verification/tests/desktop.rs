use syncblaze::desktop::{get_lan_info, relay_failure, shell_action, ShellAction, ShellEvent};
use syncblaze::table::Table;
use syncblaze::text::decimal;
use syncblaze::LAN_RELAY_PORT;

#[test]
fn closing_hides_the_window() {
    assert!(matches!(shell_action(&ShellEvent::CloseRequested), ShellAction::HideWindow));
}

#[test]
fn only_the_quit_item_exits() {
    assert!(matches!(shell_action(&ShellEvent::MenuItem("quit".to_string())), ShellAction::Exit));
    assert!(matches!(shell_action(&ShellEvent::MenuItem("Quit".to_string())), ShellAction::Ignore));
    assert!(matches!(shell_action(&ShellEvent::MenuItem("".to_string())), ShellAction::Ignore));
}

#[test]
fn tray_click_shows_the_window() {
    assert!(matches!(shell_action(&ShellEvent::TrayClick), ShellAction::ShowWindow));
    assert!(matches!(shell_action(&ShellEvent::Other), ShellAction::Ignore));
}

#[test]
fn lan_info_names_address_and_port() {
    let info = get_lan_info(Ok("192.168.1.20".to_string())).ok().unwrap();
    assert_eq!(info.ip, "192.168.1.20");
    assert_eq!(info.port, 47811);
    assert_eq!(LAN_RELAY_PORT, 47811);
    assert_eq!(get_lan_info(Err("no network".to_string())).err(), Some("no network".to_string()));
}

#[test]
fn relay_failure_names_port_and_reason() {
    assert_eq!(
        relay_failure(47811, "address in use"),
        "SyncBlaze: couldn't start the local relay on port 47811: address in use"
    );
}

#[test]
fn numbers_are_written_in_decimal() {
    for n in [0u16, 7, 9, 10, 99, 100, 1023, 47811, 65535] {
        assert_eq!(decimal(n), format!("{}", n));
    }
}

#[test]
fn table_keeps_the_last_value_of_a_key() {
    let mut table: Table<u8> = Table::new();
    let key = "k".to_string();
    let other = "other".to_string();
    assert_eq!(table.get(&key), None);
    table.insert(key.clone(), 1);
    table.insert(other.clone(), 2);
    table.insert(key.clone(), 3);
    assert_eq!(table.get(&key), Some(&3));
    assert_eq!(table.get(&other), Some(&2));
    assert_eq!(table.remove(&key), Some(3));
    assert_eq!(table.remove(&key), None);
    assert_eq!(table.get(&key), None);
    assert_eq!(table.get(&other), Some(&2));
}
