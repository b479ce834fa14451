//! What the desktop shell does with its window and its tray icon, and what it
//! tells about the local network.

use crate::text::{decimal, decimal_text};
use crate::LAN_RELAY_PORT;
use vstd::prelude::*;
use vstd::string::*;

verus! {

/// The id of the tray menu item that ends the program.
pub const QUIT_ITEM: &'static str = "quit";

/// What happens to the shell.
pub enum ShellEvent {
    /// Somebody asked to close the window.
    CloseRequested,
    /// Somebody chose the tray menu item with this id.
    MenuItem(String),
    /// Somebody clicked the tray icon.
    TrayClick,
    /// Anything else.
    Other,
}

/// What the shell does.
pub enum ShellAction {
    /// Hide the window and keep it, and the relay, alive.
    HideWindow,
    /// Show the window and give it the focus.
    ShowWindow,
    /// End the program.
    Exit,
    /// Nothing.
    Ignore,
}

/// What the shell does about an event. Closing the window does not end the
/// program, since the relay has to stay reachable; only the tray menu does.
pub fn shell_action(event: &ShellEvent) -> (action: ShellAction)
    ensures
        action is HideWindow <==> event is CloseRequested,
        action is ShowWindow <==> event is TrayClick,
        action is Exit <==> (event matches ShellEvent::MenuItem(id) && id@ == QUIT_ITEM@),
{
    match event {
        ShellEvent::CloseRequested => ShellAction::HideWindow,
        ShellEvent::MenuItem(id) => if *id == QUIT_ITEM.to_owned() {
            ShellAction::Exit
        } else {
            ShellAction::Ignore
        },
        ShellEvent::TrayClick => ShellAction::ShowWindow,
        ShellEvent::Other => ShellAction::Ignore,
    }
}

/// Where the relay can be reached on the local network.
pub struct LanInfo {
    pub ip: String,
    pub port: u16,
}

/// Where the relay can be reached, given this machine's address or the reason
/// why it is not known.
pub fn get_lan_info(ip: Result<String, String>) -> (info: Result<LanInfo, String>)
    ensures
        match ip {
            Ok(ip) => info matches Ok(info) && info.ip@ == ip@ && info.port == LAN_RELAY_PORT,
            Err(reason) => info matches Err(error) && error@ == reason@,
        },
{
    match ip {
        Ok(ip) => Ok(LanInfo { ip, port: LAN_RELAY_PORT }),
        Err(reason) => Err(reason),
    }
}

/// The complaint about a relay that could not be started.
pub fn relay_failure(port: u16, reason: &str) -> (complaint: String)
    ensures
        complaint@ == "SyncBlaze: couldn't start the local relay on port "@ + decimal_text(
            port as nat,
        ) + ": "@ + reason@,
{
    let mut complaint = "SyncBlaze: couldn't start the local relay on port ".to_owned();
    complaint.append(decimal(port).as_str());
    complaint.append(": ");
    complaint.append(reason);
    complaint
}

} // verus!
