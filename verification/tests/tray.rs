use sliglight::audio::{mic_source_name, sink_monitor_name};
use sliglight::dbus_service::DbusState;
use sliglight::tray::{Command, TrayState};

#[test]
fn tray_icon_follows_connection_and_power() {
    let mut s = TrayState::default();
    assert!(s.is_on);
    assert_eq!(s.icon_name(), "audio-input-microphone-muted");
    s.is_connected = true;
    assert_eq!(s.icon_name(), "audio-input-microphone");
    s.is_on = false;
    assert_eq!(s.icon_name(), "audio-input-microphone-muted");
}

#[test]
fn tray_menu_entries() {
    let s = TrayState {
        profile_names: vec!["Nord".to_string(), "Dracula".to_string()],
        active_profile: "Dracula".to_string(),
        is_connected: true,
        is_on: true,
    };
    let items = s.menu();
    assert_eq!(items.len(), 5);
    assert_eq!(items[0].label, "Nord");
    assert_eq!(items[1].label, "* Dracula");
    assert!(matches!(&items[1].command, Some(Command::SelectProfile(n)) if n == "Dracula"));
    assert_eq!(items[2].label, "---");
    assert!(!items[2].enabled);
    assert!(items[2].command.is_none());
    assert_eq!(items[3].label, "Turn Off");
    assert!(matches!(items[3].command, Some(Command::ToggleOnOff)));
    assert_eq!(items[4].label, "Quit");
    assert_eq!(items[4].icon_name, "application-exit");
    assert!(matches!(items[4].command, Some(Command::Quit)));
}

#[test]
fn dbus_state_default_is_empty() {
    let s = DbusState::default();
    assert!(s.current_profile.is_empty());
    assert!(!s.is_connected);
    assert!(s.profile_names.is_empty());
}

#[test]
fn audio_source_names() {
    assert_eq!(mic_source_name(None), "@DEFAULT_SOURCE@");
    assert_eq!(mic_source_name(Some("alsa_input.usb".to_string())), "alsa_input.usb");
    assert_eq!(sink_monitor_name(None), "@DEFAULT_SINK@.monitor");
    assert_eq!(sink_monitor_name(Some("speakers".to_string())), "speakers.monitor");
}
