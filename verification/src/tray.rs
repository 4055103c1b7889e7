//! The system tray menu: which icon it shows and which entries it offers
//! (registering the tray with the desktop belongs to the application).

use vstd::prelude::*;
use vstd::string::*;

verus! {

/// Commands from the tray menu to the application.
#[derive(Debug, Clone)]
pub enum Command {
    SelectProfile(String),
    ToggleOnOff,
    Quit,
}

/// The value of a [`Command`].
pub enum CommandView {
    SelectProfile(Seq<char>),
    ToggleOnOff,
    Quit,
}

impl View for Command {
    type V = CommandView;

    open spec fn view(&self) -> CommandView {
        match self {
            Command::SelectProfile(n) => CommandView::SelectProfile(n@),
            Command::ToggleOnOff => CommandView::ToggleOnOff,
            Command::Quit => CommandView::Quit,
        }
    }
}

/// State pushed from the application to the tray for menu updates.
#[derive(Debug, Clone)]
pub struct TrayState {
    pub profile_names: Vec<String>,
    pub active_profile: String,
    pub is_connected: bool,
    pub is_on: bool,
}

impl Default for TrayState {
    fn default() -> (s: Self)
        ensures
            s.profile_names@.len() == 0,
            s.active_profile@ == Seq::<char>::empty(),
            !s.is_connected,
            s.is_on,
    {
        TrayState {
            profile_names: Vec::new(),
            active_profile: String::new(),
            is_connected: false,
            is_on: true,
        }
    }
}

/// One entry of the tray menu.
pub struct MenuEntry {
    pub label: String,
    pub enabled: bool,
    pub icon_name: String,
    /// What choosing the entry sends to the application, if anything.
    pub command: Option<Command>,
}

/// The value of a [`MenuEntry`].
pub struct MenuEntryView {
    pub label: Seq<char>,
    pub enabled: bool,
    pub icon_name: Seq<char>,
    pub command: Option<CommandView>,
}

impl View for MenuEntry {
    type V = MenuEntryView;

    open spec fn view(&self) -> MenuEntryView {
        MenuEntryView {
            label: self.label@,
            enabled: self.enabled,
            icon_name: self.icon_name@,
            command: match self.command {
                Some(c) => Some(c@),
                None => None,
            },
        }
    }
}

/// The icon: the muted microphone while disconnected or switched off.
pub open spec fn tray_icon(s: TrayState) -> Seq<char> {
    if !s.is_connected {
        "audio-input-microphone-muted"@
    } else if s.is_on {
        "audio-input-microphone"@
    } else {
        "audio-input-microphone-muted"@
    }
}

/// The menu entry of profile `name`, starred when it is the active one.
pub open spec fn profile_entry(name: Seq<char>, active: Seq<char>) -> MenuEntryView {
    MenuEntryView {
        label: if name == active {
            "* "@ + name
        } else {
            name
        },
        enabled: true,
        icon_name: Seq::empty(),
        command: Some(CommandView::SelectProfile(name)),
    }
}

/// The tray menu: one entry per profile, a disabled separator, the on/off
/// toggle and "Quit".
pub open spec fn tray_menu(s: TrayState) -> Seq<MenuEntryView> {
    Seq::new(
        s.profile_names@.len(),
        |i: int| profile_entry(s.profile_names@[i]@, s.active_profile@),
    ) + seq![
        MenuEntryView {
            label: "---"@,
            enabled: false,
            icon_name: Seq::empty(),
            command: None,
        },
        MenuEntryView {
            label: if s.is_on {
                "Turn Off"@
            } else {
                "Turn On"@
            },
            enabled: true,
            icon_name: Seq::empty(),
            command: Some(CommandView::ToggleOnOff),
        },
        MenuEntryView {
            label: "Quit"@,
            enabled: true,
            icon_name: "application-exit"@,
            command: Some(CommandView::Quit),
        },
    ]
}

impl TrayState {
    /// The name of the tray icon.
    pub fn icon_name(&self) -> (name: String)
        ensures
            name@ == tray_icon(*self),
    {
        if !self.is_connected {
            String::from_str("audio-input-microphone-muted")
        } else if self.is_on {
            String::from_str("audio-input-microphone")
        } else {
            String::from_str("audio-input-microphone-muted")
        }
    }

    /// The entries of the tray menu.
    pub fn menu(&self) -> (items: Vec<MenuEntry>)
        ensures
            items@.len() == tray_menu(*self).len(),
            forall|i: int| 0 <= i < items@.len() ==> #[trigger] items@[i]@ == tray_menu(*self)[i],
    {
        let mut items: Vec<MenuEntry> = Vec::new();
        let n = self.profile_names.len();
        let mut i: usize = 0;
        while i < n
            invariant
                n == self.profile_names@.len(),
                i <= n,
                items@.len() == i,
                forall|k: int|
                    0 <= k < i ==> #[trigger] items@[k]@ == profile_entry(
                        self.profile_names@[k]@,
                        self.active_profile@,
                    ),
            decreases n - i,
        {
            let name = &self.profile_names[i];
            let is_active = *name == self.active_profile;
            let label = if is_active {
                let mut l = String::from_str("* ");
                l.append(name.as_str());
                l
            } else {
                name.clone()
            };
            items.push(
                MenuEntry {
                    label,
                    enabled: true,
                    icon_name: String::new(),
                    command: Some(Command::SelectProfile(name.clone())),
                },
            );
            i = i + 1;
        }
        items.push(
            MenuEntry {
                label: String::from_str("---"),
                enabled: false,
                icon_name: String::new(),
                command: None,
            },
        );
        let toggle_label = if self.is_on {
            "Turn Off"
        } else {
            "Turn On"
        };
        items.push(
            MenuEntry {
                label: String::from_str(toggle_label),
                enabled: true,
                icon_name: String::new(),
                command: Some(Command::ToggleOnOff),
            },
        );
        items.push(
            MenuEntry {
                label: String::from_str("Quit"),
                enabled: true,
                icon_name: String::from_str("application-exit"),
                command: Some(Command::Quit),
            },
        );
        proof {
            let m = tray_menu(*self);
            assert(m.len() == n + 3);
            assert forall|k: int| 0 <= k < items@.len() implies #[trigger] items@[k]@ == m[k] by {
                if k < n {
                    assert(m[k] == profile_entry(self.profile_names@[k]@, self.active_profile@));
                }
            }
        }
        items
    }
}

/// The tray menu lists every profile in order, each choosing itself (the
/// active one starred), then a disabled separator, the on/off toggle and
/// "Quit"; the icon is the live microphone only while connected and on.
pub proof fn lemma_tray_menu_entries(s: TrayState)
    ensures
        tray_menu(s).len() == s.profile_names@.len() + 3,
        forall|i: int|
            0 <= i < s.profile_names@.len() ==> (#[trigger] tray_menu(s)[i]).command == Some(
                CommandView::SelectProfile(s.profile_names@[i]@),
            ) && tray_menu(s)[i].enabled && tray_menu(s)[i].label == (if s.profile_names@[i]@
                == s.active_profile@ {
                "* "@ + s.profile_names@[i]@
            } else {
                s.profile_names@[i]@
            }),
        tray_menu(s)[s.profile_names@.len() as int].command is None,
        !tray_menu(s)[s.profile_names@.len() as int].enabled,
        tray_menu(s)[s.profile_names@.len() as int + 1].command == Some(CommandView::ToggleOnOff),
        tray_menu(s)[s.profile_names@.len() as int + 1].label == (if s.is_on {
            "Turn Off"@
        } else {
            "Turn On"@
        }),
        tray_menu(s)[s.profile_names@.len() as int + 2].command == Some(CommandView::Quit),
        tray_menu(s)[s.profile_names@.len() as int + 2].label == "Quit"@,
        tray_icon(s) == (if s.is_connected && s.is_on {
            "audio-input-microphone"@
        } else {
            "audio-input-microphone-muted"@
        }),
{
}

} // verus!
