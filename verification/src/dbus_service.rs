//! Commands received on the `org.sliglight.Daemon` bus interface and the
//! state it reports (the bus connection itself belongs to the application).

use vstd::prelude::*;

verus! {

/// Commands from the bus to the application.
#[derive(Debug, Clone)]
pub enum Command {
    SetProfile(String),
    SetMode(String),
    SetBrightness(u8),
    SetColor(String),
}

/// State pushed from the application to the bus for property queries.
#[derive(Debug, Clone)]
pub struct DbusState {
    pub current_profile: String,
    pub is_connected: bool,
    pub profile_names: Vec<String>,
}

impl Default for DbusState {
    fn default() -> (s: Self)
        ensures
            s.current_profile@ == Seq::<char>::empty(),
            !s.is_connected,
            s.profile_names@.len() == 0,
    {
        DbusState { current_profile: String::new(), is_connected: false, profile_names: Vec::new() }
    }
}

} // verus!
