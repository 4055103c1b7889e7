//! Application configuration and lighting profiles.
//!
//! Profiles are kept as `(name, profile)` pairs; a fresh configuration holds
//! the built-in profiles (8 theme + 5 practical) with "Catppuccin Mocha"
//! active.

use vstd::prelude::*;
use vstd::string::*;
use crate::animations::{Mode, Zone};
use crate::protocol::Color;
use crate::presets::{all, lemma_preset_names_distinct, preset_table, preset_entry};

verus! {

/// A single lighting profile.
#[derive(Debug, Clone)]
pub struct Profile {
    pub mode: Mode,
    pub zone: Zone,
    pub brightness: u8,
    pub speed: u8,
    pub colors: Vec<(u8, u8, u8)>,
}

/// The value of a [`Profile`].
pub struct ProfileSpec {
    pub mode: Mode,
    pub zone: Zone,
    pub brightness: u8,
    pub speed: u8,
    pub colors: Seq<Color>,
}

impl View for Profile {
    type V = ProfileSpec;

    open spec fn view(&self) -> ProfileSpec {
        ProfileSpec {
            mode: self.mode,
            zone: self.zone,
            brightness: self.brightness,
            speed: self.speed,
            colors: self.colors@,
        }
    }
}

/// Named profiles as name and value pairs.
pub open spec fn named_profiles(s: Seq<(String, Profile)>) -> Seq<(Seq<char>, ProfileSpec)> {
    Seq::new(s.len(), |i: int| (s[i].0@, s[i].1@))
}

/// The first profile called `name`, if any.
pub open spec fn profile_named(s: Seq<(String, Profile)>, name: Seq<char>) -> Option<Profile>
    decreases s.len(),
{
    if s.len() == 0 {
        None
    } else if s[0].0@ == name {
        Some(s[0].1)
    } else {
        profile_named(s.drop_first(), name)
    }
}

/// No two profiles of the list share a name.
pub open spec fn names_distinct(s: Seq<(String, Profile)>) -> bool {
    forall|i: int, j: int| #![trigger s[i], s[j]] 0 <= i < j < s.len() ==> s[i].0@ != s[j].0@
}

/// A list holding the presets has thirteen entries under distinct names.
pub proof fn lemma_presets_distinct(s: Seq<(String, Profile)>)
    requires
        named_profiles(s) == preset_table(),
    ensures
        s.len() == 13,
        names_distinct(s),
{
    lemma_preset_names_distinct();
    assert(named_profiles(s).len() == s.len());
    assert forall|i: int, j: int| 0 <= i < j < s.len() implies s[i].0@ != s[j].0@ by {
        assert(named_profiles(s)[i].0 == s[i].0@);
        assert(named_profiles(s)[j].0 == s[j].0@);
    }
}

/// Built-in profiles shipped with every fresh config (8 theme + 5 practical):
/// the presets, under distinct names.
pub fn builtin_profiles() -> (profiles: Vec<(String, Profile)>)
    ensures
        named_profiles(profiles@) == preset_table(),
        names_distinct(profiles@),
{
    all()
}

/// Top-level application configuration.
#[derive(Debug, Clone)]
pub struct AppConfig {
    pub active_profile: String,
    pub profiles: Vec<(String, Profile)>,
    pub mute_indicator_enabled: bool,
    pub screen_lock_blackout: bool,
    pub close_to_tray: bool,
}

/// The invariant of a configuration: profile names are unique, so a name
/// selects at most one profile.
pub open spec fn config_wf(c: AppConfig) -> bool {
    names_distinct(c.profiles@)
}

/// A fresh configuration: the built-in profiles, "Catppuccin Mocha" active,
/// the mute indicator and screen-lock blackout on, close-to-tray off.
pub open spec fn is_default_config(c: AppConfig) -> bool {
    &&& c.active_profile@ == "Catppuccin Mocha"@
    &&& named_profiles(c.profiles@) == preset_table()
    &&& c.mute_indicator_enabled
    &&& c.screen_lock_blackout
    &&& !c.close_to_tray
}

impl Default for AppConfig {
    fn default() -> (c: Self)
        ensures
            is_default_config(c),
            config_wf(c),
    {
        AppConfig {
            active_profile: String::from_str("Catppuccin Mocha"),
            profiles: builtin_profiles(),
            mute_indicator_enabled: true,
            screen_lock_blackout: true,
            close_to_tray: false,
        }
    }
}

impl AppConfig {
    /// Get the currently active profile, or `None` if it doesn't exist.
    pub fn active_profile(&self) -> (p: Option<&Profile>)
        ensures
            p matches Some(q) ==> profile_named(self.profiles@, self.active_profile@) == Some(*q),
            p is None ==> profile_named(self.profiles@, self.active_profile@) is None,
    {
        let n = self.profiles.len();
        let mut i: usize = 0;
        assert(self.profiles@.subrange(0, n as int) =~= self.profiles@);
        while i < n
            invariant
                n == self.profiles@.len(),
                i <= n,
                profile_named(self.profiles@, self.active_profile@) == profile_named(
                    self.profiles@.subrange(i as int, n as int),
                    self.active_profile@,
                ),
            decreases n - i,
        {
            let ghost rest = self.profiles@.subrange(i as int, n as int);
            assert(rest.drop_first() =~= self.profiles@.subrange(i + 1, n as int));
            if self.profiles[i].0 == self.active_profile {
                return Some(&self.profiles[i].1);
            }
            i = i + 1;
        }
        None
    }
}

/// In a fresh configuration the active profile exists: it is the first
/// built-in profile, "Catppuccin Mocha".
pub proof fn lemma_default_active_profile_exists(c: AppConfig)
    requires
        is_default_config(c),
    ensures
        profile_named(c.profiles@, c.active_profile@) matches Some(p) && p@ == preset_entry(0).1,
{
    assert(named_profiles(c.profiles@).len() == preset_table().len());
    assert(c.profiles@.len() == 13);
    assert(named_profiles(c.profiles@)[0] == preset_table()[0]);
    assert(c.profiles@[0].0@ == preset_entry(0).0);
    assert(c.profiles@[0].1@ == preset_entry(0).1);
}

/// In a list with distinct names, the name of entry `i` selects entry `i`.
pub proof fn lemma_profile_named_at(s: Seq<(String, Profile)>, i: int)
    requires
        names_distinct(s),
        0 <= i < s.len(),
    ensures
        profile_named(s, s[i].0@) == Some(s[i].1),
    decreases s.len(),
{
    if i > 0 {
        assert(s[0].0@ != s[i].0@);
        let t = s.drop_first();
        assert forall|a: int, b: int| 0 <= a < b < t.len() implies t[a].0@ != t[b].0@ by {
            assert(t[a] == s[a + 1] && t[b] == s[b + 1]);
        }
        assert(t[i - 1] == s[i]);
        lemma_profile_named_at(t, i - 1);
    }
}

/// The preset list and the built-in profiles hold the same data: thirteen
/// entries each, under pairwise distinct names, and every preset's name picks
/// out a built-in profile with the preset's mode, zone, brightness, speed and
/// colors.
pub proof fn lemma_builtin_profiles_are_presets(
    presets: Seq<(String, Profile)>,
    builtin: Seq<(String, Profile)>,
)
    requires
        named_profiles(presets) == preset_table(),
        named_profiles(builtin) == preset_table(),
    ensures
        presets.len() == 13,
        builtin.len() == 13,
        names_distinct(presets),
        names_distinct(builtin),
        forall|i: int|
            0 <= i < presets.len() ==> (#[trigger] profile_named(builtin, presets[i].0@) matches Some(
                p,
            ) && p@ == presets[i].1@),
{
    lemma_presets_distinct(presets);
    lemma_presets_distinct(builtin);
    assert forall|i: int| 0 <= i < presets.len() implies (#[trigger] profile_named(
        builtin,
        presets[i].0@,
    ) matches Some(p) && p@ == presets[i].1@) by {
        assert(named_profiles(presets)[i] == named_profiles(builtin)[i]);
        lemma_profile_named_at(builtin, i);
    }
}

} // verus!
