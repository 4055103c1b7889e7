use sliglight::animations::{Mode, Zone};
use sliglight::config::{builtin_profiles, AppConfig};
use sliglight::presets::all;

#[test]
fn thirteen_builtin_profiles_match_presets() {
    let presets = all();
    let builtin = builtin_profiles();
    assert_eq!(presets.len(), 13);
    assert_eq!(builtin.len(), 13);
    for (p, b) in presets.iter().zip(builtin.iter()) {
        assert_eq!(p.0, b.0);
        assert_eq!(p.1.colors, b.1.colors);
        assert_eq!(p.1.mode, b.1.mode);
    }
    let names: Vec<&str> = presets.iter().map(|(n, _)| n.as_str()).collect();
    assert_eq!(names[0], "Catppuccin Mocha");
    assert_eq!(names[8], "On Air Red");
    assert_eq!(names[12], "Rainbow Party");
}

#[test]
fn preset_values() {
    let presets = all();
    let nord = &presets[2].1;
    assert_eq!(presets[2].0, "Nord");
    assert_eq!(nord.mode, Mode::Cycle);
    assert_eq!(nord.zone, Zone::Both);
    assert_eq!(nord.brightness, 75);
    assert_eq!(nord.speed, 30);
    assert_eq!(nord.colors.len(), 5);
    assert_eq!(nord.colors[4], (180, 142, 173));
    let white = &presets[11].1;
    assert_eq!(white.mode, Mode::Pulse);
    assert_eq!(white.colors, vec![(255, 255, 255)]);
}

#[test]
fn default_config_resolves_active_profile() {
    let config = AppConfig::default();
    assert_eq!(config.active_profile, "Catppuccin Mocha");
    assert!(config.mute_indicator_enabled);
    assert!(config.screen_lock_blackout);
    assert!(!config.close_to_tray);
    let p = config.active_profile().expect("active profile");
    assert_eq!(p.mode, Mode::Wave);
    assert_eq!(p.brightness, 80);
    assert_eq!(p.speed, 40);
    assert_eq!(p.colors[0], (203, 166, 247));
}

#[test]
fn missing_active_profile_is_none() {
    let mut config = AppConfig::default();
    config.active_profile = "Nope".to_string();
    assert!(config.active_profile().is_none());
    config.active_profile = "Cyberpunk".to_string();
    assert_eq!(config.active_profile().unwrap().speed, 60);
}

#[test]
fn builtin_names_are_distinct_and_select_presets() {
    let presets = all();
    let builtin = builtin_profiles();
    for (i, (name, p)) in presets.iter().enumerate() {
        for (other, _) in presets.iter().skip(i + 1) {
            assert_ne!(name, other);
        }
        let found: Vec<_> = builtin.iter().filter(|(n, _)| n == name).collect();
        assert_eq!(found.len(), 1);
        let b = &found[0].1;
        assert_eq!((b.mode, b.zone, b.brightness, b.speed), (p.mode, p.zone, p.brightness, p.speed));
        assert_eq!(b.colors, p.colors);
    }
}
