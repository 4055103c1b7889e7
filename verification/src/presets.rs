//! Built-in lighting presets (8 theme + 5 practical).

use vstd::prelude::*;
use vstd::string::*;
use crate::animations::{Mode, Zone};
use crate::config::{Profile, ProfileSpec, lemma_presets_distinct, named_profiles, names_distinct};

verus! {

/// Number of built-in presets.
pub const PRESET_COUNT: usize = 13;

/// Built-in preset number `i`: eight theme presets, then five practical ones.
pub open spec fn preset_entry(i: int) -> (Seq<char>, ProfileSpec) {
    if i == 0 {
        (
            "Catppuccin Mocha"@,
            ProfileSpec {
                mode: Mode::Wave,
                zone: Zone::Both,
                brightness: 80,
                speed: 40,
                colors: seq![(203u8, 166u8, 247u8), (137u8, 180u8, 250u8), (116u8, 199u8, 236u8), (166u8, 227u8, 161u8), (249u8, 226u8, 175u8), (250u8, 179u8, 135u8), (243u8, 139u8, 168u8)],
            },
        )
    } else if i == 1 {
        (
            "Catppuccin Latte"@,
            ProfileSpec {
                mode: Mode::Wave,
                zone: Zone::Both,
                brightness: 90,
                speed: 35,
                colors: seq![(136u8, 57u8, 239u8), (30u8, 102u8, 245u8), (32u8, 159u8, 181u8), (64u8, 160u8, 43u8), (223u8, 142u8, 29u8), (254u8, 100u8, 11u8), (210u8, 15u8, 57u8)],
            },
        )
    } else if i == 2 {
        (
            "Nord"@,
            ProfileSpec {
                mode: Mode::Cycle,
                zone: Zone::Both,
                brightness: 75,
                speed: 30,
                colors: seq![(136u8, 192u8, 208u8), (129u8, 161u8, 193u8), (94u8, 129u8, 172u8), (163u8, 190u8, 140u8), (180u8, 142u8, 173u8)],
            },
        )
    } else if i == 3 {
        (
            "Dracula"@,
            ProfileSpec {
                mode: Mode::Wave,
                zone: Zone::Both,
                brightness: 85,
                speed: 45,
                colors: seq![(189u8, 147u8, 249u8), (255u8, 121u8, 198u8), (139u8, 233u8, 253u8), (80u8, 250u8, 123u8), (255u8, 184u8, 108u8), (241u8, 250u8, 140u8)],
            },
        )
    } else if i == 4 {
        (
            "Gruvbox"@,
            ProfileSpec {
                mode: Mode::Cycle,
                zone: Zone::Both,
                brightness: 80,
                speed: 35,
                colors: seq![(251u8, 73u8, 52u8), (250u8, 189u8, 47u8), (184u8, 187u8, 38u8), (131u8, 165u8, 152u8), (211u8, 134u8, 155u8), (254u8, 128u8, 25u8)],
            },
        )
    } else if i == 5 {
        (
            "Rose Pine"@,
            ProfileSpec {
                mode: Mode::Wave,
                zone: Zone::Both,
                brightness: 75,
                speed: 40,
                colors: seq![(235u8, 188u8, 186u8), (196u8, 167u8, 231u8), (156u8, 207u8, 216u8), (246u8, 193u8, 119u8), (234u8, 154u8, 151u8)],
            },
        )
    } else if i == 6 {
        (
            "Tokyo Night"@,
            ProfileSpec {
                mode: Mode::Cycle,
                zone: Zone::Both,
                brightness: 80,
                speed: 35,
                colors: seq![(122u8, 162u8, 247u8), (187u8, 154u8, 247u8), (125u8, 207u8, 255u8), (158u8, 206u8, 106u8), (224u8, 175u8, 104u8), (247u8, 118u8, 142u8)],
            },
        )
    } else if i == 7 {
        (
            "Solarized"@,
            ProfileSpec {
                mode: Mode::Cycle,
                zone: Zone::Both,
                brightness: 80,
                speed: 30,
                colors: seq![(38u8, 139u8, 210u8), (42u8, 161u8, 152u8), (133u8, 153u8, 0u8), (203u8, 75u8, 22u8), (220u8, 50u8, 47u8), (108u8, 113u8, 196u8)],
            },
        )
    } else if i == 8 {
        (
            "On Air Red"@,
            ProfileSpec {
                mode: Mode::Solid,
                zone: Zone::Both,
                brightness: 100,
                speed: 50,
                colors: seq![(255u8, 0u8, 0u8)],
            },
        )
    } else if i == 9 {
        (
            "Podcast Warm"@,
            ProfileSpec {
                mode: Mode::Solid,
                zone: Zone::Both,
                brightness: 70,
                speed: 50,
                colors: seq![(255u8, 160u8, 40u8)],
            },
        )
    } else if i == 10 {
        (
            "Cyberpunk"@,
            ProfileSpec {
                mode: Mode::Wave,
                zone: Zone::Both,
                brightness: 100,
                speed: 60,
                colors: seq![(255u8, 0u8, 200u8), (0u8, 255u8, 255u8)],
            },
        )
    } else if i == 11 {
        (
            "Minimal White"@,
            ProfileSpec {
                mode: Mode::Pulse,
                zone: Zone::Both,
                brightness: 60,
                speed: 25,
                colors: seq![(255u8, 255u8, 255u8)],
            },
        )
    } else {
        (
            "Rainbow Party"@,
            ProfileSpec {
                mode: Mode::Wave,
                zone: Zone::Both,
                brightness: 100,
                speed: 70,
                colors: seq![(255u8, 0u8, 0u8), (255u8, 127u8, 0u8), (255u8, 255u8, 0u8), (0u8, 255u8, 0u8), (0u8, 0u8, 255u8), (75u8, 0u8, 130u8), (148u8, 0u8, 211u8)],
            },
        )
    }
}

/// The built-in presets, in order.
pub open spec fn preset_table() -> Seq<(Seq<char>, ProfileSpec)> {
    Seq::new(PRESET_COUNT as nat, |i: int| preset_entry(i))
}

/// Return all built-in presets as `(name, profile)` pairs.
pub fn all() -> (presets: Vec<(String, Profile)>)
    ensures
        named_profiles(presets@) == preset_table(),
        names_distinct(presets@),
{
    let mut out: Vec<(String, Profile)> = Vec::new();
    let e0 = (
        String::from_str("Catppuccin Mocha"),
        Profile {
            mode: Mode::Wave,
            zone: Zone::Both,
            brightness: 80,
            speed: 40,
            colors: vec![(203, 166, 247), (137, 180, 250), (116, 199, 236), (166, 227, 161), (249, 226, 175), (250, 179, 135), (243, 139, 168)],
        },
    );
    assert(e0.1.colors@ =~= preset_entry(0).1.colors);
    assert((e0.0@, e0.1@) == preset_entry(0));
    out.push(e0);
    let e1 = (
        String::from_str("Catppuccin Latte"),
        Profile {
            mode: Mode::Wave,
            zone: Zone::Both,
            brightness: 90,
            speed: 35,
            colors: vec![(136, 57, 239), (30, 102, 245), (32, 159, 181), (64, 160, 43), (223, 142, 29), (254, 100, 11), (210, 15, 57)],
        },
    );
    assert(e1.1.colors@ =~= preset_entry(1).1.colors);
    assert((e1.0@, e1.1@) == preset_entry(1));
    out.push(e1);
    let e2 = (
        String::from_str("Nord"),
        Profile {
            mode: Mode::Cycle,
            zone: Zone::Both,
            brightness: 75,
            speed: 30,
            colors: vec![(136, 192, 208), (129, 161, 193), (94, 129, 172), (163, 190, 140), (180, 142, 173)],
        },
    );
    assert(e2.1.colors@ =~= preset_entry(2).1.colors);
    assert((e2.0@, e2.1@) == preset_entry(2));
    out.push(e2);
    let e3 = (
        String::from_str("Dracula"),
        Profile {
            mode: Mode::Wave,
            zone: Zone::Both,
            brightness: 85,
            speed: 45,
            colors: vec![(189, 147, 249), (255, 121, 198), (139, 233, 253), (80, 250, 123), (255, 184, 108), (241, 250, 140)],
        },
    );
    assert(e3.1.colors@ =~= preset_entry(3).1.colors);
    assert((e3.0@, e3.1@) == preset_entry(3));
    out.push(e3);
    let e4 = (
        String::from_str("Gruvbox"),
        Profile {
            mode: Mode::Cycle,
            zone: Zone::Both,
            brightness: 80,
            speed: 35,
            colors: vec![(251, 73, 52), (250, 189, 47), (184, 187, 38), (131, 165, 152), (211, 134, 155), (254, 128, 25)],
        },
    );
    assert(e4.1.colors@ =~= preset_entry(4).1.colors);
    assert((e4.0@, e4.1@) == preset_entry(4));
    out.push(e4);
    let e5 = (
        String::from_str("Rose Pine"),
        Profile {
            mode: Mode::Wave,
            zone: Zone::Both,
            brightness: 75,
            speed: 40,
            colors: vec![(235, 188, 186), (196, 167, 231), (156, 207, 216), (246, 193, 119), (234, 154, 151)],
        },
    );
    assert(e5.1.colors@ =~= preset_entry(5).1.colors);
    assert((e5.0@, e5.1@) == preset_entry(5));
    out.push(e5);
    let e6 = (
        String::from_str("Tokyo Night"),
        Profile {
            mode: Mode::Cycle,
            zone: Zone::Both,
            brightness: 80,
            speed: 35,
            colors: vec![(122, 162, 247), (187, 154, 247), (125, 207, 255), (158, 206, 106), (224, 175, 104), (247, 118, 142)],
        },
    );
    assert(e6.1.colors@ =~= preset_entry(6).1.colors);
    assert((e6.0@, e6.1@) == preset_entry(6));
    out.push(e6);
    let e7 = (
        String::from_str("Solarized"),
        Profile {
            mode: Mode::Cycle,
            zone: Zone::Both,
            brightness: 80,
            speed: 30,
            colors: vec![(38, 139, 210), (42, 161, 152), (133, 153, 0), (203, 75, 22), (220, 50, 47), (108, 113, 196)],
        },
    );
    assert(e7.1.colors@ =~= preset_entry(7).1.colors);
    assert((e7.0@, e7.1@) == preset_entry(7));
    out.push(e7);
    let e8 = (
        String::from_str("On Air Red"),
        Profile {
            mode: Mode::Solid,
            zone: Zone::Both,
            brightness: 100,
            speed: 50,
            colors: vec![(255, 0, 0)],
        },
    );
    assert(e8.1.colors@ =~= preset_entry(8).1.colors);
    assert((e8.0@, e8.1@) == preset_entry(8));
    out.push(e8);
    let e9 = (
        String::from_str("Podcast Warm"),
        Profile {
            mode: Mode::Solid,
            zone: Zone::Both,
            brightness: 70,
            speed: 50,
            colors: vec![(255, 160, 40)],
        },
    );
    assert(e9.1.colors@ =~= preset_entry(9).1.colors);
    assert((e9.0@, e9.1@) == preset_entry(9));
    out.push(e9);
    let e10 = (
        String::from_str("Cyberpunk"),
        Profile {
            mode: Mode::Wave,
            zone: Zone::Both,
            brightness: 100,
            speed: 60,
            colors: vec![(255, 0, 200), (0, 255, 255)],
        },
    );
    assert(e10.1.colors@ =~= preset_entry(10).1.colors);
    assert((e10.0@, e10.1@) == preset_entry(10));
    out.push(e10);
    let e11 = (
        String::from_str("Minimal White"),
        Profile {
            mode: Mode::Pulse,
            zone: Zone::Both,
            brightness: 60,
            speed: 25,
            colors: vec![(255, 255, 255)],
        },
    );
    assert(e11.1.colors@ =~= preset_entry(11).1.colors);
    assert((e11.0@, e11.1@) == preset_entry(11));
    out.push(e11);
    let e12 = (
        String::from_str("Rainbow Party"),
        Profile {
            mode: Mode::Wave,
            zone: Zone::Both,
            brightness: 100,
            speed: 70,
            colors: vec![(255, 0, 0), (255, 127, 0), (255, 255, 0), (0, 255, 0), (0, 0, 255), (75, 0, 130), (148, 0, 211)],
        },
    );
    assert(e12.1.colors@ =~= preset_entry(12).1.colors);
    assert((e12.0@, e12.1@) == preset_entry(12));
    out.push(e12);
    assert(named_profiles(out@) =~= preset_table());
    proof {
        lemma_presets_distinct(out@);
    }
    out
}

/// The built-in presets have distinct names, so a name picks at most one.
pub proof fn lemma_preset_names_distinct()
    ensures
        forall|i: int, j: int|
            0 <= i < j < preset_table().len() ==> #[trigger] preset_table()[i].0 != #[trigger] preset_table()[j].0,
{
    reveal_strlit("Catppuccin Mocha");
    reveal_strlit("Catppuccin Latte");
    reveal_strlit("Nord");
    reveal_strlit("Dracula");
    reveal_strlit("Gruvbox");
    reveal_strlit("Rose Pine");
    reveal_strlit("Tokyo Night");
    reveal_strlit("Solarized");
    reveal_strlit("On Air Red");
    reveal_strlit("Podcast Warm");
    reveal_strlit("Cyberpunk");
    reveal_strlit("Minimal White");
    reveal_strlit("Rainbow Party");
    let t = preset_table();
    assert(t[0].0 == "Catppuccin Mocha"@);
    assert(t[1].0 == "Catppuccin Latte"@);
    assert(t[2].0 == "Nord"@);
    assert(t[3].0 == "Dracula"@);
    assert(t[4].0 == "Gruvbox"@);
    assert(t[5].0 == "Rose Pine"@);
    assert(t[6].0 == "Tokyo Night"@);
    assert(t[7].0 == "Solarized"@);
    assert(t[8].0 == "On Air Red"@);
    assert(t[9].0 == "Podcast Warm"@);
    assert(t[10].0 == "Cyberpunk"@);
    assert(t[11].0 == "Minimal White"@);
    assert(t[12].0 == "Rainbow Party"@);
    assert(t[0].0[11] != t[1].0[11]);
    assert(t[0].0.len() != t[2].0.len());
    assert(t[0].0.len() != t[3].0.len());
    assert(t[0].0.len() != t[4].0.len());
    assert(t[0].0.len() != t[5].0.len());
    assert(t[0].0.len() != t[6].0.len());
    assert(t[0].0.len() != t[7].0.len());
    assert(t[0].0.len() != t[8].0.len());
    assert(t[0].0.len() != t[9].0.len());
    assert(t[0].0.len() != t[10].0.len());
    assert(t[0].0.len() != t[11].0.len());
    assert(t[0].0.len() != t[12].0.len());
    assert(t[1].0.len() != t[2].0.len());
    assert(t[1].0.len() != t[3].0.len());
    assert(t[1].0.len() != t[4].0.len());
    assert(t[1].0.len() != t[5].0.len());
    assert(t[1].0.len() != t[6].0.len());
    assert(t[1].0.len() != t[7].0.len());
    assert(t[1].0.len() != t[8].0.len());
    assert(t[1].0.len() != t[9].0.len());
    assert(t[1].0.len() != t[10].0.len());
    assert(t[1].0.len() != t[11].0.len());
    assert(t[1].0.len() != t[12].0.len());
    assert(t[2].0.len() != t[3].0.len());
    assert(t[2].0.len() != t[4].0.len());
    assert(t[2].0.len() != t[5].0.len());
    assert(t[2].0.len() != t[6].0.len());
    assert(t[2].0.len() != t[7].0.len());
    assert(t[2].0.len() != t[8].0.len());
    assert(t[2].0.len() != t[9].0.len());
    assert(t[2].0.len() != t[10].0.len());
    assert(t[2].0.len() != t[11].0.len());
    assert(t[2].0.len() != t[12].0.len());
    assert(t[3].0[0] != t[4].0[0]);
    assert(t[3].0.len() != t[5].0.len());
    assert(t[3].0.len() != t[6].0.len());
    assert(t[3].0.len() != t[7].0.len());
    assert(t[3].0.len() != t[8].0.len());
    assert(t[3].0.len() != t[9].0.len());
    assert(t[3].0.len() != t[10].0.len());
    assert(t[3].0.len() != t[11].0.len());
    assert(t[3].0.len() != t[12].0.len());
    assert(t[4].0.len() != t[5].0.len());
    assert(t[4].0.len() != t[6].0.len());
    assert(t[4].0.len() != t[7].0.len());
    assert(t[4].0.len() != t[8].0.len());
    assert(t[4].0.len() != t[9].0.len());
    assert(t[4].0.len() != t[10].0.len());
    assert(t[4].0.len() != t[11].0.len());
    assert(t[4].0.len() != t[12].0.len());
    assert(t[5].0.len() != t[6].0.len());
    assert(t[5].0[0] != t[7].0[0]);
    assert(t[5].0.len() != t[8].0.len());
    assert(t[5].0.len() != t[9].0.len());
    assert(t[5].0[0] != t[10].0[0]);
    assert(t[5].0.len() != t[11].0.len());
    assert(t[5].0.len() != t[12].0.len());
    assert(t[6].0.len() != t[7].0.len());
    assert(t[6].0.len() != t[8].0.len());
    assert(t[6].0.len() != t[9].0.len());
    assert(t[6].0.len() != t[10].0.len());
    assert(t[6].0.len() != t[11].0.len());
    assert(t[6].0.len() != t[12].0.len());
    assert(t[7].0.len() != t[8].0.len());
    assert(t[7].0.len() != t[9].0.len());
    assert(t[7].0[0] != t[10].0[0]);
    assert(t[7].0.len() != t[11].0.len());
    assert(t[7].0.len() != t[12].0.len());
    assert(t[8].0.len() != t[9].0.len());
    assert(t[8].0.len() != t[10].0.len());
    assert(t[8].0.len() != t[11].0.len());
    assert(t[8].0.len() != t[12].0.len());
    assert(t[9].0.len() != t[10].0.len());
    assert(t[9].0.len() != t[11].0.len());
    assert(t[9].0.len() != t[12].0.len());
    assert(t[10].0.len() != t[11].0.len());
    assert(t[10].0.len() != t[12].0.len());
    assert(t[11].0[0] != t[12].0[0]);
}

} // verus!
