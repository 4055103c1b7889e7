use sliglight::animations::{Mode, Zone};
use sliglight::engine::Event;
use sliglight::panel::{boot, update, Effect, Message, Status, DEFAULT_PREVIEW};

#[test]
fn boot_state() {
    let app = boot();
    assert_eq!(app.colors, vec![(255, 0, 0)]);
    assert_eq!(app.mode, Mode::Solid);
    assert_eq!(app.zone, Zone::Both);
    assert_eq!(app.brightness, 80);
    assert_eq!(app.speed, 81);
    assert!(app.editing_color.is_none());
    assert!(app.engine.is_none());
    assert_eq!(app.upper_preview_color, DEFAULT_PREVIEW);
}

#[test]
fn add_colors_up_to_eleven() {
    let mut app = boot();
    for _ in 0..15 {
        assert_eq!(update(&mut app, Message::AddColor), Effect::Nothing);
    }
    assert_eq!(app.colors.len(), 11);
    assert_eq!(app.colors[1], (0, 255, 0));
    assert_eq!(app.colors[2], (0, 0, 255));
    assert_eq!(app.colors[10], (136, 0, 255));
}

#[test]
fn edit_color_with_hex_and_sliders() {
    let mut app = boot();
    update(&mut app, Message::AddColor);
    update(&mut app, Message::ToggleColorEditor(1));
    assert_eq!(app.editing_color, Some(1));
    assert_eq!(app.hex_input, "00FF00");
    update(&mut app, Message::HexInputChanged("#12zz34ab56".to_string()));
    assert_eq!(app.hex_input, "1234AB");
    assert_eq!(app.colors[1], (0x12, 0x34, 0xAB));
    update(&mut app, Message::HexInputChanged("f0".to_string()));
    assert_eq!(app.hex_input, "F0");
    assert_eq!(app.colors[1], (0x12, 0x34, 0xAB));
    update(&mut app, Message::SetColorB(1));
    assert_eq!(app.colors[1], (0x12, 0x34, 0x01));
    assert_eq!(app.hex_input, "123401");
    update(&mut app, Message::ToggleColorEditor(1));
    assert!(app.editing_color.is_none());
    update(&mut app, Message::SetColorR(9));
    assert_eq!(app.colors[1], (0x12, 0x34, 0x01));
}

#[test]
fn remove_color_keeps_editor_on_same_color() {
    let mut app = boot();
    update(&mut app, Message::AddColor);
    update(&mut app, Message::AddColor);
    update(&mut app, Message::ToggleColorEditor(2));
    update(&mut app, Message::RemoveColor(0));
    assert_eq!(app.colors, vec![(0, 255, 0), (0, 0, 255)]);
    assert_eq!(app.editing_color, Some(1));
    update(&mut app, Message::RemoveColor(1));
    assert!(app.editing_color.is_none());
    update(&mut app, Message::RemoveColor(0));
    assert_eq!(app.colors, vec![(0, 255, 0)]);
}

#[test]
fn apply_starts_engine_and_reset_restores_defaults() {
    let mut app = boot();
    update(&mut app, Message::SetMode(Mode::Wave));
    update(&mut app, Message::SetZone(Zone::Lower));
    update(&mut app, Message::SetBrightness(40));
    update(&mut app, Message::SetSpeed(12));
    update(&mut app, Message::SetColor(0, (1, 2, 3)));
    assert_eq!(update(&mut app, Message::Apply), Effect::StopRgbService);
    let engine = app.engine.as_ref().expect("engine");
    assert_eq!(engine.config.mode, Mode::Wave);
    assert_eq!(engine.config.zone, Zone::Lower);
    assert_eq!(engine.config.brightness, 40);
    assert_eq!(engine.config.speed, 12);
    assert_eq!(engine.config.colors, vec![(1, 2, 3)]);
    update(&mut app, Message::EngineEvent(Event::Connected));
    assert!(matches!(app.status, Status::Connected));
    update(&mut app, Message::EngineEvent(Event::FrameSent { upper: (9, 9, 9), lower: (8, 8, 8) }));
    assert_eq!(app.upper_preview_color, (9, 9, 9));
    assert_eq!(app.lower_preview_color, (8, 8, 8));
    update(&mut app, Message::EngineEvent(Event::Error("gone".to_string())));
    assert!(matches!(&app.status, Status::Error(e) if e == "gone"));
    update(&mut app, Message::Reset);
    assert!(app.engine.is_none());
    assert_eq!(app.mode, Mode::Solid);
    assert_eq!(app.colors, vec![(255, 0, 0)]);
    assert_eq!(app.lower_preview_color, DEFAULT_PREVIEW);
    assert!(matches!(app.status, Status::Idle));
}
