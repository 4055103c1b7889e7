//! State of the control panel and how each user action changes it.
//!
//! The panel edits a list of one to eleven colors, a mode, a zone, a
//! brightness and a speed; "Apply" starts an engine with these settings and
//! "Reset" returns to the defaults. Drawing the panel is left to the
//! application.

use vstd::prelude::*;
use vstd::string::*;
use crate::animations::{Mode, Zone};
use crate::engine::{EngineSettings, Event, Handle};
use crate::hex::{
    hex_color, hex_digit, hex_digit_value, hex_pair_value, hex_string, hex_text, lemma_hex_roundtrip,
    lemma_hex_text_upper, upper_hex_char,
};
use crate::protocol::Color;

verus! {

/// Preview color of an unlit LED (the mic body).
pub const DEFAULT_PREVIEW: Color = (0x31, 0x32, 0x47);

/// Most colors a palette can hold.
pub const MAX_COLORS: usize = 11;

/// Colors offered, in turn, when a color is added.
pub const ADD_COLOR_CYCLE: [Color; 10] = [
    (0, 255, 0),
    (0, 0, 255),
    (255, 255, 0),
    (0, 255, 255),
    (255, 0, 255),
    (255, 136, 0),
    (136, 255, 0),
    (255, 0, 136),
    (0, 136, 255),
    (136, 0, 255),
];

/// Connection status shown at the bottom of the panel.
#[derive(Debug)]
pub enum Status {
    Idle,
    Connected,
    Error(String),
}

/// The value of a [`Status`].
pub enum StatusView {
    Idle,
    Connected,
    Error(Seq<char>),
}

impl View for Status {
    type V = StatusView;

    open spec fn view(&self) -> StatusView {
        match self {
            Status::Idle => StatusView::Idle,
            Status::Connected => StatusView::Connected,
            Status::Error(e) => StatusView::Error(e@),
        }
    }
}

/// A user action or an engine report.
#[derive(Debug)]
pub enum Message {
    SetZone(Zone),
    SetMode(Mode),
    SetBrightness(u8),
    SetSpeed(u8),
    AddColor,
    RemoveColor(usize),
    SetColor(usize, Color),
    ToggleColorEditor(usize),
    HexInputChanged(String),
    SetColorR(u8),
    SetColorG(u8),
    SetColorB(u8),
    Apply,
    Reset,
    EngineEvent(Event),
}

impl Clone for Message {
    fn clone(&self) -> (m: Self)
        ensures
            m == *self,
    {
        match self {
            Message::SetZone(z) => Message::SetZone(*z),
            Message::SetMode(md) => Message::SetMode(*md),
            Message::SetBrightness(b) => Message::SetBrightness(*b),
            Message::SetSpeed(v) => Message::SetSpeed(*v),
            Message::AddColor => Message::AddColor,
            Message::RemoveColor(i) => Message::RemoveColor(*i),
            Message::SetColor(i, c) => Message::SetColor(*i, *c),
            Message::ToggleColorEditor(i) => Message::ToggleColorEditor(*i),
            Message::HexInputChanged(t) => Message::HexInputChanged(t.clone()),
            Message::SetColorR(v) => Message::SetColorR(*v),
            Message::SetColorG(v) => Message::SetColorG(*v),
            Message::SetColorB(v) => Message::SetColorB(*v),
            Message::Apply => Message::Apply,
            Message::Reset => Message::Reset,
            Message::EngineEvent(e) => Message::EngineEvent(e.clone()),
        }
    }
}

/// What the application has to do after an update.
#[derive(Debug, PartialEq, Eq, Structural)]
pub enum Effect {
    Nothing,
    /// Stop the system service that drives the LEDs, so that the engine
    /// just started can claim the device.
    StopRgbService,
}

/// The control panel.
pub struct App {
    pub zone: Zone,
    pub mode: Mode,
    pub brightness: u8,
    pub speed: u8,
    pub colors: Vec<Color>,
    pub editing_color: Option<usize>,
    pub hex_input: String,
    pub status: Status,
    pub engine: Option<Handle>,
    pub upper_preview_color: Color,
    pub lower_preview_color: Color,
}

/// The value of an [`App`].
pub struct AppView {
    pub zone: Zone,
    pub mode: Mode,
    pub brightness: u8,
    pub speed: u8,
    pub colors: Seq<Color>,
    pub editing_color: Option<usize>,
    pub hex_input: Seq<char>,
    pub status: StatusView,
    pub engine: Option<EngineSettings>,
    pub upper_preview_color: Color,
    pub lower_preview_color: Color,
}

impl View for App {
    type V = AppView;

    open spec fn view(&self) -> AppView {
        AppView {
            zone: self.zone,
            mode: self.mode,
            brightness: self.brightness,
            speed: self.speed,
            colors: self.colors@,
            editing_color: self.editing_color,
            hex_input: self.hex_input@,
            status: self.status@,
            engine: match self.engine {
                Some(h) => Some(h.config@),
                None => None,
            },
            upper_preview_color: self.upper_preview_color,
            lower_preview_color: self.lower_preview_color,
        }
    }
}

/// The panel at start-up and after "Reset": solid red on both zones at
/// brightness 80 and speed 81, no editor open, no engine.
pub open spec fn initial_panel() -> AppView {
    AppView {
        zone: Zone::Both,
        mode: Mode::Solid,
        brightness: 80,
        speed: 81,
        colors: seq![(255u8, 0u8, 0u8)],
        editing_color: None,
        hex_input: Seq::empty(),
        status: StatusView::Idle,
        engine: None,
        upper_preview_color: DEFAULT_PREVIEW,
        lower_preview_color: DEFAULT_PREVIEW,
    }
}

/// An upper-case hex digit.
pub open spec fn is_upper_hex(c: char) -> bool {
    ('0' <= c && c <= '9') || ('A' <= c && c <= 'F')
}

/// The panel invariant: one to eleven colors, the color being edited exists,
/// and the hex field holds at most six upper-case hex digits.
pub open spec fn panel_wf(v: AppView) -> bool {
    &&& 1 <= v.colors.len() <= MAX_COLORS
    &&& v.editing_color matches Some(i) ==> i < v.colors.len()
    &&& v.hex_input.len() <= 6
    &&& forall|k: int| 0 <= k < v.hex_input.len() ==> is_upper_hex(#[trigger] v.hex_input[k])
}

/// The hex digits of `s`, upper-cased, in order.
pub open spec fn hex_digits_of(s: Seq<char>) -> Seq<char>
    decreases s.len(),
{
    if s.len() == 0 {
        Seq::empty()
    } else {
        let c = s.last();
        let rest = hex_digits_of(s.drop_last());
        match hex_digit(c) {
            Some(d) => rest.push(upper_hex_char(d as int)),
            None => rest,
        }
    }
}

/// What the hex field keeps of a typed text: its first six hex digits,
/// upper-cased.
pub open spec fn cleaned_hex(s: Seq<char>) -> Seq<char> {
    let d = hex_digits_of(s);
    if d.len() <= 6 {
        d
    } else {
        d.take(6)
    }
}

/// The color list with one channel of color `idx` replaced.
pub open spec fn with_channel(colors: Seq<Color>, idx: int, ch: int, v: u8) -> Seq<Color> {
    let c = colors[idx];
    colors.update(
        idx,
        if ch == 0 {
            (v, c.1, c.2)
        } else if ch == 1 {
            (c.0, v, c.2)
        } else {
            (c.0, c.1, v)
        },
    )
}

/// Setting channel `ch` of the color being edited: the color and the hex
/// field follow; nothing happens when no color is being edited.
pub open spec fn set_channel(v: AppView, ch: int, value: u8) -> AppView {
    match v.editing_color {
        Some(idx) => {
            if idx < v.colors.len() {
                let colors = with_channel(v.colors, idx as int, ch, value);
                AppView { colors, hex_input: hex_text(colors[idx as int]), ..v }
            } else {
                v
            }
        },
        None => v,
    }
}

/// The color added after `n` colors.
pub open spec fn added_color(n: int) -> Color {
    ADD_COLOR_CYCLE@[(n - 1) % 10]
}

/// The editor index after removing color `i`.
pub open spec fn editing_after_remove(e: Option<usize>, i: usize) -> Option<usize> {
    match e {
        Some(idx) => {
            if idx == i {
                None
            } else if idx > i {
                Some((idx - 1) as usize)
            } else {
                Some(idx)
            }
        },
        None => None,
    }
}

/// The panel after a message.
pub open spec fn panel_step(v: AppView, m: Message) -> AppView {
    match m {
        Message::SetZone(z) => AppView { zone: z, ..v },
        Message::SetMode(md) => AppView { mode: md, ..v },
        Message::SetBrightness(b) => AppView { brightness: b, ..v },
        Message::SetSpeed(s) => AppView { speed: s, ..v },
        Message::AddColor => {
            if v.colors.len() < MAX_COLORS {
                AppView { colors: v.colors.push(added_color(v.colors.len() as int)), ..v }
            } else {
                v
            }
        },
        Message::RemoveColor(i) => {
            if v.colors.len() > 1 && i < v.colors.len() {
                AppView {
                    colors: v.colors.remove(i as int),
                    editing_color: editing_after_remove(v.editing_color, i),
                    ..v
                }
            } else {
                v
            }
        },
        Message::SetColor(i, c) => {
            if i < v.colors.len() {
                AppView { colors: v.colors.update(i as int, c), ..v }
            } else {
                v
            }
        },
        Message::ToggleColorEditor(i) => {
            if v.editing_color == Some(i) {
                AppView { editing_color: None, ..v }
            } else if i < v.colors.len() {
                AppView { editing_color: Some(i), hex_input: hex_text(v.colors[i as int]), ..v }
            } else {
                v
            }
        },
        Message::HexInputChanged(s) => {
            let h = cleaned_hex(s@);
            let colors = if h.len() == 6 && hex_color(h) is Some && v.editing_color is Some
                && v.editing_color->0 < v.colors.len() {
                v.colors.update(v.editing_color->0 as int, hex_color(h)->0)
            } else {
                v.colors
            };
            AppView { hex_input: h, colors, ..v }
        },
        Message::SetColorR(x) => set_channel(v, 0, x),
        Message::SetColorG(x) => set_channel(v, 1, x),
        Message::SetColorB(x) => set_channel(v, 2, x),
        Message::Apply => AppView {
            editing_color: None,
            engine: Some(
                EngineSettings {
                    mode: v.mode,
                    colors: v.colors,
                    brightness: v.brightness,
                    speed: v.speed,
                    zone: v.zone,
                },
            ),
            status: StatusView::Idle,
            ..v
        },
        Message::Reset => initial_panel(),
        Message::EngineEvent(e) => match e {
            Event::Connected => AppView { status: StatusView::Connected, ..v },
            Event::Error(msg) => AppView { status: StatusView::Error(msg@), ..v },
            Event::FrameSent { upper, lower } => AppView {
                upper_preview_color: upper,
                lower_preview_color: lower,
                ..v
            },
        },
    }
}

/// What the application has to do after a message: stop the LED service
/// when "Apply" starts an engine.
pub open spec fn panel_effect(m: Message) -> Effect {
    match m {
        Message::Apply => Effect::StopRgbService,
        _ => Effect::Nothing,
    }
}

/// The panel at start-up.
pub fn boot() -> (app: App)
    ensures
        app@ == initial_panel(),
        panel_wf(app@),
{
    let app = App {
        zone: Zone::Both,
        mode: Mode::Solid,
        brightness: 80,
        speed: 81,
        colors: vec![(255, 0, 0)],
        editing_color: None,
        hex_input: String::new(),
        status: Status::Idle,
        engine: None,
        upper_preview_color: DEFAULT_PREVIEW,
        lower_preview_color: DEFAULT_PREVIEW,
    };
    assert(app@.colors =~= seq![(255u8, 0u8, 0u8)]);
    assert(app@ == initial_panel());
    app
}

/// The first six hex digits of `s`, upper-cased.
fn clean_hex_input(s: &str) -> (out: String)
    ensures
        out@ == cleaned_hex(s@),
{
    let n = s.unicode_len();
    let mut out = String::new();
    let mut kept: usize = 0;
    let mut i: usize = 0;
    while i < n
        invariant
            n == s@.len(),
            i <= n,
            kept == out@.len(),
            out@ == cleaned_hex(s@.take(i as int)),
        decreases n - i,
    {
        let c = s.get_char(i);
        proof {
            assert(s@.take(i + 1).drop_last() =~= s@.take(i as int));
            assert(s@.take(i + 1).last() == c);
        }
        match hex_digit_value(c) {
            Some(v) => {
                if kept < 6 {
                    out.append(crate::hex::hex_digit_str(v));
                    kept = kept + 1;
                }
                proof {
                    let d = hex_digits_of(s@.take(i as int));
                    let d2 = hex_digits_of(s@.take(i + 1));
                    assert(d2 == d.push(upper_hex_char(v as int)));
                    if d.len() >= 6 {
                        assert(d2.take(6) =~= cleaned_hex(s@.take(i as int)));
                    } else {
                        assert(d2 =~= out@);
                    }
                }
            },
            None => {
                assert(hex_digits_of(s@.take(i + 1)) == hex_digits_of(s@.take(i as int)));
            },
        }
        i = i + 1;
    }
    assert(s@.take(n as int) =~= s@);
    out
}

/// A copy of a color list.
pub fn copy_colors(colors: &Vec<Color>) -> (out: Vec<Color>)
    ensures
        out@ == colors@,
{
    let mut out: Vec<Color> = Vec::new();
    let mut i: usize = 0;
    while i < colors.len()
        invariant
            i <= colors@.len(),
            out@ == colors@.take(i as int),
        decreases colors@.len() - i,
    {
        out.push(colors[i]);
        i = i + 1;
        assert(out@ =~= colors@.take(i as int));
    }
    assert(colors@.take(colors@.len() as int) =~= colors@);
    out
}

/// Set channel `ch` of the color being edited and show it in the hex field.
fn set_editing_channel(app: &mut App, ch: u8, value: u8)
    requires
        panel_wf(old(app)@),
        ch < 3,
    ensures
        panel_wf(final(app)@),
        final(app)@ == set_channel(old(app)@, ch as int, value),
{
    if let Some(idx) = app.editing_color {
        if idx < app.colors.len() {
            let (r, g, b) = app.colors[idx];
            let c = if ch == 0 {
                (value, g, b)
            } else if ch == 1 {
                (r, value, b)
            } else {
                (r, g, value)
            };
            app.colors.set(idx, c);
            app.hex_input = hex_string(c);
            proof {
                assert(app@.colors =~= with_channel(old(app)@.colors, idx as int, ch as int, value));
                crate::hex::lemma_hex_text_upper(c);
            }
        }
    }
}

/// Apply a message to the panel; returns what the application has to do next.
pub fn update(app: &mut App, message: Message) -> (effect: Effect)
    requires
        panel_wf(old(app)@),
    ensures
        panel_wf(final(app)@),
        final(app)@ == panel_step(old(app)@, message),
        effect == panel_effect(message),
{
    match message {
        Message::SetZone(z) => {
            app.zone = z;
        },
        Message::SetMode(m) => {
            app.mode = m;
        },
        Message::SetBrightness(b) => {
            app.brightness = b;
        },
        Message::SetSpeed(s) => {
            app.speed = s;
        },
        Message::AddColor => {
            if app.colors.len() < MAX_COLORS {
                let c = ADD_COLOR_CYCLE[(app.colors.len() - 1) % 10];
                app.colors.push(c);
            }
        },
        Message::RemoveColor(i) => {
            if app.colors.len() > 1 && i < app.colors.len() {
                app.colors.remove(i);
                if let Some(idx) = app.editing_color {
                    if idx == i {
                        app.editing_color = None;
                    } else if idx > i {
                        app.editing_color = Some(idx - 1);
                    }
                }
            }
        },
        Message::SetColor(i, c) => {
            if i < app.colors.len() {
                app.colors.set(i, c);
            }
        },
        Message::ToggleColorEditor(i) => {
            let same = match app.editing_color {
                Some(idx) => idx == i,
                None => false,
            };
            if same {
                app.editing_color = None;
            } else if i < app.colors.len() {
                app.editing_color = Some(i);
                let c = app.colors[i];
                app.hex_input = hex_string(c);
                proof {
                    crate::hex::lemma_hex_text_upper(c);
                }
            }
        },
        Message::HexInputChanged(s) => {
            let cleaned = clean_hex_input(s.as_str());
            app.hex_input = cleaned;
            proof {
                lemma_cleaned_hex_upper(s@);
            }
            if app.hex_input.as_str().unicode_len() == 6 {
                let h = app.hex_input.as_str();
                let r = hex_pair_value(h.get_char(0), h.get_char(1));
                let g = hex_pair_value(h.get_char(2), h.get_char(3));
                let b = hex_pair_value(h.get_char(4), h.get_char(5));
                if let (Some(r), Some(g), Some(b)) = (r, g, b) {
                    if let Some(idx) = app.editing_color {
                        if idx < app.colors.len() {
                            app.colors.set(idx, (r, g, b));
                        }
                    }
                }
            }
        },
        Message::SetColorR(v) => {
            set_editing_channel(app, 0, v);
        },
        Message::SetColorG(v) => {
            set_editing_channel(app, 1, v);
        },
        Message::SetColorB(v) => {
            set_editing_channel(app, 2, v);
        },
        Message::Apply => {
            app.editing_color = None;
            let colors = copy_colors(&app.colors);
            app.engine = Some(Handle::start(app.mode, colors, app.brightness, app.speed, app.zone));
            app.status = Status::Idle;
            return Effect::StopRgbService;
        },
        Message::Reset => {
            app.zone = Zone::Both;
            app.mode = Mode::Solid;
            app.brightness = 80;
            app.speed = 81;
            app.colors = vec![(255, 0, 0)];
            app.editing_color = None;
            app.hex_input = String::new();
            app.engine = None;
            app.status = Status::Idle;
            app.upper_preview_color = DEFAULT_PREVIEW;
            app.lower_preview_color = DEFAULT_PREVIEW;
            assert(app@.colors =~= seq![(255u8, 0u8, 0u8)]);
        },
        Message::EngineEvent(e) => match e {
            Event::Connected => {
                app.status = Status::Connected;
            },
            Event::Error(msg) => {
                app.status = Status::Error(msg);
            },
            Event::FrameSent { upper, lower } => {
                app.upper_preview_color = upper;
                app.lower_preview_color = lower;
            },
        },
    }
    Effect::Nothing
}

proof fn lemma_hex_digits_upper(s: Seq<char>)
    ensures
        forall|k: int|
            0 <= k < hex_digits_of(s).len() ==> is_upper_hex(#[trigger] hex_digits_of(s)[k]),
    decreases s.len(),
{
    if s.len() > 0 {
        lemma_hex_digits_upper(s.drop_last());
        let c = s.last();
        let rest = hex_digits_of(s.drop_last());
        let all = hex_digits_of(s);
        if let Some(d) = hex_digit(c) {
            assert(d < 16);
            assert(is_upper_hex(upper_hex_char(d as int)));
            assert(all == rest.push(upper_hex_char(d as int)));
            assert forall|k: int| 0 <= k < all.len() implies is_upper_hex(#[trigger] all[k]) by {
                if k < rest.len() {
                    assert(all[k] == rest[k]);
                }
            }
        } else {
            assert(all == rest);
        }
    }
}

/// What the hex field keeps is at most six upper-case hex digits.
pub proof fn lemma_cleaned_hex_upper(s: Seq<char>)
    ensures
        cleaned_hex(s).len() <= 6,
        forall|k: int| 0 <= k < cleaned_hex(s).len() ==> is_upper_hex(#[trigger] cleaned_hex(s)[k]),
{
    lemma_hex_digits_upper(s);
}

/// "Reset" returns the panel to its start-up state, whatever it was.
pub proof fn lemma_reset_restores_boot(v: AppView)
    ensures
        panel_step(v, Message::Reset) == initial_panel(),
        panel_wf(initial_panel()),
{
}

/// "Apply" runs an engine with exactly the panel's settings and closes the
/// color editor.
pub proof fn lemma_apply_uses_panel_settings(v: AppView)
    ensures
        panel_step(v, Message::Apply).engine == Some(
            EngineSettings {
                mode: v.mode,
                colors: v.colors,
                brightness: v.brightness,
                speed: v.speed,
                zone: v.zone,
            },
        ),
        panel_step(v, Message::Apply).editing_color is None,
        panel_effect(Message::Apply) == Effect::StopRgbService,
{
}

/// Removing a color other than the one being edited keeps the editor on the
/// same color.
pub proof fn lemma_remove_keeps_edited_color(v: AppView, i: usize)
    requires
        panel_wf(v),
        v.colors.len() > 1,
        i < v.colors.len(),
        v.editing_color matches Some(idx) && idx != i,
    ensures
        panel_step(v, Message::RemoveColor(i)).editing_color matches Some(j) && panel_step(
            v,
            Message::RemoveColor(i),
        ).colors[j as int] == v.colors[v.editing_color->0 as int],
{
    let idx = v.editing_color->0;
    let w = panel_step(v, Message::RemoveColor(i));
    assert(w.colors == v.colors.remove(i as int));
    if idx > i {
        assert(w.colors[idx - 1] == v.colors[idx as int]);
    } else {
        assert(w.colors[idx as int] == v.colors[idx as int]);
    }
}

/// Choosing the same color chip twice closes the editor again.
pub proof fn lemma_toggle_twice_closes(v: AppView, i: usize)
    requires
        panel_wf(v),
        i < v.colors.len(),
        v.editing_color != Some(i),
    ensures
        panel_step(v, Message::ToggleColorEditor(i)).editing_color == Some(i),
        panel_step(
            panel_step(v, Message::ToggleColorEditor(i)),
            Message::ToggleColorEditor(i),
        ).editing_color is None,
{
}

/// The R, G and B sliders change one channel of the color being edited:
/// red, green and blue respectively, the other two channels and every other
/// color stay, and the hex field shows the new color. Without an open editor
/// they change nothing.
pub proof fn lemma_color_sliders(v: AppView, x: u8)
    ensures
        v.editing_color is None ==> panel_step(v, Message::SetColorR(x)) == v
            && panel_step(v, Message::SetColorG(x)) == v && panel_step(v, Message::SetColorB(x)) == v,
        v.editing_color is Some && v.editing_color->0 < v.colors.len() ==> {
            let idx = v.editing_color->0;
            let c = v.colors[idx as int];
            let r = panel_step(v, Message::SetColorR(x));
            let g = panel_step(v, Message::SetColorG(x));
            let b = panel_step(v, Message::SetColorB(x));
            &&& r.colors == v.colors.update(idx as int, (x, c.1, c.2))
            &&& g.colors == v.colors.update(idx as int, (c.0, x, c.2))
            &&& b.colors == v.colors.update(idx as int, (c.0, c.1, x))
            &&& r.hex_input == hex_text((x, c.1, c.2))
            &&& g.hex_input == hex_text((c.0, x, c.2))
            &&& b.hex_input == hex_text((c.0, c.1, x))
            &&& (AppView { colors: v.colors, hex_input: v.hex_input, ..r }) == v
            &&& (AppView { colors: v.colors, hex_input: v.hex_input, ..g }) == v
            &&& (AppView { colors: v.colors, hex_input: v.hex_input, ..b }) == v
        },
{
}

/// The zone, mode, brightness and speed controls each set their own
/// setting to the value chosen and change nothing else; setting color `i`
/// (when it exists) replaces that color alone; opening the editor on a
/// color shows its hex text and changes no color.
pub proof fn lemma_panel_settings(v: AppView, z: Zone, md: Mode, bright: u8, sp: u8, i: usize, c: Color)
    ensures
        panel_step(v, Message::SetZone(z)).zone == z,
        (AppView { zone: v.zone, ..panel_step(v, Message::SetZone(z)) }) == v,
        panel_step(v, Message::SetMode(md)).mode == md,
        (AppView { mode: v.mode, ..panel_step(v, Message::SetMode(md)) }) == v,
        panel_step(v, Message::SetBrightness(bright)).brightness == bright,
        (AppView { brightness: v.brightness, ..panel_step(v, Message::SetBrightness(bright)) }) == v,
        panel_step(v, Message::SetSpeed(sp)).speed == sp,
        (AppView { speed: v.speed, ..panel_step(v, Message::SetSpeed(sp)) }) == v,
        i < v.colors.len() ==> panel_step(v, Message::SetColor(i, c)).colors == v.colors.update(
            i as int,
            c,
        ),
        i < v.colors.len() ==> (AppView {
            colors: v.colors,
            ..panel_step(v, Message::SetColor(i, c))
        }) == v,
        i >= v.colors.len() ==> panel_step(v, Message::SetColor(i, c)) == v,
        i < v.colors.len() && v.editing_color != Some(i) ==> {
            let w = panel_step(v, Message::ToggleColorEditor(i));
            &&& w.editing_color == Some(i)
            &&& w.hex_input == hex_text(v.colors[i as int])
            &&& w.colors == v.colors
        },
{
}

/// "Add color" appends one color while fewer than eleven are set, keeping
/// the others: green after the first color, then blue, yellow, cyan,
/// magenta, orange, lime, pink, sky blue and violet, and round again; at
/// eleven colors it does nothing.
pub proof fn lemma_add_color(v: AppView)
    requires
        v.colors.len() >= 1,
    ensures
        v.colors.len() < 11 ==> {
            let w = panel_step(v, Message::AddColor);
            &&& w.colors.len() == v.colors.len() + 1
            &&& w.colors.subrange(0, v.colors.len() as int) == v.colors
            &&& (AppView { colors: v.colors, ..w }) == v
        },
        v.colors.len() >= 11 ==> panel_step(v, Message::AddColor) == v,
        v.colors.len() == 1 ==> panel_step(v, Message::AddColor).colors[1] == (0u8, 255u8, 0u8),
        v.colors.len() == 2 ==> panel_step(v, Message::AddColor).colors[2] == (0u8, 0u8, 255u8),
        v.colors.len() == 3 ==> panel_step(v, Message::AddColor).colors[3] == (255u8, 255u8, 0u8),
        v.colors.len() == 4 ==> panel_step(v, Message::AddColor).colors[4] == (0u8, 255u8, 255u8),
        v.colors.len() == 5 ==> panel_step(v, Message::AddColor).colors[5] == (255u8, 0u8, 255u8),
        v.colors.len() == 6 ==> panel_step(v, Message::AddColor).colors[6] == (255u8, 136u8, 0u8),
        v.colors.len() == 7 ==> panel_step(v, Message::AddColor).colors[7] == (136u8, 255u8, 0u8),
        v.colors.len() == 8 ==> panel_step(v, Message::AddColor).colors[8] == (255u8, 0u8, 136u8),
        v.colors.len() == 9 ==> panel_step(v, Message::AddColor).colors[9] == (0u8, 136u8, 255u8),
        v.colors.len() == 10 ==> panel_step(v, Message::AddColor).colors[10] == (136u8, 0u8, 255u8),
{
    if v.colors.len() < 11 {
        let w = panel_step(v, Message::AddColor);
        assert(w.colors.subrange(0, v.colors.len() as int) =~= v.colors);
    }
}

/// Removing color `i` (of at least two) drops exactly that color, the
/// others keep their order; with a single color, or an index past the end,
/// nothing changes.
pub proof fn lemma_remove_color(v: AppView, i: usize)
    ensures
        v.colors.len() > 1 && i < v.colors.len() ==> {
            let w = panel_step(v, Message::RemoveColor(i));
            &&& w.colors.len() == v.colors.len() - 1
            &&& forall|j: int| 0 <= j < i ==> #[trigger] w.colors[j] == v.colors[j]
            &&& forall|j: int| i <= j < w.colors.len() ==> #[trigger] w.colors[j] == v.colors[j + 1]
            &&& w.mode == v.mode && w.zone == v.zone && w.brightness == v.brightness && w.speed
                == v.speed
        },
        !(v.colors.len() > 1 && i < v.colors.len()) ==> panel_step(v, Message::RemoveColor(i)) == v,
{
}

/// Engine reports: "connected" and an error set the status (the error with
/// its message), and a sent frame sets the two preview colors; nothing else
/// changes.
pub proof fn lemma_engine_events(v: AppView, msg: String, upper: Color, lower: Color)
    ensures
        panel_step(v, Message::EngineEvent(Event::Connected)) == (AppView {
            status: StatusView::Connected,
            ..v
        }),
        panel_step(v, Message::EngineEvent(Event::Error(msg))) == (AppView {
            status: StatusView::Error(msg@),
            ..v
        }),
        panel_step(v, Message::EngineEvent(Event::FrameSent { upper, lower })).upper_preview_color
            == upper,
        panel_step(v, Message::EngineEvent(Event::FrameSent { upper, lower })).lower_preview_color
            == lower,
        (AppView {
            upper_preview_color: v.upper_preview_color,
            lower_preview_color: v.lower_preview_color,
            ..panel_step(v, Message::EngineEvent(Event::FrameSent { upper, lower }))
        }) == v,
{
}

proof fn lemma_hex_digits_of_upper(s: Seq<char>)
    requires
        forall|k: int| 0 <= k < s.len() ==> is_upper_hex(#[trigger] s[k]),
    ensures
        hex_digits_of(s) == s,
    decreases s.len(),
{
    if s.len() > 0 {
        let c = s.last();
        assert(is_upper_hex(s[s.len() - 1]));
        lemma_hex_digits_of_upper(s.drop_last());
        assert(s.drop_last().push(c) =~= s);
    }
}

/// Typing the hex text of a color into the field of the color being
/// edited sets that color to it and shows the text.
pub proof fn lemma_hex_input_sets_color(v: AppView, s: String, c: Color)
    requires
        v.editing_color is Some,
        v.editing_color->0 < v.colors.len(),
        s@ == hex_text(c),
    ensures
        panel_step(v, Message::HexInputChanged(s)).colors == v.colors.update(
            v.editing_color->0 as int,
            c,
        ),
        panel_step(v, Message::HexInputChanged(s)).hex_input == hex_text(c),
{
    lemma_hex_roundtrip(c);
    lemma_hex_text_upper(c);
    lemma_hex_digits_of_upper(hex_text(c));
}

} // verus!
