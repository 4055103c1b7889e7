//! The animation engine's configuration and the events it reports.
//!
//! Opening the device and sending frames is done by the application; the
//! library describes what the engine runs and what it reports back.

use vstd::prelude::*;
use crate::animations::{Mode, Zone};
use crate::protocol::{Color, Frame};

verus! {

/// What the engine reports to the control panel.
#[derive(Debug)]
pub enum Event {
    Connected,
    Error(String),
    FrameSent { upper: Color, lower: Color },
}

impl Clone for Event {
    fn clone(&self) -> (e: Self)
        ensures
            e == *self,
    {
        match self {
            Event::Connected => Event::Connected,
            Event::Error(msg) => Event::Error(msg.clone()),
            Event::FrameSent { upper, lower } => Event::FrameSent { upper: *upper, lower: *lower },
        }
    }
}

/// The settings an engine runs with; a change of any of them restarts it.
#[derive(Clone)]
pub struct EngineConfig {
    pub mode: Mode,
    pub brightness: u8,
    pub speed: u8,
    pub zone: Zone,
    pub colors: Vec<Color>,
}

/// The value of an [`EngineConfig`].
pub struct EngineSettings {
    pub mode: Mode,
    pub colors: Seq<Color>,
    pub brightness: u8,
    pub speed: u8,
    pub zone: Zone,
}

impl View for EngineConfig {
    type V = EngineSettings;

    open spec fn view(&self) -> EngineSettings {
        EngineSettings {
            mode: self.mode,
            colors: self.colors@,
            brightness: self.brightness,
            speed: self.speed,
            zone: self.zone,
        }
    }
}

/// A running engine, identified by its configuration.
pub struct Handle {
    pub config: EngineConfig,
}

impl Handle {
    /// The handle of an engine running these settings. The system service
    /// that also drives the LEDs has to be stopped by the caller first.
    pub fn start(mode: Mode, colors: Vec<Color>, brightness: u8, speed: u8, zone: Zone) -> (h: Self)
        ensures
            h.config@ == (EngineSettings { mode, colors: colors@, brightness, speed, zone }),
    {
        Handle { config: EngineConfig { mode, colors, brightness, speed, zone } }
    }
}

/// The color a ring is previewed with: its first LED, black when it has none.
pub open spec fn ring_preview(ring: Seq<Color>) -> Color {
    if ring.len() == 0 {
        (0u8, 0u8, 0u8)
    } else {
        ring[0]
    }
}

/// The colors reported for a sent frame: the first LED of the upper and of
/// the lower ring.
pub fn preview_colors(frame: &Frame) -> (p: (Color, Color))
    ensures
        p == (ring_preview(frame.upper@), ring_preview(frame.lower@)),
{
    let upper = if frame.upper.len() == 0 {
        (0, 0, 0)
    } else {
        frame.upper[0]
    };
    let lower = if frame.lower.len() == 0 {
        (0, 0, 0)
    } else {
        frame.lower[0]
    };
    (upper, lower)
}

/// What the engine does once it has tried to send a frame: report an event
/// and go on with the next frame, or report an event and stop.
#[derive(Debug)]
pub enum FrameOutcome {
    Continue(Event),
    Stop(Event),
}

/// The engine's decision after sending `frame`: when the send succeeded it
/// reports the frame's preview colors and goes on; when it failed it reports
/// the error and stops.
pub fn after_send(frame: &Frame, sent: Result<(), String>) -> (o: FrameOutcome)
    ensures
        match sent {
            Ok(_) => o == FrameOutcome::Continue(
                Event::FrameSent {
                    upper: ring_preview(frame.upper@),
                    lower: ring_preview(frame.lower@),
                },
            ),
            Err(e) => o == FrameOutcome::Stop(Event::Error(e)),
        },
{
    match sent {
        Ok(_) => {
            let (upper, lower) = preview_colors(frame);
            FrameOutcome::Continue(Event::FrameSent { upper, lower })
        },
        Err(e) => FrameOutcome::Stop(Event::Error(e)),
    }
}

/// A ring is previewed with its first LED, and an empty ring with black.
pub proof fn lemma_ring_preview(ring: Seq<Color>)
    ensures
        ring.len() > 0 ==> ring_preview(ring) == ring[0],
        ring.len() == 0 ==> ring_preview(ring) == (0u8, 0u8, 0u8),
{
}

} // verus!
