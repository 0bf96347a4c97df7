//! The renderer's state and the frame driver.
//!
//! The canvas remembers the frame that the terminal shows, so that painting
//! the next one writes only what differs. It also decides, one event at a
//! time, what the loop around it does next: render, sleep, or release the
//! terminal and stop.

use vstd::prelude::*;
use crate::donut::{ConfigError, Donut, TorusParameters};
use crate::glyph::{glyphs, to_glyphs, within_ceiling};
use crate::grid::{filled, grid, is_grid, uniform};
use crate::paint::{encode, frame_ops, full_ops, full_text, paint_text};
use crate::scalar::Scalar;

verus! {

/// `crossterm::style::Color`, the colour type of the `crossterm` crate. A
/// colour is carried from the caller to whoever sets the terminal's
/// foreground; nothing is claimed of what it holds.
#[verifier::external_type_specification]
#[verifier::external_body]
pub struct ExColor(crossterm::style::Color);

/// Where the frame driver stands.
#[derive(Clone, Copy, Debug, PartialEq, Eq, Structural)]
pub enum Phase {
    /// Frames are being painted.
    Running,
    /// A stop was asked for; the frame in progress is finished first.
    CancelRequested,
    /// The terminal has been released. Nothing follows.
    Stopped,
}

/// What the loop around the driver reports to it.
#[derive(Clone, Copy, Debug, PartialEq, Eq, Structural)]
pub enum Event {
    /// The cancellation flag was found set.
    Cancel,
    /// A tick begins.
    TickStart,
    /// The frame of this tick was painted and the rotation advanced.
    Painted,
    /// Writing the frame failed.
    WriteFailed,
}

/// What the loop around the driver is to do next.
#[derive(Clone, Copy, Debug, PartialEq, Eq, Structural)]
pub enum Action {
    /// Nothing.
    Nothing,
    /// Render and paint one frame, then advance the rotation.
    Render,
    /// Sleep for so many milliseconds, then begin the next tick.
    Sleep(u64),
    /// Release the terminal and leave the loop.
    Release,
}

/// The driver's own state: its phase, and how many frames are still to be
/// painted where the number of frames is limited.
pub struct Drive {
    pub phase: Phase,
    pub frames_left: Option<u64>,
}

/// The length of a tick in milliseconds.
pub open spec fn period(frame_rate: u64) -> u64 {
    (1000int / frame_rate as int) as u64
}

/// The frames left after one more was painted.
pub open spec fn after_frame(frames_left: Option<u64>) -> Option<u64> {
    match frames_left {
        Some(n) => if n > 0 {
            Some((n - 1) as u64)
        } else {
            Some(0)
        },
        None => None,
    }
}

/// The driver's next state and the next action, from its state and an
/// event.
///
/// Once stopped, the driver stays stopped and asks for nothing. A cancel
/// alone changes nothing that is in progress: it is remembered and acted on
/// at the next checkpoint, which is the start of a tick or the moment after
/// a frame was painted. A failed write stops the driver at once. Whenever
/// the driver stops, it asks, that once, for the terminal to be released.
pub open spec fn transition(d: Drive, event: Event, frame_rate: u64) -> (Drive, Action) {
    match d.phase {
        Phase::Stopped => (d, Action::Nothing),
        Phase::CancelRequested => match event {
            Event::Cancel => (d, Action::Nothing),
            Event::Painted => (
                Drive { phase: Phase::Stopped, frames_left: after_frame(d.frames_left) },
                Action::Release,
            ),
            _ => (Drive { phase: Phase::Stopped, frames_left: d.frames_left }, Action::Release),
        },
        Phase::Running => match event {
            Event::Cancel => (
                Drive { phase: Phase::CancelRequested, frames_left: d.frames_left },
                Action::Nothing,
            ),
            Event::TickStart => if d.frames_left == Some(0u64) {
                (Drive { phase: Phase::Stopped, frames_left: d.frames_left }, Action::Release)
            } else {
                (d, Action::Render)
            },
            Event::Painted => if after_frame(d.frames_left) == Some(0u64) {
                (
                    Drive { phase: Phase::Stopped, frames_left: after_frame(d.frames_left) },
                    Action::Release,
                )
            } else {
                (
                    Drive { phase: Phase::Running, frames_left: after_frame(d.frames_left) },
                    Action::Sleep(period(frame_rate)),
                )
            },
            Event::WriteFailed => (
                Drive { phase: Phase::Stopped, frames_left: d.frames_left },
                Action::Release,
            ),
        },
    }
}

/// The driver's state after a sequence of events.
pub open spec fn drive(d: Drive, events: Seq<Event>, frame_rate: u64) -> Drive
    decreases events.len(),
{
    if events.len() == 0 {
        d
    } else {
        transition(drive(d, events.drop_last(), frame_rate), events.last(), frame_rate).0
    }
}

/// How often the driver asks for the terminal to be released during a
/// sequence of events.
pub open spec fn releases(d: Drive, events: Seq<Event>, frame_rate: u64) -> nat
    decreases events.len(),
{
    if events.len() == 0 {
        0
    } else {
        releases(d, events.drop_last(), frame_rate) + if transition(
            drive(d, events.drop_last(), frame_rate),
            events.last(),
            frame_rate,
        ).1 == Action::Release {
            1nat
        } else {
            0nat
        }
    }
}

/// A stop that was asked for is never taken back: whatever the event, a
/// driver that is not running is not running afterwards, and a stopped
/// driver stays stopped and asks for nothing.
pub proof fn lemma_stop_is_final(d: Drive, event: Event, frame_rate: u64)
    ensures
        d.phase != Phase::Running ==> transition(d, event, frame_rate).0.phase != Phase::Running,
        d.phase == Phase::Stopped ==> transition(d, event, frame_rate) == (d, Action::Nothing),
{
}

/// A stop that was asked for takes effect at the next checkpoint and not
/// before: a further cancel changes nothing, and each other event stops the
/// driver.
pub proof fn lemma_cancel_waits_for_checkpoint(d: Drive, event: Event, frame_rate: u64)
    requires
        d.phase == Phase::CancelRequested,
    ensures
        event == Event::Cancel ==> transition(d, event, frame_rate) == (d, Action::Nothing),
        event != Event::Cancel ==> transition(d, event, frame_rate).0.phase == Phase::Stopped,
{
}

/// The terminal is released exactly once, on the event that stops the
/// driver: over any sequence of events, a driver that was not stopped at
/// the start has asked for the release once if it is stopped at the end,
/// and not at all if it is not.
pub proof fn lemma_released_once(d: Drive, events: Seq<Event>, frame_rate: u64)
    requires
        d.phase != Phase::Stopped,
    ensures
        releases(d, events, frame_rate) == (if drive(d, events, frame_rate).phase
            == Phase::Stopped {
            1nat
        } else {
            0nat
        }),
    decreases events.len(),
{
    if events.len() > 0 {
        lemma_released_once(d, events.drop_last(), frame_rate);
    }
}

/// What a canvas holds.
pub ghost struct CanvasView {
    /// The torus that is drawn.
    pub model: TorusParameters,
    /// Frames per second.
    pub frame_rate: u64,
    /// The glyphs from background to brightest.
    pub ramp: Seq<char>,
    /// The foreground colour.
    pub color: crossterm::style::Color,
    /// The frame that the terminal shows.
    pub shown: Seq<Seq<char>>,
    /// The state of the frame driver.
    pub drive: Drive,
}

/// The renderer: the torus, the glyph ramp, the frame last painted, and the
/// state of the frame driver.
pub struct Canvas {
    model: Donut,
    frame_rate: u64,
    fill: Vec<char>,
    color: crossterm::style::Color,
    last_screen: Vec<Vec<char>>,
    phase: Phase,
    frames_left: Option<u64>,
}

impl View for Canvas {
    type V = CanvasView;

    closed spec fn view(&self) -> CanvasView {
        CanvasView {
            model: self.model@,
            frame_rate: self.frame_rate,
            ramp: self.fill@,
            color: self.color,
            shown: grid(&self.last_screen),
            drive: Drive { phase: self.phase, frames_left: self.frames_left },
        }
    }
}

impl Canvas {
    /// The invariant of the type: the torus is sound, the ramp is not empty,
    /// the frame rate is not zero, and the frame on the terminal has the
    /// rows and columns of the torus's screen.
    pub open spec fn wf(&self) -> bool {
        &&& self@.model.sound()
        &&& self@.ramp.len() > 0
        &&& self@.frame_rate > 0
        &&& is_grid(self@.shown, self@.model.screen_size[0] as int, self@.model.screen_size[1] as int)
    }

    /// Builds the renderer for a torus. The ramp must hold a glyph and the
    /// frame rate must not be zero. The terminal is taken to show the
    /// background, the first glyph of the ramp, in every cell.
    pub fn new(
        model: Donut,
        frame_rate: u64,
        fill: Vec<char>,
        color: crossterm::style::Color,
    ) -> (r: Result<Canvas, ConfigError>)
        requires
            model.wf(),
            model@.screen_size[0] <= usize::MAX,
            model@.screen_size[1] <= usize::MAX,
        ensures
            r is Ok <==> fill@.len() > 0 && frame_rate > 0,
            r matches Ok(c) ==> c.wf() && c@ == (CanvasView {
                model: model@,
                frame_rate,
                ramp: fill@,
                color,
                shown: uniform(
                    model@.screen_size[0] as int,
                    model@.screen_size[1] as int,
                    fill@[0],
                ),
                drive: Drive { phase: Phase::Running, frames_left: None },
            }),
            r matches Err(e) ==> e == (if fill@.len() == 0 {
                ConfigError::GlyphRamp
            } else {
                ConfigError::FrameRate
            }),
    {
        if fill.len() == 0 {
            return Err(ConfigError::GlyphRamp);
        }
        if frame_rate == 0 {
            return Err(ConfigError::FrameRate);
        }
        let rows = model.rows() as usize;
        let cols = model.cols() as usize;
        let last_screen = filled(rows, cols, fill[0]);
        Ok(
            Canvas {
                model,
                frame_rate,
                fill,
                color,
                last_screen,
                phase: Phase::Running,
                frames_left: None,
            },
        )
    }

    /// Limits the number of frames: the driver stops by itself once so many
    /// have been painted.
    pub fn with_frame_limit(self, frames: u64) -> (c: Canvas)
        requires
            self.wf(),
        ensures
            c.wf(),
            c@ == (CanvasView {
                drive: Drive { phase: self@.drive.phase, frames_left: Some(frames) },
                ..self@
            }),
    {
        Canvas {
            model: self.model,
            frame_rate: self.frame_rate,
            fill: self.fill,
            color: self.color,
            last_screen: self.last_screen,
            phase: self.phase,
            frames_left: Some(frames),
        }
    }

    /// The torus.
    pub fn model(&self) -> (m: &Donut)
        ensures
            m@ == self@.model,
    {
        &self.model
    }

    /// The foreground colour.
    pub fn color(&self) -> (c: crossterm::style::Color)
        ensures
            c == self@.color,
    {
        self.color
    }

    /// Where the frame driver stands.
    pub fn phase(&self) -> (p: Phase)
        ensures
            p == self@.drive.phase,
    {
        self.phase
    }

    /// The frame that the terminal shows.
    pub fn shown(&self) -> (frame: &Vec<Vec<char>>)
        ensures
            grid(frame) == self@.shown,
    {
        &self.last_screen
    }

    /// Maps a brightness field to glyphs along the canvas's ramp.
    pub fn brightness2char(&self, screen: &Vec<Vec<u8>>) -> (out: Vec<Vec<char>>)
        requires
            self.wf(),
            within_ceiling(grid(screen)),
        ensures
            grid(&out) == glyphs(grid(screen), self@.ramp),
    {
        to_glyphs(screen, &self.fill)
    }

    /// Paints the next frame: maps the brightness field to glyphs, returns
    /// the text that turns what the terminal shows into those glyphs, and
    /// remembers them as what the terminal shows from now on.
    pub fn next_frame(&mut self, screen: &Vec<Vec<u8>>) -> (text: String)
        requires
            old(self).wf(),
            within_ceiling(grid(screen)),
            is_grid(
                grid(screen),
                old(self)@.model.screen_size[0] as int,
                old(self)@.model.screen_size[1] as int,
            ),
        ensures
            final(self).wf(),
            text@ == encode(
                frame_ops(glyphs(grid(screen), old(self)@.ramp), old(self)@.shown, old(self)@.ramp[0]),
            ),
            final(self)@ == (CanvasView {
                shown: glyphs(grid(screen), old(self)@.ramp),
                ..old(self)@
            }),
    {
        let next = to_glyphs(screen, &self.fill);
        let text = paint_text(&next, &self.last_screen, self.fill[0]);
        self.last_screen = next;
        text
    }

    /// Paints a frame in full, whatever the terminal shows: maps the
    /// brightness field to glyphs, returns the text that writes every one of
    /// them, and remembers them as what the terminal shows from now on.
    pub fn redraw(&mut self, screen: &Vec<Vec<u8>>) -> (text: String)
        requires
            old(self).wf(),
            within_ceiling(grid(screen)),
            is_grid(
                grid(screen),
                old(self)@.model.screen_size[0] as int,
                old(self)@.model.screen_size[1] as int,
            ),
        ensures
            final(self).wf(),
            text@ == encode(full_ops(glyphs(grid(screen), old(self)@.ramp))),
            final(self)@ == (CanvasView {
                shown: glyphs(grid(screen), old(self)@.ramp),
                ..old(self)@
            }),
    {
        let next = to_glyphs(screen, &self.fill);
        let text = full_text(&next);
        self.last_screen = next;
        text
    }

    /// Takes one event and says what to do next.
    pub fn display(&mut self, event: Event) -> (action: Action)
        requires
            old(self).wf(),
        ensures
            final(self).wf(),
            (final(self)@.drive, action) == transition(old(self)@.drive, event, old(self)@.frame_rate),
            final(self)@ == (CanvasView { drive: final(self)@.drive, ..old(self)@ }),
    {
        let left = match self.frames_left {
            Some(n) => if n > 0 {
                Some(n - 1)
            } else {
                Some(0)
            },
            None => None,
        };
        match self.phase {
            Phase::Stopped => Action::Nothing,
            Phase::CancelRequested => match event {
                Event::Cancel => Action::Nothing,
                Event::Painted => {
                    self.phase = Phase::Stopped;
                    self.frames_left = left;
                    Action::Release
                },
                _ => {
                    self.phase = Phase::Stopped;
                    Action::Release
                },
            },
            Phase::Running => match event {
                Event::Cancel => {
                    self.phase = Phase::CancelRequested;
                    Action::Nothing
                },
                Event::TickStart => match self.frames_left {
                    Some(0) => {
                        self.phase = Phase::Stopped;
                        Action::Release
                    },
                    _ => Action::Render,
                },
                Event::Painted => {
                    self.frames_left = left;
                    match left {
                        Some(0) => {
                            self.phase = Phase::Stopped;
                            Action::Release
                        },
                        _ => Action::Sleep(1000 / self.frame_rate),
                    }
                },
                Event::WriteFailed => {
                    self.phase = Phase::Stopped;
                    Action::Release
                },
            },
        }
    }

    /// Ends the run wherever the driver stands, and says whether the terminal
    /// is still to be released: it is, unless the driver had stopped, and
    /// with that asked for the release, before.
    pub fn drop(&mut self) -> (action: Action)
        requires
            old(self).wf(),
        ensures
            final(self).wf(),
            action == (if old(self)@.drive.phase == Phase::Stopped {
                Action::Nothing
            } else {
                Action::Release
            }),
            final(self)@ == (CanvasView {
                drive: Drive { phase: Phase::Stopped, frames_left: old(self)@.drive.frames_left },
                ..old(self)@
            }),
    {
        match self.phase {
            Phase::Stopped => Action::Nothing,
            _ => {
                self.phase = Phase::Stopped;
                Action::Release
            },
        }
    }

    /// Stores the angles that the torus has after one more frame.
    pub fn advance(&mut self, rotation_angle: [Scalar; 3])
        requires
            old(self).wf(),
        ensures
            final(self).wf(),
            final(self)@ == (CanvasView {
                model: TorusParameters { rotation_angle, ..old(self)@.model },
                ..old(self)@
            }),
    {
        self.model.update(rotation_angle);
    }
}

} // verus!
