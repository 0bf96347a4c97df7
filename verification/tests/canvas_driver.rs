use crossterm::style::Color;
use donut::canvas::{Action, Canvas, Event, Phase};
use donut::donut::{ConfigError, Donut, Sample};
use donut::scalar::Scalar;

fn s(x: f64) -> Scalar {
    Scalar::from_bits(x.to_bits())
}

fn torus(rows: i64, cols: i64) -> Donut {
    Donut::new(s(40.0), s(5.0), s(200.0), [s(0.01); 3], [s(0.0); 3], 10, [rows, cols]).unwrap()
}

fn ramp() -> Vec<char> {
    vec![' ', '.', ',', '-', '~', ':', ';', '!', '=', '*', '#', '$', '@']
}

fn canvas(rows: i64, cols: i64, frame_rate: u64) -> Canvas {
    Canvas::new(torus(rows, cols), frame_rate, ramp(), Color::Blue).ok().unwrap()
}

#[test]
fn an_empty_ramp_is_a_configuration_error() {
    let r = Canvas::new(torus(3, 4), 20, Vec::new(), Color::Blue);
    assert_eq!(r.err(), Some(ConfigError::GlyphRamp));
    let r = Canvas::new(torus(3, 4), 0, Vec::new(), Color::Blue);
    assert_eq!(r.err(), Some(ConfigError::GlyphRamp));
}

#[test]
fn a_frame_rate_of_zero_is_a_configuration_error() {
    let r = Canvas::new(torus(3, 4), 0, ramp(), Color::Blue);
    assert_eq!(r.err(), Some(ConfigError::FrameRate));
}

#[test]
fn a_new_canvas_shows_the_background_and_runs() {
    let c = canvas(3, 4, 20);
    assert_eq!(c.shown(), &vec![vec![' '; 4]; 3]);
    assert_eq!(c.phase(), Phase::Running);
    assert_eq!(c.color(), Color::Blue);
    assert_eq!(c.model().rows(), 3);
    assert_eq!(c.model().cols(), 4);
    let dotted = Canvas::new(torus(2, 2), 20, vec!['.', '#'], Color::Red).ok().unwrap();
    assert_eq!(dotted.shown(), &vec![vec!['.'; 2]; 2]);
    assert_eq!(dotted.color(), Color::Red);
}

#[test]
fn brightness2char_uses_the_ramp_of_the_canvas() {
    let c = canvas(2, 3, 20);
    let glyphs = c.brightness2char(&vec![vec![0, 3, 6], vec![9, 10, 0]]);
    assert_eq!(glyphs, vec![vec![' ', '-', '!'], vec!['#', '@', ' ']]);
}

#[test]
fn next_frame_paints_against_what_is_shown() {
    let mut c = canvas(2, 3, 20);
    let first = c.next_frame(&vec![vec![0, 3, 0], vec![0, 0, 0]]);
    assert_eq!(first, "\x1b[H\x1b[1C-\n\n");
    assert_eq!(c.shown(), &vec![vec![' ', '-', ' '], vec![' ', ' ', ' ']]);
    // the glyph moves one cell to the right: the old one is erased, the new one written
    let second = c.next_frame(&vec![vec![0, 0, 3], vec![0, 0, 0]]);
    assert_eq!(second, "\x1b[H\x1b[1C -\n\n");
    assert_eq!(c.shown(), &vec![vec![' ', ' ', '-'], vec![' ', ' ', ' ']]);
    // the same frame again
    let third = c.next_frame(&vec![vec![0, 0, 3], vec![0, 0, 0]]);
    assert_eq!(third, "\x1b[H\x1b[2C-\n\n");
}

#[test]
fn next_frame_renders_what_the_torus_gives() {
    let mut c = canvas(2, 2, 20);
    let samples = vec![
        Sample { x: s(1.5), y: s(0.5), z: s(1.0) },
        Sample { x: s(1.5), y: s(0.5), z: s(2.0) },
    ];
    let field = c.model().render(&samples);
    assert_eq!(field, vec![vec![0, 0], vec![6, 0]]);
    assert_eq!(c.next_frame(&field), "\x1b[H\n!\n");
}

#[test]
fn a_tick_renders_then_sleeps_for_the_period() {
    let mut c = canvas(2, 2, 20);
    assert_eq!(c.display(Event::TickStart), Action::Render);
    assert_eq!(c.display(Event::Painted), Action::Sleep(50));
    assert_eq!(c.phase(), Phase::Running);
    let mut slow = canvas(2, 2, 3);
    assert_eq!(slow.display(Event::Painted), Action::Sleep(333));
    let mut fast = canvas(2, 2, 2000);
    assert_eq!(fast.display(Event::Painted), Action::Sleep(0));
}

#[test]
fn a_cancel_takes_effect_at_the_start_of_the_next_tick() {
    let mut c = canvas(2, 2, 20);
    assert_eq!(c.display(Event::Cancel), Action::Nothing);
    assert_eq!(c.phase(), Phase::CancelRequested);
    assert_eq!(c.display(Event::Cancel), Action::Nothing);
    assert_eq!(c.phase(), Phase::CancelRequested);
    assert_eq!(c.display(Event::TickStart), Action::Release);
    assert_eq!(c.phase(), Phase::Stopped);
}

#[test]
fn a_cancel_during_a_frame_takes_effect_after_it_is_painted() {
    let mut c = canvas(2, 2, 20);
    assert_eq!(c.display(Event::TickStart), Action::Render);
    assert_eq!(c.display(Event::Cancel), Action::Nothing);
    assert_eq!(c.display(Event::Painted), Action::Release);
    assert_eq!(c.phase(), Phase::Stopped);
}

#[test]
fn a_failed_write_stops_at_once() {
    let mut c = canvas(2, 2, 20);
    assert_eq!(c.display(Event::TickStart), Action::Render);
    assert_eq!(c.display(Event::WriteFailed), Action::Release);
    assert_eq!(c.phase(), Phase::Stopped);
}

#[test]
fn once_stopped_nothing_follows() {
    let mut c = canvas(2, 2, 20);
    c.display(Event::Cancel);
    assert_eq!(c.display(Event::Painted), Action::Release);
    for event in [Event::Cancel, Event::TickStart, Event::Painted, Event::WriteFailed] {
        assert_eq!(c.display(event), Action::Nothing);
        assert_eq!(c.phase(), Phase::Stopped);
    }
}

#[test]
fn a_frame_limit_stops_the_driver_by_itself() {
    let mut c = canvas(2, 2, 20).with_frame_limit(2);
    assert_eq!(c.display(Event::TickStart), Action::Render);
    assert_eq!(c.display(Event::Painted), Action::Sleep(50));
    assert_eq!(c.display(Event::TickStart), Action::Render);
    assert_eq!(c.display(Event::Painted), Action::Release);
    assert_eq!(c.phase(), Phase::Stopped);
    let mut none = canvas(2, 2, 20).with_frame_limit(0);
    assert_eq!(none.display(Event::TickStart), Action::Release);
    assert_eq!(none.phase(), Phase::Stopped);
}

#[test]
fn advance_stores_the_new_angles() {
    let mut c = canvas(2, 2, 20);
    c.advance([s(0.5), s(1.5), s(40.0)]);
    assert_eq!(c.model().params().rotation_angle, [s(0.5), s(1.5), s(40.0)]);
    assert_eq!(c.model().params().rotation_speed, [s(0.01); 3]);
    assert_eq!(c.shown(), &vec![vec![' '; 2]; 2]);
}

#[test]
fn redraw_writes_the_whole_frame_and_remembers_it() {
    let mut c = canvas(2, 3, 20);
    let text = c.redraw(&vec![vec![0, 3, 0], vec![10, 0, 0]]);
    assert_eq!(text, "\x1b[H - \n@  \n");
    assert_eq!(c.shown(), &vec![vec![' ', '-', ' '], vec!['@', ' ', ' ']]);
    let next = c.next_frame(&vec![vec![0, 0, 0], vec![10, 0, 0]]);
    assert_eq!(next, "\x1b[H\x1b[1C \n@\n");
}

#[test]
fn drop_asks_for_the_release_unless_it_was_asked_for_before() {
    let mut running = canvas(2, 2, 20);
    assert_eq!(running.drop(), Action::Release);
    assert_eq!(running.phase(), Phase::Stopped);
    assert_eq!(running.drop(), Action::Nothing);
    assert_eq!(running.display(Event::TickStart), Action::Nothing);

    let mut cancelled = canvas(2, 2, 20);
    cancelled.display(Event::Cancel);
    assert_eq!(cancelled.drop(), Action::Release);

    let mut stopped = canvas(2, 2, 20);
    assert_eq!(stopped.display(Event::WriteFailed), Action::Release);
    assert_eq!(stopped.drop(), Action::Nothing);
    assert_eq!(stopped.phase(), Phase::Stopped);
}
