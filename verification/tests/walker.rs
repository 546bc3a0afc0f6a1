use photon_walk::walker::batch_total;
use photon_walk::{ColorTag, Parameter, Segment, SimError, StepOutcome, Vec3, Walker, MAX_LENGTH};

fn grey() -> ColorTag {
    ColorTag { r: 50, g: 50, b: 50, a: 200 }
}

fn along_z(count: usize, length: i64) -> Vec<Vec3> {
    vec![Vec3::new(0, 0, length); count]
}

#[test]
fn new_walker_rests_at_the_origin() {
    let w = Walker::new(1000, 2000, grey()).unwrap();
    assert_eq!(w.position(), Vec3::origin());
    assert_eq!(w.marker_position(), Vec3::origin());
    assert!(!w.is_escaped());
    assert_eq!(w.step_count(), 0);
    assert!(w.segments().is_empty());
    assert_eq!(w.step_length(), 1000);
    assert_eq!(w.escape_radius(), 2000);
    assert_eq!(w.tag(), grey());
}

#[test]
fn new_walker_checks_its_lengths() {
    assert!(matches!(
        Walker::new(-1, 2000, grey()),
        Err(SimError::InvalidParameter(Parameter::StepLength))
    ));
    assert!(matches!(
        Walker::new(1000, -1, grey()),
        Err(SimError::InvalidParameter(Parameter::EscapeRadius))
    ));
    assert!(matches!(
        Walker::new(MAX_LENGTH + 1, -1, grey()),
        Err(SimError::InvalidParameter(Parameter::StepLength))
    ));
    assert!(matches!(
        Walker::new(0, MAX_LENGTH + 1, grey()),
        Err(SimError::InvalidParameter(Parameter::EscapeRadius))
    ));
    assert!(Walker::new(MAX_LENGTH, MAX_LENGTH, grey()).is_ok());
    assert!(Walker::new(0, 0, grey()).is_ok());
}

#[test]
fn step_that_stays_inside_adds_one_segment() {
    let mut w = Walker::new(10, 100, grey()).unwrap();
    let draws = vec![Vec3::new(3, 0, 0), Vec3::new(0, 4, 0), Vec3::new(0, 0, -5)];
    let outcome = w.step(3, &draws).unwrap();
    let end = Vec3::new(3, 4, -5);
    assert_eq!(outcome, StepOutcome::Continued { start: Vec3::origin(), end });
    assert_eq!(w.position(), end);
    assert_eq!(w.marker_position(), end);
    assert_eq!(w.step_count(), 3);
    assert!(!w.is_escaped());
    assert_eq!(w.segments().as_slice(), &[Segment { start: Vec3::origin(), end }]);
}

#[test]
fn step_reads_only_its_own_micro_steps() {
    let mut w = Walker::new(10, 100, grey()).unwrap();
    let draws = vec![Vec3::new(1, 0, 0), Vec3::new(2, 0, 0), Vec3::new(4, 0, 0)];
    let outcome = w.step(2, &draws).unwrap();
    assert_eq!(
        outcome,
        StepOutcome::Continued { start: Vec3::origin(), end: Vec3::new(3, 0, 0) }
    );
    assert_eq!(w.step_count(), 2);
}

#[test]
fn step_stops_at_the_crossing() {
    let mut w = Walker::new(1000, 2000, grey()).unwrap();
    let draws = along_z(5, 1000);
    let outcome = w.step(5, &draws).unwrap();
    assert_eq!(outcome, StepOutcome::Escaped);
    assert!(w.is_escaped());
    assert_eq!(w.step_count(), 3);
    assert_eq!(w.position(), Vec3::new(0, 0, 3000));
    assert!(w.segments().is_empty());
    assert_eq!(w.marker_position(), Vec3::origin());
}

#[test]
fn standing_on_the_sphere_is_not_escaping() {
    let mut w = Walker::new(1000, 2000, grey()).unwrap();
    let draws = along_z(2, 1000);
    let outcome = w.step(2, &draws).unwrap();
    assert_eq!(
        outcome,
        StepOutcome::Continued { start: Vec3::origin(), end: Vec3::new(0, 0, 2000) }
    );
    assert!(!w.is_escaped());
    assert_eq!(w.step_count(), 2);
}

#[test]
fn step_after_escape_does_nothing() {
    let mut w = Walker::new(1000, 2000, grey()).unwrap();
    let draws = along_z(3, 1000);
    assert_eq!(w.step(1, &draws).unwrap(), StepOutcome::Continued {
        start: Vec3::origin(),
        end: Vec3::new(0, 0, 1000),
    });
    assert_eq!(w.step(2, &draws).unwrap(), StepOutcome::Escaped);
    let position = w.position();
    let marker = w.marker_position();
    let count = w.step_count();
    let segments = w.segments().clone();
    assert_eq!(w.step(2, &draws).unwrap(), StepOutcome::AlreadyEscaped);
    assert_eq!(w.step(7, &[]).unwrap(), StepOutcome::AlreadyEscaped);
    assert_eq!(w.position(), position);
    assert_eq!(w.marker_position(), marker);
    assert_eq!(w.step_count(), count);
    assert_eq!(w.segments(), &segments);
    assert!(w.is_escaped());
    assert_eq!(position, Vec3::new(0, 0, 3000));
    assert_eq!(marker, Vec3::new(0, 0, 1000));
    assert_eq!(count, 3);
}

#[test]
fn step_with_zero_micro_steps_is_refused() {
    let mut w = Walker::new(1000, 2000, grey()).unwrap();
    let draws = along_z(3, 1000);
    assert_eq!(w.step(0, &draws), Err(SimError::InvalidParameter(Parameter::MicroSteps)));
    assert_eq!(w.step_count(), 0);
    assert_eq!(w.position(), Vec3::origin());
    assert!(w.segments().is_empty());
}

#[test]
fn step_with_too_few_draws_is_refused() {
    let mut w = Walker::new(1000, 2000, grey()).unwrap();
    let draws = along_z(2, 10);
    assert_eq!(w.step(3, &draws), Err(SimError::InvalidParameter(Parameter::Draws)));
    assert_eq!(w.step_count(), 0);
    assert_eq!(w.position(), Vec3::origin());
}

#[test]
fn step_with_an_overlong_draw_is_refused() {
    let mut w = Walker::new(1000, 2000, grey()).unwrap();
    let draws = vec![Vec3::new(0, 0, 1000), Vec3::new(600, 800, 1)];
    assert_eq!(w.step(2, &draws), Err(SimError::InvalidParameter(Parameter::Draws)));
    assert_eq!(w.step_count(), 0);
    assert_eq!(w.position(), Vec3::origin());
    assert_eq!(w.step(1, &draws).unwrap(), StepOutcome::Continued {
        start: Vec3::origin(),
        end: Vec3::new(0, 0, 1000),
    });
}

#[test]
fn draw_of_exactly_the_step_length_is_accepted() {
    let w = Walker::new(1000, 2000, grey()).unwrap();
    assert!(w.accepts(1, &[Vec3::new(600, 800, 0)]));
    assert!(w.accepts(1, &[Vec3::new(0, -1000, 0)]));
    assert!(!w.accepts(1, &[Vec3::new(600, 800, 1)]));
    assert!(!w.accepts(2, &[Vec3::new(600, 800, 0)]));
    assert!(w.accepts(0, &[]));
    assert!(w.accepts(1, &[Vec3::new(1, 1, 1), Vec3::new(5000, 0, 0)]));
}

#[test]
fn escaped_walker_accepts_any_draws() {
    let mut w = Walker::new(10, 0, grey()).unwrap();
    assert_eq!(w.step(1, &[Vec3::new(1, 0, 0)]).unwrap(), StepOutcome::Escaped);
    assert!(w.accepts(1000, &[]));
    assert!(w.accepts(1, &[Vec3::new(5000, 0, 0)]));
}

#[test]
fn advance_takes_macro_steps_in_order() {
    let mut w = Walker::new(10, 100, grey()).unwrap();
    let draws = vec![
        Vec3::new(1, 0, 0),
        Vec3::new(0, 2, 0),
        Vec3::new(0, 0, 3),
        Vec3::new(4, 0, 0),
        Vec3::new(0, 5, 0),
        Vec3::new(0, 0, 6),
    ];
    assert_eq!(w.advance(3, 2, &draws), Ok(()));
    assert_eq!(w.step_count(), 6);
    assert_eq!(w.position(), Vec3::new(5, 7, 9));
    assert_eq!(w.marker_position(), Vec3::new(5, 7, 9));
    assert_eq!(
        w.segments().as_slice(),
        &[
            Segment { start: Vec3::origin(), end: Vec3::new(1, 2, 0) },
            Segment { start: Vec3::new(1, 2, 0), end: Vec3::new(5, 2, 3) },
            Segment { start: Vec3::new(5, 2, 3), end: Vec3::new(5, 7, 9) },
        ]
    );
}

#[test]
fn advance_drops_the_macro_step_that_escapes() {
    let mut w = Walker::new(1000, 4000, grey()).unwrap();
    let draws = along_z(6, 1000);
    assert_eq!(w.advance(3, 2, &draws), Ok(()));
    assert!(w.is_escaped());
    assert_eq!(w.step_count(), 5);
    assert_eq!(w.position(), Vec3::new(0, 0, 5000));
    assert_eq!(w.marker_position(), Vec3::new(0, 0, 4000));
    assert_eq!(
        w.segments().as_slice(),
        &[
            Segment { start: Vec3::origin(), end: Vec3::new(0, 0, 2000) },
            Segment { start: Vec3::new(0, 0, 2000), end: Vec3::new(0, 0, 4000) },
        ]
    );
}

#[test]
fn cutting_the_stream_differently_moves_the_walker_alike() {
    let draws = vec![
        Vec3::new(700, 0, 0),
        Vec3::new(0, 700, 0),
        Vec3::new(0, 0, 700),
        Vec3::new(700, 0, 0),
        Vec3::new(0, 700, 0),
        Vec3::new(0, 0, 700),
        Vec3::new(700, 0, 0),
        Vec3::new(0, 700, 0),
        Vec3::new(0, 0, 700),
        Vec3::new(700, 0, 0),
        Vec3::new(0, 700, 0),
        Vec3::new(0, 0, 700),
    ];
    let mut counts = Vec::new();
    let mut ends = Vec::new();
    for (macro_steps, micro) in [(12u32, 1u32), (6, 2), (4, 3), (3, 4), (2, 6), (1, 12)] {
        let mut w = Walker::new(700, 2000, grey()).unwrap();
        assert_eq!(w.advance(macro_steps, micro, &draws), Ok(()));
        assert!(w.is_escaped());
        counts.push(w.step_count());
        ends.push(w.position());
    }
    // Squared distances after each step: 49, 98, 147, 294, 441 times ten
    // thousand, against a squared radius of 400 times ten thousand.
    assert_eq!(counts, vec![5, 5, 5, 5, 5, 5]);
    assert_eq!(ends, vec![Vec3::new(1400, 1400, 700); 6]);
}

#[test]
fn advance_checks_before_it_moves() {
    let mut w = Walker::new(1000, 4000, grey()).unwrap();
    let draws = along_z(5, 1000);
    assert_eq!(w.advance(3, 2, &draws), Err(SimError::InvalidParameter(Parameter::Draws)));
    assert_eq!(w.advance(0, 2, &draws), Err(SimError::InvalidParameter(Parameter::MacroSteps)));
    assert_eq!(w.advance(2, 0, &draws), Err(SimError::InvalidParameter(Parameter::MicroSteps)));
    assert_eq!(w.advance(0, 0, &draws), Err(SimError::InvalidParameter(Parameter::MacroSteps)));
    let mut long = along_z(5, 1000);
    long.push(Vec3::new(0, 0, 1001));
    assert_eq!(w.advance(3, 2, &long), Err(SimError::InvalidParameter(Parameter::Draws)));
    assert_eq!(w.step_count(), 0);
    assert_eq!(w.position(), Vec3::origin());
    assert!(w.segments().is_empty());
    assert!(!w.is_escaped());
}

#[test]
fn walker_with_zero_step_length_never_leaves() {
    let mut w = Walker::new(0, 10, grey()).unwrap();
    let draws = vec![Vec3::origin(); 8];
    assert_eq!(w.advance(4, 2, &draws), Ok(()));
    assert!(!w.is_escaped());
    assert_eq!(w.step_count(), 8);
    assert_eq!(w.position(), Vec3::origin());
    assert_eq!(w.segments().len(), 4);
}

#[test]
fn walker_with_zero_radius_escapes_on_its_first_move() {
    let mut w = Walker::new(5, 0, grey()).unwrap();
    let draws = vec![Vec3::origin(), Vec3::new(0, 1, 0), Vec3::new(0, 1, 0)];
    assert_eq!(w.advance(3, 1, &draws), Ok(()));
    assert!(w.is_escaped());
    assert_eq!(w.step_count(), 2);
    assert_eq!(w.segments().len(), 1);
}

#[test]
fn segments_form_a_chain_from_the_origin() {
    let mut w = Walker::new(10, 1000, grey()).unwrap();
    let mut draws = Vec::new();
    for i in 0..60i64 {
        draws.push(Vec3::new((i % 7) - 3, (i % 5) - 2, (i % 3) - 1));
    }
    assert_eq!(w.advance(4, 5, &draws[..20]), Ok(()));
    assert_eq!(w.advance(10, 2, &draws[20..40]), Ok(()));
    assert_eq!(w.advance(2, 10, &draws[40..]), Ok(()));
    let segments = w.segments();
    assert_eq!(segments.len(), 16);
    assert_eq!(segments[0].start, Vec3::origin());
    for i in 0..segments.len() - 1 {
        assert_eq!(segments[i + 1].start, segments[i].end);
    }
    assert_eq!(segments[segments.len() - 1].end, w.position());
    assert_eq!(w.marker_position(), w.position());
    assert_eq!(w.step_count(), 60);
}

#[test]
fn step_count_never_goes_down() {
    let mut w = Walker::new(1000, 3000, grey()).unwrap();
    let draws = along_z(4, 1000);
    let mut last = w.step_count();
    for _ in 0..5 {
        assert_eq!(w.advance(2, 2, &draws), Ok(()));
        assert!(w.step_count() >= last);
        last = w.step_count();
    }
    assert!(w.is_escaped());
    assert_eq!(last, 4);
}

#[test]
fn batch_total_is_the_product() {
    assert_eq!(batch_total(5, 2), 10);
    assert_eq!(batch_total(0, 7), 0);
    assert_eq!(batch_total(u32::MAX, u32::MAX), 18446744065119617025);
}

#[test]
fn step_counter_has_room_until_it_is_full() {
    let mut w = Walker::new(10, 100, grey()).unwrap();
    assert!(w.has_room(0));
    assert!(w.has_room(u64::MAX));
    assert_eq!(w.step(1, &[Vec3::new(1, 0, 0)]).unwrap(), StepOutcome::Continued {
        start: Vec3::origin(),
        end: Vec3::new(1, 0, 0),
    });
    assert!(w.has_room(u64::MAX - 1));
    assert!(!w.has_room(u64::MAX));
}

#[test]
fn escaped_walker_has_room_for_anything() {
    let mut w = Walker::new(10, 0, grey()).unwrap();
    assert_eq!(w.step(1, &[Vec3::new(1, 0, 0)]).unwrap(), StepOutcome::Escaped);
    assert!(w.has_room(u64::MAX));
}
