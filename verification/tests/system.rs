use glia::config::{err_mapper, io_err_mapper, ConfigFault, LogFault};
use glia::interpolation::{Change, Interpolation, RenderSource};
use glia::system::{DeathWatch, WindowingEvent, WindowingManager};
use glia::tasks::{kill_requested, OneshotPoll, ThreadDeathReporter, TimeoutOutcome};
use glia::world::World;
use std::sync::atomic::{AtomicUsize, Ordering};
use std::sync::Arc;

fn text(t: &str) -> String {
    t.to_string()
}

#[test]
fn a_task_ends_when_told_or_left_alone() {
    assert!(kill_requested(OneshotPoll::Fired));
    assert!(kill_requested(OneshotPoll::Closed));
    assert!(!kill_requested(OneshotPoll::Empty));
}

#[test]
fn a_reporter_shares_the_tally() {
    let tally = Arc::new(AtomicUsize::new(0));
    let r = ThreadDeathReporter::new(&tally, text("sim"));
    r.death_tally.fetch_add(1, Ordering::Relaxed);
    assert_eq!(r.name, "sim");
    assert_eq!(tally.load(Ordering::Relaxed), 1);
}

#[test]
fn waiting_ends_in_one_of_three_ways() {
    assert_eq!(TimeoutOutcome::from_wait(Some(Some(3))).value(), Some(3));
    assert_eq!(TimeoutOutcome::<u8>::from_wait(Some(None)).value(), None);
    assert!(matches!(TimeoutOutcome::<u8>::from_wait(Some(None)), TimeoutOutcome::Closed));
    assert!(matches!(TimeoutOutcome::<u8>::from_wait(None), TimeoutOutcome::Timeout));
    assert_eq!(TimeoutOutcome::<u8>::Timeout.value(), None);
}

#[test]
fn windows_are_numbered() {
    let mut m = WindowingManager::new(vec![]);
    assert_eq!(m.resumed(), 0);
    assert_eq!(m.resumed(), 1);
    assert_eq!(m.window_generation, 2);
}

#[test]
fn the_client_ends_once() {
    for (poll, event, ends) in [
        (OneshotPoll::Empty, WindowingEvent::Other, false),
        (OneshotPoll::Empty, WindowingEvent::CloseRequested, true),
        (OneshotPoll::Empty, WindowingEvent::EscapeKey, true),
        (OneshotPoll::Fired, WindowingEvent::Other, true),
        (OneshotPoll::Closed, WindowingEvent::Other, true),
    ] {
        let mut m = WindowingManager::new(vec![text("sim"), text("bus")]);
        m.window_event(poll, event);
        assert_eq!(m.should_exit, ends);
        match m.about_to_wait() {
            Some(told) => {
                assert!(ends);
                assert_eq!(told, vec![text("sim"), text("bus")]);
                assert_eq!(m.about_to_wait(), Some(vec![]));
            },
            None => assert!(!ends),
        }
    }
}

#[test]
fn deaths_are_waited_for() {
    let mut w = DeathWatch::new(2);
    assert_eq!(w.on_tally(0), (false, true));
    assert_eq!(w.on_tally(1), (true, true));
    assert_eq!(w.on_tally(1), (false, true));
    assert_eq!(w.on_tally(2), (true, false));
}

#[test]
fn faults_are_reported() {
    assert_eq!(err_mapper(ConfigFault::Frozen).message, "frozen config");
    assert_eq!(err_mapper(ConfigFault::Type).message, "config bad");
    assert_eq!(err_mapper(ConfigFault::Message(text("\"m\""))).message, "message \"m\"");
    assert_eq!(err_mapper(ConfigFault::Foreign).message, "foreign");
    assert_eq!(err_mapper(ConfigFault::NotFound).message, "not found");
    assert_eq!(err_mapper(ConfigFault::PathParse(text("p"))).message, "bad path p");
    let parse = ConfigFault::FileParse { uri: text("Some(\"u\")"), cause: text("c") };
    assert_eq!(err_mapper(parse).message, "file parsing Some(\"u\"), c");
    assert_eq!(io_err_mapper(LogFault::NotFound).message, "bad log path");
    assert_eq!(io_err_mapper(LogFault::Other(text("permission denied"))).message, "permission denied");
}

fn world(generation: u64) -> World {
    World { generation, ..World::default() }
}

#[test]
fn a_way_lasts_sixteen_milliseconds() {
    let (a, b) = (world(1), world(2));
    match Interpolation::deduce_transition(&a, &b, 16_000_000) {
        Interpolation::Transition(t) => {
            assert_eq!((t.w0.generation, t.w1.generation), (1, 2));
            assert_eq!(t.change, Change::Noop);
            assert_eq!(t.interpolation_point, 0);
        },
        _ => panic!("a transition"),
    }
    match Interpolation::deduce_transition(&a, &b, 16_000_001) {
        Interpolation::CheckpointReached(w, rest) => {
            assert_eq!((w.generation, rest), (2, 1));
        },
        _ => panic!("a checkpoint"),
    }
}

#[test]
fn a_checkpoint_is_chased() {
    let (a, b) = (world(1), world(2));
    let there = Interpolation::CheckpointReached(&a, 5).chase_checkpoint_or_transition(&b);
    assert!(matches!(there, Interpolation::Transition(t) if t.w0.generation == 1 && t.w1.generation == 2));
    let on = Interpolation::CheckpointReached(&a, 20_000_000).chase_checkpoint_or_transition(&b);
    assert!(matches!(on, Interpolation::CheckpointReached(w, 4_000_000) if w.generation == 2));
    let same = Interpolation::deduce_transition(&a, &b, 0).chase_checkpoint_or_transition(&a);
    assert!(matches!(same, Interpolation::Transition(t) if t.w1.generation == 2));
}

#[test]
fn a_picture_shows_a_way_or_the_last_world() {
    assert!(Interpolation::into_render_source(&[], 0).is_none());
    let one = [world(4)];
    assert!(matches!(
        Interpolation::into_render_source(&one, 99_000_000),
        Some(RenderSource::Static(w)) if w.generation == 4
    ));
    let three = [world(4), world(5), world(6)];
    assert!(matches!(
        Interpolation::into_render_source(&three, 1),
        Some(RenderSource::Transition(t)) if t.w0.generation == 4 && t.w1.generation == 5
    ));
    assert!(matches!(
        Interpolation::into_render_source(&three, 16_000_001),
        Some(RenderSource::Transition(t)) if t.w0.generation == 5 && t.w1.generation == 6
    ));
    assert!(matches!(
        Interpolation::into_render_source(&three, 32_000_000),
        Some(RenderSource::Transition(t)) if t.w0.generation == 5 && t.w1.generation == 6
    ));
    assert!(matches!(
        Interpolation::into_render_source(&three, 32_000_001),
        Some(RenderSource::Static(w)) if w.generation == 6
    ));
}
