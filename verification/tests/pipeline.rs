use sig::control::{Control, ControlAction, Signal};
use sig::highlight::StyledLine;
use sig::ingest::{ingest_step, IngestAction, IngestEvent};
use sig::render::{RenderAction, RenderLoop};
use sig::search::Span;

fn run_lines(capacity: usize, query: &str, lines: &[&str]) -> (Vec<RenderAction<u8>>, Vec<String>) {
    let mut render = RenderLoop::new(capacity, 7u8, false);
    let mut actions = Vec::new();
    for line in lines {
        actions.push(render.on_received(Some(line.to_string()), query));
    }
    assert_eq!(render.on_received(None, query), RenderAction::Finish);
    (actions, render.into_lines().into_iter().collect())
}

#[test]
fn render_loop_retains_the_latest_lines() {
    let (_, retained) = run_lines(3, "", &["a", "b", "c", "d"]);
    assert_eq!(retained, vec!["b", "c", "d"]);
}

#[test]
fn render_loop_draws_only_matching_lines_and_retains_all() {
    let (actions, retained) = run_lines(10, "err", &["ok", "error: x", "ok"]);
    assert_eq!(actions.len(), 3);
    assert_eq!(actions[0], RenderAction::Skip);
    assert_eq!(actions[2], RenderAction::Skip);
    match &actions[1] {
        RenderAction::Draw(shown) => {
            assert_eq!(shown.text(), "error: x");
            assert_eq!(shown.highlighted_ranges(), vec![Span { start: 0, end: 3 }]);
            assert_eq!(shown.style_at(0), Some(7u8));
        }
        other => panic!("the matching line must be drawn, not {:?}", other),
    }
    assert_eq!(retained, vec!["ok", "error: x", "ok"]);
}

#[test]
fn render_loop_draws_every_line_under_the_empty_query() {
    let (actions, _) = run_lines(2, " ", &["x", "y"]);
    assert_eq!(
        actions,
        vec![RenderAction::Draw(StyledLine::plain("x")), RenderAction::Draw(StyledLine::plain("y"))]
    );
}

#[test]
fn render_loop_reads_the_query_anew_for_each_line() {
    let mut render = RenderLoop::new(5, 1u8, true);
    assert_eq!(render.on_received(Some("alpha".to_string()), "BETA"), RenderAction::Skip);
    assert!(matches!(render.on_received(Some("beta".to_string()), "BETA"), RenderAction::Draw(_)));
    assert!(matches!(render.on_received(Some("alpha".to_string()), "al"), RenderAction::Draw(_)));
    assert_eq!(render.on_received(Some("beta".to_string()), "("), RenderAction::Skip);
    assert_eq!(render.len(), 4);
    assert_eq!(render.buffer().get(3).map(|l| l.as_str()), Some("beta"));
}

#[test]
fn render_loop_finishes_with_the_buffer_as_it_is() {
    let mut render = RenderLoop::new(2, 0u8, false);
    assert_eq!(render.on_received(Some("a".to_string()), ""), RenderAction::Draw(StyledLine::plain("a")));
    assert_eq!(render.on_received(None, ""), RenderAction::Finish);
    assert_eq!(render.len(), 1);
    assert_eq!(render.into_lines().into_iter().collect::<Vec<_>>(), vec!["a"]);
}

#[test]
fn only_two_signals_terminate() {
    assert!(!Signal::Continue.is_terminating());
    assert!(Signal::GotoArchived.is_terminating());
    assert!(Signal::GotoStreaming.is_terminating());
}

#[test]
fn control_redraws_until_a_signal_terminates() {
    let mut control = Control::new();
    assert!(!control.is_cancelled());
    assert_eq!(control.on_signal(Signal::Continue), ControlAction::Redraw);
    assert_eq!(control.on_signal(Signal::Continue), ControlAction::Redraw);
    assert_eq!(control.exit_signal(), None);
    assert_eq!(control.on_signal(Signal::GotoArchived), ControlAction::Cancel);
    assert!(control.is_cancelled());
    assert_eq!(control.exit_signal(), Some(Signal::GotoArchived));
}

#[test]
fn control_cancels_only_once() {
    let mut control = Control::new();
    let signals = [
        Signal::Continue,
        Signal::GotoStreaming,
        Signal::GotoArchived,
        Signal::Continue,
        Signal::GotoStreaming,
    ];
    let actions: Vec<ControlAction> = signals.iter().map(|s| control.on_signal(*s)).collect();
    assert_eq!(actions.iter().filter(|a| **a == ControlAction::Cancel).count(), 1);
    assert_eq!(
        actions,
        vec![
            ControlAction::Redraw,
            ControlAction::Cancel,
            ControlAction::Ignore,
            ControlAction::Ignore,
            ControlAction::Ignore
        ]
    );
    assert_eq!(control.exit_signal(), Some(Signal::GotoStreaming));
}

#[test]
fn ingestion_stops_when_cancelled() {
    assert_eq!(ingest_step(IngestEvent::Cancelled), IngestAction::Stop);
}

#[test]
fn ingestion_retries_after_a_timeout() {
    assert_eq!(ingest_step(IngestEvent::TimedOut), IngestAction::Retry);
}

#[test]
fn ingestion_forwards_a_line_as_it_is() {
    assert_eq!(
        ingest_step(IngestEvent::Line(" a line\t".to_string())),
        IngestAction::Forward(" a line\t".to_string())
    );
}

#[test]
fn ingestion_stops_at_the_end_of_the_source() {
    assert_eq!(ingest_step(IngestEvent::Closed), IngestAction::Stop);
}

#[test]
fn ingestion_fails_with_the_source() {
    assert_eq!(ingest_step(IngestEvent::Failed), IngestAction::Fail);
}

fn run_ingestion(events: Vec<IngestEvent>) -> (usize, Vec<String>, IngestAction) {
    let mut forwarded = Vec::new();
    let mut turns = 0;
    for event in events {
        turns += 1;
        match ingest_step(event) {
            IngestAction::Forward(line) => forwarded.push(line),
            IngestAction::Retry => (),
            last => return (turns, forwarded, last),
        }
    }
    (turns, forwarded, IngestAction::Retry)
}

#[test]
fn ingestion_reads_nothing_after_cancellation() {
    let (turns, forwarded, last) = run_ingestion(vec![
        IngestEvent::Line("a".to_string()),
        IngestEvent::TimedOut,
        IngestEvent::Line("b".to_string()),
        IngestEvent::Cancelled,
        IngestEvent::Line("c".to_string()),
        IngestEvent::Closed,
    ]);
    assert_eq!(turns, 4);
    assert_eq!(forwarded, vec!["a", "b"]);
    assert_eq!(last, IngestAction::Stop);
}

#[test]
fn ingestion_goes_on_after_timeouts() {
    let (turns, forwarded, last) = run_ingestion(vec![
        IngestEvent::TimedOut,
        IngestEvent::TimedOut,
        IngestEvent::Line("late".to_string()),
        IngestEvent::Closed,
    ]);
    assert_eq!(turns, 4);
    assert_eq!(forwarded, vec!["late"]);
    assert_eq!(last, IngestAction::Stop);
}

#[test]
fn ingestion_ends_with_the_failure_of_the_source() {
    let (turns, forwarded, last) = run_ingestion(vec![
        IngestEvent::Line("a".to_string()),
        IngestEvent::Failed,
        IngestEvent::Line("b".to_string()),
    ]);
    assert_eq!(turns, 2);
    assert_eq!(forwarded, vec!["a"]);
    assert_eq!(last, IngestAction::Fail);
}
