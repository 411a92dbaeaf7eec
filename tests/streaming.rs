use ck::worker::{Error, Input, LineBatcher, StdCommand, Stdout, WorkerEvent};

fn line(s: &str) -> WorkerEvent {
    WorkerEvent::Line(s.to_string())
}

fn update(v: &[&str]) -> Stdout {
    Stdout::OutputUpdate { output: v.iter().map(|s| s.to_string()).collect() }
}

fn run(events: Vec<WorkerEvent>) -> Vec<Stdout> {
    let mut b = LineBatcher::new();
    let mut out = Vec::new();
    for e in events {
        out.extend(b.step(e));
    }
    out
}

#[test]
fn command_keeps_target_and_command() {
    let c = StdCommand::new("build".to_string(), "make".to_string());
    assert_eq!(c.target(), "build");
    assert_eq!(c.command(), "make");
}

#[test]
fn live_marker_is_one_empty_line() {
    assert_eq!(LineBatcher::live_marker(), update(&[""]));
}

#[test]
fn fast_output_is_batched_in_order() {
    let events = vec![
        line("1"),
        line("2"),
        line("3"),
        WorkerEvent::Tick,
        line("4"),
        line("5"),
        WorkerEvent::Closed,
    ];
    let out = run(events);
    assert_eq!(out, vec![update(&["1", "2", "3"]), update(&["4", "5"]), Stdout::Finished]);
    let updates = out.iter().filter(|o| matches!(o, Stdout::OutputUpdate { .. })).count();
    assert!(updates < 5);
}

#[test]
fn empty_ticks_send_nothing() {
    let out = run(vec![WorkerEvent::Tick, WorkerEvent::Tick, line("a"), WorkerEvent::Tick, WorkerEvent::Tick]);
    assert_eq!(out, vec![update(&["a"])]);
}

#[test]
fn end_without_pending_lines_sends_only_finished() {
    let out = run(vec![line("a"), WorkerEvent::Tick, WorkerEvent::Closed]);
    assert_eq!(out, vec![update(&["a"]), Stdout::Finished]);
    assert_eq!(run(vec![WorkerEvent::Closed]), vec![Stdout::Finished]);
}

#[test]
fn finished_is_sent_once_and_last() {
    let mut b = LineBatcher::new();
    assert!(!b.is_done());
    assert!(b.step(line("x")).is_empty());
    let closing = b.step(WorkerEvent::Closed);
    assert_eq!(closing, vec![update(&["x"]), Stdout::Finished]);
    assert!(b.is_done());
    assert!(b.step(WorkerEvent::Closed).is_empty());
    assert!(b.step(line("late")).is_empty());
    assert!(b.step(WorkerEvent::Tick).is_empty());
}

#[test]
fn lines_concatenate_to_the_output() {
    let lines: Vec<String> = (0..50).map(|i| format!("line {}", i)).collect();
    let mut events = Vec::new();
    for (i, l) in lines.iter().enumerate() {
        events.push(WorkerEvent::Line(l.clone()));
        if i % 7 == 6 {
            events.push(WorkerEvent::Tick);
        }
    }
    events.push(WorkerEvent::Closed);
    let out = run(events);
    let mut sent = Vec::new();
    let mut updates = 0;
    for o in &out {
        if let Stdout::OutputUpdate { output } = o {
            updates += 1;
            sent.extend(output.iter().cloned());
        }
    }
    assert_eq!(sent, lines);
    assert!(updates < lines.len());
    assert_eq!(out.last(), Some(&Stdout::Finished));
}

#[test]
fn error_and_input_variants() {
    let e = Error::Failed("broken pipe".to_string());
    assert_ne!(e, Error::NoContent);
    assert_eq!(Input::Cancel, Input::Cancel);
}

#[test]
fn lines_within_one_interval_give_fewer_events_than_lines() {
    let mut events = vec![line("1"), line("2"), WorkerEvent::Tick, line("3"), line("4")];
    events.push(WorkerEvent::Closed);
    let mut out = vec![LineBatcher::live_marker()];
    out.extend(run(events));
    let updates = out.iter().filter(|o| matches!(o, Stdout::OutputUpdate { .. })).count();
    assert_eq!(updates, 3);
    assert!(updates < 4);
    assert_eq!(out.last(), Some(&Stdout::Finished));
}
