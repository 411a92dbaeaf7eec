use ck::session::{
    window_start, State, StdOutput, TaskHistory, BUILD_COMMAND, MAX_RETAINED_LINES,
    MAX_SESSIONS, STREAM_ENDED, STREAM_STARTED,
};
use ck::worker::{Error, Stdout};

fn update(v: &[&str]) -> Result<Stdout, Error> {
    Ok(Stdout::OutputUpdate { output: v.iter().map(|s| s.to_string()).collect() })
}

#[test]
fn new_session_is_idle_and_empty() {
    let s = StdOutput::new(3, "build".to_string(), 10);
    assert_eq!(s.id(), 3);
    assert_eq!(s.target(), "build");
    assert_eq!(s.command().command(), BUILD_COMMAND);
    assert_eq!(s.state(), State::Idle);
    assert!(s.output().is_empty());
}

#[test]
fn start_marks_the_stream_once() {
    let mut s = StdOutput::new(0, "t".to_string(), 0);
    s.start();
    assert_eq!(s.state(), State::Streaming);
    assert_eq!(s.output(), &vec![STREAM_STARTED.to_string()]);
    s.start();
    assert_eq!(s.output().len(), 1);
}

#[test]
fn events_apply_only_while_streaming() {
    let mut s = StdOutput::new(0, "t".to_string(), 0);
    s.stream_update(update(&["ignored"]), 1);
    assert!(s.output().is_empty());
    s.start();
    s.stream_update(update(&["a", "b"]), 1);
    s.stream_update(Ok(Stdout::Prepare { output: vec!["c".to_string()] }), 2);
    assert_eq!(s.output().len(), 4);
    assert_eq!(s.output()[3], "c");
    s.stream_update(Ok(Stdout::Finished), 3);
    assert_eq!(s.state(), State::Finished);
    s.stream_update(update(&["late"]), 4);
    assert_eq!(s.output().len(), 4);
}

#[test]
fn failures_mark_the_session_errored() {
    let mut s = StdOutput::new(0, "t".to_string(), 0);
    s.start();
    s.stream_update(update(&["kept"]), 1);
    s.stream_update(Err(Error::NoContent), 2);
    assert_eq!(s.state(), State::Errored);
    assert_eq!(s.output().len(), 2);
    let mut s = StdOutput::new(1, "t".to_string(), 0);
    s.start();
    s.stream_update(Err(Error::Failed("read".to_string())), 2);
    assert_eq!(s.state(), State::Errored);
    s.start();
    assert_eq!(s.state(), State::Streaming);
}

#[test]
fn stop_on_finished_stays_finished_and_marks_again() {
    let mut s = StdOutput::new(0, "t".to_string(), 0);
    s.start();
    s.stop();
    assert_eq!(s.state(), State::Finished);
    assert_eq!(s.output().len(), 3);
    assert_eq!(s.output()[1], "");
    assert_eq!(s.output()[2], STREAM_ENDED);
    s.stop();
    assert_eq!(s.state(), State::Finished);
    assert_eq!(s.output().len(), 5);
}

#[test]
fn retained_output_is_trimmed_to_the_maximum() {
    let mut s = StdOutput::new(0, "t".to_string(), 0);
    s.start();
    let big: Vec<String> = (0..MAX_RETAINED_LINES + 5).map(|i| i.to_string()).collect();
    s.stream_update(Ok(Stdout::OutputUpdate { output: big }), 100);
    assert_eq!(s.output().len(), MAX_RETAINED_LINES + 6);
    s.stream_update(update(&["x"]), 300);
    assert_eq!(s.output().len(), MAX_RETAINED_LINES);
    assert_eq!(s.output()[MAX_RETAINED_LINES - 1], "x");
    assert_eq!(s.output()[0], "6");
    s.stream_update(update(&["y", "z"]), 400);
    assert_eq!(s.output().len(), MAX_RETAINED_LINES + 2);
}

#[test]
fn window_shows_the_latest_lines() {
    assert_eq!(window_start(5, 100), 0);
    assert_eq!(window_start(100, 100), 0);
    assert_eq!(window_start(150, 100), 50);
    let mut s = StdOutput::new(0, "t".to_string(), 0);
    s.start();
    let lines: Vec<String> = (0..1500).map(|i| i.to_string()).collect();
    s.stream_update(Ok(Stdout::OutputUpdate { output: lines }), 1);
    assert_eq!(s.visible_start(), 1401);
    s.stream_update(Ok(Stdout::Finished), 2);
    assert_eq!(s.visible_start(), 501);
}

#[test]
fn launching_supersedes_the_streaming_session() {
    let mut h = TaskHistory::new();
    let a = h.launch("a".to_string(), 0);
    let b = h.launch("b".to_string(), 5);
    assert!(b > a);
    let ss = h.sessions();
    assert_eq!(ss.len(), 2);
    assert_eq!(ss[0].state(), State::Finished);
    assert_eq!(ss[1].state(), State::Streaming);
    assert_eq!(h.latest().unwrap().target(), "b");
}

#[test]
fn events_and_stops_reach_only_the_latest_matching_session() {
    let mut h = TaskHistory::new();
    let a = h.launch("a".to_string(), 0);
    let b = h.launch("b".to_string(), 0);
    h.update(a, update(&["for a"]), 1);
    assert_eq!(h.sessions()[0].output().len(), 3);
    h.update(b, update(&["for b"]), 1);
    assert_eq!(h.sessions()[1].output().len(), 2);
    h.stop(a);
    assert_eq!(h.sessions()[1].state(), State::Streaming);
    h.stop(b);
    assert_eq!(h.sessions()[1].state(), State::Finished);
}

#[test]
fn history_keeps_the_latest_sessions() {
    let mut h = TaskHistory::new();
    for i in 0..MAX_SESSIONS + 20 {
        h.launch(format!("t{}", i), i as u64);
    }
    assert_eq!(h.sessions().len(), MAX_SESSIONS);
    assert_eq!(h.sessions()[0].id(), 20);
    assert_eq!(h.next_id(), MAX_SESSIONS + 20);
    assert_eq!(h.latest().unwrap().state(), State::Streaming);
}
