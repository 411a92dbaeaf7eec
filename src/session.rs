use vstd::prelude::*;

use crate::worker::{CommandView, Error, StdCommand, Stdout};

verus! {

/// The build command that sessions run.
pub const BUILD_COMMAND: &'static str = "make";

/// The line that marks the start of a stream in the retained output.
pub const STREAM_STARTED: &'static str = "Stream started...";

/// The line that marks an explicit stop in the retained output.
pub const STREAM_ENDED: &'static str = "stream ended...";

/// The most lines a session retains.
pub const MAX_RETAINED_LINES: usize = 1000000;

/// The least time, in milliseconds, between two trims of the retained output.
pub const TRIM_INTERVAL_MS: u64 = 200;

/// How many of the latest lines are shown once a session has finished.
pub const FINISHED_WINDOW: usize = 1000;

/// How many of the latest lines are shown while a session has not finished.
pub const LIVE_WINDOW: usize = 100;

/// The most sessions a history keeps.
pub const MAX_SESSIONS: usize = 100;

/// Where a session is in its life.
#[derive(Debug, Clone, Copy, PartialEq, Eq, Structural)]
pub enum State {
    Idle,
    Streaming,
    Finished,
    Errored,
}

/// One tracked run of a target: its state and the output it retains.
#[derive(Debug)]
pub struct StdOutput {
    id: usize,
    command: StdCommand,
    state: State,
    textbox_output: Vec<String>,
    tick: u64,
}

/// What a `StdOutput` holds; `tick` is the time of the last trim, in
/// milliseconds on the caller's clock.
pub struct SessionView {
    pub id: usize,
    pub command: CommandView,
    pub state: State,
    pub output: Seq<Seq<char>>,
    pub tick: u64,
}

impl View for StdOutput {
    type V = SessionView;

    closed spec fn view(&self) -> SessionView {
        SessionView {
            id: self.id,
            command: self.command@,
            state: self.state,
            output: self.textbox_output.deep_view(),
            tick: self.tick,
        }
    }
}

/// The session after `start`: streaming, with the start marker appended,
/// unless it was streaming already.
pub open spec fn started(v: SessionView) -> SessionView {
    if v.state == State::Streaming {
        v
    } else {
        SessionView { state: State::Streaming, output: v.output.push(STREAM_STARTED@), ..v }
    }
}

/// The session after `stop`: finished, with a blank line and the end marker
/// appended.
pub open spec fn stopped(v: SessionView) -> SessionView {
    SessionView {
        state: State::Finished,
        output: v.output + seq![Seq::<char>::empty(), STREAM_ENDED@],
        ..v
    }
}

/// The session after one stream event; only a streaming session takes it.
pub open spec fn updated(v: SessionView, u: Result<Stdout, Error>) -> SessionView {
    if v.state != State::Streaming {
        v
    } else {
        match u {
            Ok(Stdout::OutputUpdate { output }) => SessionView {
                output: v.output + output.deep_view(),
                ..v
            },
            Ok(Stdout::Prepare { output }) => SessionView {
                output: v.output + output.deep_view(),
                ..v
            },
            Ok(Stdout::Finished) => SessionView { state: State::Finished, ..v },
            Err(_) => SessionView { state: State::Errored, ..v },
        }
    }
}

/// The milliseconds from `since` to `now`, or zero when `now` is earlier.
pub open spec fn elapsed(since: u64, now: u64) -> nat {
    if now >= since {
        (now - since) as nat
    } else {
        0
    }
}

/// The session after the retention check at time `now`: once the trim
/// interval has passed and more than the maximum of lines are retained, the
/// oldest are dropped down to the maximum.
pub open spec fn retained(v: SessionView, now: u64) -> SessionView {
    if elapsed(v.tick, now) >= TRIM_INTERVAL_MS && v.output.len() > MAX_RETAINED_LINES {
        SessionView {
            output: v.output.subrange(
                v.output.len() - MAX_RETAINED_LINES,
                v.output.len() as int,
            ),
            tick: now,
            ..v
        }
    } else {
        v
    }
}

/// Where the shown part of `len` lines begins, when `width` lines are shown.
pub open spec fn window_start_spec(len: nat, width: nat) -> nat {
    if len > width {
        (len - width) as nat
    } else {
        0
    }
}

/// How many lines a session in state `s` shows.
pub open spec fn window_width(s: State) -> nat {
    if s == State::Finished {
        FINISHED_WINDOW as nat
    } else {
        LIVE_WINDOW as nat
    }
}

/// Where the shown part of `len` lines begins, when `width` lines are shown.
pub fn window_start(len: usize, width: usize) -> (r: usize)
    ensures
        r == window_start_spec(len as nat, width as nat),
{
    if len > width {
        len - width
    } else {
        0
    }
}

/// Appends the lines of `more` to `out`.
fn append_lines(out: &mut Vec<String>, more: Vec<String>)
    ensures
        final(out).deep_view() == old(out).deep_view() + more.deep_view(),
{
    let ghost before = out.deep_view();
    let ghost added = more.deep_view();
    let mut more = more;
    out.append(&mut more);
    assert(out.deep_view() =~= before + added);
}

impl StdOutput {
    /// A new idle session with id `id` for `target`, created at time `now_ms`.
    pub fn new(id: usize, target: String, now_ms: u64) -> (r: Self)
        ensures
            r@.id == id,
            r@.command.target == target@,
            r@.command.command == BUILD_COMMAND@,
            r@.state == State::Idle,
            r@.output == Seq::<Seq<char>>::empty(),
            r@.tick == now_ms,
    {
        let r = StdOutput {
            id,
            command: StdCommand::new(target, BUILD_COMMAND.to_string()),
            state: State::Idle,
            textbox_output: Vec::new(),
            tick: now_ms,
        };
        assert(r@.output =~= Seq::<Seq<char>>::empty());
        r
    }

    pub fn target(&self) -> (r: String)
        ensures
            r@ == self@.command.target,
    {
        self.command.target()
    }

    pub fn id(&self) -> (r: usize)
        ensures
            r == self@.id,
    {
        self.id
    }

    pub fn state(&self) -> (r: State)
        ensures
            r == self@.state,
    {
        self.state
    }

    /// The command this session runs.
    pub fn command(&self) -> (r: &StdCommand)
        ensures
            r@ == self@.command,
    {
        &self.command
    }

    /// All retained output, oldest first.
    pub fn output(&self) -> (r: &Vec<String>)
        ensures
            r.deep_view() == self@.output,
    {
        &self.textbox_output
    }

    /// Where the part of the output to show begins: the last 1000 lines once
    /// finished, the last 100 otherwise.
    pub fn visible_start(&self) -> (r: usize)
        ensures
            r == window_start_spec(self@.output.len(), window_width(self@.state)),
    {
        let width = if self.state == State::Finished {
            FINISHED_WINDOW
        } else {
            LIVE_WINDOW
        };
        window_start(self.textbox_output.len(), width)
    }

    pub fn start(&mut self)
        ensures
            final(self)@ == started(old(self)@),
    {
        if self.state != State::Streaming {
            self.state = State::Streaming;
            let ghost before = self.textbox_output.deep_view();
            self.textbox_output.push(STREAM_STARTED.to_string());
            assert(self.textbox_output.deep_view() =~= before.push(STREAM_STARTED@));
        }
    }

    pub fn stop(&mut self)
        ensures
            final(self)@ == stopped(old(self)@),
    {
        self.state = State::Finished;
        let ghost before = self.textbox_output.deep_view();
        self.textbox_output.push(String::new());
        self.textbox_output.push(STREAM_ENDED.to_string());
        assert(self.textbox_output.deep_view() =~= before + seq![
            Seq::<char>::empty(),
            STREAM_ENDED@,
        ]);
    }

    /// Takes one event of the stream at time `now_ms`, then trims the
    /// retained output if it is due.
    pub fn stream_update(&mut self, output_update: Result<Stdout, Error>, now_ms: u64)
        ensures
            final(self)@ == retained(updated(old(self)@, output_update), now_ms),
    {
        let ghost u = output_update;
        if self.state == State::Streaming {
            match output_update {
                Ok(Stdout::OutputUpdate { output }) => {
                    append_lines(&mut self.textbox_output, output);
                },
                Ok(Stdout::Finished) => {
                    self.state = State::Finished;
                },
                Ok(Stdout::Prepare { output }) => {
                    append_lines(&mut self.textbox_output, output);
                },
                Err(Error::NoContent) => {
                    self.state = State::Errored;
                },
                Err(Error::Failed(_)) => {
                    self.state = State::Errored;
                },
            }
        }
        assert(self@ == updated(old(self)@, u));
        let since = if now_ms >= self.tick {
            now_ms - self.tick
        } else {
            0
        };
        let len = self.textbox_output.len();
        if since >= TRIM_INTERVAL_MS && len > MAX_RETAINED_LINES {
            let ghost before = self.textbox_output.deep_view();
            let kept = self.textbox_output.split_off(len - MAX_RETAINED_LINES);
            self.textbox_output = kept;
            self.tick = now_ms;
            assert(self.textbox_output.deep_view() =~= before.subrange(
                len - MAX_RETAINED_LINES,
                len as int,
            ));
        }
    }
}


/// The sessions of a run, oldest first, and the id the next one will get.
#[derive(Debug)]
pub struct TaskHistory {
    sessions: Vec<StdOutput>,
    next_id: usize,
}

/// What a `TaskHistory` holds.
pub struct HistoryView {
    pub sessions: Seq<SessionView>,
    pub next_id: usize,
}

impl View for TaskHistory {
    type V = HistoryView;

    closed spec fn view(&self) -> HistoryView {
        HistoryView {
            sessions: self.sessions@.map_values(|s: StdOutput| s@),
            next_id: self.next_id,
        }
    }
}

/// A well-formed history: at most `MAX_SESSIONS` sessions, ids increasing
/// and below the next id, and none but the latest streaming.
pub open spec fn history_wf(h: HistoryView) -> bool {
    &&& h.sessions.len() <= MAX_SESSIONS
    &&& forall|i: int, j: int|
        0 <= i < j < h.sessions.len() ==> #[trigger] h.sessions[i].id < #[trigger] h.sessions[j].id
    &&& forall|i: int| 0 <= i < h.sessions.len() ==> #[trigger] h.sessions[i].id < h.next_id
    &&& forall|i: int|
        0 <= i < h.sessions.len() - 1 ==> #[trigger] h.sessions[i].state != State::Streaming
}

/// A new session as `StdOutput::new` makes it.
pub open spec fn fresh_session(id: usize, target: Seq<char>, now: u64) -> SessionView {
    SessionView {
        id,
        command: CommandView { command: BUILD_COMMAND@, target },
        state: State::Idle,
        output: seq![],
        tick: now,
    }
}

/// The sessions with the latest one stopped, if it is streaming.
pub open spec fn superseded(ss: Seq<SessionView>) -> Seq<SessionView> {
    if ss.len() > 0 && ss.last().state == State::Streaming {
        ss.drop_last().push(stopped(ss.last()))
    } else {
        ss
    }
}

/// The last `MAX_SESSIONS` of `ss`.
pub open spec fn latest_sessions(ss: Seq<SessionView>) -> Seq<SessionView> {
    if ss.len() > MAX_SESSIONS {
        ss.subrange(ss.len() - MAX_SESSIONS, ss.len() as int)
    } else {
        ss
    }
}

/// The sessions with `f` applied to the latest one, if it has id `id`.
pub open spec fn on_latest(
    ss: Seq<SessionView>,
    id: usize,
    f: spec_fn(SessionView) -> SessionView,
) -> Seq<SessionView> {
    if ss.len() > 0 && ss.last().id == id {
        ss.drop_last().push(f(ss.last()))
    } else {
        ss
    }
}

impl TaskHistory {
    pub fn new() -> (r: Self)
        ensures
            r@.sessions == Seq::<SessionView>::empty(),
            r@.next_id == 0,
            history_wf(r@),
    {
        let r = TaskHistory { sessions: Vec::new(), next_id: 0 };
        assert(r@.sessions =~= Seq::<SessionView>::empty());
        r
    }

    /// The id the next session will get.
    pub fn next_id(&self) -> (r: usize)
        ensures
            r == self@.next_id,
    {
        self.next_id
    }

    /// The sessions, oldest first.
    pub fn sessions(&self) -> (r: &Vec<StdOutput>)
        ensures
            r@.map_values(|s: StdOutput| s@) == self@.sessions,
    {
        &self.sessions
    }

    /// The latest session, if any.
    pub fn latest(&self) -> (r: Option<&StdOutput>)
        ensures
            self@.sessions.len() == 0 ==> r is None,
            self@.sessions.len() > 0 ==> r is Some && r->0@ == self@.sessions.last(),
    {
        let n = self.sessions.len();
        if n == 0 {
            None
        } else {
            Some(&self.sessions[n - 1])
        }
    }

    /// Starts a session for `target` at time `now_ms` and returns its id:
    /// the latest session is stopped first if it is streaming, and the
    /// oldest sessions are dropped beyond `MAX_SESSIONS`.
    pub fn launch(&mut self, target: String, now_ms: u64) -> (id: usize)
        requires
            history_wf(old(self)@),
            old(self)@.next_id < usize::MAX,
        ensures
            history_wf(final(self)@),
            id == old(self)@.next_id,
            final(self)@.next_id == old(self)@.next_id + 1,
            final(self)@.sessions == latest_sessions(
                superseded(old(self)@.sessions).push(started(fresh_session(id, target@, now_ms))),
            ),
    {
        let ghost old_ss = self@.sessions;
        let n = self.sessions.len();
        if n > 0 && self.sessions[n - 1].state() == State::Streaming {
            let mut last = self.sessions.pop().unwrap();
            last.stop();
            self.sessions.push(last);
            assert(self@.sessions =~= old_ss.drop_last().push(stopped(old_ss.last())));
            proof {
                lemma_replace_latest(
                    HistoryView { sessions: old_ss, next_id: self.next_id },
                    stopped(old_ss.last()),
                );
            }
        }
        assert(self@.sessions == superseded(old_ss));
        let ghost mid = self@;
        let id = self.next_id;
        let mut task = StdOutput::new(id, target, now_ms);
        task.start();
        let ghost fresh = task@;
        self.sessions.push(task);
        self.next_id = id + 1;
        assert(self@.sessions =~= mid.sessions.push(fresh));
        let len = self.sessions.len();
        if len > MAX_SESSIONS {
            let kept = self.sessions.split_off(len - MAX_SESSIONS);
            self.sessions = kept;
            assert(self@.sessions =~= mid.sessions.push(fresh).subrange(
                len - MAX_SESSIONS,
                len as int,
            ));
        }
        proof {
            lemma_push_latest(mid, fresh);
        }
        id
    }

    /// Stops the latest session if it has id `id`.
    pub fn stop(&mut self, id: usize)
        requires
            history_wf(old(self)@),
        ensures
            history_wf(final(self)@),
            final(self)@.next_id == old(self)@.next_id,
            final(self)@.sessions == on_latest(
                old(self)@.sessions,
                id,
                |v: SessionView| stopped(v),
            ),
    {
        let ghost old_h = self@;
        let n = self.sessions.len();
        if n > 0 && self.sessions[n - 1].id() == id {
            let mut last = self.sessions.pop().unwrap();
            last.stop();
            self.sessions.push(last);
            assert(self@.sessions =~= old_h.sessions.drop_last().push(
                stopped(old_h.sessions.last()),
            ));
            proof {
                lemma_replace_latest(old_h, stopped(old_h.sessions.last()));
            }
        }
    }

    /// Hands one stream event, received at time `now_ms`, to the latest
    /// session if it has id `id`.
    pub fn update(&mut self, id: usize, output_update: Result<Stdout, Error>, now_ms: u64)
        requires
            history_wf(old(self)@),
        ensures
            history_wf(final(self)@),
            final(self)@.next_id == old(self)@.next_id,
            final(self)@.sessions == on_latest(
                old(self)@.sessions,
                id,
                |v: SessionView| retained(updated(v, output_update), now_ms),
            ),
    {
        let ghost old_h = self@;
        let ghost u = output_update;
        let n = self.sessions.len();
        if n > 0 && self.sessions[n - 1].id() == id {
            let mut last = self.sessions.pop().unwrap();
            last.stream_update(output_update, now_ms);
            self.sessions.push(last);
            let ghost v = retained(updated(old_h.sessions.last(), u), now_ms);
            assert(self@.sessions =~= old_h.sessions.drop_last().push(v));
            proof {
                lemma_replace_latest(old_h, v);
            }
        }
    }
}

/// Replacing the latest session by one with the same id keeps a history
/// well formed.
proof fn lemma_replace_latest(h: HistoryView, v: SessionView)
    requires
        history_wf(h),
        h.sessions.len() > 0,
        v.id == h.sessions.last().id,
    ensures
        history_wf(HistoryView { sessions: h.sessions.drop_last().push(v), next_id: h.next_id }),
{
    let ss = h.sessions.drop_last().push(v);
    let last = h.sessions.len() - 1;
    assert forall|i: int| 0 <= i < ss.len() implies #[trigger] ss[i].id == h.sessions[i].id
        && (i < last ==> ss[i] == h.sessions[i]) by {}
}

/// Adding a session with the next id after a latest session that is not
/// streaming, then keeping the last `MAX_SESSIONS`, keeps a history well
/// formed.
proof fn lemma_push_latest(h: HistoryView, v: SessionView)
    requires
        history_wf(h),
        h.next_id < usize::MAX,
        v.id == h.next_id,
        h.sessions.len() > 0 ==> h.sessions.last().state != State::Streaming,
    ensures
        history_wf(
            HistoryView {
                sessions: latest_sessions(h.sessions.push(v)),
                next_id: (h.next_id + 1) as usize,
            },
        ),
{
    let all = h.sessions.push(v);
    let ss = latest_sessions(all);
    let d = all.len() - ss.len();
    assert forall|i: int| 0 <= i < ss.len() implies #[trigger] ss[i] == all[i + d] by {}
    assert forall|i: int| 0 <= i < all.len() - 1 implies #[trigger] all[i] == h.sessions[i] by {}
    assert forall|i: int, j: int| 0 <= i < j < ss.len() implies #[trigger] ss[i].id
        < #[trigger] ss[j].id by {
        assert(all[i + d] == h.sessions[i + d]);
        if j + d < all.len() - 1 {
            assert(all[j + d] == h.sessions[j + d]);
        }
    }
    assert forall|i: int| 0 <= i < ss.len() implies #[trigger] ss[i].id < h.next_id + 1 by {
        if i + d < all.len() - 1 {
            assert(all[i + d] == h.sessions[i + d]);
        }
    }
    assert forall|i: int| 0 <= i < ss.len() - 1 implies #[trigger] ss[i].state
        != State::Streaming by {
        assert(all[i + d] == h.sessions[i + d]);
    }
}

/// Stopping a finished session leaves it finished; its output still
/// receives the two marker lines again.
pub proof fn lemma_stop_finished_stays_finished(v: SessionView)
    requires
        v.state == State::Finished,
    ensures
        stopped(v).state == State::Finished,
        stopped(stopped(v)).state == State::Finished,
        stopped(v).output == v.output + seq![Seq::<char>::empty(), STREAM_ENDED@],
{
}

} // verus!
