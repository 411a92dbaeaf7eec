use vstd::prelude::*;

verus! {

/// The period, in milliseconds, on which pending output lines are sent.
pub const BATCH_INTERVAL_MS: u64 = 80;

/// The command to run, and the one target handed to it as its argument.
#[derive(Debug, Clone)]
pub struct StdCommand {
    command: String,
    target: String,
}

/// What a `StdCommand` holds.
pub struct CommandView {
    pub command: Seq<char>,
    pub target: Seq<char>,
}

impl View for StdCommand {
    type V = CommandView;

    closed spec fn view(&self) -> CommandView {
        CommandView { command: self.command@, target: self.target@ }
    }
}

impl StdCommand {
    pub fn new(target: String, command: String) -> (r: Self)
        ensures
            r@.target == target@,
            r@.command == command@,
    {
        StdCommand { command, target }
    }

    pub fn target(&self) -> (r: String)
        ensures
            r@ == self@.target,
    {
        self.target.clone()
    }

    pub fn command(&self) -> (r: String)
        ensures
            r@ == self@.command,
    {
        self.command.clone()
    }
}

/// An event of a running command's output stream.
#[derive(Debug, Clone, PartialEq)]
pub enum Stdout {
    /// Content to show before the command produces any.
    Prepare { output: Vec<String> },
    /// Lines the command wrote since the previous update, in order.
    OutputUpdate { output: Vec<String> },
    /// The command's output has ended; nothing follows.
    Finished,
}

/// A `Stdout` event with its lines as character sequences.
pub enum StdoutView {
    Prepare(Seq<Seq<char>>),
    OutputUpdate(Seq<Seq<char>>),
    Finished,
}

impl View for Stdout {
    type V = StdoutView;

    open spec fn view(&self) -> StdoutView {
        match self {
            Stdout::Prepare { output } => StdoutView::Prepare(output.deep_view()),
            Stdout::OutputUpdate { output } => StdoutView::OutputUpdate(output.deep_view()),
            Stdout::Finished => StdoutView::Finished,
        }
    }
}

/// A request to the worker.
#[derive(Debug, Clone, Copy, PartialEq, Eq, Structural)]
pub enum Input {
    Cancel,
}

/// Why an output stream failed.
#[derive(Debug, Clone, PartialEq, Eq)]
pub enum Error {
    /// Reading the command's output failed; the text describes the cause.
    Failed(String),
    /// The command ended without producing any content.
    NoContent,
}

/// What the worker learns while a command runs.
#[derive(Debug, Clone, PartialEq, Eq)]
pub enum WorkerEvent {
    /// The batch timer fired.
    Tick,
    /// The command wrote one more line.
    Line(String),
    /// The command's output ended, or reading it failed.
    Closed,
}

/// The state of the line batching: the lines read and not yet sent, and
/// whether the stream has ended.
#[derive(Debug)]
pub struct LineBatcher {
    cache: Vec<String>,
    done: bool,
}

/// What a `LineBatcher` holds.
pub struct BatcherView {
    pub cache: Seq<Seq<char>>,
    pub done: bool,
}

impl View for LineBatcher {
    type V = BatcherView;

    closed spec fn view(&self) -> BatcherView {
        BatcherView { cache: self.cache.deep_view(), done: self.done }
    }
}

/// The batching state in which a stream begins.
pub open spec fn initial_batcher() -> BatcherView {
    BatcherView { cache: seq![], done: false }
}

/// The event sent as soon as a stream is live: one empty line.
pub open spec fn live_marker_view() -> StdoutView {
    StdoutView::OutputUpdate(seq![Seq::<char>::empty()])
}

/// The events a list of `Stdout` values stands for.
pub open spec fn events_view(out: Seq<Stdout>) -> Seq<StdoutView> {
    out.map_values(|o: Stdout| o@)
}

/// One step of the batching: the next state, and the events to send, in order.
/// A tick sends the pending lines as one update, if there are any; a line is
/// held back; the end of output sends what is pending, then `Finished`.
/// Once ended, nothing changes and nothing is sent.
pub open spec fn batch_step(s: BatcherView, e: WorkerEvent) -> (BatcherView, Seq<StdoutView>) {
    if s.done {
        (s, seq![])
    } else {
        match e {
            WorkerEvent::Tick => if s.cache.len() == 0 {
                (s, seq![])
            } else {
                (
                    BatcherView { cache: seq![], done: false },
                    seq![StdoutView::OutputUpdate(s.cache)],
                )
            },
            WorkerEvent::Line(l) => (BatcherView { cache: s.cache.push(l@), done: false }, seq![]),
            WorkerEvent::Closed => (
                BatcherView { cache: seq![], done: true },
                if s.cache.len() == 0 {
                    seq![StdoutView::Finished]
                } else {
                    seq![StdoutView::OutputUpdate(s.cache), StdoutView::Finished]
                },
            ),
        }
    }
}

/// The state after the events `evs`, starting from `s`, and all events sent.
pub open spec fn batch_run(s: BatcherView, evs: Seq<WorkerEvent>) -> (BatcherView, Seq<StdoutView>)
    decreases evs.len(),
{
    if evs.len() == 0 {
        (s, seq![])
    } else {
        let (s1, o1) = batch_run(s, evs.drop_last());
        let (s2, o2) = batch_step(s1, evs.last());
        (s2, o1 + o2)
    }
}

/// The lines that the events `evs` carry, in order.
pub open spec fn lines_read(evs: Seq<WorkerEvent>) -> Seq<Seq<char>>
    decreases evs.len(),
{
    if evs.len() == 0 {
        seq![]
    } else {
        lines_read(evs.drop_last()) + match evs.last() {
            WorkerEvent::Line(l) => seq![l@],
            _ => seq![],
        }
    }
}

/// The number of ticks among `evs`.
pub open spec fn tick_count(evs: Seq<WorkerEvent>) -> nat
    decreases evs.len(),
{
    if evs.len() == 0 {
        0
    } else {
        tick_count(evs.drop_last()) + if evs.last() is Tick {
            1nat
        } else {
            0nat
        }
    }
}

/// Whether no event of `evs` is the end of output.
pub open spec fn still_open(evs: Seq<WorkerEvent>) -> bool {
    forall|i: int| 0 <= i < evs.len() ==> !(#[trigger] evs[i] is Closed)
}

/// The lines that the updates among `out` carry, in order.
pub open spec fn lines_sent(out: Seq<StdoutView>) -> Seq<Seq<char>>
    decreases out.len(),
{
    if out.len() == 0 {
        seq![]
    } else {
        lines_sent(out.drop_last()) + match out.last() {
            StdoutView::OutputUpdate(ls) => ls,
            _ => seq![],
        }
    }
}

/// The number of updates among `out`.
pub open spec fn update_count(out: Seq<StdoutView>) -> nat
    decreases out.len(),
{
    if out.len() == 0 {
        0
    } else {
        update_count(out.drop_last()) + if out.last() is OutputUpdate {
            1nat
        } else {
            0nat
        }
    }
}

/// The number of `Finished` events among `out`.
pub open spec fn finished_count(out: Seq<StdoutView>) -> nat
    decreases out.len(),
{
    if out.len() == 0 {
        0
    } else {
        finished_count(out.drop_last()) + if out.last() is Finished {
            1nat
        } else {
            0nat
        }
    }
}


proof fn lemma_sent_concat(a: Seq<StdoutView>, b: Seq<StdoutView>)
    ensures
        lines_sent(a + b) == lines_sent(a) + lines_sent(b),
        update_count(a + b) == update_count(a) + update_count(b),
        finished_count(a + b) == finished_count(a) + finished_count(b),
    decreases b.len(),
{
    if b.len() == 0 {
        assert(a + b =~= a);
        assert(lines_sent(a) + lines_sent(b) =~= lines_sent(a));
    } else {
        assert((a + b).drop_last() =~= a + b.drop_last());
        lemma_sent_concat(a, b.drop_last());
        assert((a + b).last() == b.last());
        let tail = match b.last() {
            StdoutView::OutputUpdate(ls) => ls,
            _ => seq![],
        };
        assert(lines_sent(a + b) =~= lines_sent(a) + lines_sent(b.drop_last()) + tail);
        assert(lines_sent(b) =~= lines_sent(b.drop_last()) + tail);
        assert(lines_sent(a + b) =~= lines_sent(a) + lines_sent(b));
    }
}

proof fn lemma_run_concat(s: BatcherView, a: Seq<WorkerEvent>, b: Seq<WorkerEvent>)
    ensures
        batch_run(s, a + b) == ({
            let (s1, o1) = batch_run(s, a);
            let (s2, o2) = batch_run(s1, b);
            (s2, o1 + o2)
        }),
    decreases b.len(),
{
    let (s1, o1) = batch_run(s, a);
    if b.len() == 0 {
        assert(a + b =~= a);
        assert(o1 + seq![] =~= o1);
    } else {
        assert((a + b).drop_last() =~= a + b.drop_last());
        assert((a + b).last() == b.last());
        lemma_run_concat(s, a, b.drop_last());
        let (s2, o2) = batch_run(s1, b.drop_last());
        let (s3, o3) = batch_step(s2, b.last());
        assert(o1 + o2 + o3 =~= o1 + (o2 + o3));
    }
}

proof fn lemma_done_is_silent(s: BatcherView, evs: Seq<WorkerEvent>)
    requires
        s.done,
    ensures
        batch_run(s, evs) == (s, Seq::<StdoutView>::empty()),
    decreases evs.len(),
{
    if evs.len() > 0 {
        lemma_done_is_silent(s, evs.drop_last());
        assert(Seq::<StdoutView>::empty() + Seq::<StdoutView>::empty() =~= Seq::<StdoutView>::empty());
    }
}

proof fn lemma_open_run(evs: Seq<WorkerEvent>)
    requires
        still_open(evs),
    ensures
        ({
            let (st, out) = batch_run(initial_batcher(), evs);
            &&& !st.done
            &&& lines_sent(out) + st.cache == lines_read(evs)
            &&& update_count(out) <= tick_count(evs)
            &&& update_count(out) <= lines_sent(out).len()
            &&& finished_count(out) == 0
        }),
    decreases evs.len(),
{
    if evs.len() == 0 {
        assert(lines_sent(seq![]) + seq![] =~= lines_read(evs));
    } else {
        let prev = evs.drop_last();
        assert(still_open(prev)) by {
            assert forall|i: int| 0 <= i < prev.len() implies !(#[trigger] prev[i] is Closed) by {
                assert(prev[i] == evs[i]);
            }
        }
        lemma_open_run(prev);
        let (s1, o1) = batch_run(initial_batcher(), prev);
        let (s2, o2) = batch_step(s1, evs.last());
        assert(!(evs[evs.len() - 1] is Closed));
        lemma_sent_concat(o1, o2);
        reveal_with_fuel(lines_sent, 3);
        reveal_with_fuel(update_count, 3);
        reveal_with_fuel(finished_count, 3);
        match evs.last() {
            WorkerEvent::Tick => {
                if s1.cache.len() > 0 {
                    assert(lines_sent(o2) =~= s1.cache) by {
                        assert(o2.drop_last() =~= seq![]);
                    }
                    assert(update_count(o2) == 1) by {
                        assert(o2.drop_last() =~= seq![]);
                    }
                    assert(finished_count(o2) == 0) by {
                        assert(o2.drop_last() =~= seq![]);
                    }
                    assert(lines_sent(o1 + o2) + s2.cache =~= lines_sent(o1) + s1.cache);
                } else {
                    assert(lines_sent(o1 + o2) + s2.cache =~= lines_sent(o1) + s1.cache);
                }
                assert(lines_read(evs) =~= lines_read(prev));
            },
            WorkerEvent::Line(l) => {
                assert(lines_read(evs) =~= lines_read(prev).push(l@));
                assert(lines_sent(o1 + o2) + s2.cache =~= (lines_sent(o1) + s1.cache).push(l@));
            },
            WorkerEvent::Closed => {},
        }
    }
}

/// The lines of a completed run reach the consumer whole and in order: the
/// updates sent for lines and ticks followed by the end of output carry, one
/// after another, exactly the lines read. Each update carries at least one
/// line, so there are no more updates than lines, and no more than one per
/// tick plus the final flush: when fewer ticks than lines less one occur,
/// there are fewer updates than lines. Counting the live marker sent
/// first, a stream holds at most two updates more than ticks.
pub proof fn lemma_batches_keep_lines(evs: Seq<WorkerEvent>)
    requires
        still_open(evs),
    ensures
        ({
            let out = batch_run(initial_batcher(), evs.push(WorkerEvent::Closed)).1;
            let stream = seq![live_marker_view()] + out;
            &&& lines_sent(out) == lines_read(evs)
            &&& update_count(out) <= lines_read(evs).len()
            &&& update_count(out) <= tick_count(evs) + 1
            &&& tick_count(evs) + 1 < lines_read(evs).len() ==> update_count(out)
                < lines_read(evs).len()
            &&& update_count(stream) <= tick_count(evs) + 2
            &&& tick_count(evs) + 2 < lines_read(evs).len() ==> update_count(stream)
                < lines_read(evs).len()
        }),
{
    let full = evs.push(WorkerEvent::Closed);
    assert(full.drop_last() =~= evs);
    lemma_open_run(evs);
    let (s1, o1) = batch_run(initial_batcher(), evs);
    let (s2, o2) = batch_step(s1, WorkerEvent::Closed);
    lemma_sent_concat(o1, o2);
    reveal_with_fuel(lines_sent, 3);
    reveal_with_fuel(update_count, 3);
    reveal_with_fuel(finished_count, 3);
    if s1.cache.len() == 0 {
        assert(lines_sent(o2) =~= seq![]) by {
            assert(o2.drop_last() =~= seq![]);
        }
        assert(update_count(o2) == 0) by {
            assert(o2.drop_last() =~= seq![]);
        }
        assert(lines_sent(o1) + s1.cache =~= lines_sent(o1));
        assert(lines_sent(o1 + o2) =~= lines_sent(o1));
    } else {
        assert(o2.drop_last().drop_last() =~= seq![]);
        assert(lines_sent(o2) =~= s1.cache);
        assert(update_count(o2) == 1);
    }
    let marker = seq![live_marker_view()];
    lemma_sent_concat(marker, o1 + o2);
    assert(marker.drop_last() =~= Seq::<StdoutView>::empty());
    assert(update_count(marker) == 1);
}

/// A completed run sends exactly one `Finished`, as its last event, and
/// whatever events come after the end of output send nothing more.
pub proof fn lemma_finished_once_and_last(evs: Seq<WorkerEvent>, later: Seq<WorkerEvent>)
    requires
        still_open(evs),
    ensures
        ({
            let out = batch_run(initial_batcher(), evs.push(WorkerEvent::Closed) + later).1;
            &&& finished_count(out) == 1
            &&& out.len() > 0
            &&& out.last() is Finished
        }),
{
    let full = evs.push(WorkerEvent::Closed);
    assert(full.drop_last() =~= evs);
    lemma_open_run(evs);
    let (s1, o1) = batch_run(initial_batcher(), evs);
    let (s2, o2) = batch_step(s1, WorkerEvent::Closed);
    lemma_sent_concat(o1, o2);
    reveal_with_fuel(lines_sent, 3);
    reveal_with_fuel(update_count, 3);
    reveal_with_fuel(finished_count, 3);
    if s1.cache.len() == 0 {
        assert(o2.drop_last() =~= seq![]);
    } else {
        assert(o2.drop_last().drop_last() =~= seq![]);
    }
    assert(finished_count(o2) == 1);
    lemma_run_concat(initial_batcher(), full, later);
    lemma_done_is_silent(s2, later);
    assert(o1 + o2 + Seq::<StdoutView>::empty() =~= o1 + o2);
}

impl LineBatcher {
    pub fn new() -> (r: Self)
        ensures
            r@ == initial_batcher(),
    {
        let r = LineBatcher { cache: Vec::new(), done: false };
        assert(r@.cache =~= seq![]);
        r
    }

    /// The event sent as soon as a stream is live, before any output.
    pub fn live_marker() -> (r: Stdout)
        ensures
            r@ == live_marker_view(),
    {
        let mut output: Vec<String> = Vec::new();
        output.push(String::new());
        let r = Stdout::OutputUpdate { output };
        assert(output.deep_view() =~= seq![Seq::<char>::empty()]);
        r
    }

    /// Whether the stream has ended.
    pub fn is_done(&self) -> (r: bool)
        ensures
            r == self@.done,
    {
        self.done
    }

    /// Takes one event and returns the events to send for it, in order.
    pub fn step(&mut self, event: WorkerEvent) -> (out: Vec<Stdout>)
        ensures
            (final(self)@, events_view(out@)) == batch_step(old(self)@, event),
    {
        let mut out: Vec<Stdout> = Vec::new();
        if self.done {
            assert(events_view(out@) =~= seq![]);
            return out;
        }
        match event {
            WorkerEvent::Tick => {
                if self.cache.len() > 0 {
                    let mut batch: Vec<String> = Vec::new();
                    std::mem::swap(&mut self.cache, &mut batch);
                    let ghost sent = batch.deep_view();
                    out.push(Stdout::OutputUpdate { output: batch });
                    assert(self@.cache =~= seq![]);
                    assert(events_view(out@) =~= seq![StdoutView::OutputUpdate(sent)]);
                } else {
                    assert(events_view(out@) =~= seq![]);
                }
            },
            WorkerEvent::Line(l) => {
                let ghost before = self.cache.deep_view();
                let ghost lv = l@;
                self.cache.push(l);
                assert(self.cache.deep_view() =~= before.push(lv));
                assert(events_view(out@) =~= seq![]);
            },
            WorkerEvent::Closed => {
                self.done = true;
                if self.cache.len() > 0 {
                    let mut batch: Vec<String> = Vec::new();
                    std::mem::swap(&mut self.cache, &mut batch);
                    let ghost sent = batch.deep_view();
                    out.push(Stdout::OutputUpdate { output: batch });
                    out.push(Stdout::Finished);
                    assert(events_view(out@) =~= seq![
                        StdoutView::OutputUpdate(sent),
                        StdoutView::Finished,
                    ]);
                } else {
                    out.push(Stdout::Finished);
                    assert(events_view(out@) =~= seq![StdoutView::Finished]);
                }
                assert(self@.cache =~= seq![]);
            },
        }
        out
    }
}

} // verus!
