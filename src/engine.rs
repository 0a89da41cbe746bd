//! One supervised invocation of the tool: both output streams framed through
//! one shared seen-set, the inactivity watchdog, and the terminal result.
//!
//! The caller runs the process and its readers; every byte, end of stream and
//! watchdog tick is handed to an `Invocation`, which decides what is published.
//! `complete` and `time_out` consume the invocation, so exactly one completion
//! event exists for it and no line event can follow that one.

use crate::lines::{
    candidates, closed_segments, dedup, is_boundary, line_text, offered, pending, seen_after,
    stream_lines, LineSplitter, SeenLines,
};
use crate::models::{OperationCompleteEvent, OperationOutputEvent};
use crate::text::{chars_of, concat_strs, string_of};
use vstd::prelude::*;

verus! {

/// Silence longer than this, in milliseconds, ends the invocation.
pub const INACTIVITY_TIMEOUT_MS: u64 = 30000;

/// Period of the watchdog's poll, in milliseconds.
pub const POLL_INTERVAL_MS: u64 = 1000;

/// The stream a byte came from.
#[derive(Debug, Clone, Copy, PartialEq, Eq, Structural)]
pub enum Origin {
    Stdout,
    Stderr,
}

/// The watchdog's decision on one poll.
#[derive(Debug, Clone, Copy, PartialEq, Eq, Structural)]
pub enum WatchAction {
    /// Nothing to do before the next poll.
    Wait,
    /// The process exited, successfully or not.
    Finish(bool),
    /// The process has been silent too long: terminate it.
    Kill,
}

/// The state of an invocation, as the contracts speak of it.
pub ghost struct InvocationView {
    pub operation_id: Seq<char>,
    pub stdout_pending: Seq<u8>,
    pub stderr_pending: Seq<u8>,
    pub seen: Set<Seq<char>>,
    pub stdout_lines: Seq<Seq<char>>,
    pub stderr_lines: Seq<Seq<char>>,
    pub last_activity: int,
}

/// The state of an invocation that has just started at time `now`.
pub open spec fn fresh(operation_id: Seq<char>, now: int) -> InvocationView {
    InvocationView {
        operation_id,
        stdout_pending: Seq::empty(),
        stderr_pending: Seq::empty(),
        seen: Set::empty(),
        stdout_lines: Seq::empty(),
        stderr_lines: Seq::empty(),
        last_activity: now,
    }
}

pub open spec fn pending_of(v: InvocationView, origin: Origin) -> Seq<u8> {
    match origin {
        Origin::Stdout => v.stdout_pending,
        Origin::Stderr => v.stderr_pending,
    }
}

pub open spec fn lines_of(v: InvocationView, origin: Origin) -> Seq<Seq<char>> {
    match origin {
        Origin::Stdout => v.stdout_lines,
        Origin::Stderr => v.stderr_lines,
    }
}

/// `v` with the stream `origin` given the pending bytes `pend`, and `line`, if any, captured.
pub open spec fn with_stream(
    v: InvocationView,
    origin: Origin,
    pend: Seq<u8>,
    line: Option<Seq<char>>,
) -> InvocationView {
    let lines = match line {
        Some(t) => lines_of(v, origin).push(t),
        None => lines_of(v, origin),
    };
    match origin {
        Origin::Stdout => InvocationView { stdout_pending: pend, stdout_lines: lines, ..v },
        Origin::Stderr => InvocationView { stderr_pending: pend, stderr_lines: lines, ..v },
    }
}

/// The line that byte `b` on stream `origin` publishes, if any.
pub open spec fn published(v: InvocationView, origin: Origin, b: u8) -> Option<Seq<char>> {
    if is_boundary(b) {
        offered(v.seen, pending_of(v, origin))
    } else {
        None
    }
}

/// The state after byte `b` arrives on stream `origin` at time `now`.
pub open spec fn after_byte(v: InvocationView, origin: Origin, b: u8, now: int) -> InvocationView {
    let pend = pending_of(v, origin);
    let v1 = InvocationView {
        seen: if is_boundary(b) {
            seen_after(v.seen, pend)
        } else {
            v.seen
        },
        last_activity: if now > v.last_activity {
            now
        } else {
            v.last_activity
        },
        ..v
    };
    with_stream(
        v1,
        origin,
        if is_boundary(b) {
            Seq::empty()
        } else {
            pend.push(b)
        },
        published(v, origin, b),
    )
}

/// The line that the end of stream `origin` publishes, if any.
pub open spec fn flushed(v: InvocationView, origin: Origin) -> Option<Seq<char>> {
    offered(v.seen, pending_of(v, origin))
}

/// The state after stream `origin` ends.
pub open spec fn after_end(v: InvocationView, origin: Origin) -> InvocationView {
    let v1 = InvocationView { seen: seen_after(v.seen, pending_of(v, origin)), ..v };
    with_stream(v1, origin, Seq::empty(), flushed(v, origin))
}

/// True when the watchdog finds the invocation silent for too long at time `now`.
pub open spec fn stalled(v: InvocationView, now: int) -> bool {
    now - v.last_activity > INACTIVITY_TIMEOUT_MS
}

/// The watchdog's decision, given whether and how the process exited.
pub open spec fn decide(v: InvocationView, exited: Option<bool>, now: int) -> WatchAction {
    match exited {
        Some(ok) => WatchAction::Finish(ok),
        None => if stalled(v, now) {
            WatchAction::Kill
        } else {
            WatchAction::Wait
        },
    }
}

/// Lines joined with line feeds.
pub open spec fn joined(lines: Seq<Seq<char>>) -> Seq<char>
    decreases lines.len(),
{
    if lines.len() == 0 {
        Seq::empty()
    } else if lines.len() == 1 {
        lines[0]
    } else {
        joined(lines.drop_last()) + seq!['\n'] + lines.last()
    }
}

/// The error text of an invocation whose process failed.
pub open spec fn failure_message(stderr: Seq<char>) -> Seq<char> {
    "Antumbra process failed: "@ + stderr
}

/// The error text of an invocation ended by the watchdog.
pub open spec fn timeout_message() -> Seq<char> {
    "Antumbra process timed out after 30s without output"@
}

/// `r` is the event for `line` published on stream `origin` of invocation `id`.
pub open spec fn is_event_for(
    r: Option<OperationOutputEvent>,
    id: Seq<char>,
    line: Option<Seq<char>>,
    origin: Origin,
    timestamp: Seq<char>,
) -> bool {
    match line {
        Some(t) => r is Some && {
            let e = r->Some_0;
            &&& e.line@ == t
            &&& e.operation_id@ == id
            &&& e.is_stderr == (origin == Origin::Stderr)
            &&& e.timestamp@ == timestamp
        },
        None => r is None,
    }
}

/// Joins lines with line feeds.
pub fn join_lines(lines: &Vec<String>) -> (r: String)
    ensures
        r@ == joined(lines@.map_values(|s: String| s@)),
{
    let ghost views = lines@.map_values(|s: String| s@);
    let mut out: Vec<char> = Vec::new();
    let mut i: usize = 0;
    while i < lines.len()
        invariant
            i <= lines.len(),
            views == lines@.map_values(|s: String| s@),
            out@ == joined(views.subrange(0, i as int)),
        decreases lines.len() - i,
    {
        let chars = chars_of(lines[i].as_str());
        let ghost before = out@;
        if i > 0 {
            out.push('\n');
        }
        let mut k: usize = 0;
        let ghost base = out@;
        while k < chars.len()
            invariant
                k <= chars.len(),
                out@ == base + chars@.subrange(0, k as int),
            decreases chars.len() - k,
        {
            out.push(chars[k]);
            k = k + 1;
            assert(out@ =~= base + chars@.subrange(0, k as int));
        }
        proof {
            let next = views.subrange(0, i + 1);
            assert(next.drop_last() =~= views.subrange(0, i as int));
            assert(chars@.subrange(0, chars.len() as int) =~= chars@);
            assert(next.last() == lines@[i as int]@);
            if i == 0 {
                assert(out@ =~= next[0]);
            } else {
                assert(out@ =~= before + seq!['\n'] + next.last());
            }
        }
        i = i + 1;
    }
    assert(views.subrange(0, lines.len() as int) =~= views);
    string_of(&out)
}

/// Relies on `std::time::SystemTime::now`: milliseconds since the Unix epoch
/// (0 for a clock set before it). Nothing is promised of the value.
#[verifier::external_body]
pub(crate) fn now_millis() -> (r: u64) {
    std::time::SystemTime::now().duration_since(std::time::UNIX_EPOCH).unwrap_or_default().as_millis() as u64
}

/// Relies on chrono's `DateTime::from_timestamp_millis`, which gives `None`
/// outside chrono's range, and `DateTime::to_rfc3339`: a time in milliseconds
/// since the Unix epoch as RFC 3339 text. Nothing is promised of the text.
#[verifier::external_body]
fn rfc3339_from_millis(millis: u64) -> (r: Option<String>) {
    match chrono::DateTime::from_timestamp_millis(millis as i64) {
        Some(t) => Some(t.to_rfc3339()),
        None => None,
    }
}

/// The current time as RFC 3339 text; empty for a clock outside chrono's range.
pub(crate) fn now_rfc3339() -> (r: String) {
    match rfc3339_from_millis(now_millis()) {
        Some(t) => t,
        None => String::new(),
    }
}

/// One invocation of the tool, from spawn to its single completion.
pub struct Invocation {
    operation_id: String,
    seen: SeenLines,
    stdout: LineSplitter,
    stderr: LineSplitter,
    stdout_lines: Vec<String>,
    stderr_lines: Vec<String>,
    last_activity: u64,
}

impl View for Invocation {
    type V = InvocationView;

    closed spec fn view(&self) -> InvocationView {
        InvocationView {
            operation_id: self.operation_id@,
            stdout_pending: self.stdout@,
            stderr_pending: self.stderr@,
            seen: self.seen@,
            stdout_lines: self.stdout_lines@.map_values(|s: String| s@),
            stderr_lines: self.stderr_lines@.map_values(|s: String| s@),
            last_activity: self.last_activity as int,
        }
    }
}

impl Invocation {
    /// Starts an invocation at time `now`, with nothing seen yet.
    pub fn new(operation_id: String, now: u64) -> (r: Invocation)
        ensures
            r@ == fresh(operation_id@, now as int),
    {
        let r = Invocation {
            operation_id,
            seen: SeenLines::new(),
            stdout: LineSplitter::new(),
            stderr: LineSplitter::new(),
            stdout_lines: Vec::new(),
            stderr_lines: Vec::new(),
            last_activity: now,
        };
        assert(r.stdout_lines@.map_values(|s: String| s@) =~= Seq::<Seq<char>>::empty());
        assert(r.stderr_lines@.map_values(|s: String| s@) =~= Seq::<Seq<char>>::empty());
        r
    }

    /// Starts an invocation now, with nothing seen yet.
    pub fn start(operation_id: String) -> (r: Invocation)
        ensures
            exists|now: int| r@ == #[trigger] fresh(operation_id@, now),
    {
        let now = now_millis();
        let r = Invocation::new(operation_id, now);
        assert(r@ == fresh(operation_id@, now as int));
        r
    }

    /// Takes byte `b` of stream `origin` as it arrives, stamped with the
    /// current time.
    pub fn receive(&mut self, origin: Origin, b: u8) -> (r: Option<OperationOutputEvent>)
        ensures
            exists|now: int| final(self)@ == #[trigger] after_byte(old(self)@, origin, b, now),
            published(old(self)@, origin, b) is None <==> r is None,
            r is Some ==> {
                &&& r->Some_0.line@ == published(old(self)@, origin, b)->Some_0
                &&& r->Some_0.operation_id@ == old(self)@.operation_id
                &&& r->Some_0.is_stderr == (origin == Origin::Stderr)
            },
    {
        let now = now_millis();
        let r = self.on_byte(origin, b, now, now_rfc3339());
        assert(final(self)@ == after_byte(old(self)@, origin, b, now as int));
        r
    }

    /// Ends stream `origin` as it happens, stamping its last line with the
    /// current time.
    pub fn end_stream(&mut self, origin: Origin) -> (r: Option<OperationOutputEvent>)
        ensures
            final(self)@ == after_end(old(self)@, origin),
            flushed(old(self)@, origin) is None <==> r is None,
            r is Some ==> {
                &&& r->Some_0.line@ == flushed(old(self)@, origin)->Some_0
                &&& r->Some_0.operation_id@ == old(self)@.operation_id
                &&& r->Some_0.is_stderr == (origin == Origin::Stderr)
            },
    {
        self.on_end(origin, now_rfc3339())
    }

    /// The watchdog's decision now.
    pub fn poll_now(&self, exited: Option<bool>) -> (r: WatchAction)
        ensures
            exists|now: int| r == #[trigger] decide(self@, exited, now),
    {
        let now = now_millis();
        let r = self.poll(exited, now);
        assert(r == decide(self@, exited, now as int));
        r
    }

    pub fn operation_id(&self) -> (r: &String)
        ensures
            r@ == self@.operation_id,
    {
        &self.operation_id
    }

    pub fn last_activity(&self) -> (r: u64)
        ensures
            r == self@.last_activity,
    {
        self.last_activity
    }

    /// True when both streams have been flushed.
    pub fn is_drained(&self) -> (r: bool)
        ensures
            r == (self@.stdout_pending.len() == 0 && self@.stderr_pending.len() == 0),
    {
        self.stdout.is_empty() && self.stderr.is_empty()
    }

    /// Captures `line`, if any, on stream `origin` and builds its event.
    fn publish(&mut self, origin: Origin, line: Option<String>, timestamp: String) -> (r: Option<
        OperationOutputEvent,
    >)
        ensures
            final(self)@ == with_stream(
                old(self)@,
                origin,
                pending_of(old(self)@, origin),
                match line {
                    Some(s) => Some(s@),
                    None => None,
                },
            ),
            is_event_for(
                r,
                old(self)@.operation_id,
                match line {
                    Some(s) => Some(s@),
                    None => None,
                },
                origin,
                timestamp@,
            ),
    {
        match line {
            Some(l) => {
                let ghost out0 = self.stdout_lines@;
                let ghost err0 = self.stderr_lines@;
                match origin {
                    Origin::Stdout => {
                        self.stdout_lines.push(l.clone());
                        assert(self.stdout_lines@.map_values(|s: String| s@) =~= out0.map_values(
                            |s: String| s@,
                        ).push(l@));
                    },
                    Origin::Stderr => {
                        self.stderr_lines.push(l.clone());
                        assert(self.stderr_lines@.map_values(|s: String| s@) =~= err0.map_values(
                            |s: String| s@,
                        ).push(l@));
                    },
                }
                Some(
                    OperationOutputEvent {
                        operation_id: self.operation_id.clone(),
                        line: l,
                        timestamp,
                        is_stderr: origin == Origin::Stderr,
                    },
                )
            },
            None => None,
        }
    }

    /// Takes byte `b` of stream `origin`, received at time `now`; returns the
    /// event to publish, if the byte completed a new line.
    pub fn on_byte(&mut self, origin: Origin, b: u8, now: u64, timestamp: String) -> (r: Option<
        OperationOutputEvent,
    >)
        ensures
            final(self)@ == after_byte(old(self)@, origin, b, now as int),
            is_event_for(
                r,
                old(self)@.operation_id,
                published(old(self)@, origin, b),
                origin,
                timestamp@,
            ),
    {
        if now > self.last_activity {
            self.last_activity = now;
        }
        let line = match origin {
            Origin::Stdout => self.stdout.push_byte(b, &mut self.seen),
            Origin::Stderr => self.stderr.push_byte(b, &mut self.seen),
        };
        self.publish(origin, line, timestamp)
    }

    /// Ends stream `origin` (end of file or a read error): its trailing partial
    /// line is offered like a closed one.
    pub fn on_end(&mut self, origin: Origin, timestamp: String) -> (r: Option<OperationOutputEvent>)
        ensures
            final(self)@ == after_end(old(self)@, origin),
            is_event_for(r, old(self)@.operation_id, flushed(old(self)@, origin), origin, timestamp@),
    {
        let line = match origin {
            Origin::Stdout => self.stdout.finish(&mut self.seen),
            Origin::Stderr => self.stderr.finish(&mut self.seen),
        };
        self.publish(origin, line, timestamp)
    }

    /// The watchdog's decision at time `now`; `exited` is the exit status if
    /// the process has exited.
    pub fn poll(&self, exited: Option<bool>, now: u64) -> (r: WatchAction)
        ensures
            r == decide(self@, exited, now as int),
    {
        match exited {
            Some(ok) => WatchAction::Finish(ok),
            None => if now > self.last_activity && now - self.last_activity > INACTIVITY_TIMEOUT_MS {
                WatchAction::Kill
            } else {
                WatchAction::Wait
            },
        }
    }

    /// Ends a drained invocation whose process exited: the completion event and
    /// the caller's result, the captured stdout lines or the captured stderr lines.
    pub fn complete(self, exit_success: bool) -> (r: (OperationCompleteEvent, Result<String, String>))
        requires
            self@.stdout_pending.len() == 0,
            self@.stderr_pending.len() == 0,
        ensures
            r.0.operation_id@ == self@.operation_id,
            r.0.success == exit_success,
            exit_success ==> {
                &&& r.0.error is None
                &&& r.1 is Ok
                &&& r.1->Ok_0@ == joined(self@.stdout_lines)
            },
            !exit_success ==> {
                &&& r.0.error is Some
                &&& r.0.error->Some_0@ == joined(self@.stderr_lines)
                &&& r.1 is Err
                &&& r.1->Err_0@ == failure_message(joined(self@.stderr_lines))
            },
    {
        let stdout_text = join_lines(&self.stdout_lines);
        let stderr_text = join_lines(&self.stderr_lines);
        if exit_success {
            let event = OperationCompleteEvent {
                operation_id: self.operation_id,
                success: true,
                error: None,
            };
            (event, Ok(stdout_text))
        } else {
            let message = concat_strs("Antumbra process failed: ", stderr_text.as_str());
            let event = OperationCompleteEvent {
                operation_id: self.operation_id,
                success: false,
                error: Some(stderr_text),
            };
            (event, Err(message))
        }
    }

    /// Ends an invocation that could not be supervised to its end (its
    /// streams could not be taken, or its exit could not be awaited).
    pub fn fail(self, message: String) -> (r: (OperationCompleteEvent, String))
        ensures
            r.0.operation_id@ == self@.operation_id,
            !r.0.success,
            r.0.error is Some,
            r.0.error->Some_0@ == message@,
            r.1@ == message@,
    {
        let event = OperationCompleteEvent {
            operation_id: self.operation_id,
            success: false,
            error: Some(message.clone()),
        };
        (event, message)
    }

    /// Ends an invocation whose process the watchdog terminated.
    pub fn time_out(self) -> (r: (OperationCompleteEvent, String))
        ensures
            r.0.operation_id@ == self@.operation_id,
            !r.0.success,
            r.0.error is Some,
            r.0.error->Some_0@ == timeout_message(),
            r.1@ == timeout_message(),
    {
        let message = string_of(&chars_of("Antumbra process timed out after 30s without output"));
        let event = OperationCompleteEvent {
            operation_id: self.operation_id,
            success: false,
            error: Some(message.clone()),
        };
        (event, message)
    }
}

/// What happens to an invocation, in the order it happens.
pub enum StreamEvent {
    /// A byte of a stream, received at a time in milliseconds.
    Byte { origin: Origin, byte: u8, at: u64 },
    /// The end of a stream.
    End { origin: Origin },
    /// A watchdog poll at a time in milliseconds.
    Tick { at: u64 },
}

pub open spec fn step(v: InvocationView, e: StreamEvent) -> InvocationView {
    match e {
        StreamEvent::Byte { origin, byte, at } => after_byte(v, origin, byte, at as int),
        StreamEvent::End { origin } => after_end(v, origin),
        StreamEvent::Tick { .. } => v,
    }
}

/// The state after the events `evs`, starting from `v`.
pub open spec fn run(v: InvocationView, evs: Seq<StreamEvent>) -> InvocationView
    decreases evs.len(),
{
    if evs.len() == 0 {
        v
    } else {
        step(run(v, evs.drop_last()), evs.last())
    }
}

/// The time of a byte event.
pub open spec fn byte_time(e: StreamEvent) -> Option<int> {
    match e {
        StreamEvent::Byte { at, .. } => Some(at as int),
        _ => None,
    }
}

/// The time of a poll.
pub open spec fn tick_time(e: StreamEvent) -> Option<int> {
    match e {
        StreamEvent::Tick { at } => Some(at as int),
        _ => None,
    }
}

/// Two invocations with different operation ids, fed the same output by the
/// same deterministic process, capture and publish the same lines: each
/// seen-set starts empty and depends only on its own invocation's bytes, and
/// each state carries its own operation id.
pub proof fn lemma_invocations_independent(
    a: Seq<char>,
    b: Seq<char>,
    t0: int,
    evs: Seq<StreamEvent>,
)
    ensures
        run(fresh(a, t0), evs) == (InvocationView { operation_id: a, ..run(fresh(b, t0), evs) }),
        run(fresh(a, t0), evs).seen == run(fresh(b, t0), evs).seen,
        run(fresh(a, t0), evs).operation_id == a,
        run(fresh(b, t0), evs).operation_id == b,
    decreases evs.len(),
{
    if evs.len() > 0 {
        lemma_invocations_independent(a, b, t0, evs.drop_last());
    }
}

proof fn lemma_activity_bounds(v: InvocationView, evs: Seq<StreamEvent>, bound: int)
    ensures
        run(v, evs).last_activity >= v.last_activity,
        forall|j: int|
            0 <= j < evs.len() && #[trigger] byte_time(evs[j]) is Some ==> run(v, evs).last_activity
                >= byte_time(evs[j])->Some_0,
        (v.last_activity <= bound && forall|j: int|
            0 <= j < evs.len() && #[trigger] byte_time(evs[j]) is Some ==> byte_time(evs[j])->Some_0
                <= bound) ==> run(v, evs).last_activity <= bound,
    decreases evs.len(),
{
    if evs.len() > 0 {
        let p = evs.drop_last();
        lemma_activity_bounds(v, p, bound);
        assert forall|j: int|
            0 <= j < evs.len() && #[trigger] byte_time(evs[j]) is Some implies run(
                v,
                evs,
            ).last_activity >= byte_time(evs[j])->Some_0 by {
            if j < p.len() {
                assert(byte_time(p[j]) == byte_time(evs[j]));
            }
        }
        if v.last_activity <= bound && forall|j: int|
            0 <= j < evs.len() && #[trigger] byte_time(evs[j]) is Some ==> byte_time(evs[j])->Some_0
                <= bound {
            assert forall|j: int|
                0 <= j < p.len() && #[trigger] byte_time(p[j]) is Some implies byte_time(
                    p[j],
                )->Some_0 <= bound by {
                assert(p[j] == evs[j]);
            }
            assert(byte_time(evs[evs.len() - 1]) == byte_time(evs.last()));
        }
    }
}

/// A process silent for longer than the threshold is terminated: when every
/// byte so far, and the start, lie more than the threshold before `now`, the
/// watchdog's decision at `now` is to kill it (and `time_out` then gives the
/// timeout failure).
pub proof fn lemma_silence_is_killed(v: InvocationView, evs: Seq<StreamEvent>, now: int)
    requires
        v.last_activity + INACTIVITY_TIMEOUT_MS < now,
        forall|j: int|
            0 <= j < evs.len() && #[trigger] byte_time(evs[j]) is Some ==> byte_time(evs[j])->Some_0
                + INACTIVITY_TIMEOUT_MS < now,
    ensures
        decide(run(v, evs), None, now) == WatchAction::Kill,
{
    lemma_activity_bounds(v, evs, now - INACTIVITY_TIMEOUT_MS - 1);
}

/// A process that produces a byte within the threshold before every poll is
/// never terminated, however long it runs in all.
pub proof fn lemma_steady_output_is_never_killed(v: InvocationView, evs: Seq<StreamEvent>)
    requires
        forall|k: int|
            0 <= k < evs.len() && #[trigger] tick_time(evs[k]) is Some ==> (v.last_activity
                >= tick_time(evs[k])->Some_0 - INACTIVITY_TIMEOUT_MS || exists|j: int|
                0 <= j < k && #[trigger] byte_time(evs[j]) is Some && byte_time(evs[j])->Some_0
                    >= tick_time(evs[k])->Some_0 - INACTIVITY_TIMEOUT_MS),
    ensures
        forall|k: int|
            0 <= k < evs.len() && #[trigger] tick_time(evs[k]) is Some ==> decide(
                run(v, evs.take(k)),
                None,
                tick_time(evs[k])->Some_0,
            ) != WatchAction::Kill,
{
    assert forall|k: int|
        0 <= k < evs.len() && #[trigger] tick_time(evs[k]) is Some implies decide(
            run(v, evs.take(k)),
            None,
            tick_time(evs[k])->Some_0,
        ) != WatchAction::Kill by {
        let pre = evs.take(k);
        lemma_activity_bounds(v, pre, 0);
        if v.last_activity < tick_time(evs[k])->Some_0 - INACTIVITY_TIMEOUT_MS {
            let j = choose|j: int|
                0 <= j < k && #[trigger] byte_time(evs[j]) is Some && byte_time(evs[j])->Some_0
                    >= tick_time(evs[k])->Some_0 - INACTIVITY_TIMEOUT_MS;
            assert(pre[j] == evs[j]);
            assert(byte_time(pre[j]) is Some);
        }
    }
}

/// The other stream.
pub open spec fn other_origin(origin: Origin) -> Origin {
    match origin {
        Origin::Stdout => Origin::Stderr,
        Origin::Stderr => Origin::Stdout,
    }
}

/// The bytes of one stream arriving, each at time `at`.
pub open spec fn byte_events(origin: Origin, bytes: Seq<u8>, at: u64) -> Seq<StreamEvent> {
    Seq::new(bytes.len(), |i: int| StreamEvent::Byte { origin, byte: bytes[i], at })
}

proof fn lemma_run_bytes(id: Seq<char>, t0: int, origin: Origin, bytes: Seq<u8>, at: u64)
    ensures
        ({
            let v = run(fresh(id, t0), byte_events(origin, bytes, at));
            &&& pending_of(v, origin) == pending(bytes)
            &&& v.seen == candidates(closed_segments(bytes)).to_set()
            &&& lines_of(v, origin) == dedup(candidates(closed_segments(bytes)))
            &&& pending_of(v, other_origin(origin)) == Seq::<u8>::empty()
            &&& lines_of(v, other_origin(origin)) == Seq::<Seq<char>>::empty()
            &&& v.operation_id == id
        }),
    decreases bytes.len(),
{
    let evs = byte_events(origin, bytes, at);
    if bytes.len() == 0 {
        assert(evs =~= Seq::<StreamEvent>::empty());
        assert(candidates(Seq::<Seq<u8>>::empty()).to_set() =~= Set::<Seq<char>>::empty());
    } else {
        let p = bytes.drop_last();
        lemma_run_bytes(id, t0, origin, p, at);
        assert(evs.drop_last() =~= byte_events(origin, p, at));
        assert(evs.last() == StreamEvent::Byte { origin, byte: bytes.last(), at });
        let v0 = run(fresh(id, t0), byte_events(origin, p, at));
        let segs = closed_segments(p);
        let pend = pending(p);
        if is_boundary(bytes.last()) {
            crate::lines::lemma_candidates_push(segs, pend);
            match line_text(pend) {
                Some(t) => {
                    crate::lines::lemma_dedup_push(candidates(segs), t);
                    candidates(segs).lemma_push_to_set_commute(t);
                },
                None => {},
            }
        }
        assert(run(fresh(id, t0), evs) == after_byte(v0, origin, bytes.last(), at as int));
    }
}

/// An invocation fed the bytes of one stream, then the ends of both streams,
/// has captured on that stream exactly the lines the stream publishes, and
/// nothing on the other; both streams are drained. With `complete`, a
/// successful process of this kind returns those lines joined by line feeds.
pub proof fn lemma_invocation_captures_stream_lines(
    id: Seq<char>,
    t0: int,
    origin: Origin,
    bytes: Seq<u8>,
    at: u64,
)
    ensures
        ({
            let evs = byte_events(origin, bytes, at).push(StreamEvent::End { origin }).push(
                StreamEvent::End { origin: other_origin(origin) },
            );
            let v = run(fresh(id, t0), evs);
            &&& lines_of(v, origin) == stream_lines(bytes)
            &&& lines_of(v, other_origin(origin)) == Seq::<Seq<char>>::empty()
            &&& v.stdout_pending.len() == 0
            &&& v.stderr_pending.len() == 0
            &&& v.operation_id == id
        }),
{
    lemma_run_bytes(id, t0, origin, bytes, at);
    let e1 = byte_events(origin, bytes, at).push(StreamEvent::End { origin });
    let evs = e1.push(StreamEvent::End { origin: other_origin(origin) });
    assert(evs.drop_last() =~= e1);
    assert(e1.drop_last() =~= byte_events(origin, bytes, at));
    let v0 = run(fresh(id, t0), byte_events(origin, bytes, at));
    let segs = closed_segments(bytes);
    let pend = pending(bytes);
    crate::lines::lemma_candidates_push(segs, pend);
    match line_text(pend) {
        Some(t) => {
            crate::lines::lemma_dedup_push(candidates(segs), t);
        },
        None => {},
    }
    let v1 = after_end(v0, origin);
    assert(run(fresh(id, t0), e1) == v1);
    assert(lines_of(v1, origin) == stream_lines(bytes));
    let o = other_origin(origin);
    assert(pending_of(v1, o) == Seq::<u8>::empty());
    assert(offered(v1.seen, Seq::<u8>::empty()) is None) by {
        assert(vstd::utf8::decode_utf8(Seq::<u8>::empty()) == Seq::<char>::empty());
    }
    assert(run(fresh(id, t0), evs) == after_end(v1, o));
}

} // verus!
