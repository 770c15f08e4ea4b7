//! Lightweight Prometheus-compatible counters.

use crate::text::{decimal, digits};
use crate::time::{elapsed_seconds, Timestamp};
use vstd::prelude::*;
use vstd::string::*;

verus! {

/// The counters of one server process. Each wraps around at its width.
#[derive(Debug, Clone, Copy, PartialEq, Eq, Structural)]
pub struct Metrics {
    pub sessions_active: u64,
    pub sessions_total: u64,
    pub requests_total: u64,
    pub request_errors: u64,
    pub start_time: Timestamp,
}

/// One more, around the end of the range.
pub open spec fn bumped(n: u64) -> u64 {
    if n == u64::MAX {
        0
    } else {
        (n + 1) as u64
    }
}

/// One less, around the end of the range.
pub open spec fn dropped(n: u64) -> u64 {
    if n == 0 {
        u64::MAX
    } else {
        (n - 1) as u64
    }
}

/// A step that a counter counts.
pub ghost enum Counted {
    SessionActive,
    SessionInactive,
    SessionCreated,
    Request,
    Failure,
}

/// The counters after a step.
pub open spec fn counted(m: Metrics, step: Counted) -> Metrics {
    match step {
        Counted::SessionActive => Metrics { sessions_active: bumped(m.sessions_active), ..m },
        Counted::SessionInactive => Metrics { sessions_active: dropped(m.sessions_active), ..m },
        Counted::SessionCreated => Metrics { sessions_total: bumped(m.sessions_total), ..m },
        Counted::Request => Metrics { requests_total: bumped(m.requests_total), ..m },
        Counted::Failure => Metrics { request_errors: bumped(m.request_errors), ..m },
    }
}

/// The counters of a process that started at `start`, after some steps.
pub open spec fn counted_since(start: Timestamp, steps: Seq<Counted>) -> Metrics
    decreases steps.len(),
{
    if steps.len() == 0 {
        Metrics {
            sessions_active: 0,
            sessions_total: 0,
            requests_total: 0,
            request_errors: 0,
            start_time: start,
        }
    } else {
        counted(counted_since(start, steps.drop_last()), steps.last())
    }
}

fn bump(n: u64) -> (r: u64)
    ensures
        r == bumped(n),
{
    if n == u64::MAX {
        0
    } else {
        n + 1
    }
}

/// Fresh counters for a process that started at `now`.
pub fn metrics(now: Timestamp) -> (m: Metrics)
    ensures
        m == counted_since(now, Seq::empty()),
{
    Metrics {
        sessions_active: 0,
        sessions_total: 0,
        requests_total: 0,
        request_errors: 0,
        start_time: now,
    }
}

/// One more active session.
pub fn session_active_inc(m: &mut Metrics)
    ensures
        *final(m) == counted(*old(m), Counted::SessionActive),
{
    m.sessions_active = bump(m.sessions_active);
}

/// One active session less.
pub fn session_active_dec(m: &mut Metrics)
    ensures
        *final(m) == counted(*old(m), Counted::SessionInactive),
{
    m.sessions_active = if m.sessions_active == 0 {
        u64::MAX
    } else {
        m.sessions_active - 1
    };
}

/// One more session created.
pub fn session_total_inc(m: &mut Metrics)
    ensures
        *final(m) == counted(*old(m), Counted::SessionCreated),
{
    m.sessions_total = bump(m.sessions_total);
}

/// One more HTTP request.
pub fn request_inc(m: &mut Metrics)
    ensures
        *final(m) == counted(*old(m), Counted::Request),
{
    m.requests_total = bump(m.requests_total);
}

/// One more failed request.
pub fn error_inc(m: &mut Metrics)
    ensures
        *final(m) == counted(*old(m), Counted::Failure),
{
    m.request_errors = bump(m.request_errors);
}

/// Count a finished request by its status: server errors are failures.
pub fn response_seen(m: &mut Metrics, status: u16)
    ensures
        *final(m) == if 500 <= status < 600 {
            counted(*old(m), Counted::Failure)
        } else {
            *old(m)
        },
{
    if status >= 500 && status < 600 {
        error_inc(m);
    }
}

/// Seconds since the process started.
pub fn uptime_seconds(m: &Metrics, now: Timestamp) -> (r: u64)
    ensures
        r == elapsed_seconds(m.start_time, now),
{
    now.seconds_since(&m.start_time)
}

/// The lines of one metric.
pub open spec fn metric_lines(
    name: Seq<char>,
    help: Seq<char>,
    kind: Seq<char>,
    value: nat,
) -> Seq<Seq<char>> {
    seq![
        "# HELP "@ + name + " "@ + help,
        "# TYPE "@ + name + " "@ + kind,
        name + " "@ + digits(value),
    ]
}

/// The lines of the exposition, by what is counted.
pub open spec fn exposition(active: nat, total: nat, requests: nat, errors: nat, uptime: nat) -> Seq<
    Seq<char>,
> {
    metric_lines("persea_sessions_active"@, "Current active sessions"@, "gauge"@, active)
        + metric_lines("persea_sessions_total"@, "Total sessions created"@, "counter"@, total)
        + metric_lines("persea_requests_total"@, "Total HTTP requests"@, "counter"@, requests)
        + metric_lines(
        "persea_errors_total"@,
        "Total request errors (5xx responses)"@,
        "counter"@,
        errors,
    ) + metric_lines("persea_uptime_seconds"@, "Server uptime in seconds"@, "gauge"@, uptime)
}

/// A text of lines, each with its end.
pub open spec fn ended_lines(lines: Seq<Seq<char>>) -> Seq<char>
    decreases lines.len(),
{
    if lines.len() == 0 {
        Seq::empty()
    } else {
        ended_lines(lines.drop_last()) + lines.last() + "\n"@
    }
}

/// The text exposition of the counters.
pub open spec fn prometheus_text(m: Metrics, now: Timestamp) -> Seq<char> {
    ended_lines(
        exposition(
            m.sessions_active as nat,
            m.sessions_total as nat,
            m.requests_total as nat,
            m.request_errors as nat,
            elapsed_seconds(m.start_time, now),
        ),
    )
}

proof fn lemma_ended_lines(a: Seq<Seq<char>>, b: Seq<Seq<char>>)
    ensures
        ended_lines(a + b) == ended_lines(a) + ended_lines(b),
    decreases b.len(),
{
    if b.len() == 0 {
        assert(a + b =~= a);
        assert(ended_lines(a) + ended_lines(b) =~= ended_lines(a));
    } else {
        assert((a + b).drop_last() =~= a + b.drop_last());
        lemma_ended_lines(a, b.drop_last());
        assert(ended_lines(a + b) =~= ended_lines(a) + ended_lines(b));
    }
}

/// Write the lines of one metric behind those that are there.
fn push_metric(
    out: &mut String,
    Ghost(lines): Ghost<Seq<Seq<char>>>,
    name: &str,
    help: &str,
    kind: &str,
    value: u64,
)
    requires
        old(out)@ == ended_lines(lines),
    ensures
        final(out)@ == ended_lines(lines + metric_lines(name@, help@, kind@, value as nat)),
{
    out.append("# HELP ");
    out.append(name);
    out.append(" ");
    out.append(help);
    out.append("\n");
    out.append("# TYPE ");
    out.append(name);
    out.append(" ");
    out.append(kind);
    out.append("\n");
    out.append(name);
    out.append(" ");
    out.append(decimal(value).as_str());
    out.append("\n");
    proof {
        let own = metric_lines(name@, help@, kind@, value as nat);
        lemma_ended_lines(lines, own);
        assert(own.drop_last() =~= seq![own[0], own[1]]);
        assert(own.drop_last().drop_last() =~= seq![own[0]]);
        assert(own.drop_last().drop_last().drop_last() =~= Seq::empty());
        reveal_with_fuel(ended_lines, 4);
        assert(out@ =~= ended_lines(lines) + ended_lines(own));
    }
}

/// The text exposition of the counters.
pub fn render_prometheus(m: &Metrics, now: Timestamp) -> (r: String)
    ensures
        r@ == prometheus_text(*m, now),
{
    let mut out = String::new();
    let ghost none = Seq::<Seq<char>>::empty();
    let up: u64 = uptime_seconds(m, now);
    let ghost a = metric_lines(
        "persea_sessions_active"@,
        "Current active sessions"@,
        "gauge"@,
        m.sessions_active as nat,
    );
    let ghost b = metric_lines(
        "persea_sessions_total"@,
        "Total sessions created"@,
        "counter"@,
        m.sessions_total as nat,
    );
    let ghost c = metric_lines(
        "persea_requests_total"@,
        "Total HTTP requests"@,
        "counter"@,
        m.requests_total as nat,
    );
    let ghost d = metric_lines(
        "persea_errors_total"@,
        "Total request errors (5xx responses)"@,
        "counter"@,
        m.request_errors as nat,
    );
    proof {
        assert(out@ =~= ended_lines(none));
        assert(none + a =~= a);
    }
    push_metric(
        &mut out,
        Ghost(none),
        "persea_sessions_active",
        "Current active sessions",
        "gauge",
        m.sessions_active,
    );
    push_metric(
        &mut out,
        Ghost(a),
        "persea_sessions_total",
        "Total sessions created",
        "counter",
        m.sessions_total,
    );
    push_metric(
        &mut out,
        Ghost(a + b),
        "persea_requests_total",
        "Total HTTP requests",
        "counter",
        m.requests_total,
    );
    push_metric(
        &mut out,
        Ghost(a + b + c),
        "persea_errors_total",
        "Total request errors (5xx responses)",
        "counter",
        m.request_errors,
    );
    push_metric(
        &mut out,
        Ghost(a + b + c + d),
        "persea_uptime_seconds",
        "Server uptime in seconds",
        "gauge",
        up,
    );
    out
}

// ── What the counters count ──
/// How often a step was made.
pub open spec fn times(steps: Seq<Counted>, step: Counted) -> nat
    decreases steps.len(),
{
    if steps.len() == 0 {
        0
    } else {
        times(steps.drop_last(), step) + if steps.last() == step {
            1nat
        } else {
            0nat
        }
    }
}

/// Each counter holds the number of its steps, around the end of its range.
proof fn lemma_counted(start: Timestamp, steps: Seq<Counted>)
    ensures
        ({
            let m = counted_since(start, steps);
            let width = 0x1_0000_0000_0000_0000int;
            &&& m.start_time == start
            &&& m.sessions_active == (times(steps, Counted::SessionActive) - times(
                steps,
                Counted::SessionInactive,
            )) % width
            &&& m.sessions_total == times(steps, Counted::SessionCreated) as int % width
            &&& m.requests_total == times(steps, Counted::Request) as int % width
            &&& m.request_errors == times(steps, Counted::Failure) as int % width
        }),
    decreases steps.len(),
{
    if steps.len() > 0 {
        lemma_counted(start, steps.drop_last());
    }
}

/// The exposition shows how many sessions became active and did not stop being
/// so, how many were created, how many requests and failures there were, and
/// how long the process has run: fifteen lines, three for each. A number that
/// its counter cannot hold is shown from the end of the range on.
pub proof fn law_exposition_shows_the_counts(start: Timestamp, steps: Seq<Counted>, now: Timestamp)
    ensures
        ({
            let active = times(steps, Counted::SessionActive) - times(
                steps,
                Counted::SessionInactive,
            );
            let total = times(steps, Counted::SessionCreated);
            let requests = times(steps, Counted::Request);
            let errors = times(steps, Counted::Failure);
            let up = elapsed_seconds(start, now);
            let width = 0x1_0000_0000_0000_0000int;
            &&& 0 <= active < width && total < width && requests < width && errors < width
                ==> prometheus_text(counted_since(start, steps), now) == ended_lines(
                exposition(active as nat, total, requests, errors, up),
            )
            &&& prometheus_text(counted_since(start, steps), now) == ended_lines(
                exposition(
                    (active % width) as nat,
                    (total as int % width) as nat,
                    (requests as int % width) as nat,
                    (errors as int % width) as nat,
                    up,
                ),
            )
            &&& exposition(active as nat, total, requests, errors, up).len() == 15
        }),
{
    lemma_counted(start, steps);
}

/// A session that becomes active and ends leaves the gauge where it was.
pub proof fn law_active_gauge_returns(n: u64)
    ensures
        dropped(bumped(n)) == n,
        bumped(dropped(n)) == n,
{
}

} // verus!
