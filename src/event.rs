use vstd::prelude::*;

verus! {

/// A lane of the timeline: a priority level, or the fixed lane of instrumentation
/// messages (labelled "4" by viewers).
#[derive(Clone, Copy, Debug, PartialEq, Eq, Structural)]
pub enum Lane {
    Priority(u32),
    Instrumentation,
}

/// The scope of an instant event.
#[derive(Clone, Copy, Debug, PartialEq, Eq, Structural)]
pub enum InstantEventType {
    Global,
    Process,
    Thread,
}

/// An event of the timeline. `ts` is the elapsed time in clock ticks since tracing
/// began; a viewer's milliseconds are `ts * 1000 / clock_hz`.
#[derive(Clone, Debug)]
pub enum TraceEvent {
    DurationEventBegin {
        pid: usize,
        tid: Lane,
        ts: u64,
        name: String,
        args: Option<Vec<(String, String)>>,
    },
    DurationEventEnd { pid: usize, tid: Lane, ts: u64, name: String },
    CompleteEvent { pid: usize, tid: usize, ts: u64, dur: u64, name: String },
    InstantEvent { pid: usize, tid: Lane, ts: u64, name: String, s: InstantEventType },
}

/// The mathematical value of a [`TraceEvent`].
pub enum EventModel {
    Begin {
        pid: usize,
        tid: Lane,
        ts: u64,
        name: Seq<char>,
        args: Option<Seq<(Seq<char>, Seq<char>)>>,
    },
    End { pid: usize, tid: Lane, ts: u64, name: Seq<char> },
    Complete { pid: usize, tid: usize, ts: u64, dur: u64, name: Seq<char> },
    Instant { pid: usize, tid: Lane, ts: u64, name: Seq<char>, s: InstantEventType },
}

pub open spec fn args_view(args: Option<Vec<(String, String)>>) -> Option<
    Seq<(Seq<char>, Seq<char>)>,
> {
    match args {
        Some(v) => Some(v@.map_values(|kv: (String, String)| (kv.0@, kv.1@))),
        None => None,
    }
}

impl View for TraceEvent {
    type V = EventModel;

    open spec fn view(&self) -> EventModel {
        match self {
            TraceEvent::DurationEventBegin { pid, tid, ts, name, args } => EventModel::Begin {
                pid: *pid,
                tid: *tid,
                ts: *ts,
                name: name@,
                args: args_view(*args),
            },
            TraceEvent::DurationEventEnd { pid, tid, ts, name } => EventModel::End {
                pid: *pid,
                tid: *tid,
                ts: *ts,
                name: name@,
            },
            TraceEvent::CompleteEvent { pid, tid, ts, dur, name } => EventModel::Complete {
                pid: *pid,
                tid: *tid,
                ts: *ts,
                dur: *dur,
                name: name@,
            },
            TraceEvent::InstantEvent { pid, tid, ts, name, s } => EventModel::Instant {
                pid: *pid,
                tid: *tid,
                ts: *ts,
                name: name@,
                s: *s,
            },
        }
    }
}

/// The view of an event sequence.
pub open spec fn events_view(v: Seq<TraceEvent>) -> Seq<EventModel> {
    v.map_values(|e: TraceEvent| e@)
}

/// The text that lossy UTF-8 decoding gives for `bytes`.
pub uninterp spec fn utf8_lossy(bytes: Seq<u8>) -> Seq<char>;

/// Relies on `String::from_utf8_lossy`: its result is a function of the bytes alone.
#[verifier::external_body]
pub(crate) fn decode_lossy(bytes: &Vec<u8>) -> (r: String)
    ensures
        r@ == utf8_lossy(bytes@),
{
    String::from_utf8_lossy(bytes.as_slice()).into_owned()
}

} // verus!
