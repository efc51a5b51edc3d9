use vstd::prelude::*;
use std::collections::VecDeque;
use crate::coalesce::{coalesce, coalesce_into};
use crate::device::{Device, isr_label, isr_name};
use crate::event::{
    EventModel, InstantEventType, Lane, TraceEvent, decode_lossy, events_view, utf8_lossy,
};
use crate::packet::{
    ExceptionAction, ExceptionType, PacketModel, TimeStamp, TimestampRelation, TracePacket,
    TracePackets, packets_view,
};

verus! {

/// The process id of every event: the traced device.
pub const PID: usize = 1;

/// The priority of the lane that holds the main program.
pub const MAIN_PRIORITY: u32 = 999;

/// The address of the first interrupt priority register.
pub const PRIORITY_BASE: u64 = 0xE000_E400;

/// Exception numbers below this one are system exceptions.
pub const FIRST_EXTERNAL: u32 = 16;

/// Why a tracer could not be made or a batch could not be applied.
#[derive(Clone, Copy, Debug, PartialEq, Eq, Structural)]
pub enum TraceError {
    /// A read from the session failed.
    Io,
    /// The configuration is unusable (a clock of zero hertz).
    Config,
}

pub open spec fn main_name() -> Seq<char> {
    seq!['M', 'a', 'i', 'n']
}

pub open spec fn description_key() -> Seq<char> {
    seq!['d', 'e', 's', 'c', 'r', 'i', 'p', 't', 'i', 'o', 'n']
}

pub open spec fn is_main_begin(e: EventModel) -> bool {
    e is Begin && e->Begin_tid == Lane::Priority(MAIN_PRIORITY) && e->Begin_name == main_name()
}

pub open spec fn is_main_end(e: EventModel) -> bool {
    e is End && e->End_tid == Lane::Priority(MAIN_PRIORITY) && e->End_name == main_name()
}

/// Whether the main lane is open after `evs`: its last begin or end is a begin.
pub open spec fn main_open_after(evs: Seq<EventModel>) -> bool
    decreases evs.len(),
{
    if evs.len() == 0 {
        false
    } else if is_main_begin(evs.last()) {
        true
    } else if is_main_end(evs.last()) {
        false
    } else {
        main_open_after(evs.drop_last())
    }
}

/// Every end of the main lane in `evs` comes while the main lane is open.
pub open spec fn main_well_nested(evs: Seq<EventModel>) -> bool
    decreases evs.len(),
{
    if evs.len() == 0 {
        true
    } else {
        main_well_nested(evs.drop_last()) && (is_main_end(evs.last()) ==> main_open_after(
            evs.drop_last(),
        ))
    }
}

/// Whether `p` makes the interpreter read an interrupt priority register.
pub open spec fn needs_register(p: PacketModel) -> bool {
    match p {
        PacketModel::ExceptionTrace { exception: ExceptionType::ExternalInterrupt(n), .. } => n
            >= FIRST_EXTERNAL,
        _ => false,
    }
}

/// The interrupt number of an exception number from 16 on.
pub open spec fn irq_of(p: PacketModel) -> u32 {
    (p->ExceptionTrace_exception->ExternalInterrupt_0 - FIRST_EXTERNAL) as u32
}

/// The byte address of the priority of interrupt `irq`: four priorities to a word.
pub open spec fn priority_address(irq: u32) -> u64 {
    (PRIORITY_BASE + 4 * (irq / 4) + 3 - (irq % 4)) as u64
}

/// The priority registers that interpreting `ps` reads, in order.
pub open spec fn register_addresses(ps: Seq<PacketModel>) -> Seq<u64>
    decreases ps.len(),
{
    if ps.len() == 0 {
        Seq::empty()
    } else if needs_register(ps.last()) {
        register_addresses(ps.drop_last()).push(priority_address(irq_of(ps.last())))
    } else {
        register_addresses(ps.drop_last())
    }
}

pub open spec fn main_begin(ts: u64) -> EventModel {
    EventModel::Begin {
        pid: PID,
        tid: Lane::Priority(MAIN_PRIORITY),
        ts,
        name: main_name(),
        args: None,
    }
}

pub open spec fn main_end(ts: u64) -> EventModel {
    EventModel::End { pid: PID, tid: Lane::Priority(MAIN_PRIORITY), ts, name: main_name() }
}

pub open spec fn description_args(d: Option<Seq<char>>) -> Seq<(Seq<char>, Seq<char>)> {
    match d {
        Some(d) => seq![(description_key(), d)],
        None => Seq::empty(),
    }
}

/// The events that packet `p` produces at elapsed time `ts`, and whether the main lane
/// is open afterwards; `prio` is the priority read for it where it needs one.
pub open spec fn step(
    p: PacketModel,
    prio: u8,
    ts: u64,
    device: Option<Device>,
    open: bool,
) -> (Seq<EventModel>, bool) {
    match p {
        PacketModel::ExceptionTrace { exception, action } => match exception {
            ExceptionType::ExternalInterrupt(n) => {
                if n == 0 {
                    if action == ExceptionAction::Entered {
                        (seq![main_begin(ts)], true)
                    } else {
                        (Seq::empty(), open)
                    }
                } else if n < FIRST_EXTERNAL {
                    (Seq::empty(), open)
                } else {
                    let label = isr_label(device, (n - FIRST_EXTERNAL) as u32);
                    let lane = Lane::Priority(prio as u32);
                    match action {
                        ExceptionAction::Entered => (
                            (if open {
                                seq![main_end(ts)]
                            } else {
                                Seq::empty()
                            }) + seq![
                                EventModel::Begin {
                                    pid: PID,
                                    tid: lane,
                                    ts,
                                    name: label.0,
                                    args: Some(description_args(label.1)),
                                },
                            ],
                            false,
                        ),
                        ExceptionAction::Exited => (
                            seq![EventModel::End { pid: PID, tid: lane, ts, name: label.0 }],
                            open,
                        ),
                        ExceptionAction::Returned => (Seq::empty(), open),
                    }
                }
            },
            _ => (Seq::empty(), open),
        },
        PacketModel::Instrumentation { payload, .. } => (
            seq![
                EventModel::Instant {
                    pid: PID,
                    tid: Lane::Instrumentation,
                    ts,
                    name: utf8_lossy(payload),
                    s: InstantEventType::Global,
                },
            ],
            open,
        ),
        _ => (Seq::empty(), open),
    }
}

/// The events that the packets `ps` of one batch produce at elapsed time `ts`, and
/// whether the main lane is open afterwards; `prios` holds the priorities read, in the
/// order of [`register_addresses`].
pub open spec fn interpret(
    ps: Seq<PacketModel>,
    prios: Seq<u8>,
    ts: u64,
    device: Option<Device>,
    open: bool,
) -> (Seq<EventModel>, bool)
    decreases ps.len(),
{
    if ps.len() == 0 {
        (Seq::empty(), open)
    } else {
        let before = interpret(ps.drop_last(), prios, ts, device, open);
        let k = register_addresses(ps.drop_last()).len();
        let prio = if needs_register(ps.last()) {
            prios[k as int]
        } else {
            0
        };
        let after = step(ps.last(), prio, ts, device, before.1);
        (before.0 + after.0, after.1)
    }
}

/// Elapsed ticks after `ticks` more, held at the largest value rather than wrapping.
pub open spec fn advance(elapsed: u64, ticks: u64) -> u64 {
    if elapsed + ticks > u64::MAX {
        u64::MAX
    } else {
        (elapsed + ticks) as u64
    }
}

/// The mathematical value of a [`TracePackets`] batch.
pub struct BatchModel {
    pub packets: Seq<PacketModel>,
    pub timestamp: TimeStamp,
}

pub open spec fn batch_view(b: TracePackets) -> BatchModel {
    BatchModel { packets: packets_view(b.packets@), timestamp: b.timestamp }
}

/// The abstract state of a tracer.
pub struct TracerModel {
    pub pending: Seq<PacketModel>,
    pub queue: Seq<BatchModel>,
    pub events: Seq<EventModel>,
    pub elapsed: u64,
    pub last_timestamp: TimeStamp,
    pub main_open: bool,
    pub clock_hz: u64,
    pub device: Option<Device>,
}

/// The reconstruction pipeline: coalesces packets, batches them by timestamp, and
/// interprets each batch into timeline events.
pub struct Tracer {
    packets: VecDeque<TracePackets>,
    bundled_packets: Vec<TracePacket>,
    events: Vec<TraceEvent>,
    timestamp: u64,
    last_timestamp: TimeStamp,
    main_open: bool,
    clock_hz: u64,
    device: Option<Device>,
}

/// The state after packet `p` is routed: a local timestamp closes the pending packets
/// into a queued batch and becomes the last timestamp; any other packet is coalesced.
pub open spec fn route(m: TracerModel, p: PacketModel) -> TracerModel {
    match p {
        PacketModel::LocalTimestamp { ts, data_relation } => TracerModel {
            pending: Seq::empty(),
            queue: m.queue.push(
                BatchModel { packets: m.pending, timestamp: TimeStamp { tc: data_relation, ts } },
            ),
            last_timestamp: TimeStamp { tc: data_relation, ts },
            ..m
        },
        _ => TracerModel { pending: coalesce(m.pending, p), ..m },
    }
}

/// The state after each of `ps` is routed in turn.
pub open spec fn route_all(m: TracerModel, ps: Seq<PacketModel>) -> TracerModel
    decreases ps.len(),
{
    if ps.len() == 0 {
        m
    } else {
        route(route_all(m, ps.drop_last()), ps.last())
    }
}

impl View for Tracer {
    type V = TracerModel;

    closed spec fn view(&self) -> TracerModel {
        TracerModel {
            pending: packets_view(self.bundled_packets@),
            queue: self.packets@.map_values(|b: TracePackets| batch_view(b)),
            events: events_view(self.events@),
            elapsed: self.timestamp,
            last_timestamp: self.last_timestamp,
            main_open: self.main_open,
            clock_hz: self.clock_hz,
            device: self.device,
        }
    }
}

impl TracerModel {
    /// A positive clock, a well-nested main lane, and `main_open` telling whether the
    /// main lane is open.
    pub open spec fn wf(self) -> bool {
        &&& self.clock_hz > 0
        &&& main_well_nested(self.events)
        &&& self.main_open == main_open_after(self.events)
    }
}

proof fn lemma_push_event(evs: Seq<EventModel>, e: EventModel)
    ensures
        main_open_after(evs.push(e)) == (if is_main_begin(e) {
            true
        } else if is_main_end(e) {
            false
        } else {
            main_open_after(evs)
        }),
        main_well_nested(evs.push(e)) == (main_well_nested(evs) && (is_main_end(e)
            ==> main_open_after(evs))),
{
    assert(evs.push(e).drop_last() =~= evs);
}

/// Interpreting one packet keeps the main lane well nested and `open` accurate.
proof fn lemma_step_nested(
    evs: Seq<EventModel>,
    p: PacketModel,
    prio: u8,
    ts: u64,
    device: Option<Device>,
    open: bool,
)
    requires
        main_well_nested(evs),
        main_open_after(evs) == open,
    ensures
        main_well_nested(evs + step(p, prio, ts, device, open).0),
        main_open_after(evs + step(p, prio, ts, device, open).0) == step(
            p,
            prio,
            ts,
            device,
            open,
        ).1,
{
    let r = step(p, prio, ts, device, open);
    assert(prio as u32 != MAIN_PRIORITY);
    if r.0.len() == 0 {
        assert(evs + r.0 =~= evs);
    } else if r.0.len() == 1 {
        assert(evs + r.0 =~= evs.push(r.0[0]));
        lemma_push_event(evs, r.0[0]);
    } else {
        assert(r.0.len() == 2);
        assert(evs + r.0 =~= evs.push(r.0[0]).push(r.0[1]));
        lemma_push_event(evs, r.0[0]);
        lemma_push_event(evs.push(r.0[0]), r.0[1]);
    }
}

impl Tracer {
    fn push_event(&mut self, e: TraceEvent)
        ensures
            final(self).events@ == old(self).events@.push(e),
            events_view(final(self).events@) == events_view(old(self).events@).push(e@),
            final(self).packets == old(self).packets,
            final(self).bundled_packets == old(self).bundled_packets,
            final(self).timestamp == old(self).timestamp,
            final(self).last_timestamp == old(self).last_timestamp,
            final(self).main_open == old(self).main_open,
            final(self).clock_hz == old(self).clock_hz,
            final(self).device == old(self).device,
    {
        self.events.push(e);
        proof {
            assert(events_view(self.events@) =~= events_view(old(self).events@).push(e@));
        }
    }

    /// Appends the events of one packet at elapsed time `ts`.
    fn interpret_packet(&mut self, p: &TracePacket, prio: u8, ts: u64)
        ensures
            events_view(final(self).events@) == events_view(old(self).events@) + step(
                p@,
                prio,
                ts,
                old(self).device,
                old(self).main_open,
            ).0,
            final(self).main_open == step(p@, prio, ts, old(self).device, old(self).main_open).1,
            final(self).packets == old(self).packets,
            final(self).bundled_packets == old(self).bundled_packets,
            final(self).timestamp == old(self).timestamp,
            final(self).last_timestamp == old(self).last_timestamp,
            final(self).clock_hz == old(self).clock_hz,
            final(self).device == old(self).device,
    {
        let ghost before = events_view(self.events@);
        let ghost r = step(p@, prio, ts, self.device, self.main_open);
        match p {
            TracePacket::ExceptionTrace { exception, action } => match exception {
                ExceptionType::ExternalInterrupt(n) => {
                    let n = *n;
                    if n == 0 {
                        if *action == ExceptionAction::Entered {
                            let name = "Main".to_owned();
                            proof {
                                reveal_strlit("Main");
                                assert(name@ =~= main_name());
                            }
                            self.push_event(
                                TraceEvent::DurationEventBegin {
                                    pid: PID,
                                    tid: Lane::Priority(MAIN_PRIORITY),
                                    ts,
                                    name,
                                    args: None,
                                },
                            );
                            self.main_open = true;
                            proof {
                                assert(events_view(self.events@) =~= before + r.0);
                            }
                        } else {
                            proof {
                                assert(events_view(self.events@) =~= before + r.0);
                            }
                        }
                    } else if n < FIRST_EXTERNAL {
                        proof {
                            assert(events_view(self.events@) =~= before + r.0);
                        }
                    } else {
                        let (name, description) = isr_name(&self.device, n - FIRST_EXTERNAL);
                        let lane = Lane::Priority(prio as u32);
                        match action {
                            ExceptionAction::Entered => {
                                if self.main_open {
                                    let main = "Main".to_owned();
                                    proof {
                                        reveal_strlit("Main");
                                        assert(main@ =~= main_name());
                                    }
                                    self.push_event(
                                        TraceEvent::DurationEventEnd {
                                            pid: PID,
                                            tid: Lane::Priority(MAIN_PRIORITY),
                                            ts,
                                            name: main,
                                        },
                                    );
                                }
                                let args = match description {
                                    Some(d) => {
                                        let key = "description".to_owned();
                                        proof {
                                            reveal_strlit("description");
                                            assert(key@ =~= description_key());
                                        }
                                        let v = vec![(key, d)];
                                        proof {
                                            assert(v@.map_values(
                                                |kv: (String, String)| (kv.0@, kv.1@),
                                            ) =~= seq![(description_key(), d@)]);
                                        }
                                        v
                                    },
                                    None => {
                                        let v: Vec<(String, String)> = Vec::new();
                                        proof {
                                            assert(v@.map_values(
                                                |kv: (String, String)| (kv.0@, kv.1@),
                                            ) =~= Seq::<(Seq<char>, Seq<char>)>::empty());
                                        }
                                        v
                                    },
                                };
                                self.push_event(
                                    TraceEvent::DurationEventBegin {
                                        pid: PID,
                                        tid: lane,
                                        ts,
                                        name,
                                        args: Some(args),
                                    },
                                );
                                self.main_open = false;
                                proof {
                                    assert(events_view(self.events@) =~= before + r.0);
                                }
                            },
                            ExceptionAction::Exited => {
                                self.push_event(
                                    TraceEvent::DurationEventEnd { pid: PID, tid: lane, ts, name },
                                );
                                proof {
                                    assert(events_view(self.events@) =~= before + r.0);
                                }
                            },
                            ExceptionAction::Returned => {
                                proof {
                                    assert(events_view(self.events@) =~= before + r.0);
                                }
                            },
                        }
                    }
                },
                _ => {
                    proof {
                        assert(events_view(self.events@) =~= before + r.0);
                    }
                },
            },
            TracePacket::Instrumentation { port: _, payload } => {
                let name = decode_lossy(payload);
                self.push_event(
                    TraceEvent::InstantEvent {
                        pid: PID,
                        tid: Lane::Instrumentation,
                        ts,
                        name,
                        s: InstantEventType::Global,
                    },
                );
                proof {
                    assert(events_view(self.events@) =~= before + r.0);
                }
            },
            _ => {
                proof {
                    assert(events_view(self.events@) =~= before + r.0);
                }
            },
        }
    }
}

proof fn lemma_register_prefix(ps: Seq<PacketModel>, i: int)
    requires
        0 <= i <= ps.len(),
    ensures
        register_addresses(ps.take(i)).len() <= register_addresses(ps).len(),
    decreases ps.len(),
{
    if i == ps.len() {
        assert(ps.take(i) =~= ps);
    } else {
        lemma_register_prefix(ps.drop_last(), i);
        assert(ps.drop_last().take(i) =~= ps.take(i));
    }
}

/// The priority registers that interpreting `packets` reads, in order: one for each
/// exception-trace packet of an exception number from 16 on.
pub fn priority_registers(packets: &Vec<TracePacket>) -> (r: Vec<u64>)
    ensures
        r@ == register_addresses(packets_view(packets@)),
{
    let ghost ps = packets_view(packets@);
    let mut r: Vec<u64> = Vec::new();
    let mut i: usize = 0;
    while i < packets.len()
        invariant
            ps == packets_view(packets@),
            0 <= i <= packets@.len(),
            r@ == register_addresses(ps.take(i as int)),
        decreases packets@.len() - i,
    {
        proof {
            assert(ps.take(i + 1).drop_last() =~= ps.take(i as int));
            assert(ps.take(i + 1).last() == packets@[i as int]@);
        }
        if let TracePacket::ExceptionTrace { exception: ExceptionType::ExternalInterrupt(n), .. } =
            &packets[i] {
            if *n >= FIRST_EXTERNAL {
                let irq: u32 = *n - FIRST_EXTERNAL;
                let address: u64 = PRIORITY_BASE + (irq / 4) as u64 * 4 + 3 - (irq % 4) as u64;
                r.push(address);
            }
        }
        i += 1;
    }
    proof {
        assert(ps.take(i as int) =~= ps);
    }
    r
}

impl Tracer {
    /// A tracer with nothing pending, no events and no elapsed time, for a core clock of
    /// `clock_hz` and an optional device description; a clock of zero is refused.
    pub fn new(clock_hz: u64, device: Option<Device>) -> (r: Result<Tracer, TraceError>)
        ensures
            clock_hz == 0 ==> r == Err::<Tracer, TraceError>(TraceError::Config),
            clock_hz > 0 ==> r is Ok,
            r matches Ok(t) ==> t@.wf() && t@ == (TracerModel {
                pending: Seq::empty(),
                queue: Seq::empty(),
                events: Seq::empty(),
                elapsed: 0,
                last_timestamp: TimeStamp { tc: TimestampRelation::Sync, ts: 0 },
                main_open: false,
                clock_hz,
                device,
            }),
    {
        if clock_hz == 0 {
            return Err(TraceError::Config);
        }
        let t = Tracer {
            packets: VecDeque::new(),
            bundled_packets: Vec::new(),
            events: Vec::new(),
            timestamp: 0,
            last_timestamp: TimeStamp { tc: TimestampRelation::Sync, ts: 0 },
            main_open: false,
            clock_hz,
            device,
        };
        proof {
            assert(t@.pending =~= Seq::empty());
            assert(t@.queue =~= Seq::empty());
            assert(t@.events =~= Seq::empty());
        }
        Ok(t)
    }

    /// Stores a non-timestamp packet among the pending ones, merging an instrumentation
    /// packet into a pending one of the same port at the tail.
    pub fn emit(&mut self, packet: TracePacket)
        ensures
            final(self)@ == (TracerModel { pending: coalesce(old(self)@.pending, packet@), ..old(self)@ }),
    {
        coalesce_into(&mut self.bundled_packets, packet);
    }

    /// Closes the pending packets into a batch with `timestamp` and queues it.
    pub fn timestamp(&mut self, timestamp: TimeStamp)
        ensures
            final(self)@ == (TracerModel {
                pending: Seq::empty(),
                queue: old(self)@.queue.push(
                    BatchModel { packets: old(self)@.pending, timestamp },
                ),
                last_timestamp: timestamp,
                ..old(self)@
            }),
    {
        let mut packets: Vec<TracePacket> = Vec::new();
        std::mem::swap(&mut packets, &mut self.bundled_packets);
        let batch = TracePackets { packets, timestamp };
        self.packets.push_back(batch);
        self.last_timestamp = timestamp;
        proof {
            assert(self@.pending =~= Seq::empty());
            assert(self@.queue =~= old(self)@.queue.push(
                BatchModel { packets: old(self)@.pending, timestamp },
            ));
        }
    }

    /// Routes a decoded packet: a local timestamp closes the pending packets into a
    /// batch; any other packet is coalesced among the pending ones.
    pub fn push_packet(&mut self, packet: TracePacket)
        ensures
            final(self)@ == route(old(self)@, packet@),
    {
        match packet {
            TracePacket::LocalTimestamp { ts, data_relation } => {
                self.timestamp(TimeStamp { tc: data_relation, ts });
            },
            p => self.emit(p),
        }
    }

    /// Routes the packets decoded in one cycle, in decode order.
    pub fn poll(&mut self, packets: Vec<TracePacket>)
        ensures
            final(self)@ == route_all(old(self)@, packets_view(packets@)),
    {
        let ghost orig = packets@;
        let ghost ps = packets_view(orig);
        let mut rest = packets;
        let total = rest.len();
        let mut i: usize = 0;
        while rest.len() > 0
            invariant
                ps == packets_view(orig),
                0 <= i <= orig.len(),
                rest@ == orig.skip(i as int),
                i + rest@.len() == orig.len(),
                orig.len() == total,
                self@ == route_all(old(self)@, ps.take(i as int)),
            decreases rest@.len(),
        {
            let p = rest.remove(0);
            proof {
                assert(p == orig[i as int]);
                assert(ps.take(i + 1).drop_last() =~= ps.take(i as int));
                assert(ps.take(i + 1).last() == orig[i as int]@);
                assert(rest@ =~= orig.skip(i + 1));
            }
            self.push_packet(p);
            i += 1;
        }
        proof {
            assert(i == orig.len());
            assert(ps.take(i as int) =~= ps);
        }
    }

    /// Takes the oldest queued batch, if any.
    pub fn next_batch(&mut self) -> (r: Option<TracePackets>)
        ensures
            old(self)@.queue.len() == 0 ==> r is None && final(self)@ == old(self)@,
            old(self)@.queue.len() > 0 ==> (r matches Some(b) && batch_view(b) == old(self)@.queue[0]
                && final(self)@ == (TracerModel { queue: old(self)@.queue.drop_first(), ..old(self)@ })),
    {
        let r = self.packets.pop_front();
        proof {
            if old(self)@.queue.len() > 0 {
                assert(self@.queue =~= old(self)@.queue.drop_first());
            }
        }
        r
    }
}

impl Tracer {
    /// Interprets one batch. `priorities` holds the values read, in order, from the
    /// registers that [`priority_registers`] lists for the batch; where it is shorter (a
    /// read failed) the batch is dropped and nothing else changes. Otherwise the elapsed
    /// time advances by the batch's ticks and the batch's events are appended, each
    /// stamped with the new elapsed time.
    pub fn process_batch(&mut self, batch: TracePackets, priorities: &Vec<u8>) -> (r: Result<
        (),
        TraceError,
    >)
        requires
            old(self)@.wf(),
        ensures
            final(self)@.wf(),
            r is Err <==> priorities@.len() < register_addresses(batch_view(batch).packets).len(),
            r is Err ==> r == Err::<(), TraceError>(TraceError::Io) && final(self)@ == old(self)@,
            r is Ok ==> ({
                let elapsed = advance(old(self)@.elapsed, batch.timestamp.ts);
                let out = interpret(
                    batch_view(batch).packets,
                    priorities@,
                    elapsed,
                    old(self)@.device,
                    old(self)@.main_open,
                );
                final(self)@ == (TracerModel {
                    events: old(self)@.events + out.0,
                    elapsed,
                    main_open: out.1,
                    ..old(self)@
                })
            }),
    {
        let ghost ps = batch_view(batch).packets;
        let needed = priority_registers(&batch.packets).len();
        if priorities.len() < needed {
            return Err(TraceError::Io);
        }
        let ticks = batch.timestamp.ts;
        let elapsed = if self.timestamp > u64::MAX - ticks {
            u64::MAX
        } else {
            self.timestamp + ticks
        };
        self.timestamp = elapsed;
        let ghost start = self@;
        let mut i: usize = 0;
        let mut k: usize = 0;
        while i < batch.packets.len()
            invariant
                ps == packets_view(batch.packets@),
                needed == register_addresses(ps).len(),
                needed <= priorities@.len(),
                0 <= i <= ps.len(),
                k == register_addresses(ps.take(i as int)).len(),
                self@.wf(),
                self@ == (TracerModel {
                    events: start.events + interpret(
                        ps.take(i as int),
                        priorities@,
                        elapsed,
                        start.device,
                        start.main_open,
                    ).0,
                    main_open: interpret(
                        ps.take(i as int),
                        priorities@,
                        elapsed,
                        start.device,
                        start.main_open,
                    ).1,
                    ..start
                }),
            decreases ps.len() - i,
        {
            let ghost pre = ps.take(i as int);
            proof {
                assert(ps.take(i + 1).drop_last() =~= pre);
                assert(ps.take(i + 1).last() == ps[i as int]);
                lemma_register_prefix(ps, i + 1);
            }
            let p = &batch.packets[i];
            let ghost k_old = k;
            let mut prio: u8 = 0;
            if let TracePacket::ExceptionTrace { exception: ExceptionType::ExternalInterrupt(n), .. } = p {
                if *n >= FIRST_EXTERNAL {
                    prio = priorities[k];
                    k += 1;
                }
            }
            let ghost events_before = self@.events;
            proof {
                lemma_step_nested(events_before, p@, prio, elapsed, self.device, self.main_open);
            }
            self.interpret_packet(p, prio, elapsed);
            proof {
                let prev = interpret(pre, priorities@, elapsed, start.device, start.main_open);
                let cur = interpret(ps.take(i + 1), priorities@, elapsed, start.device, start.main_open);
                assert(needs_register(ps[i as int]) ==> prio == priorities@[k_old as int]);
                assert(cur.0 == prev.0 + step(p@, prio, elapsed, start.device, prev.1).0);
                assert(self@.events =~= start.events + cur.0);
            }
            i += 1;
        }
        proof {
            assert(ps.take(i as int) =~= ps);
        }
        Ok(())
    }

    /// The events appended so far, in order.
    pub fn events(&self) -> (r: &Vec<TraceEvent>)
        ensures
            events_view(r@) == self@.events,
    {
        &self.events
    }

    /// The elapsed time in clock ticks.
    pub fn elapsed_ticks(&self) -> (r: u64)
        ensures
            r == self@.elapsed,
    {
        self.timestamp
    }

    /// The core clock frequency in hertz.
    pub fn clock_hz(&self) -> (r: u64)
        ensures
            r == self@.clock_hz,
    {
        self.clock_hz
    }

    /// The packets not yet closed into a batch.
    pub fn pending(&self) -> (r: &Vec<TracePacket>)
        ensures
            packets_view(r@) == self@.pending,
    {
        &self.bundled_packets
    }

    /// How many batches wait to be interpreted.
    pub fn queued_batches(&self) -> (r: usize)
        ensures
            r == self@.queue.len(),
    {
        self.packets.len()
    }

    /// The timestamp of the most recent batch.
    pub fn last_timestamp(&self) -> (r: TimeStamp)
        ensures
            r == self@.last_timestamp,
    {
        self.last_timestamp
    }
}

/// The elapsed ticks after batches of `ticks` ticks each, in order, from `start`.
pub open spec fn elapsed_after(start: u64, ticks: Seq<u64>) -> u64
    decreases ticks.len(),
{
    if ticks.len() == 0 {
        start
    } else {
        advance(elapsed_after(start, ticks.drop_last()), ticks.last())
    }
}

/// Elapsed time never goes back: over any sequence of batches, the elapsed ticks after
/// the first `i` batches are at most those after the first `j >= i`, and so are the
/// whole milliseconds at any positive clock frequency.
pub proof fn lemma_elapsed_monotone(start: u64, ticks: Seq<u64>, i: int, j: int, clock_hz: u64)
    requires
        0 <= i <= j <= ticks.len(),
        clock_hz > 0,
    ensures
        elapsed_after(start, ticks.take(i)) <= elapsed_after(start, ticks.take(j)),
        elapsed_after(start, ticks.take(i)) * 1000 / (clock_hz as int) <= elapsed_after(
            start,
            ticks.take(j),
        ) * 1000 / (clock_hz as int),
    decreases j - i,
{
    if j > i {
        lemma_elapsed_monotone(start, ticks, i, j - 1, clock_hz);
        assert(ticks.take(j).drop_last() =~= ticks.take(j - 1));
    }
    let a = elapsed_after(start, ticks.take(i));
    let b = elapsed_after(start, ticks.take(j));
    assert(a * 1000 <= b * 1000) by (nonlinear_arith)
        requires
            a <= b,
    ;
    vstd::arithmetic::div_mod::lemma_div_is_ordered(a * 1000, b * 1000, clock_hz as int);
}

proof fn lemma_open_has_begin(evs: Seq<EventModel>)
    requires
        main_open_after(evs),
    ensures
        exists|j: int|
            0 <= j < evs.len() && is_main_begin(#[trigger] evs[j]) && forall|k: int|
                j < k < evs.len() ==> !is_main_end(#[trigger] evs[k]),
    decreases evs.len(),
{
    let n = evs.len() - 1;
    if is_main_begin(evs.last()) {
        assert(is_main_begin(evs[n]));
    } else {
        let init = evs.drop_last();
        lemma_open_has_begin(init);
        let j = choose|j: int|
            0 <= j < init.len() && is_main_begin(#[trigger] init[j]) && forall|k: int|
                j < k < init.len() ==> !is_main_end(#[trigger] init[k]);
        assert(is_main_begin(evs[j]));
        assert forall|k: int| j < k < evs.len() implies !is_main_end(#[trigger] evs[k]) by {
            if k < n {
                assert(evs[k] == init[k]);
            }
        }
    }
}

/// Every end of the main lane in a well-nested event sequence comes after a begin of
/// the main lane, with no end of the main lane between the two.
pub proof fn lemma_main_end_follows_begin(evs: Seq<EventModel>, i: int)
    requires
        main_well_nested(evs),
        0 <= i < evs.len(),
        is_main_end(evs[i]),
    ensures
        exists|j: int|
            0 <= j < i && is_main_begin(#[trigger] evs[j]) && forall|k: int|
                j < k < i ==> !is_main_end(#[trigger] evs[k]),
    decreases evs.len(),
{
    let init = evs.drop_last();
    if i == evs.len() - 1 {
        lemma_open_has_begin(init);
        let j = choose|j: int|
            0 <= j < init.len() && is_main_begin(#[trigger] init[j]) && forall|k: int|
                j < k < init.len() ==> !is_main_end(#[trigger] init[k]);
        assert(is_main_begin(evs[j]));
        assert forall|k: int| j < k < i implies !is_main_end(#[trigger] evs[k]) by {
            assert(evs[k] == init[k]);
        }
    } else {
        assert(init[i] == evs[i]);
        lemma_main_end_follows_begin(init, i);
        let j = choose|j: int|
            0 <= j < i && is_main_begin(#[trigger] init[j]) && forall|k: int|
                j < k < i ==> !is_main_end(#[trigger] init[k]);
        assert(is_main_begin(evs[j]));
        assert forall|k: int| j < k < i implies !is_main_end(#[trigger] evs[k]) by {
            assert(evs[k] == init[k]);
        }
    }
}

} // verus!
