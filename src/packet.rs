use vstd::prelude::*;

verus! {

/// How a local timestamp relates to the packets it concludes.
#[derive(Clone, Copy, Debug, PartialEq, Eq, Structural)]
pub enum TimestampRelation {
    Sync,
    ContinuousDelay,
    DelayedRelative,
}

/// The exception that an exception-trace packet reports.
///
/// `ExternalInterrupt(0)` is the thread-mode ("main program") channel; numbers from 16
/// on are device interrupts, offset by the sixteen system exceptions.
#[derive(Clone, Copy, Debug, PartialEq, Eq, Structural)]
pub enum ExceptionType {
    Reset,
    Nmi,
    HardFault,
    MemManage,
    BusFault,
    UsageFault,
    SvCall,
    DebugMonitor,
    PendSv,
    SysTick,
    ExternalInterrupt(u32),
}

/// What happened to the exception.
#[derive(Clone, Copy, Debug, PartialEq, Eq, Structural)]
pub enum ExceptionAction {
    Entered,
    Exited,
    Returned,
}

/// A decoded trace packet, as handed over by the packet decoder.
#[derive(Clone, Debug)]
pub enum TracePacket {
    LocalTimestamp { ts: u64, data_relation: TimestampRelation },
    Instrumentation { port: u8, payload: Vec<u8> },
    ExceptionTrace { exception: ExceptionType, action: ExceptionAction },
    /// Any other packet kind; it produces no event.
    Other,
}

/// The mathematical value of a [`TracePacket`].
pub enum PacketModel {
    LocalTimestamp { ts: u64, data_relation: TimestampRelation },
    Instrumentation { port: u8, payload: Seq<u8> },
    ExceptionTrace { exception: ExceptionType, action: ExceptionAction },
    Other,
}

impl View for TracePacket {
    type V = PacketModel;

    open spec fn view(&self) -> PacketModel {
        match self {
            TracePacket::LocalTimestamp { ts, data_relation } => PacketModel::LocalTimestamp {
                ts: *ts,
                data_relation: *data_relation,
            },
            TracePacket::Instrumentation { port, payload } => PacketModel::Instrumentation {
                port: *port,
                payload: payload@,
            },
            TracePacket::ExceptionTrace { exception, action } => PacketModel::ExceptionTrace {
                exception: *exception,
                action: *action,
            },
            TracePacket::Other => PacketModel::Other,
        }
    }
}

/// A relative tick count since the previous timestamp packet.
#[derive(Clone, Copy, Debug, PartialEq, Eq, Structural)]
pub struct TimeStamp {
    pub tc: TimestampRelation,
    pub ts: u64,
}

/// The packets that arrived before a timestamp packet, with that timestamp.
#[derive(Clone, Debug)]
pub struct TracePackets {
    pub packets: Vec<TracePacket>,
    pub timestamp: TimeStamp,
}

/// The view of a packet sequence.
pub open spec fn packets_view(v: Seq<TracePacket>) -> Seq<PacketModel> {
    v.map_values(|p: TracePacket| p@)
}

} // verus!
