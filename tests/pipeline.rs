use itm_tracer::device::{get_isr, isr_name, Device, Interrupt, Peripheral};
use itm_tracer::event::{InstantEventType, Lane, TraceEvent};
use itm_tracer::packet::{
    ExceptionAction, ExceptionType, TimeStamp, TimestampRelation, TracePacket,
};
use itm_tracer::tracer::{priority_registers, TraceError, Tracer, MAIN_PRIORITY, PID};

const CLOCK: u64 = 16_000_000;

fn instr(port: u8, payload: &[u8]) -> TracePacket {
    TracePacket::Instrumentation { port, payload: payload.to_vec() }
}

fn exc(n: u32, action: ExceptionAction) -> TracePacket {
    TracePacket::ExceptionTrace { exception: ExceptionType::ExternalInterrupt(n), action }
}

fn stamp(ticks: u64) -> TracePacket {
    TracePacket::LocalTimestamp { ts: ticks, data_relation: TimestampRelation::Sync }
}

fn tim2_device() -> Device {
    Device {
        peripherals: vec![
            Peripheral { name: "GPIOA".to_string(), interrupt: vec![] },
            Peripheral {
                name: "TIM2".to_string(),
                interrupt: vec![Interrupt {
                    name: "TIM2".to_string(),
                    description: Some("Timer 2".to_string()),
                    value: 1,
                }],
            },
        ],
    }
}

/// Drains every queued batch, reading priorities from `regs` (address, value); a
/// missing address counts as a failed read.
fn drain(t: &mut Tracer, regs: &[(u64, u8)]) -> Result<(), TraceError> {
    while let Some(batch) = t.next_batch() {
        let mut values = Vec::new();
        for a in priority_registers(&batch.packets) {
            match regs.iter().find(|(addr, _)| *addr == a) {
                Some((_, v)) => values.push(*v),
                None => break,
            }
        }
        t.process_batch(batch, &values)?;
    }
    Ok(())
}

fn payload_of(p: &TracePacket) -> (u8, Vec<u8>) {
    match p {
        TracePacket::Instrumentation { port, payload } => (*port, payload.clone()),
        _ => panic!("not an instrumentation packet"),
    }
}

#[test]
fn same_port_packets_merge_in_order() {
    let mut t = Tracer::new(CLOCK, None).unwrap();
    t.push_packet(instr(0, b"he"));
    t.push_packet(instr(0, b"ll"));
    t.push_packet(instr(0, b"o"));
    assert_eq!(t.pending().len(), 1);
    assert_eq!(payload_of(&t.pending()[0]), (0, b"hello".to_vec()));
}

#[test]
fn alternating_ports_stay_apart() {
    let mut t = Tracer::new(CLOCK, None).unwrap();
    t.push_packet(instr(0, b"a"));
    t.push_packet(instr(1, b"b"));
    t.push_packet(instr(0, b"c"));
    t.push_packet(instr(0, b"d"));
    assert_eq!(t.pending().len(), 3);
    assert_eq!(payload_of(&t.pending()[0]), (0, b"a".to_vec()));
    assert_eq!(payload_of(&t.pending()[1]), (1, b"b".to_vec()));
    assert_eq!(payload_of(&t.pending()[2]), (0, b"cd".to_vec()));
}

#[test]
fn other_packets_are_not_merged() {
    let mut t = Tracer::new(CLOCK, None).unwrap();
    t.emit(instr(2, b"x"));
    t.emit(exc(0, ExceptionAction::Entered));
    t.emit(instr(2, b"y"));
    t.emit(TracePacket::Other);
    assert_eq!(t.pending().len(), 4);
}

#[test]
fn timestamp_closes_a_batch() {
    let mut t = Tracer::new(CLOCK, None).unwrap();
    t.push_packet(instr(0, b"a"));
    t.push_packet(TracePacket::LocalTimestamp {
        ts: 7,
        data_relation: TimestampRelation::DelayedRelative,
    });
    assert_eq!(t.pending().len(), 0);
    assert_eq!(t.queued_batches(), 1);
    assert_eq!(t.last_timestamp(), TimeStamp { tc: TimestampRelation::DelayedRelative, ts: 7 });
    let b = t.next_batch().unwrap();
    assert_eq!(b.packets.len(), 1);
    assert_eq!(b.timestamp.ts, 7);
    assert!(t.next_batch().is_none());
}

#[test]
fn one_second_of_ticks_and_no_events() {
    let mut t = Tracer::new(CLOCK, None).unwrap();
    t.push_packet(stamp(16_000_000));
    drain(&mut t, &[]).unwrap();
    assert_eq!(t.elapsed_ticks(), t.clock_hz());
    assert_eq!(t.elapsed_ticks() / t.clock_hz(), 1);
    assert!(t.events().is_empty());
}

#[test]
fn elapsed_time_never_decreases() {
    let mut t = Tracer::new(CLOCK, None).unwrap();
    let mut last = 0;
    for ticks in [5u64, 0, 100, 3] {
        t.push_packet(stamp(ticks));
        drain(&mut t, &[]).unwrap();
        assert!(t.elapsed_ticks() >= last);
        last = t.elapsed_ticks();
    }
    assert_eq!(last, 108);
    t.push_packet(stamp(u64::MAX));
    drain(&mut t, &[]).unwrap();
    assert_eq!(t.elapsed_ticks(), u64::MAX);
}

#[test]
fn main_entry_as_first_event() {
    let mut t = Tracer::new(CLOCK, None).unwrap();
    t.push_packet(exc(0, ExceptionAction::Entered));
    t.push_packet(stamp(160));
    drain(&mut t, &[]).unwrap();
    assert_eq!(t.events().len(), 1);
    match &t.events()[0] {
        TraceEvent::DurationEventBegin { pid, tid, ts, name, args } => {
            assert_eq!(*pid, PID);
            assert_eq!(*tid, Lane::Priority(MAIN_PRIORITY));
            assert_eq!(*ts, 160);
            assert_eq!(name, "Main");
            assert!(args.is_none());
        }
        e => panic!("unexpected event {:?}", e),
    }
}

#[test]
fn interrupt_entry_interrupts_main() {
    let mut t = Tracer::new(CLOCK, Some(tim2_device())).unwrap();
    t.push_packet(exc(0, ExceptionAction::Entered));
    t.push_packet(exc(17, ExceptionAction::Entered));
    t.push_packet(stamp(0));
    drain(&mut t, &[(0xE000_E402, 5)]).unwrap();
    let ev = t.events();
    assert_eq!(ev.len(), 3);
    match &ev[1] {
        TraceEvent::DurationEventEnd { tid, name, .. } => {
            assert_eq!(*tid, Lane::Priority(MAIN_PRIORITY));
            assert_eq!(name, "Main");
        }
        e => panic!("unexpected event {:?}", e),
    }
    match &ev[2] {
        TraceEvent::DurationEventBegin { tid, name, args, .. } => {
            assert_eq!(*tid, Lane::Priority(5));
            assert_eq!(name, "TIM2");
            assert_eq!(
                args.clone().unwrap(),
                vec![("description".to_string(), "Timer 2".to_string())]
            );
        }
        e => panic!("unexpected event {:?}", e),
    }
}

#[test]
fn interrupt_entry_without_open_main_emits_no_end() {
    let mut t = Tracer::new(CLOCK, None).unwrap();
    t.push_packet(exc(20, ExceptionAction::Entered));
    t.push_packet(exc(20, ExceptionAction::Exited));
    t.push_packet(exc(20, ExceptionAction::Returned));
    t.push_packet(stamp(1));
    drain(&mut t, &[(0xE000_E407, 2)]).unwrap();
    let ev = t.events();
    assert_eq!(ev.len(), 2);
    match &ev[0] {
        TraceEvent::DurationEventBegin { tid, name, args, .. } => {
            assert_eq!(*tid, Lane::Priority(2));
            assert_eq!(name, "Unknown ISR");
            assert_eq!(args.clone().unwrap(), vec![]);
        }
        e => panic!("unexpected event {:?}", e),
    }
    match &ev[1] {
        TraceEvent::DurationEventEnd { tid, name, .. } => {
            assert_eq!(*tid, Lane::Priority(2));
            assert_eq!(name, "Unknown ISR");
        }
        e => panic!("unexpected event {:?}", e),
    }
}

#[test]
fn system_exceptions_emit_nothing() {
    let mut t = Tracer::new(CLOCK, None).unwrap();
    t.push_packet(TracePacket::ExceptionTrace {
        exception: ExceptionType::SysTick,
        action: ExceptionAction::Entered,
    });
    t.push_packet(exc(5, ExceptionAction::Entered));
    t.push_packet(exc(0, ExceptionAction::Exited));
    t.push_packet(stamp(1));
    drain(&mut t, &[]).unwrap();
    assert!(t.events().is_empty());
}

#[test]
fn instrumentation_becomes_instant_event() {
    let mut t = Tracer::new(CLOCK, None).unwrap();
    t.push_packet(instr(0, b"hello"));
    t.push_packet(stamp(32));
    drain(&mut t, &[]).unwrap();
    assert_eq!(t.events().len(), 1);
    match &t.events()[0] {
        TraceEvent::InstantEvent { tid, ts, name, s, .. } => {
            assert_eq!(*tid, Lane::Instrumentation);
            assert_eq!(*ts, 32);
            assert_eq!(name, "hello");
            assert!(matches!(s, InstantEventType::Global));
        }
        e => panic!("unexpected event {:?}", e),
    }
}

#[test]
fn invalid_utf8_is_replaced() {
    let mut t = Tracer::new(CLOCK, None).unwrap();
    t.push_packet(instr(3, &[b'o', b'k', 0xFF]));
    t.push_packet(stamp(1));
    drain(&mut t, &[]).unwrap();
    match &t.events()[0] {
        TraceEvent::InstantEvent { name, .. } => assert_eq!(name, "ok\u{FFFD}"),
        e => panic!("unexpected event {:?}", e),
    }
}

#[test]
fn failed_register_read_changes_nothing() {
    let mut t = Tracer::new(CLOCK, None).unwrap();
    t.push_packet(exc(0, ExceptionAction::Entered));
    t.push_packet(stamp(10));
    drain(&mut t, &[]).unwrap();
    assert_eq!(t.events().len(), 1);
    t.push_packet(instr(0, b"x"));
    t.push_packet(exc(17, ExceptionAction::Entered));
    t.push_packet(stamp(10));
    let batch = t.next_batch().unwrap();
    assert_eq!(t.process_batch(batch, &vec![]), Err(TraceError::Io));
    assert_eq!(t.events().len(), 1);
    assert_eq!(t.elapsed_ticks(), 10);
}

#[test]
fn priority_register_addresses() {
    let packets = vec![
        exc(0, ExceptionAction::Entered),
        exc(16, ExceptionAction::Entered),
        instr(0, b"x"),
        exc(21, ExceptionAction::Exited),
        exc(23, ExceptionAction::Returned),
    ];
    assert_eq!(priority_registers(&packets), vec![0xE000_E403, 0xE000_E406, 0xE000_E404]);
}

#[test]
fn zero_clock_is_refused() {
    assert!(matches!(Tracer::new(0, None), Err(TraceError::Config)));
}

#[test]
fn resolver_finds_name_and_description() {
    let d = Some(tim2_device());
    let (name, desc) = isr_name(&d, 1);
    assert_eq!(name, "TIM2");
    assert_eq!(desc, Some("Timer 2".to_string()));
    assert_eq!(get_isr(&d, 1).unwrap().value, 1);
}

#[test]
fn resolver_falls_back_to_unknown() {
    let d = Some(tim2_device());
    assert_eq!(isr_name(&d, 9), ("Unknown ISR".to_string(), None));
    assert_eq!(isr_name(&None, 1), ("Unknown ISR".to_string(), None));
    assert!(get_isr(&d, 9).is_none());
}

#[test]
fn resolver_returns_first_match() {
    let d = Some(Device {
        peripherals: vec![
            Peripheral {
                name: "A".to_string(),
                interrupt: vec![Interrupt { name: "FIRST".to_string(), description: None, value: 4 }],
            },
            Peripheral {
                name: "B".to_string(),
                interrupt: vec![Interrupt { name: "SECOND".to_string(), description: None, value: 4 }],
            },
        ],
    });
    assert_eq!(isr_name(&d, 4), ("FIRST".to_string(), None));
}

#[test]
fn batches_are_processed_in_order() {
    let mut t = Tracer::new(CLOCK, None).unwrap();
    t.push_packet(instr(0, b"one"));
    t.push_packet(stamp(1));
    t.push_packet(instr(0, b"two"));
    t.push_packet(stamp(2));
    assert_eq!(t.queued_batches(), 2);
    drain(&mut t, &[]).unwrap();
    let names: Vec<(String, u64)> = t
        .events()
        .iter()
        .map(|e| match e {
            TraceEvent::InstantEvent { name, ts, .. } => (name.clone(), *ts),
            _ => panic!("unexpected event"),
        })
        .collect();
    assert_eq!(names, vec![("one".to_string(), 1), ("two".to_string(), 3)]);
}

#[test]
fn poll_routes_a_cycle_of_packets() {
    let mut t = Tracer::new(CLOCK, None).unwrap();
    t.poll(vec![instr(1, b"ab"), instr(1, b"c"), stamp(4), instr(2, b"d")]);
    assert_eq!(t.queued_batches(), 1);
    assert_eq!(t.pending().len(), 1);
    assert_eq!(payload_of(&t.pending()[0]), (2, b"d".to_vec()));
    let b = t.next_batch().unwrap();
    assert_eq!(b.packets.len(), 1);
    assert_eq!(payload_of(&b.packets[0]), (1, b"abc".to_vec()));
}
