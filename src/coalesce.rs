use vstd::prelude::*;
use crate::packet::{PacketModel, TracePacket, packets_view};

verus! {

/// The pending packets after `p` arrives: an instrumentation packet on the port of an
/// instrumentation packet at the tail is merged into it (payloads concatenated in
/// arrival order); every other packet is appended.
pub open spec fn coalesce(pending: Seq<PacketModel>, p: PacketModel) -> Seq<PacketModel> {
    match p {
        PacketModel::Instrumentation { port, payload } => {
            if pending.len() > 0 && pending.last() is Instrumentation
                && pending.last()->Instrumentation_port == port {
                pending.update(
                    pending.len() - 1,
                    PacketModel::Instrumentation {
                        port,
                        payload: pending.last()->Instrumentation_payload + payload,
                    },
                )
            } else {
                pending.push(p)
            }
        },
        _ => pending.push(p),
    }
}

/// The pending packets after each of `ps` arrives in turn.
pub open spec fn coalesce_all(pending: Seq<PacketModel>, ps: Seq<PacketModel>) -> Seq<PacketModel>
    decreases ps.len(),
{
    if ps.len() == 0 {
        pending
    } else {
        coalesce(coalesce_all(pending, ps.drop_last()), ps.last())
    }
}

/// The concatenation of the payloads of instrumentation packets, in order.
pub open spec fn payloads(ps: Seq<PacketModel>) -> Seq<u8>
    decreases ps.len(),
{
    if ps.len() == 0 {
        Seq::empty()
    } else {
        payloads(ps.drop_last()) + ps.last()->Instrumentation_payload
    }
}

/// Instrumentation packets only, all on `port`.
pub open spec fn all_on_port(ps: Seq<PacketModel>, port: u8) -> bool {
    forall|i: int| 0 <= i < ps.len() ==> (#[trigger] ps[i] is Instrumentation)
        && ps[i]->Instrumentation_port == port
}

/// Instrumentation packets only, each on another port than the one before it.
pub open spec fn alternating_ports(ps: Seq<PacketModel>) -> bool {
    &&& forall|i: int| 0 <= i < ps.len() ==> #[trigger] ps[i] is Instrumentation
    &&& forall|i: int|
        1 <= i < ps.len() ==> (#[trigger] ps[i])->Instrumentation_port
            != ps[i - 1]->Instrumentation_port
}

/// Instrumentation packets on one port, arriving with nothing pending, coalesce into a
/// single packet whose payload is their payloads concatenated in arrival order.
pub proof fn lemma_same_port_merges(ps: Seq<PacketModel>, port: u8)
    requires
        ps.len() > 0,
        all_on_port(ps, port),
    ensures
        coalesce_all(Seq::empty(), ps) == seq![
            PacketModel::Instrumentation { port, payload: payloads(ps) },
        ],
    decreases ps.len(),
{
    assert(ps[ps.len() - 1] is Instrumentation);
    if ps.len() == 1 {
        assert(ps.drop_last() =~= Seq::<PacketModel>::empty());
        assert(payloads(ps.drop_last()) =~= Seq::<u8>::empty());
        assert(payloads(ps) =~= ps[0]->Instrumentation_payload);
        assert(coalesce_all(Seq::empty(), ps.drop_last()) == Seq::<PacketModel>::empty());
        assert(ps[0] == PacketModel::Instrumentation { port, payload: payloads(ps) });
        assert(coalesce_all(Seq::empty(), ps) =~= seq![ps[0]]);
    } else {
        let init = ps.drop_last();
        assert(all_on_port(init, port)) by {
            assert forall|i: int| 0 <= i < init.len() implies (#[trigger] init[i] is Instrumentation)
                && init[i]->Instrumentation_port == port by {
                assert(init[i] == ps[i]);
            }
        }
        lemma_same_port_merges(init, port);
        assert(coalesce_all(Seq::empty(), ps) =~= seq![
            PacketModel::Instrumentation { port, payload: payloads(ps) },
        ]);
    }
}

/// Instrumentation packets whose port changes from each packet to the next, arriving
/// with nothing pending, stay one entry each: one per run of a single port.
pub proof fn lemma_alternating_ports_stay_apart(ps: Seq<PacketModel>)
    requires
        alternating_ports(ps),
    ensures
        coalesce_all(Seq::empty(), ps) == ps,
    decreases ps.len(),
{
    if ps.len() > 0 {
        let init = ps.drop_last();
        assert(alternating_ports(init)) by {
            assert forall|i: int| 0 <= i < init.len() implies #[trigger] init[i] is Instrumentation by {
                assert(init[i] == ps[i]);
            }
            assert forall|i: int| 1 <= i < init.len() implies (#[trigger] init[i])->Instrumentation_port
                != init[i - 1]->Instrumentation_port by {
                assert(init[i] == ps[i]);
                assert(init[i - 1] == ps[i - 1]);
            }
        }
        lemma_alternating_ports_stay_apart(init);
        assert(ps[ps.len() - 1] is Instrumentation);
        if ps.len() > 1 {
            assert(ps[ps.len() - 1]->Instrumentation_port != ps[ps.len() - 2]->Instrumentation_port);
        }
        assert(init.push(ps.last()) =~= ps);
    }
}

/// Adds `packet` to `pending` by the coalescing rule.
pub fn coalesce_into(pending: &mut Vec<TracePacket>, packet: TracePacket)
    ensures
        packets_view(final(pending)@) == coalesce(packets_view(old(pending)@), packet@),
{
    let ghost before = packets_view(pending@);
    match packet {
        TracePacket::Instrumentation { port: new_port, payload: add_payload } => {
            let n = pending.len();
            if n > 0 {
                let last = pending.pop().unwrap();
                proof {
                    assert(packets_view(pending@) =~= before.drop_last());
                }
                match last {
                    TracePacket::Instrumentation { port, mut payload } => {
                        if port == new_port {
                            let mut add = add_payload;
                            payload.append(&mut add);
                            pending.push(TracePacket::Instrumentation { port, payload });
                            proof {
                                assert(packets_view(pending@) =~= coalesce(before, packet@));
                            }
                            return;
                        }
                        pending.push(TracePacket::Instrumentation { port, payload });
                    },
                    other => {
                        pending.push(other);
                    },
                }
                proof {
                    assert(packets_view(pending@) =~= before);
                }
            }
            pending.push(TracePacket::Instrumentation { port: new_port, payload: add_payload });
            proof {
                assert(packets_view(pending@) =~= coalesce(before, packet@));
            }
        },
        other => {
            pending.push(other);
            proof {
                assert(packets_view(pending@) =~= coalesce(before, packet@));
            }
        },
    }
}

} // verus!
