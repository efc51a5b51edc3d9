use vstd::prelude::*;

verus! {

/// One interrupt of a device description: its number, name and optional description.
#[derive(Clone, Debug)]
pub struct Interrupt {
    pub name: String,
    pub description: Option<String>,
    pub value: u32,
}

/// A peripheral of a device description, with the interrupts it raises.
#[derive(Clone, Debug)]
pub struct Peripheral {
    pub name: String,
    pub interrupt: Vec<Interrupt>,
}

/// The parts of a device description that interrupt resolution reads.
#[derive(Clone, Debug)]
pub struct Device {
    pub peripherals: Vec<Peripheral>,
}

/// The first interrupt of `ints` numbered `n`.
pub open spec fn find_interrupt(ints: Seq<Interrupt>, n: u32) -> Option<Interrupt>
    decreases ints.len(),
{
    if ints.len() == 0 {
        None
    } else if ints[0].value == n {
        Some(ints[0])
    } else {
        find_interrupt(ints.drop_first(), n)
    }
}

/// The first interrupt numbered `n`, peripherals and their interrupts taken in order.
pub open spec fn find_in_peripherals(ps: Seq<Peripheral>, n: u32) -> Option<Interrupt>
    decreases ps.len(),
{
    if ps.len() == 0 {
        None
    } else {
        match find_interrupt(ps[0].interrupt@, n) {
            Some(i) => Some(i),
            None => find_in_peripherals(ps.drop_first(), n),
        }
    }
}

/// What resolution finds for interrupt `n`; nothing where no description is loaded.
pub open spec fn resolve(device: Option<Device>, n: u32) -> Option<Interrupt> {
    match device {
        Some(d) => find_in_peripherals(d.peripherals@, n),
        None => None,
    }
}

/// The name given to an interrupt that the description does not list.
pub open spec fn unknown_isr() -> Seq<char> {
    seq!['U', 'n', 'k', 'n', 'o', 'w', 'n', ' ', 'I', 'S', 'R']
}

/// The name and the description of interrupt `n`.
pub open spec fn isr_label(device: Option<Device>, n: u32) -> (Seq<char>, Option<Seq<char>>) {
    match resolve(device, n) {
        Some(i) => (
            i.name@,
            match i.description {
                Some(d) => Some(d@),
                None => None,
            },
        ),
        None => (unknown_isr(), None),
    }
}

proof fn lemma_find_interrupt_skip(ints: Seq<Interrupt>, n: u32, k: int)
    requires
        0 <= k <= ints.len(),
        forall|j: int| 0 <= j < k ==> (#[trigger] ints[j]).value != n,
    ensures
        find_interrupt(ints, n) == find_interrupt(ints.skip(k), n),
    decreases k,
{
    if k == 0 {
        assert(ints.skip(0) =~= ints);
    } else {
        let rest = ints.drop_first();
        assert forall|j: int| 0 <= j < k - 1 implies (#[trigger] rest[j]).value != n by {
            assert(rest[j] == ints[j + 1]);
        }
        lemma_find_interrupt_skip(rest, n, k - 1);
        assert(rest.skip(k - 1) =~= ints.skip(k));
        assert(ints[0].value != n);
    }
}

proof fn lemma_find_in_peripherals_skip(ps: Seq<Peripheral>, n: u32, k: int)
    requires
        0 <= k <= ps.len(),
        forall|j: int| 0 <= j < k ==> find_interrupt((#[trigger] ps[j]).interrupt@, n) is None,
    ensures
        find_in_peripherals(ps, n) == find_in_peripherals(ps.skip(k), n),
    decreases k,
{
    if k == 0 {
        assert(ps.skip(0) =~= ps);
    } else {
        let rest = ps.drop_first();
        assert forall|j: int| 0 <= j < k - 1 implies find_interrupt(
            (#[trigger] rest[j]).interrupt@,
            n,
        ) is None by {
            assert(rest[j] == ps[j + 1]);
        }
        lemma_find_in_peripherals_skip(rest, n, k - 1);
        assert(rest.skip(k - 1) =~= ps.skip(k));
        assert(find_interrupt(ps[0].interrupt@, n) is None);
    }
}

/// Looks up interrupt `number`: the first match, peripherals and their interrupts
/// taken in order; `None` where no description is loaded or none matches.
pub fn get_isr(device: &Option<Device>, number: u32) -> (r: Option<&Interrupt>)
    ensures
        match r {
            Some(i) => resolve(*device, number) == Some(*i),
            None => resolve(*device, number) is None,
        },
{
    match device.as_ref() {
        None => None,
        Some(d) => {
            let mut p: usize = 0;
            while p < d.peripherals.len()
                invariant
                    *device == Some(*d),
                    0 <= p <= d.peripherals@.len(),
                    forall|j: int|
                        0 <= j < p ==> find_interrupt((#[trigger] d.peripherals@[j]).interrupt@, number) is None,
                decreases d.peripherals@.len() - p,
            {
                let ints = &d.peripherals[p].interrupt;
                let mut k: usize = 0;
                while k < ints.len()
                    invariant
                        *device == Some(*d),
                        0 <= p < d.peripherals@.len(),
                        ints@ == d.peripherals@[p as int].interrupt@,
                        forall|j: int|
                            0 <= j < p ==> find_interrupt((#[trigger] d.peripherals@[j]).interrupt@, number) is None,
                        0 <= k <= ints@.len(),
                        forall|j: int| 0 <= j < k ==> (#[trigger] ints@[j]).value != number,
                    decreases ints@.len() - k,
                {
                    if ints[k].value == number {
                        proof {
                            lemma_find_interrupt_skip(ints@, number, k as int);
                            lemma_find_in_peripherals_skip(d.peripherals@, number, p as int);
                            assert(ints@.skip(k as int)[0] == ints@[k as int]);
                            assert(d.peripherals@.skip(p as int)[0] == d.peripherals@[p as int]);
                            assert(find_interrupt(ints@.skip(k as int), number) == Some(ints@[k as int]));
                            assert(find_in_peripherals(d.peripherals@.skip(p as int), number) == Some(
                                ints@[k as int],
                            ));
                        }
                        return Some(&ints[k]);
                    }
                    k += 1;
                }
                proof {
                    lemma_find_interrupt_skip(ints@, number, k as int);
                    assert(ints@.skip(k as int).len() == 0);
                }
                p += 1;
            }
            proof {
                lemma_find_in_peripherals_skip(d.peripherals@, number, p as int);
                assert(d.peripherals@.skip(p as int).len() == 0);
            }
            None
        },
    }
}

/// The name and the description of interrupt `number`: those of the description's
/// entry where it lists one, else "Unknown ISR" with no description.
pub fn isr_name(device: &Option<Device>, number: u32) -> (r: (String, Option<String>))
    ensures
        (r.0@, match r.1 {
            Some(d) => Some(d@),
            None => None,
        }) == isr_label(*device, number),
{
    match get_isr(device, number) {
        Some(i) => {
            let description = match &i.description {
                Some(d) => Some(d.clone()),
                None => None,
            };
            (i.name.clone(), description)
        },
        None => {
            let name = "Unknown ISR".to_owned();
            proof {
                reveal_strlit("Unknown ISR");
                assert(name@ =~= unknown_isr());
            }
            (name, None)
        },
    }
}

} // verus!
