use vstd::prelude::*;
use crate::address::DeviceAddress;
use crate::gauges::{
    is_stale, last_seen_table, metric, reading_value, recorded, swept, DeviceEntry,
};
use crate::reading::{value_of, Quantity, SensorReading};

verus! {

/// One operation on the registry: a record of a reading at a time, or a
/// sweep at a time.
#[derive(Clone, Copy, Debug, PartialEq, Eq)]
pub enum Step {
    Record(DeviceAddress, SensorReading, u64),
    Sweep(u64),
}

/// The registry state after one step.
pub open spec fn apply_step(m: Map<DeviceAddress, DeviceEntry>, step: Step, timeout: u64) -> Map<
    DeviceAddress,
    DeviceEntry,
> {
    match step {
        Step::Record(a, r, now) => recorded(m, a, r, now),
        Step::Sweep(now) => swept(m, now, timeout),
    }
}

/// The registry state after a sequence of steps, applied in order.
pub open spec fn run(m: Map<DeviceAddress, DeviceEntry>, steps: Seq<Step>, timeout: u64) -> Map<
    DeviceAddress,
    DeviceEntry,
>
    decreases steps.len(),
{
    if steps.len() == 0 {
        m
    } else {
        run(apply_step(m, steps[0], timeout), steps.drop_first(), timeout)
    }
}

/// Whether a step records a reading for `a`.
pub open spec fn records(step: Step, a: DeviceAddress) -> bool {
    match step {
        Step::Record(b, _, _) => b == a,
        Step::Sweep(_) => false,
    }
}

/// Whether a step is a sweep at which a device last seen at `t` is still
/// fresh.
pub open spec fn sweeps_fresh(step: Step, t: u64, timeout: u64) -> bool {
    match step {
        Step::Record(_, _, _) => true,
        Step::Sweep(now) => !is_stale(t, now, timeout),
    }
}

/// After a record, every quantity of the device shows exactly what the
/// reading carries: the raw figure where it has one, nothing where it has
/// none. The device's last-seen time is the time of the record.
pub proof fn law_record_exposes_reading(
    m: Map<DeviceAddress, DeviceEntry>,
    a: DeviceAddress,
    r: SensorReading,
    now: u64,
)
    ensures
        forall|q: Quantity| #[trigger] reading_value(recorded(m, a, r, now), q, a) == value_of(r, q),
        forall|q: Quantity|
            #[trigger] metric(recorded(m, a, r, now), q).contains_key(a) == value_of(r, q).is_some(),
        last_seen_table(recorded(m, a, r, now)).contains_key(a),
        last_seen_table(recorded(m, a, r, now))[a] == now,
{
}

/// A quantity that a later reading omits is no longer exposed for the
/// device, whatever an earlier reading carried.
pub proof fn law_omitted_field_removed(
    m: Map<DeviceAddress, DeviceEntry>,
    a: DeviceAddress,
    first: SensorReading,
    t1: u64,
    second: SensorReading,
    t2: u64,
    q: Quantity,
)
    requires
        value_of(second, q).is_none(),
    ensures
        reading_value(recorded(recorded(m, a, first, t1), a, second, t2), q, a).is_none(),
        !metric(recorded(recorded(m, a, first, t1), a, second, t2), q).contains_key(a),
{
}

proof fn lemma_entry_kept(
    m: Map<DeviceAddress, DeviceEntry>,
    a: DeviceAddress,
    e: DeviceEntry,
    steps: Seq<Step>,
    timeout: u64,
)
    requires
        m.contains_key(a),
        m[a] == e,
        forall|i: int| 0 <= i < steps.len() ==> !records(#[trigger] steps[i], a),
        forall|i: int| 0 <= i < steps.len() ==> sweeps_fresh(#[trigger] steps[i], e.last_seen, timeout),
    ensures
        run(m, steps, timeout).contains_key(a),
        run(m, steps, timeout)[a] == e,
    decreases steps.len(),
{
    if steps.len() > 0 {
        let next = apply_step(m, steps[0], timeout);
        assert(!records(steps[0], a));
        assert(sweeps_fresh(steps[0], e.last_seen, timeout));
        assert(next.contains_key(a) && next[a] == e);
        let rest = steps.drop_first();
        assert forall|i: int| 0 <= i < rest.len() implies !records(#[trigger] rest[i], a)
            && sweeps_fresh(rest[i], e.last_seen, timeout) by {
            assert(rest[i] == steps[i + 1]);
        }
        lemma_entry_kept(next, a, e, rest, timeout);
    }
}

/// A device recorded at `t` keeps exactly that reading and last-seen time
/// through any later records of other devices and any sweeps that happen
/// before `t` plus the timeout. In particular a record refreshes the clock:
/// only the time of the latest record counts, and a device recorded more
/// often than the timeout is never evicted.
pub proof fn law_kept_while_fresh(
    m: Map<DeviceAddress, DeviceEntry>,
    a: DeviceAddress,
    r: SensorReading,
    t: u64,
    steps: Seq<Step>,
    timeout: u64,
)
    requires
        forall|i: int| 0 <= i < steps.len() ==> !records(#[trigger] steps[i], a),
        forall|i: int| 0 <= i < steps.len() ==> sweeps_fresh(#[trigger] steps[i], t, timeout),
    ensures
        run(recorded(m, a, r, t), steps, timeout).contains_key(a),
        run(recorded(m, a, r, t), steps, timeout)[a] == (DeviceEntry { address: a, reading: r, last_seen: t }),
        forall|q: Quantity| #[trigger] reading_value(run(recorded(m, a, r, t), steps, timeout), q, a)
            == value_of(r, q),
{
    lemma_entry_kept(
        recorded(m, a, r, t),
        a,
        DeviceEntry { address: a, reading: r, last_seen: t },
        steps,
        timeout,
    );
}

proof fn lemma_absent_stays_absent(
    m: Map<DeviceAddress, DeviceEntry>,
    a: DeviceAddress,
    steps: Seq<Step>,
    timeout: u64,
)
    requires
        !m.contains_key(a),
        forall|i: int| 0 <= i < steps.len() ==> !records(#[trigger] steps[i], a),
    ensures
        !run(m, steps, timeout).contains_key(a),
    decreases steps.len(),
{
    if steps.len() > 0 {
        assert(!records(steps[0], a));
        let rest = steps.drop_first();
        assert forall|i: int| 0 <= i < rest.len() implies !records(#[trigger] rest[i], a) by {
            assert(rest[i] == steps[i + 1]);
        }
        lemma_absent_stays_absent(apply_step(m, steps[0], timeout), a, rest, timeout);
    }
}

proof fn lemma_evicted_by_stale_sweep(
    m: Map<DeviceAddress, DeviceEntry>,
    a: DeviceAddress,
    t: u64,
    steps: Seq<Step>,
    timeout: u64,
    k: int,
)
    requires
        m.contains_key(a) ==> m[a].last_seen == t,
        forall|i: int| 0 <= i < steps.len() ==> !records(#[trigger] steps[i], a),
        0 <= k < steps.len(),
        !sweeps_fresh(steps[k], t, timeout),
    ensures
        !run(m, steps, timeout).contains_key(a),
    decreases steps.len(),
{
    let next = apply_step(m, steps[0], timeout);
    let rest = steps.drop_first();
    assert(!records(steps[0], a));
    assert forall|i: int| 0 <= i < rest.len() implies !records(#[trigger] rest[i], a) by {
        assert(rest[i] == steps[i + 1]);
    }
    if k == 0 {
        assert(!next.contains_key(a));
        lemma_absent_stays_absent(next, a, rest, timeout);
    } else {
        assert(rest[k - 1] == steps[k]);
        lemma_evicted_by_stale_sweep(next, a, t, rest, timeout, k - 1);
    }
}

/// A device recorded at `t` and never again is gone after any sweep at a
/// time at least the timeout past `t`: no quantity is exposed for it and it
/// has no last-seen time.
pub proof fn law_silent_device_evicted(
    m: Map<DeviceAddress, DeviceEntry>,
    a: DeviceAddress,
    r: SensorReading,
    t: u64,
    steps: Seq<Step>,
    timeout: u64,
    k: int,
    now: u64,
)
    requires
        forall|i: int| 0 <= i < steps.len() ==> !records(#[trigger] steps[i], a),
        0 <= k < steps.len(),
        steps[k] == Step::Sweep(now),
        is_stale(t, now, timeout),
    ensures
        !run(recorded(m, a, r, t), steps, timeout).contains_key(a),
        !last_seen_table(run(recorded(m, a, r, t), steps, timeout)).contains_key(a),
        forall|q: Quantity| #[trigger] reading_value(run(recorded(m, a, r, t), steps, timeout), q, a).is_none(),
        forall|q: Quantity| !(#[trigger] metric(run(recorded(m, a, r, t), steps, timeout), q)).contains_key(a),
{
    lemma_evicted_by_stale_sweep(recorded(m, a, r, t), a, t, steps, timeout, k);
}

/// Removing or evicting one device changes nothing of another: its metric
/// values and last-seen time stay, and whether a sweep keeps it depends on
/// its own last-seen time alone.
pub proof fn law_eviction_independent(
    m: Map<DeviceAddress, DeviceEntry>,
    a: DeviceAddress,
    e: DeviceEntry,
    b: DeviceAddress,
    now: u64,
    timeout: u64,
)
    requires
        a != b,
    ensures
        forall|q: Quantity| #[trigger] reading_value(m.remove(a), q, b) == reading_value(m, q, b),
        last_seen_table(m.remove(a)).contains_key(b) == last_seen_table(m).contains_key(b),
        last_seen_table(m).contains_key(b) ==> last_seen_table(m.remove(a))[b] == last_seen_table(m)[b],
        swept(m.insert(a, e), now, timeout).contains_key(b) == swept(m.remove(a), now, timeout).contains_key(b),
        swept(m.remove(a), now, timeout).contains_key(b) ==> swept(m.insert(a, e), now, timeout)[b]
            == swept(m.remove(a), now, timeout)[b],
        swept(m, now, timeout).contains_key(b) == (m.contains_key(b) && !is_stale(m[b].last_seen, now, timeout)),
        swept(m, now, timeout).contains_key(b) ==> swept(m, now, timeout)[b] == m[b],
{
}

/// A device that a sweep evicted and that is then recorded again leaves the
/// registry exactly as if it had never been there before that record, and
/// every quantity of the new reading is exposed.
pub proof fn law_reregistration(
    m: Map<DeviceAddress, DeviceEntry>,
    a: DeviceAddress,
    now: u64,
    timeout: u64,
    r: SensorReading,
    t: u64,
)
    requires
        m.contains_key(a),
        is_stale(m[a].last_seen, now, timeout),
    ensures
        recorded(swept(m, now, timeout), a, r, t) == recorded(swept(m.remove(a), now, timeout), a, r, t),
        forall|q: Quantity| #[trigger] reading_value(recorded(swept(m, now, timeout), a, r, t), q, a)
            == value_of(r, q),
{
    assert(recorded(swept(m, now, timeout), a, r, t) =~= recorded(swept(m.remove(a), now, timeout), a, r, t));
}

} // verus!
