use vstd::prelude::*;
use crate::address::DeviceAddress;
use crate::reading::{quantity_index, value_of, Quantity, SensorReading};

verus! {

/// How often the stale-device sweep runs, in milliseconds.
pub const CLEANUP_PERIOD_MS: u64 = 1000;

/// A device that has not been seen for this many milliseconds is stale.
pub const STALE_TIMEOUT_MS: u64 = 10000;

/// What the registry holds for one device: its latest reading and the time
/// (in milliseconds of a monotonic clock) of the call that recorded it.
#[derive(Clone, Copy, Debug, PartialEq, Eq)]
pub struct DeviceEntry {
    pub address: DeviceAddress,
    pub reading: SensorReading,
    pub last_seen: u64,
}

/// One exposed metric value: the raw figure of `quantity` for `address`.
#[derive(Clone, Copy, Debug, PartialEq, Eq)]
pub struct Sample {
    pub quantity: Quantity,
    pub address: DeviceAddress,
    pub value: i64,
}

/// The time passed from `last` to `now`; zero if `now` is earlier.
pub open spec fn elapsed(last: u64, now: u64) -> int {
    if now >= last {
        now - last
    } else {
        0
    }
}

/// Whether a device last seen at `last` is stale at `now`.
pub open spec fn is_stale(last: u64, now: u64, timeout: u64) -> bool {
    elapsed(last, now) >= timeout
}

/// The registry state after recording `reading` for `a` at `now`.
pub open spec fn recorded(
    m: Map<DeviceAddress, DeviceEntry>,
    a: DeviceAddress,
    reading: SensorReading,
    now: u64,
) -> Map<DeviceAddress, DeviceEntry> {
    m.insert(a, DeviceEntry { address: a, reading, last_seen: now })
}

/// The registry state after a sweep at `now`: the stale devices are gone,
/// the others are untouched.
pub open spec fn swept(m: Map<DeviceAddress, DeviceEntry>, now: u64, timeout: u64) -> Map<
    DeviceAddress,
    DeviceEntry,
> {
    Map::new(
        |a: DeviceAddress| m.contains_key(a) && !is_stale(m[a].last_seen, now, timeout),
        |a: DeviceAddress| m[a],
    )
}

/// The exposed raw figure of quantity `q` for device `a`, if any.
pub open spec fn reading_value(m: Map<DeviceAddress, DeviceEntry>, q: Quantity, a: DeviceAddress) -> Option<i64> {
    if m.contains_key(a) {
        value_of(m[a].reading, q)
    } else {
        None
    }
}

/// The metric mapping of one quantity: device to raw figure.
pub open spec fn metric(m: Map<DeviceAddress, DeviceEntry>, q: Quantity) -> Map<DeviceAddress, i64> {
    Map::new(
        |a: DeviceAddress| reading_value(m, q, a).is_some(),
        |a: DeviceAddress| reading_value(m, q, a).unwrap(),
    )
}

/// The last-seen table: device to the time of its latest record.
pub open spec fn last_seen_table(m: Map<DeviceAddress, DeviceEntry>) -> Map<DeviceAddress, u64> {
    Map::new(|a: DeviceAddress| m.contains_key(a), |a: DeviceAddress| m[a].last_seen)
}

pub open spec fn addresses_unique(s: Seq<DeviceEntry>) -> bool {
    forall|i: int, j: int|
        0 <= i < s.len() && 0 <= j < s.len() && #[trigger] s[i].address == #[trigger] s[j].address
            ==> i == j
}

pub open spec fn has_address(s: Seq<DeviceEntry>, a: DeviceAddress) -> bool {
    exists|i: int| 0 <= i < s.len() && #[trigger] s[i].address == a
}

pub open spec fn index_of(s: Seq<DeviceEntry>, a: DeviceAddress) -> int {
    choose|i: int| 0 <= i < s.len() && #[trigger] s[i].address == a
}

/// The map from address to entry that a sequence of entries stands for.
pub open spec fn entries_map(s: Seq<DeviceEntry>) -> Map<DeviceAddress, DeviceEntry> {
    Map::new(|a: DeviceAddress| has_address(s, a), |a: DeviceAddress| s[index_of(s, a)])
}

proof fn lemma_index_of(s: Seq<DeviceEntry>, i: int)
    requires
        addresses_unique(s),
        0 <= i < s.len(),
    ensures
        has_address(s, s[i].address),
        index_of(s, s[i].address) == i,
        entries_map(s).contains_key(s[i].address),
        entries_map(s)[s[i].address] == s[i],
{
    let a = s[i].address;
    assert(0 <= i < s.len() && s[i].address == a);
    let j = index_of(s, a);
    assert(s[j].address == s[i].address);
}

/// `ks` holds exactly the entries of `s0[0..n]` that are fresh at `now`, in
/// order; `origin[j]` is the position in `s0` that `ks[j]` came from.
spec fn kept_fresh(
    s0: Seq<DeviceEntry>,
    ks: Seq<DeviceEntry>,
    origin: Seq<int>,
    n: int,
    now: u64,
    timeout: u64,
) -> bool {
    &&& ks.len() == origin.len()
    &&& forall|j: int|
        0 <= j < ks.len() ==> 0 <= #[trigger] origin[j] < n && s0[origin[j]] == ks[j]
            && !is_stale(ks[j].last_seen, now, timeout)
    &&& forall|x: int, y: int| 0 <= x < y < ks.len() ==> #[trigger] origin[x] < #[trigger] origin[y]
    &&& forall|k: int|
        0 <= k < n && !is_stale(#[trigger] s0[k].last_seen, now, timeout) ==> exists|j: int|
            0 <= j < ks.len() && origin[j] == k
}

proof fn lemma_kept_step(
    s0: Seq<DeviceEntry>,
    ks: Seq<DeviceEntry>,
    origin: Seq<int>,
    n: int,
    now: u64,
    timeout: u64,
)
    requires
        0 <= n < s0.len(),
        kept_fresh(s0, ks, origin, n, now, timeout),
    ensures
        !is_stale(s0[n].last_seen, now, timeout) ==> kept_fresh(
            s0,
            ks.push(s0[n]),
            origin.push(n),
            n + 1,
            now,
            timeout,
        ),
        is_stale(s0[n].last_seen, now, timeout) ==> kept_fresh(s0, ks, origin, n + 1, now, timeout),
{
    let e = s0[n];
    if !is_stale(e.last_seen, now, timeout) {
        let ks2 = ks.push(e);
        let o2 = origin.push(n);
        assert forall|j: int| 0 <= j < ks2.len() implies 0 <= #[trigger] o2[j] < n + 1 && s0[o2[j]] == ks2[j]
            && !is_stale(ks2[j].last_seen, now, timeout) by {
            if j < ks.len() {
                assert(o2[j] == origin[j]);
                assert(ks2[j] == ks[j]);
            }
        }
        assert forall|x: int, y: int| 0 <= x < y < ks2.len() implies #[trigger] o2[x] < #[trigger] o2[y] by {
            assert(o2[x] == origin[x]);
            if y < ks.len() {
                assert(o2[y] == origin[y]);
            }
        }
        assert forall|k: int| 0 <= k < n + 1 && !is_stale(#[trigger] s0[k].last_seen, now, timeout) implies exists|j: int|
            0 <= j < ks2.len() && o2[j] == k by {
            if k < n {
                let j = choose|j: int| 0 <= j < ks.len() && origin[j] == k;
                assert(o2[j] == k);
            } else {
                assert(o2[ks.len() as int] == k);
            }
        }
    }
}

proof fn lemma_kept_map(s0: Seq<DeviceEntry>, ks: Seq<DeviceEntry>, origin: Seq<int>, now: u64, timeout: u64)
    requires
        addresses_unique(s0),
        kept_fresh(s0, ks, origin, s0.len() as int, now, timeout),
    ensures
        addresses_unique(ks),
        entries_map(ks) == swept(entries_map(s0), now, timeout),
{
    assert forall|x: int, y: int|
        0 <= x < ks.len() && 0 <= y < ks.len() && #[trigger] ks[x].address == #[trigger] ks[y].address implies x
        == y by {
        assert(s0[origin[x]] == ks[x]);
        assert(s0[origin[y]] == ks[y]);
        if x < y {
            assert(origin[x] < origin[y]);
        }
        if y < x {
            assert(origin[y] < origin[x]);
        }
    }
    assert forall|a: DeviceAddress| #[trigger] has_address(ks, a) == (has_address(s0, a)
        && !is_stale(entries_map(s0)[a].last_seen, now, timeout)) by {
        if has_address(ks, a) {
            let j = index_of(ks, a);
            let k = origin[j];
            assert(s0[k] == ks[j]);
            lemma_index_of(s0, k);
        }
        if has_address(s0, a) && !is_stale(entries_map(s0)[a].last_seen, now, timeout) {
            let k = index_of(s0, a);
            assert(!is_stale(s0[k].last_seen, now, timeout));
            let j = choose|j: int| 0 <= j < ks.len() && origin[j] == k;
            assert(s0[origin[j]] == ks[j]);
            assert(ks[j].address == a);
        }
    }
    assert forall|a: DeviceAddress| has_address(ks, a) implies entries_map(ks)[a] == entries_map(s0)[a] by {
        let j = index_of(ks, a);
        let k = origin[j];
        assert(s0[k] == ks[j]);
        lemma_index_of(s0, k);
    }
    assert(entries_map(ks) =~= swept(entries_map(s0), now, timeout));
}

/// The registry of sensor metrics: the latest reading of every device that
/// was seen within the stale timeout, and when it was seen.
pub struct RuuviGauges {
    devices: Vec<DeviceEntry>,
    stale_timeout: u64,
}

impl View for RuuviGauges {
    type V = Map<DeviceAddress, DeviceEntry>;

    closed spec fn view(&self) -> Map<DeviceAddress, DeviceEntry> {
        entries_map(self.devices@)
    }
}

impl RuuviGauges {
    /// The device list holds each address at most once.
    pub closed spec fn well_formed(&self) -> bool {
        addresses_unique(self.devices@)
    }

    /// The stale timeout in milliseconds.
    pub closed spec fn timeout(&self) -> u64 {
        self.stale_timeout
    }

    /// An empty registry whose devices go stale after `stale_timeout`
    /// milliseconds without a record.
    pub fn new(stale_timeout: u64) -> (r: Self)
        ensures
            r.well_formed(),
            r@ == Map::<DeviceAddress, DeviceEntry>::empty(),
            r.timeout() == stale_timeout,
    {
        let r = RuuviGauges { devices: Vec::new(), stale_timeout };
        assert(r@ =~= Map::<DeviceAddress, DeviceEntry>::empty());
        r
    }

    /// The stale timeout in milliseconds.
    pub fn stale_timeout(&self) -> (r: u64)
        ensures
            r == self.timeout(),
    {
        self.stale_timeout
    }

    /// The number of tracked devices.
    pub fn len(&self) -> (r: usize)
        requires
            self.well_formed(),
        ensures
            r == self@.len(),
    {
        proof {
            self.lemma_len();
        }
        self.devices.len()
    }

    proof fn lemma_len(&self)
        requires
            addresses_unique(self.devices@),
        ensures
            self@.len() == self.devices@.len(),
            self@.dom().finite(),
    {
        let s = self.devices@;
        let f = |i: int| s[i].address;
        let idx = Set::new(|i: int| 0 <= i < s.len());
        assert(idx =~= vstd::set_lib::set_int_range(0, s.len() as int));
        vstd::set_lib::lemma_int_range(0, s.len() as int);
        assert(vstd::relations::injective_on(f, idx)) by {
            assert forall|i: int, j: int| idx.contains(i) && idx.contains(j) && #[trigger] f(i) == #[trigger] f(j) implies i == j by {
                assert(s[i].address == s[j].address);
            }
        }
        vstd::set_lib::lemma_map_size(idx, idx.map(f), f);
        assert(self@.dom() =~= idx.map(f)) by {
            assert forall|a: DeviceAddress| self@.dom().contains(a) implies idx.map(f).contains(a) by {
                let i = index_of(s, a);
                assert(idx.contains(i) && f(i) == a);
            }
            assert forall|a: DeviceAddress| idx.map(f).contains(a) implies self@.dom().contains(a) by {
                let i = choose|i: int| idx.contains(i) && f(i) == a;
                assert(0 <= i < s.len() && s[i].address == a);
            }
        }
    }

    /// The position of `a` in the device list, if it is tracked.
    fn find(&self, a: &DeviceAddress) -> (r: Option<usize>)
        ensures
            match r {
                Some(i) => i < self.devices@.len() && self.devices@[i as int].address == *a,
                None => !has_address(self.devices@, *a),
            },
    {
        let mut i: usize = 0;
        while i < self.devices.len()
            invariant
                i <= self.devices@.len(),
                forall|j: int| 0 <= j < i ==> self.devices@[j].address != *a,
            decreases self.devices@.len() - i,
        {
            if self.devices[i].address.same_as(a) {
                return Some(i);
            }
            i = i + 1;
        }
        None
    }

    /// Records a reading for a device at time `now`: every quantity that the
    /// reading carries is set for the device, every other quantity is
    /// removed, and the device's last-seen time becomes `now`.
    pub fn update_sensor_values(&mut self, address: DeviceAddress, values: SensorReading, now: u64)
        requires
            old(self).well_formed(),
        ensures
            final(self).well_formed(),
            final(self)@ == recorded(old(self)@, address, values, now),
            final(self).timeout() == old(self).timeout(),
    {
        let entry = DeviceEntry { address, reading: values, last_seen: now };
        let ghost s0 = self.devices@;
        match self.find(&address) {
            Some(i) => {
                self.devices.set(i, entry);
                proof {
                    let s = self.devices@;
                    assert(s == s0.update(i as int, entry));
                    assert(addresses_unique(s)) by {
                        assert forall|x: int, y: int|
                            0 <= x < s.len() && 0 <= y < s.len() && #[trigger] s[x].address
                                == #[trigger] s[y].address implies x == y by {
                            assert(s0[x].address == s[x].address);
                            assert(s0[y].address == s[y].address);
                        }
                    }
                    assert(entries_map(s) =~= recorded(entries_map(s0), address, values, now)) by {
                        lemma_index_of(s, i as int);
                        assert forall|a: DeviceAddress| #[trigger] has_address(s, a) == has_address(s0, a) by {
                            if has_address(s, a) {
                                let k = index_of(s, a);
                                assert(s0[k].address == a);
                            }
                            if has_address(s0, a) {
                                let k = index_of(s0, a);
                                assert(s[k].address == a);
                            }
                        }
                        assert forall|a: DeviceAddress| has_address(s, a) && a != address implies entries_map(s)[a]
                            == entries_map(s0)[a] by {
                            let k = index_of(s0, a);
                            lemma_index_of(s0, k);
                            assert(s[k].address == a);
                            lemma_index_of(s, k);
                        }
                    }
                }
            },
            None => {
                self.devices.push(entry);
                proof {
                    let s = self.devices@;
                    let n = s0.len() as int;
                    assert(s == s0.push(entry));
                    assert(addresses_unique(s)) by {
                        assert forall|x: int, y: int|
                            0 <= x < s.len() && 0 <= y < s.len() && #[trigger] s[x].address
                                == #[trigger] s[y].address implies x == y by {
                            if x < n && y == n {
                                assert(s0[x].address == address);
                            }
                            if y < n && x == n {
                                assert(s0[y].address == address);
                            }
                        }
                    }
                    assert(entries_map(s) =~= recorded(entries_map(s0), address, values, now)) by {
                        lemma_index_of(s, n);
                        assert forall|a: DeviceAddress| a != address implies #[trigger] has_address(s, a)
                            == has_address(s0, a) by {
                            if has_address(s, a) {
                                let k = index_of(s, a);
                                assert(s0[k].address == a);
                            }
                            if has_address(s0, a) {
                                let k = index_of(s0, a);
                                assert(s[k].address == a);
                            }
                        }
                        assert forall|a: DeviceAddress| has_address(s, a) && a != address implies entries_map(s)[a]
                            == entries_map(s0)[a] by {
                            let k = index_of(s0, a);
                            lemma_index_of(s0, k);
                            assert(s[k].address == a);
                            lemma_index_of(s, k);
                        }
                    }
                }
            },
        }
    }

    /// Removes every metric value of a device and its last-seen time.
    /// Returns whether the device was tracked; removing an untracked device
    /// changes nothing.
    pub fn remove_sensor_values(&mut self, address: &DeviceAddress) -> (r: bool)
        requires
            old(self).well_formed(),
        ensures
            final(self).well_formed(),
            final(self)@ == old(self)@.remove(*address),
            r == old(self)@.contains_key(*address),
            final(self).timeout() == old(self).timeout(),
    {
        let ghost s0 = self.devices@;
        match self.find(address) {
            Some(i) => {
                self.devices.remove(i);
                proof {
                    let s = self.devices@;
                    let ii = i as int;
                    assert(s == s0.remove(ii));
                    lemma_index_of(s0, ii);
                    assert(addresses_unique(s)) by {
                        assert forall|x: int, y: int|
                            0 <= x < s.len() && 0 <= y < s.len() && #[trigger] s[x].address
                                == #[trigger] s[y].address implies x == y by {
                            let x0 = if x < ii { x } else { x + 1 };
                            let y0 = if y < ii { y } else { y + 1 };
                            assert(s[x] == s0[x0]);
                            assert(s[y] == s0[y0]);
                        }
                    }
                    assert(entries_map(s) =~= entries_map(s0).remove(*address)) by {
                        assert forall|a: DeviceAddress| #[trigger] has_address(s, a) == (has_address(s0, a) && a != *address) by {
                            if has_address(s, a) {
                                let k = index_of(s, a);
                                let k0 = if k < ii { k } else { k + 1 };
                                assert(s0[k0].address == a);
                                assert(k0 != ii);
                            }
                            if has_address(s0, a) && a != *address {
                                let k0 = index_of(s0, a);
                                assert(k0 != ii);
                                let k = if k0 < ii { k0 } else { k0 - 1 };
                                assert(s[k].address == a);
                            }
                        }
                        assert forall|a: DeviceAddress| has_address(s, a) implies entries_map(s)[a]
                            == entries_map(s0)[a] by {
                            let k = index_of(s, a);
                            let k0 = if k < ii { k } else { k + 1 };
                            assert(s[k] == s0[k0]);
                            lemma_index_of(s0, k0);
                        }
                    }
                }
                true
            },
            None => {
                proof {
                    assert(entries_map(s0) =~= entries_map(s0).remove(*address));
                }
                false
            },
        }
    }

    /// Evicts every device that is stale at `now`: its metric values and its
    /// last-seen time are removed. Every other device is left as it was.
    pub fn sweep(&mut self, now: u64)
        requires
            old(self).well_formed(),
        ensures
            final(self).well_formed(),
            final(self)@ == swept(old(self)@, now, old(self).timeout()),
            final(self).timeout() == old(self).timeout(),
    {
        let ghost s0 = self.devices@;
        let timeout = self.stale_timeout;
        let mut kept: Vec<DeviceEntry> = Vec::new();
        let ghost mut origin: Seq<int> = Seq::empty();
        let mut i: usize = 0;
        while i < self.devices.len()
            invariant
                s0 == self.devices@,
                timeout == self.stale_timeout,
                addresses_unique(s0),
                i <= s0.len(),
                kept_fresh(s0, kept@, origin, i as int, now, timeout),
            decreases s0.len() - i,
        {
            let e = self.devices[i];
            let fresh = if now >= e.last_seen {
                now - e.last_seen < timeout
            } else {
                0 < timeout
            };
            proof {
                lemma_kept_step(s0, kept@, origin, i as int, now, timeout);
            }
            if fresh {
                kept.push(e);
                proof {
                    origin = origin.push(i as int);
                }
            }
            i = i + 1;
        }
        proof {
            lemma_kept_map(s0, kept@, origin, now, timeout);
        }
        self.devices = kept;
    }

    /// A snapshot of every exposed metric value: one sample for each device
    /// and each quantity that its latest reading carries, and nothing else.
    pub fn gather(&self) -> (r: Vec<Sample>)
        requires
            self.well_formed(),
        ensures
            forall|k: int| 0 <= k < r@.len() ==> reading_value(self@, #[trigger] r@[k].quantity, r@[k].address)
                == Some(r@[k].value),
            forall|q: Quantity, a: DeviceAddress| #[trigger] reading_value(self@, q, a).is_some() ==> exists|k: int|
                0 <= k < r@.len() && (#[trigger] r@[k]).quantity == q && r@[k].address == a,
            forall|k1: int, k2: int|
                0 <= k1 < r@.len() && 0 <= k2 < r@.len() && (#[trigger] r@[k1]).quantity == (#[trigger] r@[k2]).quantity
                    && r@[k1].address == r@[k2].address ==> k1 == k2,
    {
        let ghost s = self.devices@;
        let ghost m = self@;
        let mut out: Vec<Sample> = Vec::new();
        let mut i: usize = 0;
        while i < self.devices.len()
            invariant
                s == self.devices@,
                m == entries_map(s),
                addresses_unique(s),
                i <= s.len(),
                forall|k: int| 0 <= k < out@.len() ==> reading_value(m, #[trigger] out@[k].quantity, out@[k].address)
                    == Some(out@[k].value),
                forall|k: int| 0 <= k < out@.len() ==> has_address(s, (#[trigger] out@[k]).address)
                    && index_of(s, out@[k].address) < i,
                forall|k1: int, k2: int|
                    0 <= k1 < k2 < out@.len() && (#[trigger] out@[k1]).address == (#[trigger] out@[k2]).address
                        ==> quantity_index(out@[k1].quantity) < quantity_index(out@[k2].quantity),
                forall|d: int, q: Quantity| 0 <= d < i && (#[trigger] value_of(s[d].reading, q)).is_some() ==> exists|k: int|
                    0 <= k < out@.len() && (#[trigger] out@[k]).quantity == q && out@[k].address == s[d].address,
            decreases s.len() - i,
        {
            let e = self.devices[i];
            proof {
                lemma_index_of(s, i as int);
            }
            let ghost start = out@.len();
            let mut t: usize = 0;
            while t < 6
                invariant
                    s == self.devices@,
                    m == entries_map(s),
                    addresses_unique(s),
                    i < s.len(),
                    e == s[i as int],
                    m.contains_key(e.address),
                    m[e.address] == e,
                    index_of(s, e.address) == i,
                    start <= out@.len(),
                    t <= 6,
                    forall|k: int| 0 <= k < out@.len() ==> reading_value(m, #[trigger] out@[k].quantity, out@[k].address)
                        == Some(out@[k].value),
                    forall|k: int| 0 <= k < start ==> has_address(s, (#[trigger] out@[k]).address)
                        && index_of(s, out@[k].address) < i,
                    forall|k: int| start <= k < out@.len() ==> (#[trigger] out@[k]).address == e.address
                        && quantity_index(out@[k].quantity) < t,
                    forall|k1: int, k2: int|
                        0 <= k1 < k2 < out@.len() && (#[trigger] out@[k1]).address == (#[trigger] out@[k2]).address
                            ==> quantity_index(out@[k1].quantity) < quantity_index(out@[k2].quantity),
                    forall|d: int, q: Quantity| 0 <= d < i && (#[trigger] value_of(s[d].reading, q)).is_some() ==> exists|k: int|
                        0 <= k < out@.len() && (#[trigger] out@[k]).quantity == q && out@[k].address == s[d].address,
                    forall|q: Quantity| quantity_index(q) < t && (#[trigger] value_of(e.reading, q)).is_some() ==> exists|k: int|
                        0 <= k < out@.len() && (#[trigger] out@[k]).quantity == q && out@[k].address == e.address,
                decreases 6 - t,
            {
                let q = Quantity::at(t);
                match e.reading.value(q) {
                    Some(v) => {
                        let ghost before = out@;
                        out.push(Sample { quantity: q, address: e.address, value: v });
                        proof {
                            assert forall|k: int| 0 <= k < before.len() implies #[trigger] out@[k] == before[k] by {}
                            assert forall|d: int, q2: Quantity| 0 <= d < i && (#[trigger] value_of(s[d].reading, q2)).is_some() implies exists|k: int|
                                0 <= k < out@.len() && (#[trigger] out@[k]).quantity == q2 && out@[k].address == s[d].address by {
                                let k = choose|k: int| 0 <= k < before.len() && (#[trigger] before[k]).quantity == q2 && before[k].address == s[d].address;
                                assert(out@[k] == before[k]);
                            }
                            assert forall|q2: Quantity| quantity_index(q2) < t + 1 && (#[trigger] value_of(e.reading, q2)).is_some() implies exists|k: int|
                                0 <= k < out@.len() && (#[trigger] out@[k]).quantity == q2 && out@[k].address == e.address by {
                                if quantity_index(q2) == t {
                                    assert(out@[before.len() as int].quantity == q2);
                                } else {
                                    let k = choose|k: int| 0 <= k < before.len() && (#[trigger] before[k]).quantity == q2 && before[k].address == e.address;
                                    assert(out@[k] == before[k]);
                                }
                            }
                            assert forall|k1: int, k2: int|
                                0 <= k1 < k2 < out@.len() && (#[trigger] out@[k1]).address == (#[trigger] out@[k2]).address
                                    implies quantity_index(out@[k1].quantity) < quantity_index(out@[k2].quantity) by {
                                if k2 == before.len() && k1 < start {
                                    assert(index_of(s, out@[k1].address) < i);
                                }
                            }
                        }
                    },
                    None => {
                        assert forall|q2: Quantity| quantity_index(q2) < t + 1 && (#[trigger] value_of(e.reading, q2)).is_some() implies exists|k: int|
                            0 <= k < out@.len() && (#[trigger] out@[k]).quantity == q2 && out@[k].address == e.address by {
                            assert(quantity_index(q2) != t);
                        }
                    },
                }
                t = t + 1;
            }
            proof {
                assert forall|d: int, q: Quantity| 0 <= d < i + 1 && (#[trigger] value_of(s[d].reading, q)).is_some() implies exists|k: int|
                    0 <= k < out@.len() && (#[trigger] out@[k]).quantity == q && out@[k].address == s[d].address by {
                    if d == i {
                        assert(quantity_index(q) < 6);
                    }
                }
            }
            i = i + 1;
        }
        proof {
            assert forall|q: Quantity, a: DeviceAddress| #[trigger] reading_value(m, q, a).is_some() implies exists|k: int|
                0 <= k < out@.len() && (#[trigger] out@[k]).quantity == q && out@[k].address == a by {
                let d = index_of(s, a);
                assert(value_of(s[d].reading, q).is_some());
            }
            assert forall|k1: int, k2: int|
                0 <= k1 < out@.len() && 0 <= k2 < out@.len() && (#[trigger] out@[k1]).quantity == (#[trigger] out@[k2]).quantity
                    && out@[k1].address == out@[k2].address implies k1 == k2 by {
                if k1 < k2 {
                    assert(quantity_index(out@[k1].quantity) < quantity_index(out@[k2].quantity));
                }
                if k2 < k1 {
                    assert(quantity_index(out@[k2].quantity) < quantity_index(out@[k1].quantity));
                }
            }
        }
        out
    }

    /// The entry of a device, if it is tracked.
    pub fn entry(&self, address: &DeviceAddress) -> (r: Option<DeviceEntry>)
        requires
            self.well_formed(),
        ensures
            r == (if self@.contains_key(*address) { Some(self@[*address]) } else { None::<DeviceEntry> }),
    {
        match self.find(address) {
            Some(i) => {
                proof {
                    lemma_index_of(self.devices@, i as int);
                }
                Some(self.devices[i])
            },
            None => None,
        }
    }

    /// The exposed raw figure of quantity `q` for a device, if any.
    pub fn value(&self, q: Quantity, address: &DeviceAddress) -> (r: Option<i64>)
        requires
            self.well_formed(),
        ensures
            r == reading_value(self@, q, *address),
    {
        match self.entry(address) {
            Some(e) => e.reading.value(q),
            None => None,
        }
    }

    /// When a device was last recorded, if it is tracked.
    pub fn last_seen(&self, address: &DeviceAddress) -> (r: Option<u64>)
        requires
            self.well_formed(),
        ensures
            r == (if self@.contains_key(*address) { Some(self@[*address].last_seen) } else { None::<u64> }),
    {
        match self.entry(address) {
            Some(e) => Some(e.last_seen),
            None => None,
        }
    }
}

} // verus!
