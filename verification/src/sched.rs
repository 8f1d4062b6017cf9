//! Scheduling: per-device poll state, due-ness, and the run-state machine.
//!
//! The run loop owns the set of devices and, for each, the time of its last
//! poll attempt.  A device is due when the elapsed time since that attempt
//! is at least its configured interval; a device that was never attempted is
//! immediately due.  The attempt time is recorded after every attempt,
//! successful or not, so a persistently failing device backs off at its
//! configured interval instead of being retried every tick.  An external
//! stop signal moves the loop to its stopping state; the loop observes that
//! state only at tick boundaries, so work already planned within a tick is
//! never abandoned.

use vstd::prelude::*;

verus! {

/// The static description of one monitored device, loaded once at startup.
pub struct DeviceDescriptor {
    /// Unique logical identifier, used in output rows and diagnostics.
    pub name: String,
    /// Network locator (host:port) of the device's status endpoint.
    pub address: String,
    /// Identifier of the store instance to write into, e.g. a file path.
    pub storage_location: String,
    /// Destination table; devices may share one.
    pub table_name: String,
    /// Minimum time between successive polls of this device.
    pub poll_interval: u64,
    /// Mapping from dot-separated payload path to destination column name.
    pub field_map: Vec<(String, String)>,
}

impl DeviceDescriptor {
    /// The destination columns this device declares: the column name of
    /// each field-map entry, in field-map order.  The schema of the
    /// device's table is ensured against this full set every cycle,
    /// whatever subset a particular poll manages to extract.
    pub fn declared_columns(&self) -> (cols: Vec<String>)
        ensures
            cols@.map_values(|c: String| c@) == self.field_map@.map_values(
                |f: (String, String)| f.1@,
            ),
    {
        let ghost all = self.field_map@.map_values(|f: (String, String)| f.1@);
        let mut cols: Vec<String> = Vec::new();
        let n = self.field_map.len();
        let mut i: usize = 0;
        proof {
            assert(cols@.map_values(|c: String| c@) =~= all.take(0));
        }
        while i < n
            invariant
                i <= n,
                n == self.field_map@.len(),
                all == self.field_map@.map_values(|f: (String, String)| f.1@),
                cols@.map_values(|c: String| c@) == all.take(i as int),
            decreases n - i,
        {
            let ghost before = cols@.map_values(|c: String| c@);
            cols.push(self.field_map[i].1.clone());
            proof {
                assert(all[i as int] == self.field_map@[i as int].1@);
                assert(cols@.map_values(|c: String| c@) =~= before.push(all[i as int]));
                assert(before.push(all[i as int]) =~= all.take(i + 1));
            }
            i = i + 1;
        }
        proof {
            assert(all.take(n as int) =~= all);
        }
        cols
    }
}

/// A device is due when its last poll attempt, if any, lies at least
/// `interval` time units in the past; a device never attempted is due at
/// once.
pub open spec fn spec_due(last: Option<u64>, interval: u64, now: u64) -> bool {
    match last {
        Option::None => true,
        Option::Some(l) => l + interval <= now,
    }
}

/// Decides due-ness for one device from its last attempt time.
pub fn is_due(last: Option<u64>, interval: u64, now: u64) -> (r: bool)
    ensures
        r == spec_due(last, interval, now),
{
    match last {
        Option::None => true,
        Option::Some(l) => now >= l && now - l >= interval,
    }
}

/// The time bound to `name` in an entry list: the first entry of that
/// name, if any.
pub open spec fn spec_lookup(es: Seq<(String, u64)>, name: Seq<char>) -> Option<u64>
    decreases es.len(),
{
    if es.len() == 0 {
        Option::None
    } else if es[0].0@ == name {
        Option::Some(es[0].1)
    } else {
        spec_lookup(es.drop_first(), name)
    }
}

proof fn lemma_lookup_update(es: Seq<(String, u64)>, k: int, pair: (String, u64))
    requires
        0 <= k < es.len(),
        pair.0@ == es[k].0@,
        forall|j: int| 0 <= j < k ==> (#[trigger] es[j]).0@ != es[k].0@,
    ensures
        spec_lookup(es.update(k, pair), es[k].0@) == Option::Some(pair.1),
        forall|other: Seq<char>|
            other != es[k].0@ ==> #[trigger] spec_lookup(es.update(k, pair), other) == spec_lookup(
                es,
                other,
            ),
    decreases k,
{
    let upd = es.update(k, pair);
    if k == 0 {
        assert(upd[0] == pair);
        assert(upd.drop_first() =~= es.drop_first());
    } else {
        assert(upd[0] == es[0]);
        assert(upd.drop_first() =~= es.drop_first().update(k - 1, pair));
        assert forall|j: int| 0 <= j < k - 1 implies (#[trigger] es.drop_first()[j]).0@
            != es.drop_first()[k - 1].0@ by {
            assert(es.drop_first()[j] == es[j + 1]);
        }
        lemma_lookup_update(es.drop_first(), k - 1, pair);
        assert(es.drop_first()[k - 1] == es[k]);
        assert(es[0].0@ != es[k].0@);
        assert(spec_lookup(upd, es[k].0@) == spec_lookup(upd.drop_first(), es[k].0@));
        assert forall|other: Seq<char>| other != es[k].0@ implies #[trigger] spec_lookup(
            upd,
            other,
        ) == spec_lookup(es, other) by {
            if other != es[0].0@ {
                assert(spec_lookup(upd, other) == spec_lookup(upd.drop_first(), other));
                assert(spec_lookup(upd.drop_first(), other) == spec_lookup(
                    es.drop_first(),
                    other,
                ));
                assert(spec_lookup(es, other) == spec_lookup(es.drop_first(), other));
            }
        }
    }
}

proof fn lemma_lookup_push(es: Seq<(String, u64)>, pair: (String, u64))
    requires
        forall|j: int| 0 <= j < es.len() ==> (#[trigger] es[j]).0@ != pair.0@,
    ensures
        spec_lookup(es.push(pair), pair.0@) == Option::Some(pair.1),
        forall|other: Seq<char>|
            other != pair.0@ ==> #[trigger] spec_lookup(es.push(pair), other) == spec_lookup(
                es,
                other,
            ),
    decreases es.len(),
{
    let snoc = es.push(pair);
    if es.len() == 0 {
        assert(snoc[0] == pair);
        assert forall|other: Seq<char>| other != pair.0@ implies #[trigger] spec_lookup(
            snoc,
            other,
        ) == spec_lookup(es, other) by {
            assert(snoc.drop_first() =~= es);
        }
    } else {
        assert(snoc[0] == es[0]);
        assert(snoc.drop_first() =~= es.drop_first().push(pair));
        assert forall|j: int| 0 <= j < es.drop_first().len() implies (#[trigger] es.drop_first()[j]).0@
            != pair.0@ by {
            assert(es.drop_first()[j] == es[j + 1]);
        }
        lemma_lookup_push(es.drop_first(), pair);
        assert(es[0].0@ != pair.0@);
        assert(spec_lookup(snoc, pair.0@) == spec_lookup(snoc.drop_first(), pair.0@));
        assert forall|other: Seq<char>| other != pair.0@ implies #[trigger] spec_lookup(
            snoc,
            other,
        ) == spec_lookup(es, other) by {
            if other != es[0].0@ {
                assert(spec_lookup(snoc, other) == spec_lookup(snoc.drop_first(), other));
                assert(spec_lookup(snoc.drop_first(), other) == spec_lookup(
                    es.drop_first(),
                    other,
                ));
                assert(spec_lookup(es, other) == spec_lookup(es.drop_first(), other));
            }
        }
    }
}

/// The transient per-device poll state: for each device name, the time of
/// its last poll attempt, successful or failed.  Created empty at startup;
/// a device with no entry is treated as immediately due.
pub struct PollState {
    pub entries: Vec<(String, u64)>,
}

impl PollState {
    /// The time of the last recorded attempt for `name`, if any.
    pub open spec fn spec_last(&self, name: Seq<char>) -> Option<u64> {
        spec_lookup(self.entries@, name)
    }

    /// The empty state: no device has been attempted yet.
    pub fn new() -> (s: PollState)
        ensures
            forall|name: Seq<char>| #[trigger] s.spec_last(name) is None,
    {
        PollState { entries: Vec::new() }
    }

    /// Reads the last attempt time recorded for `name`.
    pub fn last(&self, name: &String) -> (r: Option<u64>)
        ensures
            r == self.spec_last(name@),
    {
        let n = self.entries.len();
        let mut i: usize = 0;
        proof {
            assert(self.entries@.skip(0) =~= self.entries@);
        }
        while i < n
            invariant
                i <= n,
                n == self.entries@.len(),
                spec_lookup(self.entries@.skip(i as int), name@) == spec_lookup(
                    self.entries@,
                    name@,
                ),
            decreases n - i,
        {
            proof {
                assert(self.entries@.skip(i as int)[0] == self.entries@[i as int]);
                assert(self.entries@.skip(i as int).drop_first() =~= self.entries@.skip(i + 1));
            }
            if self.entries[i].0 == *name {
                return Option::Some(self.entries[i].1);
            }
            i = i + 1;
        }
        proof {
            assert(self.entries@.skip(n as int) =~= Seq::<(String, u64)>::empty());
        }
        Option::None
    }

    /// Records a poll attempt of `name` at time `now`, whatever its
    /// outcome was.  Only that device's entry changes.
    pub fn record(&mut self, name: &String, now: u64)
        ensures
            final(self).spec_last(name@) == Option::Some(now),
            forall|other: Seq<char>|
                other != name@ ==> #[trigger] final(self).spec_last(other) == old(self).spec_last(
                    other,
                ),
    {
        let n = self.entries.len();
        let mut i: usize = 0;
        while i < n
            invariant
                i <= n,
                n == self.entries@.len(),
                *self == *old(self),
                forall|j: int| 0 <= j < i ==> (#[trigger] self.entries@[j]).0@ != name@,
            decreases n - i,
        {
            if self.entries[i].0 == *name {
                let ghost es = self.entries@;
                let ghost k = i as int;
                self.entries[i] = (name.clone(), now);
                proof {
                    lemma_lookup_update(es, k, (self.entries@[k].0, now));
                }
                return ;
            }
            i = i + 1;
        }
        let ghost es = self.entries@;
        self.entries.push((name.clone(), now));
        proof {
            lemma_lookup_push(es, self.entries@.last());
        }
    }
}

/// A device whose attempt was recorded at time `t` — successful or not —
/// is not due again before `t + interval`: a persistently failing device
/// backs off at its configured interval and is never busy-polled every
/// tick.
pub proof fn lemma_interval_respected(
    st: PollState,
    name: Seq<char>,
    interval: u64,
    t: u64,
    now: u64,
)
    requires
        st.spec_last(name) == Option::Some(t),
        now < t + interval,
    ensures
        !spec_due(st.spec_last(name), interval, now),
{
}

/// Whether the device at index `i` is due at `now`, given the recorded
/// poll state.
pub open spec fn spec_is_due_at(
    devices: Seq<DeviceDescriptor>,
    st: PollState,
    i: int,
    now: u64,
) -> bool {
    spec_due(st.spec_last(devices[i].name@), devices[i].poll_interval, now)
}

/// The indices of the devices due at `now`, in configuration order: every
/// due device and no other, each at most once, in increasing order.
pub fn due_indices(devices: &Vec<DeviceDescriptor>, st: &PollState, now: u64) -> (due: Vec<usize>)
    ensures
        forall|j: int|
            0 <= j < due@.len() ==> #[trigger] due@[j] < devices@.len() && spec_is_due_at(
                devices@,
                *st,
                due@[j] as int,
                now,
            ),
        forall|j1: int, j2: int| 0 <= j1 < j2 < due@.len() ==> due@[j1] < due@[j2],
        forall|i: int|
            0 <= i < devices@.len() && spec_is_due_at(devices@, *st, i, now) ==> due@.contains(
                i as usize,
            ),
{
    let mut due: Vec<usize> = Vec::new();
    let n = devices.len();
    let mut i: usize = 0;
    while i < n
        invariant
            i <= n,
            n == devices@.len(),
            forall|j: int|
                0 <= j < due@.len() ==> #[trigger] due@[j] < i && spec_is_due_at(
                    devices@,
                    *st,
                    due@[j] as int,
                    now,
                ),
            forall|j1: int, j2: int| 0 <= j1 < j2 < due@.len() ==> due@[j1] < due@[j2],
            forall|m: int|
                0 <= m < i && spec_is_due_at(devices@, *st, m, now) ==> due@.contains(m as usize),
        decreases n - i,
    {
        let last = st.last(&devices[i].name);
        if is_due(last, devices[i].poll_interval, now) {
            let ghost before = due@;
            due.push(i);
            proof {
                assert(due@[due@.len() - 1] == i);
                assert forall|m: int|
                    0 <= m < i + 1 && spec_is_due_at(devices@, *st, m, now) implies due@.contains(
                    m as usize,
                ) by {
                    if m < i {
                        let k = choose|k: int| 0 <= k < before.len() && before[k] == m as usize;
                        assert(due@[k] == m as usize);
                    }
                }
            }
        }
        i = i + 1;
    }
    due
}

/// The run loop's state: it keeps running until a stop is requested, and
/// observes a request only at a tick boundary.
#[derive(PartialEq, Eq, Structural, Clone, Copy, Debug)]
pub enum RunState {
    Running,
    Stopping,
}

/// The scheduler: the devices in configuration order, the per-device poll
/// state, and the run state.  It owns all cross-device state of the loop.
pub struct Monitor {
    pub devices: Vec<DeviceDescriptor>,
    pub state: PollState,
    pub run: RunState,
}

impl Monitor {
    /// A monitor over `devices`, with no device attempted yet, running.
    pub fn new(devices: Vec<DeviceDescriptor>) -> (m: Monitor)
        ensures
            m.devices == devices,
            forall|name: Seq<char>| #[trigger] m.state.spec_last(name) is None,
            m.run == RunState::Running,
    {
        Monitor { devices, state: PollState::new(), run: RunState::Running }
    }

    /// The devices due at `now`, in configuration order.  The run state
    /// plays no part: a stop request never shrinks the current tick's
    /// plan.
    pub fn due_now(&self, now: u64) -> (due: Vec<usize>)
        ensures
            forall|j: int|
                0 <= j < due@.len() ==> #[trigger] due@[j] < self.devices@.len() && spec_is_due_at(
                    self.devices@,
                    self.state,
                    due@[j] as int,
                    now,
                ),
            forall|j1: int, j2: int| 0 <= j1 < j2 < due@.len() ==> due@[j1] < due@[j2],
            forall|i: int|
                0 <= i < self.devices@.len() && spec_is_due_at(self.devices@, self.state, i, now)
                    ==> due@.contains(i as usize),
    {
        due_indices(&self.devices, &self.state, now)
    }

    /// Records that the device at index `i` was attempted at `now`,
    /// whatever the outcome was.  Devices and run state are untouched.
    pub fn record_attempt(&mut self, i: usize, now: u64)
        requires
            i < old(self).devices@.len(),
        ensures
            final(self).state.spec_last(old(self).devices@[i as int].name@) == Option::Some(now),
            forall|other: Seq<char>|
                other != old(self).devices@[i as int].name@
                    ==> #[trigger] final(self).state.spec_last(other) == old(self).state.spec_last(
                    other,
                ),
            final(self).devices == old(self).devices,
            final(self).run == old(self).run,
    {
        let name = self.devices[i].name.clone();
        self.state.record(&name, now);
    }

    /// Notes an external stop request.  Devices and poll state are
    /// untouched: work planned for the current tick is never abandoned.
    pub fn request_stop(&mut self)
        ensures
            final(self).run == RunState::Stopping,
            final(self).devices == old(self).devices,
            final(self).state == old(self).state,
    {
        self.run = RunState::Stopping;
    }

    /// The tick boundary: notes whether a stop signal has been seen since
    /// the last boundary, and decides whether another tick may start.
    /// This is the only place the loop observes the signal, so a poll in
    /// flight always completes and is written before the loop exits.
    pub fn tick_boundary(&mut self, stop_seen: bool) -> (cont: bool)
        ensures
            final(self).run == (if stop_seen {
                RunState::Stopping
            } else {
                old(self).run
            }),
            final(self).devices == old(self).devices,
            final(self).state == old(self).state,
            cont == (final(self).run == RunState::Running),
    {
        if stop_seen {
            self.request_stop();
        }
        self.should_continue()
    }

    /// The boundary check: whether another tick may start.  False once a
    /// stop was requested.
    pub fn should_continue(&self) -> (r: bool)
        ensures
            r == (self.run == RunState::Running),
    {
        match self.run {
            RunState::Running => true,
            RunState::Stopping => false,
        }
    }
}

/// A stop signal observed during a tick changes neither the devices nor
/// the poll state, so the set of due devices — and with it every row the
/// tick was going to produce — is exactly what it would have been without
/// the signal; only the boundary check after the tick sees it.
pub proof fn lemma_stop_preserves_tick(before: Monitor, after: Monitor, now: u64)
    requires
        after.devices == before.devices,
        after.state == before.state,
        after.run == RunState::Stopping,
    ensures
        forall|i: int|
            0 <= i < before.devices@.len() ==> spec_is_due_at(after.devices@, after.state, i, now)
                == spec_is_due_at(before.devices@, before.state, i, now),
{
}

} // verus!
