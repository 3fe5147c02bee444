//! Sessions: the connections that are open, a bounded history of those that ended, and how much they
//! carried.

use vstd::prelude::*;
use std::collections::{HashMap, VecDeque};
use std::time::Instant;
use crate::bytes;
use crate::router::RouteAction;
use crate::text;

verus! {

broadcast use vstd::std_specs::hash::group_hash_axioms;

#[derive(Clone, Copy, PartialEq, Eq, Structural, Debug)]
pub enum SessionStatus {
    /// Carrying data.
    Active,
    /// Ended in good order.
    Closed,
    /// Refused by a rule.
    Blocked,
    /// Failed or broken off.
    Failed,
}

impl SessionStatus {
    pub open spec fn text(self) -> Seq<char> {
        match self {
            SessionStatus::Active => "ACTIVE"@,
            SessionStatus::Closed => "CLOSED"@,
            SessionStatus::Blocked => "BLOCKED"@,
            SessionStatus::Failed => "FAILED"@,
        }
    }

    pub fn to_text(&self) -> (r: String)
        ensures
            r@ == self.text(),
    {
        match self {
            SessionStatus::Active => text::copy_text("ACTIVE"),
            SessionStatus::Closed => text::copy_text("CLOSED"),
            SessionStatus::Blocked => text::copy_text("BLOCKED"),
            SessionStatus::Failed => text::copy_text("FAILED"),
        }
    }
}

/// A connection.
#[derive(Debug)]
pub struct SessionRecord {
    pub id: u64,
    /// Seconds since the Unix epoch.
    pub start_time: u64,
    /// The time of day, as HH:MM:SS.
    pub time_str: String,
    pub target: String,
    pub rule_name: String,
    pub action: RouteAction,
    pub status: SessionStatus,
    pub upload_bytes: u64,
    pub download_bytes: u64,
    pub duration_ms: u64,
}

pub struct RecordModel {
    pub id: u64,
    pub start_time: u64,
    pub time_str: Seq<char>,
    pub target: Seq<char>,
    pub rule_name: Seq<char>,
    pub action: RouteAction,
    pub status: SessionStatus,
    pub upload_bytes: u64,
    pub download_bytes: u64,
    pub duration_ms: u64,
}

impl View for SessionRecord {
    type V = RecordModel;

    open spec fn view(&self) -> RecordModel {
        RecordModel {
            id: self.id,
            start_time: self.start_time,
            time_str: self.time_str@,
            target: self.target@,
            rule_name: self.rule_name@,
            action: self.action,
            status: self.status,
            upload_bytes: self.upload_bytes,
            download_bytes: self.download_bytes,
            duration_ms: self.duration_ms,
        }
    }
}

impl Clone for SessionRecord {
    fn clone(&self) -> (r: SessionRecord)
        ensures
            r@ == self@,
    {
        SessionRecord {
            id: self.id,
            start_time: self.start_time,
            time_str: text::copy_text(&self.time_str),
            target: text::copy_text(&self.target),
            rule_name: text::copy_text(&self.rule_name),
            action: self.action,
            status: self.status,
            upload_bytes: self.upload_bytes,
            download_bytes: self.download_bytes,
            duration_ms: self.duration_ms,
        }
    }
}

/// The time of day, as the clock on the wall shows it.
#[derive(Clone, Copy, PartialEq, Eq, Structural, Debug)]
pub struct TimeOfDay {
    pub hour: u64,
    pub minute: u64,
    pub second: u64,
}

/// A reading of the clocks.
#[derive(Clone, Copy, PartialEq, Eq, Structural, Debug)]
pub struct Moment {
    /// Seconds since the Unix epoch.
    pub unix_secs: u64,
    /// The time of day where the program runs.
    pub time: TimeOfDay,
    /// Nanoseconds since the tracker was made.
    pub nanos: u128,
}

/// A number in at least two digits.
pub open spec fn two_digits(n: nat) -> Seq<char> {
    if n < 10 {
        seq!['0'] + text::dec(n)
    } else {
        text::dec(n)
    }
}

fn push_two_digits(s: &mut String, n: u64)
    ensures
        final(s)@ == old(s)@ + two_digits(n as nat),
{
    if n < 10 {
        s.push('0');
    }
    text::push_dec(s, n);
    assert(s@ =~= old(s)@ + two_digits(n as nat));
}

impl TimeOfDay {
    /// Universal time, so many seconds after the Unix epoch.
    pub open spec fn universal(unix_secs: u64) -> TimeOfDay {
        TimeOfDay { hour: (unix_secs / 3600) % 24, minute: (unix_secs / 60) % 60, second: unix_secs % 60 }
    }

    /// The time of day as HH:MM:SS.
    pub open spec fn text(self) -> Seq<char> {
        two_digits(self.hour as nat) + seq![':'] + two_digits(self.minute as nat) + seq![':'] + two_digits(
            self.second as nat,
        )
    }

    /// Universal time, so many seconds after the Unix epoch; for a system that does not tell its local
    /// time.
    pub fn at(unix_secs: u64) -> (r: TimeOfDay)
        ensures
            r == TimeOfDay::universal(unix_secs),
    {
        TimeOfDay { hour: (unix_secs / 3600) % 24, minute: (unix_secs / 60) % 60, second: unix_secs % 60 }
    }

    /// The time of day as HH:MM:SS.
    pub fn to_text(&self) -> (r: String)
        ensures
            r@ == self.text(),
    {
        let mut r = String::new();
        push_two_digits(&mut r, self.hour);
        r.push(':');
        push_two_digits(&mut r, self.minute);
        r.push(':');
        push_two_digits(&mut r, self.second);
        assert(r@ =~= self.text());
        r
    }
}

impl Moment {
    pub open spec fn read(unix_secs: u64, time: TimeOfDay, nanos: u128) -> Moment {
        Moment { unix_secs, time, nanos }
    }
}

struct ActiveContext {
    /// Nanoseconds since the tracker was made.
    created_at: u128,
    record: SessionRecord,
}

pub struct ActiveModel {
    pub created_at: u128,
    pub record: RecordModel,
}

impl View for ActiveContext {
    type V = ActiveModel;

    closed spec fn view(&self) -> ActiveModel {
        ActiveModel { created_at: self.created_at, record: self.record@ }
    }
}

/// The last measurement of the transfer rates.
#[derive(Clone, Copy, PartialEq, Eq, Structural, Debug)]
pub struct SpeedSnapshot {
    /// Nanoseconds since the tracker was made.
    pub last_check: u128,
    pub last_up: u64,
    pub last_down: u64,
    pub speed_up_bps: u64,
    pub speed_down_bps: u64,
}

/// What a tracker knows.
pub struct TrackerModel {
    pub next_id: u64,
    pub max_history: nat,
    /// The sessions that ended, the latest last.
    pub history: Seq<RecordModel>,
    pub active: Map<u64, ActiveModel>,
    pub total_up: u64,
    pub total_down: u64,
    pub speed: SpeedSnapshot,
}

pub struct SessionTracker {
    next_id: u64,
    max_history: usize,
    history: VecDeque<SessionRecord>,
    active: HashMap<u64, ActiveContext>,
    total_up: u64,
    total_down: u64,
    speed: SpeedSnapshot,
    origin: Instant,
}

impl View for SessionTracker {
    type V = TrackerModel;

    closed spec fn view(&self) -> TrackerModel {
        TrackerModel {
            next_id: self.next_id,
            max_history: self.max_history as nat,
            history: Seq::new(self.history@.len(), |i: int| self.history@[i]@),
            active: self.active@.map_values(|c: ActiveContext| c@),
            total_up: self.total_up,
            total_down: self.total_down,
            speed: self.speed,
        }
    }
}

// What happens to a tracker.

pub open spec fn wrapped(n: int) -> u64 {
    (n % 0x1_0000_0000_0000_0000) as u64
}

/// The record at the end of the history; where the history was full the oldest record is gone.
pub open spec fn archived(history: Seq<RecordModel>, max: nat, record: RecordModel) -> Seq<RecordModel> {
    if history.len() >= max && history.len() > 0 {
        history.drop_first().push(record)
    } else {
        history.push(record)
    }
}

/// Whole milliseconds from one reading of the clock to another.
pub open spec fn millis(from: u128, to: u128) -> u64 {
    if to >= from {
        wrapped((to - from) / 1_000_000)
    } else {
        0
    }
}

pub open spec fn new_record(
    id: u64,
    now: Moment,
    target: Seq<char>,
    rule_name: Seq<char>,
    action: RouteAction,
    blocked: bool,
) -> RecordModel {
    RecordModel {
        id,
        start_time: now.unix_secs,
        time_str: now.time.text(),
        target,
        rule_name,
        action,
        status: if blocked {
            SessionStatus::Blocked
        } else {
            SessionStatus::Active
        },
        upload_bytes: 0,
        download_bytes: 0,
        duration_ms: 0,
    }
}

impl TrackerModel {
    pub open spec fn fresh(max_history: nat) -> TrackerModel {
        TrackerModel {
            next_id: 1,
            max_history,
            history: Seq::empty(),
            active: Map::empty(),
            total_up: 0,
            total_down: 0,
            speed: SpeedSnapshot { last_check: 0, last_up: 0, last_down: 0, speed_up_bps: 0, speed_down_bps: 0 },
        }
    }

    /// A session starts: a blocked one goes straight into the history.
    pub open spec fn started(
        self,
        now: Moment,
        target: Seq<char>,
        rule_name: Seq<char>,
        action: RouteAction,
        blocked: bool,
    ) -> TrackerModel {
        let record = new_record(self.next_id, now, target, rule_name, action, blocked);
        let next_id = wrapped(self.next_id + 1);
        if blocked {
            TrackerModel { next_id, history: archived(self.history, self.max_history, record), ..self }
        } else {
            TrackerModel {
                next_id,
                active: self.active.insert(self.next_id, ActiveModel { created_at: now.nanos, record }),
                ..self
            }
        }
    }

    /// The totals grow, and so do the session's own counts.
    pub open spec fn carried(self, id: u64, up: u64, down: u64) -> TrackerModel {
        let active = if self.active.contains_key(id) {
            let c = self.active[id];
            self.active.insert(
                id,
                ActiveModel {
                    record: RecordModel {
                        upload_bytes: (c.record.upload_bytes + up) as u64,
                        download_bytes: (c.record.download_bytes + down) as u64,
                        ..c.record
                    },
                    ..c
                },
            )
        } else {
            self.active
        };
        TrackerModel {
            total_up: wrapped(self.total_up + up),
            total_down: wrapped(self.total_down + down),
            active,
            ..self
        }
    }

    /// The session's own counts can take this much more.
    pub open spec fn can_carry(self, id: u64, up: u64, down: u64) -> bool {
        self.active.contains_key(id) ==> self.active[id].record.upload_bytes + up <= u64::MAX
            && self.active[id].record.download_bytes + down <= u64::MAX
    }

    /// The session goes into the history, with what it carried last.
    pub open spec fn finished(self, nanos: u128, id: u64, status: SessionStatus, up: u64, down: u64) -> TrackerModel {
        let t = self.carried(id, up, down);
        if t.active.contains_key(id) {
            let c = t.active[id];
            let record = RecordModel { status, duration_ms: millis(c.created_at, nanos), ..c.record };
            TrackerModel {
                active: t.active.remove(id),
                history: archived(t.history, t.max_history, record),
                ..t
            }
        } else {
            t
        }
    }

    /// The history is forgotten.
    pub open spec fn cleared(self) -> TrackerModel {
        TrackerModel { history: Seq::empty(), ..self }
    }

    /// `order` lists the open sessions, each once.
    pub open spec fn is_order(self, order: Seq<u64>) -> bool {
        order.no_duplicates() && order.to_set() == self.active.dom()
    }

    /// The open sessions in the given order, with the time they have lasted, then the history with
    /// the latest first; the first `limit` of them.
    pub open spec fn listed(self, order: Seq<u64>, nanos: u128, limit: nat) -> Seq<RecordModel> {
        let open = Seq::new(
            order.len(),
            |i: int|
                RecordModel {
                    duration_ms: millis(self.active[order[i]].created_at, nanos),
                    ..self.active[order[i]].record
                },
        );
        bytes::clipped(open + self.history.reverse(), limit)
    }

    /// Half a second has passed since the rates were measured.
    pub open spec fn rates_are_due(self, nanos: u128) -> bool {
        nanos - self.speed.last_check >= 500_000_000
    }

    /// The rates are measured.
    pub open spec fn measured(self, nanos: u128, up_bps: u64, down_bps: u64) -> TrackerModel {
        TrackerModel {
            speed: SpeedSnapshot {
                last_check: nanos,
                last_up: self.total_up,
                last_down: self.total_down,
                speed_up_bps: up_bps,
                speed_down_bps: down_bps,
            },
            ..self
        }
    }
}

pub open spec fn grown(from: u64, to: u64) -> u64 {
    if to >= from {
        (to - from) as u64
    } else {
        0
    }
}

// The clocks.

/// `std::time::Instant`: a reading of a clock that does not go back.
#[verifier::external_type_specification]
#[verifier::external_body]
pub struct ExInstant(std::time::Instant);

/// `Instant::now` reads the clock. Nothing is stated of what it shows.
pub assume_specification[ Instant::now ]() -> Instant
;

/// `Instant::elapsed` as nanoseconds: how long ago the reading was taken. Nothing is stated of the
/// number, which depends on when the call is made.
#[verifier::external_body]
pub(crate) fn nanos_since(origin: &Instant) -> (r: u128) {
    origin.elapsed().as_nanos()
}

/// `SystemTime::elapsed` on the Unix epoch, in whole seconds; `None` where the system clock stands
/// before the epoch. Nothing is stated of the number, which depends on when the call is made.
#[verifier::external_body]
fn seconds_since_epoch() -> (r: Option<u64>) {
    match std::time::UNIX_EPOCH.elapsed() {
        Ok(d) => Some(d.as_secs()),
        Err(_) => None,
    }
}

// The tracker.

fn add_wrapping(a: u64, b: u64) -> (r: u64)
    ensures
        r == wrapped(a + b),
{
    a.wrapping_add(b)
}

fn millis_between(from: u128, to: u128) -> (r: u64)
    ensures
        r == millis(from, to),
{
    if to >= from {
        (((to - from) / 1_000_000) % 0x1_0000_0000_0000_0000) as u64
    } else {
        0
    }
}

impl SessionTracker {
    pub fn new(max_history: usize) -> (r: SessionTracker)
        ensures
            r@ == TrackerModel::fresh(max_history as nat),
    {
        let r = SessionTracker {
            next_id: 1,
            max_history,
            history: VecDeque::new(),
            active: HashMap::new(),
            total_up: 0,
            total_down: 0,
            speed: SpeedSnapshot { last_check: 0, last_up: 0, last_down: 0, speed_up_bps: 0, speed_down_bps: 0 },
            origin: Instant::now(),
        };
        assert(r@.history =~= Seq::empty());
        assert(r@.active =~= Map::empty());
        r
    }

    fn archive(&mut self, record: SessionRecord)
        ensures
            final(self)@ == (TrackerModel {
                history: archived(old(self)@.history, old(self)@.max_history, record@),
                ..old(self)@
            }),
    {
        if self.history.len() >= self.max_history {
            self.history.pop_front();
        }
        self.history.push_back(record);
        assert(self@.history =~= archived(old(self)@.history, old(self)@.max_history, record@));
    }

    /// Starts a session at the given moment and gives it an id. A blocked one is over at once.
    pub fn start_session_at(
        &mut self,
        now: Moment,
        target: &str,
        rule_name: &str,
        action: RouteAction,
        is_blocked: bool,
    ) -> (r: u64)
        ensures
            r == old(self)@.next_id,
            final(self)@ == old(self)@.started(now, target@, rule_name@, action, is_blocked),
    {
        let id: u64 = self.next_id;
        self.next_id = add_wrapping(id, 1);
        let record = SessionRecord {
            id,
            start_time: now.unix_secs,
            time_str: now.time.to_text(),
            target: text::copy_text(target),
            rule_name: text::copy_text(rule_name),
            action,
            status: if is_blocked {
                SessionStatus::Blocked
            } else {
                SessionStatus::Active
            },
            upload_bytes: 0,
            download_bytes: 0,
            duration_ms: 0,
        };
        if is_blocked {
            self.archive(record);
        } else {
            self.active.insert(id, ActiveContext { created_at: now.nanos, record });
            assert(self@.active =~= old(self)@.started(now, target@, rule_name@, action, is_blocked).active);
        }
        id
    }

    /// Whether the session's own counts can take this much more.
    pub fn can_carry(&self, id: u64, up: u64, down: u64) -> (r: bool)
        ensures
            r == self@.can_carry(id, up, down),
    {
        match self.active.get(&id) {
            Some(c) => c.record.upload_bytes <= u64::MAX - up && c.record.download_bytes <= u64::MAX - down,
            None => true,
        }
    }

    /// Counts what was carried.
    pub fn record_traffic(&mut self, id: u64, up: u64, down: u64)
        requires
            old(self)@.can_carry(id, up, down),
        ensures
            final(self)@ == old(self)@.carried(id, up, down),
    {
        self.total_up = add_wrapping(self.total_up, up);
        self.total_down = add_wrapping(self.total_down, down);
        match self.active.remove(&id) {
            Some(c) => {
                let mut c = c;
                c.record.upload_bytes = c.record.upload_bytes + up;
                c.record.download_bytes = c.record.download_bytes + down;
                self.active.insert(id, c);
                assert(self@.active =~= old(self)@.carried(id, up, down).active);
            },
            None => {
                assert(self@.active =~= old(self)@.active);
            },
        }
    }

    /// Ends a session at the given reading of the clock and puts it into the history.
    pub fn finish_session_at(&mut self, nanos: u128, id: u64, status: SessionStatus, up: u64, down: u64)
        requires
            old(self)@.can_carry(id, up, down),
        ensures
            final(self)@ == old(self)@.finished(nanos, id, status, up, down),
    {
        self.record_traffic(id, up, down);
        let ghost before = self@;
        match self.active.remove(&id) {
            Some(c) => {
                let mut record = c.record;
                record.status = status;
                record.duration_ms = millis_between(c.created_at, nanos);
                assert(self@.active =~= before.active.remove(id));
                self.archive(record);
            },
            None => {
                assert(self@.active =~= before.active);
            },
        }
    }

    /// The open sessions, in no particular order, then the history with the latest first; at most
    /// `limit` in all.
    pub fn list_sessions_at(&self, nanos: u128, limit: usize) -> (r: Vec<SessionRecord>)
        ensures
            exists|order: Seq<u64>|
                self@.is_order(order) && Seq::new(r@.len(), |i: int| r@[i]@) == #[trigger] self@.listed(
                    order,
                    nanos,
                    limit as nat,
                ),
    {
        let mut r: Vec<SessionRecord> = Vec::new();
        let ghost all = vstd::std_specs::iter::IteratorSpec::remaining(&self.active.iter());
        let ghost order = Seq::new(all.len(), |i: int| *all[i].0);
        for e in it: self.active.iter()
            invariant
                it.seq() == all,
                all == vstd::std_specs::iter::IteratorSpec::remaining(&self.active.iter()),
                order == Seq::new(all.len(), |i: int| *all[i].0),
                r@.len() == it.index(),
                forall|i: int|
                    0 <= i < r@.len() ==> (#[trigger] r@[i])@ == (RecordModel {
                        duration_ms: millis(self@.active[order[i]].created_at, nanos),
                        ..self@.active[order[i]].record
                    }),
        {
            let (k, c) = e;
            let mut rec = c.record.clone();
            rec.duration_ms = millis_between(c.created_at, nanos);
            proof {
                let i = it.index();
                assert(all[i] == (k, c));
                assert(self.active@.contains_key(*all[i].0) && self.active@[*all[i].0] == *all[i].1);
                assert(order[i] == *k);
            }
            r.push(rec);
        }
        proof {
            assert(self@.is_order(order)) by {
                assert forall|i: int, j: int| 0 <= i < j < order.len() implies order[i] != order[j] by {
                    assert(self.active@.contains_key(*all[i].0) && self.active@[*all[i].0] == *all[i].1);
                    assert(self.active@.contains_key(*all[j].0) && self.active@[*all[j].0] == *all[j].1);
                    assert(all[i] != all[j]);
                }
                assert forall|k: u64| order.to_set().contains(k) == self@.active.dom().contains(k) by {
                    if self.active@.contains_key(k) {
                        assert(all.contains((&k, &self.active@[k])));
                        let i = choose|i: int| 0 <= i < all.len() && all[i] == (&k, &self.active@[k]);
                        assert(order[i] == k);
                    }
                    if order.contains(k) {
                        let i = choose|i: int| 0 <= i < order.len() && order[i] == k;
                        assert(self.active@.contains_key(*all[i].0));
                    }
                }
                assert(order.to_set() =~= self@.active.dom());
            }
        }
        let ghost open = Seq::new(r@.len(), |i: int| r@[i]@);
        let ghost full = open + self@.history.reverse();
        let mut left: usize = self.history.len();
        while left > 0 && r.len() < limit
            invariant
                left <= self.history@.len(),
                full == open + self@.history.reverse(),
                r@.len() == open.len() + (self.history@.len() - left),
                forall|i: int| 0 <= i < r@.len() ==> (#[trigger] r@[i])@ == full[i],
            decreases left,
        {
            left = left - 1;
            let rec = self.history[left].clone();
            r.push(rec);
        }
        if r.len() > limit {
            r.truncate(limit);
        }
        proof {
            assert(Seq::new(r@.len(), |i: int| r@[i]@) =~= self@.listed(order, nanos, limit as nat));
        }
        r
    }

    /// The rates, up and down in bytes per second, and the totals, up and down. The rates are
    /// measured anew where half a second has passed: `rate` gives the rate for so many bytes in so many
    /// nanoseconds.
    pub fn speed_and_totals_at<F: Fn(u64, u128) -> u64>(&mut self, nanos: u128, rate: F) -> (r: (u64, u64, u64, u64))
        requires
            forall|n: u64, d: u128| #[trigger] call_requires(rate, (n, d)),
        ensures
            old(self)@.rates_are_due(nanos) ==> {
                let elapsed = (nanos - old(self)@.speed.last_check) as u128;
                &&& call_ensures(rate, (grown(old(self)@.speed.last_up, old(self)@.total_up), elapsed), r.0)
                &&& call_ensures(rate, (grown(old(self)@.speed.last_down, old(self)@.total_down), elapsed), r.1)
                &&& final(self)@ == old(self)@.measured(nanos, r.0, r.1)
            },
            !old(self)@.rates_are_due(nanos) ==> r.0 == old(self)@.speed.speed_up_bps && r.1
                == old(self)@.speed.speed_down_bps && final(self)@ == old(self)@,
            r.2 == old(self)@.total_up,
            r.3 == old(self)@.total_down,
    {
        if nanos >= self.speed.last_check && nanos - self.speed.last_check >= 500_000_000 {
            let elapsed: u128 = nanos - self.speed.last_check;
            let up: u64 = self.total_up.saturating_sub(self.speed.last_up);
            let down: u64 = self.total_down.saturating_sub(self.speed.last_down);
            let up_bps: u64 = rate(up, elapsed);
            let down_bps: u64 = rate(down, elapsed);
            self.speed = SpeedSnapshot {
                last_check: nanos,
                last_up: self.total_up,
                last_down: self.total_down,
                speed_up_bps: up_bps,
                speed_down_bps: down_bps,
            };
            assert(self@.active =~= old(self)@.active);
        }
        (self.speed.speed_up_bps, self.speed.speed_down_bps, self.total_up, self.total_down)
    }

    /// Forgets the history.
    pub fn clear(&mut self)
        ensures
            final(self)@ == old(self)@.cleared(),
    {
        self.history.clear();
        assert(self@.history =~= Seq::empty());
    }

    /// The moment now, where the time of day is `time`.
    pub fn now(&self, time: TimeOfDay) -> (r: Moment)
        ensures
            exists|unix_secs: u64, nanos: u128| r == #[trigger] Moment::read(unix_secs, time, nanos),
    {
        let unix_secs: u64 = match seconds_since_epoch() {
            Some(s) => s,
            None => 0,
        };
        let r = Moment { unix_secs, time, nanos: nanos_since(&self.origin) };
        assert(r == Moment::read(r.unix_secs, time, r.nanos));
        r
    }

    /// Starts a session now and gives it an id. `time` is the time of day that its record shows.
    pub fn start_session(
        &mut self,
        time: TimeOfDay,
        target: &str,
        rule_name: &str,
        action: RouteAction,
        is_blocked: bool,
    ) -> (r: u64)
        ensures
            r == old(self)@.next_id,
            exists|unix_secs: u64, nanos: u128|
                final(self)@ == old(self)@.started(
                    #[trigger] Moment::read(unix_secs, time, nanos),
                    target@,
                    rule_name@,
                    action,
                    is_blocked,
                ),
    {
        let now = self.now(time);
        self.start_session_at(now, target, rule_name, action, is_blocked)
    }

    /// Ends a session now and puts it into the history.
    pub fn finish_session(&mut self, id: u64, status: SessionStatus, up: u64, down: u64)
        requires
            old(self)@.can_carry(id, up, down),
        ensures
            exists|nanos: u128| final(self)@ == #[trigger] old(self)@.finished(nanos, id, status, up, down),
    {
        let nanos: u128 = nanos_since(&self.origin);
        self.finish_session_at(nanos, id, status, up, down);
    }

    /// The open sessions, in no particular order and with the time they have lasted by now, then the
    /// history with the latest first; at most `limit` in all.
    pub fn list_sessions(&self, limit: usize) -> (r: Vec<SessionRecord>)
        ensures
            exists|order: Seq<u64>, nanos: u128|
                self@.is_order(order) && Seq::new(r@.len(), |i: int| r@[i]@) == #[trigger] self@.listed(
                    order,
                    nanos,
                    limit as nat,
                ),
    {
        let nanos: u128 = nanos_since(&self.origin);
        self.list_sessions_at(nanos, limit)
    }

    /// The rates and the totals now: see `speed_and_totals_at`.
    pub fn speed_and_totals<F: Fn(u64, u128) -> u64>(&mut self, rate: F) -> (r: (u64, u64, u64, u64))
        requires
            forall|n: u64, d: u128| #[trigger] call_requires(rate, (n, d)),
        ensures
            r.2 == old(self)@.total_up,
            r.3 == old(self)@.total_down,
            final(self)@ == old(self)@ && r.0 == old(self)@.speed.speed_up_bps && r.1 == old(
                self,
            )@.speed.speed_down_bps || exists|nanos: u128|
                old(self)@.rates_are_due(nanos) && final(self)@ == #[trigger] old(self)@.measured(nanos, r.0, r.1)
                    && call_ensures(
                    rate,
                    (
                        grown(old(self)@.speed.last_up, old(self)@.total_up),
                        (nanos - old(self)@.speed.last_check) as u128,
                    ),
                    r.0,
                ) && call_ensures(
                    rate,
                    (
                        grown(old(self)@.speed.last_down, old(self)@.total_down),
                        (nanos - old(self)@.speed.last_check) as u128,
                    ),
                    r.1,
                ),
    {
        let nanos: u128 = nanos_since(&self.origin);
        self.speed_and_totals_at(nanos, rate)
    }
}

impl Default for SessionTracker {
    fn default() -> (r: SessionTracker)
        ensures
            r@ == TrackerModel::fresh(200),
    {
        SessionTracker::new(200)
    }
}

// Laws.

/// How many records a history holds at most: as many as it was made for, and always one.
pub open spec fn capacity(max_history: nat) -> nat {
    if max_history == 0 {
        1
    } else {
        max_history
    }
}

/// The last `n` records, or all where there are fewer.
pub open spec fn newest(log: Seq<RecordModel>, n: nat) -> Seq<RecordModel> {
    if log.len() <= n {
        log
    } else {
        log.subrange(log.len() - n, log.len() as int)
    }
}

/// What a caller has a tracker do.
pub enum Call {
    Start { now: Moment, target: Seq<char>, rule_name: Seq<char>, action: RouteAction, blocked: bool },
    Carry { id: u64, up: u64, down: u64 },
    Finish { nanos: u128, id: u64, status: SessionStatus, up: u64, down: u64 },
    Measure { nanos: u128, up_bps: u64, down_bps: u64 },
    Clear,
}

impl TrackerModel {
    /// The tracker after the call.
    pub open spec fn called(self, call: Call) -> TrackerModel {
        match call {
            Call::Start { now, target, rule_name, action, blocked } => self.started(
                now,
                target,
                rule_name,
                action,
                blocked,
            ),
            Call::Carry { id, up, down } => self.carried(id, up, down),
            Call::Finish { nanos, id, status, up, down } => self.finished(nanos, id, status, up, down),
            Call::Measure { nanos, up_bps, down_bps } => self.measured(nanos, up_bps, down_bps),
            Call::Clear => self.cleared(),
        }
    }

    /// The session that the call ends: one that is blocked, or an open one that is finished.
    pub open spec fn ended_by(self, call: Call) -> Option<RecordModel> {
        match call {
            Call::Start { now, target, rule_name, action, blocked } => if blocked {
                Some(new_record(self.next_id, now, target, rule_name, action, true))
            } else {
                None
            },
            Call::Finish { nanos, id, status, up, down } => if self.active.contains_key(id) {
                let c = self.carried(id, up, down).active[id];
                Some(RecordModel { status, duration_ms: millis(c.created_at, nanos), ..c.record })
            } else {
                None
            },
            _ => None,
        }
    }

    /// The tracker after all the calls.
    pub open spec fn after_calls(self, calls: Seq<Call>) -> TrackerModel
        decreases calls.len(),
    {
        if calls.len() == 0 {
            self
        } else {
            self.after_calls(calls.drop_last()).called(calls.last())
        }
    }

    /// Every session that the calls ended since the last of them that cleared the history, in the order
    /// in which they ended.
    pub open spec fn ended(self, calls: Seq<Call>) -> Seq<RecordModel>
        decreases calls.len(),
    {
        if calls.len() == 0 {
            Seq::empty()
        } else {
            let before = self.ended(calls.drop_last());
            if calls.last() is Clear {
                Seq::empty()
            } else {
                match self.after_calls(calls.drop_last()).ended_by(calls.last()) {
                    Some(record) => before.push(record),
                    None => before,
                }
            }
        }
    }

    /// Every session has an id of its own, which was given out before the one that is next.
    pub open spec fn numbered(self) -> bool {
        &&& forall|id: u64| #[trigger] self.active.contains_key(id) ==> id < self.next_id
        &&& forall|i: int| 0 <= i < self.history.len() ==> (#[trigger] self.history[i]).id < self.next_id
        &&& forall|i: int| 0 <= i < self.history.len() ==> !self.active.contains_key((#[trigger] self.history[i]).id)
        &&& forall|i: int, j: int|
            #![trigger self.history[i], self.history[j]]
            0 <= i < j < self.history.len() ==> self.history[i].id != self.history[j].id
    }

    /// The history is within its bound, and an open session is kept under its id and has the status
    /// of one.
    pub open spec fn wf(self) -> bool {
        &&& self.history.len() <= capacity(self.max_history)
        &&& forall|id: u64| #[trigger]
            self.active.contains_key(id) ==> self.active[id].record.id == id && self.active[id].record.status
                == SessionStatus::Active
    }
}

/// Whatever happens, the history stays within its bound and the open sessions are those with the
/// status of one.
pub proof fn tracker_stays_in_order(
    t: TrackerModel,
    now: Moment,
    target: Seq<char>,
    rule_name: Seq<char>,
    action: RouteAction,
    blocked: bool,
    id: u64,
    status: SessionStatus,
    up: u64,
    down: u64,
)
    requires
        t.wf(),
    ensures
        t.started(now, target, rule_name, action, blocked).wf(),
        t.carried(id, up, down).wf(),
        t.finished(now.nanos, id, status, up, down).wf(),
        t.cleared().wf(),
        t.measured(now.nanos, up, down).wf(),
{
}

/// A new tracker is in order.
pub proof fn new_tracker_is_in_order(max_history: nat)
    ensures
        TrackerModel::fresh(max_history).wf(),
{
}

/// A session that starts unblocked is open until it is finished; then it is the latest of the
/// history, once, with its status and all that it carried.
pub proof fn session_ends_in_the_history(
    t: TrackerModel,
    start: Moment,
    target: Seq<char>,
    rule_name: Seq<char>,
    action: RouteAction,
    up: u64,
    down: u64,
    nanos: u128,
    status: SessionStatus,
    last_up: u64,
    last_down: u64,
)
    requires
        up + last_up <= u64::MAX,
        down + last_down <= u64::MAX,
    ensures
        ({
            let id = t.next_id;
            let open = t.started(start, target, rule_name, action, false).carried(id, up, down);
            let done = open.finished(nanos, id, status, last_up, last_down);
            &&& open.active.contains_key(id)
            &&& open.history == t.history
            &&& !done.active.contains_key(id)
            &&& done.history == archived(
                t.history,
                t.max_history,
                RecordModel {
                    status,
                    upload_bytes: (up + last_up) as u64,
                    download_bytes: (down + last_down) as u64,
                    duration_ms: millis(start.nanos, nanos),
                    ..new_record(id, start, target, rule_name, action, false)
                },
            )
            &&& done.total_up == wrapped(t.total_up + up + last_up)
            &&& done.total_down == wrapped(t.total_down + down + last_down)
        }),
{
    let id = t.next_id;
    let fresh = t.started(start, target, rule_name, action, false);
    let open = fresh.carried(id, up, down);
    assert(open.active[id].record.upload_bytes == up);
    assert(open.active[id].record.download_bytes == down);
    lemma_wrapped_twice(t.total_up as int, up as int, last_up as int);
    lemma_wrapped_twice(t.total_down as int, down as int, last_down as int);
}

proof fn lemma_wrapped_twice(a: int, b: int, c: int)
    ensures
        wrapped(wrapped(a + b) + c) == wrapped(a + b + c),
{
    let m = 0x1_0000_0000_0000_0000int;
    vstd::arithmetic::div_mod::lemma_add_mod_noop(a + b, c, m);
    vstd::arithmetic::div_mod::lemma_add_mod_noop((a + b) % m, c, m);
    vstd::arithmetic::div_mod::lemma_mod_twice(a + b, m);
}

/// A blocked session is never open: it goes into the history as it is.
pub proof fn blocked_session_is_never_open(
    t: TrackerModel,
    now: Moment,
    target: Seq<char>,
    rule_name: Seq<char>,
    action: RouteAction,
)
    ensures
        t.started(now, target, rule_name, action, true).active == t.active,
        t.started(now, target, rule_name, action, true).history.last().status == SessionStatus::Blocked,
        t.started(now, target, rule_name, action, true).history.last().id == t.next_id,
{
}

/// Finishing a session that is not open adds to the totals and does nothing else.
pub proof fn finishing_twice_adds_no_record(
    t: TrackerModel,
    nanos: u128,
    id: u64,
    status: SessionStatus,
    up: u64,
    down: u64,
)
    requires
        !t.active.contains_key(id),
    ensures
        t.finished(nanos, id, status, up, down) == (TrackerModel {
            total_up: wrapped(t.total_up + up),
            total_down: wrapped(t.total_down + down),
            ..t
        }),
{
}

/// A list is as long as there are sessions, up to the limit.
pub proof fn list_is_as_long_as_it_can_be(t: TrackerModel, order: Seq<u64>, nanos: u128, limit: nat)
    requires
        t.is_order(order),
    ensures
        t.listed(order, nanos, limit).len() == (if order.len() + t.history.len() <= limit {
            order.len() + t.history.len()
        } else {
            limit
        }),
        order.len() == t.active.dom().len(),
{
    order.unique_seq_to_set();
}

/// Behind the open sessions the latest of the history comes first.
pub proof fn latest_is_listed_first(t: TrackerModel, order: Seq<u64>, nanos: u128, limit: nat)
    requires
        t.is_order(order),
        t.history.len() > 0,
        limit > order.len(),
    ensures
        t.listed(order, nanos, limit)[order.len() as int] == t.history.last(),
{
}

/// One record more in a bounded history makes it the newest of all the records and that one.
pub proof fn history_drops_the_oldest(log: Seq<RecordModel>, max_history: nat, record: RecordModel)
    ensures
        archived(newest(log, capacity(max_history)), max_history, record) == newest(
            log.push(record),
            capacity(max_history),
        ),
{
    assert(archived(newest(log, capacity(max_history)), max_history, record) =~= newest(
        log.push(record),
        capacity(max_history),
    ));
}

/// A call keeps the history at the newest of the sessions that have ended.
pub proof fn call_keeps_the_newest(t: TrackerModel, log: Seq<RecordModel>, call: Call)
    requires
        t.history == newest(log, capacity(t.max_history)),
    ensures
        t.called(call).max_history == t.max_history,
        t.called(call).history == newest(
            if call is Clear {
                Seq::empty()
            } else {
                match t.ended_by(call) {
                    Some(record) => log.push(record),
                    None => log,
                }
            },
            capacity(t.max_history),
        ),
{
    match t.ended_by(call) {
        Some(record) => {
            history_drops_the_oldest(log, t.max_history, record);
        },
        None => {},
    }
}

/// Whatever is done to a new tracker, its history is the last of the sessions that ended since it was last
/// cleared, as many as it holds: it is always the oldest that is dropped.
pub proof fn history_is_the_newest(max_history: nat, calls: Seq<Call>)
    ensures
        TrackerModel::fresh(max_history).after_calls(calls).max_history == max_history,
        TrackerModel::fresh(max_history).after_calls(calls).history == newest(
            TrackerModel::fresh(max_history).ended(calls),
            capacity(max_history),
        ),
    decreases calls.len(),
{
    if calls.len() > 0 {
        let t = TrackerModel::fresh(max_history);
        history_is_the_newest(max_history, calls.drop_last());
        call_keeps_the_newest(t.after_calls(calls.drop_last()), t.ended(calls.drop_last()), calls.last());
    }
}

/// A list holds the open sessions and behind them the last sessions that ended, as many as the history
/// holds, the newest first and no other, up to the limit.
pub proof fn newest_are_listed_in_turn(
    max_history: nat,
    calls: Seq<Call>,
    order: Seq<u64>,
    nanos: u128,
    limit: nat,
)
    requires
        TrackerModel::fresh(max_history).after_calls(calls).is_order(order),
    ensures
        ({
            let t = TrackerModel::fresh(max_history);
            let all = t.after_calls(calls).listed(order, nanos, limit);
            let last = newest(t.ended(calls), capacity(max_history));
            &&& all.len() == (if order.len() + last.len() <= limit {
                order.len() + last.len()
            } else {
                limit
            })
            &&& forall|i: int| order.len() <= i < all.len() ==> #[trigger] all[i] == last.reverse()[i - order.len()]
        }),
{
    history_is_the_newest(max_history, calls);
}

/// Every session gets an id that no session in the tracker has, until there are no more numbers.
pub proof fn ids_are_not_given_twice(t: TrackerModel, call: Call)
    requires
        t.wf(),
        t.numbered(),
        call is Start ==> t.next_id < u64::MAX,
    ensures
        t.called(call).wf(),
        t.called(call).numbered(),
        call is Start ==> t.called(call).next_id == t.next_id + 1,
        !(call is Start) ==> t.called(call).next_id == t.next_id,
{
}

/// However a new tracker was used, no id is twice in a list, unless all numbers were given out.
pub proof fn no_id_is_listed_twice(
    max_history: nat,
    calls: Seq<Call>,
    order: Seq<u64>,
    nanos: u128,
    limit: nat,
)
    requires
        calls.len() < u64::MAX,
        TrackerModel::fresh(max_history).after_calls(calls).is_order(order),
    ensures
        ({
            let all = TrackerModel::fresh(max_history).after_calls(calls).listed(order, nanos, limit);
            forall|i: int, j: int|
                #![trigger all[i], all[j]]
                0 <= i < j < all.len() ==> all[i].id != all[j].id
        }),
{
    lemma_numbered(max_history, calls);
    let t = TrackerModel::fresh(max_history).after_calls(calls);
    let all = t.listed(order, nanos, limit);
    assert forall|i: int, j: int|
        #![trigger all[i], all[j]]
        0 <= i < j < all.len() implies all[i].id != all[j].id by {
        let n = order.len() as int;
        let h = t.history.len() as int;
        if i < n {
            assert(order.to_set().contains(order[i]));
            assert(t.active.contains_key(order[i]));
            assert(all[i].id == order[i]);
        } else {
            assert(all[i] == t.history[h - 1 - (i - n)]);
        }
        if j < n {
            assert(order.to_set().contains(order[j]));
            assert(t.active.contains_key(order[j]));
            assert(all[j].id == order[j]);
        } else {
            assert(all[j] == t.history[h - 1 - (j - n)]);
        }
    }
}

proof fn lemma_numbered(max_history: nat, calls: Seq<Call>)
    requires
        calls.len() < u64::MAX,
    ensures
        TrackerModel::fresh(max_history).after_calls(calls).wf(),
        TrackerModel::fresh(max_history).after_calls(calls).numbered(),
        TrackerModel::fresh(max_history).after_calls(calls).next_id <= 1 + calls.len(),
    decreases calls.len(),
{
    if calls.len() > 0 {
        lemma_numbered(max_history, calls.drop_last());
        ids_are_not_given_twice(
            TrackerModel::fresh(max_history).after_calls(calls.drop_last()),
            calls.last(),
        );
    }
}

/// How many bytes the calls report, up and down.
pub open spec fn reported(calls: Seq<Call>) -> (nat, nat)
    decreases calls.len(),
{
    if calls.len() == 0 {
        (0, 0)
    } else {
        let (up, down) = reported(calls.drop_last());
        match calls.last() {
            Call::Carry { id: _, up: u, down: d } => (up + u as nat, down + d as nat),
            Call::Finish { nanos: _, id: _, status: _, up: u, down: d } => (up + u as nat, down + d as nat),
            _ => (up, down),
        }
    }
}

/// How many sessions the calls start.
pub open spec fn starts(calls: Seq<Call>) -> nat
    decreases calls.len(),
{
    if calls.len() == 0 {
        0
    } else if calls.last() is Start {
        starts(calls.drop_last()) + 1
    } else {
        starts(calls.drop_last())
    }
}

/// However a new tracker was used, its totals are the sums of all that was reported to it, whether or not
/// for an open session, and its next id is one more than the number of sessions that were started; where
/// these are too large for 64 bits they start over.
pub proof fn totals_are_the_sums(max_history: nat, calls: Seq<Call>)
    ensures
        ({
            let t = TrackerModel::fresh(max_history).after_calls(calls);
            let (up, down) = reported(calls);
            &&& t.total_up == wrapped(up as int)
            &&& t.total_down == wrapped(down as int)
            &&& t.next_id == wrapped(starts(calls) as int + 1)
            &&& up <= u64::MAX ==> t.total_up == up
            &&& down <= u64::MAX ==> t.total_down == down
            &&& starts(calls) < u64::MAX ==> t.next_id == starts(calls) + 1
        }),
    decreases calls.len(),
{
    if calls.len() > 0 {
        let before = calls.drop_last();
        totals_are_the_sums(max_history, before);
        let (up, down) = reported(before);
        match calls.last() {
            Call::Carry { id: _, up: u, down: d } => {
                lemma_wrapped_twice(up as int, 0, u as int);
                lemma_wrapped_twice(down as int, 0, d as int);
            },
            Call::Finish { nanos: _, id: _, status: _, up: u, down: d } => {
                lemma_wrapped_twice(up as int, 0, u as int);
                lemma_wrapped_twice(down as int, 0, d as int);
            },
            Call::Start { .. } => {
                lemma_wrapped_twice(starts(before) as int, 1, 1);
            },
            _ => {},
        }
    }
}

/// Universal time by the seconds: hours, minutes and seconds make up what is left of the last day.
pub proof fn universal_time(unix_secs: u64)
    ensures
        ({
            let t = TimeOfDay::universal(unix_secs);
            t.hour < 24 && t.minute < 60 && t.second < 60 && t.hour * 3600 + t.minute * 60 + t.second == unix_secs % 86400
        }),
{
    let m = unix_secs / 60;
    assert(unix_secs / 3600 == m / 60);
    assert(unix_secs % 86400 == (m % 1440) * 60 + unix_secs % 60);
    assert(m % 1440 == (m / 60 % 24) * 60 + m % 60);
}

/// The time of day is shown with two digits each and colons between them.
pub proof fn time_is_shown_in_eight_characters(t: TimeOfDay)
    requires
        t.hour < 100,
        t.minute < 100,
        t.second < 100,
    ensures
        t.text().len() == 8,
        t.text()[0] as nat == 48 + t.hour / 10,
        t.text()[1] as nat == 48 + t.hour % 10,
        t.text()[2] == ':',
        t.text()[3] as nat == 48 + t.minute / 10,
        t.text()[4] as nat == 48 + t.minute % 10,
        t.text()[5] == ':',
        t.text()[6] as nat == 48 + t.second / 10,
        t.text()[7] as nat == 48 + t.second % 10,
{
    lemma_two_digits(t.hour as nat);
    lemma_two_digits(t.minute as nat);
    lemma_two_digits(t.second as nat);
}

proof fn lemma_two_digits(n: nat)
    requires
        n < 100,
    ensures
        two_digits(n).len() == 2,
        two_digits(n)[0] as nat == 48 + n / 10,
        two_digits(n)[1] as nat == 48 + n % 10,
{
    reveal_with_fuel(text::dec, 2);
}

/// A session that starts has the next id, what it was started with, no bytes and no duration; it is open, or
/// in the history as blocked, and nothing else changes but the next id.
pub proof fn sessions_start_empty(
    t: TrackerModel,
    now: Moment,
    target: Seq<char>,
    rule_name: Seq<char>,
    action: RouteAction,
    blocked: bool,
    other: u64,
)
    ensures
        ({
            let u = t.started(now, target, rule_name, action, blocked);
            let r = if blocked {
                u.history.last()
            } else {
                u.active[t.next_id].record
            };
            &&& r.id == t.next_id && r.start_time == now.unix_secs && r.time_str == now.time.text()
            &&& r.target == target && r.rule_name == rule_name && r.action == action
            &&& r.upload_bytes == 0 && r.download_bytes == 0 && r.duration_ms == 0
            &&& blocked ==> r.status == SessionStatus::Blocked && u.active == t.active
            &&& !blocked ==> r.status == SessionStatus::Active && u.history == t.history && u.active.contains_key(t.next_id)
                && u.active[t.next_id].created_at == now.nanos
            &&& other != t.next_id ==> u.active.contains_key(other) == t.active.contains_key(other) && (
            t.active.contains_key(other) ==> u.active[other] == t.active[other])
            &&& u.total_up == t.total_up && u.total_down == t.total_down && u.speed == t.speed && u.max_history
                == t.max_history
            &&& t.next_id < u64::MAX ==> u.next_id == t.next_id + 1
        }),
{
}

/// What is carried is added to the totals and to the session's own counts, and to nothing else.
pub proof fn bytes_are_counted_where_they_belong(t: TrackerModel, id: u64, up: u64, down: u64, other: u64)
    requires
        t.can_carry(id, up, down),
    ensures
        ({
            let u = t.carried(id, up, down);
            &&& t.total_up + up <= u64::MAX ==> u.total_up == t.total_up + up
            &&& t.total_down + down <= u64::MAX ==> u.total_down == t.total_down + down
            &&& u.active.dom() == t.active.dom()
            &&& t.active.contains_key(id) ==> u.active[id].record.upload_bytes == t.active[id].record.upload_bytes + up
                && u.active[id].record.download_bytes == t.active[id].record.download_bytes + down
                && u.active[id].created_at == t.active[id].created_at && u.active[id].record.status
                == t.active[id].record.status && u.active[id].record.id == t.active[id].record.id
                && u.active[id].record.target == t.active[id].record.target && u.active[id].record.rule_name
                == t.active[id].record.rule_name && u.active[id].record.action == t.active[id].record.action
                && u.active[id].record.start_time == t.active[id].record.start_time && u.active[id].record.time_str
                == t.active[id].record.time_str && u.active[id].record.duration_ms == t.active[id].record.duration_ms
            &&& other != id && t.active.contains_key(other) ==> u.active[other] == t.active[other]
            &&& u.history == t.history && u.next_id == t.next_id && u.speed == t.speed && u.max_history == t.max_history
        }),
        t.can_carry(id, up, down) <==> (t.active.contains_key(id) ==> t.active[id].record.upload_bytes + up
            < 0x1_0000_0000_0000_0000 && t.active[id].record.download_bytes + down < 0x1_0000_0000_0000_0000),
{
    assert(t.carried(id, up, down).active.dom() =~= t.active.dom());
}

/// A session that is finished leaves the open ones and is the latest of the history, with the given status,
/// all its bytes and the whole milliseconds that it lasted; the others stay as they are.
pub proof fn finished_sessions_are_recorded(
    t: TrackerModel,
    nanos: u128,
    id: u64,
    status: SessionStatus,
    up: u64,
    down: u64,
    other: u64,
)
    requires
        t.can_carry(id, up, down),
        t.active.contains_key(id),
    ensures
        ({
            let u = t.finished(nanos, id, status, up, down);
            let was = t.active[id];
            let r = u.history.last();
            &&& !u.active.contains_key(id)
            &&& u.history.len() > 0
            &&& r.id == was.record.id && r.start_time == was.record.start_time && r.time_str == was.record.time_str
            &&& r.target == was.record.target && r.rule_name == was.record.rule_name && r.action == was.record.action
            &&& r.status == status
            &&& r.upload_bytes == was.record.upload_bytes + up && r.download_bytes == was.record.download_bytes + down
            &&& r.duration_ms == millis(was.created_at, nanos)
            &&& other != id ==> u.active.contains_key(other) == t.active.contains_key(other) && (t.active.contains_key(
                other,
            ) ==> u.active[other] == t.active[other])
        }),
{
}

/// Durations are whole milliseconds, rounded down; a clock that went back counts as none.
pub proof fn durations_are_whole_milliseconds(from: u128, to: u128)
    ensures
        from <= to && to - from < 0x1_0000_0000_0000_0000 * 1_000_000 ==> {
            let n = millis(from, to);
            n * 1_000_000 <= to - from < (n + 1) * 1_000_000
        },
        to < from ==> millis(from, to) == 0,
{
}

/// The rates are measured again when half a second or more has passed; what is measured is how much the totals
/// have grown, never less than nothing, and the measurement is kept with its moment.
pub proof fn rates_are_measured(t: TrackerModel, nanos: u128, up: u64, down: u64, from: u64, to: u64)
    ensures
        t.rates_are_due(nanos) <==> nanos >= t.speed.last_check + 500_000_000,
        from <= to ==> from + grown(from, to) == to,
        to < from ==> grown(from, to) == 0,
        ({
            let u = t.measured(nanos, up, down);
            &&& u.speed.last_check == nanos && u.speed.last_up == t.total_up && u.speed.last_down == t.total_down
            &&& u.speed.speed_up_bps == up && u.speed.speed_down_bps == down
            &&& u.history == t.history && u.active == t.active && u.total_up == t.total_up && u.total_down
                == t.total_down && u.next_id == t.next_id && u.max_history == t.max_history
        }),
{
}

/// Clearing forgets the history and nothing else.
pub proof fn clearing_forgets_the_history(t: TrackerModel)
    ensures
        t.cleared().history.len() == 0,
        t.cleared().active == t.active,
        t.cleared().total_up == t.total_up && t.cleared().total_down == t.total_down,
        t.cleared().next_id == t.next_id && t.cleared().speed == t.speed && t.cleared().max_history == t.max_history,
{
}

/// An open session is listed with its bytes and the time that it has lasted.
pub proof fn open_sessions_are_listed_first(t: TrackerModel, order: Seq<u64>, nanos: u128, limit: nat, i: int)
    requires
        t.is_order(order),
        0 <= i < order.len(),
        i < limit,
    ensures
        ({
            let r = t.listed(order, nanos, limit)[i];
            let c = t.active[order[i]];
            &&& r.duration_ms == millis(c.created_at, nanos)
            &&& r.id == c.record.id && r.target == c.record.target && r.status == c.record.status && r.upload_bytes
                == c.record.upload_bytes && r.download_bytes == c.record.download_bytes
            &&& r.rule_name == c.record.rule_name && r.action == c.record.action && r.start_time == c.record.start_time
                && r.time_str == c.record.time_str
        }),
        forall|id: u64| #[trigger] t.active.contains_key(id) ==> exists|k: int| 0 <= k < order.len() && order[k] == id,
{
    assert forall|id: u64| #[trigger] t.active.contains_key(id) implies exists|k: int|
        0 <= k < order.len() && order[k] == id by {
        assert(order.to_set().contains(id));
    }
}

/// What a status is shown as.
pub proof fn statuses_are_shown(status: SessionStatus)
    ensures
        status.text() == (match status {
            SessionStatus::Active => seq!['A', 'C', 'T', 'I', 'V', 'E'],
            SessionStatus::Closed => seq!['C', 'L', 'O', 'S', 'E', 'D'],
            SessionStatus::Blocked => seq!['B', 'L', 'O', 'C', 'K', 'E', 'D'],
            SessionStatus::Failed => seq!['F', 'A', 'I', 'L', 'E', 'D'],
        }),
{
    reveal_strlit("ACTIVE");
    reveal_strlit("CLOSED");
    reveal_strlit("BLOCKED");
    reveal_strlit("FAILED");
    assert("ACTIVE"@ =~= seq!['A', 'C', 'T', 'I', 'V', 'E']);
    assert("CLOSED"@ =~= seq!['C', 'L', 'O', 'S', 'E', 'D']);
    assert("BLOCKED"@ =~= seq!['B', 'L', 'O', 'C', 'K', 'E', 'D']);
    assert("FAILED"@ =~= seq!['F', 'A', 'I', 'L', 'E', 'D']);
}

/// A record is added behind the others; they all stay where there is room, and the oldest goes where there is
/// none.
pub proof fn records_are_added_last(history: Seq<RecordModel>, max: nat, record: RecordModel, i: int)
    requires
        0 <= i < history.len(),
    ensures
        archived(history, max, record).last() == record,
        history.len() < max ==> archived(history, max, record).len() == history.len() + 1 && archived(
            history,
            max,
            record,
        )[i] == history[i],
        history.len() >= max ==> archived(history, max, record).len() == history.len() && (i > 0 ==> archived(
            history,
            max,
            record,
        )[i - 1] == history[i]),
        archived(Seq::empty(), max, record) == seq![record],
{
}

} // verus!
