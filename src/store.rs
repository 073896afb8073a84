use vstd::prelude::*;

use crate::error::DBError;

verus! {

/// A registered user: the identity issued by the token provider and the
/// display name given at registration.
pub struct User {
    pub identity: String,
    pub name: String,
}

/// One line of the temperature log. The reading is kept as the bit pattern
/// of a 32-bit float and is never interpreted by the store.
pub struct LogEntry {
    pub log_id: u64,
    pub identity: String,
    pub timestamp: i64,
    pub temperature_bits: u32,
}

/// A row of a range query: the reading's time, its owner's display name and
/// the reading.
pub struct Record {
    pub date: i64,
    pub name: String,
    pub temperature_bits: u32,
}

/// What a registration did.
#[derive(Debug, Clone, Copy, PartialEq, Eq, Structural)]
pub enum Registration {
    Created,
    AlreadyExists,
}

/// The abstract value of a log entry.
pub struct EntryView {
    pub log_id: u64,
    pub identity: Seq<char>,
    pub timestamp: i64,
    pub temperature_bits: u32,
}

/// The abstract value of a query row.
pub struct RecordView {
    pub date: i64,
    pub name: Seq<char>,
    pub temperature_bits: u32,
}

/// The abstract state of a store: the registry as (identity, name) pairs in
/// order of registration, the log sorted by timestamp, the next log id, and
/// whether a session is open.
pub struct DatabaseView {
    pub users: Seq<(Seq<char>, Seq<char>)>,
    pub log: Seq<EntryView>,
    pub next_log_id: u64,
    pub connected: bool,
}

impl LogEntry {
    pub open spec fn view(&self) -> EntryView {
        EntryView {
            log_id: self.log_id,
            identity: self.identity@,
            timestamp: self.timestamp,
            temperature_bits: self.temperature_bits,
        }
    }
}

impl Record {
    pub open spec fn view(&self) -> RecordView {
        RecordView { date: self.date, name: self.name@, temperature_bits: self.temperature_bits }
    }
}

pub open spec fn records_view(rs: Seq<Record>) -> Seq<RecordView> {
    rs.map_values(|r: Record| r.view())
}

/// The display name registered for `identity`, if any.
pub open spec fn name_of(users: Seq<(Seq<char>, Seq<char>)>, identity: Seq<char>) -> Option<
    Seq<char>,
>
    decreases users.len(),
{
    if users.len() == 0 {
        None
    } else if users.last().0 == identity {
        Some(users.last().1)
    } else {
        name_of(users.drop_last(), identity)
    }
}

/// Where an entry with timestamp `ts` goes in a log sorted by timestamp:
/// after every entry whose timestamp is not later than `ts`.
pub open spec fn insert_position(log: Seq<EntryView>, ts: i64) -> int
    decreases log.len(),
{
    if log.len() == 0 {
        0
    } else if log.last().timestamp <= ts {
        log.len() as int
    } else {
        insert_position(log.drop_last(), ts)
    }
}

pub open spec fn sorted_by_time(log: Seq<EntryView>) -> bool {
    forall|i: int, j: int| 0 <= i < j < log.len() ==> log[i].timestamp <= log[j].timestamp
}

pub open spec fn in_window(e: EntryView, identity: Seq<char>, start: i64, end: i64) -> bool {
    e.identity == identity && start <= e.timestamp <= end
}

/// The rows of `identity` whose timestamps lie in `[start, end]`, in log
/// order, each carrying `name`.
pub open spec fn rows_in_window(
    log: Seq<EntryView>,
    identity: Seq<char>,
    name: Seq<char>,
    start: i64,
    end: i64,
) -> Seq<RecordView>
    decreases log.len(),
{
    if log.len() == 0 {
        Seq::empty()
    } else {
        let rest = rows_in_window(log.drop_last(), identity, name, start, end);
        let e = log.last();
        if in_window(e, identity, start, end) {
            rest.push(RecordView { date: e.timestamp, name, temperature_bits: e.temperature_bits })
        } else {
            rest
        }
    }
}

/// What a query returns on a store in state `v`.
pub open spec fn query_result(v: DatabaseView, identity: Seq<char>, start: i64, end: i64) -> Result<
    Seq<RecordView>,
    DBError,
> {
    if end <= start {
        Err(DBError::InvalidRange)
    } else if !v.connected {
        Err(DBError::StorageFailure)
    } else {
        match name_of(v.users, identity) {
            None => Ok(Seq::empty()),
            Some(name) => Ok(rows_in_window(v.log, identity, name, start, end)),
        }
    }
}

/// What a registration returns on a store in state `v`.
pub open spec fn register_result(v: DatabaseView, identity: Seq<char>) -> Result<
    Registration,
    DBError,
> {
    if !v.connected {
        Err(DBError::StorageFailure)
    } else if name_of(v.users, identity) is Some {
        Ok(Registration::AlreadyExists)
    } else {
        Ok(Registration::Created)
    }
}

/// The state after a registration on a store in state `v`.
pub open spec fn register_state(v: DatabaseView, identity: Seq<char>, name: Seq<char>) -> DatabaseView {
    if register_result(v, identity) == Ok::<Registration, DBError>(Registration::Created) {
        DatabaseView { users: v.users.push((identity, name)), ..v }
    } else {
        v
    }
}

/// What recording a reading returns on a store in state `v`: the next log id,
/// unless no session is open, the identity is not registered, or the ids are
/// spent.
pub open spec fn record_result(v: DatabaseView, identity: Seq<char>) -> Result<u64, DBError> {
    if !v.connected || name_of(v.users, identity) is None || v.next_log_id == u64::MAX {
        Err(DBError::StorageFailure)
    } else {
        Ok(v.next_log_id)
    }
}

/// The state after recording a reading on a store in state `v`.
pub open spec fn record_state(
    v: DatabaseView,
    identity: Seq<char>,
    bits: u32,
    ts: i64,
) -> DatabaseView {
    if record_result(v, identity) is Ok {
        let e = EntryView {
            log_id: v.next_log_id,
            identity,
            timestamp: ts,
            temperature_bits: bits,
        };
        DatabaseView {
            log: v.log.insert(insert_position(v.log, ts), e),
            next_log_id: (v.next_log_id + 1) as u64,
            ..v
        }
    } else {
        v
    }
}

/// An entry placed at `insert_position` keeps a sorted log sorted, and lands
/// after every entry that is not later and before every entry that is.
proof fn lemma_insert_position(log: Seq<EntryView>, ts: i64)
    requires
        sorted_by_time(log),
    ensures
        0 <= insert_position(log, ts) <= log.len(),
        forall|k: int| 0 <= k < insert_position(log, ts) ==> #[trigger] log[k].timestamp <= ts,
        forall|k: int| insert_position(log, ts) <= k < log.len() ==> #[trigger] log[k].timestamp > ts,
    decreases log.len(),
{
    if log.len() > 0 {
        let n = log.len() - 1;
        if log.last().timestamp > ts {
            let d = log.drop_last();
            assert(sorted_by_time(d));
            lemma_insert_position(d, ts);
            assert forall|k: int| 0 <= k < insert_position(log, ts) implies #[trigger] log[k].timestamp
                <= ts by {
                assert(d[k] == log[k]);
            }
            assert forall|k: int| insert_position(log, ts) <= k < log.len() implies #[trigger] log[k].timestamp
                > ts by {
                if k < n {
                    assert(d[k] == log[k]);
                }
            }
        } else {
            assert forall|k: int| 0 <= k < insert_position(log, ts) implies #[trigger] log[k].timestamp
                <= ts by {
                if k < n {
                    assert(log[k].timestamp <= log[n].timestamp);
                }
            }
        }
    }
}

/// Where each entry of `log.insert(p, e)` comes from.
proof fn lemma_insert_index(log: Seq<EntryView>, p: int, e: EntryView)
    requires
        0 <= p <= log.len(),
    ensures
        log.insert(p, e).len() == log.len() + 1,
        forall|k: int|
            0 <= k < log.len() + 1 ==> #[trigger] log.insert(p, e)[k] == (if k < p {
                log[k]
            } else if k == p {
                e
            } else {
                log[k - 1]
            }),
{
    log.insert_ensures(p, e);
    assert forall|k: int| 0 <= k < log.len() + 1 implies #[trigger] log.insert(p, e)[k] == (if k
        < p {
        log[k]
    } else if k == p {
        e
    } else {
        log[k - 1]
    }) by {
        if k > p {
            assert(log.insert(p, e)[(k - 1) + 1] == log[k - 1]);
        }
    }
}

/// An entry whose id is the next one keeps the ids in range and distinct.
#[verifier::spinoff_prover]
proof fn lemma_insert_ids(log: Seq<EntryView>, p: int, e: EntryView, next: u64)
    requires
        0 <= p <= log.len(),
        1 <= next < u64::MAX,
        e.log_id == next,
        forall|i: int| 0 <= i < log.len() ==> 1 <= #[trigger] log[i].log_id < next,
        forall|i: int, j: int|
            0 <= i < log.len() && 0 <= j < log.len() && i != j ==> #[trigger] log[i].log_id
                != #[trigger] log[j].log_id,
    ensures
        forall|i: int|
            0 <= i < log.insert(p, e).len() ==> 1 <= #[trigger] log.insert(p, e)[i].log_id < next
                + 1,
        forall|i: int, j: int|
            0 <= i < log.insert(p, e).len() && 0 <= j < log.insert(p, e).len() && i != j
                ==> #[trigger] log.insert(p, e)[i].log_id != #[trigger] log.insert(p, e)[j].log_id,
{
    lemma_insert_index(log, p, e);
    let n = log.insert(p, e);
    assert forall|i: int| 0 <= i < n.len() implies 1 <= #[trigger] n[i].log_id < next + 1 by {
        if i > p {
            assert(1 <= log[i - 1].log_id < next);
        } else if i < p {
            assert(1 <= log[i].log_id < next);
        }
    }
    assert forall|i: int, j: int|
        0 <= i < n.len() && 0 <= j < n.len() && i != j implies #[trigger] n[i].log_id
        != #[trigger] n[j].log_id by {
        let oi = if i < p { i } else { i - 1 };
        let oj = if j < p { j } else { j - 1 };
        if i != p && j != p {
            assert(log[oi].log_id != log[oj].log_id);
        } else if i == p {
            assert(log[oj].log_id < next);
        } else {
            assert(log[oi].log_id < next);
        }
    }
}

/// An entry placed at `insert_position` keeps the log sorted.
#[verifier::spinoff_prover]
proof fn lemma_insert_sorted(log: Seq<EntryView>, e: EntryView)
    requires
        sorted_by_time(log),
    ensures
        sorted_by_time(log.insert(insert_position(log, e.timestamp), e)),
{
    let ts = e.timestamp;
    let p = insert_position(log, ts);
    lemma_insert_position(log, ts);
    lemma_insert_index(log, p, e);
    let n = log.insert(p, e);
    assert forall|i: int, j: int| 0 <= i < j < n.len() implies n[i].timestamp
        <= n[j].timestamp by {
        let oi = if i < p { i } else { i - 1 };
        let oj = if j < p { j } else { j - 1 };
        if i != p && j != p {
            assert(log[oi].timestamp <= log[oj].timestamp);
        } else if i == p {
            assert(log[oj].timestamp > ts);
        } else {
            assert(log[oi].timestamp <= ts);
        }
    }
}

/// An entry of a registered identity keeps every entry's owner registered.
#[verifier::spinoff_prover]
proof fn lemma_insert_owned(
    log: Seq<EntryView>,
    p: int,
    e: EntryView,
    users: Seq<(Seq<char>, Seq<char>)>,
)
    requires
        0 <= p <= log.len(),
        name_of(users, e.identity) is Some,
        forall|i: int| 0 <= i < log.len() ==> name_of(users, #[trigger] log[i].identity) is Some,
    ensures
        forall|i: int|
            0 <= i < log.insert(p, e).len() ==> name_of(users, #[trigger] log.insert(p, e)[i].identity)
                is Some,
{
    lemma_insert_index(log, p, e);
    let n = log.insert(p, e);
    assert forall|i: int| 0 <= i < n.len() implies name_of(users, #[trigger] n[i].identity)
        is Some by {
        if i < p {
            assert(name_of(users, log[i].identity) is Some);
        } else if i > p {
            assert(name_of(users, log[i - 1].identity) is Some);
        }
    }
}

/// Recording a reading keeps a store's state well formed.
proof fn lemma_record_keeps_wf(v: DatabaseView, identity: Seq<char>, bits: u32, ts: i64)
    requires
        state_wf(v),
    ensures
        state_wf(record_state(v, identity, bits, ts)),
{
    if record_result(v, identity) is Ok {
        let p = insert_position(v.log, ts);
        lemma_insert_position(v.log, ts);
        let e = EntryView { log_id: v.next_log_id, identity, timestamp: ts, temperature_bits: bits };
        lemma_insert_ids(v.log, p, e, v.next_log_id);
        lemma_insert_sorted(v.log, e);
        lemma_insert_owned(v.log, p, e, v.users);
    }
}

/// The in-memory store: a user registry and a temperature log.
pub struct Database {
    users: Vec<User>,
    log: Vec<LogEntry>,
    next_log_id: u64,
    connected: bool,
}

impl View for Database {
    type V = DatabaseView;

    closed spec fn view(&self) -> DatabaseView {
        DatabaseView {
            users: self.users@.map_values(|u: User| (u.identity@, u.name@)),
            log: self.log@.map_values(|e: LogEntry| e.view()),
            next_log_id: self.next_log_id,
            connected: self.connected,
        }
    }
}

/// The invariant of a store's state: the log holds one entry for each id
/// handed out, so the next id is one more than the number of entries; log ids
/// are at least 1, below the next id and pairwise distinct, hence exactly
/// `1..next_log_id`; the log is sorted by timestamp; every entry belongs to a
/// registered user.
pub open spec fn state_wf(v: DatabaseView) -> bool {
    &&& v.next_log_id >= 1
    &&& v.log.len() + 1 == v.next_log_id
    &&& forall|i: int| 0 <= i < v.log.len() ==> 1 <= #[trigger] v.log[i].log_id < v.next_log_id
    &&& forall|i: int, j: int|
        0 <= i < v.log.len() && 0 <= j < v.log.len() && i != j ==> #[trigger] v.log[i].log_id
            != #[trigger] v.log[j].log_id
    &&& sorted_by_time(v.log)
    &&& forall|i: int| 0 <= i < v.log.len() ==> name_of(v.users, #[trigger] v.log[i].identity) is Some
}

impl Database {
    pub open spec fn wf(&self) -> bool {
        state_wf(self@)
    }

    /// An empty store with no session open.
    pub fn new() -> (r: Database)
        ensures
            r.wf(),
            r@.users.len() == 0,
            r@.log.len() == 0,
            r@.next_log_id == 1,
            !r@.connected,
    {
        Database { users: Vec::new(), log: Vec::new(), next_log_id: 1, connected: false }
    }

    /// Opens a session; the contents are kept.
    pub fn connect(&mut self)
        requires
            old(self).wf(),
        ensures
            final(self).wf(),
            final(self)@ == (DatabaseView { connected: true, ..old(self)@ }),
    {
        self.connected = true;
    }

    /// The index of the registration of `identity` that `name_of` finds.
    fn find_user(&self, identity: &String) -> (r: Option<usize>)
        ensures
            match r {
                Some(i) => i < self@.users.len() && self@.users[i as int].0 == identity@
                    && name_of(self@.users, identity@) == Some(self@.users[i as int].1),
                None => name_of(self@.users, identity@) is None,
            },
    {
        let ghost uv = self@.users;
        let mut i: usize = self.users.len();
        assert(uv.take(i as int) =~= uv);
        while i > 0
            invariant
                i <= self.users@.len(),
                uv == self@.users,
                name_of(uv, identity@) == name_of(uv.take(i as int), identity@),
            decreases i,
        {
            assert(uv.take(i as int).drop_last() =~= uv.take(i - 1));
            if self.users[i - 1].identity == *identity {
                return Some(i - 1);
            }
            i = i - 1;
        }
        assert(uv.take(0) =~= Seq::<(Seq<char>, Seq<char>)>::empty());
        None
    }

    /// Where an entry with `timestamp` goes in the log.
    fn position_for(&self, timestamp: i64) -> (p: usize)
        requires
            sorted_by_time(self@.log),
        ensures
            p as int == insert_position(self@.log, timestamp),
            p <= self@.log.len(),
    {
        let ghost lv = self@.log;
        proof {
            lemma_insert_position(lv, timestamp);
        }
        let mut i: usize = self.log.len();
        assert(lv.take(i as int) =~= lv);
        while i > 0 && self.log[i - 1].timestamp > timestamp
            invariant
                i <= self.log@.len(),
                lv == self@.log,
                insert_position(lv, timestamp) == insert_position(lv.take(i as int), timestamp),
            decreases i,
        {
            assert(lv.take(i as int).drop_last() =~= lv.take(i - 1));
            i = i - 1;
        }
        if i > 0 {
            assert(lv.take(i as int).last() == lv[i - 1]);
        }
        i
    }

    /// Appends a reading of `user_id` taken at `timestamp` and returns the log
    /// id it was given: the next id, which is then spent.
    pub fn record(&mut self, user_id: &str, temperature_bits: u32, timestamp: i64) -> (r: Result<
        u64,
        DBError,
    >)
        requires
            old(self).wf(),
        ensures
            final(self).wf(),
            r == record_result(old(self)@, user_id@),
            final(self)@ == record_state(old(self)@, user_id@, temperature_bits, timestamp),
    {
        proof {
            lemma_record_keeps_wf(self@, user_id@, temperature_bits, timestamp);
        }
        if !self.connected || self.next_log_id == u64::MAX {
            return Err(DBError::StorageFailure);
        }
        let identity = user_id.to_owned();
        if self.find_user(&identity).is_none() {
            return Err(DBError::StorageFailure);
        }
        let pos = self.position_for(timestamp);
        let log_id = self.next_log_id;
        let ghost v0 = self@;
        let ghost old_log = self.log@;
        let entry = LogEntry { log_id, identity, timestamp, temperature_bits };
        let ghost ev = entry.view();
        self.log.insert(pos, entry);
        self.next_log_id = log_id + 1;
        proof {
            old_log.insert_ensures(pos as int, entry);
            v0.log.insert_ensures(pos as int, ev);
            assert forall|k: int| 0 <= k < self@.log.len() implies #[trigger] self@.log[k]
                == v0.log.insert(pos as int, ev)[k] by {
                if k > pos {
                    assert(self.log@[(k - 1) + 1] == old_log[k - 1]);
                    assert(v0.log.insert(pos as int, ev)[(k - 1) + 1] == v0.log[k - 1]);
                }
            }
        }
        assert(self@.log =~= v0.log.insert(pos as int, ev));
        assert(self@.users =~= v0.users);
        Ok(log_id)
    }

    /// The readings of `user_id` taken in `[start, end]`, oldest first, each
    /// with the user's display name. An unregistered identity has none.
    pub fn fetch_record(&self, user_id: &str, start: i64, end: i64) -> (r: Result<
        Vec<Record>,
        DBError,
    >)
        requires
            self.wf(),
        ensures
            match (r, query_result(self@, user_id@, start, end)) {
                (Ok(rows), Ok(q)) => records_view(rows@) == q,
                (Err(e), Err(f)) => e == f,
                _ => false,
            },
    {
        if end <= start {
            return Err(DBError::InvalidRange);
        }
        if !self.connected {
            return Err(DBError::StorageFailure);
        }
        let identity = user_id.to_owned();
        let name = match self.find_user(&identity) {
            None => {
                assert(records_view(Seq::<Record>::empty()) =~= Seq::<RecordView>::empty());
                return Ok(Vec::new());
            },
            Some(u) => self.users[u].name.clone(),
        };
        let ghost lv = self@.log;
        let mut rows: Vec<Record> = Vec::new();
        let mut i: usize = 0;
        while i < self.log.len()
            invariant
                i <= self.log@.len(),
                lv == self@.log,
                identity@ == user_id@,
                records_view(rows@) == rows_in_window(lv.take(i as int), identity@, name@, start, end),
            decreases self.log@.len() - i,
        {
            assert(lv.take(i + 1).drop_last() =~= lv.take(i as int));
            assert(lv.take(i + 1).last() == lv[i as int]);
            let e = &self.log[i];
            if e.identity == identity && start <= e.timestamp && e.timestamp <= end {
                let ghost before = rows@;
                rows.push(Record { date: e.timestamp, name: name.clone(), temperature_bits: e.temperature_bits });
                assert(records_view(rows@) =~= records_view(before).push(rows@.last().view()));
            }
            i = i + 1;
        }
        assert(lv.take(i as int) =~= lv);
        Ok(rows)
    }

    /// Registers `identity` under `username`. An identity that is already
    /// registered keeps its display name and is reported as such.
    pub fn create_user(&mut self, user_id: &str, username: &str) -> (r: Result<Registration, DBError>)
        requires
            old(self).wf(),
        ensures
            final(self).wf(),
            r == register_result(old(self)@, user_id@),
            final(self)@ == register_state(old(self)@, user_id@, username@),
    {
        if !self.connected {
            return Err(DBError::StorageFailure);
        }
        let identity = user_id.to_owned();
        match self.find_user(&identity) {
            Some(_) => Ok(Registration::AlreadyExists),
            None => {
                let ghost v0 = self@;
                self.users.push(User { identity, name: username.to_owned() });
                assert(self@.users =~= v0.users.push((user_id@, username@)));
                assert forall|id: Seq<char>| name_of(v0.users, id) is Some implies name_of(
                    self@.users,
                    id,
                ) is Some by {
                    assert(self@.users.drop_last() =~= v0.users);
                }
                assert(self@.log =~= v0.log);
                Ok(Registration::Created)
            },
        }
    }
}

} // verus!

verus! {

/// The state and the replies after recording `calls` (identity, reading,
/// timestamp) one after another, starting from `v`.
pub open spec fn record_all(v: DatabaseView, calls: Seq<(Seq<char>, u32, i64)>) -> (
    DatabaseView,
    Seq<Result<u64, DBError>>,
)
    decreases calls.len(),
{
    if calls.len() == 0 {
        (v, Seq::empty())
    } else {
        let (w, replies) = record_all(v, calls.drop_last());
        let c = calls.last();
        (record_state(w, c.0, c.1, c.2), replies.push(record_result(w, c.0)))
    }
}

/// Where no entry of `identity` lies in the window, no row comes out.
proof fn lemma_rows_empty(
    log: Seq<EntryView>,
    identity: Seq<char>,
    name: Seq<char>,
    start: i64,
    end: i64,
)
    requires
        forall|i: int| 0 <= i < log.len() ==> !in_window(#[trigger] log[i], identity, start, end),
    ensures
        rows_in_window(log, identity, name, start, end) == Seq::<RecordView>::empty(),
    decreases log.len(),
{
    if log.len() > 0 {
        let d = log.drop_last();
        assert forall|i: int| 0 <= i < d.len() implies !in_window(#[trigger] d[i], identity, start, end) by {
            assert(d[i] == log[i]);
        }
        lemma_rows_empty(d, identity, name, start, end);
        assert(!in_window(log[log.len() - 1], identity, start, end));
    }
}

/// A query on an open store over a proper window in which the identity has
/// no readings, or for an identity with none at all, gives an empty result,
/// not an error.
pub proof fn lemma_empty_window_is_empty(v: DatabaseView, identity: Seq<char>, start: i64, end: i64)
    requires
        v.connected,
        start < end,
        forall|i: int| 0 <= i < v.log.len() ==> !in_window(#[trigger] v.log[i], identity, start, end),
    ensures
        query_result(v, identity, start, end) == Ok::<Seq<RecordView>, DBError>(Seq::empty()),
{
    if let Some(name) = name_of(v.users, identity) {
        lemma_rows_empty(v.log, identity, name, start, end);
    }
}

/// Registering an identity twice: the first call creates it, the second
/// reports that it exists, changes nothing, and the first display name stays.
pub proof fn lemma_register_twice(
    v: DatabaseView,
    identity: Seq<char>,
    first_name: Seq<char>,
    second_name: Seq<char>,
)
    requires
        v.connected,
        name_of(v.users, identity) is None,
    ensures
        register_result(v, identity) == Ok::<Registration, DBError>(Registration::Created),
        register_result(register_state(v, identity, first_name), identity) == Ok::<
            Registration,
            DBError,
        >(Registration::AlreadyExists),
        register_state(register_state(v, identity, first_name), identity, second_name)
            == register_state(v, identity, first_name),
        name_of(
            register_state(register_state(v, identity, first_name), identity, second_name).users,
            identity,
        ) == Some(first_name),
{
    let w = register_state(v, identity, first_name);
    assert(w.users.drop_last() =~= v.users);
}

/// Any number of successive recordings for registered identities on an open
/// store, with ids to spare, all succeed and are given the ids
/// `next_log_id, next_log_id + 1, ...`: distinct, without gaps, in call order.
pub proof fn lemma_record_ids_contiguous(v: DatabaseView, calls: Seq<(Seq<char>, u32, i64)>)
    requires
        v.connected,
        forall|i: int| 0 <= i < calls.len() ==> name_of(v.users, #[trigger] calls[i].0) is Some,
        v.next_log_id + calls.len() < u64::MAX,
    ensures
        record_all(v, calls).1.len() == calls.len(),
        forall|i: int|
            0 <= i < calls.len() ==> #[trigger] record_all(v, calls).1[i] == Ok::<u64, DBError>(
                (v.next_log_id + i) as u64,
            ),
        record_all(v, calls).0.next_log_id == v.next_log_id + calls.len(),
        record_all(v, calls).0.users == v.users,
        record_all(v, calls).0.connected,
        state_wf(v) ==> forall|i: int, j: int|
            0 <= i < calls.len() && 0 <= j < v.log.len() ==> (#[trigger] v.log[j]).log_id
                < (#[trigger] record_all(v, calls).1[i])->Ok_0,
    decreases calls.len(),
{
    if calls.len() > 0 {
        let d = calls.drop_last();
        assert forall|i: int| 0 <= i < d.len() implies name_of(v.users, #[trigger] d[i].0) is Some by {
            assert(d[i] == calls[i]);
        }
        lemma_record_ids_contiguous(v, d);
        let (w, replies) = record_all(v, d);
        let c = calls.last();
        assert(name_of(v.users, calls[calls.len() - 1].0) is Some);
        assert(record_result(w, c.0) == Ok::<u64, DBError>((v.next_log_id + d.len()) as u64));
        let all = record_all(v, calls).1;
        assert forall|i: int| 0 <= i < calls.len() implies #[trigger] all[i] == Ok::<u64, DBError>(
            (v.next_log_id + i) as u64,
        ) by {
            if i < d.len() {
                assert(all[i] == replies[i]);
            }
        }
    }
}

} // verus!
