//! Traffic statistics: bytes per protocol for the current second, a
//! bounded history of past seconds, and their totals.

use vstd::prelude::*;

verus! {

broadcast use vstd::string::group_string_axioms;

/// Entries of a traffic table: a protocol name and a byte count.
pub type TrafficEntries = Seq<(Seq<char>, usize)>;

pub open spec fn has_protocol(e: TrafficEntries, k: Seq<char>) -> bool {
    exists|i: int| 0 <= i < e.len() && #[trigger] e[i].0 == k
}

pub open spec fn protocols_distinct(e: TrafficEntries) -> bool {
    forall|i: int, j: int| 0 <= i < j < e.len() ==> #[trigger] e[i].0 != #[trigger] e[j].0
}

/// The bytes a table records for protocol `k` (0 when it has no entry).
pub open spec fn traffic_of(e: TrafficEntries, k: Seq<char>) -> nat
    decreases e.len(),
{
    if e.len() == 0 {
        0
    } else {
        traffic_of(e.drop_last(), k) + if e.last().0 == k {
            e.last().1 as nat
        } else {
            0
        }
    }
}

/// A table after `n` more bytes of protocol `k`: the entry of `k` grows, or
/// a new entry is appended.
pub open spec fn add_traffic(e: TrafficEntries, k: Seq<char>, n: usize) -> TrafficEntries {
    if has_protocol(e, k) {
        let i = choose|i: int| 0 <= i < e.len() && #[trigger] e[i].0 == k;
        e.update(i, (k, (e[i].1 + n) as usize))
    } else {
        e.push((k, n))
    }
}

/// The bytes that all tables of `maps` record for protocol `k`.
pub open spec fn total_traffic(maps: Seq<TrafficEntries>, k: Seq<char>) -> nat
    decreases maps.len(),
{
    if maps.len() == 0 {
        0
    } else {
        total_traffic(maps.drop_last(), k) + traffic_of(maps.last(), k)
    }
}

/// Some table of `maps` has an entry for protocol `k`.
pub open spec fn seen_in(maps: Seq<TrafficEntries>, k: Seq<char>) -> bool {
    exists|h: int| 0 <= h < maps.len() && has_protocol(#[trigger] maps[h], k)
}

pub proof fn lemma_traffic_of_absent(e: TrafficEntries, k: Seq<char>)
    requires
        !has_protocol(e, k),
    ensures
        traffic_of(e, k) == 0,
    decreases e.len(),
{
    if e.len() > 0 {
        assert(!has_protocol(e.drop_last(), k)) by {
            if has_protocol(e.drop_last(), k) {
                let i = choose|i: int| 0 <= i < e.drop_last().len() && #[trigger] e.drop_last()[i].0 == k;
                assert(e[i].0 == k);
            }
        }
        lemma_traffic_of_absent(e.drop_last(), k);
        assert(e.last() == e[e.len() - 1]);
    }
}

pub proof fn lemma_traffic_of_push(e: TrafficEntries, x: (Seq<char>, usize), k: Seq<char>)
    ensures
        traffic_of(e.push(x), k) == traffic_of(e, k) + if x.0 == k {
            x.1 as nat
        } else {
            0
        },
{
    assert(e.push(x).drop_last() =~= e);
}

pub proof fn lemma_traffic_of_update(e: TrafficEntries, i: int, v: usize, k: Seq<char>)
    requires
        0 <= i < e.len(),
    ensures
        traffic_of(e.update(i, (e[i].0, v)), k) + (if e[i].0 == k {
            e[i].1 as nat
        } else {
            0
        }) == traffic_of(e, k) + (if e[i].0 == k {
            v as nat
        } else {
            0
        }),
    decreases e.len(),
{
    let u = e.update(i, (e[i].0, v));
    if i == e.len() - 1 {
        assert(u.drop_last() =~= e.drop_last());
    } else {
        assert(u.drop_last() =~= e.drop_last().update(i, (e[i].0, v)));
        lemma_traffic_of_update(e.drop_last(), i, v, k);
    }
}

/// With distinct protocols, the entry of `e[i]` holds all its bytes.
pub proof fn lemma_traffic_of_entry(e: TrafficEntries, i: int)
    requires
        0 <= i < e.len(),
        protocols_distinct(e),
    ensures
        traffic_of(e, e[i].0) == e[i].1,
    decreases e.len(),
{
    let k = e[i].0;
    if i == e.len() - 1 {
        assert(!has_protocol(e.drop_last(), k)) by {
            if has_protocol(e.drop_last(), k) {
                let j = choose|j: int| 0 <= j < e.drop_last().len() && #[trigger] e.drop_last()[j].0 == k;
                assert(e[j].0 == k);
            }
        }
        lemma_traffic_of_absent(e.drop_last(), k);
    } else {
        assert(protocols_distinct(e.drop_last())) by {
            assert forall|a: int, b: int| 0 <= a < b < e.drop_last().len() implies #[trigger] e.drop_last()[a].0
                != #[trigger] e.drop_last()[b].0 by {
                assert(e.drop_last()[a] == e[a]);
                assert(e.drop_last()[b] == e[b]);
            }
        }
        assert(e.drop_last()[i] == e[i]);
        lemma_traffic_of_entry(e.drop_last(), i);
        assert(e.last().0 != k) by {
            assert(e[e.len() - 1].0 != e[i].0);
        }
    }
}

/// What adding bytes does to the table: only the protocol added to grows,
/// by the bytes added, and it has an entry afterwards.
pub proof fn lemma_add_traffic(e: TrafficEntries, k: Seq<char>, n: usize, q: Seq<char>)
    requires
        protocols_distinct(e),
        traffic_of(e, k) + n <= usize::MAX,
    ensures
        protocols_distinct(add_traffic(e, k, n)),
        traffic_of(add_traffic(e, k, n), q) == traffic_of(e, q) + if q == k {
            n as nat
        } else {
            0
        },
        has_protocol(add_traffic(e, k, n), q) <==> has_protocol(e, q) || q == k,
{
    let r = add_traffic(e, k, n);
    if has_protocol(e, k) {
        let i = choose|i: int| 0 <= i < e.len() && #[trigger] e[i].0 == k;
        lemma_traffic_of_entry(e, i);
        lemma_traffic_of_update(e, i, (e[i].1 + n) as usize, q);
        assert forall|a: int, b: int| 0 <= a < b < r.len() implies #[trigger] r[a].0
            != #[trigger] r[b].0 by {
            assert(r[a].0 == e[a].0);
            assert(r[b].0 == e[b].0);
        }
        if has_protocol(r, q) {
            let j = choose|j: int| 0 <= j < r.len() && #[trigger] r[j].0 == q;
            assert(e[j].0 == q);
        }
        if has_protocol(e, q) {
            let j = choose|j: int| 0 <= j < e.len() && #[trigger] e[j].0 == q;
            assert(r[j].0 == q);
        }
    } else {
        lemma_traffic_of_push(e, (k, n), q);
        assert forall|a: int, b: int| 0 <= a < b < r.len() implies #[trigger] r[a].0
            != #[trigger] r[b].0 by {
            if b == e.len() {
                assert(r[a].0 == e[a].0);
            }
        }
        if has_protocol(r, q) {
            let j = choose|j: int| 0 <= j < r.len() && #[trigger] r[j].0 == q;
            if j < e.len() {
                assert(e[j].0 == q);
            }
        }
        if has_protocol(e, q) {
            let j = choose|j: int| 0 <= j < e.len() && #[trigger] e[j].0 == q;
            assert(r[j].0 == q);
        }
        assert(r[e.len() as int].0 == k);
    }
}

pub proof fn lemma_traffic_of_take(e: TrafficEntries, j: int, k: Seq<char>)
    requires
        0 <= j < e.len(),
    ensures
        traffic_of(e.take(j + 1), k) == traffic_of(e.take(j), k) + if e[j].0 == k {
            e[j].1 as nat
        } else {
            0
        },
        has_protocol(e.take(j + 1), k) <==> has_protocol(e.take(j), k) || e[j].0 == k,
{
    assert(e.take(j + 1).drop_last() =~= e.take(j));
    if has_protocol(e.take(j + 1), k) {
        let i = choose|i: int| 0 <= i < e.take(j + 1).len() && #[trigger] e.take(j + 1)[i].0 == k;
        if i < j {
            assert(e.take(j)[i].0 == k);
        }
    }
    if has_protocol(e.take(j), k) {
        let i = choose|i: int| 0 <= i < e.take(j).len() && #[trigger] e.take(j)[i].0 == k;
        assert(e.take(j + 1)[i].0 == k);
    }
    if e[j].0 == k {
        assert(e.take(j + 1)[j].0 == k);
    }
}

pub proof fn lemma_traffic_of_prefix(e: TrafficEntries, j: int, k: Seq<char>)
    requires
        0 <= j <= e.len(),
    ensures
        traffic_of(e.take(j), k) <= traffic_of(e, k),
    decreases e.len() - j,
{
    if j < e.len() {
        lemma_traffic_of_take(e, j, k);
        lemma_traffic_of_prefix(e, j + 1, k);
    } else {
        assert(e.take(j) =~= e);
    }
}

pub proof fn lemma_total_traffic_take(maps: Seq<TrafficEntries>, h: int, k: Seq<char>)
    requires
        0 <= h < maps.len(),
    ensures
        total_traffic(maps.take(h + 1), k) == total_traffic(maps.take(h), k) + traffic_of(maps[h], k),
        seen_in(maps.take(h + 1), k) <==> seen_in(maps.take(h), k) || has_protocol(maps[h], k),
{
    assert(maps.take(h + 1).drop_last() =~= maps.take(h));
    if seen_in(maps.take(h + 1), k) {
        let i = choose|i: int| 0 <= i < maps.take(h + 1).len() && has_protocol(#[trigger] maps.take(h + 1)[i], k);
        if i < h {
            assert(maps.take(h)[i] == maps[i]);
        }
    }
    if seen_in(maps.take(h), k) {
        let i = choose|i: int| 0 <= i < maps.take(h).len() && has_protocol(#[trigger] maps.take(h)[i], k);
        assert(maps.take(h + 1)[i] == maps[i]);
    }
    if has_protocol(maps[h], k) {
        assert(maps.take(h + 1)[h] == maps[h]);
    }
}

pub proof fn lemma_total_traffic_prefix(maps: Seq<TrafficEntries>, h: int, k: Seq<char>)
    requires
        0 <= h <= maps.len(),
    ensures
        total_traffic(maps.take(h), k) <= total_traffic(maps, k),
    decreases maps.len() - h,
{
    if h < maps.len() {
        lemma_total_traffic_take(maps, h, k);
        lemma_total_traffic_prefix(maps, h + 1, k);
    } else {
        assert(maps.take(h) =~= maps);
    }
}

/// Bytes per protocol.
pub struct TrafficMap {
    entries: Vec<(String, usize)>,
}

pub open spec fn traffic_entries(v: Seq<(String, usize)>) -> TrafficEntries {
    v.map_values(|e: (String, usize)| (e.0@, e.1))
}

impl View for TrafficMap {
    type V = TrafficEntries;

    closed spec fn view(&self) -> TrafficEntries {
        traffic_entries(self.entries@)
    }
}

impl TrafficMap {
    #[verifier::type_invariant]
    spec fn inv(self) -> bool {
        protocols_distinct(traffic_entries(self.entries@))
    }

    pub fn new() -> (r: Self)
        ensures
            r@ == Seq::<(Seq<char>, usize)>::empty(),
    {
        let r = TrafficMap { entries: Vec::new() };
        assert(r@ =~= Seq::<(Seq<char>, usize)>::empty());
        r
    }

    /// The bytes recorded for `protocol`.
    pub fn get(&self, protocol: &str) -> (r: Option<&usize>)
        ensures
            match r {
                Some(v) => has_protocol(self@, protocol@) && traffic_of(self@, protocol@) == *v,
                None => !has_protocol(self@, protocol@) && traffic_of(self@, protocol@) == 0,
            },
    {
        proof {
            use_type_invariant(self);
        }
        match Self::position_in(&self.entries, protocol) {
            Some(i) => {
                proof {
                    lemma_traffic_of_entry(self@, i as int);
                }
                Some(&self.entries[i].1)
            },
            None => {
                proof {
                    lemma_traffic_of_absent(self@, protocol@);
                }
                None
            },
        }
    }

    /// The entries, in the order in which the protocols were first recorded.
    pub fn entries(&self) -> (r: &Vec<(String, usize)>)
        ensures
            traffic_entries(r@) == self@,
    {
        &self.entries
    }

    pub fn len(&self) -> (r: usize)
        ensures
            r == self@.len(),
    {
        self.entries.len()
    }

    pub fn is_empty(&self) -> (r: bool)
        ensures
            r == (self@.len() == 0),
    {
        self.entries.len() == 0
    }

    /// Records `n` more bytes of `protocol`.
    pub fn add(&mut self, protocol: &str, n: usize)
        requires
            traffic_of(old(self)@, protocol@) + n <= usize::MAX,
        ensures
            final(self)@ == add_traffic(old(self)@, protocol@, n),
    {
        proof {
            use_type_invariant(&*self);
            lemma_add_traffic(self@, protocol@, n, protocol@);
        }
        let ghost e = self@;
        let mut entries: Vec<(String, usize)> = Vec::new();
        std::mem::swap(&mut entries, &mut self.entries);
        assert(traffic_entries(entries@) == e);
        match Self::position_in(&entries, protocol) {
            Some(i) => {
                proof {
                    lemma_traffic_of_entry(e, i as int);
                    let j = choose|j: int| 0 <= j < e.len() && #[trigger] e[j].0 == protocol@;
                    assert(j == i as int);
                }
                let (name, bytes) = entries.remove(i);
                entries.insert(i, (name, bytes + n));
                assert(traffic_entries(entries@) =~= add_traffic(e, protocol@, n));
            },
            None => {
                entries.push((String::from_str(protocol), n));
                assert(traffic_entries(entries@) =~= add_traffic(e, protocol@, n));
            },
        }
        self.entries = entries;
    }

    fn position_in(entries: &Vec<(String, usize)>, protocol: &str) -> (r: Option<usize>)
        ensures
            match r {
                Some(i) => i < entries@.len() && traffic_entries(entries@)[i as int].0 == protocol@,
                None => !has_protocol(traffic_entries(entries@), protocol@),
            },
    {
        let key = String::from_str(protocol);
        let mut i: usize = 0;
        while i < entries.len()
            invariant
                0 <= i <= entries@.len(),
                key@ == protocol@,
                forall|j: int| 0 <= j < i ==> #[trigger] traffic_entries(entries@)[j].0 != protocol@,
            decreases entries@.len() - i,
        {
            if entries[i].0 == key {
                return Some(i);
            }
            i = i + 1;
        }
        None
    }
}


/// Seconds since the Unix epoch, from the system clock
/// (`chrono::Utc::now().timestamp()`, as `u64`). Nothing is stated of the
/// value: it is whatever the clock says.
#[verifier::external_body]
fn unix_time_now() -> u64 {
    chrono::Utc::now().timestamp() as u64
}

/// What a protocol analyzer holds, as plain values.
pub struct AnalyzerView {
    pub current: TrafficEntries,
    pub history: Seq<(u64, TrafficEntries)>,
    pub last_update_time: u64,
    pub history_limit: usize,
}

pub open spec fn history_entries(v: Seq<(u64, TrafficMap)>) -> Seq<(u64, TrafficEntries)> {
    v.map_values(|e: (u64, TrafficMap)| (e.0, e.1@))
}

/// The history after closing a second that started at `start` with the
/// traffic `closed`: the oldest second leaves when the history grows past
/// its limit.
pub open spec fn history_after(
    history: Seq<(u64, TrafficEntries)>,
    start: u64,
    closed: TrafficEntries,
    limit: usize,
) -> Seq<(u64, TrafficEntries)> {
    let h = history.push((start, closed));
    if h.len() > limit {
        h.drop_first()
    } else {
        h
    }
}

/// The analyzer after a packet of `length` bytes of `protocol` at time
/// `now`: the bytes are counted for the current second; once a second or
/// more has passed since the current second started, the current second is
/// closed into the history and a new one starts at `now`.
pub open spec fn analyzer_after(a: AnalyzerView, protocol: Seq<char>, length: usize, now: u64) -> AnalyzerView {
    let current = add_traffic(a.current, protocol, length);
    if now - a.last_update_time >= 1 {
        AnalyzerView {
            current: Seq::empty(),
            history: history_after(a.history, a.last_update_time, current, a.history_limit),
            last_update_time: now,
            history_limit: a.history_limit,
        }
    } else {
        AnalyzerView { current, ..a }
    }
}

/// The tables of the history, oldest first, then the current one.
pub open spec fn all_tables(a: AnalyzerView) -> Seq<TrafficEntries> {
    a.history.map_values(|e: (u64, TrafficEntries)| e.1).push(a.current)
}

/// The history holds at most `history_limit` seconds, oldest first, each
/// started before the current second.
pub open spec fn history_in_order(a: AnalyzerView) -> bool {
    &&& a.history.len() <= a.history_limit
    &&& forall|i: int, j: int|
        0 <= i < j < a.history.len() ==> #[trigger] a.history[i].0 < #[trigger] a.history[j].0
    &&& forall|i: int| 0 <= i < a.history.len() ==> #[trigger] a.history[i].0 < a.last_update_time
}

/// Counting a packet keeps the history in order and within its limit.
pub proof fn lemma_history_in_order_step(a: AnalyzerView, protocol: Seq<char>, length: usize, now: u64)
    requires
        history_in_order(a),
    ensures
        history_in_order(analyzer_after(a, protocol, length, now)),
{
    let b = analyzer_after(a, protocol, length, now);
    if now - a.last_update_time >= 1 {
        let cur = add_traffic(a.current, protocol, length);
        let h = a.history.push((a.last_update_time, cur));
        assert forall|i: int, j: int| 0 <= i < j < h.len() implies #[trigger] h[i].0 < #[trigger] h[j].0 by {
            if j == a.history.len() {
                assert(h[i] == a.history[i]);
            } else {
                assert(h[i] == a.history[i]);
                assert(h[j] == a.history[j]);
            }
        }
        assert forall|i: int| 0 <= i < h.len() implies #[trigger] h[i].0 < now by {
            if i < a.history.len() {
                assert(h[i] == a.history[i]);
            }
        }
        if h.len() > a.history_limit {
            let d = h.drop_first();
            assert(b.history == d);
            assert forall|i: int, j: int| 0 <= i < j < d.len() implies #[trigger] d[i].0
                < #[trigger] d[j].0 by {
                assert(d[i] == h[i + 1]);
                assert(d[j] == h[j + 1]);
            }
            assert forall|i: int| 0 <= i < d.len() implies #[trigger] d[i].0 < now by {
                assert(d[i] == h[i + 1]);
            }
        } else {
            assert(b.history == h);
        }
    }
}

/// Protocol analyzer for traffic statistics
pub struct ProtocolAnalyzer {
    current_traffic: TrafficMap,
    traffic_history: Vec<(u64, TrafficMap)>,
    last_update_time: u64,
    history_limit: usize,
}

impl View for ProtocolAnalyzer {
    type V = AnalyzerView;

    closed spec fn view(&self) -> AnalyzerView {
        AnalyzerView {
            current: self.current_traffic@,
            history: history_entries(self.traffic_history@),
            last_update_time: self.last_update_time,
            history_limit: self.history_limit,
        }
    }
}

impl ProtocolAnalyzer {
    #[verifier::type_invariant]
    spec fn inv(self) -> bool {
        history_in_order(self@)
    }

    /// An analyzer with no traffic whose current second started at `now`.
    pub fn new_at(history_limit: usize, now: u64) -> (r: Self)
        ensures
            r@ == (AnalyzerView {
                current: Seq::empty(),
                history: Seq::empty(),
                last_update_time: now,
                history_limit,
            }),
    {
        let r = Self {
            current_traffic: TrafficMap::new(),
            traffic_history: Vec::new(),
            last_update_time: now,
            history_limit,
        };
        assert(r@.history =~= Seq::<(u64, TrafficEntries)>::empty());
        r
    }

    /// An analyzer with no traffic whose current second starts at the time
    /// the system clock gives.
    pub fn new(history_limit: usize) -> (r: Self)
        ensures
            r@.current == Seq::<(Seq<char>, usize)>::empty(),
            r@.history == Seq::<(u64, TrafficEntries)>::empty(),
            r@.history_limit == history_limit,
    {
        Self::new_at(history_limit, unix_time_now())
    }

    /// Counts a packet at time `current_time` (seconds since the epoch). A
    /// time that is not later than the start of the current second counts
    /// the packet in the current second.
    pub fn add_packet_at(&mut self, protocol: &str, length: usize, current_time: u64)
        requires
            traffic_of(old(self)@.current, protocol@) + length <= usize::MAX,
        ensures
            final(self)@ == analyzer_after(old(self)@, protocol@, length, current_time),
    {
        proof {
            use_type_invariant(&*self);
            lemma_history_in_order_step(self@, protocol@, length, current_time);
        }
        let mut cur = TrafficMap::new();
        std::mem::swap(&mut cur, &mut self.current_traffic);
        cur.add(protocol, length);
        if current_time > self.last_update_time {
            let mut history: Vec<(u64, TrafficMap)> = Vec::new();
            std::mem::swap(&mut history, &mut self.traffic_history);
            let ghost h = history_entries(history@);
            history.push((self.last_update_time, cur));
            assert(history_entries(history@) =~= h.push((old(self)@.last_update_time, cur@)));
            if history.len() > self.history_limit {
                let ghost h1 = history_entries(history@);
                history.remove(0);
                assert(history_entries(history@) =~= h1.drop_first());
            }
            self.last_update_time = current_time;
            self.traffic_history = history;
        } else {
            self.current_traffic = cur;
        }
    }

    /// Counts a packet at the time the system clock gives: the analyzer
    /// becomes `analyzer_after` of that reading. A reading earlier than the
    /// start of the current second counts the packet in the current second.
    /// When the count of the protocol would overflow, the analyzer is left
    /// unchanged.
    pub fn add_packet(&mut self, protocol: &str, length: usize)
        ensures
            traffic_of(old(self)@.current, protocol@) + length > usize::MAX ==> final(self)@
                == old(self)@,
            traffic_of(old(self)@.current, protocol@) + length <= usize::MAX ==> exists|now: u64|
                final(self)@ == analyzer_after(old(self)@, protocol@, length, now),
    {
        let fits = match self.current_traffic.get(protocol) {
            Some(v) => length <= usize::MAX - *v,
            None => true,
        };
        if fits {
            let now = unix_time_now();
            self.add_packet_at(protocol, length, now);
        }
    }

    /// Adds every entry of `m` to `acc`; `false` when some protocol's count
    /// would exceed `usize`.
    fn try_add_all(acc: &mut TrafficMap, m: &TrafficMap) -> (ok: bool)
        ensures
            ok ==> forall|k: Seq<char>|
                #[trigger] traffic_of(final(acc)@, k) == traffic_of(old(acc)@, k) + traffic_of(m@, k),
            ok ==> forall|k: Seq<char>|
                #[trigger] has_protocol(final(acc)@, k) <==> has_protocol(old(acc)@, k)
                    || has_protocol(m@, k),
            !ok ==> exists|k: Seq<char>|
                #[trigger] traffic_of(old(acc)@, k) + traffic_of(m@, k) > usize::MAX,
    {
        let entries = m.entries();
        let ghost e = m@;
        let ghost a0 = acc@;
        let mut j: usize = 0;
        assert(e.take(0) =~= Seq::<(Seq<char>, usize)>::empty());
        while j < entries.len()
            invariant
                traffic_entries(entries@) == e,
                e == m@,
                a0 == old(acc)@,
                0 <= j <= e.len(),
                forall|k: Seq<char>|
                    #[trigger] traffic_of(acc@, k) == traffic_of(a0, k) + traffic_of(e.take(j as int), k),
                forall|k: Seq<char>|
                    #[trigger] has_protocol(acc@, k) <==> has_protocol(a0, k) || has_protocol(
                        e.take(j as int),
                        k,
                    ),
            decreases e.len() - j,
        {
            let entry = &entries[j];
            let ghost name = entry.0@;
            assert(e[j as int] == (name, entry.1));
            proof {
                lemma_traffic_of_take(e, j as int, name);
                lemma_traffic_of_prefix(e, j as int + 1, name);
                use_type_invariant(&*acc);
            }
            let have = match acc.get(entry.0.as_str()) {
                Some(v) => *v,
                None => 0,
            };
            if entry.1 > usize::MAX - have {
                assert(traffic_of(a0, name) + traffic_of(e, name) > usize::MAX);
                assert(traffic_of(old(acc)@, name) + traffic_of(m@, name) > usize::MAX);
                return false;
            }
            let ghost before = acc@;
            acc.add(entry.0.as_str(), entry.1);
            proof {
                assert forall|k: Seq<char>|
                    #[trigger] traffic_of(acc@, k) == traffic_of(a0, k) + traffic_of(e.take(j + 1), k) by {
                    lemma_add_traffic(before, name, entry.1, k);
                    lemma_traffic_of_take(e, j as int, k);
                }
                assert forall|k: Seq<char>|
                    #[trigger] has_protocol(acc@, k) <==> has_protocol(a0, k) || has_protocol(
                        e.take(j + 1),
                        k,
                    ) by {
                    lemma_add_traffic(before, name, entry.1, k);
                    lemma_traffic_of_take(e, j as int, k);
                }
            }
            j = j + 1;
        }
        assert(e.take(e.len() as int) =~= e);
        true
    }

    /// Adds table `h` of `tables` to `acc`, which holds the totals of the
    /// tables before it; `false` when some total exceeds `usize`.
    fn add_table(
        acc: &mut TrafficMap,
        m: &TrafficMap,
        Ghost(tables): Ghost<Seq<TrafficEntries>>,
        Ghost(h): Ghost<int>,
    ) -> (ok: bool)
        requires
            0 <= h < tables.len(),
            tables[h] == m@,
            forall|k: Seq<char>|
                #[trigger] traffic_of(old(acc)@, k) == total_traffic(tables.take(h), k),
            forall|k: Seq<char>|
                #[trigger] has_protocol(old(acc)@, k) <==> seen_in(tables.take(h), k),
        ensures
            ok ==> forall|k: Seq<char>|
                #[trigger] traffic_of(final(acc)@, k) == total_traffic(tables.take(h + 1), k),
            ok ==> forall|k: Seq<char>|
                #[trigger] has_protocol(final(acc)@, k) <==> seen_in(tables.take(h + 1), k),
            !ok ==> exists|k: Seq<char>| #[trigger] total_traffic(tables, k) > usize::MAX,
    {
        let ghost before = acc@;
        if !Self::try_add_all(acc, m) {
            proof {
                let k = choose|k: Seq<char>|
                    #[trigger] traffic_of(before, k) + traffic_of(m@, k) > usize::MAX;
                lemma_total_traffic_take(tables, h, k);
                lemma_total_traffic_prefix(tables, h + 1, k);
                assert(total_traffic(tables, k) > usize::MAX);
            }
            return false;
        }
        proof {
            assert forall|k: Seq<char>|
                #[trigger] traffic_of(acc@, k) == total_traffic(tables.take(h + 1), k) by {
                lemma_total_traffic_take(tables, h, k);
            }
            assert forall|k: Seq<char>|
                #[trigger] has_protocol(acc@, k) <==> seen_in(tables.take(h + 1), k) by {
                lemma_total_traffic_take(tables, h, k);
                assert(has_protocol(acc@, k) <==> has_protocol(before, k) || has_protocol(m@, k));
                assert(has_protocol(before, k) <==> seen_in(tables.take(h), k));
            }
        }
        true
    }

    /// The bytes per protocol over the whole history and the current second;
    /// `None` when the total of some protocol exceeds `usize`.
    #[verifier::spinoff_prover]
    pub fn checked_accumulated_traffic(&self) -> (r: Option<TrafficMap>)
        ensures
            match r {
                Some(m) => (forall|k: Seq<char>|
                    #[trigger] traffic_of(m@, k) == total_traffic(all_tables(self@), k)) && (forall|
                    k: Seq<char>,
                | #[trigger] has_protocol(m@, k) <==> seen_in(all_tables(self@), k))
                    && protocols_distinct(m@),
                None => exists|k: Seq<char>| #[trigger] total_traffic(all_tables(self@), k) > usize::MAX,
            },
    {
        let ghost tables = all_tables(self@);
        let mut acc = TrafficMap::new();
        let mut h: usize = 0;
        assert(tables.take(0) =~= Seq::<TrafficEntries>::empty());
        let n = self.traffic_history.len();
        while h < n
            invariant
                tables == all_tables(self@),
                n == self.traffic_history@.len(),
                tables.len() == n + 1,
                0 <= h <= n,
                forall|k: Seq<char>|
                    #[trigger] traffic_of(acc@, k) == total_traffic(tables.take(h as int), k),
                forall|k: Seq<char>|
                    #[trigger] has_protocol(acc@, k) <==> seen_in(tables.take(h as int), k),
            decreases n - h,
        {
            let m = &self.traffic_history[h].1;
            if !Self::add_table(&mut acc, m, Ghost(tables), Ghost(h as int)) {
                return None;
            }
            h = h + 1;
        }
        if !Self::add_table(&mut acc, &self.current_traffic, Ghost(tables), Ghost(n as int)) {
            return None;
        }
        assert(tables.take(n as int + 1) =~= tables);
        proof {
            use_type_invariant(&acc);
        }
        Some(acc)
    }

    /// The bytes per protocol over the whole history and the current second.
    pub fn get_accumulated_traffic(&self) -> (r: TrafficMap)
        requires
            forall|k: Seq<char>| total_traffic(all_tables(self@), k) <= usize::MAX,
        ensures
            forall|k: Seq<char>| traffic_of(r@, k) == total_traffic(all_tables(self@), k),
            forall|k: Seq<char>| has_protocol(r@, k) <==> seen_in(all_tables(self@), k),
            protocols_distinct(r@),
    {
        match self.checked_accumulated_traffic() {
            Some(m) => m,
            None => {
                proof {
                    let k = choose|k: Seq<char>|
                        #[trigger] total_traffic(all_tables(self@), k) > usize::MAX;
                    assert(false);
                }
                TrafficMap::new()
            },
        }
    }

    pub fn get_current_traffic(&self) -> (r: &TrafficMap)
        ensures
            r@ == self@.current,
    {
        &self.current_traffic
    }

    pub fn get_traffic_history(&self) -> (r: &Vec<(u64, TrafficMap)>)
        ensures
            history_entries(r@) == self@.history,
            history_in_order(self@),
    {
        proof {
            use_type_invariant(self);
        }
        &self.traffic_history
    }

    /// Forgets all traffic; the current second starts at `now`.
    pub fn clear_at(&mut self, now: u64)
        ensures
            final(self)@ == (AnalyzerView {
                current: Seq::empty(),
                history: Seq::empty(),
                last_update_time: now,
                history_limit: old(self)@.history_limit,
            }),
    {
        let empty: Vec<(u64, TrafficMap)> = Vec::new();
        assert(history_entries(empty@) =~= Seq::<(u64, TrafficEntries)>::empty());
        self.traffic_history = empty;
        self.current_traffic = TrafficMap::new();
        self.last_update_time = now;
    }

    /// Forgets all traffic; the current second starts at the time the
    /// system clock gives.
    pub fn clear(&mut self)
        ensures
            final(self)@.current == Seq::<(Seq<char>, usize)>::empty(),
            final(self)@.history == Seq::<(u64, TrafficEntries)>::empty(),
            final(self)@.history_limit == old(self)@.history_limit,
    {
        self.clear_at(unix_time_now());
    }
}

impl Default for ProtocolAnalyzer {
    /// An analyzer keeping 60 seconds of history.
    fn default() -> (r: Self)
        ensures
            r@.current == Seq::<(Seq<char>, usize)>::empty(),
            r@.history == Seq::<(u64, TrafficEntries)>::empty(),
            r@.history_limit == 60,
    {
        Self::new(60)
    }
}

} // verus!
