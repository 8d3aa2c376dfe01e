//! Per-host statistics: how many messages each host sent in the current
//! window, and the first message seen from it.

use vstd::hash_map::StringHashMap;
use vstd::prelude::*;

verus! {

/// What a summary says of one host, as a mathematical value.
pub struct HostRecord {
    /// Messages counted for the host.
    pub count: u64,
    /// Text of the first message counted for it.
    pub sample: Seq<char>,
}

/// What a summary says of one host.
#[derive(Debug, Clone)]
pub struct HostStats {
    /// Messages counted for the host; at least one.
    pub count: u64,
    /// Text of the first message counted for it.
    pub sample: String,
}

impl View for HostStats {
    type V = HostRecord;

    open spec fn view(&self) -> HostRecord {
        HostRecord { count: self.count, sample: self.sample@ }
    }
}

/// The count after one more message: it grows by one and stays at the
/// largest representable value once it has got there.
pub open spec fn bump(count: u64) -> u64 {
    if count < u64::MAX {
        (count + 1) as u64
    } else {
        count
    }
}

/// The statistics after one more message `message` from `hostname`: a host
/// not seen before starts at one with `message` as its sample; a known host
/// has its count bumped and keeps its sample.
pub open spec fn record_into(
    hosts: Map<Seq<char>, HostRecord>,
    hostname: Seq<char>,
    message: Seq<char>,
) -> Map<Seq<char>, HostRecord> {
    if hosts.dom().contains(hostname) {
        hosts.insert(
            hostname,
            HostRecord { count: bump(hosts[hostname].count), sample: hosts[hostname].sample },
        )
    } else {
        hosts.insert(hostname, HostRecord { count: 1, sample: message })
    }
}

/// The statistics after the messages `messages`, in order, all from `hostname`.
pub open spec fn record_all(
    hosts: Map<Seq<char>, HostRecord>,
    hostname: Seq<char>,
    messages: Seq<Seq<char>>,
) -> Map<Seq<char>, HostRecord>
    decreases messages.len(),
{
    if messages.len() == 0 {
        hosts
    } else {
        record_into(record_all(hosts, hostname, messages.drop_last()), hostname, messages.last())
    }
}

/// The count that `n` messages from one host add up to.
pub open spec fn count_after(n: nat) -> u64 {
    if n <= u64::MAX {
        n as u64
    } else {
        u64::MAX
    }
}

/// First write wins: after any non-empty run of messages from a host that
/// was not known before, the host's count is the number of messages (capped
/// at the largest representable count) and its sample is the first of them.
/// No other host is touched.
pub proof fn lemma_first_sample_wins(
    hosts: Map<Seq<char>, HostRecord>,
    hostname: Seq<char>,
    messages: Seq<Seq<char>>,
)
    requires
        !hosts.dom().contains(hostname),
        messages.len() > 0,
    ensures
        record_all(hosts, hostname, messages).dom() == hosts.dom().insert(hostname),
        record_all(hosts, hostname, messages)[hostname].count == count_after(messages.len()),
        record_all(hosts, hostname, messages)[hostname].sample == messages[0],
        forall|other: Seq<char>|
            other != hostname && hosts.dom().contains(other) ==> record_all(
                hosts,
                hostname,
                messages,
            )[other] == hosts[other],
    decreases messages.len(),
{
    let earlier = messages.drop_last();
    if earlier.len() == 0 {
        assert(record_all(hosts, hostname, earlier) == hosts);
        assert(record_all(hosts, hostname, messages).dom() =~= hosts.dom().insert(hostname));
    } else {
        lemma_first_sample_wins(hosts, hostname, earlier);
        assert(earlier[0] == messages[0]);
        assert(record_all(hosts, hostname, messages).dom() =~= hosts.dom().insert(hostname));
    }
}

/// One host's line in the table.
struct HostEntry {
    hostname: String,
    stats: HostStats,
}

/// The mapping that a list of lines stands for.
spec fn table_of(entries: Seq<HostEntry>) -> Map<Seq<char>, HostRecord>
    decreases entries.len(),
{
    if entries.len() == 0 {
        Map::empty()
    } else {
        table_of(entries.drop_last()).insert(entries.last().hostname@, entries.last().stats@)
    }
}

/// No host has two lines.
spec fn distinct_hosts(entries: Seq<HostEntry>) -> bool {
    forall|i: int, j: int|
        0 <= i < j < entries.len() ==> (#[trigger] entries[i]).hostname@ != (
        #[trigger] entries[j]).hostname@
}

/// Every line counts at least one message.
spec fn positive_counts(entries: Seq<HostEntry>) -> bool {
    forall|i: int| 0 <= i < entries.len() ==> (#[trigger] entries[i]).stats.count >= 1
}

/// Some line is for `hostname`.
spec fn listed(entries: Seq<HostEntry>, hostname: Seq<char>) -> bool {
    exists|i: int| 0 <= i < entries.len() && (#[trigger] entries[i]).hostname@ == hostname
}

/// The place of a line for `hostname`, where one is listed.
spec fn line_of(entries: Seq<HostEntry>, hostname: Seq<char>) -> int {
    choose|i: int| 0 <= i < entries.len() && (#[trigger] entries[i]).hostname@ == hostname
}

/// Lines stay distinct when the last one is left out.
proof fn lemma_front_distinct(entries: Seq<HostEntry>)
    requires
        distinct_hosts(entries),
        entries.len() > 0,
    ensures
        distinct_hosts(entries.drop_last()),
{
    let front = entries.drop_last();
    assert forall|a: int, b: int| 0 <= a < b < front.len() implies (#[trigger] front[a]).hostname@
        != (#[trigger] front[b]).hostname@ by {
        assert(entries[a].hostname@ != entries[b].hostname@);
    }
}

/// The hosts of the mapping are the hosts that have a line.
proof fn lemma_table_domain(entries: Seq<HostEntry>, hostname: Seq<char>)
    ensures
        table_of(entries).dom().contains(hostname) <==> listed(entries, hostname),
    decreases entries.len(),
{
    if entries.len() > 0 {
        let front = entries.drop_last();
        lemma_table_domain(front, hostname);
        if listed(front, hostname) {
            let i = line_of(front, hostname);
            assert(entries[i].hostname@ == hostname);
        }
        if listed(entries, hostname) {
            let i = line_of(entries, hostname);
            if i < front.len() {
                assert(front[i].hostname@ == hostname);
            }
        }
        if entries.last().hostname@ == hostname {
            assert(entries[entries.len() - 1].hostname@ == hostname);
        }
    }
}

/// The mapping gives each host what its line holds.
proof fn lemma_table_lookup(entries: Seq<HostEntry>, i: int)
    requires
        distinct_hosts(entries),
        0 <= i < entries.len(),
    ensures
        table_of(entries).dom().contains(entries[i].hostname@),
        table_of(entries)[entries[i].hostname@] == entries[i].stats@,
    decreases entries.len(),
{
    let front = entries.drop_last();
    if i < entries.len() - 1 {
        lemma_front_distinct(entries);
        lemma_table_lookup(front, i);
        assert(front[i] == entries[i]);
        assert(entries[i].hostname@ != entries[entries.len() - 1].hostname@);
    }
}

/// Replacing a host's line by another line for the same host replaces
/// what the mapping gives for it, and nothing else.
proof fn lemma_table_update(entries: Seq<HostEntry>, i: int, line: HostEntry)
    requires
        distinct_hosts(entries),
        0 <= i < entries.len(),
        line.hostname@ == entries[i].hostname@,
    ensures
        distinct_hosts(entries.update(i, line)),
        table_of(entries.update(i, line)) == table_of(entries).insert(
            line.hostname@,
            line.stats@,
        ),
    decreases entries.len(),
{
    let changed = entries.update(i, line);
    assert(distinct_hosts(changed)) by {
        assert forall|a: int, b: int| 0 <= a < b < changed.len() implies (
        #[trigger] changed[a]).hostname@ != (#[trigger] changed[b]).hostname@ by {
            assert(entries[a].hostname@ != entries[b].hostname@);
        }
    }
    let front = entries.drop_last();
    if i == entries.len() - 1 {
        assert(changed.drop_last() =~= front);
        assert(table_of(changed) =~= table_of(entries).insert(line.hostname@, line.stats@));
    } else {
        lemma_front_distinct(entries);
        lemma_table_update(front, i, line);
        assert(changed.drop_last() =~= front.update(i, line));
        assert(changed.last() == entries.last());
        assert(entries[i].hostname@ != entries[entries.len() - 1].hostname@);
        assert(table_of(changed) =~= table_of(entries).insert(line.hostname@, line.stats@));
    }
}

/// The mapping has as many hosts as there are lines.
proof fn lemma_table_size(entries: Seq<HostEntry>)
    requires
        distinct_hosts(entries),
    ensures
        table_of(entries).dom().finite(),
        table_of(entries).dom().len() == entries.len(),
    decreases entries.len(),
{
    if entries.len() > 0 {
        let front = entries.drop_last();
        lemma_front_distinct(entries);
        lemma_table_size(front);
        lemma_table_domain(front, entries.last().hostname@);
        if listed(front, entries.last().hostname@) {
            let i = line_of(front, entries.last().hostname@);
            assert(entries[i].hostname@ != entries[entries.len() - 1].hostname@);
        }
    }
}

/// Lists that agree line by line stand for the same mapping.
proof fn lemma_table_same(left: Seq<HostEntry>, right: Seq<HostEntry>)
    requires
        left.len() == right.len(),
        forall|i: int|
            0 <= i < left.len() ==> (#[trigger] left[i]).hostname@ == right[i].hostname@
                && left[i].stats@ == right[i].stats@,
    ensures
        table_of(left) == table_of(right),
    decreases left.len(),
{
    if left.len() > 0 {
        lemma_table_same(left.drop_last(), right.drop_last());
        assert(left[left.len() - 1].hostname@ == right[left.len() - 1].hostname@);
    }
}

/// Every host of the mapping has been counted at least once.
proof fn lemma_table_counts(entries: Seq<HostEntry>)
    requires
        distinct_hosts(entries),
        positive_counts(entries),
    ensures
        forall|hostname: Seq<char>| #[trigger]
            table_of(entries).dom().contains(hostname) ==> table_of(entries)[hostname].count >= 1,
{
    assert forall|hostname: Seq<char>| #[trigger]
        table_of(entries).dom().contains(hostname) implies table_of(entries)[hostname].count
        >= 1 by {
        lemma_table_domain(entries, hostname);
        lemma_table_lookup(entries, line_of(entries, hostname));
    }
}

/// `index` tells for each host, and for nothing else, where its line is.
spec fn indexed(entries: Seq<HostEntry>, index: Map<Seq<char>, usize>) -> bool {
    &&& forall|i: int|
        0 <= i < entries.len() ==> index.contains_key((#[trigger] entries[i]).hostname@)
            && index[entries[i].hostname@] == i
    &&& forall|hostname: Seq<char>| #[trigger]
        index.contains_key(hostname) ==> index[hostname] < entries.len()
            && entries[index[hostname] as int].hostname@ == hostname
}

/// A line for a host that has none may be added at the end, with its
/// place entered in the index.
proof fn lemma_indexed_push(entries: Seq<HostEntry>, index: Map<Seq<char>, usize>, line: HostEntry)
    requires
        indexed(entries, index),
        distinct_hosts(entries),
        positive_counts(entries),
        line.stats.count >= 1,
        !index.contains_key(line.hostname@),
        entries.len() <= usize::MAX,
    ensures
        indexed(entries.push(line), index.insert(line.hostname@, entries.len() as usize)),
        distinct_hosts(entries.push(line)),
        positive_counts(entries.push(line)),
        table_of(entries.push(line)) == table_of(entries).insert(line.hostname@, line.stats@),
{
    let longer = entries.push(line);
    let wider = index.insert(line.hostname@, entries.len() as usize);
    assert(longer.drop_last() =~= entries);
    assert forall|i: int| 0 <= i < longer.len() implies wider.contains_key(
        (#[trigger] longer[i]).hostname@,
    ) && wider[longer[i].hostname@] == i by {
        if i < entries.len() {
            assert(index.contains_key(entries[i].hostname@));
        }
    }
    assert forall|hostname: Seq<char>| #[trigger] wider.contains_key(hostname) implies wider[hostname]
        < longer.len() && longer[wider[hostname] as int].hostname@ == hostname by {
        if hostname != line.hostname@ {
            assert(index.contains_key(hostname));
        }
    }
    assert forall|a: int, b: int| 0 <= a < b < longer.len() implies (#[trigger] longer[a]).hostname@
        != (#[trigger] longer[b]).hostname@ by {
        if b == entries.len() {
            assert(index.contains_key(entries[a].hostname@));
        } else {
            assert(entries[a].hostname@ != entries[b].hostname@);
        }
    }
    assert forall|a: int| 0 <= a < longer.len() implies (#[trigger] longer[a]).stats.count >= 1 by {
        if a < entries.len() {
            assert(entries[a].stats.count >= 1);
        }
    }
}

/// A host's line may be replaced by another line for the same host; the
/// index stays as it is.
proof fn lemma_indexed_update(
    entries: Seq<HostEntry>,
    index: Map<Seq<char>, usize>,
    i: int,
    line: HostEntry,
)
    requires
        indexed(entries, index),
        distinct_hosts(entries),
        positive_counts(entries),
        0 <= i < entries.len(),
        line.hostname@ == entries[i].hostname@,
        line.stats.count >= 1,
    ensures
        indexed(entries.update(i, line), index),
        distinct_hosts(entries.update(i, line)),
        positive_counts(entries.update(i, line)),
        table_of(entries.update(i, line)) == table_of(entries).insert(
            line.hostname@,
            line.stats@,
        ),
{
    let changed = entries.update(i, line);
    lemma_table_update(entries, i, line);
    assert forall|j: int| 0 <= j < changed.len() implies index.contains_key(
        (#[trigger] changed[j]).hostname@,
    ) && index[changed[j].hostname@] == j by {
        assert(index.contains_key(entries[j].hostname@));
    }
    assert forall|hostname: Seq<char>| #[trigger] index.contains_key(hostname) implies index[hostname]
        < changed.len() && changed[index[hostname] as int].hostname@ == hostname by {
        assert(entries[index[hostname] as int].hostname@ == hostname);
    }
    assert forall|a: int| 0 <= a < changed.len() implies (#[trigger] changed[a]).stats.count
        >= 1 by {
        if a != i {
            assert(entries[a].stats.count >= 1);
        }
    }
}

/// Hosts, each with its count and sample. No host occurs twice, and every
/// count is at least one. The lines stand in the order in which the hosts
/// were first recorded; a hash index finds a host's line.
pub struct HostTable {
    entries: Vec<HostEntry>,
    index: StringHashMap<usize>,
}

impl View for HostTable {
    type V = Map<Seq<char>, HostRecord>;

    closed spec fn view(&self) -> Map<Seq<char>, HostRecord> {
        table_of(self.entries@)
    }
}

impl HostTable {
    #[verifier::type_invariant]
    spec fn well_formed(&self) -> bool {
        &&& distinct_hosts(self.entries@)
        &&& positive_counts(self.entries@)
        &&& indexed(self.entries@, self.index@)
    }

    /// A table without hosts.
    pub fn new() -> (table: HostTable)
        ensures
            table@ == Map::<Seq<char>, HostRecord>::empty(),
    {
        HostTable { entries: Vec::new(), index: StringHashMap::new() }
    }

    /// Number of hosts.
    pub fn len(&self) -> (n: usize)
        ensures
            self@.dom().finite(),
            n == self@.dom().len(),
    {
        proof {
            use_type_invariant(self);
            lemma_table_size(self.entries@);
        }
        self.entries.len()
    }

    /// Whether the table has no host.
    pub fn is_empty(&self) -> (empty: bool)
        ensures
            empty == (self@ == Map::<Seq<char>, HostRecord>::empty()),
    {
        proof {
            use_type_invariant(self);
            lemma_table_size(self.entries@);
            if self.entries@.len() == 0 {
                assert(self@ =~= Map::<Seq<char>, HostRecord>::empty());
            }
        }
        self.entries.len() == 0
    }

    /// Position of the line for `hostname`, if there is one.
    fn position(&self, hostname: &str) -> (found: Option<usize>)
        ensures
            match found {
                Some(i) => i < self.entries@.len() && self.entries@[i as int].hostname@
                    == hostname@,
                None => !self.index@.contains_key(hostname@) && !listed(self.entries@, hostname@),
            },
    {
        proof {
            use_type_invariant(self);
        }
        match self.index.get(hostname) {
            Some(i) => Some(*i),
            None => {
                proof {
                    if listed(self.entries@, hostname@) {
                        let i = line_of(self.entries@, hostname@);
                        assert(self.index@.contains_key(self.entries@[i].hostname@));
                    }
                }
                None
            },
        }
    }

    /// Whether `hostname` is in the table.
    pub fn contains_key(&self, hostname: &str) -> (found: bool)
        ensures
            found == self@.dom().contains(hostname@),
    {
        proof {
            lemma_table_domain(self.entries@, hostname@);
        }
        match self.position(hostname) {
            Some(i) => {
                assert(self.entries@[i as int].hostname@ == hostname@);
                true
            },
            None => false,
        }
    }

    /// What the table holds for `hostname`.
    pub fn get(&self, hostname: &str) -> (found: Option<&HostStats>)
        ensures
            match found {
                Some(stats) => self@.dom().contains(hostname@) && stats@ == self@[hostname@]
                    && stats.count >= 1,
                None => !self@.dom().contains(hostname@),
            },
    {
        proof {
            use_type_invariant(self);
            lemma_table_domain(self.entries@, hostname@);
        }
        match self.position(hostname) {
            Some(i) => {
                proof {
                    lemma_table_lookup(self.entries@, i as int);
                }
                Some(&self.entries[i].stats)
            },
            None => None,
        }
    }

    /// The hosts of the table, each once.
    pub fn hostnames(&self) -> (names: Vec<String>)
        ensures
            self@.dom().finite(),
            names@.len() == self@.dom().len(),
            forall|i: int| 0 <= i < names@.len() ==> self@.dom().contains((#[trigger] names@[i])@),
            forall|i: int, j: int|
                0 <= i < j < names@.len() ==> (#[trigger] names@[i])@ != (#[trigger] names@[j])@,
            forall|hostname: Seq<char>| #[trigger]
                self@.dom().contains(hostname) ==> exists|i: int|
                    0 <= i < names@.len() && (#[trigger] names@[i])@ == hostname,
    {
        proof {
            use_type_invariant(self);
            lemma_table_size(self.entries@);
        }
        let n = self.entries.len();
        let mut names: Vec<String> = Vec::new();
        let mut i: usize = 0;
        while i < n
            invariant
                n == self.entries@.len(),
                i <= n,
                names@.len() == i,
                distinct_hosts(self.entries@),
                forall|k: int|
                    0 <= k < i ==> (#[trigger] names@[k])@ == self.entries@[k].hostname@,
            decreases n - i,
        {
            names.push(self.entries[i].hostname.clone());
            i += 1;
        }
        proof {
            assert forall|k: int| 0 <= k < names@.len() implies self@.dom().contains(
                (#[trigger] names@[k])@,
            ) by {
                lemma_table_lookup(self.entries@, k);
            }
            assert forall|a: int, b: int| 0 <= a < b < names@.len() implies (#[trigger] names@[a])@
                != (#[trigger] names@[b])@ by {
                assert(self.entries@[a].hostname@ != self.entries@[b].hostname@);
            }
            assert forall|hostname: Seq<char>| #[trigger]
                self@.dom().contains(hostname) implies exists|i: int|
                0 <= i < names@.len() && (#[trigger] names@[i])@ == hostname by {
                lemma_table_domain(self.entries@, hostname);
                let k = line_of(self.entries@, hostname);
                assert(names@[k]@ == hostname);
            }
        }
        names
    }

    /// Counts one message `message` from `hostname`.
    pub fn record(&mut self, hostname: String, message: String)
        ensures
            final(self)@ == record_into(old(self)@, hostname@, message@),
    {
        proof {
            use_type_invariant(&*self);
            lemma_table_domain(self.entries@, hostname@);
        }
        let found = self.position(hostname.as_str());
        let mut taken = HostTable::new();
        std::mem::swap(self, &mut taken);
        let HostTable { entries, index } = taken;
        let mut entries = entries;
        let mut index = index;
        match found {
            Some(i) => {
                let known = &entries[i].stats;
                let count: u64 = if known.count < u64::MAX {
                    known.count + 1
                } else {
                    known.count
                };
                let line = HostEntry {
                    hostname,
                    stats: HostStats { count, sample: known.sample.clone() },
                };
                proof {
                    lemma_table_lookup(entries@, i as int);
                    lemma_indexed_update(entries@, index@, i as int, line);
                }
                entries.set(i, line);
            },
            None => {
                let at = entries.len();
                let key = hostname.clone();
                let line = HostEntry { hostname, stats: HostStats { count: 1, sample: message } };
                proof {
                    lemma_indexed_push(entries@, index@, line);
                }
                index.insert(key, at);
                entries.push(line);
            },
        }
        *self = HostTable { entries, index };
    }

    /// Forgets every host.
    pub fn clear(&mut self)
        ensures
            final(self)@ == Map::<Seq<char>, HostRecord>::empty(),
    {
        *self = HostTable::new();
    }

    /// An independent copy of the table. Every host in it has been counted
    /// at least once.
    pub fn duplicate(&self) -> (copy: HostTable)
        ensures
            copy@ == self@,
            forall|hostname: Seq<char>| #[trigger]
                self@.dom().contains(hostname) ==> self@[hostname].count >= 1,
    {
        proof {
            use_type_invariant(self);
            lemma_table_counts(self.entries@);
        }
        let n = self.entries.len();
        let mut entries: Vec<HostEntry> = Vec::new();
        let mut index: StringHashMap<usize> = StringHashMap::new();
        let mut i: usize = 0;
        while i < n
            invariant
                n == self.entries@.len(),
                i <= n,
                entries@.len() == i,
                distinct_hosts(self.entries@),
                positive_counts(self.entries@),
                distinct_hosts(entries@),
                positive_counts(entries@),
                indexed(entries@, index@),
                forall|k: int|
                    0 <= k < i ==> (#[trigger] entries@[k]).hostname@ == self.entries@[k].hostname@
                        && entries@[k].stats@ == self.entries@[k].stats@,
            decreases n - i,
        {
            let line_here = &self.entries[i];
            let line = HostEntry {
                hostname: line_here.hostname.clone(),
                stats: HostStats {
                    count: line_here.stats.count,
                    sample: line_here.stats.sample.clone(),
                },
            };
            proof {
                if index@.contains_key(line.hostname@) {
                    let k = index@[line.hostname@] as int;
                    assert(entries@[k].hostname@ == self.entries@[k].hostname@);
                    assert(self.entries@[k].hostname@ != self.entries@[i as int].hostname@);
                }
                lemma_indexed_push(entries@, index@, line);
            }
            index.insert(line_here.hostname.clone(), i);
            entries.push(line);
            i += 1;
        }
        proof {
            lemma_table_same(entries@, self.entries@);
        }
        HostTable { entries, index }
    }
}

/// Nothing has been counted.
pub open spec fn nothing_counted(hosts: Map<Seq<char>, HostRecord>) -> bool {
    hosts == Map::<Seq<char>, HostRecord>::empty()
}

/// A summary as a mathematical value.
pub struct SummaryView {
    /// Length in seconds of the window that the summary covers.
    pub interval_seconds: u64,
    /// The hosts seen in the window.
    pub hosts: Map<Seq<char>, HostRecord>,
}

/// The statistics of one window, ready to be reported.
pub struct JsonSummary {
    /// Length in seconds of the window that the summary covers.
    pub interval_seconds: u64,
    /// The hosts seen in the window.
    pub hosts: HostTable,
}

impl View for JsonSummary {
    type V = SummaryView;

    open spec fn view(&self) -> SummaryView {
        SummaryView { interval_seconds: self.interval_seconds, hosts: self.hosts@ }
    }
}

/// Accumulates per-host statistics over the current window.
pub struct StatsTracker {
    stats: HostTable,
}

impl View for StatsTracker {
    type V = Map<Seq<char>, HostRecord>;

    closed spec fn view(&self) -> Map<Seq<char>, HostRecord> {
        self.stats@
    }
}

impl Default for StatsTracker {
    fn default() -> (tracker: StatsTracker)
        ensures
            tracker@ == Map::<Seq<char>, HostRecord>::empty(),
    {
        StatsTracker::new()
    }
}

impl StatsTracker {
    /// A tracker that has seen nothing.
    pub fn new() -> (tracker: StatsTracker)
        ensures
            tracker@ == Map::<Seq<char>, HostRecord>::empty(),
    {
        StatsTracker { stats: HostTable::new() }
    }

    /// Counts one message from `hostname`. The first message of a host
    /// becomes its sample and is never replaced within the window.
    pub fn add_entry(&mut self, hostname: String, message: String)
        ensures
            final(self)@ == record_into(old(self)@, hostname@, message@),
            !nothing_counted(final(self)@),
    {
        self.stats.record(hostname, message);
        proof {
            assert(self@.dom().contains(hostname@));
        }
    }

    /// Whether nothing has been counted since the window began.
    pub fn is_empty(&self) -> (empty: bool)
        ensures
            empty == nothing_counted(self@),
    {
        self.stats.is_empty()
    }

    /// Starts a new window: every host is forgotten, so that `is_empty`
    /// answers `true` until the next message is counted.
    pub fn clear(&mut self)
        ensures
            final(self)@ == Map::<Seq<char>, HostRecord>::empty(),
            nothing_counted(final(self)@),
    {
        self.stats.clear();
    }

    /// An independent copy of the current statistics, labelled with the
    /// window length `interval_seconds`. The tracker is left as it is, so the
    /// same call gives the same summary until the next message or `clear`.
    pub fn get_summary(&self, interval_seconds: u64) -> (summary: JsonSummary)
        ensures
            summary@ == (SummaryView { interval_seconds, hosts: self@ }),
            forall|hostname: Seq<char>| #[trigger]
                self@.dom().contains(hostname) ==> self@[hostname].count >= 1,
    {
        let hosts = self.stats.duplicate();
        JsonSummary { interval_seconds, hosts }
    }
}

} // verus!
