//! The timing rules of a capture run: when a window is reported, what each
//! polled frame adds to the statistics, and what is reported at the end.
//!
//! The scheduler holds no clock and polls nothing itself. Its driver reads
//! the clock, polls the packet source, and hands both over; the scheduler
//! answers with the summaries to emit and with what to do next.

use vstd::prelude::*;
use crate::config::Config;
use crate::packet::{lemma_leading_bytes_skipped, payload, payload_of, PacketData, PRI_MARKER};
use crate::stats::{
    nothing_counted, record_into, HostRecord, JsonSummary, StatsTracker, SummaryView,
};
use crate::syslog::{extract, parse_syslog_packet, ParsedMessage, SyslogPacket};

verus! {

/// Nanoseconds in a second.
pub const NANOS_PER_SEC: u32 = 1_000_000_000;

/// Milliseconds that the driver waits after a failed poll.
pub const BACKOFF_MILLIS: u64 = 10;

/// A reading of the run's clock: the time since the run began.
#[derive(Debug, Clone, Copy)]
pub struct Timestamp {
    secs: u64,
    subsec_nanos: u32,
}

impl View for Timestamp {
    type V = nat;

    /// The reading in nanoseconds.
    closed spec fn view(&self) -> nat {
        (self.secs * NANOS_PER_SEC + self.subsec_nanos) as nat
    }
}

/// Whole seconds that passed from the reading `from` to the reading `to`,
/// both in nanoseconds; none where `to` is the earlier one.
pub open spec fn seconds_between(from: nat, to: nat) -> nat {
    if to >= from {
        ((to - from) / (NANOS_PER_SEC as int)) as nat
    } else {
        0
    }
}

impl Timestamp {
    #[verifier::type_invariant]
    spec fn well_formed(&self) -> bool {
        self.subsec_nanos < NANOS_PER_SEC
    }

    /// The start of the run.
    pub fn zero() -> (start: Timestamp)
        ensures
            start@ == 0,
    {
        Timestamp { secs: 0, subsec_nanos: 0 }
    }

    /// The reading `secs` seconds and `subsec_nanos` nanoseconds after the
    /// start; none where `subsec_nanos` is a second or more.
    pub fn new(secs: u64, subsec_nanos: u32) -> (reading: Option<Timestamp>)
        ensures
            reading is Some <==> subsec_nanos < NANOS_PER_SEC,
            reading matches Some(t) ==> t@ == secs * NANOS_PER_SEC + subsec_nanos,
    {
        if subsec_nanos < NANOS_PER_SEC {
            Some(Timestamp { secs, subsec_nanos })
        } else {
            None
        }
    }

    /// Whole seconds since the start of the run.
    pub fn whole_seconds(&self) -> (secs: u64)
        ensures
            secs == self@ / (NANOS_PER_SEC as nat),
    {
        proof {
            use_type_invariant(self);
        }
        self.secs
    }

    /// Whole seconds that passed since the reading `earlier`.
    pub fn whole_seconds_since(&self, earlier: &Timestamp) -> (secs: u64)
        ensures
            secs == seconds_between(earlier@, self@),
    {
        proof {
            use_type_invariant(self);
            use_type_invariant(earlier);
        }
        if self.secs < earlier.secs || (self.secs == earlier.secs && self.subsec_nanos
            < earlier.subsec_nanos) {
            0
        } else if self.subsec_nanos >= earlier.subsec_nanos {
            self.secs - earlier.secs
        } else {
            self.secs - earlier.secs - 1
        }
    }
}

/// What the driver does after a poll, before it polls again.
#[derive(Debug, Clone, Copy, PartialEq, Eq, Structural)]
pub enum Action {
    /// Go on at once.
    Continue,
    /// Wait `BACKOFF_MILLIS` milliseconds first: the poll failed.
    Backoff,
}

/// The name under which messages without a recognised host are counted.
pub open spec fn unknown_host() -> Seq<char> {
    "Unknown"@
}

/// The host under which a message is counted.
pub open spec fn host_key(message: ParsedMessage) -> Seq<char> {
    match message.hostname {
        Some(hostname) => hostname,
        None => unknown_host(),
    }
}

/// The statistics after the frame `frame` has been looked at: the message
/// in its payload, if there is one, is counted under its host.
pub open spec fn stats_after_frame(
    stats: Map<Seq<char>, HostRecord>,
    frame: Seq<u8>,
) -> Map<Seq<char>, HostRecord> {
    match extract(payload(frame)) {
        Some(message) => record_into(stats, host_key(message), message.text),
        None => stats,
    }
}

/// The statistics after one poll of the packet source: only a frame can
/// change them.
pub open spec fn stats_after_poll(
    stats: Map<Seq<char>, HostRecord>,
    polled: Result<Option<PacketData>, String>,
) -> Map<Seq<char>, HostRecord> {
    match polled {
        Ok(Some(packet)) => stats_after_frame(stats, packet.data@),
        Ok(None) => stats,
        Err(_) => stats,
    }
}

/// What the driver does after the poll `polled`.
pub open spec fn action_after_poll(polled: Result<Option<PacketData>, String>) -> Action {
    match polled {
        Ok(_) => Action::Continue,
        Err(_) => Action::Backoff,
    }
}

/// A failed poll and an idle poll before a frame neither lose nor repeat
/// what the frame adds to the statistics.
pub proof fn lemma_failures_leave_frames_alone(
    stats: Map<Seq<char>, HostRecord>,
    failure: String,
    packet: PacketData,
)
    ensures
        stats_after_poll(
            stats_after_poll(stats_after_poll(stats, Err(failure)), Ok(None)),
            Ok(Some(packet)),
        ) == stats_after_frame(stats, packet.data@),
{
}

/// Leading bytes without a `<` change nothing in what a frame adds to the
/// statistics.
pub proof fn lemma_frame_headers_ignored(
    stats: Map<Seq<char>, HostRecord>,
    junk: Seq<u8>,
    message: Seq<u8>,
)
    requires
        forall|i: int| 0 <= i < junk.len() ==> junk[i] != PRI_MARKER,
        message.len() > 0,
        message[0] == PRI_MARKER,
    ensures
        extract(payload(junk + message)) == extract(message),
        stats_after_frame(stats, junk + message) == stats_after_frame(stats, message),
{
    lemma_leading_bytes_skipped(junk, message);
}

/// Counts the message in `frame`, if there is one, under its host, or under
/// `Unknown` where no host was recognised.
pub fn record_frame(stats: &mut StatsTracker, frame: &[u8])
    ensures
        final(stats)@ == stats_after_frame(old(stats)@, frame@),
{
    match parse_syslog_packet(payload_of(frame)) {
        Some(parsed) => {
            let SyslogPacket { message, hostname } = parsed;
            let host = match hostname {
                Some(name) => name,
                None => "Unknown".to_owned(),
            };
            stats.add_entry(host, message);
        },
        None => {},
    }
}

/// The state of a run as a mathematical value.
pub struct SchedulerState {
    /// Length of the run in seconds.
    pub total_duration: u64,
    /// Whether windows are reported while the run goes on.
    pub periodic: bool,
    /// Length of such a window in seconds.
    pub frequency: u64,
    /// Clock reading, in nanoseconds, at which the current window began.
    pub last_flush: nat,
    /// The statistics of the current window.
    pub stats: Map<Seq<char>, HostRecord>,
}

impl SchedulerState {
    /// The run goes on while less than its whole length has passed.
    pub open spec fn running(self, now: nat) -> bool {
        now / (NANOS_PER_SEC as nat) < self.total_duration
    }

    /// A periodic report is due once a whole window has passed since the
    /// current one began.
    pub open spec fn flush_due(self, now: nat) -> bool {
        self.periodic && seconds_between(self.last_flush, now) >= self.frequency
    }

    /// What a flush check at `now` emits: the current window, where a report
    /// is due and anything was counted.
    pub open spec fn flush_emission(self, now: nat) -> Option<SummaryView> {
        if self.flush_due(now) && !nothing_counted(self.stats) {
            Some(SummaryView { interval_seconds: self.frequency, hosts: self.stats })
        } else {
            None
        }
    }

    /// The state after a flush check at `now`: where a report is due, a new
    /// window begins at `now` with nothing counted.
    pub open spec fn after_flush(self, now: nat) -> SchedulerState {
        if self.flush_due(now) {
            SchedulerState { last_flush: now, stats: Map::empty(), ..self }
        } else {
            self
        }
    }

    /// The state after a poll.
    pub open spec fn after_poll(self, polled: Result<Option<PacketData>, String>) -> SchedulerState {
        SchedulerState { stats: stats_after_poll(self.stats, polled), ..self }
    }

    /// What is emitted when the run ends at `now`. A run without periodic
    /// reports always emits its one window, labelled with the run's length.
    /// A run with them emits what was counted since the last report, if
    /// anything, labelled with the whole seconds since then.
    pub open spec fn final_emission(self, now: nat) -> Option<SummaryView> {
        if !self.periodic {
            Some(SummaryView { interval_seconds: self.total_duration, hosts: self.stats })
        } else if !nothing_counted(self.stats) {
            Some(
                SummaryView {
                    interval_seconds: seconds_between(self.last_flush, now) as u64,
                    hosts: self.stats,
                },
            )
        } else {
            None
        }
    }
}

/// A window that was reported is not reported again: right after a due
/// flush check nothing is counted, so a run that ends there emits nothing
/// more where periodic reports are on.
pub proof fn lemma_flushed_window_not_repeated(state: SchedulerState, now: nat, end: nat)
    requires
        state.flush_due(now),
    ensures
        nothing_counted(state.after_flush(now).stats),
        state.after_flush(now).final_emission(end) is None,
        state.after_flush(now).flush_emission(end) is None,
{
}

/// The view of an emission.
pub open spec fn emission_view(emission: Option<JsonSummary>) -> Option<SummaryView> {
    match emission {
        Some(summary) => Some(summary@),
        None => None,
    }
}

/// One capture run's schedule and statistics.
pub struct Scheduler {
    total_duration: u64,
    periodic: bool,
    frequency: u64,
    last_flush: Timestamp,
    stats: StatsTracker,
}

impl View for Scheduler {
    type V = SchedulerState;

    closed spec fn view(&self) -> SchedulerState {
        SchedulerState {
            total_duration: self.total_duration,
            periodic: self.periodic,
            frequency: self.frequency,
            last_flush: self.last_flush@,
            stats: self.stats@,
        }
    }
}

impl Scheduler {
    /// The state at the start of a run with the settings `config`: nothing
    /// counted, the first window beginning with the run.
    pub fn new(config: &Config) -> (scheduler: Scheduler)
        ensures
            scheduler@ == (SchedulerState {
                total_duration: config.interval,
                periodic: config.periodic,
                frequency: config.frequency,
                last_flush: 0,
                stats: Map::empty(),
            }),
    {
        Scheduler {
            total_duration: config.interval,
            periodic: config.periodic,
            frequency: config.frequency,
            last_flush: Timestamp::zero(),
            stats: StatsTracker::new(),
        }
    }

    /// Whether the run goes on at `now`.
    pub fn is_running(&self, now: Timestamp) -> (running: bool)
        ensures
            running == self@.running(now@),
    {
        now.whole_seconds() < self.total_duration
    }

    /// The flush check that opens each round of the run. Where a periodic
    /// report is due at `now`, the current window is handed out for
    /// emission, unless nothing was counted in it, and a new window begins
    /// at `now`. Else nothing changes and nothing is emitted.
    pub fn periodic_flush(&mut self, now: Timestamp) -> (emission: Option<JsonSummary>)
        ensures
            emission_view(emission) == old(self)@.flush_emission(now@),
            final(self)@ == old(self)@.after_flush(now@),
    {
        if self.periodic && now.whole_seconds_since(&self.last_flush) >= self.frequency {
            let emission = if !self.stats.is_empty() {
                let summary = self.stats.get_summary(self.frequency);
                self.stats.clear();
                Some(summary)
            } else {
                None
            };
            self.last_flush = now;
            emission
        } else {
            None
        }
    }

    /// Takes in what one poll of the packet source gave. A frame's message,
    /// if it holds one, is counted; an idle poll and a failed one change
    /// nothing. After a failed poll the driver is told to back off.
    pub fn on_poll(&mut self, polled: &Result<Option<PacketData>, String>) -> (action: Action)
        ensures
            final(self)@ == old(self)@.after_poll(*polled),
            action == action_after_poll(*polled),
    {
        match polled {
            Ok(Some(packet)) => {
                record_frame(&mut self.stats, packet.data.as_slice());
                Action::Continue
            },
            Ok(None) => Action::Continue,
            Err(_) => Action::Backoff,
        }
    }

    /// What is emitted when the run has ended, at `now`.
    pub fn final_summary(&self, now: Timestamp) -> (emission: Option<JsonSummary>)
        ensures
            emission_view(emission) == self@.final_emission(now@),
    {
        if !self.periodic {
            Some(self.stats.get_summary(self.total_duration))
        } else if !self.stats.is_empty() {
            Some(self.stats.get_summary(now.whole_seconds_since(&self.last_flush)))
        } else {
            None
        }
    }
}

} // verus!
