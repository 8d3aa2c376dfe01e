//! Whole runs: what the scheduler's steps add up to, whatever the clock and
//! the packet source do.

use vstd::prelude::*;
use crate::packet::{payload, PacketData};
use crate::scheduler::{host_key, SchedulerState};
use crate::stats::{HostRecord, SummaryView};
use crate::syslog::extract;

verus! {

/// One step of a run, as its driver takes it.
pub enum Step {
    /// The flush check, at a clock reading in nanoseconds.
    FlushCheck(nat),
    /// A poll of the packet source, with what it gave.
    Poll(Result<Option<PacketData>, String>),
}

/// The state after one step.
pub open spec fn after_step(state: SchedulerState, step: Step) -> SchedulerState {
    match step {
        Step::FlushCheck(now) => state.after_flush(now),
        Step::Poll(polled) => state.after_poll(polled),
    }
}

/// What one step emits.
pub open spec fn step_emission(state: SchedulerState, step: Step) -> Option<SummaryView> {
    match step {
        Step::FlushCheck(now) => state.flush_emission(now),
        Step::Poll(_) => None,
    }
}

/// The state after the steps `steps`, in order.
pub open spec fn after_steps(state: SchedulerState, steps: Seq<Step>) -> SchedulerState
    decreases steps.len(),
{
    if steps.len() == 0 {
        state
    } else {
        after_step(after_steps(state, steps.drop_last()), steps.last())
    }
}

/// Messages that `hosts` counts for `hostname`.
pub open spec fn tally(hosts: Map<Seq<char>, HostRecord>, hostname: Seq<char>) -> nat {
    if hosts.dom().contains(hostname) {
        hosts[hostname].count as nat
    } else {
        0
    }
}

/// Messages that an emission reports for `hostname`.
pub open spec fn tally_emitted(emission: Option<SummaryView>, hostname: Seq<char>) -> nat {
    match emission {
        Some(summary) => tally(summary.hosts, hostname),
        None => 0,
    }
}

/// Messages that the emissions of the steps `steps` report for `hostname`,
/// taken together.
pub open spec fn reported(state: SchedulerState, steps: Seq<Step>, hostname: Seq<char>) -> nat
    decreases steps.len(),
{
    if steps.len() == 0 {
        0
    } else {
        reported(state, steps.drop_last(), hostname) + tally_emitted(
            step_emission(after_steps(state, steps.drop_last()), steps.last()),
            hostname,
        )
    }
}

/// Whether the step brings a message that is counted under `hostname`.
pub open spec fn brings(step: Step, hostname: Seq<char>) -> bool {
    match step {
        Step::Poll(Ok(Some(packet))) => match extract(payload(packet.data@)) {
            Some(message) => host_key(message) == hostname,
            None => false,
        },
        _ => false,
    }
}

/// Messages that the steps `steps` bring for `hostname`.
pub open spec fn arrived(steps: Seq<Step>, hostname: Seq<char>) -> nat
    decreases steps.len(),
{
    if steps.len() == 0 {
        0
    } else {
        arrived(steps.drop_last(), hostname) + if brings(steps.last(), hostname) {
            1nat
        } else {
            0nat
        }
    }
}

/// Nothing is lost and nothing is counted twice. Whatever steps a run
/// takes, the messages of a host that were reported on the way, together
/// with those still counted in the current window, are those counted at the
/// start and those that arrived since. This holds as long as the counts
/// stay within what a count can hold.
pub proof fn lemma_messages_accounted_for(
    state: SchedulerState,
    steps: Seq<Step>,
    hostname: Seq<char>,
)
    requires
        tally(state.stats, hostname) + steps.len() <= u64::MAX,
    ensures
        arrived(steps, hostname) <= steps.len(),
        reported(state, steps, hostname) + tally(after_steps(state, steps).stats, hostname)
            == tally(state.stats, hostname) + arrived(steps, hostname),
        after_steps(state, steps).periodic == state.periodic,
    decreases steps.len(),
{
    if steps.len() > 0 {
        let earlier = steps.drop_last();
        lemma_messages_accounted_for(state, earlier, hostname);
        let before = after_steps(state, earlier);
        match steps.last() {
            Step::FlushCheck(now) => {
                if before.flush_due(now) {
                    assert(tally(Map::<Seq<char>, HostRecord>::empty(), hostname) == 0);
                }
            },
            Step::Poll(polled) => {
                assert(tally(before.stats, hostname) < u64::MAX);
            },
        }
    }
}

/// What a run reports for a host, all in all, is what arrived for it: the
/// reports on the way and the report at the end, wherever the run ends,
/// add up to the messages that arrived, for a run that starts with nothing
/// counted.
pub proof fn lemma_run_reports_each_message_once(
    state: SchedulerState,
    steps: Seq<Step>,
    end: nat,
    hostname: Seq<char>,
)
    requires
        state.stats == Map::<Seq<char>, HostRecord>::empty(),
        steps.len() <= u64::MAX,
    ensures
        reported(state, steps, hostname) + tally_emitted(
            after_steps(state, steps).final_emission(end),
            hostname,
        ) == arrived(steps, hostname),
{
    lemma_messages_accounted_for(state, steps, hostname);
}

} // verus!
