//! The rendezvous of the processes before the first round.

use crate::MAX_PROCESSES;
use vstd::prelude::*;

verus! {

/// The mathematical content of a [`StartingBlock`].
pub struct StartingBlockView {
    /// The agreed start of the first round, in nanoseconds since the epoch.
    pub start_time: Option<u64>,
    /// One flag per process id.
    pub ready: Seq<bool>,
}

impl StartingBlockView {
    /// Every process of `processes` has its flag set.
    pub open spec fn all_ready(self, processes: Seq<u32>) -> bool {
        forall|k: int| 0 <= k < processes.len() ==> self.ready[#[trigger] processes[k] as int]
    }
}

/// Ready flags of the processes and the start time that the coordinator
/// publishes once all of them are set.
#[derive(Debug, Clone, Copy)]
pub struct StartingBlock {
    start_time: Option<u64>,
    ready_processes: [bool; MAX_PROCESSES],
}

impl View for StartingBlock {
    type V = StartingBlockView;

    closed spec fn view(&self) -> StartingBlockView {
        StartingBlockView { start_time: self.start_time, ready: self.ready_processes@ }
    }
}

impl StartingBlock {
    /// No process is ready and no start is scheduled.
    pub fn new() -> (block: StartingBlock)
        ensures
            block@.start_time is None,
            block@.ready.len() == MAX_PROCESSES,
            forall|pid: int| 0 <= pid < MAX_PROCESSES ==> !block@.ready[pid],
    {
        StartingBlock { start_time: None, ready_processes: [false;MAX_PROCESSES] }
    }

    /// Schedules the first round at `time`. The start is set once: a start
    /// that is scheduled stays as it is.
    pub fn start_at(&mut self, time: u64)
        ensures
            final(self)@.start_time == match old(self)@.start_time {
                Some(scheduled) => Some(scheduled),
                None => Some(time),
            },
            final(self)@.ready == old(self)@.ready,
            final(self)@.ready.len() == MAX_PROCESSES,
    {
        if self.start_time.is_none() {
            self.start_time = Some(time);
        }
    }

    /// A start time is set and lies after `now`.
    pub fn start_is_scheduled(&self, now: u64) -> (scheduled: bool)
        ensures
            self@.ready.len() == MAX_PROCESSES,
            scheduled <==> (self@.start_time matches Some(t) && t > now),
    {
        match self.start_time {
            Some(t) => t > now,
            None => false,
        }
    }

    pub fn get_start_time(&self) -> (time: Option<u64>)
        ensures
            self@.ready.len() == MAX_PROCESSES,
            time == self@.start_time,
    {
        self.start_time
    }

    /// Sets the flag of process `pid`.
    pub fn mark_ready(&mut self, pid: usize)
        requires
            pid < MAX_PROCESSES,
        ensures
            old(self)@.ready.len() == MAX_PROCESSES,
            final(self)@.ready == old(self)@.ready.update(pid as int, true),
            final(self)@.start_time == old(self)@.start_time,
    {
        self.ready_processes[pid] = true;
    }

    /// The flag of process `pid`.
    pub fn is_ready(&self, pid: usize) -> (ready: bool)
        requires
            pid < MAX_PROCESSES,
        ensures
            self@.ready.len() == MAX_PROCESSES,
            ready == self@.ready[pid as int],
    {
        self.ready_processes[pid]
    }

    /// Every process of `processes` has marked itself ready.
    pub fn all_ready(&self, processes: &Vec<u32>) -> (ready: bool)
        requires
            forall|k: int| 0 <= k < processes.len() ==> processes[k] < MAX_PROCESSES,
        ensures
            ready == self@.all_ready(processes@),
            self@.ready.len() == MAX_PROCESSES,
    {
        let mut k: usize = 0;
        while k < processes.len()
            invariant
                k <= processes.len(),
                forall|m: int| 0 <= m < processes.len() ==> processes[m] < MAX_PROCESSES,
                forall|m: int| 0 <= m < k ==> self@.ready[#[trigger] processes[m] as int],
            decreases processes.len() - k,
        {
            let pid = processes[k] as usize;
            if !self.ready_processes[pid] {
                return false;
            }
            k += 1;
        }
        true
    }
}

} // verus!
