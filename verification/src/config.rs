//! The parameters of a process and the check that they fit together.

use crate::text::find_char;
use crate::text::find_pair;
use crate::text::index_of;
use crate::text::index_of_pair;
use crate::text::parse_unsigned;
use crate::text::trim;
use crate::text::trimmed;
use crate::text::unsigned_value;
use crate::MAX_PROCESSES;
use vstd::prelude::*;
use vstd::string::StrSliceExecFns;

verus! {

/// Bytes per memory node unless configured otherwise: 1 MiB.
pub const DEFAULT_MEM_SIZE: usize = 1048576;

/// Granularity of the allocator in bytes unless configured otherwise.
pub const DEFAULT_CHUNK_SIZE: usize = 64;

/// Nanoseconds between the rendezvous and the first round unless configured
/// otherwise: one second.
pub const DEFAULT_STARTUP_DELAY: u64 = 1000000000;

/// Nanoseconds per round unless configured otherwise: 100 microseconds.
pub const DEFAULT_ROUND_TIME_NS: u64 = 100000;

/// The id that stands for "none given".
pub const NO_ID: i32 = -1;

/// The parameters of one process.
#[derive(Debug, Clone)]
pub struct RepCXLConfig {
    /// Paths of the files that back the memory nodes, in node order.
    pub mem_nodes: Vec<String>,
    /// Bytes per node.
    pub mem_size: usize,
    /// Allocator granularity in bytes.
    pub chunk_size: usize,
    /// Nanoseconds from the rendezvous to the first round.
    pub startup_delay: u64,
    /// Nanoseconds per round.
    pub round_time: u64,
    /// Id of this process; negative where none was given.
    pub id: i32,
    /// Ids of the processes of the group.
    pub processes: Vec<u32>,
    /// Name of the replication algorithm.
    pub algorithm: String,
}

/// What is wrong with a configuration.
#[derive(Debug, Clone, Copy, PartialEq, Eq, Structural)]
pub enum ConfigError {
    /// No process id was given.
    MissingId,
    /// The process id is not among the processes of the group.
    IdNotInProcesses,
    /// The group has more processes than the shared tables have slots.
    TooManyProcesses,
    /// No memory node was given.
    NoMemoryNodes,
}

impl ConfigError {
    /// What went wrong, in words.
    pub fn to_string(&self) -> (s: String)
        ensures
            s@ == match *self {
                ConfigError::MissingId => "Invalid config: id must be provided in the config"@,
                ConfigError::IdNotInProcesses => "Invalid config: id must be in the processes list"@,
                ConfigError::TooManyProcesses => "Invalid config: Maximum number of processes: 128"@,
                ConfigError::NoMemoryNodes => "Invalid config: at least one memory node must be specified in the config"@,
            },
    {
        match self {
            ConfigError::MissingId => "Invalid config: id must be provided in the config".to_owned(),
            ConfigError::IdNotInProcesses => "Invalid config: id must be in the processes list".to_owned(),
            ConfigError::TooManyProcesses => "Invalid config: Maximum number of processes: 128".to_owned(),
            ConfigError::NoMemoryNodes => "Invalid config: at least one memory node must be specified in the config".to_owned(),
        }
    }
}

impl Default for RepCXLConfig {
    fn default() -> (config: RepCXLConfig)
        ensures
            config.mem_nodes@.len() == 0,
            config.mem_size == DEFAULT_MEM_SIZE,
            config.chunk_size == DEFAULT_CHUNK_SIZE,
            config.startup_delay == DEFAULT_STARTUP_DELAY,
            config.round_time == DEFAULT_ROUND_TIME_NS,
            config.id == NO_ID,
            config.processes@ == seq![0u32],
            config.algorithm@ == "monster"@,
    {
        let mut processes: Vec<u32> = Vec::new();
        processes.push(0);
        assert(processes@ =~= seq![0u32]);
        RepCXLConfig {
            mem_nodes: Vec::new(),
            mem_size: DEFAULT_MEM_SIZE,
            chunk_size: DEFAULT_CHUNK_SIZE,
            startup_delay: DEFAULT_STARTUP_DELAY,
            round_time: DEFAULT_ROUND_TIME_NS,
            id: NO_ID,
            processes,
            algorithm: "monster".to_owned(),
        }
    }
}

impl RepCXLConfig {
    /// What is wrong with the configuration, the first of the defects in the
    /// order of [`ConfigError`]; `None` where nothing is.
    pub open spec fn defect(&self) -> Option<ConfigError> {
        if self.id < 0 {
            Some(ConfigError::MissingId)
        } else if !self.processes@.contains(self.id as u32) {
            Some(ConfigError::IdNotInProcesses)
        } else if self.processes@.len() > MAX_PROCESSES {
            Some(ConfigError::TooManyProcesses)
        } else if self.mem_nodes@.len() == 0 {
            Some(ConfigError::NoMemoryNodes)
        } else {
            None
        }
    }

    /// Checks the configuration: a process id must be given and be among the
    /// processes, the processes must fit the shared tables, and there must be
    /// a memory node.
    pub fn validate(&self) -> (r: Result<(), ConfigError>)
        ensures
            match r {
                Ok(_) => self.defect() is None,
                Err(e) => self.defect() == Some(e),
            },
    {
        if self.id < 0 {
            return Err(ConfigError::MissingId);
        }
        let id = self.id as u32;
        let mut found = false;
        let mut k: usize = 0;
        while k < self.processes.len()
            invariant
                k <= self.processes.len(),
                found <==> exists|m: int| 0 <= m < k && self.processes[m] == id,
            decreases self.processes.len() - k,
        {
            if self.processes[k] == id {
                found = true;
            }
            k += 1;
        }
        if !found {
            return Err(ConfigError::IdNotInProcesses);
        }
        if self.processes.len() > MAX_PROCESSES {
            return Err(ConfigError::TooManyProcesses);
        }
        if self.mem_nodes.len() == 0 {
            return Err(ConfigError::NoMemoryNodes);
        }
        Ok(())
    }
}

/// Why a text does not name a set of processes.
#[derive(Debug, Clone, Copy, PartialEq, Eq, Structural)]
pub enum ProcessSpecError {
    /// What stands before the range sign is no process id.
    InvalidRangeStart,
    /// What stands behind the range sign is no process id.
    InvalidRangeEnd,
    /// The text is no count of processes.
    InvalidProcessCount,
}

/// The process ids from `start` up to and including `end`, in rising order.
pub open spec fn id_range(start: int, end: int) -> Seq<u32> {
    if start <= end {
        Seq::new((end - start + 1) as nat, |i: int| (start + i) as u32)
    } else {
        Seq::empty()
    }
}

/// The ids from `text_start` to `text_end`, once both are read as process
/// ids with the white space round them taken off.
pub open spec fn ids_between(text_start: Seq<char>, text_end: Seq<char>) -> Result<
    Seq<u32>,
    ProcessSpecError,
> {
    match unsigned_value(trimmed(text_start), u32::MAX as nat) {
        None => Err(ProcessSpecError::InvalidRangeStart),
        Some(start) => match unsigned_value(trimmed(text_end), u32::MAX as nat) {
            None => Err(ProcessSpecError::InvalidRangeEnd),
            Some(end) => Ok(id_range(start as int, end as int)),
        },
    }
}

/// The processes that `text` names.
///
/// A text with two dots in a row, or else with a dash that is not its first
/// character, is a range: the ids from the one before the sign up to and
/// including the one behind it. A text that starts with a dash names
/// nothing. Any other text is a count `n`, and names the ids from 0 up to
/// `n - 1`.
pub open spec fn processes_of(text: Seq<char>) -> Result<Seq<u32>, ProcessSpecError> {
    let dots = index_of_pair(text, '.', 0);
    let dash = index_of(text, '-', 0);
    if dots < text.len() {
        ids_between(text.subrange(0, dots), text.subrange(dots + 2, text.len() as int))
    } else if dash < text.len() {
        if dash > 0 {
            ids_between(text.subrange(0, dash), text.subrange(dash + 1, text.len() as int))
        } else {
            Err(ProcessSpecError::InvalidProcessCount)
        }
    } else {
        match unsigned_value(trimmed(text), u32::MAX as nat) {
            Some(count) => Ok(id_range(0, count - 1)),
            None => Err(ProcessSpecError::InvalidProcessCount),
        }
    }
}

/// The process ids from `start` up to and including `end`.
fn ids_from_to(start: u32, end: u32) -> (ids: Vec<u32>)
    ensures
        ids@ == id_range(start as int, end as int),
{
    let mut ids: Vec<u32> = Vec::new();
    if start > end {
        return ids;
    }
    let mut next: u64 = start as u64;
    while next <= end as u64
        invariant
            start <= next <= end + 1,
            start <= end,
            ids@.len() == next - start,
            forall|i: int| 0 <= i < ids@.len() ==> ids@[i] == (start + i) as u32,
        decreases end + 1 - next,
    {
        ids.push(next as u32);
        next += 1;
    }
    assert(ids@ =~= id_range(start as int, end as int));
    ids
}

/// The first `count` process ids: 0 up to `count - 1`.
pub fn process_count(count: u32) -> (ids: Vec<u32>)
    ensures
        ids@ == id_range(0, count - 1),
{
    if count == 0 {
        let ids: Vec<u32> = Vec::new();
        assert(ids@ =~= id_range(0, -1));
        ids
    } else {
        ids_from_to(0, count - 1)
    }
}

/// Reads both ends of a range.
fn parse_ids_between(text_start: &str, text_end: &str) -> (r: Result<Vec<u32>, ProcessSpecError>)
    ensures
        match r {
            Ok(ids) => ids_between(text_start@, text_end@) == Ok::<Seq<u32>, ProcessSpecError>(
                ids@,
            ),
            Err(e) => ids_between(text_start@, text_end@) == Err::<Seq<u32>, ProcessSpecError>(e),
        },
{
    let start = match parse_unsigned(trim(text_start), u32::MAX as u64) {
        Some(v) => v as u32,
        None => {
            return Err(ProcessSpecError::InvalidRangeStart);
        },
    };
    let end = match parse_unsigned(trim(text_end), u32::MAX as u64) {
        Some(v) => v as u32,
        None => {
            return Err(ProcessSpecError::InvalidRangeEnd);
        },
    };
    Ok(ids_from_to(start, end))
}

/// Reads the processes of a group from a text: a range such as `0..3` or
/// `0-3`, ends included, or a count such as `4`.
pub fn parse_processes(text: &str) -> (r: Result<Vec<u32>, ProcessSpecError>)
    ensures
        match r {
            Ok(ids) => processes_of(text@) == Ok::<Seq<u32>, ProcessSpecError>(ids@),
            Err(e) => processes_of(text@) == Err::<Seq<u32>, ProcessSpecError>(e),
        },
{
    let len = text.unicode_len();
    if let Some(pos) = find_pair(text, '.') {
        return parse_ids_between(text.substring_char(0, pos), text.substring_char(pos + 2, len));
    }
    if let Some(pos) = find_char(text, '-', 0) {
        if pos > 0 {
            return parse_ids_between(
                text.substring_char(0, pos),
                text.substring_char(pos + 1, len),
            );
        } else {
            return Err(ProcessSpecError::InvalidProcessCount);
        }
    }
    match parse_unsigned(trim(text), u32::MAX as u64) {
        Some(count) => Ok(process_count(count as u32)),
        None => Err(ProcessSpecError::InvalidProcessCount),
    }
}

} // verus!
