//! The log of a writer's states: one line per round, made of the round
//! number, the state's name and the object id, with commas between them.
//! Writing the lines to a file and reading them back is the caller's.

use crate::algorithms::monster::MonsterState;
use crate::text::decimal;
use crate::text::find_char;
use crate::text::index_of;
use crate::text::is_digit;
use crate::text::lemma_decimal;
use crate::text::lemma_index_of;
use crate::text::lemma_trimmed_is_itself;
use crate::text::unsigned_digits;
use crate::text::parse_unsigned;
use crate::text::to_decimal;
use crate::text::trim;
use crate::text::trimmed;
use crate::text::unsigned_value;
use vstd::prelude::*;
use vstd::string::StrSliceExecFns;
use vstd::string::StringExecFns;

verus! {

/// One line of the log: the state that a writer was in at the start of a
/// round, and the object of its pending request.
#[derive(Debug, Clone, PartialEq)]
pub struct MonsterStateLogEntry {
    pub round_num: u64,
    pub state: String,
    pub object_id: usize,
}

/// The name of `state`.
pub open spec fn state_name(state: MonsterState) -> Seq<char> {
    match state {
        MonsterState::Try => "Try"@,
        MonsterState::Retry => "Retry"@,
        MonsterState::Check => "Check"@,
        MonsterState::Replicate => "Replicate"@,
        MonsterState::Wait => "Wait"@,
        MonsterState::PostConflictCheck => "PostConflictCheck"@,
    }
}

/// The line for a writer that is in the state named `state` in round
/// `round_num`, with a request for object `object_id`.
pub open spec fn line_of(round_num: u64, state: Seq<char>, object_id: usize) -> Seq<char> {
    decimal(round_num as nat) + seq![','] + state + seq![','] + decimal(object_id as nat)
}

/// What a line of the log says, as round number, state and object id; `None`
/// for a line that is empty or not made as the lines of the log are.
///
/// White space round the line does not count. The line is cut at its first
/// two commas; the first part must be a number, the last part a number, and
/// what stands between them is the state.
pub open spec fn entry_of(line: Seq<char>) -> Option<(u64, Seq<char>, usize)> {
    let text = trimmed(line);
    let first = index_of(text, ',', 0);
    let second = index_of(text, ',', first + 1);
    if first >= text.len() || second >= text.len() {
        None
    } else {
        match (
            unsigned_value(text.subrange(0, first), u64::MAX as nat),
            unsigned_value(text.subrange(second + 1, text.len() as int), usize::MAX as nat),
        ) {
            (Some(round_num), Some(object_id)) => Some(
                (round_num as u64, text.subrange(first + 1, second), object_id as usize),
            ),
            _ => None,
        }
    }
}

/// The line that records `state` in round `round_num` for object
/// `object_id`, without the line's end.
pub fn log_monster(round_num: u64, state: MonsterState, object_id: usize) -> (line: String)
    ensures
        line@ == line_of(round_num, state_name(state), object_id),
{
    proof {
        reveal_strlit(",");
    }
    let mut line = to_decimal(round_num);
    line.append(",");
    line.append(state.name());
    line.append(",");
    let id = to_decimal(object_id as u64);
    line.append(id.as_str());
    assert(","@ =~= seq![',']);
    line
}

/// Reads one line of the log.
pub fn parse_log_line(line: &str) -> (entry: Option<MonsterStateLogEntry>)
    ensures
        match entry {
            Some(e) => entry_of(line@) == Some((e.round_num, e.state@, e.object_id)),
            None => entry_of(line@) is None,
        },
{
    let text = trim(line);
    let len = text.unicode_len();
    let first = match find_char(text, ',', 0) {
        Some(i) => i,
        None => {
            return None;
        },
    };
    let second = match find_char(text, ',', first + 1) {
        Some(i) => i,
        None => {
            return None;
        },
    };
    let round_num = match parse_unsigned(text.substring_char(0, first), u64::MAX) {
        Some(v) => v,
        None => {
            return None;
        },
    };
    let object_id = match parse_unsigned(text.substring_char(second + 1, len), usize::MAX as u64) {
        Some(v) => v as usize,
        None => {
            return None;
        },
    };
    let state = text.substring_char(first + 1, second).to_owned();
    Some(MonsterStateLogEntry { round_num, state, object_id })
}

/// `entries` holds what the well-made lines among `lines` say, in their
/// order.
pub open spec fn entries_of(lines: Seq<String>) -> Seq<(u64, Seq<char>, usize)>
    decreases lines.len(),
{
    if lines.len() == 0 {
        Seq::empty()
    } else {
        match entry_of(lines.last()@) {
            Some(e) => entries_of(lines.drop_last()).push(e),
            None => entries_of(lines.drop_last()),
        }
    }
}

/// What an entry holds, as plain values.
pub open spec fn content(e: MonsterStateLogEntry) -> (u64, Seq<char>, usize) {
    (e.round_num, e.state@, e.object_id)
}

/// Reads the lines of a log. Lines that are empty or not made as the lines
/// of the log are left out.
pub fn read_monster_log(lines: &Vec<String>) -> (entries: Vec<MonsterStateLogEntry>)
    ensures
        entries@.map_values(|e: MonsterStateLogEntry| content(e)) == entries_of(lines@),
{
    let mut entries: Vec<MonsterStateLogEntry> = Vec::new();
    let mut i: usize = 0;
    assert(lines@.take(0) =~= Seq::<String>::empty());
    assert(entries@.map_values(|e: MonsterStateLogEntry| content(e)) =~= Seq::<
        (u64, Seq<char>, usize),
    >::empty());
    while i < lines.len()
        invariant
            i <= lines.len(),
            entries@.map_values(|e: MonsterStateLogEntry| content(e)) == entries_of(
                lines@.take(i as int),
            ),
        decreases lines.len() - i,
    {
        let ghost before = entries@;
        proof {
            assert(lines@.take(i + 1).drop_last() =~= lines@.take(i as int));
            assert(lines@.take(i + 1).last() == lines@[i as int]);
        }
        match parse_log_line(lines[i].as_str()) {
            Some(e) => {
                entries.push(e);
                assert(entries@.map_values(|e: MonsterStateLogEntry| content(e)) =~= before.map_values(
                    |e: MonsterStateLogEntry| content(e),
                ).push(content(e)));
            },
            None => {},
        }
        i += 1;
    }
    assert(lines@.take(lines.len() as int) =~= lines@);
    entries
}

/// The states of `entries`, in their order.
pub fn read_monster_states(entries: &Vec<MonsterStateLogEntry>) -> (states: Vec<String>)
    ensures
        states@.len() == entries@.len(),
        forall|i: int| 0 <= i < entries@.len() ==> states@[i]@ == entries@[i].state@,
{
    let mut states: Vec<String> = Vec::new();
    let mut i: usize = 0;
    while i < entries.len()
        invariant
            i <= entries.len(),
            states@.len() == i,
            forall|k: int| 0 <= k < i ==> states@[k]@ == entries@[k].state@,
        decreases entries.len() - i,
    {
        states.push(entries[i].state.clone());
        i += 1;
    }
    states
}

/// Where a log differs from what was expected.
#[derive(Debug, Clone, Copy, PartialEq, Eq, Structural)]
pub enum StateMismatch {
    /// The log has another number of states than expected.
    Length { expected: usize, actual: usize },
    /// The state at this index is the first that differs.
    State { index: usize },
}

/// Whether `actual` holds exactly the states `expected`, and if not, where
/// the two differ first.
pub fn assert_states(actual: &Vec<String>, expected: &Vec<String>) -> (r: Result<(), StateMismatch>)
    ensures
        match r {
            Ok(_) => actual@.len() == expected@.len() && forall|i: int|
                0 <= i < actual@.len() ==> actual@[i]@ == expected@[i]@,
            Err(StateMismatch::Length { expected: e, actual: a }) => a == actual@.len() && e
                == expected@.len() && a != e,
            Err(StateMismatch::State { index }) => {
                &&& actual@.len() == expected@.len()
                &&& index < actual@.len()
                &&& actual@[index as int]@ != expected@[index as int]@
                &&& forall|i: int| 0 <= i < index ==> actual@[i]@ == expected@[i]@
            },
        },
{
    if actual.len() != expected.len() {
        return Err(StateMismatch::Length { expected: expected.len(), actual: actual.len() });
    }
    let mut i: usize = 0;
    while i < actual.len()
        invariant
            i <= actual.len(),
            actual.len() == expected.len(),
            forall|k: int| 0 <= k < i ==> actual@[k]@ == expected@[k]@,
        decreases actual.len() - i,
    {
        if actual[i] != expected[i] {
            return Err(StateMismatch::State { index: i });
        }
        i += 1;
    }
    Ok(())
}

/// The names of the states hold no comma.
proof fn lemma_state_name_has_no_comma(state: MonsterState)
    ensures
        forall|i: int| 0 <= i < state_name(state).len() ==> #[trigger] state_name(state)[i] != ',',
{
    reveal_strlit("Try");
    reveal_strlit("Retry");
    reveal_strlit("Check");
    reveal_strlit("Replicate");
    reveal_strlit("Wait");
    reveal_strlit("PostConflictCheck");
}

/// What is written to the log is read back as it was: the line for a round,
/// a state and an object reads as that round, the state's name and that
/// object.
pub proof fn lemma_log_line_reads_back(round_num: u64, state: MonsterState, object_id: usize)
    ensures
        entry_of(line_of(round_num, state_name(state), object_id)) == Some(
            (round_num, state_name(state), object_id),
        ),
{
    let round = decimal(round_num as nat);
    let name = state_name(state);
    let id = decimal(object_id as nat);
    let line = line_of(round_num, name, object_id);
    let first = round.len() as int;
    let second = first + 1 + name.len();
    lemma_decimal(round_num as nat);
    lemma_decimal(object_id as nat);
    lemma_state_name_has_no_comma(state);
    assert(line.len() == second + 1 + id.len());
    assert forall|i: int| 0 <= i < line.len() implies #[trigger] line[i] == if i < first {
        round[i]
    } else if i == first {
        ','
    } else if i < second {
        name[i - first - 1]
    } else if i == second {
        ','
    } else {
        id[i - second - 1]
    } by {}
    assert(is_digit(round[0]));
    assert(is_digit(id[id.len() - 1]));
    assert(line[0] == round[0]);
    assert(line.last() == id[id.len() - 1]);
    lemma_trimmed_is_itself(line);
    assert forall|i: int| 0 <= i < first implies line[i] != ',' by {
        assert(is_digit(round[i]));
    }
    lemma_index_of(line, ',', 0, first);
    assert forall|i: int| first + 1 <= i < second implies line[i] != ',' by {
        assert(name[i - first - 1] != ',');
    }
    lemma_index_of(line, ',', first + 1, second);
    assert(line.subrange(0, first) =~= round);
    assert(line.subrange(first + 1, second) =~= name);
    assert(line.subrange(second + 1, line.len() as int) =~= id);
    assert(unsigned_digits(round) == round);
    assert(unsigned_digits(id) == id);
}

} // verus!
