//! The record of the last run, and the text in which it is kept on disk.

use crate::text::{after_prefix, chars_of, lemma_split_line, split_line, strip_prefix, take_line};
use crate::value::{
    decimal, flag_of, flag_text, lemma_decimal, number, parse_decimal, push_decimal, read_flag,
};
use vstd::prelude::*;
use vstd::string::StringExecFns;

verus! {

/// What a run leaves behind for the status report.
#[derive(Clone, Copy, Debug, PartialEq, Eq, Structural)]
pub struct RunState {
    /// How many domains the run selected for blocking.
    pub domains_blocked: u64,
    /// When the run published its blocklist, in seconds since the Unix epoch.
    pub last_run: u64,
    /// Whether the run found no reference domain at all.
    pub reference_was_empty: bool,
}

/// A line of the text: a key, which ends in `=`, its value and a line feed.
pub open spec fn entry(key: Seq<char>, value: Seq<char>) -> Seq<char> {
    key + value + seq!['\n']
}

/// The text in which a run state is kept: three lines, one for each field.
pub open spec fn encoded(state: RunState) -> Seq<char> {
    entry("domains_blocked="@, decimal(state.domains_blocked as nat)) + entry(
        "last_run="@,
        decimal(state.last_run as nat),
    ) + entry("reference_was_empty="@, flag_text(state.reference_was_empty))
}

/// The value of the line that ends at the first line feed of `s`, where that
/// line starts with `key`; with it, what follows the line feed.
pub open spec fn field(s: Seq<char>, key: Seq<char>) -> Option<(Seq<char>, Seq<char>)> {
    match split_line(s) {
        Some((line, rest)) => match after_prefix(line, key) {
            Some(value) => Some((value, rest)),
            None => None,
        },
        None => None,
    }
}

/// A 64-bit number from its decimal digits.
pub open spec fn number64(s: Seq<char>) -> Option<u64> {
    match number(s) {
        Some(n) => if n <= u64::MAX {
            Some(n as u64)
        } else {
            None
        },
        None => None,
    }
}

/// The run state that a text holds: the three lines of `encoded`, in their
/// order, with nothing before, between or after them. The numbers may have
/// leading zeros.
pub open spec fn decoded(text: Seq<char>) -> Option<RunState> {
    match field(text, "domains_blocked="@) {
        Some((blocked, rest)) => match field(rest, "last_run="@) {
            Some((last, rest)) => match field(rest, "reference_was_empty="@) {
                Some((empty, rest)) => match (number64(blocked), number64(last), flag_of(empty)) {
                    (Some(domains_blocked), Some(last_run), Some(reference_was_empty)) => if rest.len()
                        == 0 {
                        Some(RunState { domains_blocked, last_run, reference_was_empty })
                    } else {
                        None
                    },
                    _ => None,
                },
                None => None,
            },
            None => None,
        },
        None => None,
    }
}

/// A line whose key and value hold no line feed is read back as that value.
pub proof fn lemma_field(key: Seq<char>, value: Seq<char>, rest: Seq<char>)
    requires
        !key.contains('\n'),
        !value.contains('\n'),
    ensures
        field(entry(key, value) + rest, key) == Some((value, rest)),
{
    let line = key + value;
    assert(!line.contains('\n')) by {
        if line.contains('\n') {
            let i = choose|i: int| 0 <= i < line.len() && line[i] == '\n';
            if i < key.len() {
                assert(key.contains(key[i]));
            } else {
                assert(value.contains(value[i - key.len()]));
            }
        }
    }
    lemma_split_line(line, rest);
    assert(line.take(key.len() as int) == key);
    assert(line.skip(key.len() as int) == value);
}

/// The text of a run state is read back as that run state.
pub proof fn lemma_round_trip(state: RunState)
    ensures
        decoded(encoded(state)) == Some(state),
{
    reveal_strlit("domains_blocked=");
    reveal_strlit("last_run=");
    reveal_strlit("reference_was_empty=");
    reveal_strlit("true");
    reveal_strlit("false");
    let blocked = decimal(state.domains_blocked as nat);
    let last = decimal(state.last_run as nat);
    let empty = flag_text(state.reference_was_empty);
    let third = entry("reference_was_empty="@, empty);
    let second = entry("last_run="@, last);
    lemma_decimal(state.domains_blocked as nat);
    lemma_decimal(state.last_run as nat);
    assert(encoded(state) == entry("domains_blocked="@, blocked) + (second + third));
    lemma_field("domains_blocked="@, blocked, second + third);
    lemma_field("last_run="@, last, third);
    assert(third == third + Seq::<char>::empty());
    lemma_field("reference_was_empty="@, empty, Seq::empty());
}

impl RunState {
    /// The state that a run leaves behind which selected `selected`, with or
    /// without reference domains to go by, and published at `now`.
    pub fn from_selection(selected: &Vec<String>, empty_reference: bool, now: u64) -> (r: RunState)
        ensures
            r == (RunState {
                domains_blocked: selected@.len() as u64,
                last_run: now,
                reference_was_empty: empty_reference,
            }),
    {
        RunState {
            domains_blocked: selected.len() as u64,
            last_run: now,
            reference_was_empty: empty_reference,
        }
    }

    /// The text in which the state is kept on disk.
    pub fn encode(&self) -> (r: String)
        ensures
            r@ == encoded(*self),
            decoded(r@) == Some(*self),
    {
        let mut r = String::new();
        r.append("domains_blocked=");
        push_decimal(&mut r, self.domains_blocked);
        r.append("\n");
        r.append("last_run=");
        push_decimal(&mut r, self.last_run);
        r.append("\n");
        r.append("reference_was_empty=");
        if self.reference_was_empty {
            r.append("true");
        } else {
            r.append("false");
        }
        r.append("\n");
        proof {
            reveal_strlit("\n");
            assert("\n"@ == seq!['\n']);
            lemma_round_trip(*self);
        }
        r
    }

    /// Reads a state back from its text; `None` where the text is not that
    /// of a state.
    pub fn decode(text: &str) -> (r: Option<RunState>)
        ensures
            r == decoded(text@),
    {
        let v = chars_of(text);
        let (blocked, rest) = match read_field(v.as_slice(), "domains_blocked=") {
            Some(found) => found,
            None => {
                return None;
            },
        };
        let (last, rest) = match read_field(rest, "last_run=") {
            Some(found) => found,
            None => {
                return None;
            },
        };
        let (empty, rest) = match read_field(rest, "reference_was_empty=") {
            Some(found) => found,
            None => {
                return None;
            },
        };
        let domains_blocked = parse_decimal(blocked);
        let last_run = parse_decimal(last);
        let reference_was_empty = read_flag(empty);
        match (domains_blocked, last_run, reference_was_empty) {
            (Some(domains_blocked), Some(last_run), Some(reference_was_empty)) => {
                if rest.len() == 0 {
                    Some(RunState { domains_blocked, last_run, reference_was_empty })
                } else {
                    None
                }
            },
            _ => None,
        }
    }
}

/// What the status report says of the last run, or of there being none.
pub open spec fn status_text(state: Option<RunState>) -> Seq<char> {
    match state {
        Some(state) => "Tune My Hole\nBlocked domains: "@ + decimal(state.domains_blocked as nat)
            + "\nLast run: "@ + decimal(state.last_run as nat) + "\n"@,
        None => "No runs yet.\n"@,
    }
}

/// Writes the status report for the state that was found on disk, if one
/// was found.
pub fn status_report(state: Option<RunState>) -> (r: String)
    ensures
        r@ == status_text(state),
{
    let mut r = String::new();
    match state {
        Some(state) => {
            r.append("Tune My Hole\nBlocked domains: ");
            push_decimal(&mut r, state.domains_blocked);
            r.append("\nLast run: ");
            push_decimal(&mut r, state.last_run);
            r.append("\n");
        },
        None => {
            r.append("No runs yet.\n");
        },
    }
    r
}

/// Takes the first line off `s` and the key off that line.
fn read_field<'a>(s: &'a [char], key: &str) -> (r: Option<(&'a [char], &'a [char])>)
    ensures
        match r {
            Some((value, rest)) => field(s@, key@) == Some((value@, rest@)),
            None => field(s@, key@) is None,
        },
{
    match take_line(s) {
        Some((line, rest)) => {
            let k = chars_of(key);
            match strip_prefix(line, k.as_slice()) {
                Some(value) => Some((value, rest)),
                None => None,
            }
        },
        None => None,
    }
}

} // verus!
