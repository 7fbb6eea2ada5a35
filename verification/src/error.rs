//! The ways an operation on the task store fails.

use vstd::prelude::*;
use vstd::string::StringExecFns;
use crate::task::TaskId;

verus! {

/// A failure of an operation on the task store.
#[derive(Clone, Copy, Debug, PartialEq, Eq, Structural)]
pub enum TaskError {
    /// No task with this identifier is in the log, or a filter hides it.
    UnexistingTask(TaskId),
    /// A record of a dump could not be read back as a task.
    MalformedDumpRecord,
}

/// The character of a decimal digit.
pub open spec fn digit_of(d: nat) -> char {
    seq!['0', '1', '2', '3', '4', '5', '6', '7', '8', '9'][d as int]
}

/// A number in decimal notation, without leading zeros.
pub open spec fn decimal(n: nat) -> Seq<char>
    decreases n,
{
    if n < 10 {
        seq![digit_of(n)]
    } else {
        decimal(n / 10).push(digit_of(n % 10))
    }
}

fn digit_str(d: u32) -> (r: &'static str)
    requires
        d < 10,
    ensures
        r@ == seq![digit_of(d as nat)],
{
    proof {
        reveal_strlit("0");
        reveal_strlit("1");
        reveal_strlit("2");
        reveal_strlit("3");
        reveal_strlit("4");
        reveal_strlit("5");
        reveal_strlit("6");
        reveal_strlit("7");
        reveal_strlit("8");
        reveal_strlit("9");
    }
    let r = match d {
        0 => "0",
        1 => "1",
        2 => "2",
        3 => "3",
        4 => "4",
        5 => "5",
        6 => "6",
        7 => "7",
        8 => "8",
        _ => "9",
    };
    assert(r@ =~= seq![digit_of(d as nat)]);
    r
}

/// Writes an identifier in decimal notation.
pub fn to_decimal(n: TaskId) -> (r: String)
    ensures
        r@ == decimal(n as nat),
    decreases n,
{
    if n < 10 {
        String::from_str(digit_str(n))
    } else {
        let mut s = to_decimal(n / 10);
        s.append(digit_str(n % 10));
        assert(s@ =~= decimal((n / 10) as nat).push(digit_of((n % 10) as nat)));
        s
    }
}

impl TaskError {
    /// The stable code by which a machine tells the failure.
    pub open spec fn code_of(self) -> Seq<char> {
        match self {
            TaskError::UnexistingTask(_) => "task_not_found"@,
            TaskError::MalformedDumpRecord => "internal"@,
        }
    }

    /// The stable code by which a machine tells the failure.
    pub fn error_code(&self) -> (r: &'static str)
        ensures
            r@ == self.code_of(),
    {
        match self {
            TaskError::UnexistingTask(_) => "task_not_found",
            TaskError::MalformedDumpRecord => "internal",
        }
    }

    /// Whether the failure is that of a request for a task that is not
    /// there, which a caller answers as it answers any missing resource.
    pub fn is_not_found(&self) -> (b: bool)
        ensures
            b == (self is UnexistingTask),
    {
        match self {
            TaskError::UnexistingTask(_) => true,
            _ => false,
        }
    }

    /// What the failure says to a reader.
    pub open spec fn message_of(self) -> Seq<char> {
        match self {
            TaskError::UnexistingTask(id) => "Task `"@ + decimal(id as nat) + "` not found."@,
            TaskError::MalformedDumpRecord => "A record of the dump could not be read."@,
        }
    }

    /// What the failure says to a reader.
    pub fn message(&self) -> (r: String)
        ensures
            r@ == self.message_of(),
    {
        match self {
            TaskError::UnexistingTask(id) => {
                let mut s = String::from_str("Task `");
                let number = to_decimal(*id);
                s.append(number.as_str());
                s.append("` not found.");
                s
            },
            TaskError::MalformedDumpRecord => String::from_str(
                "A record of the dump could not be read.",
            ),
        }
    }
}

} // verus!
