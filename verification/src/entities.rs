//! The task tracker's data model: tasks, their status, and the parsed
//! command-line configuration.

use vstd::prelude::*;
use crate::strutil::{to_upper_seq, to_upper_string, eq_str};

verus! {

/// Lifecycle tag of a task.
#[derive(Clone, Copy, PartialEq, Eq, Structural, Debug)]
pub enum Status {
    HOLD,
    PROGRESS,
    DONE,
}

/// A single to-do item.
#[derive(Debug)]
pub struct Task {
    pub id: i32,
    pub description: String,
    pub status: Status,
}

/// Mathematical model of a task: the description as a character sequence.
#[verifier::ext_equal]
pub ghost struct TaskView {
    pub id: i32,
    pub description: Seq<char>,
    pub status: Status,
}

impl View for Task {
    type V = TaskView;

    open spec fn view(&self) -> TaskView {
        TaskView { id: self.id, description: self.description@, status: self.status }
    }
}

/// The models of a sequence of tasks, in order.
pub open spec fn tasks_view(s: Seq<Task>) -> Seq<TaskView> {
    s.map_values(|t: Task| t@)
}

/// The canonical name of a status, as stored on disk and printed.
pub open spec fn status_name(st: Status) -> Seq<char> {
    match st {
        Status::HOLD => "HOLD"@,
        Status::PROGRESS => "PROGRESS"@,
        Status::DONE => "DONE"@,
    }
}

/// Case-insensitive reading of a status name; `None` for anything else.
pub open spec fn status_of(s: Seq<char>) -> Option<Status> {
    if to_upper_seq(s) == "HOLD"@ {
        Some(Status::HOLD)
    } else if to_upper_seq(s) == "PROGRESS"@ {
        Some(Status::PROGRESS)
    } else if to_upper_seq(s) == "DONE"@ {
        Some(Status::DONE)
    } else {
        None
    }
}

/// The message reported when a status name cannot be read.
pub open spec fn invalid_status_msg(s: Seq<char>) -> Seq<char> {
    "Invalid status string: '"@ + s + "'. Allowed: HOLD, PROGRESS, DONE"@
}

impl Status {
    /// Case-insensitive parse of a status name.
    pub fn from_str(status: &str) -> (r: Result<Status, String>)
        ensures
            r is Ok <==> status_of(status@) is Some,
            r matches Ok(st) ==> status_of(status@) == Some(st),
            r matches Err(m) ==> m@ == invalid_status_msg(status@),
    {
        let up = to_upper_string(status);
        if eq_str(up.as_str(), "HOLD") {
            Ok(Status::HOLD)
        } else if eq_str(up.as_str(), "PROGRESS") {
            Ok(Status::PROGRESS)
        } else if eq_str(up.as_str(), "DONE") {
            Ok(Status::DONE)
        } else {
            let mut m = String::new();
            m.append("Invalid status string: '");
            m.append(status);
            m.append("'. Allowed: HOLD, PROGRESS, DONE");
            proof {
                assert(m@ =~= invalid_status_msg(status@));
            }
            Err(m)
        }
    }

    /// The status name as an owned string.
    pub fn name(&self) -> (r: String)
        ensures
            r@ == status_name(*self),
    {
        match self {
            Status::HOLD => {
                let r = String::from_str("HOLD");
                r
            },
            Status::PROGRESS => {
                let r = String::from_str("PROGRESS");
                r
            },
            Status::DONE => {
                let r = String::from_str("DONE");
                r
            },
        }
    }
}

/// One invocation's parsed arguments.
#[derive(Debug)]
pub struct Config {
    pub action: String,
    pub first_arg: String,
    pub second_arg: Option<String>,
    pub third_arg: Option<String>,
}

/// True when the word names the `list` action, ignoring ASCII case.
pub open spec fn is_list_word(s: Seq<char>) -> bool {
    to_upper_seq(s) == "LIST"@
}

/// True when the word names the `add` action, ignoring ASCII case.
pub open spec fn is_add_word(s: Seq<char>) -> bool {
    to_upper_seq(s) == "ADD"@
}

impl Config {
    /// Reads the process argument list (the leading program name included)
    /// into a configuration, or reports what is missing.
    pub fn build(args: Vec<String>) -> (r: Result<Config, &'static str>)
        ensures
            r is Ok <==> (args@.len() >= 3 || (args@.len() == 2 && is_list_word(args@[1]@))),
            r matches Ok(c) ==> {
                &&& c.action@ == args@[1]@
                &&& c.first_arg@ == (if args@.len() >= 3 {
                    args@[2]@
                } else {
                    Seq::<char>::empty()
                })
                &&& (if args@.len() >= 4 {
                    c.second_arg matches Some(s) && s@ == args@[3]@
                } else {
                    c.second_arg is None
                })
                &&& (if args@.len() >= 5 {
                    c.third_arg matches Some(s) && s@ == args@[4]@
                } else {
                    c.third_arg is None
                })
            },
            args@.len() <= 1 ==> (r matches Err(m) && m@ == "No action in command"@),
            args@.len() == 2 && is_add_word(args@[1]@) ==> (r matches Err(m) && m@
                == "No description provided for 'add' action."@),
            args@.len() == 2 && !is_list_word(args@[1]@) && !is_add_word(args@[1]@) ==> (
            r matches Err(m) && m@ == "Missing required argument (e.g., ID or description)."@),
    {
        if args.len() <= 1 {
            return Err("No action in command");
        }
        let action = args[1].clone();
        let first_arg: String;
        if args.len() >= 3 {
            first_arg = args[2].clone();
        } else {
            proof {
                reveal_strlit("LIST");
                reveal_strlit("ADD");
            }
            let up = to_upper_string(action.as_str());
            proof {
                assert(action@ == args@[1]@);
                assert(up@ == to_upper_seq(args@[1]@));
            }
            if eq_str(up.as_str(), "LIST") {
                first_arg = String::new();
            } else if eq_str(up.as_str(), "ADD") {
                return Err("No description provided for 'add' action.");
            } else {
                return Err("Missing required argument (e.g., ID or description).");
            }
        }
        let second_arg = if args.len() >= 4 {
            Some(args[3].clone())
        } else {
            None
        };
        let third_arg = if args.len() >= 5 {
            Some(args[4].clone())
        } else {
            None
        };
        Ok(Config { action, first_arg, second_arg, third_arg })
    }
}

/// The four actions the tracker knows, and a marker for anything else.
#[derive(Clone, Copy, PartialEq, Eq, Structural, Debug)]
pub enum ActionKind {
    Add,
    Delete,
    Edit,
    List,
    Unknown,
}

/// Exact (case-sensitive) reading of an action word, as the dispatcher does it.
pub open spec fn action_kind(s: Seq<char>) -> ActionKind {
    if s == "add"@ {
        ActionKind::Add
    } else if s == "delete"@ {
        ActionKind::Delete
    } else if s == "edit"@ {
        ActionKind::Edit
    } else if s == "list"@ {
        ActionKind::List
    } else {
        ActionKind::Unknown
    }
}

/// Decides which action an action word names.
pub fn action_of(s: &str) -> (r: ActionKind)
    ensures
        r == action_kind(s@),
{
    if eq_str(s, "add") {
        ActionKind::Add
    } else if eq_str(s, "delete") {
        ActionKind::Delete
    } else if eq_str(s, "edit") {
        ActionKind::Edit
    } else if eq_str(s, "list") {
        ActionKind::List
    } else {
        ActionKind::Unknown
    }
}

} // verus!
