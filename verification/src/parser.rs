//! The command parser: one line of free text becomes a [`Command`] or a
//! parse failure carrying the message `Invalid command`.

use vstd::prelude::*;

use crate::order::str_eq;
use crate::text::split_tokens;
use crate::text::tokens_of;
use crate::text::trim;
use crate::text::trim_of;

verus! {

/// One fully parsed intent of the directory interpreter.
pub enum Command {
    /// Register `name` under `department`.
    Add { name: String, department: String },
    /// List the employees of one department.
    ListDepartment { department: String },
    /// List every department with its employees.
    ListAll,
}

/// The whitespace tokens of an input line, after trimming.
pub open spec fn cmd_tokens(s: Seq<char>) -> Seq<Seq<char>> {
    tokens_of(trim_of(s))
}

/// The token shape `Add <name> to <department>`.
pub open spec fn is_add_cmd(tl: Seq<Seq<char>>) -> bool {
    tl.len() == 4 && tl[0] == "Add"@ && tl[2] == "to"@
}

/// The token shape `List employees in <department>`.
pub open spec fn is_list_dept_cmd(tl: Seq<Seq<char>>) -> bool {
    tl.len() == 4 && tl[0] == "List"@ && tl[1] == "employees"@ && tl[2] == "in"@
}

/// The token shape `List all employees`.
pub open spec fn is_list_all_cmd(tl: Seq<Seq<char>>) -> bool {
    tl.len() == 3 && tl[0] == "List"@ && tl[1] == "all"@ && tl[2] == "employees"@
}

/// Parses one line of input. Every string yields either the unique command
/// its tokens spell or the parse failure `Invalid command`; nothing else.
pub fn parse_command(input: &str) -> (r: Result<Command, String>)
    ensures
        ({
            let tl = cmd_tokens(input@);
            &&& (r matches Ok(c) ==> match c {
                Command::Add { name, department } => is_add_cmd(tl) && name@ == tl[1]
                    && department@ == tl[3],
                Command::ListDepartment { department } => is_list_dept_cmd(tl) && department@
                    == tl[3],
                Command::ListAll => is_list_all_cmd(tl),
            })
            &&& (r matches Err(e) ==> e@ == "Invalid command"@ && !is_add_cmd(tl)
                && !is_list_dept_cmd(tl) && !is_list_all_cmd(tl))
        }),
{
    let toks = split_tokens(trim(input));
    proof {
        assert(toks.deep_view() == cmd_tokens(input@));
    }
    if toks.len() == 4 {
        proof {
            assert(toks.deep_view()[0] == toks@[0]@);
            assert(toks.deep_view()[1] == toks@[1]@);
            assert(toks.deep_view()[2] == toks@[2]@);
            assert(toks.deep_view()[3] == toks@[3]@);
        }
        if str_eq(toks[0].as_str(), "Add") && str_eq(toks[2].as_str(), "to") {
            return Ok(
                Command::Add { name: toks[1].clone(), department: toks[3].clone() },
            );
        }
        if str_eq(toks[0].as_str(), "List") && str_eq(toks[1].as_str(), "employees") && str_eq(
            toks[2].as_str(),
            "in",
        ) {
            return Ok(Command::ListDepartment { department: toks[3].clone() });
        }
    } else if toks.len() == 3 {
        proof {
            assert(toks.deep_view()[0] == toks@[0]@);
            assert(toks.deep_view()[1] == toks@[1]@);
            assert(toks.deep_view()[2] == toks@[2]@);
        }
        if str_eq(toks[0].as_str(), "List") && str_eq(toks[1].as_str(), "all") && str_eq(
            toks[2].as_str(),
            "employees",
        ) {
            return Ok(Command::ListAll);
        }
    }
    Err(String::from_str("Invalid command"))
}

} // verus!
