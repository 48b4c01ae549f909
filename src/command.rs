//! The commands of the interactive prompt.
use vstd::prelude::*;
use crate::settings::{Operation, Slot};

verus! {

/// A command typed at the prompt.
#[derive(Clone, Copy, PartialEq, Eq, Structural, Debug)]
pub enum Command {
    Help,
    PermSave,
    PermLoad,
    TempSave,
    TempLoad,
    SwapRegion,
    Exit,
    Unknown,
}

/// The command that a trimmed, lower-case input names.
pub open spec fn command_of(s: Seq<char>) -> Command {
    if s == "help"@ {
        Command::Help
    } else if s == "perm_save"@ {
        Command::PermSave
    } else if s == "perm_load"@ {
        Command::PermLoad
    } else if s == "temp_save"@ {
        Command::TempSave
    } else if s == "temp_load"@ {
        Command::TempLoad
    } else if s == "swap_region"@ {
        Command::SwapRegion
    } else if s == "exit"@ {
        Command::Exit
    } else {
        Command::Unknown
    }
}

/// The file operation that a command runs, if any.
pub open spec fn operation_of(c: Command) -> Option<Operation> {
    match c {
        Command::PermSave => Some(Operation::SaveToSlot(Slot::Permanent)),
        Command::PermLoad => Some(Operation::LoadFromSlot(Slot::Permanent)),
        Command::TempSave => Some(Operation::SaveToSlot(Slot::Temporary)),
        Command::TempLoad => Some(Operation::LoadFromSlot(Slot::Temporary)),
        Command::SwapRegion => Some(Operation::SwapRegion),
        _ => None,
    }
}

/// What `str::trim` returns for the characters `s`.
pub uninterp spec fn trim_of(s: Seq<char>) -> Seq<char>;

/// What `str::to_lowercase` returns for the characters `s`.
pub uninterp spec fn lower_of(s: Seq<char>) -> Seq<char>;

/// Relies on `str::trim`: the input without its leading and trailing
/// whitespace, a function of the characters alone.
#[verifier::external_body]
fn trimmed(s: &str) -> (r: &str)
    ensures
        r@ == trim_of(s@),
{
    s.trim()
}

/// Relies on `str::to_lowercase`: the lower-case form of the input, a
/// function of the characters alone.
#[verifier::external_body]
fn lowercase(s: &str) -> (r: String)
    ensures
        r@ == lower_of(s@),
{
    s.to_lowercase()
}

/// Whether `a` and `b` hold the same characters.
pub fn same_text(a: &str, b: &str) -> (r: bool)
    ensures
        r == (a@ == b@),
{
    let n = a.unicode_len();
    if n != b.unicode_len() {
        return false;
    }
    let mut i: usize = 0;
    while i < n
        invariant
            n == a@.len() == b@.len(),
            i <= n,
            a@.subrange(0, i as int) =~= b@.subrange(0, i as int),
        decreases n - i,
    {
        if a.get_char(i) != b.get_char(i) {
            return false;
        }
        i = i + 1;
        assert(a@.subrange(0, i as int) =~= b@.subrange(0, i as int));
    }
    assert(a@ =~= a@.subrange(0, n as int));
    assert(b@ =~= b@.subrange(0, n as int));
    true
}

/// The command that an input already trimmed and in lower case names.
pub fn command_of_normalized(s: &str) -> (r: Command)
    ensures
        r == command_of(s@),
{
    if same_text(s, "help") {
        Command::Help
    } else if same_text(s, "perm_save") {
        Command::PermSave
    } else if same_text(s, "perm_load") {
        Command::PermLoad
    } else if same_text(s, "temp_save") {
        Command::TempSave
    } else if same_text(s, "temp_load") {
        Command::TempLoad
    } else if same_text(s, "swap_region") {
        Command::SwapRegion
    } else if same_text(s, "exit") {
        Command::Exit
    } else {
        Command::Unknown
    }
}

/// The command that an input line names, ignoring surrounding whitespace
/// and case.
pub fn parse_command(line: &str) -> (r: Command)
    ensures
        r == command_of(lower_of(trim_of(line@))),
{
    let lower = lowercase(trimmed(line));
    command_of_normalized(lower.as_str())
}

impl Command {
    /// The file operation that this command runs, if any.
    pub fn operation(&self) -> (r: Option<Operation>)
        ensures
            r == operation_of(*self),
    {
        match self {
            Command::PermSave => Some(Operation::SaveToSlot(Slot::Permanent)),
            Command::PermLoad => Some(Operation::LoadFromSlot(Slot::Permanent)),
            Command::TempSave => Some(Operation::SaveToSlot(Slot::Temporary)),
            Command::TempLoad => Some(Operation::LoadFromSlot(Slot::Temporary)),
            Command::SwapRegion => Some(Operation::SwapRegion),
            _ => None,
        }
    }
}

} // verus!
