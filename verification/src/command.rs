//! The one entity of the service: a shell command reported by a session.

use vstd::prelude::*;

verus! {

/// The mathematical value of a [`Command`]: every field as a plain
/// mathematical object. Contracts throughout the crate speak of this view.
pub ghost struct CommandV {
    /// Store-assigned identifier; `0` before insertion.
    pub id: int,
    /// Client-supplied session identifier, lowercased at ingestion.
    pub session_id: Seq<char>,
    /// The client's own per-session sequence number.
    pub index: int,
    /// The literal shell command text.
    pub command: Seq<char>,
    /// Working directory at execution time.
    pub pwd: Seq<char>,
    /// Exit status of the command.
    pub status: int,
    /// Server receipt time, in milliseconds; assigned at ingestion.
    pub timestamp: int,
}

/// A recorded shell command.
///
/// `id` is assigned exactly once, by the store, at insertion time.
/// `timestamp` is the server's receipt time in milliseconds; it establishes
/// the sole ordering used for retrieval, with ties broken by `id` (which
/// follows insertion order).
#[derive(Debug)]
pub struct Command {
    pub id: i64,
    pub session_id: String,
    pub index: u32,
    pub command: String,
    pub pwd: String,
    pub status: u32,
    pub timestamp: i64,
}

impl View for Command {
    type V = CommandV;

    open spec fn view(&self) -> CommandV {
        CommandV {
            id: self.id as int,
            session_id: self.session_id@,
            index: self.index as int,
            command: self.command@,
            pwd: self.pwd@,
            status: self.status as int,
            timestamp: self.timestamp as int,
        }
    }
}

impl Clone for Command {
    fn clone(&self) -> (r: Self)
        ensures
            r@ == self@,
    {
        Command {
            id: self.id,
            session_id: self.session_id.clone(),
            index: self.index,
            command: self.command.clone(),
            pwd: self.pwd.clone(),
            status: self.status,
            timestamp: self.timestamp,
        }
    }
}

impl PartialEq for Command {
    fn eq(&self, other: &Self) -> (r: bool) {
        self.id == other.id && self.session_id == other.session_id && self.index == other.index
            && self.command == other.command && self.pwd == other.pwd
            && self.status == other.status && self.timestamp == other.timestamp
    }
}

impl vstd::std_specs::cmp::PartialEqSpecImpl for Command {
    open spec fn obeys_eq_spec() -> bool {
        true
    }

    open spec fn eq_spec(&self, other: &Self) -> bool {
        self@ == other@
    }
}

/// The views of a sequence of commands, element by element.
pub open spec fn views_of(s: Seq<Command>) -> Seq<CommandV> {
    s.map_values(|c: Command| c@)
}

} // verus!
