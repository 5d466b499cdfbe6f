use vstd::prelude::*;

verus! {

/// One invocation of the tool: which command, with which arguments. The
/// surface that reads the command line fills this in and hands it over.
#[derive(Debug, Clone)]
pub struct Args {
    pub cmd: Cmd,
}

/// The commands the tool answers to.
#[derive(Debug, Clone)]
pub enum Cmd {
    /// Create a new record in the active tree.
    Add {
        title: Option<String>,
        due: Option<String>,
        tags: Vec<String>,
        importance: i32,
        edit: bool,
        slug: Option<String>,
    },
    /// List active records, filtered and ordered by due-proximity.
    List {
        due_within: Option<String>,
        due_from: Option<String>,
        due_to: Option<String>,
        tag: Option<String>,
        status: Option<String>,
        importance: Option<String>,
        text: Option<String>,
        include_overdue: bool,
    },
    /// Print one record's file.
    Show { id_or_prefix: String },
    /// Open one record in the editor and stamp it.
    Edit { id_or_prefix: String },
    /// Move a record to `doing`.
    Start { id_or_prefix: Option<String> },
    /// Move a record to `waiting`.
    Wait { id_or_prefix: Option<String> },
    /// Close a record as done.
    Done { id_or_prefix: Option<String> },
    /// Close a record as canceled.
    Cancel { id_or_prefix: Option<String> },
    /// Bring a closed record back to `todo`.
    Reopen { id_or_prefix: Option<String> },
    /// Archive closed records and reorganize the archive trees.
    Archive,
    /// Repair quarantined files.
    FixBroken,
}

} // verus!
