//! The data of the library: merge records, pull-request entries and the
//! two-level forest that groups them, each with its mathematical model.

use vstd::prelude::*;

verus! {

/// Why an input could not be used.
#[derive(Debug, Clone, Copy, PartialEq, Eq, Structural)]
pub enum CoreError {
    /// The remote's location does not split into an owner and a repository name.
    MalformedRemoteUrl,
    /// A commit-log line does not hold two parent hashes and a date.
    UnparseableLogLine,
    /// A pull-request reference line names a number that does not fit.
    UnparseableRefLine,
}

/// One merge commit of the log: its parent hashes and its commit date.
#[derive(Debug, Clone)]
pub struct MergeRecord {
    pub parents: Vec<String>,
    pub date: String,
}

pub struct RecordModel {
    pub parents: Seq<Seq<char>>,
    pub date: Seq<char>,
}

impl View for MergeRecord {
    type V = RecordModel;

    open spec fn view(&self) -> RecordModel {
        RecordModel { parents: self.parents@.map_values(|p: String| p@), date: self.date@ }
    }
}

impl MergeRecord {
    /// A merge commit has at least two parents.
    pub open spec fn well_formed(&self) -> bool {
        self.parents@.len() >= 2
    }
}

/// One pull-request merge. `id` is `None` while the pull request is unknown.
#[derive(Debug, Clone)]
pub struct PrEntry {
    pub id: Option<u64>,
    pub date: String,
    pub author: String,
    pub hash: String,
}

pub struct EntryModel {
    pub id: Option<u64>,
    pub date: Seq<char>,
    pub author: Seq<char>,
    pub hash: Seq<char>,
}

impl View for PrEntry {
    type V = EntryModel;

    open spec fn view(&self) -> EntryModel {
        EntryModel { id: self.id, date: self.date@, author: self.author@, hash: self.hash@ }
    }
}

/// A top-level merge and the merges nested under it.
#[derive(Debug, Clone)]
pub struct PrTree {
    pub head: PrEntry,
    pub children: Vec<PrEntry>,
}

pub struct TreeModel {
    pub head: EntryModel,
    pub children: Seq<EntryModel>,
}

pub open spec fn entries_model(v: Seq<PrEntry>) -> Seq<EntryModel> {
    v.map_values(|e: PrEntry| e@)
}

impl View for PrTree {
    type V = TreeModel;

    open spec fn view(&self) -> TreeModel {
        TreeModel { head: self.head@, children: entries_model(self.children@) }
    }
}

pub open spec fn forest_model(v: Seq<PrTree>) -> Seq<TreeModel> {
    v.map_values(|t: PrTree| t@)
}

} // verus!
