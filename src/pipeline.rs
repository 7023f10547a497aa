//! From the raw outputs of the commit log and the remote's reference listing
//! to the resolved forest, and the decision to open or update the
//! integration pull request.

use vstd::prelude::*;
use crate::forest::{build_forest, build_spec, parse_merge_records, records_spec, strings_model};
use crate::model::{CoreError, PrTree, TreeModel, forest_model};
use crate::reconcile::{reconcile, reconcile_spec};
use crate::resolve::{parse_pull_refs, pull_refs_spec, refs_model, resolve, resolve_spec};

verus! {

/// The resolved forest of three listings, or the first error met while
/// reading them (merges, then first-parent merges, then references).
pub open spec fn pull_request_forest_spec(
    all: Seq<Seq<char>>,
    first_parent: Seq<Seq<char>>,
    refs: Seq<Seq<char>>,
) -> Result<Seq<TreeModel>, CoreError> {
    match records_spec(all) {
        Err(e) => Err(e),
        Ok(a) => match records_spec(first_parent) {
            Err(e) => Err(e),
            Ok(f) => match pull_refs_spec(refs) {
                Err(e) => Err(e),
                Ok(r) => Ok(resolve_spec(build_spec(a, f), r)),
            },
        },
    }
}

/// The pull requests merged between two branches, as a resolved forest: the
/// lines of all merges, of the first-parent merges, and of the remote's
/// pull-request head references.
pub fn pull_request_forest(
    all_lines: &Vec<String>,
    first_parent_lines: &Vec<String>,
    ref_lines: &Vec<String>,
) -> (r: Result<Vec<PrTree>, CoreError>)
    ensures
        match r {
            Ok(f) => pull_request_forest_spec(strings_model(all_lines@), strings_model(first_parent_lines@), strings_model(ref_lines@))
                == Ok::<_, CoreError>(forest_model(f@)),
            Err(e) => pull_request_forest_spec(strings_model(all_lines@), strings_model(first_parent_lines@), strings_model(ref_lines@))
                == Err::<Seq<TreeModel>, _>(e),
        },
{
    let all = match parse_merge_records(all_lines) {
        Ok(v) => v,
        Err(e) => return Err(e),
    };
    let first_parent = match parse_merge_records(first_parent_lines) {
        Ok(v) => v,
        Err(e) => return Err(e),
    };
    let refs = match parse_pull_refs(ref_lines) {
        Ok(v) => v,
        Err(e) => return Err(e),
    };
    let forest = build_forest(&all, &first_parent);
    Ok(resolve(&forest, &refs))
}

/// An open pull request between the same two branches.
#[derive(Debug, Clone)]
pub struct OpenPullRequest {
    pub number: u64,
    pub body: Option<String>,
}

/// What to send: a new pull request, or a new body for an open one.
#[derive(Debug, Clone)]
pub enum Submission {
    Create { body: String },
    Update { number: u64, body: String },
}

/// With no open pull request, a new one is created with the fresh checklist;
/// with one, that pull request gets the fresh checklist with its earlier
/// check marks put back, and none is created.
pub fn plan_submission(existing: Option<OpenPullRequest>, fresh_body: String) -> (r: Submission)
    ensures
        match existing {
            None => match r {
                Submission::Create { body } => body@ == fresh_body@,
                Submission::Update { .. } => false,
            },
            Some(p) => match r {
                Submission::Update { number, body } => number == p.number && body@ == match p.body {
                    Some(b) => reconcile_spec(b@, fresh_body@),
                    None => fresh_body@,
                },
                Submission::Create { .. } => false,
            },
        },
{
    match existing {
        None => Submission::Create { body: fresh_body },
        Some(p) => {
            let body = match &p.body {
                Some(b) => reconcile(b.as_str(), fresh_body.as_str()),
                None => fresh_body,
            };
            Submission::Update { number: p.number, body }
        },
    }
}

/// How the integration pull request is merged.
#[derive(Debug, Clone, Copy, PartialEq, Eq, Structural)]
pub enum MergeMethod {
    Merge,
    Squash,
    Rebase,
}

/// The merge to perform: none unless asked; rebase wins over squash, and a
/// plain merge is the default.
pub fn merge_method(merge: bool, squash: bool, rebase: bool) -> (r: Option<MergeMethod>)
    ensures
        r == if !merge {
            None
        } else if rebase {
            Some(MergeMethod::Rebase)
        } else if squash {
            Some(MergeMethod::Squash)
        } else {
            Some(MergeMethod::Merge)
        },
{
    if !merge {
        None
    } else if rebase {
        Some(MergeMethod::Rebase)
    } else if squash {
        Some(MergeMethod::Squash)
    } else {
        Some(MergeMethod::Merge)
    }
}

} // verus!
