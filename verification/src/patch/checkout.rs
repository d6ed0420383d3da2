//! Checking out a patch into the working copy: which branch to use and which
//! commit it must point at.

use vstd::prelude::*;
use vstd::string::StringExecFns;

verus! {

/// What the storage layer reports about the patch being checked out.
pub struct PatchSnapshot {
    /// The patch's identifier, in the textual form used for reference names.
    pub patch_id: String,
    /// Identifier of the patch's root revision: the revision the patch was
    /// opened with.
    pub root: String,
    /// Head commit of the patch's latest revision.
    pub latest_head: String,
    /// Head commit of the revision the caller asked for.
    pub revision_head: String,
}

/// What the working copy reports about the patch branch.
pub enum BranchLookup {
    /// The branch exists and its head peels to this commit.
    Found { head: String },
    /// The branch does not exist yet.
    Missing,
}

/// The checkout to perform: which branch to place the working copy on, which
/// commit it must point at, and whether the branch must first be created.
pub struct CheckoutPlan {
    /// Name of the patch branch, under the `patch/` prefix.
    pub branch: String,
    /// The commit the branch must point at.
    pub commit: String,
    /// Whether the branch has to be created at `commit` before checkout.
    pub create_branch: bool,
}

/// The head commit the checkout targets. If the caller passed the root
/// revision, it more likely meant the patch itself, so the latest revision's
/// head is used instead of the root's.
pub open spec fn target_head(revision_id: Seq<char>, patch: PatchSnapshot) -> Seq<char> {
    if revision_id == patch.root@ {
        patch.latest_head@
    } else {
        patch.revision_head@
    }
}

/// Decide a patch checkout. The working copy is placed on the branch named
/// `patch/<patch id>`: on the branch's own head where the branch already
/// exists, otherwise on a fresh branch at the requested revision's head —
/// the latest revision's head when the root revision was requested.
pub fn run(revision_id: &String, patch: &PatchSnapshot, branch: &BranchLookup) -> (plan:
    CheckoutPlan)
    ensures
        plan.branch@ == "patch/"@ + patch.patch_id@,
        match *branch {
            BranchLookup::Found { head } => plan.commit@ == head@ && !plan.create_branch,
            BranchLookup::Missing => plan.commit@ == target_head(revision_id@, *patch)
                && plan.create_branch,
        },
{
    let mut name: String = "patch/".to_owned();
    name.append(patch.patch_id.as_str());
    match branch {
        BranchLookup::Found { head } => CheckoutPlan {
            branch: name,
            commit: head.clone(),
            create_branch: false,
        },
        BranchLookup::Missing => {
            let commit = if revision_id.eq(&patch.root) {
                patch.latest_head.clone()
            } else {
                patch.revision_head.clone()
            };
            CheckoutPlan { branch: name, commit, create_branch: true }
        },
    }
}

/// Where the commit a checkout needs is to be taken from.
pub enum CommitSource {
    /// The working copy already has the commit.
    Local,
    /// The commit must first be fetched from the stored copy of the
    /// repository, then looked up again.
    FetchFromStorage,
}

/// Decide where to find the head commit of a revision: in the working copy
/// when it is already there, otherwise by fetching it from storage first.
pub fn find_patch_commit(in_working_copy: bool) -> (r: CommitSource)
    ensures
        in_working_copy <==> r is Local,
{
    if in_working_copy {
        CommitSource::Local
    } else {
        CommitSource::FetchFromStorage
    }
}

} // verus!
