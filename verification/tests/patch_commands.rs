use node_events::events::{Event, RefUpdate, RefsAt, UploadPack};
use node_events::patch::checkout::{
    find_patch_commit, run as checkout_run, BranchLookup, CommitSource, PatchSnapshot,
};
use node_events::patch::label::run as label_run;

fn strings(items: &[&str]) -> Vec<String> {
    items.iter().map(|s| s.to_string()).collect()
}

fn snapshot() -> PatchSnapshot {
    PatchSnapshot {
        patch_id: "2a4b6c".to_string(),
        root: "rev0".to_string(),
        latest_head: "fedcba".to_string(),
        revision_head: "abcdef".to_string(),
    }
}

#[test]
fn relabel_keeps_filters_and_appends() {
    let out = label_run(
        &strings(&["bug", "wip", "triage"]),
        &strings(&["ready"]),
        &strings(&["wip"]),
    );
    assert_eq!(out, strings(&["bug", "triage", "ready"]));
}

#[test]
fn relabel_with_nothing_to_do_keeps_the_labels() {
    let out = label_run(&strings(&["bug"]), &strings(&[]), &strings(&[]));
    assert_eq!(out, strings(&["bug"]));
}

#[test]
fn relabel_can_empty_the_labels() {
    let out = label_run(&strings(&["bug", "wip"]), &strings(&[]), &strings(&["wip", "bug"]));
    assert_eq!(out, strings(&[]));
}

#[test]
fn relabel_removes_every_occurrence() {
    let out = label_run(
        &strings(&["wip", "bug", "wip"]),
        &strings(&["wip"]),
        &strings(&["wip"]),
    );
    assert_eq!(out, strings(&["bug", "wip"]));
}

#[test]
fn checkout_reuses_an_existing_branch() {
    let plan = checkout_run(
        &"rev1".to_string(),
        &snapshot(),
        &BranchLookup::Found { head: "123456".to_string() },
    );
    assert_eq!(plan.branch, "patch/2a4b6c".to_string());
    assert_eq!(plan.commit, "123456".to_string());
    assert!(!plan.create_branch);
}

#[test]
fn checkout_of_a_plain_revision_creates_the_branch_at_its_head() {
    let plan = checkout_run(&"rev1".to_string(), &snapshot(), &BranchLookup::Missing);
    assert_eq!(plan.branch, "patch/2a4b6c".to_string());
    assert_eq!(plan.commit, "abcdef".to_string());
    assert!(plan.create_branch);
}

#[test]
fn checkout_of_the_root_revision_means_the_latest_one() {
    let plan = checkout_run(&"rev0".to_string(), &snapshot(), &BranchLookup::Missing);
    assert_eq!(plan.commit, "fedcba".to_string());
    assert!(plan.create_branch);
}

#[test]
fn patch_commit_is_fetched_only_when_missing() {
    assert!(matches!(find_patch_commit(true), CommitSource::Local));
    assert!(matches!(find_patch_commit(false), CommitSource::FetchFromStorage));
}

#[test]
fn upload_pack_wraps_into_an_event() {
    let step = UploadPack::PackProgress {
        rid: "repo".to_string(),
        remote: "alice".to_string(),
        transmitted: 512,
    };
    let event = Event::from(step.clone());
    assert_eq!(event, Event::UploadPack(step));
}

#[test]
fn events_compare_structurally() {
    let a = Event::RefsFetched {
        remote: "alice".to_string(),
        rid: "repo".to_string(),
        updated: vec![RefUpdate::Created {
            name: "refs/heads/main".to_string(),
            oid: "abc".to_string(),
        }],
    };
    let b = Event::LocalRefsAnnounced {
        rid: "repo".to_string(),
        refs: RefsAt { remote: "alice".to_string(), at: "abc".to_string() },
        timestamp: 1700000000,
    };
    assert_eq!(a.clone(), a);
    assert_ne!(a, b);
}
