//! The taxonomy of node activity carried by the bus.
//!
//! An [`Event`] is a closed tagged union describing one observable activity
//! of the node: a fetch or sync of git references, a peer connecting or
//! disconnecting, discovery of seeds and inventories, announcements, or a
//! step in the lifecycle of an upload-pack process. Events are plain data:
//! immutable once constructed, cheaply duplicable, and delivered
//! independently to every subscriber.
//!
//! Identifiers (node ids, repository ids, object ids, reference names) are
//! carried in their textual form, and timestamps as milliseconds, so that
//! every field of an event is a plain value.

use vstd::prelude::*;

verus! {

/// A change to a single git reference, as reported after a fetch.
#[derive(Clone, Debug, PartialEq, Eq)]
pub enum RefUpdate {
    /// The reference existed and now points somewhere else.
    Updated { name: String, old: String, new: String },
    /// The reference did not exist before.
    Created { name: String, oid: String },
    /// The reference was removed.
    Deleted { name: String, oid: String },
    /// The reference was left untouched.
    Skipped { name: String, oid: String },
}

/// The signed references of one remote at a point in time: which peer they
/// belong to and the object id they are rooted at.
#[derive(Clone, Debug, PartialEq, Eq)]
pub struct RefsAt {
    /// The peer whose references these are.
    pub remote: String,
    /// Head of that peer's signed references.
    pub at: String,
}

/// One step in the lifecycle of an upload-pack process: the git process
/// that serves repository data to a fetching peer.
#[derive(Clone, Debug, PartialEq, Eq)]
pub enum UploadPack {
    /// A fetch request was accepted and the process started.
    Accepted { rid: String, remote: String },
    /// Pack data is being transmitted; `transmitted` counts bytes so far.
    PackProgress { rid: String, remote: String, transmitted: u64 },
    /// The process ended with the given exit status.
    Done { rid: String, remote: String, status: i32 },
}

/// One observable node activity.
#[derive(Clone, Debug, PartialEq, Eq)]
pub enum Event {
    /// References of a repository were fetched from a remote peer.
    RefsFetched { remote: String, rid: String, updated: Vec<RefUpdate> },
    /// A remote peer acknowledged our references at the given head.
    RefsSynced { remote: String, rid: String, at: String },
    /// A peer was discovered to seed a repository.
    SeedDiscovered { rid: String, nid: String },
    /// A peer no longer seeds a repository.
    SeedDropped { rid: String, nid: String },
    /// A peer connected to us.
    PeerConnected { nid: String },
    /// A peer disconnected, with a textual reason.
    PeerDisconnected { nid: String, reason: String },
    /// We announced our own references for a repository.
    LocalRefsAnnounced { rid: String, refs: RefsAt, timestamp: u64 },
    /// A peer announced the repositories it hosts.
    InventoryAnnounced { nid: String, inventory: Vec<String>, timestamp: u64 },
    /// A peer announced references for a repository.
    RefsAnnounced { nid: String, rid: String, refs: Vec<RefsAt>, timestamp: u64 },
    /// A peer announced itself, with its alias, feature flags and addresses.
    NodeAnnounced {
        nid: String,
        alias: String,
        timestamp: u64,
        features: u64,
        addresses: Vec<String>,
    },
    /// An upload-pack process changed state.
    UploadPack(UploadPack),
}

impl From<UploadPack> for Event {
    fn from(value: UploadPack) -> (r: Event)
        ensures
            r == Event::UploadPack(value),
    {
        Event::UploadPack(value)
    }
}

impl vstd::std_specs::convert::FromSpecImpl<UploadPack> for Event {
    open spec fn obeys_from_spec() -> bool {
        true
    }

    open spec fn from_spec(t: UploadPack) -> Event {
        Event::UploadPack(t)
    }
}

} // verus!
