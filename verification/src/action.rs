use vstd::prelude::*;

verus! {

/// Why a closed issue was closed.
#[derive(Clone, Copy, Debug, PartialEq, Eq, Structural)]
pub enum CloseReason {
    /// The issue was resolved.
    Solved,
    /// Closed for any other reason.
    Other,
}

/// Lifecycle state of an issue.
#[derive(Clone, Copy, Debug, PartialEq, Eq, Structural)]
pub enum Status {
    Open,
    Closed { reason: CloseReason },
}

/// An attachment reference carried by an issue. Entries are append-only;
/// removal only tombstones them, so the position of the others is stable.
pub struct Embed {
    pub name: String,
    pub content: String,
}

/// The operation part of an action: a closed set of tagged variants, folded
/// exhaustively by the materializer.
pub enum Payload {
    /// Root of a log: the initial value of every field.
    Create {
        title: String,
        description: String,
        labels: Vec<String>,
        assignees: Vec<u64>,
        embeds: Vec<Embed>,
    },
    SetTitle { title: String },
    SetDescription { description: String },
    SetStatus { status: Status },
    AddLabel { label: String },
    RemoveLabel { label: String },
    AddAssignee { assignee: u64 },
    RemoveAssignee { assignee: u64 },
    AddEmbed { embed: Embed },
    /// Tombstones every embed whose name matches.
    RemoveEmbed { name: String },
    /// Recorded in the log and counted for the freshness timestamp; it edits
    /// no materialized field.
    Comment { body: String, reply_to: Option<u64> },
}

/// One signed, timestamped operation on one issue, immutable once appended.
pub struct Action {
    /// Serialized public key of the authoring identity.
    pub author: u64,
    /// Logical or physical clock reading attached by the author.
    pub timestamp: u64,
    /// Content-derived ids of the actions this one causally follows. Empty
    /// exactly for a `Create`; every edit references at least one.
    pub predecessors: Vec<u64>,
    pub payload: Payload,
}

/// Input payload used only to synthesize the initial `Create` action of a new
/// issue; it is not itself stored.
pub struct NewIssue {
    pub title: String,
    pub description: String,
    pub labels: Vec<String>,
    pub assignees: Vec<u64>,
    pub embeds: Vec<Embed>,
}

} // verus!
