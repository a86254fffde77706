//! The closed vocabularies of the work graph: node status and type, ownership,
//! wait states, rollups, artifact roles and kinds, lineage events, and the rest.
//! Each has a stable wire name; `as_str` gives it and `parse` accepts exactly it.

use vstd::prelude::*;
use crate::error::HavenError;
use crate::json::Json;
use crate::text::{debug_quoted, debug_quoted_spec, push_str, str_eq};

verus! {

/// The maturity axis of a node.
#[derive(Debug, Clone, Copy, PartialEq, Eq, Structural, Hash)]
pub enum Status {
    Discovery,
    Definition,
    Ready,
    InProgress,
    Blocked,
    Done,
    Superseded,
    Archived,
}

/// The wire name of each [`Status`].
pub open spec fn status_name(x: Status) -> Seq<char> {
    match x {
        Status::Discovery => "discovery"@,
        Status::Definition => "definition"@,
        Status::Ready => "ready"@,
        Status::InProgress => "in_progress"@,
        Status::Blocked => "blocked"@,
        Status::Done => "done"@,
        Status::Superseded => "superseded"@,
        Status::Archived => "archived"@,
    }
}

/// The error `Status::parse` reports for an unknown name.
pub open spec fn status_parse_error(s: Seq<char>) -> Seq<char> {
    "unknown status "@ + debug_quoted_spec(s)
}

impl Status {
    /// The stable wire name.
    pub fn as_str(self) -> (r: &'static str)
        ensures
            r@ == status_name(self),
    {
        match self {
            Status::Discovery => "discovery",
            Status::Definition => "definition",
            Status::Ready => "ready",
            Status::InProgress => "in_progress",
            Status::Blocked => "blocked",
            Status::Done => "done",
            Status::Superseded => "superseded",
            Status::Archived => "archived",
        }
    }

    /// Parse a wire name; anything else is `Invalid`.
    pub fn parse(s: &str) -> (r: Result<Status, HavenError>)
        ensures
            match r {
                Ok(x) => status_name(x) == s@,
                Err(e) => (forall|x: Status| status_name(x) != s@) && crate::error::invalid_with(e, status_parse_error(s@)),
            },
    {
        if str_eq(s, "discovery") {
            return Ok(Status::Discovery);
        }
        if str_eq(s, "definition") {
            return Ok(Status::Definition);
        }
        if str_eq(s, "ready") {
            return Ok(Status::Ready);
        }
        if str_eq(s, "in_progress") {
            return Ok(Status::InProgress);
        }
        if str_eq(s, "blocked") {
            return Ok(Status::Blocked);
        }
        if str_eq(s, "done") {
            return Ok(Status::Done);
        }
        if str_eq(s, "superseded") {
            return Ok(Status::Superseded);
        }
        if str_eq(s, "archived") {
            return Ok(Status::Archived);
        }
        let mut msg = String::new();
        push_str(&mut msg, "unknown status ");
        let q = debug_quoted(s);
        push_str(&mut msg, q.as_str());
        proof {
            assert forall|x: Status| status_name(x) != s@ by {
                match x {
                    Status::Discovery => {},
                    Status::Definition => {},
                    Status::Ready => {},
                    Status::InProgress => {},
                    Status::Blocked => {},
                    Status::Done => {},
                    Status::Superseded => {},
                    Status::Archived => {},
                }
            }
        }
        Err(HavenError::Invalid(msg))
    }
}

/// What a node is: a leaf task, a container (release/phase/gate) or a living-doc anchor.
#[derive(Debug, Clone, Copy, PartialEq, Eq, Structural, Hash)]
pub enum NodeType {
    Task,
    Release,
    Phase,
    Gate,
    Anchor,
}

/// The wire name of each [`NodeType`].
pub open spec fn node_type_name(x: NodeType) -> Seq<char> {
    match x {
        NodeType::Task => "task"@,
        NodeType::Release => "release"@,
        NodeType::Phase => "phase"@,
        NodeType::Gate => "gate"@,
        NodeType::Anchor => "anchor"@,
    }
}

/// The error `NodeType::parse` reports for an unknown name.
pub open spec fn node_type_parse_error(s: Seq<char>) -> Seq<char> {
    "unknown node type "@ + debug_quoted_spec(s)
}

impl NodeType {
    /// The stable wire name.
    pub fn as_str(self) -> (r: &'static str)
        ensures
            r@ == node_type_name(self),
    {
        match self {
            NodeType::Task => "task",
            NodeType::Release => "release",
            NodeType::Phase => "phase",
            NodeType::Gate => "gate",
            NodeType::Anchor => "anchor",
        }
    }

    /// Parse a wire name; anything else is `Invalid`.
    pub fn parse(s: &str) -> (r: Result<NodeType, HavenError>)
        ensures
            match r {
                Ok(x) => node_type_name(x) == s@,
                Err(e) => (forall|x: NodeType| node_type_name(x) != s@) && crate::error::invalid_with(e, node_type_parse_error(s@)),
            },
    {
        if str_eq(s, "task") {
            return Ok(NodeType::Task);
        }
        if str_eq(s, "release") {
            return Ok(NodeType::Release);
        }
        if str_eq(s, "phase") {
            return Ok(NodeType::Phase);
        }
        if str_eq(s, "gate") {
            return Ok(NodeType::Gate);
        }
        if str_eq(s, "anchor") {
            return Ok(NodeType::Anchor);
        }
        let mut msg = String::new();
        push_str(&mut msg, "unknown node type ");
        let q = debug_quoted(s);
        push_str(&mut msg, q.as_str());
        proof {
            assert forall|x: NodeType| node_type_name(x) != s@ by {
                match x {
                    NodeType::Task => {},
                    NodeType::Release => {},
                    NodeType::Phase => {},
                    NodeType::Gate => {},
                    NodeType::Anchor => {},
                }
            }
        }
        Err(HavenError::Invalid(msg))
    }
}

/// Who executes a node.
#[derive(Debug, Clone, Copy, PartialEq, Eq, Structural, Hash)]
pub enum OwnerKind {
    Ai,
    Human,
}

/// The wire name of each [`OwnerKind`].
pub open spec fn owner_kind_name(x: OwnerKind) -> Seq<char> {
    match x {
        OwnerKind::Ai => "ai"@,
        OwnerKind::Human => "human"@,
    }
}

/// The error `OwnerKind::parse` reports for an unknown name.
pub open spec fn owner_kind_parse_error(s: Seq<char>) -> Seq<char> {
    "unknown owner kind "@ + debug_quoted_spec(s)
}

impl OwnerKind {
    /// The stable wire name.
    pub fn as_str(self) -> (r: &'static str)
        ensures
            r@ == owner_kind_name(self),
    {
        match self {
            OwnerKind::Ai => "ai",
            OwnerKind::Human => "human",
        }
    }

    /// Parse a wire name; anything else is `Invalid`.
    pub fn parse(s: &str) -> (r: Result<OwnerKind, HavenError>)
        ensures
            match r {
                Ok(x) => owner_kind_name(x) == s@,
                Err(e) => (forall|x: OwnerKind| owner_kind_name(x) != s@) && crate::error::invalid_with(e, owner_kind_parse_error(s@)),
            },
    {
        if str_eq(s, "ai") {
            return Ok(OwnerKind::Ai);
        }
        if str_eq(s, "human") {
            return Ok(OwnerKind::Human);
        }
        let mut msg = String::new();
        push_str(&mut msg, "unknown owner kind ");
        let q = debug_quoted(s);
        push_str(&mut msg, q.as_str());
        proof {
            assert forall|x: OwnerKind| owner_kind_name(x) != s@ by {
                match x {
                    OwnerKind::Ai => {},
                    OwnerKind::Human => {},
                }
            }
        }
        Err(HavenError::Invalid(msg))
    }
}

/// What a parked node is waiting on.
#[derive(Debug, Clone, Copy, PartialEq, Eq, Structural, Hash)]
pub enum WaitState {
    OnHuman,
    OnDependency,
    OnExternal,
}

/// The wire name of each [`WaitState`].
pub open spec fn wait_state_name(x: WaitState) -> Seq<char> {
    match x {
        WaitState::OnHuman => "on_human"@,
        WaitState::OnDependency => "on_dependency"@,
        WaitState::OnExternal => "on_external"@,
    }
}

/// The error `WaitState::parse` reports for an unknown name.
pub open spec fn wait_state_parse_error(s: Seq<char>) -> Seq<char> {
    "unknown wait state "@ + debug_quoted_spec(s)
}

impl WaitState {
    /// The stable wire name.
    pub fn as_str(self) -> (r: &'static str)
        ensures
            r@ == wait_state_name(self),
    {
        match self {
            WaitState::OnHuman => "on_human",
            WaitState::OnDependency => "on_dependency",
            WaitState::OnExternal => "on_external",
        }
    }

    /// Parse a wire name; anything else is `Invalid`.
    pub fn parse(s: &str) -> (r: Result<WaitState, HavenError>)
        ensures
            match r {
                Ok(x) => wait_state_name(x) == s@,
                Err(e) => (forall|x: WaitState| wait_state_name(x) != s@) && crate::error::invalid_with(e, wait_state_parse_error(s@)),
            },
    {
        if str_eq(s, "on_human") {
            return Ok(WaitState::OnHuman);
        }
        if str_eq(s, "on_dependency") {
            return Ok(WaitState::OnDependency);
        }
        if str_eq(s, "on_external") {
            return Ok(WaitState::OnExternal);
        }
        let mut msg = String::new();
        push_str(&mut msg, "unknown wait state ");
        let q = debug_quoted(s);
        push_str(&mut msg, q.as_str());
        proof {
            assert forall|x: WaitState| wait_state_name(x) != s@ by {
                match x {
                    WaitState::OnHuman => {},
                    WaitState::OnDependency => {},
                    WaitState::OnExternal => {},
                }
            }
        }
        Err(HavenError::Invalid(msg))
    }
}

/// A container's derived progress over its committed live descendants.
#[derive(Debug, Clone, Copy, PartialEq, Eq, Structural, Hash)]
pub enum RollupState {
    Dormant,
    Active,
    Queued,
    Done,
}

/// The wire name of each [`RollupState`].
pub open spec fn rollup_state_name(x: RollupState) -> Seq<char> {
    match x {
        RollupState::Dormant => "dormant"@,
        RollupState::Active => "active"@,
        RollupState::Queued => "queued"@,
        RollupState::Done => "done"@,
    }
}

/// The error `RollupState::parse` reports for an unknown name.
pub open spec fn rollup_state_parse_error(s: Seq<char>) -> Seq<char> {
    "unknown rollup state "@ + debug_quoted_spec(s)
}

impl RollupState {
    /// The stable wire name.
    pub fn as_str(self) -> (r: &'static str)
        ensures
            r@ == rollup_state_name(self),
    {
        match self {
            RollupState::Dormant => "dormant",
            RollupState::Active => "active",
            RollupState::Queued => "queued",
            RollupState::Done => "done",
        }
    }

    /// Parse a wire name; anything else is `Invalid`.
    pub fn parse(s: &str) -> (r: Result<RollupState, HavenError>)
        ensures
            match r {
                Ok(x) => rollup_state_name(x) == s@,
                Err(e) => (forall|x: RollupState| rollup_state_name(x) != s@) && crate::error::invalid_with(e, rollup_state_parse_error(s@)),
            },
    {
        if str_eq(s, "dormant") {
            return Ok(RollupState::Dormant);
        }
        if str_eq(s, "active") {
            return Ok(RollupState::Active);
        }
        if str_eq(s, "queued") {
            return Ok(RollupState::Queued);
        }
        if str_eq(s, "done") {
            return Ok(RollupState::Done);
        }
        let mut msg = String::new();
        push_str(&mut msg, "unknown rollup state ");
        let q = debug_quoted(s);
        push_str(&mut msg, q.as_str());
        proof {
            assert forall|x: RollupState| rollup_state_name(x) != s@ by {
                match x {
                    RollupState::Dormant => {},
                    RollupState::Active => {},
                    RollupState::Queued => {},
                    RollupState::Done => {},
                }
            }
        }
        Err(HavenError::Invalid(msg))
    }
}

/// A container's derived owner over its committed live descendants.
#[derive(Debug, Clone, Copy, PartialEq, Eq, Structural, Hash)]
pub enum OwnerRollup {
    Unassigned,
    Ai,
    Human,
    Mixed,
}

/// The wire name of each [`OwnerRollup`].
pub open spec fn owner_rollup_name(x: OwnerRollup) -> Seq<char> {
    match x {
        OwnerRollup::Unassigned => "unassigned"@,
        OwnerRollup::Ai => "ai"@,
        OwnerRollup::Human => "human"@,
        OwnerRollup::Mixed => "mixed"@,
    }
}

/// The error `OwnerRollup::parse` reports for an unknown name.
pub open spec fn owner_rollup_parse_error(s: Seq<char>) -> Seq<char> {
    "unknown owner rollup "@ + debug_quoted_spec(s)
}

impl OwnerRollup {
    /// The stable wire name.
    pub fn as_str(self) -> (r: &'static str)
        ensures
            r@ == owner_rollup_name(self),
    {
        match self {
            OwnerRollup::Unassigned => "unassigned",
            OwnerRollup::Ai => "ai",
            OwnerRollup::Human => "human",
            OwnerRollup::Mixed => "mixed",
        }
    }

    /// Parse a wire name; anything else is `Invalid`.
    pub fn parse(s: &str) -> (r: Result<OwnerRollup, HavenError>)
        ensures
            match r {
                Ok(x) => owner_rollup_name(x) == s@,
                Err(e) => (forall|x: OwnerRollup| owner_rollup_name(x) != s@) && crate::error::invalid_with(e, owner_rollup_parse_error(s@)),
            },
    {
        if str_eq(s, "unassigned") {
            return Ok(OwnerRollup::Unassigned);
        }
        if str_eq(s, "ai") {
            return Ok(OwnerRollup::Ai);
        }
        if str_eq(s, "human") {
            return Ok(OwnerRollup::Human);
        }
        if str_eq(s, "mixed") {
            return Ok(OwnerRollup::Mixed);
        }
        let mut msg = String::new();
        push_str(&mut msg, "unknown owner rollup ");
        let q = debug_quoted(s);
        push_str(&mut msg, q.as_str());
        proof {
            assert forall|x: OwnerRollup| owner_rollup_name(x) != s@ by {
                match x {
                    OwnerRollup::Unassigned => {},
                    OwnerRollup::Ai => {},
                    OwnerRollup::Human => {},
                    OwnerRollup::Mixed => {},
                }
            }
        }
        Err(HavenError::Invalid(msg))
    }
}

/// What an artifact is for.
#[derive(Debug, Clone, Copy, PartialEq, Eq, Structural, Hash)]
pub enum ArtifactRole {
    Scratch,
    Spec,
    Source,
    Research,
    Vision,
    Handoff,
    Delivery,
    ContextPack,
}

/// The wire name of each [`ArtifactRole`].
pub open spec fn artifact_role_name(x: ArtifactRole) -> Seq<char> {
    match x {
        ArtifactRole::Scratch => "scratch"@,
        ArtifactRole::Spec => "spec"@,
        ArtifactRole::Source => "source"@,
        ArtifactRole::Research => "research"@,
        ArtifactRole::Vision => "vision"@,
        ArtifactRole::Handoff => "handoff"@,
        ArtifactRole::Delivery => "delivery"@,
        ArtifactRole::ContextPack => "context-pack"@,
    }
}

/// The error `ArtifactRole::parse` reports for an unknown name.
pub open spec fn artifact_role_parse_error(s: Seq<char>) -> Seq<char> {
    "unknown artifact role "@ + debug_quoted_spec(s)
}

impl ArtifactRole {
    /// The stable wire name.
    pub fn as_str(self) -> (r: &'static str)
        ensures
            r@ == artifact_role_name(self),
    {
        match self {
            ArtifactRole::Scratch => "scratch",
            ArtifactRole::Spec => "spec",
            ArtifactRole::Source => "source",
            ArtifactRole::Research => "research",
            ArtifactRole::Vision => "vision",
            ArtifactRole::Handoff => "handoff",
            ArtifactRole::Delivery => "delivery",
            ArtifactRole::ContextPack => "context-pack",
        }
    }

    /// Parse a wire name; anything else is `Invalid`.
    pub fn parse(s: &str) -> (r: Result<ArtifactRole, HavenError>)
        ensures
            match r {
                Ok(x) => artifact_role_name(x) == s@,
                Err(e) => (forall|x: ArtifactRole| artifact_role_name(x) != s@) && crate::error::invalid_with(e, artifact_role_parse_error(s@)),
            },
    {
        if str_eq(s, "scratch") {
            return Ok(ArtifactRole::Scratch);
        }
        if str_eq(s, "spec") {
            return Ok(ArtifactRole::Spec);
        }
        if str_eq(s, "source") {
            return Ok(ArtifactRole::Source);
        }
        if str_eq(s, "research") {
            return Ok(ArtifactRole::Research);
        }
        if str_eq(s, "vision") {
            return Ok(ArtifactRole::Vision);
        }
        if str_eq(s, "handoff") {
            return Ok(ArtifactRole::Handoff);
        }
        if str_eq(s, "delivery") {
            return Ok(ArtifactRole::Delivery);
        }
        if str_eq(s, "context-pack") {
            return Ok(ArtifactRole::ContextPack);
        }
        let mut msg = String::new();
        push_str(&mut msg, "unknown artifact role ");
        let q = debug_quoted(s);
        push_str(&mut msg, q.as_str());
        proof {
            assert forall|x: ArtifactRole| artifact_role_name(x) != s@ by {
                match x {
                    ArtifactRole::Scratch => {},
                    ArtifactRole::Spec => {},
                    ArtifactRole::Source => {},
                    ArtifactRole::Research => {},
                    ArtifactRole::Vision => {},
                    ArtifactRole::Handoff => {},
                    ArtifactRole::Delivery => {},
                    ArtifactRole::ContextPack => {},
                }
            }
        }
        Err(HavenError::Invalid(msg))
    }
}

/// How an artifact's content is held.
#[derive(Debug, Clone, Copy, PartialEq, Eq, Structural, Hash)]
pub enum ArtifactKind {
    File,
    External,
    Delivery,
}

/// The wire name of each [`ArtifactKind`].
pub open spec fn artifact_kind_name(x: ArtifactKind) -> Seq<char> {
    match x {
        ArtifactKind::File => "file"@,
        ArtifactKind::External => "external"@,
        ArtifactKind::Delivery => "delivery"@,
    }
}

/// The error `ArtifactKind::parse` reports for an unknown name.
pub open spec fn artifact_kind_parse_error(s: Seq<char>) -> Seq<char> {
    "unknown artifact kind "@ + debug_quoted_spec(s)
}

impl ArtifactKind {
    /// The stable wire name.
    pub fn as_str(self) -> (r: &'static str)
        ensures
            r@ == artifact_kind_name(self),
    {
        match self {
            ArtifactKind::File => "file",
            ArtifactKind::External => "external",
            ArtifactKind::Delivery => "delivery",
        }
    }

    /// Parse a wire name; anything else is `Invalid`.
    pub fn parse(s: &str) -> (r: Result<ArtifactKind, HavenError>)
        ensures
            match r {
                Ok(x) => artifact_kind_name(x) == s@,
                Err(e) => (forall|x: ArtifactKind| artifact_kind_name(x) != s@) && crate::error::invalid_with(e, artifact_kind_parse_error(s@)),
            },
    {
        if str_eq(s, "file") {
            return Ok(ArtifactKind::File);
        }
        if str_eq(s, "external") {
            return Ok(ArtifactKind::External);
        }
        if str_eq(s, "delivery") {
            return Ok(ArtifactKind::Delivery);
        }
        let mut msg = String::new();
        push_str(&mut msg, "unknown artifact kind ");
        let q = debug_quoted(s);
        push_str(&mut msg, q.as_str());
        proof {
            assert forall|x: ArtifactKind| artifact_kind_name(x) != s@ by {
                match x {
                    ArtifactKind::File => {},
                    ArtifactKind::External => {},
                    ArtifactKind::Delivery => {},
                }
            }
        }
        Err(HavenError::Invalid(msg))
    }
}

/// The kind of a lineage event.
#[derive(Debug, Clone, Copy, PartialEq, Eq, Structural, Hash)]
pub enum EventType {
    Split,
    Merge,
    Supersede,
    Archive,
    Reopen,
}

/// The wire name of each [`EventType`].
pub open spec fn event_type_name(x: EventType) -> Seq<char> {
    match x {
        EventType::Split => "split"@,
        EventType::Merge => "merge"@,
        EventType::Supersede => "supersede"@,
        EventType::Archive => "archive"@,
        EventType::Reopen => "reopen"@,
    }
}

/// The error `EventType::parse` reports for an unknown name.
pub open spec fn event_type_parse_error(s: Seq<char>) -> Seq<char> {
    "unknown event type "@ + debug_quoted_spec(s)
}

impl EventType {
    /// The stable wire name.
    pub fn as_str(self) -> (r: &'static str)
        ensures
            r@ == event_type_name(self),
    {
        match self {
            EventType::Split => "split",
            EventType::Merge => "merge",
            EventType::Supersede => "supersede",
            EventType::Archive => "archive",
            EventType::Reopen => "reopen",
        }
    }

    /// Parse a wire name; anything else is `Invalid`.
    pub fn parse(s: &str) -> (r: Result<EventType, HavenError>)
        ensures
            match r {
                Ok(x) => event_type_name(x) == s@,
                Err(e) => (forall|x: EventType| event_type_name(x) != s@) && crate::error::invalid_with(e, event_type_parse_error(s@)),
            },
    {
        if str_eq(s, "split") {
            return Ok(EventType::Split);
        }
        if str_eq(s, "merge") {
            return Ok(EventType::Merge);
        }
        if str_eq(s, "supersede") {
            return Ok(EventType::Supersede);
        }
        if str_eq(s, "archive") {
            return Ok(EventType::Archive);
        }
        if str_eq(s, "reopen") {
            return Ok(EventType::Reopen);
        }
        let mut msg = String::new();
        push_str(&mut msg, "unknown event type ");
        let q = debug_quoted(s);
        push_str(&mut msg, q.as_str());
        proof {
            assert forall|x: EventType| event_type_name(x) != s@ by {
                match x {
                    EventType::Split => {},
                    EventType::Merge => {},
                    EventType::Supersede => {},
                    EventType::Archive => {},
                    EventType::Reopen => {},
                }
            }
        }
        Err(HavenError::Invalid(msg))
    }
}

/// A project's lifecycle state.
#[derive(Debug, Clone, Copy, PartialEq, Eq, Structural, Hash)]
pub enum ProjectStatus {
    Active,
    Archived,
}

/// The wire name of each [`ProjectStatus`].
pub open spec fn project_status_name(x: ProjectStatus) -> Seq<char> {
    match x {
        ProjectStatus::Active => "active"@,
        ProjectStatus::Archived => "archived"@,
    }
}

/// The error `ProjectStatus::parse` reports for an unknown name.
pub open spec fn project_status_parse_error(s: Seq<char>) -> Seq<char> {
    "unknown project status "@ + debug_quoted_spec(s)
}

impl ProjectStatus {
    /// The stable wire name.
    pub fn as_str(self) -> (r: &'static str)
        ensures
            r@ == project_status_name(self),
    {
        match self {
            ProjectStatus::Active => "active",
            ProjectStatus::Archived => "archived",
        }
    }

    /// Parse a wire name; anything else is `Invalid`.
    pub fn parse(s: &str) -> (r: Result<ProjectStatus, HavenError>)
        ensures
            match r {
                Ok(x) => project_status_name(x) == s@,
                Err(e) => (forall|x: ProjectStatus| project_status_name(x) != s@) && crate::error::invalid_with(e, project_status_parse_error(s@)),
            },
    {
        if str_eq(s, "active") {
            return Ok(ProjectStatus::Active);
        }
        if str_eq(s, "archived") {
            return Ok(ProjectStatus::Archived);
        }
        let mut msg = String::new();
        push_str(&mut msg, "unknown project status ");
        let q = debug_quoted(s);
        push_str(&mut msg, q.as_str());
        proof {
            assert forall|x: ProjectStatus| project_status_name(x) != s@ by {
                match x {
                    ProjectStatus::Active => {},
                    ProjectStatus::Archived => {},
                }
            }
        }
        Err(HavenError::Invalid(msg))
    }
}

/// A row's sync bookkeeping state.
#[derive(Debug, Clone, Copy, PartialEq, Eq, Structural, Hash)]
pub enum SyncState {
    Local,
    Synced,
}

/// The wire name of each [`SyncState`].
pub open spec fn sync_state_name(x: SyncState) -> Seq<char> {
    match x {
        SyncState::Local => "local"@,
        SyncState::Synced => "synced"@,
    }
}

/// The error `SyncState::parse` reports for an unknown name.
pub open spec fn sync_state_parse_error(s: Seq<char>) -> Seq<char> {
    "unknown sync state "@ + debug_quoted_spec(s)
}

impl SyncState {
    /// The stable wire name.
    pub fn as_str(self) -> (r: &'static str)
        ensures
            r@ == sync_state_name(self),
    {
        match self {
            SyncState::Local => "local",
            SyncState::Synced => "synced",
        }
    }

    /// Parse a wire name; anything else is `Invalid`.
    pub fn parse(s: &str) -> (r: Result<SyncState, HavenError>)
        ensures
            match r {
                Ok(x) => sync_state_name(x) == s@,
                Err(e) => (forall|x: SyncState| sync_state_name(x) != s@) && crate::error::invalid_with(e, sync_state_parse_error(s@)),
            },
    {
        if str_eq(s, "local") {
            return Ok(SyncState::Local);
        }
        if str_eq(s, "synced") {
            return Ok(SyncState::Synced);
        }
        let mut msg = String::new();
        push_str(&mut msg, "unknown sync state ");
        let q = debug_quoted(s);
        push_str(&mut msg, q.as_str());
        proof {
            assert forall|x: SyncState| sync_state_name(x) != s@ by {
                match x {
                    SyncState::Local => {},
                    SyncState::Synced => {},
                }
            }
        }
        Err(HavenError::Invalid(msg))
    }
}

/// The closed vocabulary of a cross-store link.
#[derive(Debug, Clone, Copy, PartialEq, Eq, Structural, Hash)]
pub enum XrefRelation {
    CanonicalSource,
    Mirror,
    DerivedFrom,
    DiscussedIn,
}

/// The wire name of each [`XrefRelation`].
pub open spec fn xref_relation_name(x: XrefRelation) -> Seq<char> {
    match x {
        XrefRelation::CanonicalSource => "canonical-source"@,
        XrefRelation::Mirror => "mirror"@,
        XrefRelation::DerivedFrom => "derived-from"@,
        XrefRelation::DiscussedIn => "discussed-in"@,
    }
}

/// The error `XrefRelation::parse` reports for an unknown name.
pub open spec fn xref_relation_parse_error(s: Seq<char>) -> Seq<char> {
    "unknown xref relation "@ + debug_quoted_spec(s)
}

impl XrefRelation {
    /// The stable wire name.
    pub fn as_str(self) -> (r: &'static str)
        ensures
            r@ == xref_relation_name(self),
    {
        match self {
            XrefRelation::CanonicalSource => "canonical-source",
            XrefRelation::Mirror => "mirror",
            XrefRelation::DerivedFrom => "derived-from",
            XrefRelation::DiscussedIn => "discussed-in",
        }
    }

    /// Parse a wire name; anything else is `Invalid`.
    pub fn parse(s: &str) -> (r: Result<XrefRelation, HavenError>)
        ensures
            match r {
                Ok(x) => xref_relation_name(x) == s@,
                Err(e) => (forall|x: XrefRelation| xref_relation_name(x) != s@) && crate::error::invalid_with(e, xref_relation_parse_error(s@)),
            },
    {
        if str_eq(s, "canonical-source") {
            return Ok(XrefRelation::CanonicalSource);
        }
        if str_eq(s, "mirror") {
            return Ok(XrefRelation::Mirror);
        }
        if str_eq(s, "derived-from") {
            return Ok(XrefRelation::DerivedFrom);
        }
        if str_eq(s, "discussed-in") {
            return Ok(XrefRelation::DiscussedIn);
        }
        let mut msg = String::new();
        push_str(&mut msg, "unknown xref relation ");
        let q = debug_quoted(s);
        push_str(&mut msg, q.as_str());
        proof {
            assert forall|x: XrefRelation| xref_relation_name(x) != s@ by {
                match x {
                    XrefRelation::CanonicalSource => {},
                    XrefRelation::Mirror => {},
                    XrefRelation::DerivedFrom => {},
                    XrefRelation::DiscussedIn => {},
                }
            }
        }
        Err(HavenError::Invalid(msg))
    }
}

/// The class of a doctor finding.
#[derive(Debug, Clone, Copy, PartialEq, Eq, Structural, Hash)]
pub enum IntegrityKind {
    TombstonePack,
    PointerToTombstone,
    DuplicateArtifactRow,
    CanonicalConflict,
    DanglingXref,
    UnknownStore,
}

/// The wire name of each [`IntegrityKind`].
pub open spec fn integrity_kind_name(x: IntegrityKind) -> Seq<char> {
    match x {
        IntegrityKind::TombstonePack => "tombstone_pack"@,
        IntegrityKind::PointerToTombstone => "pointer_to_tombstone"@,
        IntegrityKind::DuplicateArtifactRow => "duplicate_artifact_row"@,
        IntegrityKind::CanonicalConflict => "canonical_conflict"@,
        IntegrityKind::DanglingXref => "dangling_xref"@,
        IntegrityKind::UnknownStore => "unknown_store"@,
    }
}

/// The error `IntegrityKind::parse` reports for an unknown name.
pub open spec fn integrity_kind_parse_error(s: Seq<char>) -> Seq<char> {
    "unknown integrity kind "@ + debug_quoted_spec(s)
}

impl IntegrityKind {
    /// The stable wire name.
    pub fn as_str(self) -> (r: &'static str)
        ensures
            r@ == integrity_kind_name(self),
    {
        match self {
            IntegrityKind::TombstonePack => "tombstone_pack",
            IntegrityKind::PointerToTombstone => "pointer_to_tombstone",
            IntegrityKind::DuplicateArtifactRow => "duplicate_artifact_row",
            IntegrityKind::CanonicalConflict => "canonical_conflict",
            IntegrityKind::DanglingXref => "dangling_xref",
            IntegrityKind::UnknownStore => "unknown_store",
        }
    }

    /// Parse a wire name; anything else is `Invalid`.
    pub fn parse(s: &str) -> (r: Result<IntegrityKind, HavenError>)
        ensures
            match r {
                Ok(x) => integrity_kind_name(x) == s@,
                Err(e) => (forall|x: IntegrityKind| integrity_kind_name(x) != s@) && crate::error::invalid_with(e, integrity_kind_parse_error(s@)),
            },
    {
        if str_eq(s, "tombstone_pack") {
            return Ok(IntegrityKind::TombstonePack);
        }
        if str_eq(s, "pointer_to_tombstone") {
            return Ok(IntegrityKind::PointerToTombstone);
        }
        if str_eq(s, "duplicate_artifact_row") {
            return Ok(IntegrityKind::DuplicateArtifactRow);
        }
        if str_eq(s, "canonical_conflict") {
            return Ok(IntegrityKind::CanonicalConflict);
        }
        if str_eq(s, "dangling_xref") {
            return Ok(IntegrityKind::DanglingXref);
        }
        if str_eq(s, "unknown_store") {
            return Ok(IntegrityKind::UnknownStore);
        }
        let mut msg = String::new();
        push_str(&mut msg, "unknown integrity kind ");
        let q = debug_quoted(s);
        push_str(&mut msg, q.as_str());
        proof {
            assert forall|x: IntegrityKind| integrity_kind_name(x) != s@ by {
                match x {
                    IntegrityKind::TombstonePack => {},
                    IntegrityKind::PointerToTombstone => {},
                    IntegrityKind::DuplicateArtifactRow => {},
                    IntegrityKind::CanonicalConflict => {},
                    IntegrityKind::DanglingXref => {},
                    IntegrityKind::UnknownStore => {},
                }
            }
        }
        Err(HavenError::Invalid(msg))
    }
}

impl NodeType {
    /// Containers group other nodes: releases, phases and gates.
    pub open spec fn is_container_spec(self) -> bool {
        self == NodeType::Release || self == NodeType::Phase || self == NodeType::Gate
    }

    /// Whether this node type is a container (a valid grouping target).
    pub fn is_container(self) -> (r: bool)
        ensures
            r == self.is_container_spec(),
    {
        match self {
            NodeType::Release | NodeType::Phase | NodeType::Gate => true,
            _ => false,
        }
    }
}

impl OwnerKind {
    /// The other side of a baton pass.
    pub open spec fn opposite_spec(self) -> OwnerKind {
        match self {
            OwnerKind::Ai => OwnerKind::Human,
            OwnerKind::Human => OwnerKind::Ai,
        }
    }

    /// The other side of a baton pass: `ai` <-> `human`.
    pub fn opposite(self) -> (r: OwnerKind)
        ensures
            r == self.opposite_spec(),
    {
        match self {
            OwnerKind::Ai => OwnerKind::Human,
            OwnerKind::Human => OwnerKind::Ai,
        }
    }
}

impl Status {
    /// Dead statuses: superseded or archived.
    pub open spec fn is_dead_spec(self) -> bool {
        self == Status::Superseded || self == Status::Archived
    }

    /// Whether the node is dead (superseded or archived).
    pub fn is_dead(self) -> (r: bool)
        ensures
            r == self.is_dead_spec(),
    {
        match self {
            Status::Superseded | Status::Archived => true,
            _ => false,
        }
    }
}

/// The hydrated structural neighbours of one node, each list sorted by ref.
#[derive(Debug, Clone, PartialEq, Eq, Default)]
pub struct Edges {
    pub parents: Vec<String>,
    pub children: Vec<String>,
    pub depends_on: Vec<String>,
    pub blocks: Vec<String>,
    pub groups: Vec<String>,
    pub members: Vec<String>,
}

/// The derived context-pack pointer of a leaf: the container carrying the pack
/// and the pack's file name.
#[derive(Debug, Clone, PartialEq, Eq)]
pub struct ContextPack {
    pub container: String,
    pub artifact: String,
}

/// A typed pointer to content attached to a node.
#[derive(Debug)]
pub struct Artifact {
    pub id: i64,
    pub public_id: String,
    pub node_ref: Option<String>,
    pub role: ArtifactRole,
    pub kind: ArtifactKind,
    pub path: Option<String>,
    pub uri: Option<String>,
    pub title: Option<String>,
    pub excerpt: Option<String>,
    pub from_owner: Option<OwnerKind>,
    pub to_owner: Option<OwnerKind>,
    pub content_hash: Option<String>,
    pub remote_path: Option<String>,
    pub metadata: Option<Json>,
    pub created_at: String,
    pub created_by: Option<String>,
    pub revision: i64,
    pub sync_state: SyncState,
}

/// One append-only lineage event with the refs on each side.
#[derive(Debug)]
pub struct LineageEvent {
    pub public_id: String,
    pub event_type: EventType,
    pub rationale: Option<String>,
    pub triggered_by: Option<String>,
    pub context: Json,
    pub created_at: String,
    pub from: Vec<String>,
    pub to: Vec<String>,
}

/// One node of the work graph, with the optional hydrated projections.
#[derive(Debug)]
pub struct Item {
    pub id: i64,
    pub public_id: String,
    pub reference: String,
    pub project: String,
    pub title: String,
    pub body: Option<String>,
    pub done_looks_like: Option<String>,
    pub why: Option<String>,
    pub due_at: Option<String>,
    pub node_type: NodeType,
    pub status: Status,
    pub owner_kind: Option<OwnerKind>,
    pub assignee: Option<String>,
    pub wait_state: Option<WaitState>,
    pub committed: bool,
    pub priority: Option<i64>,
    pub sort_key: Option<String>,
    pub metadata: Json,
    pub created_at: String,
    pub updated_at: String,
    pub archived_at: Option<String>,
    pub revision: i64,
    pub sync_state: SyncState,
    pub rollup_state: Option<RollupState>,
    pub owner_rollup: Option<OwnerRollup>,
    pub has_uncommitted_descendants: Option<bool>,
    pub edges: Option<Edges>,
    pub artifacts: Option<Vec<Artifact>>,
    pub lineage: Option<Vec<LineageEvent>>,
    pub context_pack: Option<ContextPack>,
    pub context_pack_clash: Option<Vec<String>>,
}

/// A project: its key, ref namespace and lifecycle.
#[derive(Debug, Clone, PartialEq, Eq)]
pub struct Project {
    pub id: i64,
    pub public_id: String,
    pub key: String,
    pub ref_prefix: String,
    pub ref_counter: i64,
    pub title: String,
    pub description: Option<String>,
    pub created_at: String,
    pub updated_at: String,
    pub revision: i64,
    pub sync_state: SyncState,
    pub status: ProjectStatus,
    pub archived_at: Option<String>,
    pub archived_reason: Option<String>,
    pub deleted_at: Option<String>,
}

/// One doctor finding.
#[derive(Debug, Clone, PartialEq, Eq)]
pub struct IntegrityIssue {
    pub kind: IntegrityKind,
    pub node: String,
    pub detail: String,
}

/// A well-formed cross-store link.
#[derive(Debug, Clone, PartialEq, Eq)]
pub struct Xref {
    pub relation: XrefRelation,
    pub store: String,
    pub target: String,
    pub canonical: bool,
}

/// An xref carried by one of the node's own artifacts.
#[derive(Debug, Clone, PartialEq, Eq)]
pub struct XrefOut {
    pub artifact: String,
    pub role: ArtifactRole,
    pub path: Option<String>,
    pub xref: Xref,
}

/// Another node's artifact whose xref targets this node.
#[derive(Debug, Clone, PartialEq, Eq)]
pub struct XrefIn {
    pub source: String,
    pub artifact: String,
    pub role: ArtifactRole,
    pub path: Option<String>,
    pub xref: Xref,
}

/// The `xref` read verb's report for one node.
#[derive(Debug, Clone, PartialEq, Eq)]
pub struct XrefReport {
    pub node: String,
    pub outbound: Vec<XrefOut>,
    pub inbound: Vec<XrefIn>,
}

/// How `artifact rm` / `artifact mv` pick one artifact on a node.
#[derive(Debug, Clone, PartialEq, Eq)]
pub enum ArtifactSelector {
    Role(ArtifactRole),
    Name(String),
    Id(String),
}

} // verus!
