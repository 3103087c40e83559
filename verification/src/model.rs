//! The tracker's data: issues and what hangs on them, each with its mathematical view.

use crate::clock::{Instant, Timestamp};
use crate::text::same_text;
use vstd::prelude::*;

verus! {

/// Where an issue stands in its life.
#[derive(Debug, Clone, PartialEq, Eq, Default)]
pub enum Status {
    #[default]
    Open,
    InProgress,
    Blocked,
    Deferred,
    Closed,
    Tombstone,
    Pinned,
    Custom(String),
}

/// The view of [`Status`].
#[verifier::ext_equal]
pub enum StatusView {
    Open,
    InProgress,
    Blocked,
    Deferred,
    Closed,
    Tombstone,
    Pinned,
    Custom(Seq<char>),
}

impl DeepView for Status {
    type V = StatusView;

    open spec fn deep_view(&self) -> StatusView {
        match self {
            Status::Open => StatusView::Open,
            Status::InProgress => StatusView::InProgress,
            Status::Blocked => StatusView::Blocked,
            Status::Deferred => StatusView::Deferred,
            Status::Closed => StatusView::Closed,
            Status::Tombstone => StatusView::Tombstone,
            Status::Pinned => StatusView::Pinned,
            Status::Custom(s) => StatusView::Custom(s@),
        }
    }
}

impl StatusView {
    /// The name under which the value is stored.
    pub open spec fn name(self) -> Seq<char> {
        match self {
            StatusView::Open => "open"@,
            StatusView::InProgress => "in_progress"@,
            StatusView::Blocked => "blocked"@,
            StatusView::Deferred => "deferred"@,
            StatusView::Closed => "closed"@,
            StatusView::Tombstone => "tombstone"@,
            StatusView::Pinned => "pinned"@,
            StatusView::Custom(s) => s,
        }
    }

    /// The value that a stored name denotes.
    pub open spec fn of_name(s: Seq<char>) -> Option<Self> {
        if s == "open"@ {
            Some(StatusView::Open)
        } else if s == "in_progress"@ {
            Some(StatusView::InProgress)
        } else if s == "blocked"@ {
            Some(StatusView::Blocked)
        } else if s == "deferred"@ {
            Some(StatusView::Deferred)
        } else if s == "closed"@ {
            Some(StatusView::Closed)
        } else if s == "tombstone"@ {
            Some(StatusView::Tombstone)
        } else if s == "pinned"@ {
            Some(StatusView::Pinned)
        } else {
            None
        }
    }

    /// Nothing more happens to the issue.
    pub open spec fn terminal(self) -> bool {
        self is Closed || self is Tombstone
    }

    /// The issue can be worked on.
    pub open spec fn active(self) -> bool {
        self is Open || self is InProgress
    }
}

impl Status {
    /// The name under which the value is stored.
    pub fn as_str(&self) -> (r: &str)
        ensures
            r@ == self.deep_view().name(),
    {
        match self {
            Status::Open => "open",
            Status::InProgress => "in_progress",
            Status::Blocked => "blocked",
            Status::Deferred => "deferred",
            Status::Closed => "closed",
            Status::Tombstone => "tombstone",
            Status::Pinned => "pinned",
            Status::Custom(s) => s.as_str(),
        }
    }

    /// The status that a stored name denotes, `None` for a name of no built-in status.
    pub fn from_name(s: &str) -> (r: Option<Self>)
        ensures
            r.deep_view() == StatusView::of_name(s@),
    {
        if same_text(s, "open") {
            Some(Status::Open)
        } else if same_text(s, "in_progress") {
            Some(Status::InProgress)
        } else if same_text(s, "blocked") {
            Some(Status::Blocked)
        } else if same_text(s, "deferred") {
            Some(Status::Deferred)
        } else if same_text(s, "closed") {
            Some(Status::Closed)
        } else if same_text(s, "tombstone") {
            Some(Status::Tombstone)
        } else if same_text(s, "pinned") {
            Some(Status::Pinned)
        } else {
            None
        }
    }

    /// Whether nothing more happens to the issue.
    pub fn is_terminal(&self) -> (r: bool)
        ensures
            r == self.deep_view().terminal(),
    {
        match self {
            Status::Closed => true,
            Status::Tombstone => true,
            _ => false,
        }
    }

    /// Whether the issue can be worked on.
    pub fn is_active(&self) -> (r: bool)
        ensures
            r == self.deep_view().active(),
    {
        match self {
            Status::Open => true,
            Status::InProgress => true,
            _ => false,
        }
    }

    /// Whether the issue is closed.
    pub fn is_closed(&self) -> (r: bool)
        ensures
            r == (self.deep_view() is Closed),
    {
        match self {
            Status::Closed => true,
            _ => false,
        }
    }

    /// A copy of the status.
    pub fn copy(&self) -> (r: Status)
        ensures
            r.deep_view() == self.deep_view(),
    {
        match self {
            Status::Open => Status::Open,
            Status::InProgress => Status::InProgress,
            Status::Blocked => Status::Blocked,
            Status::Deferred => Status::Deferred,
            Status::Closed => Status::Closed,
            Status::Tombstone => Status::Tombstone,
            Status::Pinned => Status::Pinned,
            Status::Custom(s) => Status::Custom(s.clone()),
        }
    }
}

/// What kind of work an issue is.
#[derive(Debug, Clone, PartialEq, Eq, Default)]
pub enum IssueType {
    #[default]
    Task,
    Bug,
    Feature,
    Epic,
    Chore,
    Docs,
    Question,
    Custom(String),
}

/// The view of [`IssueType`].
#[verifier::ext_equal]
pub enum IssueTypeView {
    Task,
    Bug,
    Feature,
    Epic,
    Chore,
    Docs,
    Question,
    Custom(Seq<char>),
}

impl DeepView for IssueType {
    type V = IssueTypeView;

    open spec fn deep_view(&self) -> IssueTypeView {
        match self {
            IssueType::Task => IssueTypeView::Task,
            IssueType::Bug => IssueTypeView::Bug,
            IssueType::Feature => IssueTypeView::Feature,
            IssueType::Epic => IssueTypeView::Epic,
            IssueType::Chore => IssueTypeView::Chore,
            IssueType::Docs => IssueTypeView::Docs,
            IssueType::Question => IssueTypeView::Question,
            IssueType::Custom(s) => IssueTypeView::Custom(s@),
        }
    }
}

impl IssueTypeView {
    /// The name under which the value is stored.
    pub open spec fn name(self) -> Seq<char> {
        match self {
            IssueTypeView::Task => "task"@,
            IssueTypeView::Bug => "bug"@,
            IssueTypeView::Feature => "feature"@,
            IssueTypeView::Epic => "epic"@,
            IssueTypeView::Chore => "chore"@,
            IssueTypeView::Docs => "docs"@,
            IssueTypeView::Question => "question"@,
            IssueTypeView::Custom(s) => s,
        }
    }

    /// The value that a stored name denotes.
    pub open spec fn of_name(s: Seq<char>) -> Option<Self> {
        if s == "task"@ {
            Some(IssueTypeView::Task)
        } else if s == "bug"@ {
            Some(IssueTypeView::Bug)
        } else if s == "feature"@ {
            Some(IssueTypeView::Feature)
        } else if s == "epic"@ {
            Some(IssueTypeView::Epic)
        } else if s == "chore"@ {
            Some(IssueTypeView::Chore)
        } else if s == "docs"@ {
            Some(IssueTypeView::Docs)
        } else if s == "question"@ {
            Some(IssueTypeView::Question)
        } else {
            None
        }
    }
}

impl IssueType {
    /// The name under which the value is stored.
    pub fn as_str(&self) -> (r: &str)
        ensures
            r@ == self.deep_view().name(),
    {
        match self {
            IssueType::Task => "task",
            IssueType::Bug => "bug",
            IssueType::Feature => "feature",
            IssueType::Epic => "epic",
            IssueType::Chore => "chore",
            IssueType::Docs => "docs",
            IssueType::Question => "question",
            IssueType::Custom(s) => s.as_str(),
        }
    }

    /// The type that a stored name denotes, `None` for a name of no built-in type.
    pub fn from_name(s: &str) -> (r: Option<Self>)
        ensures
            r.deep_view() == IssueTypeView::of_name(s@),
    {
        if same_text(s, "task") {
            Some(IssueType::Task)
        } else if same_text(s, "bug") {
            Some(IssueType::Bug)
        } else if same_text(s, "feature") {
            Some(IssueType::Feature)
        } else if same_text(s, "epic") {
            Some(IssueType::Epic)
        } else if same_text(s, "chore") {
            Some(IssueType::Chore)
        } else if same_text(s, "docs") {
            Some(IssueType::Docs)
        } else if same_text(s, "question") {
            Some(IssueType::Question)
        } else {
            None
        }
    }

    /// Whether the issue is an epic.
    pub fn is_epic(&self) -> (r: bool)
        ensures
            r == (self.deep_view() is Epic),
    {
        match self {
            IssueType::Epic => true,
            _ => false,
        }
    }

    /// A copy of the type.
    pub fn copy(&self) -> (r: IssueType)
        ensures
            r.deep_view() == self.deep_view(),
    {
        match self {
            IssueType::Task => IssueType::Task,
            IssueType::Bug => IssueType::Bug,
            IssueType::Feature => IssueType::Feature,
            IssueType::Epic => IssueType::Epic,
            IssueType::Chore => IssueType::Chore,
            IssueType::Docs => IssueType::Docs,
            IssueType::Question => IssueType::Question,
            IssueType::Custom(s) => IssueType::Custom(s.clone()),
        }
    }
}

/// How one issue depends on another.
#[derive(Debug, Clone, PartialEq, Eq)]
pub enum DependencyType {
    Blocks,
    ParentChild,
    ConditionalBlocks,
    WaitsFor,
    Related,
    DiscoveredFrom,
    Custom(String),
}

/// The view of [`DependencyType`].
#[verifier::ext_equal]
pub enum DependencyTypeView {
    Blocks,
    ParentChild,
    ConditionalBlocks,
    WaitsFor,
    Related,
    DiscoveredFrom,
    Custom(Seq<char>),
}

impl DeepView for DependencyType {
    type V = DependencyTypeView;

    open spec fn deep_view(&self) -> DependencyTypeView {
        match self {
            DependencyType::Blocks => DependencyTypeView::Blocks,
            DependencyType::ParentChild => DependencyTypeView::ParentChild,
            DependencyType::ConditionalBlocks => DependencyTypeView::ConditionalBlocks,
            DependencyType::WaitsFor => DependencyTypeView::WaitsFor,
            DependencyType::Related => DependencyTypeView::Related,
            DependencyType::DiscoveredFrom => DependencyTypeView::DiscoveredFrom,
            DependencyType::Custom(s) => DependencyTypeView::Custom(s@),
        }
    }
}

impl DependencyTypeView {
    /// The name under which the value is stored.
    pub open spec fn name(self) -> Seq<char> {
        match self {
            DependencyTypeView::Blocks => "blocks"@,
            DependencyTypeView::ParentChild => "parent-child"@,
            DependencyTypeView::ConditionalBlocks => "conditional-blocks"@,
            DependencyTypeView::WaitsFor => "waits-for"@,
            DependencyTypeView::Related => "related"@,
            DependencyTypeView::DiscoveredFrom => "discovered-from"@,
            DependencyTypeView::Custom(s) => s,
        }
    }

    /// The value that a stored name denotes.
    pub open spec fn of_name(s: Seq<char>) -> Self {
        if s == "blocks"@ {
            DependencyTypeView::Blocks
        } else if s == "parent-child"@ {
            DependencyTypeView::ParentChild
        } else if s == "conditional-blocks"@ {
            DependencyTypeView::ConditionalBlocks
        } else if s == "waits-for"@ {
            DependencyTypeView::WaitsFor
        } else if s == "related"@ {
            DependencyTypeView::Related
        } else if s == "discovered-from"@ {
            DependencyTypeView::DiscoveredFrom
        } else {
            DependencyTypeView::Custom(s)
        }
    }

    /// The dependency can block the issue that has it.
    pub open spec fn blocking(self) -> bool {
        self is Blocks || self is ParentChild || self is ConditionalBlocks || self is WaitsFor
    }
}

/// A type of dependency is read back from its name, unless it is a custom one with a built-in name.
pub proof fn lemma_dependency_type_reads_back(t: DependencyTypeView)
    requires
        t matches DependencyTypeView::Custom(name) ==> DependencyTypeView::of_name(name) is Custom,
    ensures
        DependencyTypeView::of_name(t.name()) == t,
{
    reveal_strlit("blocks");
    reveal_strlit("parent-child");
    reveal_strlit("conditional-blocks");
    reveal_strlit("waits-for");
    reveal_strlit("related");
    reveal_strlit("discovered-from");
    assert("blocks"@.len() == 6);
    assert("parent-child"@.len() == 12);
    assert("conditional-blocks"@.len() == 18);
    assert("waits-for"@.len() == 9);
    assert("related"@.len() == 7);
    assert("discovered-from"@.len() == 15);
}

impl DependencyType {
    /// The name under which the value is stored.
    pub fn as_str(&self) -> (r: &str)
        ensures
            r@ == self.deep_view().name(),
    {
        match self {
            DependencyType::Blocks => "blocks",
            DependencyType::ParentChild => "parent-child",
            DependencyType::ConditionalBlocks => "conditional-blocks",
            DependencyType::WaitsFor => "waits-for",
            DependencyType::Related => "related",
            DependencyType::DiscoveredFrom => "discovered-from",
            DependencyType::Custom(s) => s.as_str(),
        }
    }

    /// The dependency type that a stored name denotes.
    pub fn from_name(s: &str) -> (r: Self)
        ensures
            r.deep_view() == DependencyTypeView::of_name(s@),
    {
        if same_text(s, "blocks") {
            DependencyType::Blocks
        } else if same_text(s, "parent-child") {
            DependencyType::ParentChild
        } else if same_text(s, "conditional-blocks") {
            DependencyType::ConditionalBlocks
        } else if same_text(s, "waits-for") {
            DependencyType::WaitsFor
        } else if same_text(s, "related") {
            DependencyType::Related
        } else if same_text(s, "discovered-from") {
            DependencyType::DiscoveredFrom
        } else {
            DependencyType::Custom(s.to_owned())
        }
    }

    /// Whether the dependency can block the issue that has it.
    pub fn is_blocking(&self) -> (r: bool)
        ensures
            r == self.deep_view().blocking(),
    {
        match self {
            DependencyType::Blocks => true,
            DependencyType::ParentChild => true,
            DependencyType::ConditionalBlocks => true,
            DependencyType::WaitsFor => true,
            _ => false,
        }
    }
}

/// What an audit event reports.
#[derive(Debug, Clone, Copy, PartialEq, Eq, Structural)]
pub enum EventType {
    Created,
    Updated,
    StatusChanged,
    PriorityChanged,
    AssigneeChanged,
    Commented,
    Closed,
    Reopened,
    DependencyAdded,
    DependencyRemoved,
    LabelAdded,
    LabelRemoved,
    Deleted,
}

impl DeepView for EventType {
    type V = EventType;

    open spec fn deep_view(&self) -> EventType {
        *self
    }
}

impl EventType {
    /// The name under which the event is stored.
    pub open spec fn name(self) -> Seq<char> {
        match self {
            EventType::Created => "created"@,
            EventType::Updated => "updated"@,
            EventType::StatusChanged => "status_changed"@,
            EventType::PriorityChanged => "priority_changed"@,
            EventType::AssigneeChanged => "assignee_changed"@,
            EventType::Commented => "commented"@,
            EventType::Closed => "closed"@,
            EventType::Reopened => "reopened"@,
            EventType::DependencyAdded => "dependency_added"@,
            EventType::DependencyRemoved => "dependency_removed"@,
            EventType::LabelAdded => "label_added"@,
            EventType::LabelRemoved => "label_removed"@,
            EventType::Deleted => "deleted"@,
        }
    }

    /// The name under which the event is stored.
    pub fn as_str(&self) -> (r: &str)
        ensures
            r@ == self.name(),
    {
        match self {
            EventType::Created => "created",
            EventType::Updated => "updated",
            EventType::StatusChanged => "status_changed",
            EventType::PriorityChanged => "priority_changed",
            EventType::AssigneeChanged => "assignee_changed",
            EventType::Commented => "commented",
            EventType::Closed => "closed",
            EventType::Reopened => "reopened",
            EventType::DependencyAdded => "dependency_added",
            EventType::DependencyRemoved => "dependency_removed",
            EventType::LabelAdded => "label_added",
            EventType::LabelRemoved => "label_removed",
            EventType::Deleted => "deleted",
        }
    }
}

/// How urgent an issue is: the smaller the number, the more urgent.
#[derive(Debug, Clone, Copy, PartialEq, Eq, Structural)]
pub struct Priority(pub i32);

impl Default for Priority {
    fn default() -> (r: Self)
        ensures
            r.0 == 2,
    {
        Priority(2)
    }
}

impl DeepView for Priority {
    type V = i32;

    open spec fn deep_view(&self) -> i32 {
        self.0
    }
}

/// A dependency of one issue on another.
#[derive(Debug, Clone)]
pub struct Dependency {
    pub issue_id: String,
    pub depends_on_id: String,
    pub dep_type: DependencyType,
    pub created_at: Timestamp,
    pub created_by: Option<String>,
    pub metadata: Option<String>,
    pub thread_id: Option<String>,
}

/// The view of [`Dependency`].
#[verifier::ext_equal]
pub struct DependencyView {
    pub issue_id: Seq<char>,
    pub depends_on_id: Seq<char>,
    pub dep_type: DependencyTypeView,
    pub created_at: Instant,
    pub created_by: Option<Seq<char>>,
    pub metadata: Option<Seq<char>>,
    pub thread_id: Option<Seq<char>>,
}

impl DeepView for Dependency {
    type V = DependencyView;

    open spec fn deep_view(&self) -> DependencyView {
        DependencyView {
            issue_id: self.issue_id.deep_view(),
            depends_on_id: self.depends_on_id.deep_view(),
            dep_type: self.dep_type.deep_view(),
            created_at: self.created_at.deep_view(),
            created_by: self.created_by.deep_view(),
            metadata: self.metadata.deep_view(),
            thread_id: self.thread_id.deep_view(),
        }
    }
}

/// A comment on an issue.
#[derive(Debug, Clone)]
pub struct Comment {
    pub id: i64,
    pub issue_id: String,
    pub author: String,
    pub body: String,
    pub created_at: Timestamp,
}

/// The view of [`Comment`].
#[verifier::ext_equal]
pub struct CommentView {
    pub id: i64,
    pub issue_id: Seq<char>,
    pub author: Seq<char>,
    pub body: Seq<char>,
    pub created_at: Instant,
}

impl DeepView for Comment {
    type V = CommentView;

    open spec fn deep_view(&self) -> CommentView {
        CommentView {
            id: self.id.deep_view(),
            issue_id: self.issue_id.deep_view(),
            author: self.author.deep_view(),
            body: self.body.deep_view(),
            created_at: self.created_at.deep_view(),
        }
    }
}

/// An audit event of an issue.
#[derive(Debug, Clone)]
pub struct Event {
    pub id: i64,
    pub issue_id: String,
    pub event_type: EventType,
    pub actor: String,
    pub old_value: Option<String>,
    pub new_value: Option<String>,
    pub comment: Option<String>,
    pub created_at: Timestamp,
}

/// The view of [`Event`].
#[verifier::ext_equal]
pub struct EventView {
    pub id: i64,
    pub issue_id: Seq<char>,
    pub event_type: EventType,
    pub actor: Seq<char>,
    pub old_value: Option<Seq<char>>,
    pub new_value: Option<Seq<char>>,
    pub comment: Option<Seq<char>>,
    pub created_at: Instant,
}

impl DeepView for Event {
    type V = EventView;

    open spec fn deep_view(&self) -> EventView {
        EventView {
            id: self.id.deep_view(),
            issue_id: self.issue_id.deep_view(),
            event_type: self.event_type.deep_view(),
            actor: self.actor.deep_view(),
            old_value: self.old_value.deep_view(),
            new_value: self.new_value.deep_view(),
            comment: self.comment.deep_view(),
            created_at: self.created_at.deep_view(),
        }
    }
}

/// An issue.
#[derive(Debug, Clone, Default)]
pub struct Issue {
    pub id: String,
    pub content_hash: Option<String>,
    pub title: String,
    pub description: Option<String>,
    pub design: Option<String>,
    pub acceptance_criteria: Option<String>,
    pub notes: Option<String>,
    pub status: Status,
    pub priority: Priority,
    pub issue_type: IssueType,
    pub assignee: Option<String>,
    pub owner: Option<String>,
    pub estimated_minutes: Option<i32>,
    pub created_at: Timestamp,
    pub created_by: Option<String>,
    pub updated_at: Timestamp,
    pub closed_at: Option<Timestamp>,
    pub close_reason: Option<String>,
    pub closed_by_session: Option<String>,
    pub due_at: Option<Timestamp>,
    pub defer_until: Option<Timestamp>,
    pub external_ref: Option<String>,
    pub source_system: Option<String>,
    pub source_repo: Option<String>,
    pub deleted_at: Option<Timestamp>,
    pub deleted_by: Option<String>,
    pub delete_reason: Option<String>,
    pub original_type: Option<String>,
    pub compaction_level: Option<i32>,
    pub compacted_at: Option<Timestamp>,
    pub compacted_at_commit: Option<String>,
    pub original_size: Option<i32>,
    pub sender: Option<String>,
    pub ephemeral: bool,
    pub pinned: bool,
    pub is_template: bool,
    pub labels: Vec<String>,
    pub dependencies: Vec<Dependency>,
    pub comments: Vec<Comment>,
}

/// The view of [`Issue`].
#[verifier::ext_equal]
pub struct IssueView {
    pub id: Seq<char>,
    pub content_hash: Option<Seq<char>>,
    pub title: Seq<char>,
    pub description: Option<Seq<char>>,
    pub design: Option<Seq<char>>,
    pub acceptance_criteria: Option<Seq<char>>,
    pub notes: Option<Seq<char>>,
    pub status: StatusView,
    pub priority: i32,
    pub issue_type: IssueTypeView,
    pub assignee: Option<Seq<char>>,
    pub owner: Option<Seq<char>>,
    pub estimated_minutes: Option<i32>,
    pub created_at: Instant,
    pub created_by: Option<Seq<char>>,
    pub updated_at: Instant,
    pub closed_at: Option<Instant>,
    pub close_reason: Option<Seq<char>>,
    pub closed_by_session: Option<Seq<char>>,
    pub due_at: Option<Instant>,
    pub defer_until: Option<Instant>,
    pub external_ref: Option<Seq<char>>,
    pub source_system: Option<Seq<char>>,
    pub source_repo: Option<Seq<char>>,
    pub deleted_at: Option<Instant>,
    pub deleted_by: Option<Seq<char>>,
    pub delete_reason: Option<Seq<char>>,
    pub original_type: Option<Seq<char>>,
    pub compaction_level: Option<i32>,
    pub compacted_at: Option<Instant>,
    pub compacted_at_commit: Option<Seq<char>>,
    pub original_size: Option<i32>,
    pub sender: Option<Seq<char>>,
    pub ephemeral: bool,
    pub pinned: bool,
    pub is_template: bool,
    pub labels: Seq<Seq<char>>,
    pub dependencies: Seq<DependencyView>,
    pub comments: Seq<CommentView>,
}

impl DeepView for Issue {
    type V = IssueView;

    open spec fn deep_view(&self) -> IssueView {
        IssueView {
            id: self.id.deep_view(),
            content_hash: self.content_hash.deep_view(),
            title: self.title.deep_view(),
            description: self.description.deep_view(),
            design: self.design.deep_view(),
            acceptance_criteria: self.acceptance_criteria.deep_view(),
            notes: self.notes.deep_view(),
            status: self.status.deep_view(),
            priority: self.priority.deep_view(),
            issue_type: self.issue_type.deep_view(),
            assignee: self.assignee.deep_view(),
            owner: self.owner.deep_view(),
            estimated_minutes: self.estimated_minutes.deep_view(),
            created_at: self.created_at.deep_view(),
            created_by: self.created_by.deep_view(),
            updated_at: self.updated_at.deep_view(),
            closed_at: self.closed_at.deep_view(),
            close_reason: self.close_reason.deep_view(),
            closed_by_session: self.closed_by_session.deep_view(),
            due_at: self.due_at.deep_view(),
            defer_until: self.defer_until.deep_view(),
            external_ref: self.external_ref.deep_view(),
            source_system: self.source_system.deep_view(),
            source_repo: self.source_repo.deep_view(),
            deleted_at: self.deleted_at.deep_view(),
            deleted_by: self.deleted_by.deep_view(),
            delete_reason: self.delete_reason.deep_view(),
            original_type: self.original_type.deep_view(),
            compaction_level: self.compaction_level.deep_view(),
            compacted_at: self.compacted_at.deep_view(),
            compacted_at_commit: self.compacted_at_commit.deep_view(),
            original_size: self.original_size.deep_view(),
            sender: self.sender.deep_view(),
            ephemeral: self.ephemeral.deep_view(),
            pinned: self.pinned.deep_view(),
            is_template: self.is_template.deep_view(),
            labels: self.labels.deep_view(),
            dependencies: self.dependencies.deep_view(),
            comments: self.comments.deep_view(),
        }
    }
}

} // verus!
