//! An issue with all that hangs on it.

use crate::links::IssueWithDependencyMetadata;
use crate::model::{Comment, Dependency, Event, Issue};
use vstd::prelude::*;

verus! {

use crate::links::IssueWithDependencyMetadataView;
use crate::model::{CommentView, EventView, IssueView};

/// An issue with all that hangs on it.
#[derive(Debug)]
pub struct IssueDetails {
    pub issue: Issue,
    pub labels: Vec<String>,
    pub dependencies: Vec<IssueWithDependencyMetadata>,
    pub dependents: Vec<IssueWithDependencyMetadata>,
    pub comments: Vec<Comment>,
    pub events: Vec<Event>,
    pub parent: Option<String>,
}

/// The view of [`IssueDetails`].
#[verifier::ext_equal]
pub struct IssueDetailsView {
    pub issue: IssueView,
    pub labels: Seq<Seq<char>>,
    pub dependencies: Seq<IssueWithDependencyMetadataView>,
    pub dependents: Seq<IssueWithDependencyMetadataView>,
    pub comments: Seq<CommentView>,
    pub events: Seq<EventView>,
    pub parent: Option<Seq<char>>,
}

impl DeepView for IssueDetails {
    type V = IssueDetailsView;

    open spec fn deep_view(&self) -> IssueDetailsView {
        IssueDetailsView {
            issue: self.issue.deep_view(),
            labels: self.labels.deep_view(),
            dependencies: self.dependencies.deep_view(),
            dependents: self.dependents.deep_view(),
            comments: self.comments.deep_view(),
            events: self.events.deep_view(),
            parent: self.parent.deep_view(),
        }
    }
}

/// The details of an issue: its comments and events only where they were asked for.
pub fn get_issue_details(
    issue: Issue,
    labels: Vec<String>,
    dependencies: Vec<IssueWithDependencyMetadata>,
    dependents: Vec<IssueWithDependencyMetadata>,
    comments: Option<Vec<Comment>>,
    events: Option<Vec<Event>>,
    parent: Option<String>,
) -> (r: IssueDetails)
    ensures
        r.deep_view() == (IssueDetailsView {
            issue: issue.deep_view(),
            labels: labels.deep_view(),
            dependencies: dependencies.deep_view(),
            dependents: dependents.deep_view(),
            comments: match comments.deep_view() {
                Some(list) => list,
                None => seq![],
            },
            events: match events.deep_view() {
                Some(list) => list,
                None => seq![],
            },
            parent: parent.deep_view(),
        }),
{
    let comments: Vec<Comment> = match comments {
        Some(list) => list,
        None => {
            let none: Vec<Comment> = Vec::new();
            assert(none.deep_view() =~= seq![]);
            none
        },
    };
    let events: Vec<Event> = match events {
        Some(list) => list,
        None => {
            let none: Vec<Event> = Vec::new();
            assert(none.deep_view() =~= seq![]);
            none
        },
    };
    IssueDetails { issue, labels, dependencies, dependents, comments, events, parent }
}

/// An issue with its labels, dependencies and comments, as it is exported.
pub fn get_issue_for_export(
    issue: Issue,
    labels: Vec<String>,
    dependencies: Vec<Dependency>,
    comments: Vec<Comment>,
) -> (r: Issue)
    ensures
        r.deep_view() == (IssueView {
            labels: labels.deep_view(),
            dependencies: dependencies.deep_view(),
            comments: comments.deep_view(),
            ..issue.deep_view()
        }),
{
    let mut issue = issue;
    issue.labels = labels;
    issue.dependencies = dependencies;
    issue.comments = comments;
    issue
}

} // verus!
