//! Workspaces: what Herdr says of them, and jumping back to the previous one.

use crate::config::Config;
use crate::data::{json_tree, parse_json, trees, Data, DataView};
use crate::model::WorkspaceKind;
use crate::text::{
    concat2, concat3, contents, list3, push_text, same, str_content, trim, trimmed,
};
use vstd::prelude::*;

verus! {

/// The identifier of the first focused workspace in a list.
pub open spec fn first_focused(workspaces: Seq<DataView>) -> Option<Seq<char>>
    decreases workspaces.len(),
{
    if workspaces.len() == 0 {
        None
    } else if workspaces[0].member_true("focused"@) {
        workspaces[0].member_text("workspace_id"@)
    } else {
        first_focused(workspaces.drop_first())
    }
}

/// The identifier of the focused workspace that a reply lists.
pub open spec fn focused_in(reply: DataView) -> Option<Seq<char>> {
    match reply.result_list("workspaces"@) {
        Some(workspaces) => first_focused(workspaces),
        None => None,
    }
}

/// The label of the first workspace in a list with an identifier.
pub open spec fn first_label(workspaces: Seq<DataView>, id: Seq<char>) -> Option<Seq<char>>
    decreases workspaces.len(),
{
    if workspaces.len() == 0 {
        None
    } else if workspaces[0].member_text("workspace_id"@) == Some(id) {
        workspaces[0].member_text("label"@)
    } else {
        first_label(workspaces.drop_first(), id)
    }
}

/// The label of a workspace that a reply lists.
pub open spec fn label_in(reply: DataView, id: Seq<char>) -> Option<Seq<char>> {
    match reply.result_list("workspaces"@) {
        Some(workspaces) => first_label(workspaces, id),
        None => None,
    }
}

/// The identifier of the workspace that a reply says was created.
pub open spec fn created_in(reply: DataView) -> Option<Seq<char>> {
    match reply.member("result"@) {
        Some(result) => match result.member("workspace"@) {
            Some(workspace) => workspace.member_text("workspace_id"@),
            None => None,
        },
        None => None,
    }
}

/// The identifier of the workspace that a reply says was created.
pub fn workspace_created_id(reply: &Data) -> (id: Option<&str>)
    ensures
        str_content(id) == created_in(reply@),
{
    match reply.member("result") {
        Some(result) => match result.member("workspace") {
            Some(workspace) => workspace.member_text("workspace_id"),
            None => None,
        },
        None => None,
    }
}

/// What is to be remembered of a workspace that was created: its identifier and what for.
pub fn record_created_workspace(reply: &Data, kind: WorkspaceKind) -> (record: Option<
    (String, WorkspaceKind),
>)
    ensures
        record is Some <==> created_in(reply@) is Some,
        record matches Some(made) ==> made.0@ == created_in(reply@)->0 && made.1 == kind,
{
    match workspace_created_id(reply) {
        Some(id) => Some((id.to_owned(), kind)),
        None => None,
    }
}

/// The label of a created workspace: with its kind in front, where that is known and asked for.
pub open spec fn created_label(kind: WorkspaceKind, label: Seq<char>, prefix: bool) -> Seq<char> {
    match kind {
        WorkspaceKind::Project => if prefix {
            "project"@ + ": "@ + label
        } else {
            label
        },
        WorkspaceKind::Dir => if prefix {
            "dir"@ + ": "@ + label
        } else {
            label
        },
        WorkspaceKind::Unknown => label,
    }
}

/// The label of a created workspace: with its kind in front, where that is known and asked for.
pub fn created_workspace_label(
    kind: WorkspaceKind,
    label: &str,
    prefix_workspace_labels: bool,
) -> (shown: String)
    ensures
        shown@ == created_label(kind, label@, prefix_workspace_labels),
{
    if !prefix_workspace_labels {
        return label.to_owned();
    }
    let prefix: &str = match kind {
        WorkspaceKind::Project => "project",
        WorkspaceKind::Dir => "dir",
        WorkspaceKind::Unknown => {
            return label.to_owned();
        },
    };
    concat3(prefix, ": ", label)
}

/// The identifier of the focused workspace that Herdr's reply lists.
pub fn focused_workspace_id(reply: &Data) -> (id: Option<&str>)
    ensures
        str_content(id) == focused_in(reply@),
{
    match reply.result_list("workspaces") {
        Some(workspaces) => {
            let ghost all = trees(workspaces@);
            let mut i: usize = 0;
            assert(all.skip(0) == all);
            while i < workspaces.len()
                invariant
                    i <= workspaces.len(),
                    all == trees(workspaces@),
                    focused_in(reply@) == first_focused(all),
                    first_focused(all) == first_focused(all.skip(i as int)),
                decreases workspaces.len() - i,
            {
                assert(all.skip(i as int)[0] == workspaces@[i as int]@);
                if workspaces[i].member_true("focused") {
                    return workspaces[i].member_text("workspace_id");
                }
                assert(all.skip(i as int).drop_first() =~= all.skip(i + 1));
                i += 1;
            }
            None
        },
        None => None,
    }
}

/// The label of a workspace that Herdr's reply lists.
pub fn workspace_label<'a>(reply: &'a Data, id: &str) -> (label: Option<&'a str>)
    ensures
        str_content(label) == label_in(reply@, id@),
{
    match reply.result_list("workspaces") {
        Some(workspaces) => {
            let ghost all = trees(workspaces@);
            let mut i: usize = 0;
            assert(all.skip(0) == all);
            while i < workspaces.len()
                invariant
                    i <= workspaces.len(),
                    all == trees(workspaces@),
                    label_in(reply@, id@) == first_label(all, id@),
                    first_label(all, id@) == first_label(all.skip(i as int), id@),
                decreases workspaces.len() - i,
            {
                assert(all.skip(i as int)[0] == workspaces@[i as int]@);
                if let Some(listed) = workspaces[i].member_text("workspace_id") {
                    if same(listed, id) {
                        return workspaces[i].member_text("label");
                    }
                }
                assert(all.skip(i as int).drop_first() =~= all.skip(i + 1));
                i += 1;
            }
            None
        },
        None => None,
    }
}

/// What Herdr is called with to list its workspaces.
pub fn workspace_list_args() -> (args: Vec<String>)
    ensures
        contents(args@) == seq!["workspace"@, "list"@],
{
    let mut args: Vec<String> = Vec::new();
    push_text(&mut args, "workspace");
    push_text(&mut args, "list");
    assert(contents(args@) =~= seq!["workspace"@, "list"@]);
    args
}

/// The identifier of the focused workspace, from what Herdr answered when asked for its list.
pub fn current_workspace_id(reply: &Result<Data, String>) -> (id: Result<String, String>)
    ensures
        match *reply {
            Ok(data) => match focused_in(data@) {
                Some(focused) => id matches Ok(found) && found@ == focused,
                None => id matches Err(message) && message@
                    == "can't determine the current workspace"@,
            },
            Err(error) => id matches Err(message) && message@ == error@,
        },
{
    match reply {
        Ok(data) => match focused_workspace_id(data) {
            Some(found) => Ok(found.to_owned()),
            None => Err("can't determine the current workspace".to_owned()),
        },
        Err(error) => Err(error.clone()),
    }
}

/// The workspace to remember as the previous one: the one that was left for another.
pub fn previous_workspace_to_record<'a>(
    origin: Option<&'a str>,
    destination: Option<&str>,
) -> (previous: Option<&'a str>)
    ensures
        previous == (if origin is Some && destination is Some && origin->0@ != destination->0@ {
            origin
        } else {
            None
        }),
{
    match (origin, destination) {
        (Some(from), Some(to)) => if same(from, to) {
            None
        } else {
            Some(from)
        },
        _ => None,
    }
}

/// Why a workspace cannot be closed: it is the one that the picker runs in.
pub fn close_current_workspace_error(id: &str, current: Option<&str>) -> (error: Option<String>)
    ensures
        error is Some <==> current is Some && current->0@ == id@,
        error matches Some(message) ==> message@
            == "can't close the workspace that owns this picker; switch away first"@,
{
    match current {
        Some(current) => if same(current, id) {
            Some("can't close the workspace that owns this picker; switch away first".to_owned())
        } else {
            None
        },
        None => None,
    }
}

/// The workspace to focus after another was closed: the one that the picker was opened in.
pub fn workspace_focus_to_restore<'a>(closed_id: &str, origin: Option<&'a str>) -> (restore: Option<
    &'a str,
>)
    ensures
        restore == (if origin is Some && origin->0@ != closed_id@ {
            origin
        } else {
            None
        }),
{
    match origin {
        Some(from) => if same(from, closed_id) {
            None
        } else {
            Some(from)
        },
        None => None,
    }
}

/// The workspace that the navigator was started in, as its context names it.
pub open spec fn launch_id(context: Option<DataView>) -> Option<Seq<char>> {
    match context {
        Some(tree) => match tree.member_text("workspace_id"@) {
            Some(id) => if id.len() > 0 {
                Some(id)
            } else {
                None
            },
            None => None,
        },
        None => None,
    }
}

/// The workspace that the navigator was started in, from the JSON text of its context.
pub fn launch_workspace_id(context: Option<&str>) -> (id: Option<String>)
    ensures
        crate::text::content(id) == launch_id(match context {
            Some(text) => json_tree(text@),
            None => None,
        }),
{
    match context {
        Some(text) => launch_workspace_in(&parse_json(text)),
        None => None,
    }
}

/// The workspace that the navigator was started in, as its context names it.
pub fn launch_workspace_in(context: &Option<Data>) -> (id: Option<String>)
    ensures
        crate::text::content(id) == launch_id(match context {
            Some(tree) => Some(tree@),
            None => None,
        }),
{
    match context {
        Some(tree) => match tree.member_text("workspace_id") {
            Some(id) => if !id.is_empty() {
                Some(id.to_owned())
            } else {
                None
            },
            None => None,
        },
        None => None,
    }
}

/// Why a file could not be read.
#[derive(Debug)]
pub enum ReadFailure {
    NotFound,
    Other { message: String },
}

/// The stored previous workspace, from what reading its file gave.
pub fn read_previous_workspace(read: &Result<String, ReadFailure>) -> (previous: Result<
    String,
    String,
>)
    ensures
        match *read {
            Ok(text) => if trimmed(text@).len() > 0 {
                previous matches Ok(id) && id@ == trimmed(text@)
            } else {
                previous matches Err(message) && message@ == "no previous workspace yet"@
            },
            Err(ReadFailure::NotFound) => previous matches Err(message) && message@
                == "no previous workspace yet"@,
            Err(ReadFailure::Other { message: error }) => previous matches Err(message) && message@
                == "failed to read jump-back state: "@ + error@,
        },
{
    match read {
        Ok(text) => {
            let id: &str = trim(text.as_str());
            if id.is_empty() {
                Err("no previous workspace yet".to_owned())
            } else {
                Ok(id.to_owned())
            }
        },
        Err(ReadFailure::NotFound) => Err("no previous workspace yet".to_owned()),
        Err(ReadFailure::Other { message }) => Err(
            concat2("failed to read jump-back state: ", message.as_str()),
        ),
    }
}

/// What to do next to jump back.
#[derive(Debug)]
pub enum JumpStep {
    /// Ask Herdr for its workspaces.
    ListWorkspaces,
    /// Read the stored previous workspace.
    ReadPrevious,
    /// Give up, with a message.
    Fail { message: String },
    /// Remove the stored previous workspace and give up, with a message.
    Forget { message: String },
    /// Focus the previous workspace, store the current one in its place, and report the label.
    Focus { previous: String, current: String, label: String },
}

/// What to do next to jump back.
pub enum JumpView {
    ListWorkspaces,
    ReadPrevious,
    Fail { message: Seq<char> },
    Forget { message: Seq<char> },
    Focus { previous: Seq<char>, current: Seq<char>, label: Seq<char> },
}

impl View for JumpStep {
    type V = JumpView;

    open spec fn view(&self) -> JumpView {
        match *self {
            JumpStep::ListWorkspaces => JumpView::ListWorkspaces,
            JumpStep::ReadPrevious => JumpView::ReadPrevious,
            JumpStep::Fail { message } => JumpView::Fail { message: message@ },
            JumpStep::Forget { message } => JumpView::Forget { message: message@ },
            JumpStep::Focus { previous, current, label } => JumpView::Focus {
                previous: previous@,
                current: current@,
                label: label@,
            },
        }
    }
}

impl JumpView {
    /// What Herdr is called with, where the step is a call of it.
    pub open spec fn args(self) -> Option<Seq<Seq<char>>> {
        match self {
            JumpView::ListWorkspaces => Some(seq!["workspace"@, "list"@]),
            JumpView::Focus { previous, .. } => Some(seq!["workspace"@, "focus"@, previous]),
            _ => None,
        }
    }
}

impl JumpStep {
    /// What Herdr is called with, where the step is a call of it.
    pub fn herdr_args(&self) -> (args: Option<Vec<String>>)
        ensures
            self@.args() == (match args {
                Some(list) => Some(contents(list@)),
                None => None,
            }),
    {
        match self {
            JumpStep::ListWorkspaces => Some(workspace_list_args()),
            JumpStep::Focus { previous, .. } => Some(
                list3("workspace", "focus", previous.as_str()),
            ),
            _ => None,
        }
    }
}

/// What a workspace list and the stored previous workspace say of jumping back.
pub open spec fn jump_between(
    workspaces: DataView,
    previous: Option<Result<String, String>>,
) -> JumpView {
    match focused_in(workspaces) {
        None => JumpView::Fail { message: "can't determine the current workspace"@ },
        Some(current) => match previous {
            None => JumpView::ReadPrevious,
            Some(Err(error)) => JumpView::Fail { message: error@ },
            Some(Ok(id)) => if id@ == current {
                JumpView::Fail { message: "no previous workspace yet"@ }
            } else {
                match label_in(workspaces, id@) {
                    Some(label) => JumpView::Focus { previous: id@, current, label },
                    None => JumpView::Forget { message: "previous workspace no longer exists"@ },
                }
            },
        },
    }
}

/// What to do next to jump back, from what is known so far.
pub open spec fn jump_step(
    enabled: bool,
    workspaces: Option<Result<Data, String>>,
    previous: Option<Result<String, String>>,
) -> JumpView {
    if !enabled {
        JumpView::Fail { message: "jump back is disabled in config"@ }
    } else {
        match workspaces {
            None => JumpView::ListWorkspaces,
            Some(Err(error)) => JumpView::Fail { message: error@ },
            Some(Ok(list)) => jump_between(list@, previous),
        }
    }
}

/// What to do next to jump back, from what is known so far: what Herdr answered when asked for its
/// workspaces, and what reading the stored previous workspace gave.
pub fn jump_back(
    config: &Config,
    workspaces: &Option<Result<Data, String>>,
    previous: &Option<Result<String, String>>,
) -> (step: JumpStep)
    ensures
        step@ == jump_step(config.jump_back.enabled, *workspaces, *previous),
{
    if !config.jump_back.enabled {
        return JumpStep::Fail { message: "jump back is disabled in config".to_owned() };
    }
    let list: &Data = match workspaces {
        None => {
            return JumpStep::ListWorkspaces;
        },
        Some(Err(error)) => {
            return JumpStep::Fail { message: error.clone() };
        },
        Some(Ok(list)) => list,
    };
    let current: &str = match focused_workspace_id(list) {
        Some(current) => current,
        None => {
            return JumpStep::Fail { message: "can't determine the current workspace".to_owned() };
        },
    };
    let id: &String = match previous {
        None => {
            return JumpStep::ReadPrevious;
        },
        Some(Err(error)) => {
            return JumpStep::Fail { message: error.clone() };
        },
        Some(Ok(id)) => id,
    };
    if same(id.as_str(), current) {
        return JumpStep::Fail { message: "no previous workspace yet".to_owned() };
    }
    match workspace_label(list, id.as_str()) {
        Some(label) => JumpStep::Focus {
            previous: id.clone(),
            current: current.to_owned(),
            label: label.to_owned(),
        },
        None => JumpStep::Forget { message: "previous workspace no longer exists".to_owned() },
    }
}

} // verus!
