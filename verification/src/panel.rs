//! How agents are sorted.

use crate::data::{parse_toml, toml_tree, Data, DataView};
use crate::text::{ascii_lowercase, is_ascii_text, lowercase, same};
use vstd::prelude::*;

verus! {

/// The sort that a setting in lower case asks for: one of its own, or that of Herdr's panel.
pub open spec fn sort_of(setting: Seq<char>, panel_sort: Seq<char>) -> Seq<char> {
    if setting == "priority"@ {
        "priority"@
    } else if setting == "spaces"@ {
        "spaces"@
    } else {
        panel_sort
    }
}

/// The sort that a setting asks for: `priority` or `spaces` in any case, or else that of Herdr's
/// panel.
pub fn agent_sort(configured: &str, panel_sort: &str) -> (sort: String)
    ensures
        sort@ == sort_of(lowercase(configured@), panel_sort@),
        is_ascii_text(configured@) ==> sort@ == sort_of(
            ascii_lowercase(configured@),
            panel_sort@,
        ),
{
    sort_for(configured.to_lowercase().as_str(), panel_sort)
}

/// The sort that a setting in lower case asks for.
pub fn sort_for(setting: &str, panel_sort: &str) -> (sort: String)
    ensures
        sort@ == sort_of(setting@, panel_sort@),
{
    if same(setting, "priority") {
        "priority".to_owned()
    } else if same(setting, "spaces") {
        "spaces".to_owned()
    } else {
        panel_sort.to_owned()
    }
}

/// The sort that Herdr's settings name: `agent_panel_sort` under `ui` where it is there, or else at
/// the top. Without a text there it is `spaces`.
pub open spec fn panel_sort_of(settings: Option<DataView>) -> Seq<char> {
    match settings {
        Some(tree) => {
            let inner = match tree.member("ui"@) {
                Some(ui) => ui.member("agent_panel_sort"@),
                None => None,
            };
            let found = if inner is Some {
                inner
            } else {
                tree.member("agent_panel_sort"@)
            };
            match found {
                Some(DataView::Text(sort)) => sort,
                _ => "spaces"@,
            }
        },
        None => "spaces"@,
    }
}

/// The sort that the text of Herdr's settings file names. Without a file it is `spaces`, and so it
/// is where the text is no valid TOML document.
pub fn herdr_agent_panel_sort(file: Option<&str>) -> (sort: String)
    ensures
        sort@ == panel_sort_of(match file {
            Some(text) => toml_tree(text@),
            None => None,
        }),
{
    match file {
        Some(text) => panel_sort_in(&parse_toml(text)),
        None => "spaces".to_owned(),
    }
}

/// The sort that Herdr's settings name.
pub fn panel_sort_in(settings: &Option<Data>) -> (sort: String)
    ensures
        sort@ == panel_sort_of(match settings {
            Some(tree) => Some(tree@),
            None => None,
        }),
{
    match settings {
        Some(tree) => {
            let inner: Option<&Data> = match tree.member("ui") {
                Some(ui) => ui.member("agent_panel_sort"),
                None => None,
            };
            let found: Option<&Data> = match inner {
                Some(sort) => Some(sort),
                None => tree.member("agent_panel_sort"),
            };
            match found {
                Some(Data::Text(sort)) => sort.clone(),
                _ => "spaces".to_owned(),
            }
        },
        None => "spaces".to_owned(),
    }
}

} // verus!
