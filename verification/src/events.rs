//! The Herdr events that make the tab titles stale.
use vstd::prelude::*;

use crate::text::str_equal;

verus! {

/// How long, in milliseconds, a burst of events is left to settle.
pub const REFRESH_DEBOUNCE_MS: u64 = 100;

/// The events after which the titles are refreshed.
pub open spec fn relevant_events() -> Seq<Seq<char>> {
    seq![
        "tab.created"@,
        "tab.renamed"@,
        "tab.closed"@,
        "tab.focused"@,
        "workspace.created"@,
        "workspace.focused"@,
        "workspace.renamed"@,
        "workspace.closed"@,
    ]
}

/// The names of the events after which the titles are refreshed, in the
/// order they are subscribed to.
pub fn relevant_event_names() -> (r: Vec<&'static str>)
    ensures
        r@.map_values(|name: &str| name@) == relevant_events(),
{
    let mut names: Vec<&'static str> = Vec::new();
    names.push("tab.created");
    names.push("tab.renamed");
    names.push("tab.closed");
    names.push("tab.focused");
    names.push("workspace.created");
    names.push("workspace.focused");
    names.push("workspace.renamed");
    names.push("workspace.closed");
    assert(names@.map_values(|name: &str| name@) =~= relevant_events());
    names
}

/// Whether `event` is one of the events after which titles are refreshed.
pub fn is_refresh_event(event: &str) -> (r: bool)
    ensures
        r == relevant_events().contains(event@),
{
    let names = relevant_event_names();
    let ghost views = names@.map_values(|name: &str| name@);
    let n = names.len();
    let mut k: usize = 0;
    while k < n
        invariant
            n == names@.len(),
            views == names@.map_values(|name: &str| name@),
            views == relevant_events(),
            0 <= k <= n,
            forall|j: int| 0 <= j < k ==> views[j] != event@,
        decreases n - k,
    {
        assert(views[k as int] == names@[k as int]@);
        if str_equal(names[k], event) {
            assert(views[k as int] == event@);
            return true;
        }
        k = k + 1;
    }
    assert(!views.contains(event@));
    false
}

/// The tab an event points a refresh at.
#[derive(Debug, Clone, PartialEq, Eq)]
pub enum RefreshTarget {
    /// A tab that was just created, with its label when the event gave one.
    CreatedTab { tab_id: String, label: Option<String> },
    /// A tab whose label was just set.
    LabeledTab { tab_id: String, label: String },
}

/// The target of a created tab: that tab, with its label.
pub fn tab_created_target(tab_id: String, label: String) -> (r: Option<RefreshTarget>)
    ensures
        r matches Some(RefreshTarget::CreatedTab { tab_id: id, label: Some(l) }) && id@ == tab_id@
            && l@ == label@,
{
    Some(RefreshTarget::CreatedTab { tab_id, label: Some(label) })
}

/// The target of a renamed tab: that tab, with its new label.
pub fn tab_renamed_target(tab_id: String, label: String) -> (r: Option<RefreshTarget>)
    ensures
        r matches Some(RefreshTarget::LabeledTab { tab_id: id, label: l }) && id@ == tab_id@ && l@
            == label@,
{
    Some(RefreshTarget::LabeledTab { tab_id, label })
}

/// The target of a created workspace: its active tab, as a created tab
/// whose label the event does not give.
pub fn workspace_created_tab(active_tab_id: String) -> (r: Option<RefreshTarget>)
    ensures
        r matches Some(RefreshTarget::CreatedTab { tab_id, label }) && tab_id@ == active_tab_id@
            && label is None,
{
    Some(RefreshTarget::CreatedTab { tab_id: active_tab_id, label: None })
}

} // verus!
