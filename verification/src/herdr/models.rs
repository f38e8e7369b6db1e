//! The tabs and workspaces that Herdr lists.
use vstd::prelude::*;

verus! {

/// A tab as Herdr lists it.
#[derive(Debug, Clone, PartialEq, Eq)]
pub struct Tab {
    pub id: String,
    pub title: String,
    pub workspace_id: String,
    pub number: usize,
    pub focused: bool,
}

/// The mathematical value of a [`Tab`].
pub struct SpecTab {
    pub id: Seq<char>,
    pub title: Seq<char>,
    pub workspace_id: Seq<char>,
    pub number: usize,
    pub focused: bool,
}

impl View for Tab {
    type V = SpecTab;

    open spec fn view(&self) -> SpecTab {
        SpecTab {
            id: self.id@,
            title: self.title@,
            workspace_id: self.workspace_id@,
            number: self.number,
            focused: self.focused,
        }
    }
}

/// The tabs of a sequence, by their values.
pub open spec fn tabs_view(tabs: Seq<Tab>) -> Seq<SpecTab> {
    tabs.map_values(|t: Tab| t@)
}

/// A workspace as Herdr lists it.
#[derive(Debug, Clone, PartialEq, Eq)]
pub struct Workspace {
    pub id: String,
    pub title: String,
}

/// The mathematical value of a [`Workspace`].
pub struct SpecWorkspace {
    pub id: Seq<char>,
    pub title: Seq<char>,
}

impl View for Workspace {
    type V = SpecWorkspace;

    open spec fn view(&self) -> SpecWorkspace {
        SpecWorkspace { id: self.id@, title: self.title@ }
    }
}

/// The workspaces of a sequence, by their values.
pub open spec fn workspaces_view(workspaces: Seq<Workspace>) -> Seq<SpecWorkspace> {
    workspaces.map_values(|w: Workspace| w@)
}

} // verus!
