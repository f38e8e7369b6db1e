use herdr_plugin::{AgentStatus, WorkspaceCreated, WorkspaceInfo};
use herdr_tab_title::events::{
    RefreshTarget, is_refresh_event, relevant_event_names, tab_created_target, tab_renamed_target,
    workspace_created_tab,
};

#[test]
fn excludes_unknown_tab_reorder_events() {
    assert!(!is_refresh_event("tab.moved"));
    assert!(!is_refresh_event("tab.reordered"));
}

#[test]
fn includes_every_tab_and_workspace_change() {
    for event in [
        "tab.created",
        "tab.renamed",
        "tab.closed",
        "tab.focused",
        "workspace.created",
        "workspace.focused",
        "workspace.renamed",
        "workspace.closed",
    ] {
        assert!(is_refresh_event(event), "{event}");
    }
    assert!(!is_refresh_event(""));
    assert!(!is_refresh_event("tab.created "));
    assert!(!is_refresh_event("Tab.created"));
    assert_eq!(relevant_event_names().len(), 8);
    assert_eq!(relevant_event_names()[0], "tab.created");
    assert_eq!(relevant_event_names()[7], "workspace.closed");
}

#[test]
fn workspace_created_refreshes_active_tab_as_created_tab() {
    let event = WorkspaceCreated {
        workspace: WorkspaceInfo {
            workspace_id: "w1".to_string(),
            number: 1,
            label: "workspace".to_string(),
            focused: true,
            pane_count: 1,
            tab_count: 1,
            active_tab_id: "t1".to_string(),
            agent_status: AgentStatus::Unknown,
            worktree: None,
        },
    };

    assert_eq!(
        workspace_created_tab(event.workspace.active_tab_id),
        Some(RefreshTarget::CreatedTab {
            tab_id: "t1".to_string(),
            label: None,
        })
    );
}

#[test]
fn created_tab_is_targeted_with_its_label() {
    assert_eq!(
        tab_created_target("t2".to_string(), "shell".to_string()),
        Some(RefreshTarget::CreatedTab {
            tab_id: "t2".to_string(),
            label: Some("shell".to_string()),
        })
    );
}

#[test]
fn renamed_tab_is_targeted_with_its_new_label() {
    assert_eq!(
        tab_renamed_target("t3".to_string(), "notes".to_string()),
        Some(RefreshTarget::LabeledTab {
            tab_id: "t3".to_string(),
            label: "notes".to_string(),
        })
    );
}
