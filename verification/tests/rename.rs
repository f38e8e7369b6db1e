use herdr_tab_title::formatter::Formatter;
use herdr_tab_title::herdr::client::{HerdrApi, HerdrError};
use herdr_tab_title::herdr::models::{Tab, Workspace};
use herdr_tab_title::rename::{
    RenameOperation, plan_from_listing, plan_renames, plan_renames_for_tabs, refresh,
    rename_request, sort_tabs,
};

#[derive(Debug)]
struct MockHerdrClient {
    tabs: Vec<Tab>,
    renames: Vec<(String, String)>,
}

impl HerdrApi for MockHerdrClient {
    fn list_tabs(&mut self) -> Result<Vec<Tab>, HerdrError> {
        Ok(self.tabs.clone())
    }

    fn rename_tab(&mut self, id: &str, title: &str) -> Result<(), HerdrError> {
        self.renames.push((id.to_string(), title.to_string()));
        Ok(())
    }

    fn focus_tab(&mut self, id: &str) -> Result<(), HerdrError> {
        self.renames.push((id.to_string(), "<focus>".to_string()));
        Ok(())
    }

    fn list_workspaces(&mut self) -> Result<Vec<Workspace>, HerdrError> {
        Ok(Vec::new())
    }
}

fn tab(id: &str, title: &str, workspace_id: &str, number: usize, focused: bool) -> Tab {
    Tab {
        id: id.to_string(),
        title: title.to_string(),
        workspace_id: workspace_id.to_string(),
        number,
        focused,
    }
}

#[test]
fn plans_only_titles_that_need_changes() {
    let mut client = MockHerdrClient {
        tabs: vec![
            tab("t1", "1. Codex", "w1", 1, false),
            tab("t2", "Terminal", "w1", 2, false),
            tab("t3", "9. Editor 3.5", "w1", 3, false),
        ],
        renames: Vec::new(),
    };
    let formatter = Formatter::parse("{index}. {title}").unwrap();

    let operations = plan_renames(&mut client, &formatter).unwrap();

    assert_eq!(
        operations,
        vec![
            RenameOperation {
                tab_id: "t2".to_string(),
                from: "Terminal".to_string(),
                to: "2. Terminal".to_string(),
            },
            RenameOperation {
                tab_id: "t3".to_string(),
                from: "9. Editor 3.5".to_string(),
                to: "3. Editor 3.5".to_string(),
            }
        ]
    );
}

#[test]
fn refresh_renames_only_changed_tabs_without_refocusing() {
    let mut client = MockHerdrClient {
        tabs: vec![
            tab("t1", "Codex", "w1", 1, true),
            tab("t2", "2. Editor", "w1", 2, false),
        ],
        renames: Vec::new(),
    };
    let formatter = Formatter::parse("{index}. {title}").unwrap();

    let count = refresh(&mut client, &formatter).unwrap();

    assert_eq!(count, 1);
    assert_eq!(
        client.renames.as_slice(),
        &[("t1".to_string(), "1. Codex".to_string())]
    );
}

#[test]
fn plans_indexes_per_workspace_order() {
    let mut client = MockHerdrClient {
        tabs: vec![
            tab("w2t2", "two", "w2", 2, false),
            tab("w1t2", "two", "w1", 2, false),
            tab("w2t1", "one", "w2", 1, false),
            tab("w1t1", "one", "w1", 1, false),
        ],
        renames: Vec::new(),
    };
    let formatter = Formatter::parse("{index}. {title}").unwrap();

    let operations = plan_renames(&mut client, &formatter).unwrap();

    assert_eq!(
        operations,
        vec![
            RenameOperation {
                tab_id: "w1t1".to_string(),
                from: "one".to_string(),
                to: "1. one".to_string(),
            },
            RenameOperation {
                tab_id: "w1t2".to_string(),
                from: "two".to_string(),
                to: "2. two".to_string(),
            },
            RenameOperation {
                tab_id: "w2t1".to_string(),
                from: "one".to_string(),
                to: "1. one".to_string(),
            },
            RenameOperation {
                tab_id: "w2t2".to_string(),
                from: "two".to_string(),
                to: "2. two".to_string(),
            },
        ]
    );
}

#[test]
fn sorts_by_workspace_then_number_keeping_ties_in_order() {
    let sorted = sort_tabs(vec![
        tab("a", "a", "w10", 1, false),
        tab("b", "b", "w2", 5, false),
        tab("c", "c", "w2", 3, false),
        tab("d", "d", "w2", 3, false),
        tab("e", "e", "", 9, false),
    ]);
    let ids: Vec<&str> = sorted.iter().map(|t| t.id.as_str()).collect();

    assert_eq!(ids, vec!["e", "a", "c", "d", "b"]);
}

#[test]
fn indexes_count_positions_not_numbers() {
    let formatter = Formatter::parse("[{index}] {title}").unwrap();
    let operations = plan_renames_for_tabs(
        vec![
            tab("x", "gamma", "w", 30, false),
            tab("y", "alpha", "w", 10, false),
            tab("z", "2. beta", "w", 20, false),
        ],
        &formatter,
    );

    assert_eq!(
        operations,
        vec![
            RenameOperation {
                tab_id: "y".to_string(),
                from: "alpha".to_string(),
                to: "[1] alpha".to_string(),
            },
            RenameOperation {
                tab_id: "z".to_string(),
                from: "2. beta".to_string(),
                to: "[2] beta".to_string(),
            },
            RenameOperation {
                tab_id: "x".to_string(),
                from: "gamma".to_string(),
                to: "[3] gamma".to_string(),
            },
        ]
    );
}

#[test]
fn planned_title_removes_only_one_numeric_prefix() {
    let formatter = Formatter::parse("{index}. {title}").unwrap();
    let operations = plan_renames_for_tabs(
        vec![
            tab("a", "1. 2. foo", "w", 1, false),
            tab("b", "[2] bar", "w", 2, false),
        ],
        &formatter,
    );

    assert_eq!(
        operations,
        vec![RenameOperation {
            tab_id: "b".to_string(),
            from: "[2] bar".to_string(),
            to: "2. [2] bar".to_string(),
        }]
    );
}

#[test]
fn switching_format_replaces_the_old_numbering() {
    let formatter = Formatter::parse("[{index}] {title}").unwrap();
    let operations = plan_renames_for_tabs(vec![tab("t", "1. Codex", "w", 1, false)], &formatter);

    assert_eq!(
        operations,
        vec![RenameOperation {
            tab_id: "t".to_string(),
            from: "1. Codex".to_string(),
            to: "[1] Codex".to_string(),
        }]
    );
}

#[test]
fn planning_again_after_renames_changes_nothing() {
    let formatter = Formatter::parse("{index}. {title}").unwrap();
    let mut tabs = vec![
        tab("a", "Codex", "w1", 1, true),
        tab("b", "7. Terminal", "w1", 2, false),
        tab("c", "", "w2", 1, false),
        tab("d", "Notes", "w2", 4, false),
    ];
    let operations = plan_renames_for_tabs(tabs.clone(), &formatter);
    assert!(operations.iter().all(|op| op.from != op.to));
    for operation in &operations {
        let tab = tabs.iter_mut().find(|t| t.id == operation.tab_id).unwrap();
        tab.title = operation.to.clone();
    }
    assert_eq!(plan_renames_for_tabs(tabs, &formatter), Vec::new());
}

#[test]
fn rename_requests_ask_for_the_new_title() {
    let operation = RenameOperation {
        tab_id: "w1:t2".to_string(),
        from: "Terminal".to_string(),
        to: "2. Terminal".to_string(),
    };

    assert_eq!(rename_request(&operation), ("w1:t2", "2. Terminal"));
}

#[test]
fn empty_listing_plans_nothing() {
    let formatter = Formatter::parse("{index}. {title}").unwrap();

    assert!(plan_renames_for_tabs(Vec::new(), &formatter).is_empty());
}

#[derive(Debug)]
struct FailingClient;

impl HerdrApi for FailingClient {
    fn list_tabs(&mut self) -> Result<Vec<Tab>, HerdrError> {
        Ok(vec![tab("t1", "Codex", "w1", 1, false)])
    }

    fn rename_tab(&mut self, _id: &str, _title: &str) -> Result<(), HerdrError> {
        Err(HerdrError::Failed {
            command: "herdr tab rename".to_string(),
            status: Some(2),
            stderr: "no such tab".to_string(),
        })
    }

    fn focus_tab(&mut self, _id: &str) -> Result<(), HerdrError> {
        Ok(())
    }

    fn list_workspaces(&mut self) -> Result<Vec<Workspace>, HerdrError> {
        Ok(Vec::new())
    }
}

#[test]
fn refresh_reports_a_failed_rename() {
    let formatter = Formatter::parse("{index}. {title}").unwrap();

    let error = refresh(&mut FailingClient, &formatter).unwrap_err();

    assert_eq!(
        error.message(),
        "herdr command failed (herdr tab rename, status Some(2)): no such tab"
    );
}

#[test]
fn plan_follows_the_listing() {
    let formatter = Formatter::parse("{index}. {title}").unwrap();

    let planned = plan_from_listing(Ok(vec![tab("t", "Codex", "w", 1, false)]), &formatter).unwrap();
    assert_eq!(
        planned,
        vec![RenameOperation {
            tab_id: "t".to_string(),
            from: "Codex".to_string(),
            to: "1. Codex".to_string(),
        }]
    );

    let failed = plan_from_listing(
        Err(HerdrError::Failed {
            command: "herdr tab list".to_string(),
            status: Some(1),
            stderr: "down".to_string(),
        }),
        &formatter,
    )
    .unwrap_err();
    assert_eq!(
        failed.message(),
        "herdr command failed (herdr tab list, status Some(1)): down"
    );
}

/// Records every call; listing fails when `listing_fails`, and renaming the
/// tab `failing_id` fails.
#[derive(Debug)]
struct RecordingClient {
    tabs: Vec<Tab>,
    listing_fails: bool,
    failing_id: String,
    calls: Vec<String>,
}

fn failure(command: &str) -> HerdrError {
    HerdrError::Failed {
        command: command.to_string(),
        status: Some(1),
        stderr: "refused".to_string(),
    }
}

impl HerdrApi for RecordingClient {
    fn list_tabs(&mut self) -> Result<Vec<Tab>, HerdrError> {
        self.calls.push("list".to_string());
        if self.listing_fails {
            return Err(failure("herdr tab list"));
        }
        Ok(self.tabs.clone())
    }

    fn rename_tab(&mut self, id: &str, title: &str) -> Result<(), HerdrError> {
        self.calls.push(format!("rename {id} {title}"));
        if id == self.failing_id {
            return Err(failure("herdr tab rename"));
        }
        Ok(())
    }

    fn focus_tab(&mut self, id: &str) -> Result<(), HerdrError> {
        self.calls.push(format!("focus {id}"));
        Ok(())
    }

    fn list_workspaces(&mut self) -> Result<Vec<Workspace>, HerdrError> {
        self.calls.push("workspaces".to_string());
        Ok(Vec::new())
    }
}

#[test]
fn refresh_stops_at_the_first_failed_rename() {
    let mut client = RecordingClient {
        tabs: vec![
            tab("a", "one", "w", 1, false),
            tab("b", "two", "w", 2, false),
            tab("c", "three", "w", 3, false),
        ],
        listing_fails: false,
        failing_id: "b".to_string(),
        calls: Vec::new(),
    };
    let formatter = Formatter::parse("{index}. {title}").unwrap();

    let error = refresh(&mut client, &formatter).unwrap_err();

    assert_eq!(
        error.message(),
        "herdr command failed (herdr tab rename, status Some(1)): refused"
    );
    assert_eq!(client.calls, vec!["list", "rename a 1. one", "rename b 2. two"]);
}

#[test]
fn refresh_returns_a_listing_error_without_renaming() {
    let mut client = RecordingClient {
        tabs: vec![tab("a", "one", "w", 1, false)],
        listing_fails: true,
        failing_id: String::new(),
        calls: Vec::new(),
    };
    let formatter = Formatter::parse("{index}. {title}").unwrap();

    let error = refresh(&mut client, &formatter).unwrap_err();

    assert_eq!(
        error.message(),
        "herdr command failed (herdr tab list, status Some(1)): refused"
    );
    assert_eq!(client.calls, vec!["list"]);
}

#[test]
fn refresh_counts_every_rename_when_all_succeed() {
    let mut client = RecordingClient {
        tabs: vec![
            tab("b", "two", "w", 2, false),
            tab("a", "1. one", "w", 1, false),
            tab("c", "three", "v", 1, false),
        ],
        listing_fails: false,
        failing_id: String::new(),
        calls: Vec::new(),
    };
    let formatter = Formatter::parse("{index}. {title}").unwrap();

    assert_eq!(refresh(&mut client, &formatter).unwrap(), 2);
    assert_eq!(client.calls, vec!["list", "rename c 1. three", "rename b 2. two"]);
}

#[test]
fn planning_lists_the_tabs_once_and_asks_nothing_else() {
    let mut client = RecordingClient {
        tabs: vec![tab("a", "one", "w", 1, false)],
        listing_fails: false,
        failing_id: String::new(),
        calls: Vec::new(),
    };
    let formatter = Formatter::parse("{index}. {title}").unwrap();

    let operations = plan_renames(&mut client, &formatter).unwrap();

    assert_eq!(operations.len(), 1);
    assert_eq!(client.calls, vec!["list"]);
}
