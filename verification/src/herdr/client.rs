//! The client trait the planner talks to Herdr through, the command-line
//! client's settings, and the errors a call can end in.
use vstd::prelude::*;

use super::models::{SpecTab, SpecWorkspace, Tab, Workspace, tabs_view, workspaces_view};
use crate::system::io_error_text;
use crate::text::{decimal, decimal_string};

verus! {

/// One call made to Herdr, with what it answered.
pub enum HerdrCall {
    ListTabs(Result<Seq<SpecTab>, HerdrError>),
    RenameTab { id: Seq<char>, title: Seq<char>, outcome: Result<(), HerdrError> },
    FocusTab { id: Seq<char>, outcome: Result<(), HerdrError> },
    ListWorkspaces(Result<Seq<SpecWorkspace>, HerdrError>),
}

/// A tab listing by the values of its tabs.
pub open spec fn tab_listing(listing: Result<Vec<Tab>, HerdrError>) -> Result<
    Seq<SpecTab>,
    HerdrError,
> {
    match listing {
        Ok(tabs) => Ok(tabs_view(tabs@)),
        Err(error) => Err(error),
    }
}

/// A workspace listing by the values of its workspaces.
pub open spec fn workspace_listing(listing: Result<Vec<Workspace>, HerdrError>) -> Result<
    Seq<SpecWorkspace>,
    HerdrError,
> {
    match listing {
        Ok(workspaces) => Ok(workspaces_view(workspaces@)),
        Err(error) => Err(error),
    }
}

/// What the planner needs from Herdr.
///
/// A client keeps the calls made to it, in order, each with its answer
/// (`calls`); every method adds its own call to the end and changes nothing
/// else. The implementations (the command-line client, test doubles) are
/// outside the verified code: these contracts are what each of them must keep,
/// and nothing here checks that they do.
pub trait HerdrApi {
    /// The calls made to this client so far, oldest first.
    ///
    /// A verified implementation defines this from a log it carries. The
    /// default, an empty log, only lets implementations outside the verified
    /// code compile, since they cannot name a log; code that is generic over
    /// the client, such as `refresh`, never sees it and reasons from the
    /// contracts of the methods alone.
    closed spec fn calls(&self) -> Seq<HerdrCall> {
        Seq::empty()
    }

    fn list_tabs(&mut self) -> (r: Result<Vec<Tab>, HerdrError>)
        ensures
            final(self).calls() == old(self).calls().push(HerdrCall::ListTabs(tab_listing(r))),
    ;

    fn rename_tab(&mut self, id: &str, title: &str) -> (r: Result<(), HerdrError>)
        ensures
            final(self).calls() == old(self).calls().push(
                HerdrCall::RenameTab { id: id@, title: title@, outcome: r },
            ),
    ;

    fn focus_tab(&mut self, id: &str) -> (r: Result<(), HerdrError>)
        ensures
            final(self).calls() == old(self).calls().push(
                HerdrCall::FocusTab { id: id@, outcome: r },
            ),
    ;

    fn list_workspaces(&mut self) -> (r: Result<Vec<Workspace>, HerdrError>)
        ensures
            final(self).calls() == old(self).calls().push(
                HerdrCall::ListWorkspaces(workspace_listing(r)),
            ),
    ;
}

/// The Herdr binary that the command-line client runs.
#[derive(Debug, Clone)]
pub struct HerdrClient {
    bin: std::path::PathBuf,
}

impl HerdrClient {
    /// The binary the client runs.
    pub closed spec fn bin_path(&self) -> std::path::PathBuf {
        self.bin
    }

    /// A client that runs `bin`.
    pub fn new(bin: std::path::PathBuf) -> (r: Self)
        ensures
            r.bin_path() == bin,
    {
        HerdrClient { bin }
    }

    /// The binary the client runs.
    pub fn bin(&self) -> (r: &std::path::PathBuf)
        ensures
            *r == self.bin_path(),
    {
        &self.bin
    }
}

/// The JSON error `serde_json` reports.
#[verifier::external_type_specification]
#[verifier::external_body]
pub struct ExJsonError(serde_json::Error);

/// The `Display` text of a JSON error; nothing is said of it.
#[verifier::external_body]
fn json_error_text(error: &serde_json::Error) -> String {
    format!("{error}")
}

/// How a call to Herdr failed.
#[derive(Debug)]
pub enum HerdrError {
    /// The binary could not be started.
    Spawn(std::io::Error),
    /// The command ran and exited unsuccessfully.
    Failed { command: String, status: Option<i32>, stderr: String },
    /// The output was not the JSON expected.
    Json(serde_json::Error),
}

/// An integer in decimal, with a minus sign when negative.
pub open spec fn signed_decimal(n: int) -> Seq<char> {
    if n < 0 {
        seq!['-'] + decimal((-n) as nat)
    } else {
        decimal(n as nat)
    }
}

/// An optional exit status as `{:?}` shows it.
pub open spec fn status_text(status: Option<i32>) -> Seq<char> {
    match status {
        Some(code) => "Some("@ + signed_decimal(code as int) + ")"@,
        None => "None"@,
    }
}

fn signed_decimal_string(n: i32) -> (r: String)
    ensures
        r@ == signed_decimal(n as int),
{
    if n < 0 {
        let magnitude: i64 = -(n as i64);
        let mut text = String::from_str("-");
        let digits = decimal_string(magnitude as u128);
        text.append(digits.as_str());
        proof {
            reveal_strlit("-");
        }
        assert(text@ =~= seq!['-'] + decimal((-n) as nat));
        text
    } else {
        decimal_string(n as u128)
    }
}

fn status_string(status: Option<i32>) -> (r: String)
    ensures
        r@ == status_text(status),
{
    match status {
        Some(code) => {
            let mut text = String::from_str("Some(");
            let digits = signed_decimal_string(code);
            text.append(digits.as_str());
            text.append(")");
            text
        },
        None => String::from_str("None"),
    }
}

impl HerdrError {
    /// The error as a sentence. The texts of I/O and JSON errors come from
    /// those errors.
    pub fn message(&self) -> (r: String)
        ensures
            match self {
                HerdrError::Spawn(_) => exists|t: Seq<char>|
                    r@ == "failed to run herdr: "@ + t,
                HerdrError::Failed { command, status, stderr } => r@ == "herdr command failed ("@
                    + command@ + ", status "@ + status_text(*status) + "): "@ + stderr@,
                HerdrError::Json(_) => exists|t: Seq<char>|
                    r@ == "failed to parse herdr JSON: "@ + t,
            },
    {
        match self {
            HerdrError::Spawn(error) => {
                let detail = io_error_text(error);
                let mut text = String::from_str("failed to run herdr: ");
                text.append(detail.as_str());
                text
            },
            HerdrError::Failed { command, status, stderr } => {
                let mut text = String::from_str("herdr command failed (");
                text.append(command.as_str());
                text.append(", status ");
                let shown = status_string(*status);
                text.append(shown.as_str());
                text.append("): ");
                text.append(stderr.as_str());
                text
            },
            HerdrError::Json(error) => {
                let detail = json_error_text(error);
                let mut text = String::from_str("failed to parse herdr JSON: ");
                text.append(detail.as_str());
                text
            },
        }
    }
}

} // verus!
