//! The land plan and land run data model: step kinds and statuses, the
//! editable plan shape, and the run record with one status per step.
use vstd::prelude::*;

use crate::text::strings_view;

verus! {

/// Schema version stamped on plans and runs.
pub const SCHEMA_VERSION: &'static str = "1";

/// `kind` of a land plan file.
pub const LAND_PLAN_KIND: &'static str = "KnitLandPlan";

/// `kind` of a land run file.
pub const LAND_RUN_KIND: &'static str = "KnitLandRun";

/// Provider used when neither the caller nor the project names one.
pub const DEFAULT_LAND_PROVIDER: &'static str = "github";

/// Kind of a land plan step.
#[derive(Debug, Clone, Copy, PartialEq, Eq, Structural)]
pub enum LandStepKind {
    MergePr,
    WaitChecks,
    Run,
    Deploy,
}

impl LandStepKind {
    pub open spec fn label(self) -> Seq<char> {
        match self {
            LandStepKind::MergePr => "merge_pr"@,
            LandStepKind::WaitChecks => "wait_checks"@,
            LandStepKind::Run => "run"@,
            LandStepKind::Deploy => "deploy"@,
        }
    }

    /// The snake_case name used in plan files.
    pub fn as_str(self) -> (s: &'static str)
        ensures
            s@ == self.label(),
    {
        match self {
            LandStepKind::MergePr => "merge_pr",
            LandStepKind::WaitChecks => "wait_checks",
            LandStepKind::Run => "run",
            LandStepKind::Deploy => "deploy",
        }
    }
}

/// Status of a land run or one of its steps.
#[derive(Debug, Clone, Copy, PartialEq, Eq, Structural)]
pub enum LandStatus {
    Pending,
    Running,
    Succeeded,
    Failed,
}

impl LandStatus {
    pub open spec fn label(self) -> Seq<char> {
        match self {
            LandStatus::Pending => "pending"@,
            LandStatus::Running => "running"@,
            LandStatus::Succeeded => "succeeded"@,
            LandStatus::Failed => "failed"@,
        }
    }

    /// The snake_case name used in run files.
    pub fn as_str(self) -> (s: &'static str)
        ensures
            s@ == self.label(),
    {
        match self {
            LandStatus::Pending => "pending",
            LandStatus::Running => "running",
            LandStatus::Succeeded => "succeeded",
            LandStatus::Failed => "failed",
        }
    }
}

/// How a deployment step runs: triggered by the merge push, or a command.
#[derive(Debug, Clone, Copy, PartialEq, Eq, Structural)]
pub enum DeployMode {
    Push,
    Command,
}

/// How a pull request is merged.
#[derive(Debug, Clone, Copy, PartialEq, Eq, Structural)]
pub enum MergeMethod {
    Merge,
    Squash,
    Rebase,
}

impl MergeMethod {
    pub open spec fn label(self) -> Seq<char> {
        match self {
            MergeMethod::Merge => "merge"@,
            MergeMethod::Squash => "squash"@,
            MergeMethod::Rebase => "rebase"@,
        }
    }

    pub fn as_str(self) -> (s: &'static str)
        ensures
            s@ == self.label(),
    {
        match self {
            MergeMethod::Merge => "merge",
            MergeMethod::Squash => "squash",
            MergeMethod::Rebase => "rebase",
        }
    }

    /// The method used when a plan names none.
    pub fn default_method() -> (m: MergeMethod)
        ensures
            m == MergeMethod::Merge,
    {
        MergeMethod::Merge
    }
}

/// How a deployment checkout is refreshed before the command runs.
#[derive(Debug, Clone, Copy, PartialEq, Eq, Structural)]
pub enum DeployCheckoutUpdate {
    Fetch,
    NoUpdate,
}

/// What `knit land apply` does when a step fails.
#[derive(Debug, Clone, Copy, PartialEq, Eq, Structural)]
pub enum LandOnFailure {
    Stop,
    Rollback,
}

/// A dedicated deployment checkout of a branch.
#[derive(Debug, Clone)]
pub struct LandCheckout {
    pub branch: String,
    pub remote: Option<String>,
    pub update: Option<DeployCheckoutUpdate>,
}

/// One step of a land plan.
#[derive(Debug, Clone)]
pub struct LandStep {
    pub id: String,
    pub step_type: LandStepKind,
    pub needs: Vec<String>,
    pub repo_id: Option<String>,
    pub method: Option<MergeMethod>,
    pub wait_for_checks: Option<bool>,
    pub required_checks_only: Option<bool>,
    pub delete_branch: Option<bool>,
    pub required_only: Option<bool>,
    pub timeout_seconds: Option<u64>,
    pub interval_seconds: Option<u64>,
    pub cwd: Option<String>,
    pub command: Vec<String>,
    pub env: Vec<(String, String)>,
    pub deployment_mode: Option<DeployMode>,
    pub checkout: Option<LandCheckout>,
}

/// The editable land plan.
#[derive(Debug, Clone)]
pub struct LandPlan {
    pub schema_version: String,
    pub kind: String,
    pub id: String,
    pub provider: String,
    pub bundle_id: String,
    pub source_project_id: Option<String>,
    pub created_at: String,
    pub on_failure: Option<LandOnFailure>,
    pub target_branch: Option<String>,
    pub require_checks: Vec<String>,
    pub steps: Vec<LandStep>,
}

/// The recorded progress of one plan step.
#[derive(Debug, Clone)]
pub struct LandRunStep {
    pub id: String,
    pub step_type: LandStepKind,
    pub status: LandStatus,
    pub repo_id: Option<String>,
    pub publication_url: Option<String>,
    pub started_at: Option<String>,
    pub finished_at: Option<String>,
    pub detail: Option<String>,
    pub stdout: Option<String>,
    pub stderr: Option<String>,
    pub exit_code: Option<i32>,
}

/// The record of executing a land plan.
#[derive(Debug, Clone)]
pub struct LandRun {
    pub schema_version: String,
    pub kind: String,
    pub id: String,
    pub plan_id: String,
    pub bundle_id: String,
    pub provider: String,
    pub plan_path: String,
    pub status: LandStatus,
    pub created_at: String,
    pub updated_at: String,
    pub rolled_back_at: Option<String>,
    pub steps: Vec<LandRunStep>,
}

/// The id views of a list of plan steps.
pub open spec fn step_ids(steps: Seq<LandStep>) -> Seq<Seq<char>> {
    steps.map_values(|s: LandStep| s.id@)
}

/// The need views of a plan step.
pub open spec fn needs_of(s: LandStep) -> Seq<Seq<char>> {
    strings_view(s.needs@)
}

} // verus!
