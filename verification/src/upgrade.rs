//! The upgrade of the service: its steps, and what each result leads to.

use crate::elevate::{outcome_message, ElevateOutcome};
use crate::text::{chars_of, contains, decimal_signed, decimal_signed_text, occurs, string_of};
use crate::timeparse::{trim, trimmed};
use vstd::prelude::*;

verus! {

/// A step of an upgrade.
#[derive(Clone, Copy, Debug, PartialEq, Eq, Structural)]
pub enum UpgradeStep {
    /// Stop the service, so that its file can be replaced.
    StopService,
    BuildRelease,
    /// Install the service anew and start it.
    InstallStart,
    /// See that it runs.
    VerifyStatus,
}

impl UpgradeStep {
    /// What the step does.
    pub fn describe(&self) -> (r: &'static str)
        ensures
            r@ == match *self {
                UpgradeStep::StopService => "停服（UAC 提权：find-stutter-service stop）"@,
                UpgradeStep::BuildRelease => "构建（rtk cargo build --release）"@,
                UpgradeStep::InstallStart => "重装启动（UAC 提权：find-stutter-service install-start）"@,
                UpgradeStep::VerifyStatus => "校验（find-stutter-service status 退出码 0 = Running）"@,
            },
    {
        match self {
            UpgradeStep::StopService => "停服（UAC 提权：find-stutter-service stop）",
            UpgradeStep::BuildRelease => "构建（rtk cargo build --release）",
            UpgradeStep::InstallStart => "重装启动（UAC 提权：find-stutter-service install-start）",
            UpgradeStep::VerifyStatus => "校验（find-stutter-service status 退出码 0 = Running）",
        }
    }
}

/// The plan of an upgrade.
#[derive(Debug)]
pub struct UpgradePlan {
    pub service_exe: String,
    pub rtk: String,
    pub repo_root: String,
    pub steps: Vec<UpgradeStep>,
}

/// The steps of an upgrade, with or without a build.
pub open spec fn steps_of(no_build: bool) -> Seq<UpgradeStep> {
    if no_build {
        seq![UpgradeStep::StopService, UpgradeStep::InstallStart, UpgradeStep::VerifyStatus]
    } else {
        seq![
            UpgradeStep::StopService,
            UpgradeStep::BuildRelease,
            UpgradeStep::InstallStart,
            UpgradeStep::VerifyStatus,
        ]
    }
}

/// The complaint where the build tool was not found.
pub open spec fn no_rtk() -> Seq<char> {
    "找不到 rtk：PATH 中无 rtk，回退位置 D:\\app\\cargo\\bin\\rtk.exe 也不存在。请检查 PATH 或 rtk 安装位置后重试（本项目要求所有 cargo 命令必须经 rtk 执行，见 AGENTS.md）"@
}

/// The complaint where the service was not found.
pub open spec fn no_service() -> Seq<char> {
    "找不到 find-stutter-service.exe（exe 同目录 / CWD / PATH 均无；请先构建）"@
}

/// The plan of an upgrade with the paths that were given or found. The build tool and the service
/// must have been; the present directory stands in for the root.
pub fn plan_upgrade(no_build: bool, rtk: Option<String>, service_exe: Option<String>, repo_root: Option<String>) -> (r:
    Result<UpgradePlan, String>)
    ensures
        match r {
            Ok(p) => {
                &&& rtk is Some && p.rtk@ == rtk->0@
                &&& service_exe is Some && p.service_exe@ == service_exe->0@
                &&& p.repo_root@ == (match repo_root {
                    Some(d) => d@,
                    None => "."@,
                })
                &&& p.steps@ == steps_of(no_build)
            },
            Err(e) => (rtk is None && e@ == no_rtk()) || (rtk is Some && service_exe is None && e@ == no_service()),
        },
{
    let rtk = match rtk {
        Some(p) => p,
        None => {
            return Err(
                String::from_str(
                    "找不到 rtk：PATH 中无 rtk，回退位置 D:\\app\\cargo\\bin\\rtk.exe 也不存在。请检查 PATH 或 rtk 安装位置后重试（本项目要求所有 cargo 命令必须经 rtk 执行，见 AGENTS.md）",
                ),
            );
        },
    };
    let service_exe = match service_exe {
        Some(p) => p,
        None => {
            return Err(
                String::from_str("找不到 find-stutter-service.exe（exe 同目录 / CWD / PATH 均无；请先构建）"),
            );
        },
    };
    let repo_root = match repo_root {
        Some(d) => d,
        None => String::from_str("."),
    };
    let mut steps: Vec<UpgradeStep> = Vec::new();
    steps.push(UpgradeStep::StopService);
    if !no_build {
        steps.push(UpgradeStep::BuildRelease);
    }
    steps.push(UpgradeStep::InstallStart);
    steps.push(UpgradeStep::VerifyStatus);
    proof {
        assert(steps@ =~= steps_of(no_build));
    }
    Ok(UpgradePlan { service_exe, rtk, repo_root, steps })
}

/// The result of a step.
#[derive(Debug)]
pub enum StepResult {
    /// A program with raised rights ended (stop, install and start).
    Elevated(ElevateOutcome),
    /// The build ended: whether well, with which exit code, and what it complained of.
    Built(bool, Option<i32>, String),
    /// The build tool could not be started.
    BuildNotStarted(String),
    /// The status program ended with an exit code.
    Status(i32),
    /// The status program could not be started.
    StatusNotStarted(String),
}

/// What follows a step.
#[derive(Debug)]
pub enum UpgradeAction {
    /// The next step.
    Continue,
    /// The next step, with a remark.
    ContinueWith(String),
    /// The upgrade is done and the service runs.
    Finish,
    /// The upgrade ends with a complaint.
    Abort(String),
}

/// What an [`UpgradeAction`] holds.
pub enum ActionModel {
    Continue,
    ContinueWith(Seq<char>),
    Finish,
    Abort(Seq<char>),
}

impl View for UpgradeAction {
    type V = ActionModel;

    open spec fn view(&self) -> ActionModel {
        match self {
            UpgradeAction::Continue => ActionModel::Continue,
            UpgradeAction::ContinueWith(s) => ActionModel::ContinueWith(s@),
            UpgradeAction::Finish => ActionModel::Finish,
            UpgradeAction::Abort(s) => ActionModel::Abort(s@),
        }
    }
}

/// An optional exit code as it is told.
pub open spec fn code_told(code: Option<i32>) -> Seq<char> {
    match code {
        Some(c) => "Some("@ + decimal_signed(c as int) + ")"@,
        None => "None"@,
    }
}

/// What follows a step by its result: a refusal ends the upgrade, a stop that was not confirmed does
/// not, and everything else must go well.
pub open spec fn follows(rtk: Seq<char>, step: UpgradeStep, result: StepResult) -> ActionModel {
    match result {
        StepResult::Elevated(o) => if step == UpgradeStep::StopService {
            match o {
                ElevateOutcome::Exited(_) => ActionModel::Continue,
                ElevateOutcome::UacDenied => ActionModel::Abort("UAC 被拒绝，升级中止（服务未停止）"@),
                _ => ActionModel::ContinueWith("停服未确认成功（"@ + outcome_message(o) + "），继续尝试构建"@),
            }
        } else if o == ElevateOutcome::Exited(0) {
            ActionModel::Continue
        } else {
            ActionModel::Abort("重装启动失败："@ + outcome_message(o))
        },
        StepResult::Built(ok, code, complaint) => if ok {
            ActionModel::Continue
        } else {
            ActionModel::Abort("构建失败（exit="@ + code_told(code) + "）："@ + complaint@)
        },
        StepResult::BuildNotStarted(e) => ActionModel::Abort("启动 rtk 失败（"@ + rtk + "）："@ + e@),
        StepResult::Status(c) => if c == 0 {
            ActionModel::Finish
        } else {
            ActionModel::Abort("校验失败：status 退出码 "@ + decimal_signed(c as int) + "（非 Running）"@)
        },
        StepResult::StatusNotStarted(e) => ActionModel::Abort("校验失败：status 调用失败 "@ + e@),
    }
}

/// What follows a step of an upgrade.
pub fn after_step(plan: &UpgradePlan, step: UpgradeStep, result: &StepResult) -> (a: UpgradeAction)
    ensures
        a@ == follows(plan.rtk@, step, *result),
{
    match result {
        StepResult::Elevated(o) => if step == UpgradeStep::StopService {
            match o {
                ElevateOutcome::Exited(_) => UpgradeAction::Continue,
                ElevateOutcome::UacDenied => UpgradeAction::Abort(
                    String::from_str("UAC 被拒绝，升级中止（服务未停止）"),
                ),
                _ => {
                    let mut s = String::from_str("停服未确认成功（");
                    s.append(o.message().as_str());
                    s.append("），继续尝试构建");
                    UpgradeAction::ContinueWith(s)
                },
            }
        } else if o.is_ok() {
            UpgradeAction::Continue
        } else {
            UpgradeAction::Abort(String::from_str("重装启动失败：").concat(o.message().as_str()))
        },
        StepResult::Built(ok, code, complaint) => if *ok {
            UpgradeAction::Continue
        } else {
            let told = match code {
                Some(c) => {
                    let mut t = String::from_str("Some(");
                    t.append(decimal_signed_text(*c as i64).as_str());
                    t.append(")");
                    t
                },
                None => String::from_str("None"),
            };
            let mut s = String::from_str("构建失败（exit=");
            s.append(told.as_str());
            s.append("）：");
            s.append(complaint.as_str());
            UpgradeAction::Abort(s)
        },
        StepResult::BuildNotStarted(e) => {
            let mut s = String::from_str("启动 rtk 失败（");
            s.append(plan.rtk.as_str());
            s.append("）：");
            s.append(e.as_str());
            UpgradeAction::Abort(s)
        },
        StepResult::Status(c) => if *c == 0 {
            UpgradeAction::Finish
        } else {
            let mut s = String::from_str("校验失败：status 退出码 ");
            s.append(decimal_signed_text(*c as i64).as_str());
            s.append("（非 Running）");
            UpgradeAction::Abort(s)
        },
        StepResult::StatusNotStarted(e) => UpgradeAction::Abort(
            String::from_str("校验失败：status 调用失败 ").concat(e.as_str()),
        ),
    }
}

/// An upgrade ends by verifying: the last step is the one that can finish it, and nothing is built
/// where no build is wanted.
pub proof fn lemma_upgrade_verifies(no_build: bool)
    ensures
        steps_of(no_build).last() == UpgradeStep::VerifyStatus,
        steps_of(no_build)[0] == UpgradeStep::StopService,
        steps_of(no_build).contains(UpgradeStep::BuildRelease) == !no_build,
{
    let s = steps_of(no_build);
    if !no_build {
        assert(s[1] == UpgradeStep::BuildRelease);
    }
}

/// An upgrade is done only by a status that says that the service runs; a refusal to stop the service
/// ends it, and so does everything else but a stop that was not confirmed or a step that went well.
pub proof fn lemma_upgrade_finishes_running(rtk: Seq<char>, step: UpgradeStep, result: StepResult)
    ensures
        follows(rtk, step, result) is Finish <==> result is Status && result->Status_0 == 0,
        step == UpgradeStep::StopService && result is Elevated && result->Elevated_0 is UacDenied ==> follows(
            rtk,
            step,
            result,
        ) is Abort,
        follows(rtk, step, result) is ContinueWith ==> step == UpgradeStep::StopService && result is Elevated,
        follows(rtk, step, result) is Continue ==> (result is Elevated && result->Elevated_0 is Exited) || (
        result is Built && result->Built_0),
{
}

/// The index of the first manifest, from `i` on, that names a workspace.
pub open spec fn workspace_at(manifests: Seq<Option<String>>, i: int) -> int
    decreases manifests.len() - i,
{
    if i >= manifests.len() {
        manifests.len() as int
    } else if manifests[i] is Some && occurs("[workspace]"@, manifests[i]->0@) {
        i
    } else {
        workspace_at(manifests, i + 1)
    }
}

/// Which directory is the root, by the manifests that directories hold, the innermost first.
pub fn find_workspace(manifests: &Vec<Option<String>>) -> (r: Option<usize>)
    ensures
        match r {
            Some(i) => i < manifests@.len() && i == workspace_at(manifests@, 0),
            None => workspace_at(manifests@, 0) == manifests@.len(),
        },
{
    let mut i: usize = 0;
    while i < manifests.len()
        invariant
            i <= manifests@.len(),
            workspace_at(manifests@, i as int) == workspace_at(manifests@, 0),
        decreases manifests@.len() - i,
    {
        if let Some(m) = &manifests[i] {
            if contains(m.as_str(), "[workspace]") {
                return Some(i);
            }
        }
        i += 1;
    }
    None
}

/// The position of the first line break from `i` on; the length where there is none.
pub open spec fn break_from(s: Seq<char>, i: int) -> int
    decreases s.len() - i,
{
    if i >= s.len() {
        s.len() as int
    } else if s[i] == '\n' {
        i
    } else {
        break_from(s, i + 1)
    }
}

/// The first line of what a program printed, without white space around it; none where it printed
/// nothing.
pub fn first_line(s: &str) -> (r: Option<String>)
    ensures
        match r {
            Some(t) => s@.len() > 0 && t@ == trimmed(s@.take(break_from(s@, 0))),
            None => s@.len() == 0,
        },
{
    let v = chars_of(s);
    if v.len() == 0 {
        return None;
    }
    let mut line: Vec<char> = Vec::new();
    let mut i: usize = 0;
    while i < v.len() && v[i] != '\n'
        invariant
            i <= v@.len(),
            line@ == v@.take(i as int),
            break_from(v@, i as int) == break_from(v@, 0),
        decreases v@.len() - i,
    {
        line.push(v[i]);
        i += 1;
        proof {
            assert(line@ =~= v@.take(i as int));
        }
    }
    Some(trim(string_of(&line).as_str()))
}

} // verus!
