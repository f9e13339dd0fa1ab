//! One report that answers why this tool is not doing anything.
//!
//! Every other report is about Herdr. This one is about the updater itself,
//! whose characteristic failure is silence: a schedule that was never
//! installed, a program that is not on the path, a directory that cannot be
//! written, a request budget that ran out. `Pass` was checked and works; `Warn`
//! is a capability that is off or degraded; `Fail` is a check that cannot run,
//! so its answers are no answers.

use crate::clock;
use crate::config::{self, Config, Loaded, Policy};
use crate::duration::Duration;
use crate::exec::{ExecError, Output};
use crate::herdr::{self, CoreRelation, CoreState, Hold};
use crate::history::Event;
use crate::json::{self, Found};
use crate::schedule::{self, Status};
use crate::text;
use vstd::prelude::*;
use vstd::string::*;

verus! {

#[derive(Debug, Clone, Copy, PartialEq, Eq, PartialOrd, Ord, Structural)]
pub enum Level {
    Pass,
    Warn,
    Fail,
}

#[derive(Debug)]
pub struct Check {
    pub area: &'static str,
    pub name: &'static str,
    pub level: Level,
    pub detail: String,
    /// What to do about it. A diagnostic that does not say what to change is
    /// just a complaint.
    pub remedy: Option<String>,
}

/// What a check found.
pub struct Finding {
    pub area: Seq<char>,
    pub name: Seq<char>,
    pub level: Level,
    pub detail: Seq<char>,
    pub remedy: Option<Seq<char>>,
}

impl View for Check {
    type V = Finding;

    open spec fn view(&self) -> Finding {
        Finding {
            area: self.area@,
            name: self.name@,
            level: self.level,
            detail: self.detail@,
            remedy: text::opt_text(self.remedy),
        }
    }
}

pub open spec fn findings(checks: Seq<Check>) -> Seq<Finding> {
    Seq::new(checks.len(), |i: int| checks[i]@)
}

pub open spec fn good(area: Seq<char>, name: Seq<char>, detail: Seq<char>) -> Finding {
    Finding { area, name, level: Level::Pass, detail, remedy: None }
}

pub open spec fn degraded(
    area: Seq<char>,
    name: Seq<char>,
    detail: Seq<char>,
    remedy: Seq<char>,
) -> Finding {
    Finding { area, name, level: Level::Warn, detail, remedy: Some(remedy) }
}

pub open spec fn failing(
    area: Seq<char>,
    name: Seq<char>,
    detail: Seq<char>,
    remedy: Seq<char>,
) -> Finding {
    Finding { area, name, level: Level::Fail, detail, remedy: Some(remedy) }
}

pub fn ok(area: &'static str, name: &'static str, detail: &str) -> (r: Check)
    ensures
        r@ == good(area@, name@, detail@),
{
    Check { area, name, level: Level::Pass, detail: detail.to_string(), remedy: None }
}

pub fn warn(area: &'static str, name: &'static str, detail: &str, remedy: &str) -> (r: Check)
    ensures
        r@ == degraded(area@, name@, detail@, remedy@),
{
    Check {
        area,
        name,
        level: Level::Warn,
        detail: detail.to_string(),
        remedy: Some(remedy.to_string()),
    }
}

pub fn fail(area: &'static str, name: &'static str, detail: &str, remedy: &str) -> (r: Check)
    ensures
        r@ == failing(area@, name@, detail@, remedy@),
{
    Check {
        area,
        name,
        level: Level::Fail,
        detail: detail.to_string(),
        remedy: Some(remedy.to_string()),
    }
}

// ---------------------------------------------------------------------------
// Configuration

pub open spec fn unknown_key_findings(warnings: Seq<Seq<char>>) -> Seq<Finding> {
    Seq::new(
        warnings.len(),
        |i: int|
            degraded(
                "config"@,
                "unknown key"@,
                warnings[i],
                "remove the key, or upgrade herdr-updater if it belongs to a newer build"@,
            ),
    )
}

pub open spec fn config_findings(loaded: Result<Loaded, String>) -> Seq<Finding> {
    match loaded {
        Ok(l) => seq![
            good(
                "config"@,
                "file"@,
                if l.existed {
                    l.path@
                } else {
                    l.path@ + " (absent; built-in defaults)"@
                },
            ),
        ] + unknown_key_findings(text::texts(l.warnings@)) + seq![
            good(
                "config"@,
                "policy"@,
                match l.value.policy {
                    Policy::Notify => "notify — nothing is updated without an explicit apply"@,
                    Policy::Auto => "auto — safe updates are applied"@,
                },
            ),
        ],
        Err(error) => seq![
            failing(
                "config"@,
                "file"@,
                error@,
                "fix the reported key, or pass --config to point at a different file"@,
            ),
        ],
    }
}

pub fn config_checks(loaded: &Result<Loaded, String>) -> (r: Vec<Check>)
    ensures
        findings(r@) == config_findings(*loaded),
{
    let mut checks: Vec<Check> = Vec::new();
    match loaded {
        Ok(l) => {
            if l.existed {
                checks.push(ok("config", "file", l.path.as_str()));
            } else {
                checks.push(
                    ok(
                        "config",
                        "file",
                        l.path.clone().concat(" (absent; built-in defaults)").as_str(),
                    ),
                );
            }
            let ghost first = findings(checks@);
            assert(first =~= seq![checks@[0]@]);
            let ghost warnings = text::texts(l.warnings@);
            let mut i: usize = 0;
            assert(first + unknown_key_findings(warnings.take(0)) =~= first);
            while i < l.warnings.len()
                invariant
                    i <= l.warnings.len(),
                    warnings == text::texts(l.warnings@),
                    findings(checks@) == first + unknown_key_findings(warnings.take(i as int)),
                decreases l.warnings.len() - i,
            {
                let ghost before = checks@;
                checks.push(
                    warn(
                        "config",
                        "unknown key",
                        l.warnings[i].as_str(),
                        "remove the key, or upgrade herdr-updater if it belongs to a newer build",
                    ),
                );
                i = i + 1;
                assert(findings(checks@) =~= findings(before).push(checks@.last()@));
                assert(first + unknown_key_findings(warnings.take(i as int)) =~= (first
                    + unknown_key_findings(warnings.take(i - 1))).push(checks@.last()@));
            }
            assert(warnings.take(i as int) =~= warnings);
            let ghost before = findings(checks@);
            checks.push(
                match l.value.policy {
                    Policy::Notify => ok(
                        "config",
                        "policy",
                        "notify — nothing is updated without an explicit apply",
                    ),
                    Policy::Auto => ok("config", "policy", "auto — safe updates are applied"),
                },
            );
            assert(findings(checks@) =~= before.push(checks@.last()@));
            assert(findings(checks@) =~= config_findings(*loaded));
        },
        Err(error) => {
            checks.push(
                fail(
                    "config",
                    "file",
                    error.as_str(),
                    "fix the reported key, or pass --config to point at a different file",
                ),
            );
            assert(findings(checks@) =~= config_findings(*loaded));
        },
    }
    checks
}

// ---------------------------------------------------------------------------
// Herdr

/// What looking for Herdr came to.
#[derive(Debug)]
pub enum HerdrProbe {
    Missing,
    /// Where it is, what it says of itself, and how many plugins it lists.
    Found { path: String, state: CoreState, plugins: Result<usize, String> },
}

pub open spec fn relation_name(relation: CoreRelation) -> Seq<char> {
    match relation {
        CoreRelation::Same => "Same"@,
        CoreRelation::Behind => "Behind"@,
        CoreRelation::Ahead => "Ahead"@,
        CoreRelation::Unknown => "Unknown"@,
    }
}

pub open spec fn installed_text(state: herdr::CoreFacts) -> Seq<char> {
    let version = state.installed + " (protocol "@ + text::decimal(state.protocol as nat) + ")"@;
    match state.channel {
        Some(channel) => version + ", channel "@ + channel,
        None => version,
    }
}

pub open spec fn manifest_finding(state: herdr::CoreFacts) -> Finding {
    match state.latest {
        Some(latest) => good(
            "herdr"@,
            "manifest"@,
            "latest "@ + latest + ", relation "@ + relation_name(state.relation),
        ),
        None => degraded(
            "herdr"@,
            "manifest"@,
            "herdr.dev/latest.json could not be read"@,
            "core update checks report unknown until the network is reachable"@,
        ),
    }
}

pub open spec fn update_finding(reason: Option<herdr::HoldReason>) -> Finding {
    match reason {
        None => good("herdr"@, "core update"@, "eligible to update"@),
        Some(herdr::HoldReason::UpToDate) => good("herdr"@, "core update"@, "already current"@),
        Some(herdr::HoldReason::Unorderable) => failing(
            "herdr"@,
            "core update"@,
            herdr::reason_text(herdr::HoldReason::Unorderable),
            "check that `herdr status --json` reports a version this build can parse"@,
        ),
        Some(herdr::HoldReason::NoLiveHandoff) => degraded(
            "herdr"@,
            "core update"@,
            herdr::reason_text(herdr::HoldReason::NoLiveHandoff),
            "stop the running server before updating core, or wait for a build with live handoff"@,
        ),
        Some(herdr::HoldReason::ChannelMismatch(channel)) => degraded(
            "herdr"@,
            "core update"@,
            herdr::reason_text(herdr::HoldReason::ChannelMismatch(channel)),
            "set allow_channel_mismatch = true only if latest.json describes your channel"@,
        ),
        Some(hold) => degraded(
            "herdr"@,
            "core update"@,
            herdr::reason_text(hold),
            "no action needed; core updates are held while this is true"@,
        ),
    }
}

pub open spec fn plugins_finding(plugins: Result<usize, String>) -> Finding {
    match plugins {
        Ok(n) => good("herdr"@, "plugins"@, text::decimal(n as nat) + " installed"@),
        Err(error) => failing(
            "herdr"@,
            "plugins"@,
            error@,
            "run `herdr plugin list --json` directly to see why it fails"@,
        ),
    }
}

pub open spec fn herdr_findings(
    herdr_bin: Seq<char>,
    probe: HerdrProbe,
    allow_channel_mismatch: bool,
) -> Seq<Finding> {
    match probe {
        HerdrProbe::Missing => seq![
            failing(
                "herdr"@,
                "binary"@,
                text::debug_text(herdr_bin) + " is not on PATH"@,
                "install Herdr, or set HERDR_BIN_PATH to its location"@,
            ),
        ],
        HerdrProbe::Found { path, state, plugins } => match state@.error {
            Some(error) => seq![
                good("herdr"@, "binary"@, path@),
                failing(
                    "herdr"@,
                    "status"@,
                    error,
                    "run `herdr status --json` directly and check that it is reachable"@,
                ),
            ],
            None => seq![
                good("herdr"@, "binary"@, path@),
                good("herdr"@, "installed"@, installed_text(state@)),
                manifest_finding(state@),
                update_finding(herdr::gate_reason(state@, allow_channel_mismatch)),
                plugins_finding(plugins),
            ],
        },
    }
}

fn installed_check(state: &CoreState) -> (r: Check)
    ensures
        r@ == good("herdr"@, "installed"@, installed_text(state@)),
{
    let version = state.installed.clone().concat(" (protocol ").concat(
        text::number_text(state.protocol as u64).as_str(),
    ).concat(")");
    match &state.channel {
        Some(channel) => ok(
            "herdr",
            "installed",
            version.concat(", channel ").concat(channel.as_str()).as_str(),
        ),
        None => ok("herdr", "installed", version.as_str()),
    }
}

fn manifest_check(state: &CoreState) -> (r: Check)
    ensures
        r@ == manifest_finding(state@),
{
    let relation = match state.relation {
        CoreRelation::Same => "Same",
        CoreRelation::Behind => "Behind",
        CoreRelation::Ahead => "Ahead",
        CoreRelation::Unknown => "Unknown",
    };
    match &state.latest {
        Some(latest) => ok(
            "herdr",
            "manifest",
            "latest ".to_string().concat(latest.as_str()).concat(", relation ").concat(
                relation,
            ).as_str(),
        ),
        None => warn(
            "herdr",
            "manifest",
            "herdr.dev/latest.json could not be read",
            "core update checks report unknown until the network is reachable",
        ),
    }
}

fn update_check(gate: &Result<(), Hold>) -> (r: Check)
    ensures
        r@ == update_finding(
            match *gate {
                Ok(_) => None,
                Err(hold) => Some(hold@),
            },
        ),
{
    match gate {
        Ok(_) => ok("herdr", "core update", "eligible to update"),
        Err(hold) => {
            let detail = herdr::hold_text(hold);
            match hold {
                Hold::UpToDate => ok("herdr", "core update", "already current"),
                Hold::Unorderable => fail(
                    "herdr",
                    "core update",
                    detail.as_str(),
                    "check that `herdr status --json` reports a version this build can parse",
                ),
                Hold::NoLiveHandoff => warn(
                    "herdr",
                    "core update",
                    detail.as_str(),
                    "stop the running server before updating core, or wait for a build with live handoff",
                ),
                Hold::ChannelMismatch(_) => warn(
                    "herdr",
                    "core update",
                    detail.as_str(),
                    "set allow_channel_mismatch = true only if latest.json describes your channel",
                ),
                _ => warn(
                    "herdr",
                    "core update",
                    detail.as_str(),
                    "no action needed; core updates are held while this is true",
                ),
            }
        },
    }
}

fn plugins_check(plugins: &Result<usize, String>) -> (r: Check)
    ensures
        r@ == plugins_finding(*plugins),
{
    match plugins {
        Ok(n) => ok(
            "herdr",
            "plugins",
            text::number_text(*n as u64).concat(" installed").as_str(),
        ),
        Err(error) => fail(
            "herdr",
            "plugins",
            error.as_str(),
            "run `herdr plugin list --json` directly to see why it fails",
        ),
    }
}

pub fn herdr_checks(herdr_bin: &str, probe: &HerdrProbe, allow_channel_mismatch: bool) -> (r: Vec<
    Check,
>)
    ensures
        findings(r@) == herdr_findings(herdr_bin@, *probe, allow_channel_mismatch),
{
    let mut checks: Vec<Check> = Vec::new();
    match probe {
        HerdrProbe::Missing => {
            checks.push(
                fail(
                    "herdr",
                    "binary",
                    text::quoted(herdr_bin).concat(" is not on PATH").as_str(),
                    "install Herdr, or set HERDR_BIN_PATH to its location",
                ),
            );
        },
        HerdrProbe::Found { path, state, plugins } => {
            checks.push(ok("herdr", "binary", path.as_str()));
            match &state.error {
                Some(error) => {
                    checks.push(
                        fail(
                            "herdr",
                            "status",
                            error.as_str(),
                            "run `herdr status --json` directly and check that it is reachable",
                        ),
                    );
                },
                None => {
                    checks.push(installed_check(state));
                    checks.push(manifest_check(state));
                    checks.push(update_check(&herdr::gate(state, allow_channel_mismatch)));
                    checks.push(plugins_check(plugins));
                },
            }
        },
    }
    assert(findings(checks@) =~= herdr_findings(herdr_bin@, *probe, allow_channel_mismatch));
    checks
}

// ---------------------------------------------------------------------------
// Programs

/// A program on the path, the capability it gates, and whether a check
/// depends on it.
pub struct Tool {
    pub program: &'static str,
    pub capability: &'static str,
    pub required: bool,
}

/// The programs that are looked for, in the order of the report.
pub open spec fn tool_list() -> Seq<(Seq<char>, Seq<char>, bool)> {
    seq![
        ("git"@, "resolving plugin refs against upstream"@, true),
        ("curl"@, "reading latest.json and the marketplace"@, true),
        ("gh"@, "authenticated GitHub compares with a 5000/hour budget"@, false),
        ("ssh"@, "fleet inventory and fleet sync"@, false),
        ("tar"@, "unpacking release binaries in the plugin launcher"@, false),
    ]
}

pub open spec fn tool_facts(tool: Tool) -> (Seq<char>, Seq<char>, bool) {
    (tool.program@, tool.capability@, tool.required)
}

pub fn tools() -> (r: Vec<Tool>)
    ensures
        r@.len() == tool_list().len(),
        forall|i: int| 0 <= i < r@.len() ==> tool_facts(#[trigger] r@[i]) == tool_list()[i],
{
    vec![
        Tool {
            program: "git",
            capability: "resolving plugin refs against upstream",
            required: true,
        },
        Tool {
            program: "curl",
            capability: "reading latest.json and the marketplace",
            required: true,
        },
        Tool {
            program: "gh",
            capability: "authenticated GitHub compares with a 5000/hour budget",
            required: false,
        },
        Tool { program: "ssh", capability: "fleet inventory and fleet sync", required: false },
        Tool {
            program: "tar",
            capability: "unpacking release binaries in the plugin launcher",
            required: false,
        },
    ]
}

/// Each program is reported with the capability that it gates, so a missing
/// one reads as "this feature is off".
pub open spec fn tool_finding(tool: (Seq<char>, Seq<char>, bool), present: bool) -> Finding {
    if present {
        good("tools"@, "present"@, tool.0 + " — "@ + tool.1)
    } else if tool.2 {
        failing(
            "tools"@,
            "missing"@,
            tool.0 + " is not on PATH — "@ + tool.1 + " cannot run"@,
            "install "@ + tool.0,
        )
    } else {
        degraded(
            "tools"@,
            "missing"@,
            tool.0 + " is not on PATH — "@ + tool.1 + " is unavailable"@,
            "install "@ + tool.0 + " to enable it"@,
        )
    }
}

fn tool_check(tool: &Tool, present: bool) -> (r: Check)
    ensures
        r@ == tool_finding(tool_facts(*tool), present),
{
    if present {
        ok(
            "tools",
            "present",
            tool.program.to_string().concat(" — ").concat(tool.capability).as_str(),
        )
    } else if tool.required {
        fail(
            "tools",
            "missing",
            tool.program.to_string().concat(" is not on PATH — ").concat(tool.capability).concat(
                " cannot run",
            ).as_str(),
            "install ".to_string().concat(tool.program).as_str(),
        )
    } else {
        warn(
            "tools",
            "missing",
            tool.program.to_string().concat(" is not on PATH — ").concat(tool.capability).concat(
                " is unavailable",
            ).as_str(),
            "install ".to_string().concat(tool.program).concat(" to enable it").as_str(),
        )
    }
}

/// `present` says of each program whether it is there; one that it does not
/// speak of is missing.
pub open spec fn tool_findings(present: Seq<bool>) -> Seq<Finding> {
    Seq::new(
        tool_list().len(),
        |i: int| tool_finding(tool_list()[i], i < present.len() && present[i]),
    )
}

pub fn tool_checks(present: &Vec<bool>) -> (r: Vec<Check>)
    ensures
        findings(r@) == tool_findings(present@),
{
    let all = tools();
    let mut checks: Vec<Check> = Vec::new();
    let mut i: usize = 0;
    while i < all.len()
        invariant
            i <= all.len(),
            all@.len() == tool_list().len(),
            forall|k: int|
                0 <= k < all@.len() ==> tool_facts(#[trigger] all@[k]) == tool_list()[k],
            checks@.len() == i,
            forall|k: int| 0 <= k < i ==> (#[trigger] checks@[k])@ == tool_findings(present@)[k],
        decreases all.len() - i,
    {
        checks.push(tool_check(&all[i], i < present.len() && present[i]));
        i = i + 1;
    }
    assert(findings(checks@) =~= tool_findings(present@));
    checks
}

// ---------------------------------------------------------------------------
// The request budget

/// The arguments with which `gh` asks for the budget.
pub fn gh_budget_args() -> (r: Vec<String>)
    ensures
        text::texts(r@) == seq!["api"@, "rate_limit"@],
{
    let args = vec!["api".to_string(), "rate_limit".to_string()];
    assert(text::texts(args@) =~= seq!["api"@, "rate_limit"@]);
    args
}

/// The arguments with which `curl` asks for the budget, within whole seconds,
/// at least one.
pub open spec fn curl_budget_arguments(timeout: nat) -> Seq<Seq<char>> {
    seq![
        "-fsSL"@,
        "--max-time"@,
        text::decimal(schedule::greater(timeout, 1)),
        "-H"@,
        "Accept: application/vnd.github+json"@,
        "https://api.github.com/rate_limit"@,
    ]
}

pub fn curl_budget_args(timeout: Duration) -> (r: Vec<String>)
    ensures
        text::texts(r@) == curl_budget_arguments(timeout@),
{
    let given: u64 = timeout.as_secs();
    let seconds: u64 = if given >= 1 {
        given
    } else {
        1
    };
    let args = vec![
        "-fsSL".to_string(),
        "--max-time".to_string(),
        text::number_text(seconds),
        "-H".to_string(),
        "Accept: application/vnd.github+json".to_string(),
        "https://api.github.com/rate_limit".to_string(),
    ];
    assert(text::texts(args@) =~= curl_budget_arguments(timeout@));
    args
}

/// What a request for the budget came back with.
pub open spec fn answered(run: Option<Result<Output, ExecError>>) -> Option<Seq<char>> {
    match run {
        Some(Ok(output)) if output.code == 0 => Some(output.stdout@),
        _ => None,
    }
}

/// The answer of a program that is there, ran and succeeded.
pub fn budget_response(run: &Option<Result<Output, ExecError>>) -> (r: Option<String>)
    ensures
        text::opt_text(r) == answered(*run),
{
    match run {
        Some(Ok(output)) => if output.ok() {
            Some(output.stdout.clone())
        } else {
            None
        },
        _ => None,
    }
}

/// What the answer says of the budget.
#[derive(Debug, Clone, Copy)]
pub enum Budget {
    /// There was no answer.
    Unread,
    /// The answer is not JSON.
    Garbled,
    Read { remaining: Option<u64>, limit: Option<u64>, reset: Option<u64> },
}

/// The number that a lookup found.
pub open spec fn number_of(looked_up: Result<json::Leaf, Seq<char>>) -> Option<u64> {
    match looked_up {
        Ok(leaf) => leaf.number,
        Err(_) => None,
    }
}

/// What the members of an answer come to.
pub open spec fn gathered(
    remaining: Result<json::Leaf, Seq<char>>,
    limit: Result<json::Leaf, Seq<char>>,
    reset: Result<json::Leaf, Seq<char>>,
) -> Budget {
    if remaining is Err {
        Budget::Garbled
    } else {
        Budget::Read {
            remaining: number_of(remaining),
            limit: number_of(limit),
            reset: number_of(reset),
        }
    }
}

fn found_number(looked_up: &Result<Found, String>) -> (r: Option<u64>)
    ensures
        r == number_of(json::looked_up(*looked_up)),
{
    match looked_up {
        Ok(found) => found.number,
        Err(_) => None,
    }
}

/// Gathers the budget from the members of an answer.
pub fn gather_budget(
    remaining: &Result<Found, String>,
    limit: &Result<Found, String>,
    reset: &Result<Found, String>,
) -> (r: Budget)
    ensures
        r == gathered(
            json::looked_up(*remaining),
            json::looked_up(*limit),
            json::looked_up(*reset),
        ),
{
    if remaining.is_err() {
        return Budget::Garbled;
    }
    Budget::Read {
        remaining: found_number(remaining),
        limit: found_number(limit),
        reset: found_number(reset),
    }
}

pub open spec fn budget_of(response: Option<Seq<char>>) -> Budget {
    match response {
        None => Budget::Unread,
        Some(body) => gathered(
            json::json_at(body, "/resources/core/remaining"@),
            json::json_at(body, "/resources/core/limit"@),
            json::json_at(body, "/resources/core/reset"@),
        ),
    }
}

pub fn read_budget(response: &Option<String>) -> (r: Budget)
    ensures
        r == budget_of(text::opt_text(*response)),
{
    match response {
        None => Budget::Unread,
        Some(body) => gather_budget(
            &json::look_up(body.as_str(), "/resources/core/remaining"),
            &json::look_up(body.as_str(), "/resources/core/limit"),
            &json::look_up(body.as_str(), "/resources/core/reset"),
        ),
    }
}

/// How much of the budget is left. One inspection costs one request for each
/// plugin, so a budget in single digits is about to turn a check unknown.
pub open spec fn budget_finding(budget: Budget, now: u64) -> Finding {
    match budget {
        Budget::Unread => degraded(
            "github"@,
            "budget"@,
            "GitHub API budget could not be read"@,
            "plugin comparisons will report unknown while the API is unreachable"@,
        ),
        Budget::Garbled => degraded(
            "github"@,
            "budget"@,
            "GitHub rate_limit response was not JSON"@,
            "no action needed unless plugin checks are also failing"@,
        ),
        Budget::Read { remaining: Some(remaining), limit: Some(limit), reset } => {
            let left = text::decimal(remaining as nat) + "/"@ + text::decimal(limit as nat)
                + " requests remaining"@;
            let detail = match reset {
                Some(at) => left + ", resets "@ + clock::relative_text(at as nat, now as nat),
                None => left,
            };
            if remaining < 10 {
                degraded(
                    "github"@,
                    "budget"@,
                    detail,
                    "run `gh auth login` for a 5000/hour authenticated budget"@,
                )
            } else {
                good("github"@, "budget"@, detail)
            }
        },
        _ => degraded(
            "github"@,
            "budget"@,
            "GitHub rate_limit response had no core budget"@,
            "no action needed unless plugin checks are also failing"@,
        ),
    }
}

pub fn budget_check(budget: &Budget, now: u64) -> (r: Check)
    ensures
        r@ == budget_finding(*budget, now),
{
    match budget {
        Budget::Unread => warn(
            "github",
            "budget",
            "GitHub API budget could not be read",
            "plugin comparisons will report unknown while the API is unreachable",
        ),
        Budget::Garbled => warn(
            "github",
            "budget",
            "GitHub rate_limit response was not JSON",
            "no action needed unless plugin checks are also failing",
        ),
        Budget::Read { remaining: Some(remaining), limit: Some(limit), reset } => {
            let left = text::number_text(*remaining).concat("/").concat(
                text::number_text(*limit).as_str(),
            ).concat(" requests remaining");
            let detail = match reset {
                Some(at) => left.concat(", resets ").concat(clock::relative_to(*at, now).as_str()),
                None => left,
            };
            if *remaining < 10 {
                warn(
                    "github",
                    "budget",
                    detail.as_str(),
                    "run `gh auth login` for a 5000/hour authenticated budget",
                )
            } else {
                ok("github", "budget", detail.as_str())
            }
        },
        _ => warn(
            "github",
            "budget",
            "GitHub rate_limit response had no core budget",
            "no action needed unless plugin checks are also failing",
        ),
    }
}

/// The check of the request budget, from the answer of the service.
pub fn github_budget(response: &Option<String>, now: u64) -> (r: Check)
    ensures
        r@ == budget_finding(budget_of(text::opt_text(*response)), now),
{
    budget_check(&read_budget(response), now)
}

// ---------------------------------------------------------------------------
// State and schedule

pub open spec fn history_finding(history: Result<Vec<Event>, String>, now: u64) -> Finding {
    match history {
        Ok(events) => good(
            "state"@,
            "history"@,
            if events@.len() > 0 {
                text::decimal(events@.len()) + " events, last "@ + clock::described_text(
                    events@.last().unix_seconds as nat,
                    now as nat,
                )
            } else {
                "no update history yet"@
            },
        ),
        Err(error) => failing(
            "state"@,
            "history"@,
            error@,
            "repair or remove the corrupt line; rollback reads this file"@,
        ),
    }
}

fn history_check(history: &Result<Vec<Event>, String>, now: u64) -> (r: Check)
    ensures
        r@ == history_finding(*history, now),
{
    match history {
        Ok(events) => if events.len() > 0 {
            let last: u64 = events[events.len() - 1].unix_seconds;
            ok(
                "state",
                "history",
                text::number_text(events.len() as u64).concat(" events, last ").concat(
                    clock::describe_at(last, now).as_str(),
                ).as_str(),
            )
        } else {
            ok("state", "history", "no update history yet")
        },
        Err(error) => fail(
            "state",
            "history",
            error.as_str(),
            "repair or remove the corrupt line; rollback reads this file",
        ),
    }
}

pub open spec fn installed_finding(status: Status) -> Finding {
    if status.installed {
        good("schedule"@, "installed"@, status.resource@ + " on "@ + status.platform@)
    } else {
        degraded(
            "schedule"@,
            "installed"@,
            "no background schedule on "@ + status.platform@,
            "run `herdr-updater schedule install` for unattended checks"@,
        )
    }
}

/// A due time long past is the signature of a scheduler that is installed and
/// not firing: its heartbeat is five minutes, so an hour late is not late.
pub open spec fn next_check_finding(next: u64, now: u64) -> Finding {
    if now - next > 3_600 {
        degraded(
            "schedule"@,
            "next check"@,
            "due "@ + clock::described_text(next as nat, now as nat)
                + " and still pending; the scheduler does not appear to be firing"@,
            "reinstall with `herdr-updater schedule install`, then verify the resource above is active"@,
        )
    } else {
        good("schedule"@, "next check"@, clock::described_text(next as nat, now as nat))
    }
}

pub open spec fn failures_finding(status: Status) -> Finding {
    degraded(
        "schedule"@,
        "failures"@,
        text::decimal(status.state.consecutive_failures as nat)
            + " consecutive failures, last exit code "@ + match status.state.last_exit_code {
            Some(code) => text::signed_decimal(code as int),
            None => "unknown"@,
        },
        "run `herdr-updater schedule run` by hand to see the failure"@,
    )
}

pub open spec fn schedule_findings(
    status: Result<Status, String>,
    startup_check: bool,
    now: u64,
) -> Seq<Finding> {
    match status {
        Ok(s) => {
            let first = seq![installed_finding(s)];
            let next = match s.state.next_check_unix_seconds {
                Some(at) => first.push(next_check_finding(at, now)),
                None => if startup_check {
                    first.push(
                        good(
                            "schedule"@,
                            "next check"@,
                            "not scheduled yet; the first startup check will set it"@,
                        ),
                    )
                } else {
                    first
                },
            };
            if s.state.consecutive_failures > 0 {
                next.push(failures_finding(s))
            } else {
                next
            }
        },
        Err(error) => seq![
            degraded(
                "schedule"@,
                "installed"@,
                error@,
                "run `herdr-updater schedule status` for the full error"@,
            ),
        ],
    }
}

fn next_check_check(next: u64, now: u64) -> (r: Check)
    ensures
        r@ == next_check_finding(next, now),
{
    let described = clock::describe_at(next, now);
    if now > next && now - next > 3_600 {
        warn(
            "schedule",
            "next check",
            "due ".to_string().concat(described.as_str()).concat(
                " and still pending; the scheduler does not appear to be firing",
            ).as_str(),
            "reinstall with `herdr-updater schedule install`, then verify the resource above is active",
        )
    } else {
        ok("schedule", "next check", described.as_str())
    }
}

pub fn schedule_checks(status: &Result<Status, String>, startup_check: bool, now: u64) -> (r: Vec<
    Check,
>)
    ensures
        findings(r@) == schedule_findings(*status, startup_check, now),
{
    let mut checks: Vec<Check> = Vec::new();
    match status {
        Ok(s) => {
            if s.installed {
                checks.push(
                    ok(
                        "schedule",
                        "installed",
                        s.resource.clone().concat(" on ").concat(s.platform).as_str(),
                    ),
                );
            } else {
                checks.push(
                    warn(
                        "schedule",
                        "installed",
                        "no background schedule on ".to_string().concat(s.platform).as_str(),
                        "run `herdr-updater schedule install` for unattended checks",
                    ),
                );
            }
            if let Some(next) = s.state.next_check_unix_seconds {
                checks.push(next_check_check(next, now));
            } else if startup_check {
                checks.push(
                    ok(
                        "schedule",
                        "next check",
                        "not scheduled yet; the first startup check will set it",
                    ),
                );
            }
            if s.state.consecutive_failures > 0 {
                let code = match s.state.last_exit_code {
                    Some(c) => text::signed_text(c),
                    None => "unknown".to_string(),
                };
                checks.push(
                    warn(
                        "schedule",
                        "failures",
                        text::number_text(s.state.consecutive_failures as u64).concat(
                            " consecutive failures, last exit code ",
                        ).concat(code.as_str()).as_str(),
                        "run `herdr-updater schedule run` by hand to see the failure",
                    ),
                );
            }
        },
        Err(error) => {
            checks.push(
                warn(
                    "schedule",
                    "installed",
                    error.as_str(),
                    "run `herdr-updater schedule status` for the full error",
                ),
            );
        },
    }
    assert(findings(checks@) =~= schedule_findings(*status, startup_check, now));
    checks
}

/// The updater's own state: without a directory it can write, history,
/// rollback and the schedule stop working, and nothing more is looked at.
pub open spec fn state_findings(
    directory: Seq<char>,
    writable: Result<(), String>,
    history: Result<Vec<Event>, String>,
    status: Result<Status, String>,
    startup_check: bool,
    now: u64,
) -> Seq<Finding> {
    match writable {
        Ok(_) => seq![good("state"@, "directory"@, directory), history_finding(history, now)]
            + schedule_findings(status, startup_check, now),
        Err(error) => seq![
            failing(
                "state"@,
                "directory"@,
                directory + ": "@ + error@,
                "history, rollback, and scheduled runs need this directory to be writable"@,
            ),
        ],
    }
}

fn extend(checks: &mut Vec<Check>, more: Vec<Check>)
    ensures
        findings(final(checks)@) == findings(old(checks)@) + findings(more@),
{
    let mut more = more;
    let ghost before = checks@;
    let ghost added = more@;
    checks.append(&mut more);
    assert(findings(checks@) =~= findings(before) + findings(added));
}

pub fn state_checks(
    directory: &str,
    writable: &Result<(), String>,
    history: &Result<Vec<Event>, String>,
    status: &Result<Status, String>,
    startup_check: bool,
    now: u64,
) -> (r: Vec<Check>)
    ensures
        findings(r@) == state_findings(
            directory@,
            *writable,
            *history,
            *status,
            startup_check,
            now,
        ),
{
    let mut checks: Vec<Check> = Vec::new();
    match writable {
        Ok(_) => {
            checks.push(ok("state", "directory", directory));
            checks.push(history_check(history, now));
            assert(findings(checks@) =~= seq![
                good("state"@, "directory"@, directory@),
                history_finding(*history, now),
            ]);
            extend(&mut checks, schedule_checks(status, startup_check, now));
        },
        Err(error) => {
            checks.push(
                fail(
                    "state",
                    "directory",
                    directory.to_string().concat(": ").concat(error.as_str()).as_str(),
                    "history, rollback, and scheduled runs need this directory to be writable",
                ),
            );
            assert(findings(checks@) =~= seq![checks@[0]@]);
        },
    }
    checks
}

// ---------------------------------------------------------------------------
// Fleet

/// A hosts file that is there and cannot be used leaves the fleet unknown.
pub open spec fn hosts_finding(
    hosts: nat,
    source: Option<Seq<char>>,
    fault: Option<Seq<char>>,
) -> Finding {
    match fault {
        Some(reason) => failing(
            "fleet"@,
            "hosts"@,
            reason,
            "repair the hosts file, or remove it if it is not meant"@,
        ),
        None => good(
            "fleet"@,
            "hosts"@,
            match source {
                Some(path) => text::decimal(hosts) + " host(s) from "@ + path,
                None => "no hosts file; fleet and sync inspect this machine only"@,
            },
        ),
    }
}

pub open spec fn fleet_findings(
    hosts: nat,
    source: Option<Seq<char>>,
    fault: Option<Seq<char>>,
    desired: Seq<char>,
    desired_found: bool,
) -> Seq<Finding> {
    seq![
        hosts_finding(hosts, source, fault),
        good(
            "fleet"@,
            "desired state"@,
            if desired_found {
                desired
            } else {
                desired + " (absent; derived from this host)"@
            },
        ),
    ]
}

pub fn fleet_checks(
    hosts: usize,
    source: &Option<String>,
    fault: &Option<String>,
    desired: &str,
    desired_found: bool,
) -> (r: Vec<Check>)
    ensures
        findings(r@) == fleet_findings(
            hosts as nat,
            text::opt_text(*source),
            text::opt_text(*fault),
            desired@,
            desired_found,
        ),
{
    let mut checks: Vec<Check> = Vec::new();
    match (fault, source) {
        (Some(reason), _) => checks.push(
            fail(
                "fleet",
                "hosts",
                reason.as_str(),
                "repair the hosts file, or remove it if it is not meant",
            ),
        ),
        (None, Some(path)) => checks.push(
            ok(
                "fleet",
                "hosts",
                text::number_text(hosts as u64).concat(" host(s) from ").concat(
                    path.as_str(),
                ).as_str(),
            ),
        ),
        (None, None) => checks.push(
            ok("fleet", "hosts", "no hosts file; fleet and sync inspect this machine only"),
        ),
    }
    if desired_found {
        checks.push(ok("fleet", "desired state", desired));
    } else {
        checks.push(
            ok(
                "fleet",
                "desired state",
                desired.to_string().concat(" (absent; derived from this host)").as_str(),
            ),
        );
    }
    assert(findings(checks@) =~= fleet_findings(
        hosts as nat,
        text::opt_text(*source),
        text::opt_text(*fault),
        desired@,
        desired_found,
    ));
    checks
}

// ---------------------------------------------------------------------------
// The report

#[derive(Debug)]
pub struct Report {
    pub checks: Vec<Check>,
    pub ok: usize,
    pub warnings: usize,
    pub failures: usize,
}

/// How many findings are of a level.
pub open spec fn count(found: Seq<Finding>, level: Level) -> nat
    decreases found.len(),
{
    if found.len() == 0 {
        0
    } else {
        count(found.drop_last(), level) + if found.last().level == level {
            1nat
        } else {
            0
        }
    }
}

impl Report {
    /// The counts are those of the checks.
    pub open spec fn counted(self) -> bool {
        &&& self.ok == count(findings(self.checks@), Level::Pass)
        &&& self.warnings == count(findings(self.checks@), Level::Warn)
        &&& self.failures == count(findings(self.checks@), Level::Fail)
    }
}

proof fn lemma_count(found: Seq<Finding>)
    ensures
        count(found, Level::Pass) + count(found, Level::Warn) + count(found, Level::Fail)
            == found.len(),
    decreases found.len(),
{
    if found.len() > 0 {
        lemma_count(found.drop_last());
    }
}

/// Counts the checks of a report.
pub fn report(checks: Vec<Check>) -> (r: Report)
    ensures
        r.checks == checks,
        r.counted(),
{
    let mut warnings: usize = 0;
    let mut failures: usize = 0;
    let ghost all = findings(checks@);
    let mut i: usize = 0;
    while i < checks.len()
        invariant
            i <= checks.len(),
            all == findings(checks@),
            warnings == count(all.take(i as int), Level::Warn),
            failures == count(all.take(i as int), Level::Fail),
            warnings + failures <= i,
        decreases checks.len() - i,
    {
        assert(all.take(i + 1).drop_last() =~= all.take(i as int));
        match checks[i].level {
            Level::Pass => {},
            Level::Warn => {
                warnings = warnings + 1;
            },
            Level::Fail => {
                failures = failures + 1;
            },
        }
        i = i + 1;
    }
    proof {
        assert(all.take(i as int) =~= all);
        lemma_count(all);
    }
    let passed: usize = checks.len() - failures - warnings;
    Report { checks, ok: passed, warnings, failures }
}

/// The worst level decides: 2 where a check cannot run, 1 where something
/// needs attention.
pub open spec fn report_code(found: Seq<Finding>) -> int {
    if count(found, Level::Fail) > 0 {
        2
    } else if count(found, Level::Warn) > 0 {
        1
    } else {
        0
    }
}

pub fn exit_code(report: &Report) -> (r: i32)
    requires
        report.counted(),
    ensures
        r == report_code(findings(report.checks@)),
{
    if report.failures > 0 {
        2
    } else if report.warnings > 0 {
        1
    } else {
        0
    }
}

pub open spec fn level_word(level: Level) -> Seq<char> {
    match level {
        Level::Pass => "OK"@,
        Level::Warn => "WARN"@,
        Level::Fail => "FAIL"@,
    }
}

/// The lines of one check; the remedy is set under the detail.
pub open spec fn finding_lines(found: Finding) -> Seq<Seq<char>> {
    let row = "  "@ + text::padded_right(level_word(found.level), 5) + " "@ + text::padded_right(
        found.name,
        14,
    ) + " "@ + found.detail;
    match found.remedy {
        Some(remedy) => seq![row, "                       -> "@ + remedy],
        None => seq![row],
    }
}

pub open spec fn area_before(found: Seq<Finding>) -> Seq<char> {
    if found.len() == 0 {
        seq![]
    } else {
        found.last().area
    }
}

/// The lines of the checks: each area begins with an empty line and its name.
pub open spec fn checks_lines(found: Seq<Finding>) -> Seq<Seq<char>>
    decreases found.len(),
{
    if found.len() == 0 {
        seq![]
    } else {
        let before = found.drop_last();
        let heading = if found.last().area == area_before(before) {
            seq![]
        } else {
            seq![seq![], found.last().area]
        };
        checks_lines(before) + heading + finding_lines(found.last())
    }
}

pub open spec fn report_lines(found: Seq<Finding>) -> Seq<Seq<char>> {
    checks_lines(found) + seq![
        seq![],
        text::decimal(count(found, Level::Pass)) + " ok, "@ + text::decimal(
            count(found, Level::Warn),
        ) + " warning(s), "@ + text::decimal(count(found, Level::Fail)) + " failure(s)"@,
    ]
}

fn push_check(lines: &mut Vec<String>, check: &Check)
    ensures
        text::texts(final(lines)@) == text::texts(old(lines)@) + finding_lines(check@),
{
    let ghost before = text::texts(lines@);
    let word = match check.level {
        Level::Pass => "OK",
        Level::Warn => "WARN",
        Level::Fail => "FAIL",
    };
    lines.push(
        "  ".to_string().concat(text::pad_right(word, 5).as_str()).concat(" ").concat(
            text::pad_right(check.name, 14).as_str(),
        ).concat(" ").concat(check.detail.as_str()),
    );
    if let Some(remedy) = &check.remedy {
        lines.push("                       -> ".to_string().concat(remedy.as_str()));
    }
    assert(text::texts(lines@) =~= before + finding_lines(check@));
}

/// What is printed of a report, line by line.
pub fn render(report: &Report) -> (r: Vec<String>)
    requires
        report.counted(),
    ensures
        text::texts(r@) == report_lines(findings(report.checks@)),
{
    let mut lines: Vec<String> = Vec::new();
    let mut area = "";
    let ghost all = findings(report.checks@);
    proof {
        reveal_strlit("");
        assert(area@ =~= area_before(all.take(0)));
        assert(text::texts(lines@) =~= checks_lines(all.take(0)));
    }
    let mut i: usize = 0;
    while i < report.checks.len()
        invariant
            i <= report.checks.len(),
            all == findings(report.checks@),
            area@ == area_before(all.take(i as int)),
            text::texts(lines@) == checks_lines(all.take(i as int)),
        decreases report.checks.len() - i,
    {
        let check = &report.checks[i];
        let ghost before = text::texts(lines@);
        assert(all.take(i + 1).drop_last() =~= all.take(i as int));
        assert(all.take(i + 1).last() == check@);
        if !text::text_eq(check.area, area) {
            area = check.area;
            lines.push(String::new());
            lines.push(area.to_string());
            assert(text::texts(lines@) =~= before + seq![seq![], check@.area]);
        } else {
            assert(text::texts(lines@) =~= before + Seq::<Seq<char>>::empty());
        }
        push_check(&mut lines, check);
        i = i + 1;
    }
    assert(all.take(i as int) =~= all);
    let ghost before = text::texts(lines@);
    lines.push(String::new());
    lines.push(
        text::number_text(report.ok as u64).concat(" ok, ").concat(
            text::number_text(report.warnings as u64).as_str(),
        ).concat(" warning(s), ").concat(text::number_text(report.failures as u64).as_str()).concat(
            " failure(s)",
        ),
    );
    assert(text::texts(lines@) =~= report_lines(all));
    lines
}

/// Everything that the report looks at.
#[derive(Debug)]
pub struct Survey {
    pub loaded: Result<Loaded, String>,
    pub herdr_bin: String,
    pub herdr: HerdrProbe,
    /// Of each program that is looked for, whether it is there.
    pub tools: Vec<bool>,
    /// What the service answered about the request budget.
    pub budget: Option<String>,
    pub directory: String,
    pub writable: Result<(), String>,
    pub history: Result<Vec<Event>, String>,
    pub status: Result<Status, String>,
    pub hosts: usize,
    pub hosts_source: Option<String>,
    /// Why the hosts file cannot be used, if it cannot.
    pub hosts_fault: Option<String>,
    pub desired: String,
    pub desired_found: bool,
}

pub open spec fn allows_mismatch(loaded: Result<Loaded, String>) -> bool {
    match loaded {
        Ok(l) => l.value.allow_channel_mismatch,
        Err(_) => config::default_settings().allow_channel_mismatch,
    }
}

pub open spec fn checks_at_startup(loaded: Result<Loaded, String>) -> bool {
    match loaded {
        Ok(l) => l.value.startup_check,
        Err(_) => config::default_settings().startup_check,
    }
}

/// The findings on a survey, area by area. A configuration that does not load
/// is one of them and ends nothing: the rest is judged by the defaults.
pub open spec fn survey_findings(survey: Survey, now: u64) -> Seq<Finding> {
    config_findings(survey.loaded) + herdr_findings(
        survey.herdr_bin@,
        survey.herdr,
        allows_mismatch(survey.loaded),
    ) + tool_findings(survey.tools@) + seq![
        budget_finding(budget_of(text::opt_text(survey.budget)), now),
    ] + state_findings(
        survey.directory@,
        survey.writable,
        survey.history,
        survey.status,
        checks_at_startup(survey.loaded),
        now,
    ) + fleet_findings(
        survey.hosts as nat,
        text::opt_text(survey.hosts_source),
        text::opt_text(survey.hosts_fault),
        survey.desired@,
        survey.desired_found,
    )
}

/// Runs every check on a survey.
pub fn run(survey: &Survey, now: u64) -> (r: Report)
    ensures
        findings(r.checks@) == survey_findings(*survey, now),
        r.counted(),
{
    let (allow_channel_mismatch, startup_check) = match &survey.loaded {
        Ok(l) => (l.value.allow_channel_mismatch, l.value.startup_check),
        Err(_) => {
            let defaults = Config::default();
            (defaults.allow_channel_mismatch, defaults.startup_check)
        },
    };
    let mut checks = config_checks(&survey.loaded);
    extend(
        &mut checks,
        herdr_checks(survey.herdr_bin.as_str(), &survey.herdr, allow_channel_mismatch),
    );
    extend(&mut checks, tool_checks(&survey.tools));
    let ghost before = checks@;
    checks.push(github_budget(&survey.budget, now));
    assert(findings(checks@) =~= findings(before) + seq![
        budget_finding(budget_of(text::opt_text(survey.budget)), now),
    ]);
    extend(
        &mut checks,
        state_checks(
            survey.directory.as_str(),
            &survey.writable,
            &survey.history,
            &survey.status,
            startup_check,
            now,
        ),
    );
    extend(
        &mut checks,
        fleet_checks(
            survey.hosts,
            &survey.hosts_source,
            &survey.hosts_fault,
            survey.desired.as_str(),
            survey.desired_found,
        ),
    );
    report(checks)
}

/// A finding says what to do about it exactly if it is not in order.
pub open spec fn actionable(found: Finding) -> bool {
    (found.level == Level::Pass) == (found.remedy is None)
}

pub open spec fn all_actionable(found: Seq<Finding>) -> bool {
    forall|i: int| 0 <= i < found.len() ==> actionable(#[trigger] found[i])
}

proof fn lemma_joined_actionable(a: Seq<Finding>, b: Seq<Finding>)
    requires
        all_actionable(a),
        all_actionable(b),
    ensures
        all_actionable(a + b),
{
}

proof fn lemma_config_actionable(loaded: Result<Loaded, String>)
    ensures
        all_actionable(config_findings(loaded)),
{
}

proof fn lemma_herdr_actionable(herdr_bin: Seq<char>, probe: HerdrProbe, allowed: bool)
    ensures
        all_actionable(herdr_findings(herdr_bin, probe, allowed)),
{
}

proof fn lemma_tools_actionable(present: Seq<bool>)
    ensures
        all_actionable(tool_findings(present)),
{
}

proof fn lemma_budget_actionable(budget: Budget, now: u64)
    ensures
        all_actionable(seq![budget_finding(budget, now)]),
{
}

proof fn lemma_schedule_actionable(status: Result<Status, String>, startup_check: bool, now: u64)
    ensures
        all_actionable(schedule_findings(status, startup_check, now)),
{
}

proof fn lemma_state_actionable(
    directory: Seq<char>,
    writable: Result<(), String>,
    history: Result<Vec<Event>, String>,
    status: Result<Status, String>,
    startup_check: bool,
    now: u64,
)
    ensures
        all_actionable(state_findings(directory, writable, history, status, startup_check, now)),
{
    lemma_schedule_actionable(status, startup_check, now);
    lemma_joined_actionable(
        seq![good("state"@, "directory"@, directory), history_finding(history, now)],
        schedule_findings(status, startup_check, now),
    );
}

proof fn lemma_fleet_actionable(
    hosts: nat,
    source: Option<Seq<char>>,
    fault: Option<Seq<char>>,
    desired: Seq<char>,
    desired_found: bool,
)
    ensures
        all_actionable(fleet_findings(hosts, source, fault, desired, desired_found)),
{
}

/// Everything in a report that is not in order carries a remedy.
pub proof fn law_every_problem_has_a_remedy(survey: Survey, now: u64)
    ensures
        all_actionable(survey_findings(survey, now)),
{
    let a = config_findings(survey.loaded);
    let b = herdr_findings(survey.herdr_bin@, survey.herdr, allows_mismatch(survey.loaded));
    let c = tool_findings(survey.tools@);
    let d = seq![budget_finding(budget_of(text::opt_text(survey.budget)), now)];
    let e = state_findings(
        survey.directory@,
        survey.writable,
        survey.history,
        survey.status,
        checks_at_startup(survey.loaded),
        now,
    );
    let f = fleet_findings(
        survey.hosts as nat,
        text::opt_text(survey.hosts_source),
        text::opt_text(survey.hosts_fault),
        survey.desired@,
        survey.desired_found,
    );
    lemma_config_actionable(survey.loaded);
    lemma_herdr_actionable(survey.herdr_bin@, survey.herdr, allows_mismatch(survey.loaded));
    lemma_tools_actionable(survey.tools@);
    lemma_budget_actionable(budget_of(text::opt_text(survey.budget)), now);
    lemma_state_actionable(
        survey.directory@,
        survey.writable,
        survey.history,
        survey.status,
        checks_at_startup(survey.loaded),
        now,
    );
    lemma_fleet_actionable(
        survey.hosts as nat,
        text::opt_text(survey.hosts_source),
        text::opt_text(survey.hosts_fault),
        survey.desired@,
        survey.desired_found,
    );
    lemma_joined_actionable(a, b);
    lemma_joined_actionable(a + b, c);
    lemma_joined_actionable(a + b + c, d);
    lemma_joined_actionable(a + b + c + d, e);
    lemma_joined_actionable(a + b + c + d + e, f);
}

proof fn lemma_counted(found: Seq<Finding>, level: Level)
    ensures
        (count(found, level) > 0) == exists|i: int|
            0 <= i < found.len() && (#[trigger] found[i]).level == level,
    decreases found.len(),
{
    if found.len() > 0 {
        let before = found.drop_last();
        lemma_counted(before, level);
        if count(before, level) > 0 {
            let i = choose|i: int| 0 <= i < before.len() && (#[trigger] before[i]).level == level;
            assert(found[i].level == level);
        }
        if found.last().level == level {
            assert(found[found.len() - 1].level == level);
        }
        assert forall|i: int| 0 <= i < found.len() && (#[trigger] found[i]).level == level
            && found.last().level != level implies count(before, level) > 0 by {
            assert(before[i].level == level);
        }
    }
}

/// The exit code follows the worst level present: 2 exactly where something
/// failed, 0 exactly where everything is in order.
pub proof fn law_exit_code_follows_the_worst_level(found: Seq<Finding>)
    ensures
        (report_code(found) == 2) == exists|i: int|
            0 <= i < found.len() && (#[trigger] found[i]).level == Level::Fail,
        (report_code(found) == 0) == forall|i: int|
            0 <= i < found.len() ==> (#[trigger] found[i]).level == Level::Pass,
{
    lemma_counted(found, Level::Fail);
    lemma_counted(found, Level::Warn);
}

/// A configuration that does not load is a failure, and every other area is
/// still in the report.
pub proof fn law_broken_configuration_is_reported(survey: Survey, now: u64)
    requires
        survey.loaded is Err,
    ensures
        ({
            let found = survey_findings(survey, now);
            &&& report_code(found) == 2
            &&& found[0].area == "config"@
            &&& found[1].area == "herdr"@
            &&& exists|i: int| 0 <= i < found.len() && (#[trigger] found[i]).area == "tools"@
            &&& exists|i: int| 0 <= i < found.len() && (#[trigger] found[i]).area == "github"@
            &&& exists|i: int| 0 <= i < found.len() && (#[trigger] found[i]).area == "state"@
            &&& exists|i: int| 0 <= i < found.len() && (#[trigger] found[i]).area == "fleet"@
        }),
{
    let found = survey_findings(survey, now);
    let b = herdr_findings(survey.herdr_bin@, survey.herdr, allows_mismatch(survey.loaded));
    let e = state_findings(
        survey.directory@,
        survey.writable,
        survey.history,
        survey.status,
        checks_at_startup(survey.loaded),
        now,
    );
    assert(found[0].level == Level::Fail);
    law_exit_code_follows_the_worst_level(found);
    let at = (1 + b.len()) as int;
    assert(found[at] == tool_findings(survey.tools@)[0]);
    assert(found[at + 5].area == "github"@);
    assert(found[at + 6] == e[0]);
    assert(found[at + 6 + e.len()].area == "fleet"@);
}

// ---------------------------------------------------------------------------
// What each level stands for

/// Without `git` or `curl` nothing can be checked, which is a failure; without
/// `gh`, `ssh` or `tar` a feature is off, which is a warning; and a program
/// that is there is in order. Each is named.
pub proof fn law_missing_tools_are_told(present: Seq<bool>)
    requires
        present.len() == 5,
    ensures
        ({
            let found = tool_findings(present);
            &&& found.len() == 5
            &&& forall|i: int|
                0 <= i < 5 ==> ((#[trigger] found[i]).level == Level::Pass <==> present[i])
            &&& !present[0] ==> found[0].level == Level::Fail
            &&& !present[1] ==> found[1].level == Level::Fail
            &&& !present[2] ==> found[2].level == Level::Warn
            &&& !present[3] ==> found[3].level == Level::Warn
            &&& !present[4] ==> found[4].level == Level::Warn
            &&& text::begins_with(found[0].detail, "git"@)
            &&& text::begins_with(found[1].detail, "curl"@)
            &&& text::begins_with(found[2].detail, "gh"@)
            &&& text::begins_with(found[3].detail, "ssh"@)
            &&& text::begins_with(found[4].detail, "tar"@)
        }),
{
    let found = tool_findings(present);
    assert forall|i: int| 0 <= i < 5 implies (#[trigger] found[i]).level == Level::Pass
        <==> present[i] by {
        assert(found[i] == tool_finding(tool_list()[i], present[i]));
    }
    lemma_names_tool(tool_list()[0], present[0]);
    lemma_names_tool(tool_list()[1], present[1]);
    lemma_names_tool(tool_list()[2], present[2]);
    lemma_names_tool(tool_list()[3], present[3]);
    lemma_names_tool(tool_list()[4], present[4]);
}

proof fn lemma_names_tool(tool: (Seq<char>, Seq<char>, bool), present: bool)
    ensures
        text::begins_with(tool_finding(tool, present).detail, tool.0),
{
    let detail = tool_finding(tool, present).detail;
    assert(detail.subrange(0, tool.0.len() as int) =~= tool.0);
}

/// Herdr that is missing or does not answer is a failure, and so is a list of
/// plugins or a version that cannot be read; a core that is held back is a
/// warning; one that is current or may be updated is in order.
pub proof fn law_herdr_level_follows_its_state(
    herdr_bin: Seq<char>,
    probe: HerdrProbe,
    allow_channel_mismatch: bool,
)
    ensures
        ({
            let found = herdr_findings(herdr_bin, probe, allow_channel_mismatch);
            match probe {
                HerdrProbe::Missing => found.len() == 1 && found[0].level == Level::Fail,
                HerdrProbe::Found { path, state, plugins } => {
                    &&& found[0].level == Level::Pass && found[0].detail == path@
                    &&& state.error matches Some(e) ==> found.len() == 2 && found[1].level
                        == Level::Fail && found[1].detail == e@
                    &&& state.error is None ==> {
                        let reason = herdr::gate_reason(state@, allow_channel_mismatch);
                        &&& found.len() == 5
                        &&& found[2].level == Level::Pass <==> state.latest is Some
                        &&& found[3].level == Level::Pass <==> reason is None || reason == Some(
                            herdr::HoldReason::UpToDate,
                        )
                        &&& found[3].level == Level::Fail <==> reason == Some(
                            herdr::HoldReason::Unorderable,
                        )
                        &&& reason matches Some(why) ==> found[3].detail == herdr::reason_text(why)
                        &&& found[4].level == Level::Pass <==> plugins is Ok
                        &&& found[4].level == Level::Fail <==> plugins is Err
                        &&& text::begins_with(found[1].detail, state.installed@)
                    }
                },
            }
        }),
{
    if let HerdrProbe::Found { path, state, plugins } = probe {
        let detail = installed_text(state@);
        assert(detail.subrange(0, state.installed@.len() as int) =~= state.installed@);
    }
}

/// A configuration that loads is in order, each key that it does not know a
/// warning, and one that does not load a failure that says why.
pub proof fn law_configuration_level(loaded: Result<Loaded, String>)
    ensures
        ({
            let found = config_findings(loaded);
            match loaded {
                Err(e) => found.len() == 1 && found[0].level == Level::Fail && found[0].detail
                    == e@,
                Ok(l) => {
                    &&& found.len() == l.warnings@.len() + 2
                    &&& found[0].level == Level::Pass && text::begins_with(found[0].detail, l.path@)
                    &&& forall|i: int|
                        0 < i <= l.warnings@.len() ==> (#[trigger] found[i]).level == Level::Warn
                            && found[i].detail == l.warnings@[i - 1]@
                    &&& found.last().level == Level::Pass
                },
            }
        }),
{
    if let Ok(l) = loaded {
        let found = config_findings(loaded);
        assert(found[0].detail.subrange(0, l.path@.len() as int) =~= l.path@);
        assert forall|i: int| 0 < i <= l.warnings@.len() implies (#[trigger] found[i]).level
            == Level::Warn && found[i].detail == l.warnings@[i - 1]@ by {
            assert(found[i] == unknown_key_findings(text::texts(l.warnings@))[i - 1]);
        }
    }
}

/// A budget is in order exactly where it was read and ten requests are left at
/// least; it never fails a report.
pub proof fn law_low_budget_is_a_warning(budget: Budget, now: u64)
    ensures
        budget_finding(budget, now).level == Level::Pass <==> (budget matches Budget::Read {
            remaining: Some(left),
            limit: Some(_),
            ..
        } && left >= 10),
        budget_finding(budget, now).level != Level::Fail,
        budget matches Budget::Read { remaining: Some(left), limit: Some(all), .. }
            ==> text::begins_with(
            budget_finding(budget, now).detail,
            text::decimal(left as nat) + "/"@ + text::decimal(all as nat),
        ),
{
    if let Budget::Read { remaining: Some(left), limit: Some(all), reset } = budget {
        let shown = text::decimal(left as nat) + "/"@ + text::decimal(all as nat);
        let detail = budget_finding(budget, now).detail;
        assert(detail.subrange(0, shown.len() as int) =~= shown);
    }
}

/// The budget is that of the core requests: what is left, of how many, and when
/// it starts anew.
pub proof fn law_budget_is_that_of_core_requests(
    body: Seq<char>,
    left: json::Leaf,
    all: json::Leaf,
    at: json::Leaf,
)
    requires
        json::json_at(body, "/resources/core/remaining"@) == Ok::<json::Leaf, Seq<char>>(left),
        json::json_at(body, "/resources/core/limit"@) == Ok::<json::Leaf, Seq<char>>(all),
        json::json_at(body, "/resources/core/reset"@) == Ok::<json::Leaf, Seq<char>>(at),
    ensures
        budget_of(Some(body)) == (Budget::Read {
            remaining: left.number,
            limit: all.number,
            reset: at.number,
        }),
        budget_of(None) == Budget::Unread,
{
}

/// A directory that cannot be written and a history that cannot be read are
/// failures.
pub proof fn law_state_level(
    directory: Seq<char>,
    writable: Result<(), String>,
    history: Result<Vec<Event>, String>,
    status: Result<Status, String>,
    startup_check: bool,
    now: u64,
)
    ensures
        ({
            let found = state_findings(directory, writable, history, status, startup_check, now);
            &&& writable is Err ==> found.len() == 1 && found[0].level == Level::Fail
            &&& writable is Ok ==> found[0].level == Level::Pass && (found[1].level == Level::Pass
                <==> history is Ok) && (found[1].level == Level::Fail <==> history is Err)
                && found.skip(2) == schedule_findings(status, startup_check, now)
            &&& history matches Err(e) ==> writable is Ok ==> found[1].detail == e@
        }),
{
    let found = state_findings(directory, writable, history, status, startup_check, now);
    if writable is Ok {
        assert(found.skip(2) =~= schedule_findings(status, startup_check, now));
    }
}

/// A schedule that is not installed, is more than an hour late, or failed last
/// time is warned of; otherwise it is in order.
pub proof fn law_schedule_that_does_not_fire_is_told(status: Status, startup_check: bool, now: u64)
    ensures
        ({
            let found = schedule_findings(Ok(status), startup_check, now);
            &&& found[0].level == Level::Pass <==> status.installed
            &&& status.state.next_check_unix_seconds matches Some(next) ==> (found[1].level
                == Level::Warn <==> now > next + 3_600) && (found[1].level == Level::Pass <==> now
                <= next + 3_600)
            &&& status.state.consecutive_failures > 0 ==> found.last().level == Level::Warn
                && text::begins_with(
                found.last().detail,
                text::decimal(status.state.consecutive_failures as nat),
            )
            &&& status.installed && status.state.consecutive_failures == 0 && (
            status.state.next_check_unix_seconds matches Some(next) ==> now <= next + 3_600)
                ==> forall|i: int| 0 <= i < found.len() ==> (#[trigger] found[i]).level == Level::Pass
        }),
{
    if status.state.consecutive_failures > 0 {
        let shown = text::decimal(status.state.consecutive_failures as nat);
        let detail = failures_finding(status).detail;
        assert(detail.subrange(0, shown.len() as int) =~= shown);
    }
}

/// A hosts file that cannot be used is a failure that says why.
pub proof fn law_unusable_hosts_are_a_failure(
    hosts: nat,
    source: Option<Seq<char>>,
    fault: Option<Seq<char>>,
)
    ensures
        hosts_finding(hosts, source, fault).level == Level::Fail <==> fault is Some,
        fault matches Some(reason) ==> hosts_finding(hosts, source, fault).detail == reason,
        fault is None && source is Some ==> hosts_finding(hosts, source, fault).detail
            == text::decimal(hosts) + " host(s) from "@ + source->0,
{
}

/// Every finding is counted once, under its level.
pub proof fn law_every_finding_is_counted(found: Seq<Finding>)
    ensures
        count(found, Level::Pass) + count(found, Level::Warn) + count(found, Level::Fail)
            == found.len(),
    decreases found.len(),
{
    if found.len() > 0 {
        law_every_finding_is_counted(found.drop_last());
    }
}

/// The report shows every finding: its level, its name and its detail, and
/// under it what to do; and ends in the counts.
pub proof fn law_report_shows_every_finding(found: Seq<Finding>, one: Finding)
    ensures
        ({
            let own = finding_lines(one);
            &&& exists|heading: Seq<Seq<char>>| #[trigger]
                checks_lines(found.push(one)) == checks_lines(found) + heading + own
            &&& one.level == Level::Pass ==> text::begins_with(own[0], "  OK"@)
            &&& one.level == Level::Warn ==> text::begins_with(own[0], "  WARN"@)
            &&& one.level == Level::Fail ==> text::begins_with(own[0], "  FAIL"@)
            &&& text::has_text(own[0], " "@ + one.name)
            &&& text::finishes_with(own[0], " "@ + one.detail)
            &&& one.remedy matches Some(remedy) ==> own.len() == 2 && text::finishes_with(
                own[1],
                "-> "@ + remedy,
            )
            &&& one.remedy is None ==> own.len() == 1
        }),
        report_lines(found).last() == text::decimal(count(found, Level::Pass)) + " ok, "@
            + text::decimal(count(found, Level::Warn)) + " warning(s), "@ + text::decimal(
            count(found, Level::Fail),
        ) + " failure(s)"@,
{
    assert(found.push(one).drop_last() =~= found);
    let heading = if one.area == area_before(found) {
        seq![]
    } else {
        seq![seq![], one.area]
    };
    assert(checks_lines(found.push(one)) == checks_lines(found) + heading + finding_lines(one));
    let row = finding_lines(one)[0];
    reveal_strlit("  ");
    reveal_strlit(" ");
    reveal_strlit("OK");
    reveal_strlit("WARN");
    reveal_strlit("FAIL");
    reveal_strlit("  OK");
    reveal_strlit("  WARN");
    reveal_strlit("  FAIL");
    let word = level_word(one.level);
    let head = "  "@ + word;
    assert(row.subrange(0, head.len() as int) =~= head);
    assert("  OK"@ =~= "  "@ + "OK"@);
    assert("  WARN"@ =~= "  "@ + "WARN"@);
    assert("  FAIL"@ =~= "  "@ + "FAIL"@);
    let start = "  "@ + text::padded_right(word, 5);
    let named = " "@ + one.name;
    let at = start.len() as int;
    assert(row.subrange(at, at + named.len()) =~= named);
    assert(text::occurs_at(row, named, at));
    let end = " "@ + one.detail;
    assert(row.subrange(row.len() - end.len(), row.len() as int) =~= end);
    if let Some(remedy) = one.remedy {
        reveal_strlit("                       -> ");
        reveal_strlit("-> ");
        let line = finding_lines(one)[1];
        let tail = "-> "@ + remedy;
        assert(line.subrange(line.len() - tail.len(), line.len() as int) =~= tail);
    }
}

/// A relation goes by its own name.
pub proof fn law_relations_have_their_names()
    ensures
        relation_name(CoreRelation::Same) == "Same"@,
        relation_name(CoreRelation::Behind) == "Behind"@,
        relation_name(CoreRelation::Ahead) == "Ahead"@,
        relation_name(CoreRelation::Unknown) == "Unknown"@,
{
}

/// An answer is what a request that succeeded printed.
pub proof fn law_only_success_is_an_answer(run: Result<Output, ExecError>, timeout: nat)
    ensures
        answered(None) is None,
        answered(Some(run)) is Some <==> (run matches Ok(out) && out.code == 0),
        answered(Some(run)) matches Some(said) ==> said == run->Ok_0.stdout@,
        curl_budget_arguments(timeout).last() == "https://api.github.com/rate_limit"@,
        timeout >= 1 ==> curl_budget_arguments(timeout)[2] == text::decimal(timeout),
        timeout == 0 ==> curl_budget_arguments(timeout)[2] == text::decimal(1),
{
}

/// The counts of a report are those of its findings: it counts a failure exactly
/// where it holds one, and together they count every finding.
pub proof fn law_report_counts_truly(report: Report, i: int)
    requires
        report.counted(),
        0 <= i < report.checks@.len(),
    ensures
        report.checks@[i].level == Level::Fail ==> report.failures > 0,
        report.checks@[i].level == Level::Warn ==> report.warnings > 0,
        report.checks@[i].level == Level::Pass ==> report.ok > 0,
        report.ok + report.warnings + report.failures == report.checks@.len(),
{
    lemma_counts_add_up(findings(report.checks@));
    assert(findings(report.checks@)[i].level == report.checks@[i].level);
    lemma_count_of_member(findings(report.checks@), i);
}

proof fn lemma_counts_add_up(all: Seq<Finding>)
    ensures
        count(all, Level::Pass) + count(all, Level::Warn) + count(all, Level::Fail) == all.len(),
    decreases all.len(),
{
    if all.len() > 0 {
        lemma_counts_add_up(all.drop_last());
    }
}

proof fn lemma_count_of_member(all: Seq<Finding>, i: int)
    requires
        0 <= i < all.len(),
    ensures
        count(all, all[i].level) > 0,
    decreases all.len(),
{
    if i < all.len() - 1 {
        lemma_count_of_member(all.drop_last(), i);
    }
}

/// The history is told with the number of its events and the time of the last,
/// or that there is none.
pub proof fn law_history_is_told(events: Vec<Event>, now: u64)
    ensures
        events@.len() == 0 ==> history_finding(Ok(events), now).detail == "no update history yet"@,
        events@.len() > 0 ==> text::begins_with(
            history_finding(Ok(events), now).detail,
            text::decimal(events@.len()) + " events, last "@,
        ) && text::finishes_with(
            history_finding(Ok(events), now).detail,
            clock::described_text(events@.last().unix_seconds as nat, now as nat),
        ),
{
    if events@.len() > 0 {
        let head = text::decimal(events@.len()) + " events, last "@;
        let tail = clock::described_text(events@.last().unix_seconds as nat, now as nat);
        let detail = history_finding(Ok(events), now).detail;
        assert(detail =~= head + tail);
        assert(detail.subrange(0, head.len() as int) =~= head);
        assert(detail.subrange(detail.len() - tail.len(), detail.len() as int) =~= tail);
    }
}

} // verus!
