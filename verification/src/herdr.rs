//! Herdr core: version and protocol, not plugins.
//!
//! Plugin updates are the easy half. Herdr itself is the component whose
//! version actually breaks things: the wire protocol lives here, and a protocol
//! mismatch takes out `herdr --remote` between two hosts at once.

use crate::exec::{self, ExecError, Output};
use crate::text::{self, CharClass};
use crate::version;
use std::cmp::Ordering;
use vstd::prelude::*;
use vstd::string::*;

verus! {

/// The channel that <https://herdr.dev/latest.json> describes. A client that
/// tracks anything else is being compared against a manifest that does not
/// describe it, which is not a comparison at all.
pub const MANIFEST_CHANNEL: &'static str = "stable";

/// What `herdr status --json` says, as far as it is acted on.
#[derive(Debug)]
pub struct StatusJson {
    pub client: ClientStatus,
    pub server: Option<ServerStatus>,
}

#[derive(Debug)]
pub struct ClientStatus {
    pub version: String,
    pub channel: Option<String>,
    pub protocol: u32,
    pub binary: Option<String>,
}

#[derive(Debug)]
pub struct ServerStatus {
    pub status: Option<String>,
    pub running: bool,
    pub version: Option<String>,
    pub protocol: Option<u32>,
    pub compatible: Option<bool>,
    pub capabilities: Capabilities,
    pub restart_needed: bool,
}

#[derive(Debug, Clone, Copy, PartialEq, Eq, Structural)]
pub struct Capabilities {
    /// When false, `herdr update --handoff` cannot hand off and the update
    /// drops every attached client. A running server without this is not
    /// updated.
    pub live_handoff: bool,
    pub detached_server_daemon: bool,
}

impl Default for Capabilities {
    fn default() -> (r: Self)
        ensures
            !r.live_handoff,
            !r.detached_server_daemon,
    {
        Capabilities { live_handoff: false, detached_server_daemon: false }
    }
}

/// The release manifest, which `herdr update` itself reads.
#[derive(Debug)]
pub struct Manifest {
    pub version: String,
    pub protocol: u32,
}

/// How the installed core relates to the release manifest.
#[derive(Debug, Clone, Copy, PartialEq, Eq, Structural)]
pub enum CoreRelation {
    /// Installed and published versions are the same.
    Same,
    /// The manifest is newer: the only relation that may be applied.
    Behind,
    /// The installed core is newer than the manifest.
    Ahead,
    /// At least one side could not be ordered, so there is no relation.
    Unknown,
}

/// What was found out about Herdr on one host.
#[derive(Debug)]
pub struct CoreState {
    pub installed: String,
    pub channel: Option<String>,
    pub binary: Option<String>,
    pub protocol: u32,
    pub server_status: Option<String>,
    pub server_running: bool,
    pub server_version: Option<String>,
    pub server_protocol: Option<u32>,
    pub compatible: Option<bool>,
    pub live_handoff: bool,
    pub detached_server_daemon: bool,
    pub restart_needed: bool,
    pub latest: Option<String>,
    pub latest_protocol: Option<u32>,
    /// How `installed` orders against `latest`. `update_available` is exactly
    /// `relation == Behind`; it is never inferred from inequality.
    pub relation: CoreRelation,
    /// The client tracks a channel this manifest does not describe.
    pub channel_mismatch: bool,
    pub update_available: bool,
    /// Updating would move the wire protocol.
    pub protocol_change: bool,
    pub error: Option<String>,
}

/// The facts in a core state.
pub struct CoreFacts {
    pub installed: Seq<char>,
    pub channel: Option<Seq<char>>,
    pub binary: Option<Seq<char>>,
    pub protocol: u32,
    pub server_status: Option<Seq<char>>,
    pub server_running: bool,
    pub server_version: Option<Seq<char>>,
    pub server_protocol: Option<u32>,
    pub compatible: Option<bool>,
    pub live_handoff: bool,
    pub detached_server_daemon: bool,
    pub restart_needed: bool,
    pub latest: Option<Seq<char>>,
    pub latest_protocol: Option<u32>,
    pub relation: CoreRelation,
    pub channel_mismatch: bool,
    pub update_available: bool,
    pub protocol_change: bool,
    pub error: Option<Seq<char>>,
}

impl View for CoreState {
    type V = CoreFacts;

    open spec fn view(&self) -> CoreFacts {
        CoreFacts {
            installed: self.installed@,
            channel: text::opt_text(self.channel),
            binary: text::opt_text(self.binary),
            protocol: self.protocol,
            server_status: text::opt_text(self.server_status),
            server_running: self.server_running,
            server_version: text::opt_text(self.server_version),
            server_protocol: self.server_protocol,
            compatible: self.compatible,
            live_handoff: self.live_handoff,
            detached_server_daemon: self.detached_server_daemon,
            restart_needed: self.restart_needed,
            latest: text::opt_text(self.latest),
            latest_protocol: self.latest_protocol,
            relation: self.relation,
            channel_mismatch: self.channel_mismatch,
            update_available: self.update_available,
            protocol_change: self.protocol_change,
            error: text::opt_text(self.error),
        }
    }
}

impl Clone for CoreState {
    fn clone(&self) -> (r: Self)
        ensures
            r == *self,
    {
        CoreState {
            installed: self.installed.clone(),
            channel: text::clone_option(&self.channel),
            binary: text::clone_option(&self.binary),
            protocol: self.protocol,
            server_status: text::clone_option(&self.server_status),
            server_running: self.server_running,
            server_version: text::clone_option(&self.server_version),
            server_protocol: self.server_protocol,
            compatible: self.compatible,
            live_handoff: self.live_handoff,
            detached_server_daemon: self.detached_server_daemon,
            restart_needed: self.restart_needed,
            latest: text::clone_option(&self.latest),
            latest_protocol: self.latest_protocol,
            relation: self.relation,
            channel_mismatch: self.channel_mismatch,
            update_available: self.update_available,
            protocol_change: self.protocol_change,
            error: text::clone_option(&self.error),
        }
    }
}

// ---------------------------------------------------------------------------
// Reading the status and the manifest

pub open spec fn status_failure(run: Result<Output, ExecError>) -> Option<Seq<char>> {
    match run {
        Err(e) => Some("herdr status: "@ + exec::exec_error_text(e)),
        Ok(out) => if out.code != 0 {
            Some(
                "herdr status exited "@ + text::signed_decimal(out.code as int) + ": "@
                    + text::first_line_or(text::trimmed(out.stderr@), "(no stderr)"@),
            )
        } else {
            None
        },
    }
}

/// What `herdr status --json` came to, from how it ran and from what its
/// output parsed to.
pub fn status(run: &Result<Output, ExecError>, parsed: Result<StatusJson, String>) -> (r: Result<
    StatusJson,
    String,
>)
    ensures
        match (status_failure(*run), parsed) {
            (Some(failure), _) => r matches Err(e) && e@ == failure,
            (None, Err(error)) => r matches Err(e) && e@ == "herdr status --json is not JSON: "@
                + error@,
            (None, Ok(status)) => r == Ok::<StatusJson, String>(status),
        },
{
    match run {
        Err(e) => Err("herdr status: ".to_string().concat(e.describe().as_str())),
        Ok(out) => {
            if !out.ok() {
                return Err(
                    "herdr status exited ".to_string().concat(
                        text::signed_text(out.code).as_str(),
                    ).concat(": ").concat(
                        text::first_line(
                            text::trim(out.stderr.as_str()),
                            "(no stderr)",
                        ).as_str(),
                    ),
                );
            }
            match parsed {
                Ok(status) => Ok(status),
                Err(error) => Err(
                    "herdr status --json is not JSON: ".to_string().concat(error.as_str()),
                ),
            }
        },
    }
}

/// The arguments of `curl` that fetch the manifest.
pub fn manifest_args() -> (r: Vec<String>)
    ensures
        text::texts(r@) == seq!["-fsSL"@, "--max-time"@, "20"@, "https://herdr.dev/latest.json"@],
{
    let r = vec![
        "-fsSL".to_string(),
        "--max-time".to_string(),
        "20".to_string(),
        "https://herdr.dev/latest.json".to_string(),
    ];
    assert(text::texts(r@) =~= seq![
        "-fsSL"@,
        "--max-time"@,
        "20"@,
        "https://herdr.dev/latest.json"@,
    ]);
    r
}

pub open spec fn manifest_failure(have_curl: bool, run: Result<Output, ExecError>) -> Option<
    Seq<char>,
> {
    if !have_curl {
        Some("curl is not on PATH — cannot read herdr.dev/latest.json"@)
    } else {
        match run {
            Err(e) => Some("fetching latest.json: "@ + exec::exec_error_text(e)),
            Ok(out) => if out.code != 0 {
                Some("latest.json fetch exited "@ + text::signed_decimal(out.code as int))
            } else {
                None
            },
        }
    }
}

/// What fetching the manifest came to, from whether `curl` is there, how it
/// ran, and what its output parsed to.
pub fn manifest(
    have_curl: bool,
    run: &Result<Output, ExecError>,
    parsed: Result<Manifest, String>,
) -> (r: Result<Manifest, String>)
    ensures
        match (manifest_failure(have_curl, *run), parsed) {
            (Some(failure), _) => r matches Err(e) && e@ == failure,
            (None, Err(error)) => r matches Err(e) && e@ == "latest.json is not JSON: "@ + error@,
            (None, Ok(manifest)) => r == Ok::<Manifest, String>(manifest),
        },
{
    if !have_curl {
        return Err("curl is not on PATH — cannot read herdr.dev/latest.json".to_string());
    }
    match run {
        Err(e) => Err("fetching latest.json: ".to_string().concat(e.describe().as_str())),
        Ok(out) => {
            if !out.ok() {
                return Err(
                    "latest.json fetch exited ".to_string().concat(
                        text::signed_text(out.code).as_str(),
                    ),
                );
            }
            match parsed {
                Ok(manifest) => Ok(manifest),
                Err(error) => Err("latest.json is not JSON: ".to_string().concat(error.as_str())),
            }
        },
    }
}

// ---------------------------------------------------------------------------
// The verdict

/// How the installed version orders against the published one.
pub open spec fn relation_of(installed: Seq<char>, latest: Seq<char>) -> CoreRelation {
    match version::compared(installed, latest) {
        Some(Ordering::Equal) => CoreRelation::Same,
        Some(Ordering::Less) => CoreRelation::Behind,
        Some(Ordering::Greater) => CoreRelation::Ahead,
        None => CoreRelation::Unknown,
    }
}

/// Orders the installed version against the published one.
pub fn relate(installed: &str, latest: &str) -> (r: CoreRelation)
    ensures
        r == relation_of(installed@, latest@),
{
    match version::compare(installed, latest) {
        Some(Ordering::Equal) => CoreRelation::Same,
        Some(Ordering::Less) => CoreRelation::Behind,
        Some(Ordering::Greater) => CoreRelation::Ahead,
        None => CoreRelation::Unknown,
    }
}

/// A host on which the status itself could not be read.
pub open spec fn errored_facts(message: Seq<char>) -> CoreFacts {
    CoreFacts {
        installed: seq![],
        channel: None,
        binary: None,
        protocol: 0,
        server_status: None,
        server_running: false,
        server_version: None,
        server_protocol: None,
        compatible: None,
        live_handoff: false,
        detached_server_daemon: false,
        restart_needed: false,
        latest: None,
        latest_protocol: None,
        relation: CoreRelation::Unknown,
        channel_mismatch: false,
        update_available: false,
        protocol_change: false,
        error: Some(message),
    }
}

/// What the status alone says.
pub open spec fn status_facts(status: StatusJson) -> CoreFacts {
    let base = CoreFacts {
        installed: status.client.version@,
        channel: text::opt_text(status.client.channel),
        binary: text::opt_text(status.client.binary),
        protocol: status.client.protocol,
        ..errored_facts(seq![])
    };
    let base = CoreFacts { error: None, ..base };
    match status.server {
        None => base,
        Some(server) => CoreFacts {
            server_status: text::opt_text(server.status),
            server_running: server.running,
            server_version: text::opt_text(server.version),
            server_protocol: server.protocol,
            compatible: server.compatible,
            live_handoff: server.capabilities.live_handoff,
            detached_server_daemon: server.capabilities.detached_server_daemon,
            restart_needed: server.restart_needed,
            ..base
        },
    }
}

/// The client names a channel other than the one the manifest describes.
pub open spec fn tracks_other_channel(channel: Option<Seq<char>>) -> bool {
    channel matches Some(c) && text::lowercase(c) != text::lowercase(MANIFEST_CHANNEL@)
}

/// The status seen against the manifest. A manifest that could not be fetched
/// leaves no update and an error.
pub open spec fn core_facts(
    status: Result<StatusJson, String>,
    manifest: Result<Manifest, String>,
) -> CoreFacts {
    match (status, manifest) {
        (Err(e), _) => errored_facts(e@),
        (Ok(s), Err(e)) => CoreFacts { error: Some(e@), ..status_facts(s) },
        (Ok(s), Ok(m)) => {
            let relation = relation_of(s.client.version@, m.version@);
            CoreFacts {
                relation,
                update_available: relation == CoreRelation::Behind,
                channel_mismatch: tracks_other_channel(text::opt_text(s.client.channel)),
                protocol_change: m.protocol != s.client.protocol,
                latest: Some(m.version@),
                latest_protocol: Some(m.protocol),
                ..status_facts(s)
            }
        },
    }
}

fn errored(message: String) -> (r: CoreState)
    ensures
        r@ == errored_facts(message@),
{
    let r = CoreState {
        installed: String::new(),
        channel: None,
        binary: None,
        protocol: 0,
        server_status: None,
        server_running: false,
        server_version: None,
        server_protocol: None,
        compatible: None,
        live_handoff: false,
        detached_server_daemon: false,
        restart_needed: false,
        latest: None,
        latest_protocol: None,
        relation: CoreRelation::Unknown,
        channel_mismatch: false,
        update_available: false,
        protocol_change: false,
        error: Some(message),
    };
    assert(r.installed@ =~= seq![]);
    r
}

fn from_status(status: StatusJson) -> (r: CoreState)
    ensures
        r@ == status_facts(status),
{
    let mut r = errored(String::new());
    r.error = None;
    r.installed = status.client.version;
    r.channel = status.client.channel;
    r.binary = status.client.binary;
    r.protocol = status.client.protocol;
    if let Some(server) = status.server {
        r.server_status = server.status;
        r.server_running = server.running;
        r.server_version = server.version;
        r.server_protocol = server.protocol;
        r.compatible = server.compatible;
        r.live_handoff = server.capabilities.live_handoff;
        r.detached_server_daemon = server.capabilities.detached_server_daemon;
        r.restart_needed = server.restart_needed;
    }
    r
}

/// Combines local status with the upstream manifest into one verdict.
///
/// A manifest that could not be fetched is not fatal: what is installed is
/// still reported, with no update and the error. Reporting "no update" on a
/// dead network is the safe degradation.
pub fn inspect(status: Result<StatusJson, String>, manifest: Result<Manifest, String>) -> (r:
    CoreState)
    ensures
        r@ == core_facts(status, manifest),
{
    let status = match status {
        Ok(status) => status,
        Err(e) => {
            return errored(e);
        },
    };
    let mut state = from_status(status);
    match manifest {
        Ok(m) => {
            state.relation = relate(state.installed.as_str(), m.version.as_str());
            state.update_available = state.relation == CoreRelation::Behind;
            state.channel_mismatch = match &state.channel {
                Some(channel) => !text::eq_ignore_case(channel.as_str(), MANIFEST_CHANNEL),
                None => false,
            };
            state.protocol_change = m.protocol != state.protocol;
            state.latest = Some(m.version);
            state.latest_protocol = Some(m.protocol);
        },
        Err(e) => {
            state.error = Some(e);
        },
    }
    state
}

/// Why an update is held back. Returned instead of a bare `bool` so the report
/// can say which guard fired.
#[derive(Debug, Clone, PartialEq)]
pub enum Hold {
    /// Already current.
    UpToDate,
    /// The installed core is newer than the published one. Applying here would
    /// be a downgrade.
    LocalIsAhead,
    /// One of the two versions does not parse, so there is no ordering to act
    /// on. Reported separately from a failed fetch because the remedy differs.
    Unorderable,
    /// The client tracks a channel the manifest does not describe, so "latest"
    /// is latest for somebody else.
    ChannelMismatch(String),
    /// A server is running but this build cannot hand off, so updating would
    /// drop every attached client and every pane process with it.
    NoLiveHandoff,
    /// The check itself failed; nothing acts on an unknown.
    Unknown(String),
}

/// The reason in a hold.
pub enum HoldReason {
    UpToDate,
    LocalIsAhead,
    Unorderable,
    ChannelMismatch(Seq<char>),
    NoLiveHandoff,
    Unknown(Seq<char>),
}

impl View for Hold {
    type V = HoldReason;

    open spec fn view(&self) -> HoldReason {
        match *self {
            Hold::UpToDate => HoldReason::UpToDate,
            Hold::LocalIsAhead => HoldReason::LocalIsAhead,
            Hold::Unorderable => HoldReason::Unorderable,
            Hold::ChannelMismatch(channel) => HoldReason::ChannelMismatch(channel@),
            Hold::NoLiveHandoff => HoldReason::NoLiveHandoff,
            Hold::Unknown(error) => HoldReason::Unknown(error@),
        }
    }
}

pub open spec fn reason_text(reason: HoldReason) -> Seq<char> {
    match reason {
        HoldReason::UpToDate => "already current"@,
        HoldReason::LocalIsAhead =>
            "installed core is newer than the release manifest; refusing to downgrade"@,
        HoldReason::Unorderable =>
            "installed and published versions cannot be ordered; not treating that as current"@,
        HoldReason::ChannelMismatch(channel) => "client tracks the "@ + text::debug_text(channel)
            + " channel but latest.json describes "@ + text::debug_text(MANIFEST_CHANNEL@),
        HoldReason::NoLiveHandoff => "running server cannot live-handoff"@,
        HoldReason::Unknown(error) => error,
    }
}

/// One sentence per hold, written for the person reading the report.
pub fn hold_text(hold: &Hold) -> (r: String)
    ensures
        r@ == reason_text(hold@),
{
    match hold {
        Hold::UpToDate => "already current".to_string(),
        Hold::LocalIsAhead =>
            "installed core is newer than the release manifest; refusing to downgrade".to_string(),
        Hold::Unorderable =>
            "installed and published versions cannot be ordered; not treating that as current".to_string(),
        Hold::ChannelMismatch(channel) => "client tracks the ".to_string().concat(
            text::quoted(channel.as_str()).as_str(),
        ).concat(" channel but latest.json describes ").concat(
            text::quoted(MANIFEST_CHANNEL).as_str(),
        ),
        Hold::NoLiveHandoff => "running server cannot live-handoff".to_string(),
        Hold::Unknown(error) => error.clone(),
    }
}

/// Why core may not be updated, if it may not.
pub open spec fn gate_reason(state: CoreFacts, allow_channel_mismatch: bool) -> Option<
    HoldReason,
> {
    match state.error {
        Some(error) => Some(HoldReason::Unknown(error)),
        None => match state.relation {
            CoreRelation::Unknown => Some(HoldReason::Unorderable),
            CoreRelation::Ahead => Some(HoldReason::LocalIsAhead),
            CoreRelation::Same => Some(HoldReason::UpToDate),
            CoreRelation::Behind => if state.channel_mismatch && !allow_channel_mismatch {
                Some(
                    HoldReason::ChannelMismatch(
                        match state.channel {
                            Some(channel) => channel,
                            None => "unknown"@,
                        },
                    ),
                )
            } else if state.server_running && !state.live_handoff {
                Some(HoldReason::NoLiveHandoff)
            } else {
                None
            },
        },
    }
}

/// Decides whether Herdr core may be updated on this host, on its own merits.
pub fn gate(state: &CoreState, allow_channel_mismatch: bool) -> (r: Result<(), Hold>)
    ensures
        match r {
            Ok(()) => gate_reason(state@, allow_channel_mismatch) is None,
            Err(hold) => gate_reason(state@, allow_channel_mismatch) == Some(hold@),
        },
{
    if let Some(e) = &state.error {
        return Err(Hold::Unknown(e.clone()));
    }
    match state.relation {
        // Checked before `UpToDate`: an unorderable pair is not "no update
        // needed".
        CoreRelation::Unknown => {
            return Err(Hold::Unorderable);
        },
        CoreRelation::Ahead => {
            return Err(Hold::LocalIsAhead);
        },
        CoreRelation::Same => {
            return Err(Hold::UpToDate);
        },
        CoreRelation::Behind => {},
    }
    if state.channel_mismatch && !allow_channel_mismatch {
        return Err(
            Hold::ChannelMismatch(
                match &state.channel {
                    Some(channel) => channel.clone(),
                    None => "unknown".to_string(),
                },
            ),
        );
    }
    if state.server_running && !state.live_handoff {
        return Err(Hold::NoLiveHandoff);
    }
    Ok(())
}

/// Core is never downgraded: what may be updated after an inspection is
/// installed at a version that orders strictly below the published one.
pub proof fn law_core_never_downgraded(
    status: Result<StatusJson, String>,
    manifest: Result<Manifest, String>,
    allow_channel_mismatch: bool,
)
    ensures
        gate_reason(core_facts(status, manifest), allow_channel_mismatch) is None ==> {
            &&& status is Ok
            &&& manifest is Ok
            &&& version::compared(status->Ok_0.client.version@, manifest->Ok_0.version@) == Some(
                Ordering::Less,
            )
        },
{
}

/// What could not be checked is never reported as current: only versions that
/// order as equal are.
pub proof fn law_unknown_is_never_current(
    status: Result<StatusJson, String>,
    manifest: Result<Manifest, String>,
    allow_channel_mismatch: bool,
)
    ensures
        gate_reason(core_facts(status, manifest), allow_channel_mismatch) == Some(
            HoldReason::UpToDate,
        ) <==> status is Ok && manifest is Ok && version::compared(
            status->Ok_0.client.version@,
            manifest->Ok_0.version@,
        ) == Some(Ordering::Equal),
        status is Err || manifest is Err ==> gate_reason(
            core_facts(status, manifest),
            allow_channel_mismatch,
        ) matches Some(HoldReason::Unknown(_)),
{
}

/// A running server that cannot hand off is never updated, and neither is a
/// client on another channel unless that is allowed.
pub proof fn law_core_gates(state: CoreFacts, allow_channel_mismatch: bool)
    ensures
        state.server_running && !state.live_handoff ==> gate_reason(
            state,
            allow_channel_mismatch,
        ) is Some,
        state.channel_mismatch && !allow_channel_mismatch ==> gate_reason(
            state,
            allow_channel_mismatch,
        ) is Some,
{
}

/// The manifest describes the stable channel. A client that names no channel,
/// or names `stable` in whatever case, is on it; a client that names anything
/// else is not, and without leave it is not updated but told its own channel.
pub proof fn law_other_channels_are_held(status: StatusJson, manifest: Manifest)
    ensures
        ({
            let facts = core_facts(Ok(status), Ok(manifest));
            let stable = match status.client.channel {
                None => true,
                Some(c) => c@.len() == 6 && (c@[0] == 's' || c@[0] == 'S') && (c@[1] == 't' || c@[1]
                    == 'T') && (c@[2] == 'a' || c@[2] == 'A') && (c@[3] == 'b' || c@[3] == 'B') && (
                c@[4] == 'l' || c@[4] == 'L') && (c@[5] == 'e' || c@[5] == 'E'),
            };
            &&& facts.channel_mismatch == !stable
            &&& gate_reason(facts, false) is None ==> stable
            &&& !stable && version::compared(status.client.version@, manifest.version@) == Some(
                Ordering::Less,
            ) ==> gate_reason(facts, false) == Some(
                HoldReason::ChannelMismatch(status.client.channel->0@),
            )
        }),
{
    if let Some(c) = status.client.channel {
        reveal_strlit("stable");
        let low = text::lowercase(c@);
        let name = text::lowercase(MANIFEST_CHANNEL@);
        assert(name =~= "stable"@);
        assert(low == name <==> low.len() == 6 && low[0] == 's' && low[1] == 't' && low[2] == 'a'
            && low[3] == 'b' && low[4] == 'l' && low[5] == 'e') by {
            if low.len() == 6 && low[0] == 's' && low[1] == 't' && low[2] == 'a' && low[3] == 'b'
                && low[4] == 'l' && low[5] == 'e' {
                assert(low =~= name);
            }
        }
        text::lemma_lower_is(c@[0], 's');
        text::lemma_lower_is(c@[1], 't');
        text::lemma_lower_is(c@[2], 'a');
        text::lemma_lower_is(c@[3], 'b');
        text::lemma_lower_is(c@[4], 'l');
        text::lemma_lower_is(c@[5], 'e');
    }
}

/// Core may be updated exactly where both sides were read, the published
/// version is the newer one, the client is on the channel that the manifest
/// describes or may be on another, and a server that runs can hand off.
pub proof fn law_core_gate_is_exact(
    status: StatusJson,
    manifest: Manifest,
    allow_channel_mismatch: bool,
)
    ensures
        ({
            let facts = core_facts(Ok(status), Ok(manifest));
            let newer = version::compared(status.client.version@, manifest.version@);
            let may_hand_off = match status.server {
                None => true,
                Some(server) => server.running ==> server.capabilities.live_handoff,
            };
            &&& gate_reason(facts, allow_channel_mismatch) is None <==> newer == Some(
                Ordering::Less,
            ) && (facts.channel_mismatch ==> allow_channel_mismatch) && may_hand_off
            &&& gate_reason(facts, allow_channel_mismatch) == Some(HoldReason::NoLiveHandoff)
                <==> newer == Some(Ordering::Less) && (facts.channel_mismatch
                ==> allow_channel_mismatch) && !may_hand_off
            &&& gate_reason(facts, allow_channel_mismatch) == Some(HoldReason::LocalIsAhead)
                <==> newer == Some(Ordering::Greater)
            &&& gate_reason(facts, allow_channel_mismatch) == Some(HoldReason::Unorderable)
                <==> newer is None
        }),
{
}

/// An inspection tells what the status and the manifest say, side by side, and
/// sees a protocol change exactly where the two name different protocols.
pub proof fn law_inspection_reports_both_sides(
    status: StatusJson,
    manifest: Result<Manifest, String>,
)
    ensures
        ({
            let facts = core_facts(Ok(status), manifest);
            &&& facts.installed == status.client.version@
            &&& facts.protocol == status.client.protocol
            &&& facts.channel == text::opt_text(status.client.channel)
            &&& facts.binary == text::opt_text(status.client.binary)
            &&& facts.server_running == (status.server matches Some(s) && s.running)
            &&& facts.live_handoff == (status.server matches Some(s) && s.capabilities.live_handoff)
            &&& facts.restart_needed == (status.server matches Some(s) && s.restart_needed)
            &&& status.server matches Some(s) ==> facts.server_version == text::opt_text(s.version)
                && facts.server_protocol == s.protocol && facts.server_status == text::opt_text(
                s.status,
            ) && facts.compatible == s.compatible && facts.detached_server_daemon
                == s.capabilities.detached_server_daemon
            &&& match manifest {
                Ok(m) => facts.error is None && facts.latest == Some(m.version@)
                    && facts.latest_protocol == Some(m.protocol) && (facts.protocol_change
                    <==> m.protocol != status.client.protocol) && (facts.update_available
                    <==> version::compared(status.client.version@, m.version@) == Some(
                    Ordering::Less,
                )),
                Err(e) => facts.error == Some(e@) && facts.latest is None && !facts.update_available
                    && !facts.protocol_change,
            }
        }),
{
}

/// Two hosts see each other's relation turned around: what is behind for the
/// one is ahead for the other, and neither is guessed at.
pub proof fn law_relation_turns_around(a: Seq<char>, b: Seq<char>)
    ensures
        relation_of(a, b) == CoreRelation::Behind <==> relation_of(b, a) == CoreRelation::Ahead,
        relation_of(a, b) == CoreRelation::Same <==> relation_of(b, a) == CoreRelation::Same,
        relation_of(a, b) == CoreRelation::Unknown <==> version::parsed_version(a) is None
            || version::parsed_version(b) is None,
{
    version::lemma_compared_turns_around(a, b);
}

// ---------------------------------------------------------------------------
// Applying an update

#[derive(Debug)]
pub struct ApplyResult {
    pub installed: String,
    pub integrations_refreshed: Vec<String>,
}

pub open spec fn valid_agent_name(name: Seq<char>) -> bool {
    0 < name.len() && text::utf8_len(name) <= 64 && text::all_in(name, CharClass::Word)
}

/// The integration that a line of the status names as outdated.
pub open spec fn outdated_in(line: Seq<char>) -> Option<Seq<char>> {
    match text::cut_at_char(line, ':') {
        None => None,
        Some((name, state)) => {
            let name = text::trimmed(name);
            let state = text::lowercase(text::trimmed(state));
            if valid_agent_name(name) && !text::has_text(state, "current"@) && !text::has_text(
                state,
                "not installed"@,
            ) {
                Some(name)
            } else {
                None
            }
        },
    }
}

/// The outdated integrations among some lines, in order.
pub open spec fn outdated_among(lines: Seq<Seq<char>>) -> Seq<Seq<char>>
    decreases lines.len(),
{
    if lines.len() == 0 {
        seq![]
    } else {
        match outdated_in(lines.last()) {
            Some(name) => outdated_among(lines.drop_last()).push(name),
            None => outdated_among(lines.drop_last()),
        }
    }
}

fn outdated_of(line: &str) -> (r: Option<String>)
    ensures
        text::opt_text(r) == outdated_in(line@),
{
    match text::split_once(line, ':') {
        None => None,
        Some((name, state)) => {
            let name = text::trim(name.as_str());
            let state = text::to_lower(text::trim(state.as_str()));
            if name.unicode_len() > 0 && text::byte_len(name) <= 64 && text::text_all_in(
                name,
                CharClass::Word,
            ) && !text::contains_text(state.as_str(), "current") && !text::contains_text(
                state.as_str(),
                "not installed",
            ) {
                Some(name.to_string())
            } else {
                None
            }
        },
    }
}

/// The installed integrations that a status output calls outdated.
pub fn outdated_integrations(output: &str) -> (r: Vec<String>)
    ensures
        text::texts(r@) == outdated_among(text::text_lines(output@)),
{
    broadcast use text::lemma_texts_push;

    let lines = text::lines(output);
    let ghost all = text::texts(lines@);
    let mut out: Vec<String> = Vec::new();
    let mut i: usize = 0;
    assert(text::texts(out@) =~= outdated_among(all.take(0)));
    while i < lines.len()
        invariant
            i <= lines.len(),
            all == text::texts(lines@),
            text::texts(out@) == outdated_among(all.take(i as int)),
        decreases lines.len() - i,
    {
        assert(all[i as int] == lines@[i as int]@);
        assert(all.take(i + 1).drop_last() =~= all.take(i as int));
        if let Some(name) = outdated_of(lines[i].as_str()) {
            out.push(name);
        }
        i = i + 1;
    }
    assert(all.take(i as int) =~= all);
    out
}

/// What is wrong with how a command ran: the message names the command, and
/// for an exit the code and the first line of standard error.
pub open spec fn run_failure(what: Seq<char>, run: Result<Output, ExecError>) -> Option<Seq<char>> {
    match run {
        Err(e) => Some(what + ": "@ + exec::exec_error_text(e)),
        Ok(out) => if out.code != 0 {
            Some(
                what + " exited "@ + text::signed_decimal(out.code as int) + ": "@
                    + text::first_line_or(out.stderr@, "no stderr"@),
            )
        } else {
            None
        },
    }
}

pub fn failure_of(what: &str, run: &Result<Output, ExecError>) -> (r: Option<String>)
    ensures
        text::opt_text(r) == run_failure(what@, *run),
{
    match run {
        Err(e) => Some(what.to_string().concat(": ").concat(e.describe().as_str())),
        Ok(out) => if out.ok() {
            None
        } else {
            Some(
                what.to_string().concat(" exited ").concat(
                    text::signed_text(out.code).as_str(),
                ).concat(": ").concat(text::first_line(out.stderr.as_str(), "no stderr").as_str()),
            )
        },
    }
}

/// What is wrong with the status after an update.
pub open spec fn after_failure(
    server_was_running: bool,
    expected: Seq<char>,
    after: StatusJson,
) -> Option<Seq<char>> {
    if after.client.version@ != expected {
        Some("post-update client is "@ + after.client.version@ + ", expected "@ + expected)
    } else if !server_was_running {
        None
    } else {
        match after.server {
            Some(server) if server.running => if text::opt_text(server.version) == Some(expected) {
                None
            } else {
                Some(
                    "post-handoff server is "@ + (match server.version {
                        Some(v) => v@,
                        None => "unknown"@,
                    }) + ", expected "@ + expected,
                )
            },
            _ => Some("server was running before update but is not running after handoff"@),
        }
    }
}

fn failure_after(server_was_running: bool, expected: &str, after: &StatusJson) -> (r: Option<
    String,
>)
    ensures
        text::opt_text(r) == after_failure(server_was_running, expected@, *after),
{
    if !text::text_eq(after.client.version.as_str(), expected) {
        return Some(
            "post-update client is ".to_string().concat(after.client.version.as_str()).concat(
                ", expected ",
            ).concat(expected),
        );
    }
    if !server_was_running {
        return None;
    }
    if let Some(server) = &after.server {
        if server.running {
            let found = match &server.version {
                Some(v) => v.as_str(),
                None => "unknown",
            };
            if let Some(v) = &server.version {
                if text::text_eq(v.as_str(), expected) {
                    return None;
                }
            }
            return Some(
                "post-handoff server is ".to_string().concat(found).concat(", expected ").concat(
                    expected,
                ),
            );
        }
    }
    Some("server was running before update but is not running after handoff".to_string())
}

/// How far an update has come, and so what is to be done next.
#[derive(Debug, Clone, Copy, PartialEq, Eq, Structural)]
pub enum ApplyStage {
    /// Run `herdr update --handoff`.
    Update,
    /// Read the status again.
    Status,
    /// List the outdated integrations.
    List,
    /// Install the integration of this position in the list.
    Install(usize),
    /// List the outdated integrations once more.
    Verify,
    /// Nothing is left to do.
    Done,
}

/// An update under way.
#[derive(Debug)]
pub struct Applying {
    pub stage: ApplyStage,
    pub expected: String,
    pub server_was_running: bool,
    pub agents: Vec<String>,
}

/// What was learnt from doing what the stage asks for.
#[derive(Debug)]
pub enum ApplyEvent {
    Ran(Result<Output, ExecError>),
    Status(Result<StatusJson, String>),
}

/// Why an update may not begin: core is held, or the latest version is not
/// known.
pub open spec fn apply_refusal(before: CoreFacts, allow_channel_mismatch: bool) -> Option<
    Seq<char>,
> {
    match gate_reason(before, allow_channel_mismatch) {
        Some(reason) => Some(reason_text(reason)),
        None => match before.latest {
            None => Some("latest herdr version is unknown"@),
            Some(_) => None,
        },
    }
}

/// Begins an update, or says why it is held.
pub fn apply(before: &CoreState, allow_channel_mismatch: bool) -> (r: Result<Applying, String>)
    ensures
        match apply_refusal(before@, allow_channel_mismatch) {
            Some(refusal) => r matches Err(e) && e@ == refusal,
            None => r matches Ok(run) && run.stage == ApplyStage::Update && Some(run.expected@)
                == before@.latest && run.server_was_running == before.server_running
                && run.agents@.len() == 0,
        },
{
    if let Err(hold) = gate(before, allow_channel_mismatch) {
        return Err(hold_text(&hold));
    }
    match &before.latest {
        None => Err("latest herdr version is unknown".to_string()),
        Some(latest) => Ok(
            Applying {
                stage: ApplyStage::Update,
                expected: latest.clone(),
                server_was_running: before.server_running,
                agents: Vec::new(),
            },
        ),
    }
}

/// The command that a stage asks for.
pub open spec fn stage_args(stage: ApplyStage, agents: Seq<Seq<char>>) -> Seq<Seq<char>> {
    match stage {
        ApplyStage::Update => seq!["update"@, "--handoff"@],
        ApplyStage::Status => seq!["status"@, "--json"@],
        ApplyStage::List => seq!["integration"@, "status"@, "--outdated-only"@],
        ApplyStage::Install(i) => if i < agents.len() {
            seq!["integration"@, "install"@, agents[i as int]]
        } else {
            seq![]
        },
        ApplyStage::Verify => seq!["integration"@, "status"@, "--outdated-only"@],
        ApplyStage::Done => seq![],
    }
}

/// Where an update goes once the list of integrations is settled up to `i`.
pub open spec fn install_stage(i: nat, agents: nat) -> ApplyStage {
    if i < agents {
        ApplyStage::Install(i as usize)
    } else {
        ApplyStage::Verify
    }
}

/// What the update under way comes to: the next stage with the list of
/// integrations, or the failure.
pub open spec fn advanced(run: Applying, event: ApplyEvent) -> Result<
    (ApplyStage, Seq<Seq<char>>),
    Seq<char>,
> {
    let agents = text::texts(run.agents@);
    match (run.stage, event) {
        (ApplyStage::Update, ApplyEvent::Ran(ran)) => match run_failure(
            "herdr update --handoff"@,
            ran,
        ) {
            Some(failure) => Err(failure),
            None => Ok((ApplyStage::Status, agents)),
        },
        (ApplyStage::Status, ApplyEvent::Status(status)) => match status {
            Err(e) => Err(e@),
            Ok(after) => match after_failure(run.server_was_running, run.expected@, after) {
                Some(failure) => Err(failure),
                None => Ok((ApplyStage::List, agents)),
            },
        },
        (ApplyStage::List, ApplyEvent::Ran(ran)) => match run_failure(
            "integration status"@,
            ran,
        ) {
            Some(failure) => Err(failure),
            None => {
                let found = outdated_among(text::text_lines(ran->Ok_0.stdout@));
                Ok((install_stage(0, found.len()), found))
            },
        },
        (ApplyStage::Install(i), ApplyEvent::Ran(ran)) => if i < agents.len() {
            match run_failure("integration install "@ + agents[i as int], ran) {
                Some(failure) => Err(failure),
                None => Ok((install_stage(i as nat + 1, agents.len()), agents)),
            }
        } else {
            Err("this step cannot follow"@)
        },
        (ApplyStage::Verify, ApplyEvent::Ran(ran)) => match ran {
            Err(e) => Err("integration verification: "@ + exec::exec_error_text(e)),
            Ok(out) => if out.code != 0 || outdated_among(text::text_lines(out.stdout@)).len()
                > 0 {
                Err("one or more Herdr integrations remain outdated"@)
            } else {
                Ok((ApplyStage::Done, agents))
            },
        },
        _ => Err("this step cannot follow"@),
    }
}

impl Applying {
    /// The arguments of the `herdr` command that comes next.
    pub fn args(&self) -> (r: Vec<String>)
        ensures
            text::texts(r@) == stage_args(self.stage, text::texts(self.agents@)),
    {
        let r = match self.stage {
            ApplyStage::Update => vec!["update".to_string(), "--handoff".to_string()],
            ApplyStage::Status => vec!["status".to_string(), "--json".to_string()],
            ApplyStage::List | ApplyStage::Verify => vec![
                "integration".to_string(),
                "status".to_string(),
                "--outdated-only".to_string(),
            ],
            ApplyStage::Install(i) => if i < self.agents.len() {
                vec!["integration".to_string(), "install".to_string(), self.agents[i].clone()]
            } else {
                Vec::new()
            },
            ApplyStage::Done => Vec::new(),
        };
        assert(text::texts(r@) =~= stage_args(self.stage, text::texts(self.agents@)));
        r
    }

    /// Takes what the last step came to and settles the next one.
    pub fn advance(self, event: ApplyEvent) -> (r: Result<Applying, String>)
        ensures
            match r {
                Ok(next) => advanced(self, event) == Ok::<(ApplyStage, Seq<Seq<char>>), Seq<char>>(
                    (next.stage, text::texts(next.agents@)),
                ) && next.expected == self.expected && next.server_was_running
                    == self.server_was_running,
                Err(e) => advanced(self, event) == Err::<(ApplyStage, Seq<Seq<char>>), Seq<char>>(
                    e@,
                ),
            },
    {
        let ghost before = text::texts(self.agents@);
        let mut run = self;
        match (run.stage, event) {
            (ApplyStage::Update, ApplyEvent::Ran(ran)) => {
                if let Some(failure) = failure_of("herdr update --handoff", &ran) {
                    return Err(failure);
                }
                run.stage = ApplyStage::Status;
                Ok(run)
            },
            (ApplyStage::Status, ApplyEvent::Status(status)) => {
                let after = match status {
                    Ok(after) => after,
                    Err(e) => {
                        return Err(e);
                    },
                };
                if let Some(failure) = failure_after(
                    run.server_was_running,
                    run.expected.as_str(),
                    &after,
                ) {
                    return Err(failure);
                }
                run.stage = ApplyStage::List;
                Ok(run)
            },
            (ApplyStage::List, ApplyEvent::Ran(ran)) => {
                if let Some(failure) = failure_of("integration status", &ran) {
                    return Err(failure);
                }
                if let Ok(out) = ran {
                    run.agents = outdated_integrations(out.stdout.as_str());
                }
                assert(text::texts(run.agents@).len() == run.agents.len());
                run.stage = if run.agents.len() > 0 {
                    ApplyStage::Install(0)
                } else {
                    ApplyStage::Verify
                };
                Ok(run)
            },
            (ApplyStage::Install(i), ApplyEvent::Ran(ran)) => {
                assert(before.len() == run.agents.len());
                if i >= run.agents.len() {
                    return Err("this step cannot follow".to_string());
                }
                assert(before[i as int] == run.agents@[i as int]@);
                let what = "integration install ".to_string().concat(run.agents[i].as_str());
                if let Some(failure) = failure_of(what.as_str(), &ran) {
                    return Err(failure);
                }
                run.stage = if i + 1 < run.agents.len() {
                    ApplyStage::Install(i + 1)
                } else {
                    ApplyStage::Verify
                };
                Ok(run)
            },
            (ApplyStage::Verify, ApplyEvent::Ran(ran)) => {
                match ran {
                    Err(e) => Err(
                        "integration verification: ".to_string().concat(e.describe().as_str()),
                    ),
                    Ok(out) => {
                        let left = outdated_integrations(out.stdout.as_str());
                        assert(text::texts(left@).len() == left.len());
                        if !out.ok() || left.len() > 0 {
                            Err("one or more Herdr integrations remain outdated".to_string())
                        } else {
                            run.stage = ApplyStage::Done;
                            Ok(run)
                        }
                    },
                }
            },
            _ => Err("this step cannot follow".to_string()),
        }
    }

    /// What a finished update reports.
    pub fn result(self) -> (r: Option<ApplyResult>)
        ensures
            match r {
                Some(result) => self.stage == ApplyStage::Done && result.installed@
                    == self.expected@ && result.integrations_refreshed == self.agents,
                None => self.stage != ApplyStage::Done,
            },
    {
        match self.stage {
            ApplyStage::Done => Some(
                ApplyResult { installed: self.expected, integrations_refreshed: self.agents },
            ),
            _ => None,
        }
    }
}

/// An update only counts as done after a last look that found no outdated
/// integration.
pub proof fn law_done_is_verified(run: Applying, event: ApplyEvent)
    ensures
        advanced(run, event) matches Ok((ApplyStage::Done, _)) ==> {
            &&& run.stage == ApplyStage::Verify
            &&& event matches ApplyEvent::Ran(Ok(out)) && out.code == 0 && outdated_among(
                text::text_lines(out.stdout@),
            ).len() == 0
        },
{
}

/// An update only gets past the status check when the client, and the server
/// if one was running, report the expected version.
pub proof fn law_status_is_verified(run: Applying, event: ApplyEvent)
    ensures
        run.stage == ApplyStage::Status && advanced(run, event) is Ok ==> {
            &&& event matches ApplyEvent::Status(Ok(after)) && after.client.version@
                == run.expected@ && (run.server_was_running ==> (after.server matches Some(
                server,
            ) && server.running && text::opt_text(server.version) == Some(run.expected@)))
        },
        advanced(run, event) matches Ok((ApplyStage::List, _)) ==> run.stage
            == ApplyStage::Status,
{
}

/// Only names of letters, digits, dashes and underscores become arguments of
/// an install.
pub proof fn law_agents_are_names(lines: Seq<Seq<char>>)
    ensures
        forall|i: int|
            0 <= i < outdated_among(lines).len() ==> valid_agent_name(
                #[trigger] outdated_among(lines)[i],
            ),
    decreases lines.len(),
{
    if lines.len() > 0 {
        law_agents_are_names(lines.drop_last());
        let before = outdated_among(lines.drop_last());
        assert forall|i: int| 0 <= i < outdated_among(lines).len() implies valid_agent_name(
            #[trigger] outdated_among(lines)[i],
        ) by {
            if i < before.len() {
                assert(outdated_among(lines)[i] == before[i]);
            }
        }
    }
}

/// A command that exits with zero has not failed, and every other way to end is
/// a failure, whatever it printed.
pub proof fn law_only_zero_succeeds(what: Seq<char>, have_curl: bool, run: Result<Output, ExecError>)
    ensures
        run_failure(what, run) is None <==> (run matches Ok(out) && out.code == 0),
        status_failure(run) is None <==> (run matches Ok(out) && out.code == 0),
        manifest_failure(have_curl, run) is None <==> have_curl && (run matches Ok(out) && out.code
            == 0),
{
}

/// An update goes on as long as each step succeeds: the update itself, then the
/// status, then the integrations one after the other, each installed by name,
/// and only then the last look.
pub proof fn law_update_goes_through_every_step(run: Applying, out: Output)
    requires
        out.code == 0,
    ensures
        ({
            let agents = text::texts(run.agents@);
            let next = advanced(run, ApplyEvent::Ran(Ok(out)));
            &&& run.stage == ApplyStage::Update ==> next == Ok::<
                (ApplyStage, Seq<Seq<char>>),
                Seq<char>,
            >((ApplyStage::Status, agents))
            &&& run.stage == ApplyStage::List ==> (next matches Ok((stage, found)) && found
                == outdated_among(text::text_lines(out.stdout@)) && stage == (if found.len() > 0 {
                ApplyStage::Install(0)
            } else {
                ApplyStage::Verify
            }))
            &&& run.stage matches ApplyStage::Install(i) ==> i < agents.len() ==> {
                &&& stage_args(run.stage, agents).last() == agents[i as int]
                &&& next == Ok::<(ApplyStage, Seq<Seq<char>>), Seq<char>>(
                    (
                        if i + 1 < agents.len() {
                            ApplyStage::Install((i + 1) as usize)
                        } else {
                            ApplyStage::Verify
                        },
                        agents,
                    ),
                )
            }
            &&& run.stage == ApplyStage::Verify ==> (next is Ok <==> outdated_among(
                text::text_lines(out.stdout@),
            ).len() == 0)
        }),
{
}

/// A step that did not succeed ends an update; no later step is taken.
pub proof fn law_failed_step_ends_the_update(run: Applying, ran: Result<Output, ExecError>)
    requires
        ran matches Ok(out) ==> out.code != 0,
    ensures
        advanced(run, ApplyEvent::Ran(ran)) is Err,
{
}

/// What the status after an update has to say: the expected version, and the
/// same of the server where one was running. Then, and only then, the update
/// goes on.
pub proof fn law_expected_status_is_accepted(run: Applying, after: StatusJson)
    requires
        run.stage == ApplyStage::Status,
    ensures
        advanced(run, ApplyEvent::Status(Ok(after))) is Ok <==> after.client.version@
            == run.expected@ && (run.server_was_running ==> (after.server matches Some(s)
            && s.running && (s.version matches Some(v) && v@ == run.expected@))),
{
}

/// An update is begun exactly where nothing holds it back and the version to expect
/// is known; after an inspection with a manifest it is.
pub proof fn law_update_begins_where_nothing_holds_it(
    status: StatusJson,
    manifest: Manifest,
    allow_channel_mismatch: bool,
)
    ensures
        ({
            let facts = core_facts(Ok(status), Ok(manifest));
            &&& apply_refusal(facts, allow_channel_mismatch) is None <==> gate_reason(
                facts,
                allow_channel_mismatch,
            ) is None
            &&& facts.latest == Some(manifest.version@)
        }),
        stage_args(ApplyStage::Update, seq![]) == seq!["update"@, "--handoff"@],
        stage_args(ApplyStage::Status, seq![]) == seq!["status"@, "--json"@],
        stage_args(ApplyStage::List, seq![]) == stage_args(ApplyStage::Verify, seq![]),
{
}

/// An integration is refreshed exactly where a line names it and its state is
/// neither `current` nor `not installed`.
pub proof fn law_outdated_line_is_listed(name: Seq<char>, state: Seq<char>)
    requires
        !name.contains(':'),
    ensures
        ({
            let said = text::lowercase(text::trimmed(state));
            let listed = outdated_in(name + seq![':'] + state);
            &&& text::has_text(said, "current"@) || text::has_text(said, "not installed"@)
                ==> listed is None
            &&& listed matches Some(found) ==> found == text::trimmed(name)
            &&& valid_agent_name(text::trimmed(name)) && !text::has_text(said, "current"@)
                && !text::has_text(said, "not installed"@) ==> listed == Some(text::trimmed(name))
        }),
{
    let line = name + seq![':'] + state;
    assert forall|i: int| 0 <= i < name.len() implies line[i] != ':' by {
        assert(name.contains(name[i]));
    }
    text::lemma_find_char_is(line, ':', name.len() as int);
    assert(line.take(name.len() as int) =~= name);
    assert(line.skip(name.len() as int + 1) =~= state);
}

/// Every line that names an outdated integration is taken up, and nothing else:
/// one more line adds its integration behind the others, or nothing.
pub proof fn law_every_outdated_integration_is_listed(lines: Seq<Seq<char>>, line: Seq<char>)
    ensures
        outdated_among(seq![]) == Seq::<Seq<char>>::empty(),
        outdated_among(lines.push(line)) == match outdated_in(line) {
            Some(name) => outdated_among(lines).push(name),
            None => outdated_among(lines),
        },
{
    assert(lines.push(line).drop_last() =~= lines);
}

/// A name of an integration has letters, digits, dashes and underscores only,
/// one to sixty-four of them.
pub proof fn law_agent_names_are_plain(name: Seq<char>)
    ensures
        valid_agent_name(name) <==> 0 < name.len() <= 64 && forall|i: int|
            0 <= i < name.len() ==> text::is_alphanumeric(#[trigger] name[i]) || name[i] == '-'
                || name[i] == '_',
{
    let plain = forall|i: int|
        0 <= i < name.len() ==> text::is_alphanumeric(#[trigger] name[i]) || name[i] == '-'
            || name[i] == '_';
    if text::all_in(name, CharClass::Word) {
        assert forall|i: int| 0 <= i < name.len() implies text::is_alphanumeric(#[trigger] name[i])
            || name[i] == '-' || name[i] == '_' by {
            assert(CharClass::Word.holds(name[i]));
        }
    }
    if plain {
        assert forall|i: int| 0 <= i < name.len() implies #[trigger] name[i] <= '\u{7f}' by {
            assert(text::is_alphanumeric(name[i]) || name[i] == '-' || name[i] == '_');
        }
        text::lemma_ascii_len(name);
        assert forall|i: int| 0 <= i < name.len() implies CharClass::Word.holds(
            #[trigger] name[i],
        ) by {
            assert(text::is_alphanumeric(name[i]) || name[i] == '-' || name[i] == '_');
        }
    }
}

/// Each reason says what it is: a downgrade is called one, an unreadable
/// version unreadable, a channel by its name, and an error by its own words.
pub proof fn law_reasons_say_what_they_are(channel: Seq<char>, error: Seq<char>)
    ensures
        reason_text(HoldReason::UpToDate) == "already current"@,
        text::has_text(reason_text(HoldReason::LocalIsAhead), "refusing to downgrade"@),
        text::has_text(reason_text(HoldReason::Unorderable), "cannot be ordered"@),
        text::has_text(
            reason_text(HoldReason::ChannelMismatch(channel)),
            text::debug_text(channel),
        ),
        reason_text(HoldReason::NoLiveHandoff) == "running server cannot live-handoff"@,
        reason_text(HoldReason::Unknown(error)) == error,
{
    reveal_strlit("installed core is newer than the release manifest; refusing to downgrade");
    reveal_strlit("refusing to downgrade");
    reveal_strlit(
        "installed and published versions cannot be ordered; not treating that as current",
    );
    reveal_strlit("cannot be ordered");
    let a = reason_text(HoldReason::LocalIsAhead);
    assert(a.subrange(51, 72) =~= "refusing to downgrade"@);
    assert(text::occurs_at(a, "refusing to downgrade"@, 51));
    let b = reason_text(HoldReason::Unorderable);
    assert(b.subrange(33, 50) =~= "cannot be ordered"@);
    assert(text::occurs_at(b, "cannot be ordered"@, 33));
    let c = reason_text(HoldReason::ChannelMismatch(channel));
    let head = "client tracks the "@;
    let tail = " channel but latest.json describes "@ + text::debug_text(MANIFEST_CHANNEL@);
    text::lemma_has_middle(head, text::debug_text(channel), tail);
    assert(c =~= head + text::debug_text(channel) + tail);
}

/// A step that does not belong to the stage of an update leads nowhere.
pub proof fn law_steps_do_not_skip(
    run: Applying,
    ran: Result<Output, ExecError>,
    status: Result<StatusJson, String>,
)
    ensures
        run.stage != ApplyStage::Status ==> advanced(run, ApplyEvent::Status(status)) is Err,
        run.stage == ApplyStage::Status || run.stage == ApplyStage::Done ==> advanced(
            run,
            ApplyEvent::Ran(ran),
        ) is Err,
        run.stage matches ApplyStage::Install(i) ==> i >= run.agents@.len() ==> advanced(
            run,
            ApplyEvent::Ran(ran),
        ) is Err,
{
}

} // verus!
