//! Fleet mode.
//!
//! A host-local updater cannot see the failure that actually costs a day:
//! several machines quietly running different versions, each of them
//! individually healthy. So the primary output here is not "updates
//! available". It is drift.

use crate::exec::{self, ExecError, Output};
use crate::herdr::StatusJson;
use crate::order;
use crate::plugins::InstalledPlugin;
use crate::text::{self, CharClass};
use crate::textmap::{self, TextMap};
use vstd::prelude::*;
use vstd::string::*;

verus! {

/// Where the fleet is defined, below the home directory: this tool's own file
/// if present, otherwise the one of `herdr-mirror`.
pub const OWN_HOSTS: &'static str = ".config/herdr-updater/hosts.toml";

pub const MIRROR_HOSTS: &'static str = ".config/herdr-mirror/hosts.toml";

#[derive(Debug)]
pub struct HostEntry {
    /// The SSH alias. Defaults to the name of the host.
    pub target: Option<String>,
}

#[derive(Debug)]
pub struct HostsFile {
    pub hosts: TextMap<HostEntry>,
}

/// A plugin in the inventory of a host.
#[derive(Debug)]
pub struct FleetPlugin {
    pub version: Option<String>,
    pub source: String,
    pub revision: Option<String>,
    pub owner: Option<String>,
    pub repo: Option<String>,
    pub subdir: Option<String>,
    pub requested_ref: Option<String>,
    pub enabled: bool,
}

/// What an inventory says of a plugin.
pub struct FleetFacts {
    pub version: Option<Seq<char>>,
    pub source: Seq<char>,
    pub revision: Option<Seq<char>>,
    pub owner: Option<Seq<char>>,
    pub repo: Option<Seq<char>>,
    pub subdir: Option<Seq<char>>,
    pub requested_ref: Option<Seq<char>>,
    pub enabled: bool,
}

impl View for FleetPlugin {
    type V = FleetFacts;

    open spec fn view(&self) -> FleetFacts {
        FleetFacts {
            version: text::opt_text(self.version),
            source: self.source@,
            revision: text::opt_text(self.revision),
            owner: text::opt_text(self.owner),
            repo: text::opt_text(self.repo),
            subdir: text::opt_text(self.subdir),
            requested_ref: text::opt_text(self.requested_ref),
            enabled: self.enabled,
        }
    }
}

/// One row of the drift report.
#[derive(Debug)]
pub struct HostState {
    pub host: String,
    pub target: String,
    pub local: bool,
    pub version: Option<String>,
    pub protocol: Option<u32>,
    pub server_running: bool,
    pub plugins: TextMap<FleetPlugin>,
    pub plugin_error: Option<String>,
    pub error: Option<String>,
}

// ---------------------------------------------------------------------------
// The hosts

/// A plain SSH alias: never an option, never a second argument.
pub open spec fn alias(s: Seq<char>) -> bool {
    0 < s.len() && s[0] != '-' && text::utf8_len(s) <= 128 && text::all_in(s, CharClass::Alias)
}

/// Whether a value may be handed to `ssh` as a host.
pub fn valid_alias(s: &str) -> (r: bool)
    ensures
        r == alias(s@),
{
    s.unicode_len() > 0 && s.get_char(0) != '-' && text::byte_len(s) <= 128 && text::text_all_in(
        s,
        CharClass::Alias,
    )
}

/// An accepted alias holds nothing that `ssh` or a shell would read.
pub proof fn law_alias_is_plain(s: Seq<char>)
    requires
        alias(s),
    ensures
        s.len() > 0,
        s[0] != '-',
        forall|i: int|
            0 <= i < s.len() ==> text::is_alphanumeric(#[trigger] s[i]) || s[i] == '-' || s[i]
                == '_' || s[i] == '.' || s[i] == '@',
{
    assert forall|i: int| 0 <= i < s.len() implies text::is_alphanumeric(#[trigger] s[i]) || s[i]
        == '-' || s[i] == '_' || s[i] == '.' || s[i] == '@' by {
        assert(CharClass::Alias.holds(s[i]));
    }
}

/// A host and the alias under which it is reached.
#[derive(Debug)]
pub struct Host {
    pub name: String,
    pub target: String,
}

impl Host {
    pub open spec fn is(self, name: Seq<char>, target: Seq<char>) -> bool {
        self.name@ == name && self.target@ == target
    }
}

pub open spec fn target_of(name: Seq<char>, entry: HostEntry) -> Seq<char> {
    match entry.target {
        Some(target) => target@,
        None => name,
    }
}

/// The hosts of a file, in the order of their names.
pub open spec fn hosts_of(file: HostsFile, hosts: Seq<Host>) -> bool {
    hosts.len() == file.hosts.keys().len() && forall|i: int|
        0 <= i < hosts.len() ==> (#[trigger] hosts[i]).is(
            file.hosts.keys()[i],
            target_of(file.hosts.keys()[i], file.hosts.values()[i]),
        )
}

fn list_hosts(file: &HostsFile) -> (r: Vec<Host>)
    ensures
        hosts_of(*file, r@),
{
    let n = file.hosts.len();
    let mut out: Vec<Host> = Vec::new();
    let mut i: usize = 0;
    while i < n
        invariant
            i <= n,
            n == file.hosts.keys().len(),
            out.len() == i,
            forall|k: int|
                0 <= k < i ==> (#[trigger] out@[k]).is(
                    file.hosts.keys()[k],
                    target_of(file.hosts.keys()[k], file.hosts.values()[k]),
                ),
        decreases n - i,
    {
        let name = file.hosts.key_at(i).clone();
        let target = match &file.hosts.value_at(i).target {
            Some(target) => target.clone(),
            None => name.clone(),
        };
        out.push(Host { name, target });
        i = i + 1;
    }
    out
}

/// What looking for a file that defines the fleet came to.
#[derive(Debug)]
pub enum HostsSource {
    Missing,
    /// It is there and could not be read or parsed, for this reason.
    Unusable(String),
    Parsed(HostsFile),
}

/// The first file that exists, if any, from the `i`th on.
pub open spec fn first_file(files: Seq<HostsSource>, i: int) -> Option<int>
    decreases files.len() - i,
{
    if i < 0 || i >= files.len() {
        None
    } else if files[i] is Missing {
        first_file(files, i + 1)
    } else {
        Some(i)
    }
}

fn find_file(files: &Vec<HostsSource>) -> (r: Option<usize>)
    ensures
        match r {
            Some(i) => first_file(files@, 0) == Some(i as int) && i < files.len() && !(
            files@[i as int] is Missing),
            None => first_file(files@, 0) is None,
        },
{
    let mut i: usize = 0;
    while i < files.len()
        invariant
            i <= files.len(),
            first_file(files@, 0) == first_file(files@, i as int),
        decreases files.len() - i,
    {
        match &files[i] {
            HostsSource::Missing => {},
            _ => {
                return Some(i);
            },
        }
        i = i + 1;
    }
    None
}

/// The fleet as the first file that exists defines it, and which file that is:
/// the report can always say which configuration won. It wins outright: files
/// are not merged, and one that cannot be used defines no host rather than give
/// way to the next.
pub fn load_hosts(files: &Vec<HostsSource>) -> (r: (Vec<Host>, Option<usize>))
    ensures
        match first_file(files@, 0) {
            Some(i) => r.1 == Some(i as usize) && 0 <= i < files.len() && match files@[i] {
                HostsSource::Parsed(file) => hosts_of(file, r.0@),
                _ => r.0@.len() == 0,
            },
            None => r.1 is None && r.0@.len() == 0,
        },
{
    match find_file(files) {
        Some(i) => match &files[i] {
            HostsSource::Parsed(file) => (list_hosts(file), Some(i)),
            _ => (Vec::new(), Some(i)),
        },
        None => (Vec::new(), None),
    }
}

/// Why the file that defines the fleet cannot be used, if it cannot: a fleet
/// that is not known must not read as one without hosts.
pub fn hosts_fault(files: &Vec<HostsSource>) -> (r: Option<String>)
    ensures
        text::opt_text(r) == match first_file(files@, 0) {
            Some(i) => match files@[i] {
                HostsSource::Unusable(reason) => Some(reason@),
                _ => None,
            },
            None => None,
        },
{
    match find_file(files) {
        Some(i) => match &files[i] {
            HostsSource::Unusable(reason) => Some(reason.clone()),
            _ => None,
        },
        None => None,
    }
}

/// Once the first file exists, whatever it holds, no other one applies; and
/// there is no file exactly where all are missing.
pub proof fn law_first_hosts_file_wins(files: Seq<HostsSource>)
    ensures
        files.len() > 0 && !(files[0] is Missing) ==> first_file(files, 0) == Some(0int),
        first_file(files, 0) matches Some(i) ==> 0 <= i < files.len() && !(files[i] is Missing)
            && forall|k: int| 0 <= k < i ==> (#[trigger] files[k]) is Missing,
        first_file(files, 0) is None ==> forall|k: int|
            0 <= k < files.len() ==> (#[trigger] files[k]) is Missing,
{
    lemma_first_file(files, 0);
}

proof fn lemma_first_file(files: Seq<HostsSource>, i: int)
    requires
        0 <= i <= files.len(),
    ensures
        first_file(files, i) matches Some(j) ==> i <= j < files.len() && !(files[j] is Missing)
            && forall|k: int| i <= k < j ==> (#[trigger] files[k]) is Missing,
        first_file(files, i) is None ==> forall|k: int|
            i <= k < files.len() ==> (#[trigger] files[k]) is Missing,
    decreases files.len() - i,
{
    if i < files.len() {
        lemma_first_file(files, i + 1);
    }
}

pub open spec fn named(only: Seq<Seq<char>>, host: Host) -> bool {
    only.len() == 0 || only.contains(host.name@) || only.contains(host.target@)
}

/// The hosts that were asked for, by name or by target; all where none was.
pub fn select_hosts(hosts: Vec<Host>, only: &Vec<String>) -> (r: Vec<Host>)
    ensures
        r@ == hosts@.filter(|host: Host| named(text::texts(only@), host)),
{
    let ghost keep = |host: Host| named(text::texts(only@), host);
    let ghost all = hosts@;
    let mut positions: Vec<usize> = Vec::new();
    let mut i: usize = 0;
    proof {
        reveal(Seq::filter);
        assert(order::arranged(all, positions@) =~= all.take(0).filter(keep));
    }
    while i < hosts.len()
        invariant
            i <= hosts.len(),
            all == hosts@,
            keep == (|host: Host| named(text::texts(only@), host)),
            order::arranged(all, positions@) == all.take(i as int).filter(keep),
            forall|k: int| 0 <= k < positions.len() ==> #[trigger] positions@[k] < i,
            positions@.no_duplicates(),
        decreases hosts.len() - i,
    {
        let ghost before = positions@;
        proof {
            reveal(Seq::filter);
            assert(all.take(i + 1).drop_last() =~= all.take(i as int));
            assert(all.take(i + 1).last() == all[i as int]);
            assert(text::texts(only@).len() == only.len());
        }
        if only.len() == 0 || text::list_has(only, hosts[i].name.as_str()) || text::list_has(
            only,
            hosts[i].target.as_str(),
        ) {
            positions.push(i);
            assert(order::arranged(all, positions@) =~= order::arranged(all, before).push(
                all[i as int],
            ));
        }
        i = i + 1;
    }
    assert(all.take(i as int) =~= all);
    order::arrange(hosts, &positions)
}

pub open spec fn matches_some(hosts: Seq<Host>, asked: Seq<char>) -> bool {
    exists|i: int|
        0 <= i < hosts.len() && ((#[trigger] hosts[i]).name@ == asked || hosts[i].target@ == asked)
}

/// The hosts that were asked for and are not in the fleet.
pub open spec fn missing_among(hosts: Seq<Host>, only: Seq<Seq<char>>) -> Seq<Seq<char>>
    decreases only.len(),
{
    if only.len() == 0 {
        seq![]
    } else if matches_some(hosts, only.last()) {
        missing_among(hosts, only.drop_last())
    } else {
        missing_among(hosts, only.drop_last()).push(only.last())
    }
}

fn is_among(hosts: &Vec<Host>, asked: &str) -> (r: bool)
    ensures
        r == matches_some(hosts@, asked@),
{
    let mut i: usize = 0;
    while i < hosts.len()
        invariant
            i <= hosts.len(),
            forall|k: int|
                0 <= k < i ==> (#[trigger] hosts@[k]).name@ != asked@ && hosts@[k].target@
                    != asked@,
        decreases hosts.len() - i,
    {
        if text::text_eq(hosts[i].name.as_str(), asked) || text::text_eq(
            hosts[i].target.as_str(),
            asked,
        ) {
            return true;
        }
        i = i + 1;
    }
    false
}

pub fn missing_hosts(hosts: &Vec<Host>, only: &Vec<String>) -> (r: Vec<String>)
    ensures
        text::texts(r@) == missing_among(hosts@, text::texts(only@)),
{
    broadcast use text::lemma_texts_push;

    let ghost all = text::texts(only@);
    let mut out: Vec<String> = Vec::new();
    let mut i: usize = 0;
    assert(text::texts(out@) =~= missing_among(hosts@, all.take(0)));
    while i < only.len()
        invariant
            i <= only.len(),
            all == text::texts(only@),
            text::texts(out@) == missing_among(hosts@, all.take(i as int)),
        decreases only.len() - i,
    {
        assert(all.take(i + 1).drop_last() =~= all.take(i as int));
        assert(all.take(i + 1).last() == only@[i as int]@);
        if !is_among(hosts, only[i].as_str()) {
            out.push(only[i].clone());
        }
        i = i + 1;
    }
    assert(all.take(i as int) =~= all);
    out
}

/// One batch of work: positions `from` up to, not with, `to`.
#[derive(Debug, Clone, Copy, PartialEq, Eq, Structural)]
pub struct Batch {
    pub from: usize,
    pub to: usize,
}

/// Splits `count` items into batches of `size` at most, so a large fleet never
/// opens more connections at once than it may.
pub fn batches(count: usize, size: usize) -> (r: Vec<Batch>)
    requires
        size > 0,
    ensures
        forall|k: int|
            0 <= k < r.len() ==> (#[trigger] r@[k]).from == k * size && r@[k].from < r@[k].to
                && r@[k].to - r@[k].from <= size && r@[k].to == if (k + 1) * size <= count {
                (k + 1) * size
            } else {
                count as int
            },
        r.len() * size >= count,
        r.len() > 0 ==> (r.len() - 1) * size < count,
{
    let mut out: Vec<Batch> = Vec::new();
    let mut from: usize = 0;
    assert(0 * size == 0) by (nonlinear_arith);
    while from < count
        invariant
            size > 0,
            from <= count,
            from < count ==> from == out.len() * size,
            from == count ==> out.len() * size >= count && (out.len() > 0 ==> (out.len() - 1)
                * size < count),
            forall|k: int|
                0 <= k < out.len() ==> (#[trigger] out@[k]).from == k * size && out@[k].from
                    < out@[k].to && out@[k].to - out@[k].from <= size && out@[k].to == if (k + 1)
                    * size <= count {
                    (k + 1) * size
                } else {
                    count as int
                },
        decreases count - from,
    {
        let to: usize = if count - from > size {
            from + size
        } else {
            count
        };
        proof {
            let n = out.len() as int;
            assert((n + 1) * size == n * size + size) by (nonlinear_arith);
            assert((n + 1 - 1) * size == n * size);
        }
        out.push(Batch { from, to });
        from = to;
    }
    out
}

// ---------------------------------------------------------------------------
// Probing

/// What is known of a host.
pub struct HostFacts {
    pub host: Seq<char>,
    pub target: Seq<char>,
    pub local: bool,
    pub version: Option<Seq<char>>,
    pub protocol: Option<u32>,
    pub server_running: bool,
    pub plugins: Map<Seq<char>, FleetFacts>,
    pub plugin_error: Option<Seq<char>>,
    pub error: Option<Seq<char>>,
}

pub open spec fn inventory(plugins: Map<Seq<char>, FleetPlugin>) -> Map<Seq<char>, FleetFacts> {
    plugins.map_values(|plugin: FleetPlugin| plugin@)
}

impl View for HostState {
    type V = HostFacts;

    open spec fn view(&self) -> HostFacts {
        HostFacts {
            host: self.host@,
            target: self.target@,
            local: self.local,
            version: text::opt_text(self.version),
            protocol: self.protocol,
            server_running: self.server_running,
            plugins: inventory(self.plugins@),
            plugin_error: text::opt_text(self.plugin_error),
            error: text::opt_text(self.error),
        }
    }
}

/// What a listed plugin puts into the inventory.
pub open spec fn fleet_facts(plugin: InstalledPlugin) -> FleetFacts {
    let base = FleetFacts {
        version: text::opt_text(plugin.version),
        source: seq![],
        revision: None,
        owner: None,
        repo: None,
        subdir: None,
        requested_ref: None,
        enabled: plugin.enabled,
    };
    match plugin.source {
        None => base,
        Some(source) => FleetFacts {
            source: source.kind@,
            revision: text::opt_text(source.resolved_commit),
            owner: text::opt_text(source.owner),
            repo: text::opt_text(source.repo),
            subdir: text::opt_text(source.subdir),
            requested_ref: text::opt_text(source.requested_ref),
            ..base
        },
    }
}

/// The inventory that a list of plugins makes up.
pub open spec fn inventory_of(plugins: Seq<InstalledPlugin>) -> Map<Seq<char>, FleetFacts>
    decreases plugins.len(),
{
    if plugins.len() == 0 {
        Map::empty()
    } else {
        inventory_of(plugins.drop_last()).insert(
            plugins.last().plugin_id@,
            fleet_facts(plugins.last()),
        )
    }
}

fn fleet_plugin(plugin: &InstalledPlugin) -> (r: FleetPlugin)
    ensures
        r@ == fleet_facts(*plugin),
{
    let mut r = FleetPlugin {
        version: text::clone_option(&plugin.version),
        source: String::new(),
        revision: None,
        owner: None,
        repo: None,
        subdir: None,
        requested_ref: None,
        enabled: plugin.enabled,
    };
    assert(r.source@ =~= seq![]);
    if let Some(source) = &plugin.source {
        r.source = source.kind.clone();
        r.revision = text::clone_option(&source.resolved_commit);
        r.owner = text::clone_option(&source.owner);
        r.repo = text::clone_option(&source.repo);
        r.subdir = text::clone_option(&source.subdir);
        r.requested_ref = text::clone_option(&source.requested_ref);
    }
    r
}

fn collect_inventory(plugins: &Vec<InstalledPlugin>) -> (r: TextMap<FleetPlugin>)
    ensures
        inventory(r@) == inventory_of(plugins@),
{
    let mut out: TextMap<FleetPlugin> = TextMap::new();
    let mut i: usize = 0;
    assert(inventory(out@) =~= inventory_of(plugins@.take(0)));
    while i < plugins.len()
        invariant
            i <= plugins.len(),
            inventory(out@) == inventory_of(plugins@.take(i as int)),
        decreases plugins.len() - i,
    {
        assert(plugins@.take(i + 1).drop_last() =~= plugins@.take(i as int));
        assert(plugins@.take(i + 1).last() == plugins@[i as int]);
        let plugin = fleet_plugin(&plugins[i]);
        let ghost before = out@;
        let ghost p = plugin;
        out.insert(plugins[i].plugin_id.clone(), plugin);
        assert(inventory(out@) =~= inventory(before).insert(plugins@[i as int].plugin_id@, p@));
        i = i + 1;
    }
    assert(plugins@.take(i as int) =~= plugins@);
    out
}

/// What the core status says of a host.
pub enum CoreAnswer {
    Known(Seq<char>, u32, bool),
    Failed(Seq<char>),
}

/// What the plugin list says of a host.
pub enum ListAnswer {
    Known(Map<Seq<char>, FleetFacts>),
    Failed(Seq<char>),
}

pub open spec fn status_answer(status: StatusJson) -> CoreAnswer {
    CoreAnswer::Known(
        status.client.version@,
        status.client.protocol,
        status.server matches Some(server) && server.running,
    )
}

/// The core status of a remote host, from how the probe ran and what its
/// output parsed to.
pub open spec fn remote_core(
    run: Result<Output, ExecError>,
    parsed: Result<StatusJson, String>,
) -> CoreAnswer {
    match run {
        Err(e) => CoreAnswer::Failed(exec::exec_error_text(e)),
        Ok(out) => if text::has_text(out.stdout@, "NO_HERDR"@) {
            CoreAnswer::Failed("ssh ok, but herdr is not installed on this host"@)
        } else if out.code != 0 {
            CoreAnswer::Failed(ssh_exit_text(out))
        } else {
            match parsed {
                Ok(status) => status_answer(status),
                Err(e) => CoreAnswer::Failed("unparseable status: "@ + e@),
            }
        },
    }
}

pub open spec fn ssh_exit_text(out: Output) -> Seq<char> {
    "ssh exited "@ + text::signed_decimal(out.code as int) + ": "@ + text::first_line_or(
        text::trimmed(out.stderr@),
        "(no stderr)"@,
    )
}

/// The plugin list of a remote host, in the same way.
pub open spec fn remote_list(
    run: Result<Output, ExecError>,
    parsed: Result<Vec<InstalledPlugin>, String>,
) -> ListAnswer {
    match run {
        Err(e) => ListAnswer::Failed(exec::exec_error_text(e)),
        Ok(out) => if out.code != 0 {
            ListAnswer::Failed(ssh_exit_text(out))
        } else {
            match parsed {
                Ok(plugins) => ListAnswer::Known(inventory_of(plugins@)),
                Err(e) => ListAnswer::Failed("unparseable plugin list: "@ + e@),
            }
        },
    }
}

/// A host before anything is known of it.
pub open spec fn unknown_host(host: Seq<char>, target: Seq<char>, local: bool) -> HostFacts {
    HostFacts {
        host,
        target,
        local,
        version: None,
        protocol: None,
        server_running: false,
        plugins: Map::empty(),
        plugin_error: None,
        error: None,
    }
}

pub open spec fn with_core(facts: HostFacts, core: CoreAnswer) -> HostFacts {
    match core {
        CoreAnswer::Known(version, protocol, running) => HostFacts {
            version: Some(version),
            protocol: Some(protocol),
            server_running: running,
            ..facts
        },
        CoreAnswer::Failed(error) => HostFacts { error: Some(error), ..facts },
    }
}

pub open spec fn with_list(facts: HostFacts, list: ListAnswer) -> HostFacts {
    match list {
        ListAnswer::Known(plugins) => HostFacts { plugins, ..facts },
        ListAnswer::Failed(error) => HostFacts { plugin_error: Some(error), ..facts },
    }
}

/// The message about an alias that is not handed to `ssh`.
pub open spec fn refused_alias(target: Seq<char>) -> Seq<char> {
    "refusing to ssh to an implausible alias: "@ + text::debug_text(target)
}

fn blank_host(host: &str, target: &str, local: bool) -> (r: HostState)
    ensures
        r@ == unknown_host(host@, target@, local),
{
    let r = HostState {
        host: host.to_string(),
        target: target.to_string(),
        local,
        version: None,
        protocol: None,
        server_running: false,
        plugins: TextMap::new(),
        plugin_error: None,
        error: None,
    };
    assert(inventory(r.plugins@) =~= Map::<Seq<char>, FleetFacts>::empty());
    r
}

fn take_status(state: HostState, status: &StatusJson) -> (r: HostState)
    ensures
        r@ == with_core(state@, status_answer(*status)),
{
    let mut r = state;
    r.version = Some(status.client.version.clone());
    r.protocol = Some(status.client.protocol);
    r.server_running = match &status.server {
        Some(server) => server.running,
        None => false,
    };
    r
}

fn ssh_exit(out: &Output) -> (r: String)
    ensures
        r@ == ssh_exit_text(*out),
{
    "ssh exited ".to_string().concat(text::signed_text(out.code).as_str()).concat(": ").concat(
        text::first_line(text::trim(out.stderr.as_str()), "(no stderr)").as_str(),
    )
}

fn take_remote_core(
    state: HostState,
    run: &Result<Output, ExecError>,
    parsed: &Result<StatusJson, String>,
) -> (r: HostState)
    ensures
        r@ == with_core(state@, remote_core(*run, *parsed)),
{
    let mut r = state;
    match run {
        Err(e) => {
            r.error = Some(e.describe());
        },
        Ok(out) => {
            if text::contains_text(out.stdout.as_str(), "NO_HERDR") {
                // Worth saying precisely: ssh worked, herdr is simply not
                // there. Reading that as "connection failed" sends people to
                // debug a network that is fine.
                r.error = Some("ssh ok, but herdr is not installed on this host".to_string());
            } else if !out.ok() {
                r.error = Some(ssh_exit(out));
            } else {
                match parsed {
                    Ok(status) => {
                        return take_status(r, status);
                    },
                    Err(e) => {
                        r.error = Some("unparseable status: ".to_string().concat(e.as_str()));
                    },
                }
            }
        },
    }
    r
}

fn take_remote_list(
    state: HostState,
    run: &Result<Output, ExecError>,
    parsed: &Result<Vec<InstalledPlugin>, String>,
) -> (r: HostState)
    ensures
        r@ == with_list(state@, remote_list(*run, *parsed)),
{
    let mut r = state;
    match run {
        Err(e) => {
            r.plugin_error = Some(e.describe());
        },
        Ok(out) => {
            if !out.ok() {
                r.plugin_error = Some(ssh_exit(out));
            } else {
                match parsed {
                    Ok(plugins) => {
                        r.plugins = collect_inventory(plugins);
                    },
                    Err(e) => {
                        r.plugin_error = Some(
                            "unparseable plugin list: ".to_string().concat(e.as_str()),
                        );
                    },
                }
            }
        },
    }
    r
}

/// The script that asks a remote host for its core status. The binary is looked
/// for on `PATH`, then in `~/.local/bin`, because a non-login session
/// frequently has neither that directory on `PATH` nor a profile that adds it.
pub const REMOTE_STATUS: &'static str =
    "if command -v herdr >/dev/null 2>&1; then herdr status --json; elif [ -x \"$HOME/.local/bin/herdr\" ]; then \"$HOME/.local/bin/herdr\" status --json; else echo NO_HERDR; fi";

/// The script that asks a remote host for its plugins.
pub const REMOTE_PLUGINS: &'static str =
    "if command -v herdr >/dev/null 2>&1; then herdr plugin list --json; elif [ -x \"$HOME/.local/bin/herdr\" ]; then \"$HOME/.local/bin/herdr\" plugin list --json; else echo NO_HERDR; exit 10; fi";

pub open spec fn connect_text(timeout: nat) -> Seq<char> {
    "ConnectTimeout="@ + text::decimal(if timeout < 15 { timeout } else { 15 })
}

/// The arguments that run a script on a host.
pub open spec fn ssh_command(target: Seq<char>, script: Seq<char>, timeout: nat) -> Seq<
    Seq<char>,
> {
    seq!["-o"@, "BatchMode=yes"@, "-o"@, connect_text(timeout), target, script]
}

/// The arguments of `ssh` that run a script on a host; `None` where the alias
/// is not plainly one.
pub fn ssh_args(target: &str, script: &str, timeout: u64) -> (r: Option<Vec<String>>)
    ensures
        match r {
            Some(args) => alias(target@) && text::texts(args@) == ssh_command(
                target@,
                script@,
                timeout as nat,
            ),
            None => !alias(target@),
        },
{
    if !valid_alias(target) {
        return None;
    }
    let connect = "ConnectTimeout=".to_string().concat(
        text::number_text(
            if timeout < 15 {
                timeout
            } else {
                15
            },
        ).as_str(),
    );
    let args = vec![
        "-o".to_string(),
        "BatchMode=yes".to_string(),
        "-o".to_string(),
        connect,
        target.to_string(),
        script.to_string(),
    ];
    assert(text::texts(args@) =~= ssh_command(target@, script@, timeout as nat));
    Some(args)
}

/// What a probe of a remote host brought back.
#[derive(Debug)]
pub struct RemoteProbe {
    pub status_run: Result<Output, ExecError>,
    pub status: Result<StatusJson, String>,
    pub list_run: Result<Output, ExecError>,
    pub list: Result<Vec<InstalledPlugin>, String>,
}

/// What is known of a remote host; `None` stands for an alias that was not
/// tried.
pub open spec fn remote_facts(host: Seq<char>, target: Seq<char>, probe: Option<RemoteProbe>)
    -> HostFacts {
    let blank = unknown_host(host, target, false);
    match probe {
        None => HostFacts { error: Some(refused_alias(target)), ..blank },
        Some(p) => with_list(
            with_core(blank, remote_core(p.status_run, p.status)),
            remote_list(p.list_run, p.list),
        ),
    }
}

/// Settles the state of a remote host. The probe is `None` where the alias was
/// refused.
pub fn probe_remote(host: &str, target: &str, probe: &Option<RemoteProbe>) -> (r: HostState)
    ensures
        r@ == remote_facts(host@, target@, *probe),
{
    let mut state = blank_host(host, target, false);
    match probe {
        None => {
            state.error = Some(
                "refusing to ssh to an implausible alias: ".to_string().concat(
                    text::quoted(target).as_str(),
                ),
            );
            state
        },
        Some(p) => {
            let state = take_remote_core(state, &p.status_run, &p.status);
            take_remote_list(state, &p.list_run, &p.list)
        },
    }
}

/// What is known of this machine.
pub open spec fn local_facts(
    status: Result<StatusJson, String>,
    list: Result<Vec<InstalledPlugin>, String>,
) -> HostFacts {
    with_list(
        with_core(
            unknown_host("this machine"@, "local"@, true),
            match status {
                Ok(status) => status_answer(status),
                Err(e) => CoreAnswer::Failed(e@),
            },
        ),
        match list {
            Ok(plugins) => ListAnswer::Known(inventory_of(plugins@)),
            Err(e) => ListAnswer::Failed(e@),
        },
    )
}

/// Settles the state of this machine.
pub fn probe_local(
    status: &Result<StatusJson, String>,
    list: &Result<Vec<InstalledPlugin>, String>,
) -> (r: HostState)
    ensures
        r@ == local_facts(*status, *list),
{
    let mut state = blank_host("this machine", "local", true);
    match status {
        Ok(status) => {
            state = take_status(state, status);
        },
        Err(e) => {
            state.error = Some(e.clone());
        },
    }
    match list {
        Ok(plugins) => {
            state.plugins = collect_inventory(plugins);
        },
        Err(e) => {
            state.plugin_error = Some(e.clone());
        },
    }
    state
}

/// The order of the report: this machine first, then by host name.
pub open spec fn host_order(states: Seq<HostState>) -> spec_fn(int, int) -> bool {
    |i: int, j: int|
        if states[i].local != states[j].local {
            states[i].local
        } else {
            !text::precedes(states[j].host@, states[i].host@)
        }
}

proof fn lemma_host_order(states: Seq<HostState>)
    ensures
        order::total_preorder(host_order(states), states.len()),
{
    let leq = host_order(states);
    assert forall|i: int, j: int|
        0 <= i < states.len() && 0 <= j < states.len() implies #[trigger] leq(i, j) || leq(
        j,
        i,
    ) by {
        text::lemma_precedes_total(states[i].host@, states[j].host@);
    }
    assert forall|i: int, j: int, k: int|
        0 <= i < states.len() && 0 <= j < states.len() && 0 <= k < states.len() && #[trigger] leq(
            i,
            j,
        ) && #[trigger] leq(j, k) implies leq(i, k) by {
        if states[i].local == states[j].local && states[j].local == states[k].local {
            text::lemma_not_before_transitive(states[i].host@, states[j].host@, states[k].host@);
        }
    }
}

/// Puts the states in the order of the report.
pub fn sort_hosts(states: Vec<HostState>) -> (r: Vec<HostState>)
    ensures
        exists|sorted: Seq<usize>|
            order::stable_order(sorted, host_order(states@), states@.len()) && r@
                == #[trigger] order::arranged(states@, sorted),
{
    proof {
        lemma_host_order(states@);
    }
    let ghost leq = host_order(states@);
    let le = |i: usize, j: usize| -> (b: bool)
        requires
            i < states@.len(),
            j < states@.len(),
        ensures
            b == leq(i as int, j as int),
        {
            if states[i].local != states[j].local {
                states[i].local
            } else {
                !text::text_precedes(states[j].host.as_str(), states[i].host.as_str())
            }
        };
    let sorted = order::sort_positions(states.len(), &le, Ghost(leq));
    proof {
        order::lemma_order_distinct(sorted@, leq, states@.len());
    }
    order::arrange(states, &sorted)
}

// ---------------------------------------------------------------------------
// Drift

/// Both the core status and the plugin inventory of a host are known. Only
/// such hosts take part in claims of agreement.
pub open spec fn is_known(state: HostState) -> bool {
    state.error is None && state.plugin_error is None
}

/// Two known hosts speak different protocols.
pub open spec fn splits_protocol(states: Seq<HostState>) -> bool {
    exists|i: int, j: int|
        #![trigger states[i], states[j]]
        0 <= i < states.len() && 0 <= j < states.len() && is_known(states[i]) && is_known(
            states[j],
        ) && states[i].protocol is Some && states[j].protocol is Some && states[i].protocol
            != states[j].protocol
}

/// Two known hosts run different versions.
pub open spec fn splits_version(states: Seq<HostState>) -> bool {
    exists|i: int, j: int|
        #![trigger states[i], states[j]]
        0 <= i < states.len() && 0 <= j < states.len() && is_known(states[i]) && is_known(
            states[j],
        ) && states[i].version is Some && states[j].version is Some && text::opt_text(
            states[i].version,
        ) != text::opt_text(states[j].version)
}

/// What the inventory of a host says of a plugin.
pub open spec fn entry_of(state: HostState, id: Seq<char>) -> Option<FleetFacts> {
    if state.plugins@.contains_key(id) {
        Some(state.plugins@[id]@)
    } else {
        None
    }
}

/// Two known hosts disagree about a plugin.
pub open spec fn drifts(states: Seq<HostState>, id: Seq<char>) -> bool {
    exists|i: int, j: int|
        #![trigger states[i], states[j]]
        0 <= i < states.len() && 0 <= j < states.len() && is_known(states[i]) && is_known(
            states[j],
        ) && entry_of(states[i], id) != entry_of(states[j], id)
}

pub open spec fn unknown_count(states: Seq<HostState>) -> nat
    decreases states.len(),
{
    if states.len() == 0 {
        0
    } else {
        unknown_count(states.drop_last()) + if is_known(states.last()) {
            0nat
        } else {
            1
        }
    }
}

/// What the fleet as a whole looks like.
#[derive(Debug)]
pub struct FleetReport {
    pub protocol_split: bool,
    pub version_split: bool,
    /// The plugins on which known hosts disagree, in order.
    pub drifted: Vec<String>,
    /// The hosts that could not be read.
    pub unreachable: usize,
}

pub open spec fn reports(states: Seq<HostState>, report: FleetReport) -> bool {
    &&& report.protocol_split == splits_protocol(states)
    &&& report.version_split == splits_version(states)
    &&& report.unreachable == unknown_count(states)
    &&& textmap::ascending(text::texts(report.drifted@))
    &&& forall|id: Seq<char>| #[trigger]
        text::texts(report.drifted@).contains(id) <==> drifts(states, id)
}

fn known(state: &HostState) -> (r: bool)
    ensures
        r == is_known(*state),
{
    state.error.is_none() && state.plugin_error.is_none()
}

fn protocol_differs(states: &Vec<HostState>) -> (r: bool)
    ensures
        r == splits_protocol(states@),
{
    let mut first: Option<usize> = None;
    let mut i: usize = 0;
    while i < states.len()
        invariant
            i <= states.len(),
            match first {
                Some(f) => f < i && is_known(states@[f as int]) && states@[f as int].protocol
                    is Some && forall|k: int|
                    0 <= k < i && is_known(#[trigger] states@[k]) && states@[k].protocol is Some
                        ==> states@[k].protocol == states@[f as int].protocol,
                None => forall|k: int|
                    0 <= k < i && is_known(#[trigger] states@[k]) ==> states@[k].protocol is None,
            },
        decreases states.len() - i,
    {
        if known(&states[i]) {
            if let Some(here) = states[i].protocol {
                match first {
                    None => {
                        first = Some(i);
                    },
                    Some(f) => {
                        if states[f].protocol != Some(here) {
                            assert(states@[f as int].protocol != states@[i as int].protocol);
                            return true;
                        }
                    },
                }
            }
        }
        i = i + 1;
    }
    false
}

fn version_differs(states: &Vec<HostState>) -> (r: bool)
    ensures
        r == splits_version(states@),
{
    let mut first: Option<usize> = None;
    let mut i: usize = 0;
    while i < states.len()
        invariant
            i <= states.len(),
            match first {
                Some(f) => f < i && is_known(states@[f as int]) && states@[f as int].version
                    is Some && forall|k: int|
                    0 <= k < i && is_known(#[trigger] states@[k]) && states@[k].version is Some
                        ==> text::opt_text(states@[k].version) == text::opt_text(
                        states@[f as int].version,
                    ),
                None => forall|k: int|
                    0 <= k < i && is_known(#[trigger] states@[k]) ==> states@[k].version is None,
            },
        decreases states.len() - i,
    {
        if known(&states[i]) && states[i].version.is_some() {
            match first {
                None => {
                    first = Some(i);
                },
                Some(f) => {
                    if !text::opt_eq(&states[f].version, &states[i].version) {
                        assert(text::opt_text(states@[f as int].version) != text::opt_text(
                            states@[i as int].version,
                        ));
                        return true;
                    }
                },
            }
        }
        i = i + 1;
    }
    false
}

fn same_plugin(a: &FleetPlugin, b: &FleetPlugin) -> (r: bool)
    ensures
        r == (a@ == b@),
{
    text::opt_eq(&a.version, &b.version) && text::text_eq(a.source.as_str(), b.source.as_str())
        && text::opt_eq(&a.revision, &b.revision) && text::opt_eq(&a.owner, &b.owner)
        && text::opt_eq(&a.repo, &b.repo) && text::opt_eq(&a.subdir, &b.subdir) && text::opt_eq(
        &a.requested_ref,
        &b.requested_ref,
    ) && a.enabled == b.enabled
}

/// Adds the plugins on which two hosts disagree.
fn add_differences(found: &mut TextMap<bool>, a: &HostState, b: &HostState)
    ensures
        forall|id: Seq<char>| #[trigger]
            final(found)@.contains_key(id) <==> old(found)@.contains_key(id) || entry_of(*a, id)
                != entry_of(*b, id),
{
    let ghost before = found@;
    let n = a.plugins.len();
    let mut i: usize = 0;
    while i < n
        invariant
            i <= n,
            n == a.plugins.keys().len(),
            forall|k: int|
                0 <= k < n ==> a.plugins@.contains_key(#[trigger] a.plugins.keys()[k])
                    && a.plugins@[a.plugins.keys()[k]] == a.plugins.values()[k],
            forall|id: Seq<char>| #[trigger] before.contains_key(id) ==> found@.contains_key(id),
            forall|id: Seq<char>| #[trigger]
                found@.contains_key(id) ==> before.contains_key(id) || entry_of(*a, id)
                    != entry_of(*b, id),
            forall|k: int|
                0 <= k < i && entry_of(*a, #[trigger] a.plugins.keys()[k]) != entry_of(
                    *b,
                    a.plugins.keys()[k],
                ) ==> found@.contains_key(a.plugins.keys()[k]),
        decreases n - i,
    {
        let id = a.plugins.key_at(i);
        let differs = match b.plugins.get(id.as_str()) {
            Some(other) => !same_plugin(a.plugins.value_at(i), other),
            None => true,
        };
        assert(entry_of(*a, id@) == Some(a.plugins.values()[i as int]@));
        assert(differs == (entry_of(*a, id@) != entry_of(*b, id@)));
        if differs {
            found.insert(id.clone(), true);
        }
        i = i + 1;
    }
    let m = b.plugins.len();
    let mut j: usize = 0;
    while j < m
        invariant
            j <= m,
            m == b.plugins.keys().len(),
            forall|k: int|
                0 <= k < m ==> b.plugins@.contains_key(#[trigger] b.plugins.keys()[k])
                    && b.plugins@[b.plugins.keys()[k]] == b.plugins.values()[k],
            forall|id: Seq<char>| #[trigger] before.contains_key(id) ==> found@.contains_key(id),
            forall|id: Seq<char>| #[trigger]
                found@.contains_key(id) ==> before.contains_key(id) || entry_of(*a, id)
                    != entry_of(*b, id),
            n == a.plugins.keys().len(),
            forall|k: int|
                0 <= k < n && entry_of(*a, #[trigger] a.plugins.keys()[k]) != entry_of(
                    *b,
                    a.plugins.keys()[k],
                ) ==> found@.contains_key(a.plugins.keys()[k]),
            forall|k: int|
                0 <= k < j && !a.plugins@.contains_key(#[trigger] b.plugins.keys()[k])
                    ==> found@.contains_key(b.plugins.keys()[k]),
        decreases m - j,
    {
        let id = b.plugins.key_at(j);
        if !a.plugins.contains_key(id.as_str()) {
            assert(entry_of(*b, id@) is Some);
            found.insert(id.clone(), true);
        }
        j = j + 1;
    }
    assert forall|id: Seq<char>| entry_of(*a, id) != entry_of(
        *b,
        id,
    ) implies #[trigger] found@.contains_key(id) by {
        if a.plugins@.contains_key(id) {
            assert(a.plugins.keys().contains(id));
            let k = a.plugins.keys().index_of(id);
            assert(a.plugins.keys()[k] == id);
        } else {
            assert(b.plugins@.contains_key(id));
            assert(b.plugins.keys().contains(id));
            let k = b.plugins.keys().index_of(id);
            assert(b.plugins.keys()[k] == id);
        }
    }
}

fn keys_list(map: &TextMap<bool>) -> (r: Vec<String>)
    ensures
        textmap::ascending(text::texts(r@)),
        forall|id: Seq<char>| #[trigger] text::texts(r@).contains(id) <==> map@.contains_key(id),
{
    broadcast use text::lemma_texts_push;

    let n = map.len();
    let ghost keys = map.keys();
    let mut out: Vec<String> = Vec::new();
    let mut i: usize = 0;
    assert(text::texts(out@) =~= keys.take(0));
    while i < n
        invariant
            i <= n,
            n == map.keys().len(),
            keys == map.keys(),
            text::texts(out@) == keys.take(i as int),
        decreases n - i,
    {
        out.push(map.key_at(i).clone());
        assert(keys.take(i + 1) =~= keys.take(i as int).push(keys[i as int]));
        i = i + 1;
    }
    assert(keys.take(i as int) =~= keys);
    out
}

fn drifted_plugins(states: &Vec<HostState>) -> (r: Vec<String>)
    ensures
        textmap::ascending(text::texts(r@)),
        forall|id: Seq<char>| #[trigger] text::texts(r@).contains(id) <==> drifts(states@, id),
{
    let mut found: TextMap<bool> = TextMap::new();
    let mut first: Option<usize> = None;
    let mut i: usize = 0;
    while i < states.len()
        invariant
            i <= states.len(),
            match first {
                Some(f) => f < i && is_known(states@[f as int]) && (forall|id: Seq<char>| #[trigger]
                    found@.contains_key(id) <==> exists|k: int|
                        0 <= k < i && is_known(#[trigger] states@[k]) && entry_of(states@[k], id)
                            != entry_of(states@[f as int], id)),
                None => (forall|id: Seq<char>| !#[trigger] found@.contains_key(id)) && (forall|
                    k: int,
                |
                    0 <= k < i ==> !is_known(#[trigger] states@[k])),
            },
        decreases states.len() - i,
    {
        if known(&states[i]) {
            match first {
                None => {
                    first = Some(i);
                },
                Some(f) => {
                    let ghost before = found@;
                    add_differences(&mut found, &states[f], &states[i]);
                    assert forall|id: Seq<char>| #[trigger]
                        found@.contains_key(id) <==> exists|k: int|
                            0 <= k < i + 1 && is_known(#[trigger] states@[k]) && entry_of(
                                states@[k],
                                id,
                            ) != entry_of(states@[f as int], id) by {
                        assert(found@.contains_key(id) <==> before.contains_key(id) || entry_of(
                            states@[f as int],
                            id,
                        ) != entry_of(states@[i as int], id));
                        if before.contains_key(id) {
                            let k = choose|k: int|
                                0 <= k < i && is_known(#[trigger] states@[k]) && entry_of(
                                    states@[k],
                                    id,
                                ) != entry_of(states@[f as int], id);
                            assert(0 <= k < i + 1 && is_known(states@[k]));
                        }
                        if entry_of(states@[f as int], id) != entry_of(states@[i as int], id) {
                            assert(0 <= i < i + 1 && is_known(states@[i as int]));
                        }
                        if exists|k: int|
                            0 <= k < i + 1 && is_known(#[trigger] states@[k]) && entry_of(
                                states@[k],
                                id,
                            ) != entry_of(states@[f as int], id) {
                            let k = choose|k: int|
                                0 <= k < i + 1 && is_known(#[trigger] states@[k]) && entry_of(
                                    states@[k],
                                    id,
                                ) != entry_of(states@[f as int], id);
                            if k < i {
                                assert(before.contains_key(id));
                            }
                        }
                    }
                },
            }
        }
        i = i + 1;
    }
    proof {
        assert forall|id: Seq<char>| #[trigger] found@.contains_key(id) <==> drifts(
            states@,
            id,
        ) by {
            if found@.contains_key(id) {
                let f = first->0 as int;
                let k = choose|k: int|
                    0 <= k < i && is_known(#[trigger] states@[k]) && entry_of(states@[k], id)
                        != entry_of(states@[f], id);
                assert(is_known(states@[k]) && is_known(states@[f]));
            }
            if drifts(states@, id) {
                let (a, b) = choose|a: int, b: int|
                    #![trigger states@[a], states@[b]]
                    0 <= a < states@.len() && 0 <= b < states@.len() && is_known(states@[a])
                        && is_known(states@[b]) && entry_of(states@[a], id) != entry_of(
                        states@[b],
                        id,
                    );
                assert(first is Some);
                let f = first->0 as int;
                if entry_of(states@[a], id) != entry_of(states@[f], id) {
                    assert(is_known(states@[a]));
                } else {
                    assert(is_known(states@[b]));
                }
            }
        }
    }
    keys_list(&found)
}

fn count_unknown(states: &Vec<HostState>) -> (r: usize)
    ensures
        r == unknown_count(states@),
{
    let mut count: usize = 0;
    let mut i: usize = 0;
    assert(states@.take(0) =~= seq![]);
    while i < states.len()
        invariant
            i <= states.len(),
            count <= i,
            count == unknown_count(states@.take(i as int)),
        decreases states.len() - i,
    {
        assert(states@.take(i + 1).drop_last() =~= states@.take(i as int));
        if !known(&states[i]) {
            count = count + 1;
        }
        i = i + 1;
    }
    assert(states@.take(i as int) =~= states@);
    count
}

/// Compares the hosts. Drift is computed only over hosts that could actually be
/// read: an unreachable host is reported as unknown, never quietly folded into
/// "the fleet agrees".
pub fn compare_hosts(states: &Vec<HostState>) -> (r: FleetReport)
    ensures
        reports(states@, r),
{
    FleetReport {
        protocol_split: protocol_differs(states),
        version_split: version_differs(states),
        drifted: drifted_plugins(states),
        unreachable: count_unknown(states),
    }
}

pub open spec fn fleet_code(report: FleetReport) -> i32 {
    if report.unreachable > 0 {
        2
    } else if report.protocol_split || report.version_split || report.drifted@.len() > 0 {
        1
    } else {
        0
    }
}

/// The exit code of a fleet report.
pub fn exit_code(report: &FleetReport) -> (r: i32)
    ensures
        r == fleet_code(*report),
{
    if report.unreachable > 0 {
        2
    } else if report.protocol_split || report.version_split || report.drifted.len() > 0 {
        1
    } else {
        0
    }
}

/// A fleet is only called in agreement where every host was read, all have the
/// same plugins, and all that report a version or a protocol report the same.
pub proof fn law_agreement_is_earned(states: Seq<HostState>, report: FleetReport)
    requires
        reports(states, report),
        fleet_code(report) == 0,
    ensures
        forall|i: int| 0 <= i < states.len() ==> is_known(#[trigger] states[i]),
        forall|i: int, j: int|
            #![trigger states[i], states[j]]
            0 <= i < states.len() && 0 <= j < states.len() ==> {
                &&& states[i].protocol is Some && states[j].protocol is Some ==> states[i].protocol
                    == states[j].protocol
                &&& states[i].version is Some && states[j].version is Some ==> text::opt_text(
                    states[i].version,
                ) == text::opt_text(states[j].version)
                &&& forall|id: Seq<char>| entry_of(states[i], id) == entry_of(states[j], id)
            },
{
    lemma_all_known(states);
    assert forall|i: int, j: int|
        #![trigger states[i], states[j]]
        0 <= i < states.len() && 0 <= j < states.len() implies {
        &&& states[i].protocol is Some && states[j].protocol is Some ==> states[i].protocol
            == states[j].protocol
        &&& states[i].version is Some && states[j].version is Some ==> text::opt_text(
            states[i].version,
        ) == text::opt_text(states[j].version)
        &&& forall|id: Seq<char>| entry_of(states[i], id) == entry_of(states[j], id)
    } by {
        assert(is_known(states[i]) && is_known(states[j]));
        assert forall|id: Seq<char>| entry_of(states[i], id) == entry_of(states[j], id) by {
            assert(!text::texts(report.drifted@).contains(id));
            assert(!drifts(states, id));
        }
    }
}

proof fn lemma_all_known(states: Seq<HostState>)
    requires
        unknown_count(states) == 0,
    ensures
        forall|i: int| 0 <= i < states.len() ==> is_known(#[trigger] states[i]),
    decreases states.len(),
{
    if states.len() > 0 {
        lemma_all_known(states.drop_last());
        assert forall|i: int| 0 <= i < states.len() implies is_known(#[trigger] states[i]) by {
            if i < states.len() - 1 {
                assert(states[i] == states.drop_last()[i]);
            }
        }
    }
}

// ---------------------------------------------------------------------------
// Text

/// Deliberately narrow about blast radius: `herdr-mirror` runs the remote
/// host's own binary and is not affected by a split. A warning that overstates
/// the damage gets disabled, and then it protects nothing.
pub const SPLIT_WARNING: &'static str =
    "  \u{26a0} PROTOCOL SPLIT — hosts are on different herdr protocols.\n    `herdr --remote` negotiates on this, so a local client cannot attach to a\n    remote server across the split.\n    herdr-mirror is NOT affected the same way: it runs the remote host's own\n    herdr binary, so both ends of that conversation already match.\n    Update before relying on --remote, and close the drift regardless.";

/// A version that fits its column: a long one is cut and marked. The full value
/// is always in the machine-readable output.
pub open spec fn short_version(version: Option<Seq<char>>) -> Seq<char> {
    match version {
        None => "?"@,
        Some(v) => if v.len() > 14 {
            v.take(13) + "\u{2026}"@
        } else {
            v
        },
    }
}

pub open spec fn row_text(state: HostState) -> Seq<char> {
    "  "@ + text::padded_right(state.host@, 16) + " "@ + text::padded_right(
        short_version(text::opt_text(state.version)),
        14,
    ) + " "@ + text::padded_right(
        match state.protocol {
            Some(p) => text::decimal(p as nat),
            None => "?"@,
        },
        9,
    ) + " "@ + text::padded_right(
        if state.error is Some {
            "-"@
        } else if state.server_running {
            "running"@
        } else {
            "stopped"@
        },
        9,
    ) + (match (state.error, state.plugin_error) {
        (Some(e), _) => "  "@ + e@,
        (None, Some(e)) => "  plugins unknown: "@ + e@,
        (None, None) => seq![],
    })
}

pub open spec fn rows(states: Seq<HostState>) -> Seq<Seq<char>> {
    Seq::new(states.len(), |i: int| row_text(states[i]))
}

pub open spec fn heading(source: Option<Seq<char>>) -> Seq<char> {
    match source {
        Some(path) => "fleet (from "@ + path + ")"@,
        None => "fleet (no hosts.toml found — checked ~/"@ + OWN_HOSTS@ + " and ~/"@
            + MIRROR_HOSTS@ + "; showing this machine only)"@,
    }
}

pub open spec fn column_heads() -> Seq<char> {
    "  "@ + text::padded_right("HOST"@, 16) + " "@ + text::padded_right("HERDR"@, 14) + " "@
        + text::padded_right("PROTOCOL"@, 9) + " "@ + text::padded_right("SERVER"@, 9)
}

/// The verdict lines below the table.
pub open spec fn verdict_lines(report: FleetReport) -> Seq<Seq<char>> {
    let version = if report.protocol_split {
        seq![SPLIT_WARNING@]
    } else if report.version_split {
        seq![
            "  version drift, but the protocol matches on every host we could read —\n    mirrors and --remote keep working; update at your convenience."@,
        ]
    } else if report.drifted@.len() == 0 && report.unreachable == 0 {
        seq!["  fleet agrees: one version, one protocol."@]
    } else {
        seq![]
    };
    let drift = if report.drifted@.len() > 0 {
        seq!["  plugin drift: "@ + text::joined(text::texts(report.drifted@), ", "@)]
    } else {
        seq![]
    };
    let unread = if report.unreachable > 0 {
        seq![
            "  "@ + text::decimal(report.unreachable as nat)
                + " host(s) could not be read — excluded from the verdict above, not assumed to agree."@,
        ]
    } else {
        seq![]
    };
    version + drift + unread
}

/// The whole report, line by line.
pub open spec fn fleet_lines(
    source: Option<Seq<char>>,
    states: Seq<HostState>,
    report: FleetReport,
) -> Seq<Seq<char>> {
    seq![heading(source), seq![], column_heads()] + rows(states) + seq![Seq::<char>::empty()]
        + verdict_lines(report)
}

fn version_column(version: &Option<String>) -> (r: String)
    ensures
        r@ == short_version(text::opt_text(*version)),
{
    match version {
        None => "?".to_string(),
        Some(v) => if v.as_str().unicode_len() > 14 {
            let cut = v.as_str().substring_char(0, 13);
            assert(cut@ =~= v@.take(13));
            cut.to_string().concat("\u{2026}")
        } else {
            v.clone()
        },
    }
}

fn row(state: &HostState) -> (r: String)
    ensures
        r@ == row_text(*state),
{
    let protocol = match state.protocol {
        Some(p) => text::number_text(p as u64),
        None => "?".to_string(),
    };
    let server = if state.error.is_some() {
        "-"
    } else if state.server_running {
        "running"
    } else {
        "stopped"
    };
    let line = "  ".to_string().concat(
        text::pad_right(state.host.as_str(), 16).as_str(),
    ).concat(" ").concat(
        text::pad_right(version_column(&state.version).as_str(), 14).as_str(),
    ).concat(" ").concat(text::pad_right(protocol.as_str(), 9).as_str()).concat(" ").concat(
        text::pad_right(server, 9).as_str(),
    );
    match (&state.error, &state.plugin_error) {
        (Some(e), _) => {
            let note = "  ".to_string().concat(e.as_str());
            line.concat(note.as_str())
        },
        (None, Some(e)) => {
            let note = "  plugins unknown: ".to_string().concat(e.as_str());
            line.concat(note.as_str())
        },
        (None, None) => {
            assert(line@ + Seq::<char>::empty() =~= line@);
            line
        },
    }
}

/// Renders the report, line by line.
pub fn render(source: Option<&str>, states: &Vec<HostState>, report: &FleetReport) -> (r: Vec<
    String,
>)
    ensures
        text::texts(r@) == fleet_lines(text::opt_str(source), states@, *report),
{
    broadcast use text::lemma_texts_push;

    let mut out: Vec<String> = Vec::new();
    let first = match source {
        Some(path) => "fleet (from ".to_string().concat(path).concat(")"),
        None => "fleet (no hosts.toml found — checked ~/".to_string().concat(OWN_HOSTS).concat(
            " and ~/",
        ).concat(MIRROR_HOSTS).concat("; showing this machine only)"),
    };
    out.push(first);
    let blank = String::new();
    assert(blank@ =~= Seq::<char>::empty());
    out.push(blank);
    out.push(
        "  ".to_string().concat(text::pad_right("HOST", 16).as_str()).concat(" ").concat(
            text::pad_right("HERDR", 14).as_str(),
        ).concat(" ").concat(text::pad_right("PROTOCOL", 9).as_str()).concat(" ").concat(
            text::pad_right("SERVER", 9).as_str(),
        ),
    );
    let ghost top = seq![heading(text::opt_str(source)), seq![], column_heads()];
    assert(text::texts(out@) =~= top + rows(states@).take(0));
    let mut i: usize = 0;
    while i < states.len()
        invariant
            i <= states.len(),
            text::texts(out@) == top + rows(states@).take(i as int),
        decreases states.len() - i,
    {
        let line = row(&states[i]);
        let ghost before = text::texts(out@);
        let ghost l = line@;
        out.push(line);
        assert(text::texts(out@) =~= before.push(l));
        assert(rows(states@).take(i + 1) =~= rows(states@).take(i as int).push(
            row_text(states@[i as int]),
        ));
        assert(text::texts(out@) =~= top + rows(states@).take(i + 1));
        i = i + 1;
    }
    assert(rows(states@).take(i as int) =~= rows(states@));
    let blank = String::new();
    assert(blank@ =~= Seq::<char>::empty());
    out.push(blank);
    let ghost body = top + rows(states@) + seq![Seq::<char>::empty()];
    assert(text::texts(out@) =~= body);
    if report.protocol_split {
        out.push(SPLIT_WARNING.to_string());
    } else if report.version_split {
        out.push(
            "  version drift, but the protocol matches on every host we could read —\n    mirrors and --remote keep working; update at your convenience.".to_string(),
        );
    } else if report.drifted.len() == 0 && report.unreachable == 0 {
        out.push("  fleet agrees: one version, one protocol.".to_string());
    }
    if report.drifted.len() > 0 {
        out.push("  plugin drift: ".to_string().concat(text::join(&report.drifted, ", ").as_str()));
    }
    if report.unreachable > 0 {
        out.push(
            "  ".to_string().concat(text::number_text(report.unreachable as u64).as_str()).concat(
                " host(s) could not be read — excluded from the verdict above, not assumed to agree.",
            ),
        );
    }
    assert(text::texts(out@) =~= fleet_lines(text::opt_str(source), states@, *report));
    out
}

// ---------------------------------------------------------------------------
// What the report claims

/// Two hosts that were read disagree on their protocol.
pub open spec fn protocols_differ(a: HostState, b: HostState) -> bool {
    a.error is None && a.plugin_error is None && b.error is None && b.plugin_error is None
        && a.protocol is Some && b.protocol is Some && a.protocol->0 != b.protocol->0
}

/// The verdict below the table is true of the hosts. Where two hosts that were
/// read speak different protocols, it warns of the split; that the protocol
/// matches everywhere, or that the fleet agrees, is only said where no two do.
pub proof fn law_verdict_is_true_of_the_hosts(
    source: Option<Seq<char>>,
    states: Seq<HostState>,
    report: FleetReport,
)
    requires
        reports(states, report),
    ensures
        ({
            let lines = fleet_lines(source, states, report);
            let below = lines.skip(states.len() as int + 4);
            let split = exists|i: int, j: int|
                #![trigger states[i], states[j]]
                0 <= i < states.len() && 0 <= j < states.len() && protocols_differ(
                    states[i],
                    states[j],
                );
            &&& split ==> below.len() > 0 && below[0] == SPLIT_WARNING@ && lines.contains(
                SPLIT_WARNING@,
            )
            &&& !split ==> !below.contains(SPLIT_WARNING@)
            &&& below.contains(
                "  version drift, but the protocol matches on every host we could read —\n    mirrors and --remote keep working; update at your convenience."@,
            ) ==> !split
            &&& below.contains("  fleet agrees: one version, one protocol."@) ==> !split && forall|
                i: int,
            |
                0 <= i < states.len() ==> (#[trigger] states[i]).error is None
                    && states[i].plugin_error is None
        }),
{
    reveal_strlit(
        "  version drift, but the protocol matches on every host we could read —\n    mirrors and --remote keep working; update at your convenience.",
    );
    reveal_strlit("  fleet agrees: one version, one protocol.");
    reveal_strlit("  plugin drift: ");
    reveal_strlit("  ");
    lemma_split_warning();
    let drift =
        "  version drift, but the protocol matches on every host we could read —\n    mirrors and --remote keep working; update at your convenience."@;
    let agrees = "  fleet agrees: one version, one protocol."@;
    assert(drift[2] == 'v' && agrees[2] == 'f');
    let lines = fleet_lines(source, states, report);
    let below = lines.skip(states.len() as int + 4);
    assert(below =~= verdict_lines(report));
    let split = exists|i: int, j: int|
        #![trigger states[i], states[j]]
        0 <= i < states.len() && 0 <= j < states.len() && protocols_differ(states[i], states[j]);
    assert(split == splits_protocol(states)) by {
        if split {
            let (i, j) = choose|i: int, j: int|
                #![trigger states[i], states[j]]
                0 <= i < states.len() && 0 <= j < states.len() && protocols_differ(
                    states[i],
                    states[j],
                );
            assert(is_known(states[i]) && is_known(states[j]));
        }
        if splits_protocol(states) {
            let (i, j) = choose|i: int, j: int|
                #![trigger states[i], states[j]]
                0 <= i < states.len() && 0 <= j < states.len() && is_known(states[i]) && is_known(
                    states[j],
                ) && states[i].protocol is Some && states[j].protocol is Some && states[i].protocol
                    != states[j].protocol;
            assert(protocols_differ(states[i], states[j]));
        }
    }
    let said = text::decimal(report.unreachable as nat);
    text::law_decimal_reads_back(report.unreachable as nat, report.unreachable as nat);
    assert(text::is_digit(said[0]));
    assert forall|k: int| 0 <= k < below.len() implies (below[k] == SPLIT_WARNING@ ==> split) && (
    below[k] == drift ==> !split) && (below[k] == agrees ==> !split && report.unreachable == 0) by {
        let line = verdict_lines(report)[k];
        if report.drifted@.len() > 0 {
            let named = "  plugin drift: "@ + text::joined(text::texts(report.drifted@), ", "@);
            assert(named[2] == 'p');
        }
        if report.unreachable > 0 {
            let unread = "  "@ + said
                + " host(s) could not be read — excluded from the verdict above, not assumed to agree."@;
            assert(unread[2] == said[0]);
        }
    }
    if split {
        assert(lines[states.len() as int + 4] == below[0]);
    }
    if report.unreachable == 0 {
        lemma_known_count(states);
    }
}

proof fn lemma_split_warning()
    ensures
        SPLIT_WARNING@[2] == '\u{26a0}',
        text::has_text(SPLIT_WARNING@, "PROTOCOL SPLIT"@),
{
    reveal_strlit(
        "  \u{26a0} PROTOCOL SPLIT — hosts are on different herdr protocols.\n    `herdr --remote` negotiates on this, so a local client cannot attach to a\n    remote server across the split.\n    herdr-mirror is NOT affected the same way: it runs the remote host's own\n    herdr binary, so both ends of that conversation already match.\n    Update before relying on --remote, and close the drift regardless.",
    );
    reveal_strlit("PROTOCOL SPLIT");
    assert(SPLIT_WARNING@.subrange(4, 18) =~= "PROTOCOL SPLIT"@);
    assert(text::occurs_at(SPLIT_WARNING@, "PROTOCOL SPLIT"@, 4));
}

/// The warning of a split says so.
pub proof fn law_split_warning_names_the_split()
    ensures
        text::has_text(SPLIT_WARNING@, "PROTOCOL SPLIT"@),
{
    lemma_split_warning();
}

proof fn lemma_known_count(states: Seq<HostState>)
    ensures
        unknown_count(states) == 0 <==> forall|i: int|
            0 <= i < states.len() ==> (#[trigger] states[i]).error is None
                && states[i].plugin_error is None,
        unknown_count(states) <= states.len(),
    decreases states.len(),
{
    if states.len() > 0 {
        let rest = states.drop_last();
        lemma_known_count(rest);
        assert(forall|i: int| 0 <= i < rest.len() ==> #[trigger] rest[i] == states[i]);
        if forall|i: int|
            0 <= i < states.len() ==> (#[trigger] states[i]).error is None && states[i].plugin_error
                is None {
            assert(is_known(states[states.len() - 1]));
        }
        if unknown_count(states) == 0 {
            assert forall|i: int| 0 <= i < states.len() implies (#[trigger] states[i]).error is None
                && states[i].plugin_error is None by {
                if i < rest.len() {
                    assert(rest[i] == states[i]);
                } else {
                    assert(states[i] == states.last());
                }
            }
        }
    }
}

/// Hosts that differ are never reported as agreeing: not two protocols, not two
/// versions, not two inventories, and not a host that could not be read, which
/// is worth more than any drift.
pub proof fn law_differences_are_reported(states: Seq<HostState>, report: FleetReport, i: int, j: int)
    requires
        reports(states, report),
        0 <= i < states.len(),
        0 <= j < states.len(),
    ensures
        states[i].error is Some || states[i].plugin_error is Some ==> fleet_code(report) == 2,
        protocols_differ(states[i], states[j]) ==> report.protocol_split && fleet_code(report) != 0,
        is_known(states[i]) && is_known(states[j]) && states[i].version is Some && states[j].version
            is Some && states[i].version->0@ != states[j].version->0@ ==> report.version_split
            && fleet_code(report) != 0,
        is_known(states[i]) && is_known(states[j]) ==> forall|id: Seq<char>|
            entry_of(states[i], id) != entry_of(states[j], id) ==> #[trigger] text::texts(
                report.drifted@,
            ).contains(id) && fleet_code(report) != 0,
{
    lemma_known_count(states);
    assert forall|id: Seq<char>|
        is_known(states[i]) && is_known(states[j]) && entry_of(states[i], id) != entry_of(
            states[j],
            id,
        ) implies #[trigger] text::texts(report.drifted@).contains(id) && fleet_code(report)
        != 0 by {
        assert(drifts(states, id));
        assert(text::texts(report.drifted@).contains(id));
        assert(text::texts(report.drifted@).len() > 0);
    }
}

/// Where every host was read and all agree, the report is green; where all were
/// read and some differ, it asks for attention.
pub proof fn law_code_tells_drift_from_silence(states: Seq<HostState>, report: FleetReport)
    requires
        reports(states, report),
        forall|i: int| 0 <= i < states.len() ==> is_known(#[trigger] states[i]),
    ensures
        fleet_code(report) == 0 <==> !splits_protocol(states) && !splits_version(states) && forall|
            id: Seq<char>,
        |
            !drifts(states, id),
        fleet_code(report) == 0 || fleet_code(report) == 1,
{
    lemma_known_count(states);
    assert forall|i: int| 0 <= i < states.len() implies (#[trigger] states[i]).error is None
        && states[i].plugin_error is None by {
        assert(is_known(states[i]));
    }
    if report.drifted@.len() > 0 {
        let id = text::texts(report.drifted@)[0];
        assert(text::texts(report.drifted@).contains(id));
        assert(drifts(states, id));
    } else {
        assert forall|id: Seq<char>| !drifts(states, id) by {
            assert(!text::texts(report.drifted@).contains(id));
        }
    }
}

/// A remote host is known by its answers alone: its version, protocol, server
/// and plugins are those it reported, and a probe that failed in any way leaves
/// an error and no answer.
pub proof fn law_host_is_known_by_its_answers(
    host: Seq<char>,
    target: Seq<char>,
    probe: RemoteProbe,
)
    ensures
        ({
            let facts = remote_facts(host, target, Some(probe));
            let reached = probe.status_run matches Ok(out) && out.code == 0 && !text::has_text(
                out.stdout@,
                "NO_HERDR"@,
            );
            let listed = probe.list_run matches Ok(out) && out.code == 0;
            &&& facts.host == host && facts.target == target && !facts.local
            &&& facts.error is None <==> reached && probe.status is Ok
            &&& facts.plugin_error is None <==> listed && probe.list is Ok
            &&& reached && probe.status is Ok ==> {
                let said = probe.status->Ok_0;
                &&& facts.version == Some(said.client.version@)
                &&& facts.protocol == Some(said.client.protocol)
                &&& facts.server_running == (said.server matches Some(s) && s.running)
            }
            &&& facts.error is Some ==> facts.version is None && facts.protocol is None
            &&& listed && probe.list is Ok ==> facts.plugins == inventory_of(probe.list->Ok_0@)
            &&& facts.plugin_error is Some ==> facts.plugins == Map::<Seq<char>, FleetFacts>::empty()
        }),
        remote_facts(host, target, None).error is Some,
{
}

/// This machine is known in the same way, and as itself.
pub proof fn law_this_machine_is_known_by_its_answers(
    status: Result<StatusJson, String>,
    list: Result<Vec<InstalledPlugin>, String>,
)
    ensures
        ({
            let facts = local_facts(status, list);
            &&& facts.local
            &&& facts.error is None <==> status is Ok
            &&& facts.plugin_error is None <==> list is Ok
            &&& status matches Ok(said) ==> facts.version == Some(said.client.version@)
                && facts.protocol == Some(said.client.protocol) && facts.server_running == (
            said.server matches Some(s) && s.running)
            &&& status is Err ==> facts.version is None && facts.protocol is None
            &&& list matches Ok(plugins) ==> facts.plugins == inventory_of(plugins@)
        }),
{
}

/// The inventory holds each listed plugin, by its id, with the source, commit
/// and enabled state that the list has for it, and nothing else.
pub proof fn law_inventory_is_the_list(plugins: Seq<InstalledPlugin>, id: Seq<char>)
    ensures
        inventory_of(plugins).contains_key(id) <==> exists|i: int|
            0 <= i < plugins.len() && (#[trigger] plugins[i]).plugin_id@ == id,
        inventory_of(plugins).contains_key(id) ==> exists|i: int|
            0 <= i < plugins.len() && (#[trigger] plugins[i]).plugin_id@ == id && ({
                let entry = inventory_of(plugins)[id];
                &&& entry.enabled == plugins[i].enabled
                &&& entry.version == text::opt_text(plugins[i].version)
                &&& plugins[i].source matches Some(s) ==> entry.source == s.kind@ && entry.revision
                    == text::opt_text(s.resolved_commit) && entry.owner == text::opt_text(s.owner)
                    && entry.repo == text::opt_text(s.repo) && entry.subdir == text::opt_text(
                    s.subdir,
                ) && entry.requested_ref == text::opt_text(s.requested_ref)
                &&& plugins[i].source is None ==> entry.revision is None && entry.owner is None
                    && entry.repo is None
            }),
    decreases plugins.len(),
{
    if plugins.len() > 0 {
        let rest = plugins.drop_last();
        law_inventory_is_the_list(rest, id);
        let n = plugins.len() - 1;
        if plugins[n].plugin_id@ == id {
            assert(inventory_of(plugins)[id] == fleet_facts(plugins[n]));
        } else {
            assert(inventory_of(plugins).contains_key(id) == inventory_of(rest).contains_key(id));
            if inventory_of(rest).contains_key(id) {
                assert(inventory_of(plugins)[id] == inventory_of(rest)[id]);
                assert(forall|i: int| 0 <= i < rest.len() ==> #[trigger] rest[i] == plugins[i]);
            }
            if exists|i: int|
                0 <= i < plugins.len() && (#[trigger] plugins[i]).plugin_id@ == id {
                let i = choose|i: int|
                    0 <= i < plugins.len() && (#[trigger] plugins[i]).plugin_id@ == id;
                assert(rest[i].plugin_id@ == id);
            }
        }
    }
}

/// A host without a target is reached by its name; one with a target by that.
/// Asking for hosts by name or by target selects those, asking for none selects
/// all.
pub proof fn law_hosts_go_by_name_or_target(name: Seq<char>, entry: HostEntry, host: Host)
    ensures
        entry.target is None ==> target_of(name, entry) == name,
        entry.target matches Some(t) ==> target_of(name, entry) == t@,
        named(seq![], host),
        named(seq![name], host) <==> host.name@ == name || host.target@ == name,
{
    let only = seq![name];
    assert(only[0] == name);
    assert(only.contains(name));
}

/// What was asked for and is no host of the fleet is reported, and nothing that
/// is one.
pub proof fn law_missing_hosts_are_named(hosts: Seq<Host>, only: Seq<Seq<char>>, asked: Seq<char>)
    ensures
        missing_among(hosts, only).contains(asked) <==> only.contains(asked) && forall|i: int|
            0 <= i < hosts.len() ==> (#[trigger] hosts[i]).name@ != asked && hosts[i].target@
                != asked,
    decreases only.len(),
{
    if only.len() > 0 {
        let rest = only.drop_last();
        let last = only.last();
        law_missing_hosts_are_named(hosts, rest, asked);
        let before = missing_among(hosts, rest);
        let all = missing_among(hosts, only);
        assert(only.contains(asked) <==> rest.contains(asked) || last == asked) by {
            if only.contains(asked) {
                let i = choose|i: int| 0 <= i < only.len() && only[i] == asked;
                if i < rest.len() {
                    assert(rest[i] == asked);
                }
            }
            if rest.contains(asked) {
                let i = choose|i: int| 0 <= i < rest.len() && rest[i] == asked;
                assert(only[i] == asked);
            }
            assert(only[only.len() - 1] == last);
        }
        if !matches_some(hosts, last) {
            assert(all =~= before.push(last));
            assert(all.contains(asked) <==> before.contains(asked) || last == asked) by {
                if all.contains(asked) {
                    let i = choose|i: int| 0 <= i < all.len() && all[i] == asked;
                    if i < before.len() {
                        assert(before[i] == asked);
                    }
                }
                if before.contains(asked) {
                    let i = choose|i: int| 0 <= i < before.len() && before[i] == asked;
                    assert(all[i] == asked);
                }
                assert(all[all.len() - 1] == last);
            }
        }
        if last == asked {
            assert(matches_some(hosts, last) <==> !(forall|i: int|
                0 <= i < hosts.len() ==> (#[trigger] hosts[i]).name@ != asked && hosts[i].target@
                    != asked));
        }
    }
}

/// `ssh` runs the script on the very target, never asks for a password, and
/// waits for a connection no longer than it may.
pub proof fn law_ssh_runs_the_script_on_the_target(
    target: Seq<char>,
    script: Seq<char>,
    timeout: nat,
)
    ensures
        ({
            let args = ssh_command(target, script, timeout);
            &&& args.len() == 6
            &&& args[4] == target && args[5] == script
            &&& args[0] == "-o"@ && args[1] == "BatchMode=yes"@ && args[2] == "-o"@
            &&& timeout <= 15 ==> args[3] == "ConnectTimeout="@ + text::decimal(timeout)
            &&& timeout > 15 ==> args[3] == "ConnectTimeout="@ + text::decimal(15)
        }),
{
}

/// Every host has its row, in order, and the row tells its name, its version
/// and protocol where they are known, whether its server runs, and its error.
pub proof fn law_every_host_has_its_row(
    source: Option<Seq<char>>,
    states: Seq<HostState>,
    report: FleetReport,
    i: int,
)
    requires
        0 <= i < states.len(),
    ensures
        ({
            let row = fleet_lines(source, states, report)[i + 3];
            let state = states[i];
            &&& text::begins_with(row, "  "@ + state.host@)
            &&& state.error matches Some(e) ==> text::finishes_with(row, "  "@ + e@)
            &&& state.error is None && state.plugin_error is Some ==> text::finishes_with(
                row,
                "  plugins unknown: "@ + state.plugin_error->0@,
            )
            &&& (state.version matches Some(v) && v@.len() <= 14) ==> text::has_text(
                row,
                " "@ + state.version->0@,
            )
            &&& state.protocol matches Some(p) ==> text::has_text(
                row,
                " "@ + text::decimal(p as nat),
            )
            &&& state.error is None && state.server_running ==> text::has_text(row, " running"@)
            &&& state.error is None && !state.server_running ==> text::has_text(row, " stopped"@)
        }),
        source matches Some(path) ==> text::has_text(fleet_lines(source, states, report)[0], path),
{
    assert(fleet_lines(source, states, report)[i + 3] == row_text(states[i]));
    lemma_row_ends(states[i]);
    lemma_row_cells(states[i]);
    if let Some(path) = source {
        let head = "fleet (from "@ + path + ")"@;
        assert(fleet_lines(source, states, report)[0] == head);
        text::lemma_has_middle("fleet (from "@, path, ")"@);
    }
}

spec fn server_cell(state: HostState) -> Seq<char> {
    if state.error is Some {
        "-"@
    } else if state.server_running {
        "running"@
    } else {
        "stopped"@
    }
}

spec fn row_tail(state: HostState) -> Seq<char> {
    match (state.error, state.plugin_error) {
        (Some(e), _) => "  "@ + e@,
        (None, Some(e)) => "  plugins unknown: "@ + e@,
        (None, None) => seq![],
    }
}

proof fn lemma_row_ends(state: HostState)
    ensures
        text::begins_with(row_text(state), "  "@ + state.host@),
        text::finishes_with(row_text(state), row_tail(state)),
{
    let row = row_text(state);
    let tail = row_tail(state);
    assert(row.subrange(0, ("  "@ + state.host@).len() as int) =~= "  "@ + state.host@);
    assert(row.subrange(row.len() - tail.len(), row.len() as int) =~= tail);
}

proof fn lemma_row_cells(state: HostState)
    ensures
        (state.version matches Some(v) && v@.len() <= 14) ==> text::has_text(
            row_text(state),
            " "@ + state.version->0@,
        ),
        state.protocol matches Some(p) ==> text::has_text(
            row_text(state),
            " "@ + text::decimal(p as nat),
        ),
        state.error is None && state.server_running ==> text::has_text(
            row_text(state),
            " running"@,
        ),
        state.error is None && !state.server_running ==> text::has_text(
            row_text(state),
            " stopped"@,
        ),
{
    let row = row_text(state);
    let version = short_version(text::opt_text(state.version));
    let protocol = match state.protocol {
        Some(p) => text::decimal(p as nat),
        None => "?"@,
    };
    let server = server_cell(state);
    let tail = row_tail(state);
    let a = "  "@ + text::padded_right(state.host@, 16);
    let b = a + " "@ + text::padded_right(version, 14);
    let c = b + " "@ + text::padded_right(protocol, 9);
    assert(row =~= c + " "@ + text::padded_right(server, 9) + tail);
    let after_protocol = " "@ + text::padded_right(server, 9) + tail;
    let after_version = " "@ + text::padded_right(protocol, 9) + after_protocol;
    assert(row =~= b + after_version);
    assert(row =~= c + after_protocol);
    lemma_cell(a, version, 14, after_version, row);
    lemma_cell(b, protocol, 9, after_protocol, row);
    lemma_cell(c, server, 9, tail, row);
    assert(" running"@ =~= " "@ + "running"@) by {
        reveal_strlit(" ");
        reveal_strlit("running");
        reveal_strlit(" running");
    }
    assert(" stopped"@ =~= " "@ + "stopped"@) by {
        reveal_strlit(" ");
        reveal_strlit("stopped");
        reveal_strlit(" stopped");
    }
}

proof fn lemma_cell(
    before: Seq<char>,
    cell: Seq<char>,
    width: nat,
    after: Seq<char>,
    row: Seq<char>,
)
    requires
        row == before + " "@ + text::padded_right(cell, width) + after,
    ensures
        text::has_text(row, " "@ + cell),
{
    reveal_strlit(" ");
    let at = before.len() as int;
    let shown = " "@ + cell;
    assert(row.subrange(at, at + shown.len()) =~= shown);
    assert(text::occurs_at(row, shown, at));
}

/// This machine comes first in a report, and the others follow by name.
pub proof fn law_report_order(states: Seq<HostState>, i: int, j: int)
    requires
        0 <= i < states.len(),
        0 <= j < states.len(),
    ensures
        states[i].local && !states[j].local ==> host_order(states)(i, j) && !host_order(states)(
            j,
            i,
        ),
        states[i].local == states[j].local && text::precedes(states[i].host@, states[j].host@)
            ==> host_order(states)(i, j) && !host_order(states)(j, i),
{
    text::lemma_precedes_total(states[i].host@, states[j].host@);
}

/// Every host that could not be read is counted once.
pub proof fn law_unread_hosts_are_counted(states: Seq<HostState>, state: HostState)
    ensures
        unknown_count(seq![]) == 0,
        state.error is None && state.plugin_error is None ==> unknown_count(states.push(state))
            == unknown_count(states),
        state.error is Some || state.plugin_error is Some ==> unknown_count(states.push(state))
            == unknown_count(states) + 1,
{
    assert(states.push(state).drop_last() =~= states);
}

/// A host is selected where it was asked for by its name or its target, or where
/// nothing was asked for.
pub proof fn law_selection_is_exact(only: Seq<Seq<char>>, host: Host)
    ensures
        named(only, host) <==> only.len() == 0 || exists|i: int|
            0 <= i < only.len() && (#[trigger] only[i] == host.name@ || only[i] == host.target@),
{
    if only.contains(host.name@) {
        let i = choose|i: int| 0 <= i < only.len() && only[i] == host.name@;
        assert(only[i] == host.name@);
    }
    if only.contains(host.target@) {
        let i = choose|i: int| 0 <= i < only.len() && only[i] == host.target@;
        assert(only[i] == host.target@);
    }
}

/// An alias is a plain word of a bounded length that is no option.
pub proof fn law_alias_is_exact(s: Seq<char>)
    ensures
        alias(s) <==> 0 < s.len() <= 128 && s[0] != '-' && forall|i: int|
            0 <= i < s.len() ==> text::is_alphanumeric(#[trigger] s[i]) || s[i] == '-' || s[i] == '_'
                || s[i] == '.' || s[i] == '@',
{
    let plain = forall|i: int|
        0 <= i < s.len() ==> text::is_alphanumeric(#[trigger] s[i]) || s[i] == '-' || s[i] == '_'
            || s[i] == '.' || s[i] == '@';
    if text::all_in(s, CharClass::Alias) {
        assert forall|i: int| 0 <= i < s.len() implies text::is_alphanumeric(#[trigger] s[i])
            || s[i] == '-' || s[i] == '_' || s[i] == '.' || s[i] == '@' by {
            assert(CharClass::Alias.holds(s[i]));
        }
    }
    if plain {
        assert forall|i: int| 0 <= i < s.len() implies #[trigger] s[i] <= '\u{7f}' by {
            assert(text::is_alphanumeric(s[i]) || s[i] == '-' || s[i] == '_' || s[i] == '.' || s[i]
                == '@');
        }
        text::lemma_ascii_len(s);
        assert forall|i: int| 0 <= i < s.len() implies CharClass::Alias.holds(#[trigger] s[i]) by {
            assert(text::is_alphanumeric(s[i]) || s[i] == '-' || s[i] == '_' || s[i] == '.' || s[i]
                == '@');
        }
    }
}

/// Every host of a file is listed once, under its name, and is reached at its
/// target where it has one and at its name where it has none.
pub proof fn law_hosts_are_listed(file: HostsFile, hosts: Seq<Host>, i: int)
    requires
        hosts_of(file, hosts),
        0 <= i < hosts.len(),
    ensures
        hosts.len() == file.hosts.keys().len(),
        hosts[i].name@ == file.hosts.keys()[i],
        file.hosts.values()[i].target matches Some(target) ==> hosts[i].target@ == target@,
        file.hosts.values()[i].target is None ==> hosts[i].target@ == hosts[i].name@,
{
    assert(hosts[i].is(
        file.hosts.keys()[i],
        target_of(file.hosts.keys()[i], file.hosts.values()[i]),
    ));
}

/// What is reported as different is: two hosts that could be read have the two
/// versions, or the two states of the plugin.
pub proof fn law_reported_differences_exist(
    states: Seq<HostState>,
    report: FleetReport,
    id: Seq<char>,
)
    requires
        reports(states, report),
    ensures
        report.version_split ==> exists|i: int, j: int|
            #![trigger states[i], states[j]]
            0 <= i < states.len() && 0 <= j < states.len() && states[i].error is None
                && states[i].plugin_error is None && states[j].error is None
                && states[j].plugin_error is None && states[i].version is Some
                && states[j].version is Some && states[i].version->0@ != states[j].version->0@,
        text::texts(report.drifted@).contains(id) ==> exists|i: int, j: int|
            #![trigger states[i], states[j]]
            0 <= i < states.len() && 0 <= j < states.len() && states[i].error is None
                && states[i].plugin_error is None && states[j].error is None
                && states[j].plugin_error is None && entry_of(states[i], id) != entry_of(
                states[j],
                id,
            ),
{
    if report.version_split {
        let (i, j) = choose|i: int, j: int|
            #![trigger states[i], states[j]]
            0 <= i < states.len() && 0 <= j < states.len() && is_known(states[i]) && is_known(
                states[j],
            ) && states[i].version is Some && states[j].version is Some && text::opt_text(
                states[i].version,
            ) != text::opt_text(states[j].version);
        assert(states[i].version->0@ != states[j].version->0@);
    }
    if text::texts(report.drifted@).contains(id) {
        assert(drifts(states, id));
    }
}

} // verus!
