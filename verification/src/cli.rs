//! The command line: what was asked for, what is decided for core, what is
//! printed and which code a run exits with.
//!
//! The exit codes are the contract that scripts depend on: 0 is nothing to do,
//! 1 needs attention, 2 is an answer that is not known, 3 is a usage error.

use crate::catalog::SortMode;
use crate::completions;
use crate::config::{self, Config, Policy};
use crate::duration::Duration;
use crate::herdr::{self, CoreState, Hold};
use crate::plugins::{self, Decision, PluginState};
use crate::text;
use vstd::prelude::*;
use vstd::string::*;

verus! {

pub const VERSION: &'static str = "0.1.0";

pub const USAGE: &'static str = "herdr-updater — keep herdr and its plugins current across a fleet

USAGE
    herdr-updater <COMMAND> [OPTIONS]

COMMANDS
    check              inspect core and plugins; never mutate
    doctor             check this tool's own environment
    plan               show the policy decision for every target
    apply              execute safe UPDATE decisions
    update             alias for apply
    fleet              report drift across configured SSH hosts
    search [query]     search the Herdr plugin marketplace
    install <id>       install a marketplace plugin
    store              run the plugin store inside a Herdr pane
    open-store         open the plugin store popup
    sync <mode>        plan/apply/export desired state across hosts
    schedule <mode>    run/install/status/remove background checks
    history            print the update/rollback audit log
    rollback           pin plugin(s) to their pre-update revision
    resume             return rolled-back plugin(s) to their ref
    startup            startup hook
    completions <sh>   print a shell completion script
    version            print this tool's version

OPTIONS
    --json                   machine-readable output
    --timeout <s>            per-command wall-clock deadline (default 20)
    --config <path>          read this file instead of the default one
    --only <plugin-id>       restrict to one plugin
    --hosts <a,b>            restrict to these ssh aliases
    --core-only              leave plugins alone
    --plugins-only           leave core alone
    --allow-protocol-change  do not hold a core update that moves the protocol
    --sort <order>           relevance, stars, trending, recent, or name
    --limit <count>          show no more than this many entries
    --since <duration>       show entries no older than this
    --refresh                do not use cached answers
    -y, --yes                do not ask
    -h, --help               this text

EXIT CODES
    0 nothing to do   1 needs attention   2 check errored   3 usage error
";

// ---------------------------------------------------------------------------
// Commands

#[derive(Debug, Clone, Copy, PartialEq, Eq, Structural)]
pub enum Verb {
    Check,
    Doctor,
    Plan,
    Apply,
    Fleet,
    Search,
    Install,
    Store,
    OpenStore,
    Sync,
    Schedule,
    History,
    Rollback,
    Resume,
    Startup,
    Completions,
    Version,
    /// Asked of a remote updater when settings are compared; not for people.
    Fingerprint,
}

pub open spec fn verb_named(cmd: Seq<char>) -> Option<Verb> {
    if cmd == "check"@ {
        Some(Verb::Check)
    } else if cmd == "doctor"@ {
        Some(Verb::Doctor)
    } else if cmd == "plan"@ {
        Some(Verb::Plan)
    } else if cmd == "apply"@ || cmd == "update"@ {
        Some(Verb::Apply)
    } else if cmd == "fleet"@ {
        Some(Verb::Fleet)
    } else if cmd == "search"@ {
        Some(Verb::Search)
    } else if cmd == "install"@ {
        Some(Verb::Install)
    } else if cmd == "store"@ {
        Some(Verb::Store)
    } else if cmd == "open-store"@ {
        Some(Verb::OpenStore)
    } else if cmd == "sync"@ {
        Some(Verb::Sync)
    } else if cmd == "schedule"@ {
        Some(Verb::Schedule)
    } else if cmd == "history"@ {
        Some(Verb::History)
    } else if cmd == "rollback"@ {
        Some(Verb::Rollback)
    } else if cmd == "resume"@ {
        Some(Verb::Resume)
    } else if cmd == "startup"@ {
        Some(Verb::Startup)
    } else if cmd == "completions"@ {
        Some(Verb::Completions)
    } else if cmd == "version"@ {
        Some(Verb::Version)
    } else if cmd == "config-fingerprint"@ {
        Some(Verb::Fingerprint)
    } else {
        None
    }
}

/// The command of a name, or the message of a usage error.
pub fn verb(cmd: &str) -> (r: Result<Verb, String>)
    ensures
        match verb_named(cmd@) {
            Some(v) => r == Ok::<Verb, String>(v),
            None => r matches Err(e) && e@ == "unknown command: "@ + cmd@,
        },
{
    if text::text_eq(cmd, "check") {
        Ok(Verb::Check)
    } else if text::text_eq(cmd, "doctor") {
        Ok(Verb::Doctor)
    } else if text::text_eq(cmd, "plan") {
        Ok(Verb::Plan)
    } else if text::text_eq(cmd, "apply") || text::text_eq(cmd, "update") {
        Ok(Verb::Apply)
    } else if text::text_eq(cmd, "fleet") {
        Ok(Verb::Fleet)
    } else if text::text_eq(cmd, "search") {
        Ok(Verb::Search)
    } else if text::text_eq(cmd, "install") {
        Ok(Verb::Install)
    } else if text::text_eq(cmd, "store") {
        Ok(Verb::Store)
    } else if text::text_eq(cmd, "open-store") {
        Ok(Verb::OpenStore)
    } else if text::text_eq(cmd, "sync") {
        Ok(Verb::Sync)
    } else if text::text_eq(cmd, "schedule") {
        Ok(Verb::Schedule)
    } else if text::text_eq(cmd, "history") {
        Ok(Verb::History)
    } else if text::text_eq(cmd, "rollback") {
        Ok(Verb::Rollback)
    } else if text::text_eq(cmd, "resume") {
        Ok(Verb::Resume)
    } else if text::text_eq(cmd, "startup") {
        Ok(Verb::Startup)
    } else if text::text_eq(cmd, "completions") {
        Ok(Verb::Completions)
    } else if text::text_eq(cmd, "version") {
        Ok(Verb::Version)
    } else if text::text_eq(cmd, "config-fingerprint") {
        Ok(Verb::Fingerprint)
    } else {
        Err("unknown command: ".to_string().concat(cmd))
    }
}

/// The commands that are known are exactly those that are completed, and the
/// one that updaters ask of each other.
pub proof fn law_commands_are_completed(cmd: Seq<char>)
    ensures
        verb_named(cmd) is Some <==> cmd == "config-fingerprint"@ || exists|i: int|
            0 <= i < completions::command_list().len() && (
            #[trigger] completions::command_list()[i]).0 == cmd,
{
    let list = completions::command_list();
    assert(list[0].0 == "check"@);
    assert(list[1].0 == "doctor"@);
    assert(list[2].0 == "plan"@);
    assert(list[3].0 == "apply"@);
    assert(list[4].0 == "update"@);
    assert(list[5].0 == "fleet"@);
    assert(list[6].0 == "search"@);
    assert(list[7].0 == "install"@);
    assert(list[8].0 == "store"@);
    assert(list[9].0 == "open-store"@);
    assert(list[10].0 == "sync"@);
    assert(list[11].0 == "schedule"@);
    assert(list[12].0 == "history"@);
    assert(list[13].0 == "rollback"@);
    assert(list[14].0 == "resume"@);
    assert(list[15].0 == "startup"@);
    assert(list[16].0 == "completions"@);
    assert(list[17].0 == "version"@);
    assert(list.len() == 18);
}

// ---------------------------------------------------------------------------
// Options

#[derive(Debug)]
pub struct Args {
    pub cmd: String,
    pub operands: Vec<String>,
    pub json: bool,
    pub timeout: Duration,
    pub config: Option<String>,
    pub only: Option<String>,
    pub hosts: Vec<String>,
    pub core_only: bool,
    pub plugins_only: bool,
    pub allow_protocol_change: bool,
    pub sort: SortMode,
    pub limit: Option<usize>,
    pub since: Option<Duration>,
    pub refresh: bool,
    pub yes: bool,
}

/// What a command line asks for.
pub struct Request {
    pub cmd: Seq<char>,
    pub operands: Seq<Seq<char>>,
    pub json: bool,
    pub timeout: nat,
    pub config: Option<Seq<char>>,
    pub only: Option<Seq<char>>,
    pub hosts: Seq<Seq<char>>,
    pub core_only: bool,
    pub plugins_only: bool,
    pub allow_protocol_change: bool,
    pub sort: SortMode,
    pub limit: Option<nat>,
    pub since: Option<nat>,
    pub refresh: bool,
    pub yes: bool,
}

pub open spec fn limit_of(limit: Option<usize>) -> Option<nat> {
    match limit {
        Some(n) => Some(n as nat),
        None => None,
    }
}

pub open spec fn seconds_of(duration: Option<Duration>) -> Option<nat> {
    match duration {
        Some(d) => Some(d@),
        None => None,
    }
}

impl View for Args {
    type V = Request;

    open spec fn view(&self) -> Request {
        Request {
            cmd: self.cmd@,
            operands: text::texts(self.operands@),
            json: self.json,
            timeout: self.timeout@,
            config: text::opt_text(self.config),
            only: text::opt_text(self.only),
            hosts: text::texts(self.hosts@),
            core_only: self.core_only,
            plugins_only: self.plugins_only,
            allow_protocol_change: self.allow_protocol_change,
            sort: self.sort,
            limit: limit_of(self.limit),
            since: seconds_of(self.since),
            refresh: self.refresh,
            yes: self.yes,
        }
    }
}

/// A command without options.
pub open spec fn plain_request(cmd: Seq<char>) -> Request {
    Request {
        cmd,
        operands: seq![],
        json: false,
        timeout: 20,
        config: None,
        only: None,
        hosts: seq![],
        core_only: false,
        plugins_only: false,
        allow_protocol_change: false,
        sort: SortMode::Relevance,
        limit: None,
        since: None,
        refresh: false,
        yes: false,
    }
}

/// The texts of a list separated by commas, trimmed, without empty ones.
pub open spec fn listed(parts: Seq<Seq<char>>) -> Seq<Seq<char>>
    decreases parts.len(),
{
    if parts.len() == 0 {
        seq![]
    } else {
        let before = listed(parts.drop_last());
        let last = text::trimmed(parts.last());
        if last.len() > 0 {
            before.push(last)
        } else {
            before
        }
    }
}

fn list_of(value: &str) -> (r: Vec<String>)
    ensures
        text::texts(r@) == listed(text::split_at_char(value@, ',')),
{
    let parts = text::split(value, ',');
    let ghost all = text::texts(parts@);
    let mut out: Vec<String> = Vec::new();
    let mut i: usize = 0;
    proof {
        reveal_strlit("");
        assert(text::texts(out@) =~= listed(all.take(0)));
    }
    while i < parts.len()
        invariant
            i <= parts.len(),
            all == text::texts(parts@),
            text::texts(out@) == listed(all.take(i as int)),
            ""@.len() == 0,
        decreases parts.len() - i,
    {
        let ghost before = text::texts(out@);
        let piece = text::trim(parts[i].as_str());
        assert(all.take(i + 1).drop_last() =~= all.take(i as int));
        assert(all.take(i + 1).last() == parts@[i as int]@);
        if !text::text_eq(piece, "") {
            assert(piece@.len() == 0 ==> piece@ =~= ""@);
            out.push(piece.to_string());
            assert(text::texts(out@) =~= before.push(piece@));
        }
        i = i + 1;
    }
    assert(all.take(i as int) =~= all);
    out
}

/// What a flag asks for in addition.
pub open spec fn flagged(request: Request, token: Seq<char>) -> Option<Request> {
    if token == "--json"@ {
        Some(Request { json: true, ..request })
    } else if token == "--core-only"@ {
        Some(Request { core_only: true, ..request })
    } else if token == "--plugins-only"@ {
        Some(Request { plugins_only: true, ..request })
    } else if token == "--allow-protocol-change"@ {
        Some(Request { allow_protocol_change: true, ..request })
    } else if token == "--refresh"@ {
        Some(Request { refresh: true, ..request })
    } else if token == "-y"@ || token == "--yes"@ {
        Some(Request { yes: true, ..request })
    } else {
        None
    }
}

pub open spec fn takes_value(token: Seq<char>) -> bool {
    token == "--timeout"@ || token == "--config"@ || token == "--only"@ || token == "--hosts"@
        || token == "--sort"@ || token == "--limit"@ || token == "--since"@
}

/// What an option with a value asks for in addition, or what is wrong with the
/// value.
pub open spec fn valued(request: Request, token: Seq<char>, value: Seq<char>) -> Result<
    Request,
    Seq<char>,
> {
    if token == "--timeout"@ {
        match text::parsed_number(value, u64::MAX as nat) {
            None => Err("--timeout: "@ + value + " is not a number"@),
            Some(seconds) => if seconds == 0 {
                Err("--timeout must be greater than 0"@)
            } else {
                Ok(Request { timeout: seconds, ..request })
            },
        }
    } else if token == "--config"@ {
        Ok(Request { config: Some(value), ..request })
    } else if token == "--only"@ {
        Ok(Request { only: Some(value), ..request })
    } else if token == "--hosts"@ {
        Ok(Request { hosts: listed(text::split_at_char(value, ',')), ..request })
    } else if token == "--sort"@ {
        match crate::catalog::sort_named(value) {
            Some(sort) => Ok(Request { sort, ..request }),
            None => Err("--sort must be relevance, stars, trending, recent, or name"@),
        }
    } else if token == "--limit"@ {
        match text::parsed_number(value, usize::MAX as nat) {
            None => Err("--limit: "@ + value + " is not a number"@),
            Some(n) => Ok(Request { limit: Some(n), ..request }),
        }
    } else {
        match config::duration_of(value) {
            Ok(seconds) => Ok(Request { since: Some(seconds), ..request }),
            Err(e) => Err("--since: "@ + e),
        }
    }
}

/// A command takes one more operand than those it was given.
pub open spec fn accepts_operand(cmd: Seq<char>, given: nat) -> bool {
    match verb_named(cmd) {
        Some(Verb::Search) => true,
        Some(Verb::Install) => given == 0,
        Some(Verb::Sync) => given == 0,
        Some(Verb::Schedule) => given == 0,
        Some(Verb::Completions) => given == 0,
        _ => false,
    }
}

pub open spec fn is_option(token: Seq<char>) -> bool {
    token.len() > 0 && token[0] == '-'
}

/// The request that the rest of a command line makes of one, or the message of
/// a usage error.
pub open spec fn absorbed(request: Request, rest: Seq<Seq<char>>) -> Result<Request, Seq<char>>
    decreases rest.len(),
{
    if rest.len() == 0 {
        Ok(request)
    } else {
        let token = rest[0];
        match flagged(request, token) {
            Some(next) => absorbed(next, rest.skip(1)),
            None => if takes_value(token) {
                if rest.len() < 2 {
                    Err(token + " needs a value"@)
                } else {
                    match valued(request, token, rest[1]) {
                        Ok(next) => absorbed(next, rest.skip(2)),
                        Err(e) => Err(e),
                    }
                }
            } else if !is_option(token) && accepts_operand(request.cmd, request.operands.len()) {
                absorbed(
                    Request { operands: request.operands.push(token), ..request },
                    rest.skip(1),
                )
            } else {
                Err("unknown option: "@ + token)
            },
        }
    }
}

pub open spec fn asks_for_help(raw: Seq<Seq<char>>) -> bool {
    raw.contains("-h"@) || raw.contains("--help"@)
}

/// The request of a whole command line. No arguments, or a request for help,
/// is an error without a message: the usage itself is the answer.
pub open spec fn requested(raw: Seq<Seq<char>>) -> Result<Request, Seq<char>> {
    if raw.len() == 0 || asks_for_help(raw) {
        Err(seq![])
    } else {
        absorbed(plain_request(raw[0]), raw.skip(1))
    }
}

impl Args {
    fn set_flag(&mut self, token: &str) -> (r: bool)
        ensures
            match flagged(old(self)@, token@) {
                Some(next) => r && final(self)@ == next,
                None => !r && final(self)@ == old(self)@,
            },
    {
        if text::text_eq(token, "--json") {
            self.json = true;
        } else if text::text_eq(token, "--core-only") {
            self.core_only = true;
        } else if text::text_eq(token, "--plugins-only") {
            self.plugins_only = true;
        } else if text::text_eq(token, "--allow-protocol-change") {
            self.allow_protocol_change = true;
        } else if text::text_eq(token, "--refresh") {
            self.refresh = true;
        } else if text::text_eq(token, "-y") || text::text_eq(token, "--yes") {
            self.yes = true;
        } else {
            return false;
        }
        true
    }

    fn set_value(&mut self, token: &str, value: &str) -> (r: Result<(), String>)
        requires
            takes_value(token@),
        ensures
            match valued(old(self)@, token@, value@) {
                Ok(next) => r is Ok && final(self)@ == next,
                Err(error) => r matches Err(e) && e@ == error,
            },
    {
        if text::text_eq(token, "--timeout") {
            match text::parse_number(value, u64::MAX) {
                None => {
                    return Err(
                        "--timeout: ".to_string().concat(value).concat(" is not a number"),
                    );
                },
                Some(seconds) => {
                    if seconds == 0 {
                        return Err("--timeout must be greater than 0".to_string());
                    }
                    self.timeout = Duration::from_secs(seconds);
                },
            }
        } else if text::text_eq(token, "--config") {
            self.config = Some(value.to_string());
        } else if text::text_eq(token, "--only") {
            self.only = Some(value.to_string());
        } else if text::text_eq(token, "--hosts") {
            self.hosts = list_of(value);
        } else if text::text_eq(token, "--sort") {
            self.sort = SortMode::parse(value)?;
        } else if text::text_eq(token, "--limit") {
            match text::parse_number(value, usize::MAX as u64) {
                None => {
                    return Err("--limit: ".to_string().concat(value).concat(" is not a number"));
                },
                Some(n) => {
                    self.limit = Some(n as usize);
                },
            }
        } else {
            match config::parse_duration(value) {
                Ok(d) => {
                    self.since = Some(d);
                },
                Err(e) => {
                    return Err("--since: ".to_string().concat(e.as_str()));
                },
            }
        }
        Ok(())
    }
}

fn has_value(token: &str) -> (r: bool)
    ensures
        r == takes_value(token@),
{
    text::text_eq(token, "--timeout") || text::text_eq(token, "--config") || text::text_eq(
        token,
        "--only",
    ) || text::text_eq(token, "--hosts") || text::text_eq(token, "--sort") || text::text_eq(
        token,
        "--limit",
    ) || text::text_eq(token, "--since")
}

fn takes_operand(cmd: &str, given: usize) -> (r: bool)
    ensures
        r == accepts_operand(cmd@, given as nat),
{
    match verb(cmd) {
        Ok(Verb::Search) => true,
        Ok(Verb::Install) => given == 0,
        Ok(Verb::Sync) => given == 0,
        Ok(Verb::Schedule) => given == 0,
        Ok(Verb::Completions) => given == 0,
        _ => false,
    }
}

/// Parses the arguments after the program's name.
pub fn parse(raw: &Vec<String>) -> (r: Result<Args, String>)
    ensures
        match requested(text::texts(raw@)) {
            Ok(request) => r matches Ok(args) && args@ == request,
            Err(error) => r matches Err(e) && e@ == error,
        },
{
    let ghost all = text::texts(raw@);
    if raw.len() == 0 || text::list_has(raw, "-h") || text::list_has(raw, "--help") {
        let none = String::new();
        assert(none@ =~= seq![]);
        return Err(none);
    }
    let mut args = Args {
        cmd: raw[0].clone(),
        operands: Vec::new(),
        json: false,
        timeout: Duration::from_secs(20),
        config: None,
        only: None,
        hosts: Vec::new(),
        core_only: false,
        plugins_only: false,
        allow_protocol_change: false,
        sort: SortMode::Relevance,
        limit: None,
        since: None,
        refresh: false,
        yes: false,
    };
    assert(text::texts(args.operands@) =~= seq![]);
    assert(text::texts(args.hosts@) =~= seq![]);
    assert(args@ == plain_request(all[0]));
    let mut i: usize = 1;
    while i < raw.len()
        invariant
            1 <= i <= raw.len(),
            all == text::texts(raw@),
            requested(all) == absorbed(args@, all.skip(i as int)),
        decreases raw.len() - i,
    {
        let token = raw[i].as_str();
        let ghost rest = all.skip(i as int);
        let ghost before = args@;
        assert(rest[0] == token@);
        assert(rest.skip(1) =~= all.skip(i + 1));
        if args.set_flag(token) {
            i = i + 1;
        } else if has_value(token) {
            if i + 1 >= raw.len() {
                return Err(token.to_string().concat(" needs a value"));
            }
            assert(rest[1] == raw@[i + 1]@);
            assert(rest.skip(2) =~= all.skip(i + 2));
            args.set_value(token, raw[i + 1].as_str())?;
            i = i + 2;
        } else if !text::starts_with(token, "-") && takes_operand(
            args.cmd.as_str(),
            args.operands.len(),
        ) {
            proof {
                reveal_strlit("-");
                assert(is_option(token@) ==> token@.take(1) =~= "-"@);
            }
            let ghost operands = text::texts(args.operands@);
            args.operands.push(raw[i].clone());
            assert(text::texts(args.operands@) =~= operands.push(token@));
            assert(args@ == (Request { operands: before.operands.push(token@), ..before }));
            i = i + 1;
        } else {
            proof {
                reveal_strlit("-");
                assert(text::begins_with(token@, "-"@) ==> token@[0] == token@.take(1)[0]);
                assert(is_option(token@) ==> token@.take(1) =~= "-"@);
            }
            return Err("unknown option: ".to_string().concat(token));
        }
    }
    assert(all.skip(i as int) =~= seq![]);
    Ok(args)
}

/// The binary to drive: the one that invoked this program, not whatever comes
/// first on the path.
pub fn herdr_bin(invoked_by: &Option<String>) -> (r: String)
    ensures
        r@ == match *invoked_by {
            Some(path) => path@,
            None => "herdr"@,
        },
{
    match invoked_by {
        Some(path) => path.clone(),
        None => "herdr".to_string(),
    }
}

/// The operand that a command has to have.
pub fn operand<'a>(args: &'a Args, what: &str) -> (r: Result<&'a str, String>)
    ensures
        match r {
            Ok(o) => args@.operands.len() > 0 && o@ == args@.operands[0],
            Err(e) => args@.operands.len() == 0 && e@ == args@.cmd + " needs "@ + what@,
        },
{
    if args.operands.len() == 0 {
        Err(args.cmd.clone().concat(" needs ").concat(what))
    } else {
        Ok(args.operands[0].as_str())
    }
}

/// The query of a search: its words, separated by blanks.
pub fn query(args: &Args) -> (r: String)
    ensures
        r@ == text::joined(args@.operands, " "@),
{
    text::join(&args.operands, " ")
}

/// How many results are shown.
pub open spec fn shown_at_most(limit: Option<usize>) -> usize {
    match limit {
        Some(n) => n,
        None => 20,
    }
}

/// How many results a search shows.
pub fn search_limit(args: &Args) -> (r: usize)
    ensures
        r == shown_at_most(args.limit),
{
    match args.limit {
        Some(n) => n,
        None => 20,
    }
}

/// The moment from which history is shown.
pub open spec fn since_moment(since: Option<Duration>, now: u64) -> Option<u64> {
    match since {
        Some(d) => Some(
            if d@ <= now {
                (now - d@) as u64
            } else {
                0
            },
        ),
        None => None,
    }
}

pub fn since(args: &Args, now: u64) -> (r: Option<u64>)
    ensures
        r == since_moment(args.since, now),
{
    match args.since {
        Some(d) => Some(
            if d.as_secs() <= now {
                now - d.as_secs()
            } else {
                0
            },
        ),
        None => None,
    }
}

/// What a run looks at.
#[derive(Debug, Clone, Copy, PartialEq, Eq, Structural)]
pub struct Scope {
    pub core: bool,
    pub plugins: bool,
}

/// What a run looks at, or nothing where the options exclude each other.
pub open spec fn scope_of(
    core_only: bool,
    plugins_only: bool,
    check_core: bool,
    check_plugins: bool,
) -> Option<Scope> {
    if core_only && plugins_only {
        None
    } else {
        Some(
            Scope {
                core: core_only || (check_core && !plugins_only),
                plugins: plugins_only || (check_plugins && !core_only),
            },
        )
    }
}

/// The scope of a run: what the configuration checks, narrowed by the options.
/// An option that names one part asks for it whatever the configuration says;
/// asking for both parts alone would be green without a check.
pub fn scope(args: &Args, config: &Config) -> (r: Result<Scope, String>)
    ensures
        match scope_of(
            args.core_only,
            args.plugins_only,
            config.check_core,
            config.check_plugins,
        ) {
            Some(s) => r == Ok::<Scope, String>(s),
            None => r matches Err(e) && e@ == "--core-only and --plugins-only exclude each other"@,
        },
{
    if args.core_only && args.plugins_only {
        Err("--core-only and --plugins-only exclude each other".to_string())
    } else {
        Ok(
            Scope {
                core: args.core_only || (config.check_core && !args.plugins_only),
                plugins: args.plugins_only || (config.check_plugins && !args.core_only),
            },
        )
    }
}

/// The option or the configuration lets the protocol change.
pub open spec fn protocol_may_change(asked: bool, configured: bool) -> bool {
    asked || configured
}

/// Whether a protocol change is allowed: by the configuration or by the option.
pub fn allows_protocol_change(args: &Args, config: &Config) -> (r: bool)
    ensures
        r == protocol_may_change(args.allow_protocol_change, config.allow_protocol_change),
{
    args.allow_protocol_change || config.allow_protocol_change
}

/// There is nothing to do.
pub open spec fn idle(verb: Verb, startup_check: bool) -> bool {
    verb == Verb::Startup && !startup_check
}

/// Whether a command has nothing to do: the startup hook, where the
/// configuration does not ask for a check on startup.
pub fn is_idle(verb: Verb, config: &Config) -> (r: bool)
    ensures
        r == idle(verb, config.startup_check),
{
    verb == Verb::Startup && !config.startup_check
}

// ---------------------------------------------------------------------------
// Deciding for core

pub open spec fn protocol_or_zero(protocol: Option<u32>) -> nat {
    match protocol {
        Some(p) => p as nat,
        None => 0,
    }
}

pub open spec fn protocol_hold(state: herdr::CoreFacts) -> Seq<char> {
    "protocol "@ + text::decimal(state.protocol as nat) + " -> "@ + text::decimal(
        protocol_or_zero(state.latest_protocol),
    ) + " is held unless it is explicitly allowed"@
}

/// What is decided for core. A protocol change is held unless it is allowed,
/// and what cannot be ordered is an error rather than current.
pub open spec fn core_outcome(
    state: herdr::CoreFacts,
    allow_channel_mismatch: bool,
    allow_protocol_change: bool,
) -> plugins::Outcome {
    match herdr::gate_reason(state, allow_channel_mismatch) {
        None => if state.protocol_change && !allow_protocol_change {
            plugins::Outcome::Hold(protocol_hold(state))
        } else {
            plugins::Outcome::Update
        },
        Some(herdr::HoldReason::UpToDate) => plugins::Outcome::Current,
        Some(herdr::HoldReason::Unknown(error)) => plugins::Outcome::Error(error),
        Some(herdr::HoldReason::Unorderable) => plugins::Outcome::Error(
            herdr::reason_text(herdr::HoldReason::Unorderable),
        ),
        Some(reason) => plugins::Outcome::Hold(herdr::reason_text(reason)),
    }
}

fn latest_protocol(state: &CoreState) -> (r: u64)
    ensures
        r == protocol_or_zero(state.latest_protocol),
{
    match state.latest_protocol {
        Some(p) => p as u64,
        None => 0,
    }
}

pub fn decide_core(
    state: &CoreState,
    allow_channel_mismatch: bool,
    allow_protocol_change: bool,
) -> (r: Decision)
    ensures
        r@ == core_outcome(state@, allow_channel_mismatch, allow_protocol_change),
{
    match herdr::gate(state, allow_channel_mismatch) {
        Ok(()) => if state.protocol_change && !allow_protocol_change {
            Decision::Hold(
                "protocol ".to_string().concat(
                    text::number_text(state.protocol as u64).as_str(),
                ).concat(" -> ").concat(text::number_text(latest_protocol(state)).as_str()).concat(
                    " is held unless it is explicitly allowed",
                ),
            )
        } else {
            Decision::Update
        },
        Err(hold) => match hold {
            Hold::UpToDate => Decision::Current,
            Hold::Unknown(error) => Decision::Error(error),
            Hold::Unorderable => Decision::Error(herdr::hold_text(&Hold::Unorderable)),
            other => Decision::Hold(herdr::hold_text(&other)),
        },
    }
}

/// Core is updated only to a version that is newer, over a protocol change
/// only where that is allowed, and never on an answer that is not known.
pub proof fn law_core_updates_are_gated(
    state: herdr::CoreFacts,
    allow_channel_mismatch: bool,
    allow_protocol_change: bool,
)
    requires
        core_outcome(state, allow_channel_mismatch, allow_protocol_change)
            == plugins::Outcome::Update,
    ensures
        state.error is None,
        state.relation == herdr::CoreRelation::Behind,
        state.protocol_change ==> allow_protocol_change,
        state.server_running ==> state.live_handoff,
        state.channel_mismatch ==> allow_channel_mismatch,
{
}

/// A core whose version cannot be ordered, or whose check failed, is an error.
pub proof fn law_unknown_core_is_an_error(
    state: herdr::CoreFacts,
    allow_channel_mismatch: bool,
    allow_protocol_change: bool,
)
    requires
        state.error is Some || state.relation == herdr::CoreRelation::Unknown,
    ensures
        core_outcome(state, allow_channel_mismatch, allow_protocol_change)
            is Error,
{
}

// ---------------------------------------------------------------------------
// Exit codes

/// The code of one target. A plugin that is held needs nothing; core that is
/// held back from an update needs attention.
pub open spec fn target_code(outcome: plugins::Outcome, held_back: bool) -> int {
    match outcome {
        plugins::Outcome::Current => 0,
        plugins::Outcome::Update => 1,
        plugins::Outcome::Hold(_) => if held_back {
            1
        } else {
            0
        },
        plugins::Outcome::Error(_) => 2,
    }
}

fn code_of(decision: &Decision, held_back: bool) -> (r: i32)
    ensures
        r == target_code(decision@, held_back),
{
    match decision {
        Decision::Current => 0,
        Decision::Update => 1,
        Decision::Hold(_) => if held_back {
            1
        } else {
            0
        },
        Decision::Error(_) => 2,
    }
}

pub open spec fn outcomes(decisions: Seq<Decision>) -> Seq<plugins::Outcome> {
    Seq::new(decisions.len(), |i: int| decisions[i]@)
}

/// The worst code of the plugins.
pub open spec fn plugins_code(found: Seq<plugins::Outcome>) -> int
    decreases found.len(),
{
    if found.len() == 0 {
        0
    } else {
        let before = plugins_code(found.drop_last());
        let last = target_code(found.last(), false);
        if before >= last {
            before
        } else {
            last
        }
    }
}

/// The code of `check` and `plan`: the worst of all targets. `core` is what was
/// decided for core and whether a newer version is published.
pub open spec fn inspection_code(
    core: Option<(plugins::Outcome, bool)>,
    found: Seq<plugins::Outcome>,
) -> int {
    let of_plugins = plugins_code(found);
    match core {
        Some((outcome, available)) => {
            let of_core = target_code(outcome, available);
            if of_core >= of_plugins {
                of_core
            } else {
                of_plugins
            }
        },
        None => of_plugins,
    }
}

pub open spec fn core_part(core: Option<(Decision, bool)>) -> Option<(plugins::Outcome, bool)> {
    match core {
        Some((decision, available)) => Some((decision@, available)),
        None => None,
    }
}

pub fn exit_code(core: &Option<(Decision, bool)>, decisions: &Vec<Decision>) -> (r: i32)
    ensures
        r == inspection_code(core_part(*core), outcomes(decisions@)),
{
    let ghost all = outcomes(decisions@);
    let mut worst: i32 = 0;
    let mut i: usize = 0;
    while i < decisions.len()
        invariant
            i <= decisions.len(),
            all == outcomes(decisions@),
            worst == plugins_code(all.take(i as int)),
        decreases decisions.len() - i,
    {
        assert(all.take(i + 1).drop_last() =~= all.take(i as int));
        let code = code_of(&decisions[i], false);
        if code > worst {
            worst = code;
        }
        i = i + 1;
    }
    assert(all.take(i as int) =~= all);
    match core {
        Some((decision, available)) => {
            let code = code_of(decision, *available);
            if code > worst {
                code
            } else {
                worst
            }
        },
        None => worst,
    }
}

proof fn lemma_plugins_code(found: Seq<plugins::Outcome>)
    ensures
        0 <= plugins_code(found) <= 2,
        forall|i: int|
            0 <= i < found.len() ==> target_code(#[trigger] found[i], false) <= plugins_code(found),
        plugins_code(found) > 0 ==> exists|i: int|
            0 <= i < found.len() && target_code(#[trigger] found[i], false) == plugins_code(found),
    decreases found.len(),
{
    if found.len() > 0 {
        let before = found.drop_last();
        lemma_plugins_code(before);
        assert forall|i: int| 0 <= i < found.len() implies target_code(#[trigger] found[i], false)
            <= plugins_code(found) by {
            if i < before.len() {
                assert(before[i] == found[i]);
            }
        }
        if plugins_code(found) > 0 {
            if plugins_code(before) >= target_code(found.last(), false) {
                let i = choose|i: int|
                    0 <= i < before.len() && target_code(#[trigger] before[i], false)
                        == plugins_code(before);
                assert(found[i] == before[i]);
            } else {
                assert(found[found.len() - 1] == found.last());
            }
        }
    }
}

/// An answer that is not known is never green: the code is 2 exactly where
/// some target is an error, and 0 only where every target is current or held
/// with nothing newer to take.
pub proof fn law_unknown_is_never_green(
    core: Option<(plugins::Outcome, bool)>,
    found: Seq<plugins::Outcome>,
)
    ensures
        (inspection_code(core, found) == 2) == ((core matches Some(c) && c.0 is Error) || exists|
            i: int,
        |
            0 <= i < found.len() && #[trigger] found[i] is Error),
        inspection_code(core, found) == 0 ==> (core matches Some(c) ==> c.0 is Current || (c.0
            is Hold && !c.1)) && forall|i: int|
            0 <= i < found.len() ==> #[trigger] found[i] is Current || found[i] is Hold,
        0 <= inspection_code(core, found) <= 2,
{
    lemma_plugins_code(found);
    if plugins_code(found) == 2 {
        let i = choose|i: int|
            0 <= i < found.len() && target_code(#[trigger] found[i], false) == plugins_code(found);
        assert(found[i] is Error);
    }
    assert forall|i: int| 0 <= i < found.len() && #[trigger] found[i] is Error implies plugins_code(
        found,
    ) == 2 by {
        assert(target_code(found[i], false) <= plugins_code(found));
    }
    assert forall|i: int| 0 <= i < found.len() && plugins_code(found) == 0 implies #[trigger] found[i]
        is Current || found[i] is Hold by {
        assert(target_code(found[i], false) <= plugins_code(found));
    }
}

pub open spec fn applied_code(
    core: Option<(plugins::Outcome, bool)>,
    found: Seq<plugins::Outcome>,
    failed: bool,
) -> int {
    if inspection_code(core, found) == 2 {
        2
    } else if failed || (core matches Some(c) && c.0 is Hold && c.1) {
        1
    } else {
        0
    }
}

/// The code of `apply`: an unknown answer stays 2, a failed update is 1, and
/// with every update carried out only a core that is held back needs
/// attention.
pub fn apply_code(core: &Option<(Decision, bool)>, decisions: &Vec<Decision>, failed: bool) -> (r:
    i32)
    ensures
        r == applied_code(core_part(*core), outcomes(decisions@), failed),
{
    if exit_code(core, decisions) == 2 {
        return 2;
    }
    let held_back = match core {
        Some((Decision::Hold(_), available)) => *available,
        _ => false,
    };
    if failed || held_back {
        1
    } else {
        0
    }
}

// ---------------------------------------------------------------------------
// What may be changed

/// What a command may change under a policy: `apply` and the schedule change
/// everything, the startup hook changes plugins and never core, and nothing is
/// changed unless the policy is `auto`.
pub open spec fn may_change(verb: Verb, policy: Policy) -> Scope {
    match (verb, policy) {
        (Verb::Apply, Policy::Auto) => Scope { core: true, plugins: true },
        (Verb::Schedule, Policy::Auto) => Scope { core: true, plugins: true },
        (Verb::Startup, Policy::Auto) => Scope { core: false, plugins: true },
        _ => Scope { core: false, plugins: false },
    }
}

pub fn changes(verb: Verb, policy: Policy) -> (r: Scope)
    ensures
        r == may_change(verb, policy),
{
    match (verb, policy) {
        (Verb::Apply, Policy::Auto) => Scope { core: true, plugins: true },
        (Verb::Schedule, Policy::Auto) => Scope { core: true, plugins: true },
        (Verb::Startup, Policy::Auto) => Scope { core: false, plugins: true },
        _ => Scope { core: false, plugins: false },
    }
}

/// Under the default policy no command changes anything, inspecting commands
/// change nothing under any policy, and the startup hook never changes core.
pub proof fn law_notify_changes_nothing(verb: Verb, policy: Policy)
    ensures
        policy == Policy::Notify ==> !may_change(verb, policy).core && !may_change(
            verb,
            policy,
        ).plugins,
        verb == Verb::Check || verb == Verb::Plan ==> !may_change(verb, policy).core && !may_change(
            verb,
            policy,
        ).plugins,
        !may_change(Verb::Startup, policy).core,
{
}

// ---------------------------------------------------------------------------
// Printing

pub open spec fn installed_line(state: herdr::CoreFacts) -> Seq<char> {
    if state.installed.len() == 0 {
        "  installed : (unknown)"@
    } else {
        "  installed : "@ + state.installed + " (protocol "@ + text::decimal(state.protocol as nat)
            + ")"@
    }
}

pub open spec fn latest_line(state: herdr::CoreFacts) -> Seq<char> {
    match (state.latest, state.latest_protocol) {
        (Some(v), Some(p)) => "  latest    : "@ + v + " (protocol "@ + text::decimal(p as nat)
            + ")"@,
        _ => "  latest    : (not checked)"@,
    }
}

pub open spec fn server_line(state: herdr::CoreFacts) -> Seq<char> {
    if !state.server_running {
        "  server    : not running"@
    } else if state.live_handoff {
        "  server    : running"@
    } else {
        "  server    : running  [no live handoff — an update would drop attached clients]"@
    }
}

pub open spec fn latest_or_unknown(state: herdr::CoreFacts) -> Seq<char> {
    match state.latest {
        Some(v) => v,
        None => "?"@,
    }
}

pub open spec fn action_line(state: herdr::CoreFacts, outcome: plugins::Outcome) -> Seq<char> {
    match outcome {
        plugins::Outcome::Update => "  action    : UPDATE "@ + state.installed + " -> "@
            + latest_or_unknown(state),
        plugins::Outcome::Current => "  action    : up to date"@,
        plugins::Outcome::Hold(reason) => "  action    : HOLD — "@ + reason,
        plugins::Outcome::Error(error) => "  action    : ERROR — "@ + error,
    }
}

pub open spec fn protocol_line(state: herdr::CoreFacts) -> Seq<char> {
    "  ⚠ protocol "@ + text::decimal(state.protocol as nat) + " -> "@ + text::decimal(
        protocol_or_zero(state.latest_protocol),
    ) + ": update every host together or mirrors and `herdr --remote` break between them"@
}

/// What is printed of core, line by line. A protocol change that nothing else
/// holds back is pointed out.
pub open spec fn core_lines(
    state: herdr::CoreFacts,
    allow_channel_mismatch: bool,
    allow_protocol_change: bool,
) -> Seq<Seq<char>> {
    let lines = seq![
        "herdr core"@,
        installed_line(state),
        latest_line(state),
        server_line(state),
        action_line(
            state,
            core_outcome(state, allow_channel_mismatch, allow_protocol_change),
        ),
    ];
    if state.protocol_change && herdr::gate_reason(state, allow_channel_mismatch) is None {
        lines.push(protocol_line(state))
    } else {
        lines
    }
}

fn action_text(state: &CoreState, decision: &Decision) -> (r: String)
    ensures
        r@ == action_line(state@, decision@),
{
    match decision {
        Decision::Update => {
            let latest = match &state.latest {
                Some(v) => v.as_str(),
                None => "?",
            };
            "  action    : UPDATE ".to_string().concat(state.installed.as_str()).concat(
                " -> ",
            ).concat(latest)
        },
        Decision::Current => "  action    : up to date".to_string(),
        Decision::Hold(reason) => "  action    : HOLD — ".to_string().concat(reason.as_str()),
        Decision::Error(error) => "  action    : ERROR — ".to_string().concat(error.as_str()),
    }
}

pub fn cmd_check(
    state: &CoreState,
    allow_channel_mismatch: bool,
    allow_protocol_change: bool,
) -> (r: Vec<String>)
    ensures
        text::texts(r@) == core_lines(state@, allow_channel_mismatch, allow_protocol_change),
{
    let decision = decide_core(state, allow_channel_mismatch, allow_protocol_change);
    let mut lines: Vec<String> = Vec::new();
    lines.push("herdr core".to_string());
    proof {
        reveal_strlit("");
        assert(state.installed@.len() == 0 ==> state.installed@ =~= ""@);
    }
    if text::text_eq(state.installed.as_str(), "") {
        lines.push("  installed : (unknown)".to_string());
    } else {
        lines.push(
            "  installed : ".to_string().concat(state.installed.as_str()).concat(
                " (protocol ",
            ).concat(text::number_text(state.protocol as u64).as_str()).concat(")"),
        );
    }
    match (&state.latest, state.latest_protocol) {
        (Some(v), Some(p)) => lines.push(
            "  latest    : ".to_string().concat(v.as_str()).concat(" (protocol ").concat(
                text::number_text(p as u64).as_str(),
            ).concat(")"),
        ),
        _ => lines.push("  latest    : (not checked)".to_string()),
    }
    if !state.server_running {
        lines.push("  server    : not running".to_string());
    } else if state.live_handoff {
        lines.push("  server    : running".to_string());
    } else {
        lines.push(
            "  server    : running  [no live handoff — an update would drop attached clients]".to_string(),
        );
    }
    lines.push(action_text(state, &decision));
    if state.protocol_change && herdr::gate(state, allow_channel_mismatch).is_ok() {
        lines.push(
            "  ⚠ protocol ".to_string().concat(
                text::number_text(state.protocol as u64).as_str(),
            ).concat(" -> ").concat(text::number_text(latest_protocol(state)).as_str()).concat(
                ": update every host together or mirrors and `herdr --remote` break between them",
            ),
        );
    }
    assert(text::texts(lines@) =~= core_lines(
        state@,
        allow_channel_mismatch,
        allow_protocol_change,
    ));
    lines
}

/// The line of a plugin.
pub open spec fn plugin_line(
    state: plugins::PluginFacts,
    outcome: plugins::Outcome,
) -> Seq<char> {
    let name = "  "@ + text::padded_right(state.plugin_id, 28) + " "@;
    match outcome {
        plugins::Outcome::Current => name + "CURRENT"@,
        plugins::Outcome::Update => name + "UPDATE "@ + text::text_or_empty(state.installed_sha)
            + " -> "@ + text::text_or_empty(state.remote_sha),
        plugins::Outcome::Hold(reason) => name + "HOLD — "@ + reason,
        plugins::Outcome::Error(error) => name + "ERROR — "@ + error,
    }
}

pub fn plan_line(state: &PluginState, decision: &Decision) -> (r: String)
    ensures
        r@ == plugin_line(state@, decision@),
{
    let name = "  ".to_string().concat(text::pad_right(state.plugin_id.as_str(), 28).as_str()).concat(
        " ",
    );
    match decision {
        Decision::Current => name.concat("CURRENT"),
        Decision::Update => name.concat("UPDATE ").concat(
            text::str_or_empty(&state.installed_sha),
        ).concat(" -> ").concat(text::str_or_empty(&state.remote_sha)),
        Decision::Hold(reason) => name.concat("HOLD — ").concat(reason.as_str()),
        Decision::Error(error) => name.concat("ERROR — ").concat(error.as_str()),
    }
}

// ---------------------------------------------------------------------------
// What commands mean

/// Each command does what it is called; `update` is another name of `apply`.
pub proof fn law_commands_do_what_they_are_called(cmd: Seq<char>)
    ensures
        verb_named(cmd) == Some(Verb::Check) <==> cmd == "check"@,
        verb_named(cmd) == Some(Verb::Doctor) <==> cmd == "doctor"@,
        verb_named(cmd) == Some(Verb::Plan) <==> cmd == "plan"@,
        verb_named(cmd) == Some(Verb::Fleet) <==> cmd == "fleet"@,
        verb_named(cmd) == Some(Verb::Search) <==> cmd == "search"@,
        verb_named(cmd) == Some(Verb::Install) <==> cmd == "install"@,
        verb_named(cmd) == Some(Verb::Store) <==> cmd == "store"@,
        verb_named(cmd) == Some(Verb::OpenStore) <==> cmd == "open-store"@,
        verb_named(cmd) == Some(Verb::Sync) <==> cmd == "sync"@,
        verb_named(cmd) == Some(Verb::Schedule) <==> cmd == "schedule"@,
        verb_named(cmd) == Some(Verb::History) <==> cmd == "history"@,
        verb_named(cmd) == Some(Verb::Rollback) <==> cmd == "rollback"@,
        verb_named(cmd) == Some(Verb::Resume) <==> cmd == "resume"@,
        verb_named(cmd) == Some(Verb::Startup) <==> cmd == "startup"@,
        verb_named(cmd) == Some(Verb::Completions) <==> cmd == "completions"@,
        verb_named(cmd) == Some(Verb::Version) <==> cmd == "version"@,
        verb_named(cmd) == Some(Verb::Fingerprint) <==> cmd == "config-fingerprint"@,
        verb_named(cmd) == Some(Verb::Apply) <==> cmd == "apply"@ || cmd == "update"@,
{
    reveal_strlit("check");
    reveal_strlit("doctor");
    reveal_strlit("plan");
    reveal_strlit("fleet");
    reveal_strlit("search");
    reveal_strlit("install");
    reveal_strlit("store");
    reveal_strlit("open-store");
    reveal_strlit("sync");
    reveal_strlit("schedule");
    reveal_strlit("history");
    reveal_strlit("rollback");
    reveal_strlit("resume");
    reveal_strlit("startup");
    reveal_strlit("completions");
    reveal_strlit("version");
    reveal_strlit("config-fingerprint");
    reveal_strlit("apply");
    reveal_strlit("update");
    assert("check"@.len() == 5 && "check"@[0] == 'c' && "check"@[1] == 'h' && "check"@[2] == 'e');
    assert("doctor"@.len() == 6 && "doctor"@[0] == 'd' && "doctor"@[1] == 'o' && "doctor"@[2] == 'c');
    assert("plan"@.len() == 4 && "plan"@[0] == 'p' && "plan"@[1] == 'l' && "plan"@[2] == 'a');
    assert("fleet"@.len() == 5 && "fleet"@[0] == 'f' && "fleet"@[1] == 'l' && "fleet"@[2] == 'e');
    assert("search"@.len() == 6 && "search"@[0] == 's' && "search"@[1] == 'e' && "search"@[2] == 'a');
    assert("install"@.len() == 7 && "install"@[0] == 'i' && "install"@[1] == 'n' && "install"@[2] == 's');
    assert("store"@.len() == 5 && "store"@[0] == 's' && "store"@[1] == 't' && "store"@[2] == 'o');
    assert("open-store"@.len() == 10 && "open-store"@[0] == 'o' && "open-store"@[1] == 'p' && "open-store"@[2] == 'e');
    assert("sync"@.len() == 4 && "sync"@[0] == 's' && "sync"@[1] == 'y' && "sync"@[2] == 'n');
    assert("schedule"@.len() == 8 && "schedule"@[0] == 's' && "schedule"@[1] == 'c' && "schedule"@[2] == 'h');
    assert("history"@.len() == 7 && "history"@[0] == 'h' && "history"@[1] == 'i' && "history"@[2] == 's');
    assert("rollback"@.len() == 8 && "rollback"@[0] == 'r' && "rollback"@[1] == 'o' && "rollback"@[2] == 'l');
    assert("resume"@.len() == 6 && "resume"@[0] == 'r' && "resume"@[1] == 'e' && "resume"@[2] == 's');
    assert("startup"@.len() == 7 && "startup"@[0] == 's' && "startup"@[1] == 't' && "startup"@[2] == 'a');
    assert("completions"@.len() == 11 && "completions"@[0] == 'c' && "completions"@[1] == 'o' && "completions"@[2] == 'm');
    assert("version"@.len() == 7 && "version"@[0] == 'v' && "version"@[1] == 'e' && "version"@[2] == 'r');
    assert("config-fingerprint"@.len() == 18 && "config-fingerprint"@[0] == 'c' && "config-fingerprint"@[1] == 'o' && "config-fingerprint"@[2] == 'n');
    assert("apply"@.len() == 5 && "apply"@[0] == 'a' && "apply"@[1] == 'p' && "apply"@[2] == 'p');
    assert("update"@.len() == 6 && "update"@[0] == 'u' && "update"@[1] == 'p' && "update"@[2] == 'd');
}

/// Each flag sets what it names and nothing else.
pub proof fn law_flags_set_what_they_name(request: Request, token: Seq<char>)
    ensures
        flagged(request, "--json"@) == Some(Request { json: true, ..request }),
        flagged(request, "--core-only"@) == Some(Request { core_only: true, ..request }),
        flagged(request, "--plugins-only"@) == Some(Request { plugins_only: true, ..request }),
        flagged(request, "--allow-protocol-change"@) == Some(Request { allow_protocol_change: true, ..request }),
        flagged(request, "--refresh"@) == Some(Request { refresh: true, ..request }),
        flagged(request, "-y"@) == Some(Request { yes: true, ..request }),
        flagged(request, "--yes"@) == Some(Request { yes: true, ..request }),
        flagged(request, token) is Some ==> token == "--json"@ || token == "--core-only"@ || token == "--plugins-only"@ || token == "--allow-protocol-change"@ || token == "--refresh"@ || token == "-y"@ || token == "--yes"@,
{
    reveal_strlit("--json");
    reveal_strlit("--core-only");
    reveal_strlit("--plugins-only");
    reveal_strlit("--allow-protocol-change");
    reveal_strlit("--refresh");
    reveal_strlit("-y");
    reveal_strlit("--yes");
    assert("--json"@.len() == 6 && "--core-only"@.len() == 11 && "--plugins-only"@.len() == 14 && "--allow-protocol-change"@.len() == 23 && "--refresh"@.len() == 9 && "-y"@.len() == 2 && "--yes"@.len() == 5);
}

/// Each option with a value sets what it names, from that value, and nothing
/// else; a value that does not fit is refused.
pub proof fn law_options_set_what_they_name(request: Request, value: Seq<char>, n: nat)
    ensures
        valued(request, "--config"@, value) == Ok::<Request, Seq<char>>(
            Request { config: Some(value), ..request },
        ),
        valued(request, "--only"@, value) == Ok::<Request, Seq<char>>(
            Request { only: Some(value), ..request },
        ),
        0 < n <= u64::MAX ==> valued(request, "--timeout"@, text::decimal(n)) == Ok::<
            Request,
            Seq<char>,
        >(Request { timeout: n, ..request }),
        valued(request, "--timeout"@, text::decimal(0)) is Err,
        n <= usize::MAX ==> valued(request, "--limit"@, text::decimal(n)) == Ok::<
            Request,
            Seq<char>,
        >(Request { limit: Some(n), ..request }),
        valued(request, "--sort"@, value) == match crate::catalog::sort_named(value) {
            Some(sort) => Ok::<Request, Seq<char>>(Request { sort, ..request }),
            None => Err("--sort must be relevance, stars, trending, recent, or name"@),
        },
        config::duration_of(value) matches Ok(seconds) ==> valued(request, "--since"@, value)
            == Ok::<Request, Seq<char>>(Request { since: Some(seconds), ..request }),
        config::duration_of(value) is Err ==> valued(request, "--since"@, value) is Err,
        valued(request, "--hosts"@, value) == Ok::<Request, Seq<char>>(
            Request { hosts: listed(text::split_at_char(value, ',')), ..request },
        ),
{
    reveal_strlit("--timeout");
    reveal_strlit("--config");
    reveal_strlit("--only");
    reveal_strlit("--hosts");
    reveal_strlit("--sort");
    reveal_strlit("--limit");
    reveal_strlit("--since");
    assert("--timeout"@.len() == 9 && "--timeout"@[2] == 't' && "--timeout"@[3] == 'i');
    assert("--config"@.len() == 8 && "--config"@[2] == 'c' && "--config"@[3] == 'o');
    assert("--only"@.len() == 6 && "--only"@[2] == 'o' && "--only"@[3] == 'n');
    assert("--hosts"@.len() == 7 && "--hosts"@[2] == 'h' && "--hosts"@[3] == 'o');
    assert("--sort"@.len() == 6 && "--sort"@[2] == 's' && "--sort"@[3] == 'o');
    assert("--limit"@.len() == 7 && "--limit"@[2] == 'l' && "--limit"@[3] == 'i');
    assert("--since"@.len() == 7 && "--since"@[2] == 's' && "--since"@[3] == 'i');
    text::law_decimal_reads_back(0, u64::MAX as nat);
    if n <= u64::MAX {
        text::law_decimal_reads_back(n, u64::MAX as nat);
    }
    if n <= usize::MAX {
        text::law_decimal_reads_back(n, usize::MAX as nat);
    }
}

/// A list of hosts is what stands between its commas, without the blanks around
/// each, in order, and without empty ones.
pub proof fn law_list_is_what_stands_between(parts: Seq<Seq<char>>, part: Seq<char>)
    ensures
        listed(seq![]) == Seq::<Seq<char>>::empty(),
        text::trimmed(part).len() > 0 ==> listed(parts.push(part)) == listed(parts).push(
            text::trimmed(part),
        ),
        text::trimmed(part).len() == 0 ==> listed(parts.push(part)) == listed(parts),
{
    assert(parts.push(part).drop_last() =~= parts);
}

/// A command line is read from left to right: a flag, an option with its value
/// and an operand each add to what was read before, and what fits nowhere is
/// refused. Nothing is set that was not asked for.
pub proof fn law_command_line_is_read_in_order(
    request: Request,
    token: Seq<char>,
    value: Seq<char>,
    rest: Seq<Seq<char>>,
)
    ensures
        requested(seq![token]) is Ok ==> requested(seq![token]) == Ok::<Request, Seq<char>>(
            plain_request(token),
        ),
        absorbed(request, seq![]) == Ok::<Request, Seq<char>>(request),
        flagged(request, token) matches Some(next) ==> absorbed(request, seq![token] + rest)
            == absorbed(next, rest),
        flagged(request, token) is None && takes_value(token) && valued(request, token, value) is Ok
            ==> absorbed(request, seq![token, value] + rest) == absorbed(
            valued(request, token, value)->Ok_0,
            rest,
        ),
        takes_value(token) && flagged(request, token) is None ==> absorbed(request, seq![token])
            is Err,
        flagged(request, token) is None && !takes_value(token) && token.len() > 0 && token[0] == '-'
            ==> absorbed(request, seq![token] + rest) is Err,
        flagged(request, token) is None && !takes_value(token) && !is_option(token)
            && !accepts_operand(request.cmd, request.operands.len()) ==> absorbed(
            request,
            seq![token] + rest,
        ) is Err,
        !plain_request(token).yes && !plain_request(token).json && !plain_request(
            token,
        ).allow_protocol_change && !plain_request(token).refresh,
        plain_request(token).only is None && plain_request(token).config is None && plain_request(
            token,
        ).limit is None && plain_request(token).since is None,
{
    let one = seq![token] + rest;
    let two = seq![token, value] + rest;
    assert(one[0] == token && one.skip(1) =~= rest);
    assert(two[0] == token && two[1] == value && two.skip(2) =~= rest);
    assert(seq![token].skip(1) =~= seq![]);
}

/// Core is updated exactly where both sides were read, the published version is
/// the newer one, its protocol is the same or may change, the client is on
/// `stable` or on no named channel or may be on another, and a server that runs
/// can hand off.
pub proof fn law_core_decision_is_exact(
    status: herdr::StatusJson,
    manifest: herdr::Manifest,
    allow_channel_mismatch: bool,
    allow_protocol_change: bool,
)
    ensures
        ({
            let outcome = core_outcome(
                herdr::core_facts(Ok(status), Ok(manifest)),
                allow_channel_mismatch,
                allow_protocol_change,
            );
            let order = crate::version::compared(status.client.version@, manifest.version@);
            let facts = herdr::core_facts(Ok(status), Ok(manifest));
            let hands_off = match status.server {
                None => true,
                Some(server) => server.running ==> server.capabilities.live_handoff,
            };
            &&& outcome is Current <==> order == Some(std::cmp::Ordering::Equal)
            &&& outcome is Error <==> order is None
            &&& order == Some(std::cmp::Ordering::Greater) ==> outcome is Hold
            &&& order == Some(std::cmp::Ordering::Less) ==> outcome is Update || outcome is Hold
            &&& outcome is Update <==> order == Some(std::cmp::Ordering::Less) && hands_off && (
            facts.channel_mismatch ==> allow_channel_mismatch) && (manifest.protocol
                == status.client.protocol || allow_protocol_change)
        }),
{
    herdr::law_core_gate_is_exact(status, manifest, allow_channel_mismatch);
}

/// A code of 1 says that something can be done: some plugin can be updated, or
/// core can or is held back from a version that is published.
pub proof fn law_one_means_attention(
    core: Option<(plugins::Outcome, bool)>,
    found: Seq<plugins::Outcome>,
)
    ensures
        inspection_code(core, found) == 0 <==> (core matches Some(c) ==> c.0 is Current || (c.0
            is Hold && !c.1)) && forall|i: int|
            0 <= i < found.len() ==> #[trigger] found[i] is Current || found[i] is Hold,
        inspection_code(core, found) == 1 ==> (core matches Some(c) && (c.0 is Update || (c.0
            is Hold && c.1))) || exists|i: int| 0 <= i < found.len() && #[trigger] found[i] is Update,
{
    law_unknown_is_never_green(core, found);
    lemma_plugins_code(found);
    if plugins_code(found) > 0 {
        let i = choose|i: int|
            0 <= i < found.len() && target_code(#[trigger] found[i], false) == plugins_code(found);
        assert(found[i] is Update || found[i] is Error);
    }
}

/// Under the `auto` policy `apply` and the schedule change core and plugins,
/// and the startup hook changes plugins; no other command changes anything.
pub proof fn law_auto_changes_what_it_may(verb: Verb)
    ensures
        may_change(verb, Policy::Auto).core <==> verb == Verb::Apply || verb == Verb::Schedule,
        may_change(verb, Policy::Auto).plugins <==> verb == Verb::Apply || verb == Verb::Schedule
            || verb == Verb::Startup,
{
}

/// The report of core says what is installed and published, whether a server
/// runs and could hand off, and what is to be done; a protocol change that
/// nothing else holds back is pointed out.
pub proof fn law_core_report_is_true(
    state: herdr::CoreFacts,
    allow_channel_mismatch: bool,
    allow_protocol_change: bool,
)
    ensures
        ({
            let lines = core_lines(state, allow_channel_mismatch, allow_protocol_change);
            let outcome = core_outcome(state, allow_channel_mismatch, allow_protocol_change);
            &&& state.installed.len() > 0 ==> lines[1] == "  installed : "@ + state.installed
                + " (protocol "@ + text::decimal(state.protocol as nat) + ")"@
            &&& state.latest is Some && state.latest_protocol is Some ==> lines[2]
                == "  latest    : "@ + state.latest->0 + " (protocol "@ + text::decimal(
                state.latest_protocol->0 as nat,
            ) + ")"@
            &&& !state.server_running ==> lines[3] == "  server    : not running"@
            &&& state.server_running && state.live_handoff ==> lines[3] == "  server    : running"@
            &&& outcome is Update && state.latest is Some ==> lines[4] == "  action    : UPDATE "@
                + state.installed + " -> "@ + state.latest->0
            &&& outcome is Current ==> lines[4] == "  action    : up to date"@
            &&& outcome matches plugins::Outcome::Hold(reason) ==> lines[4]
                == "  action    : HOLD — "@ + reason
            &&& outcome matches plugins::Outcome::Error(error) ==> lines[4]
                == "  action    : ERROR — "@ + error
            &&& (lines.len() == 6) == (state.protocol_change && herdr::gate_reason(
                state,
                allow_channel_mismatch,
            ) is None)
        }),
{
}

/// The line of a plugin names it and what is decided, an update from the
/// installed commit to the upstream one.
pub proof fn law_plugin_line_is_true(
    state: plugins::PluginFacts,
    outcome: plugins::Outcome,
    installed: Seq<char>,
    remote: Seq<char>,
)
    requires
        state.installed_sha == Some(installed),
        state.remote_sha == Some(remote),
    ensures
        ({
            let line = plugin_line(state, outcome);
            &&& text::begins_with(line, "  "@ + state.plugin_id)
            &&& outcome is Update ==> text::finishes_with(
                line,
                "UPDATE "@ + installed + " -> "@ + remote,
            )
            &&& outcome is Current ==> text::finishes_with(line, "CURRENT"@)
            &&& outcome matches plugins::Outcome::Hold(reason) ==> text::finishes_with(
                line,
                "HOLD — "@ + reason,
            )
            &&& outcome matches plugins::Outcome::Error(error) ==> text::finishes_with(
                line,
                "ERROR — "@ + error,
            )
        }),
{
    let line = plugin_line(state, outcome);
    let head = "  "@ + state.plugin_id;
    assert(line.subrange(0, head.len() as int) =~= head);
    let end = match outcome {
        plugins::Outcome::Current => "CURRENT"@,
        plugins::Outcome::Update => "UPDATE "@ + installed + " -> "@ + remote,
        plugins::Outcome::Hold(reason) => "HOLD — "@ + reason,
        plugins::Outcome::Error(error) => "ERROR — "@ + error,
    };
    assert(line.subrange(line.len() - end.len(), line.len() as int) =~= end);
}

/// History since a while ago begins that long before now, and at the beginning
/// of time at the latest.
pub proof fn law_since_goes_back_from_now(since: Duration, now: u64)
    ensures
        since_moment(None, now) is None,
        since_moment(Some(since), now) matches Some(from) && from <= now && (since@ <= now
            ==> from + since@ == now) && (since@ > now ==> from == 0),
{
}

/// A run looks at what the configuration checks; an option that names one part
/// asks for that part and no other, and both together are refused.
pub proof fn law_scope_is_what_was_asked_for(check_core: bool, check_plugins: bool)
    ensures
        scope_of(false, false, check_core, check_plugins) == Some(
            Scope { core: check_core, plugins: check_plugins },
        ),
        scope_of(true, false, check_core, check_plugins) == Some(
            Scope { core: true, plugins: false },
        ),
        scope_of(false, true, check_core, check_plugins) == Some(
            Scope { core: false, plugins: true },
        ),
        scope_of(true, true, check_core, check_plugins) is None,
{
}

/// After an apply the code is 2 exactly where some answer is not known, 1 where
/// an update failed or core is held back from a published version, and 0 where
/// everything was carried out.
pub proof fn law_apply_code_is_exact(
    core: Option<(plugins::Outcome, bool)>,
    found: Seq<plugins::Outcome>,
    failed: bool,
)
    ensures
        ({
            let unknown = (core matches Some(c) && c.0 is Error) || exists|i: int|
                0 <= i < found.len() && #[trigger] found[i] is Error;
            let held_back = core matches Some(c) && c.0 is Hold && c.1;
            &&& applied_code(core, found, failed) == 2 <==> unknown
            &&& applied_code(core, found, failed) == 1 <==> !unknown && (failed || held_back)
            &&& applied_code(core, found, failed) == 0 <==> !unknown && !failed && !held_back
        }),
{
    law_unknown_is_never_green(core, found);
}

/// A search takes any number of words; installing, synchronising, scheduling
/// and completing take one operand; no other command takes any.
pub proof fn law_operands_are_counted(cmd: Seq<char>, given: nat)
    ensures
        verb_named(cmd) == Some(Verb::Search) ==> accepts_operand(cmd, given),
        verb_named(cmd) == Some(Verb::Install) || verb_named(cmd) == Some(Verb::Sync) || verb_named(
            cmd,
        ) == Some(Verb::Schedule) || verb_named(cmd) == Some(Verb::Completions) ==> (
        accepts_operand(cmd, given) <==> given == 0),
        accepts_operand(cmd, given) ==> verb_named(cmd) == Some(Verb::Search) || verb_named(cmd)
            == Some(Verb::Install) || verb_named(cmd) == Some(Verb::Sync) || verb_named(cmd) == Some(
            Verb::Schedule,
        ) || verb_named(cmd) == Some(Verb::Completions),
{
}

/// Asking for help anywhere, or for nothing at all, shows the usage.
pub proof fn law_help_is_given(raw: Seq<Seq<char>>)
    ensures
        raw.len() == 0 || raw.contains("-h"@) || raw.contains("--help"@) ==> requested(raw) == Err::<
            Request,
            Seq<char>,
        >(seq![]),
        requested(raw) matches Ok(request) ==> raw.len() > 0 && !raw.contains("--help"@),
{
}

/// The protocol may change where either side allows it and nowhere else; only a
/// startup without its check has nothing to do; and a limit is kept as given.
pub proof fn law_settings_are_heeded(asked: bool, configured: bool, verb: Verb, n: usize)
    ensures
        protocol_may_change(true, configured) && protocol_may_change(asked, true),
        !protocol_may_change(false, false),
        idle(Verb::Startup, false),
        !idle(verb, true),
        verb != Verb::Startup ==> !idle(verb, configured),
        shown_at_most(Some(n)) == n,
        shown_at_most(None) == 20,
{
}

} // verus!
