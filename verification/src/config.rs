//! Settings: their defaults, what the file may say, and what is refused.

use crate::duration::Duration;
use crate::exec::{self, ExecError, Output};
use crate::location::Location;
use crate::matching;
use crate::text;
use crate::text::CharClass;
use vstd::prelude::*;
use vstd::string::*;

verus! {

#[derive(Debug, Clone, Copy, PartialEq, Eq, Structural)]
pub enum Policy {
    Notify,
    Auto,
}

impl Default for Policy {
    fn default() -> (r: Self)
        ensures
            r == Policy::Notify,
    {
        Policy::Notify
    }
}

#[derive(Debug)]
pub struct Config {
    pub policy: Policy,
    pub check_core: bool,
    pub check_plugins: bool,
    pub startup_check: bool,
    pub check_interval: String,
    pub catalog_refresh_interval: String,
    pub fleet_sync_interval: String,
    pub initial_delay: String,
    pub jitter: String,
    pub quiet_hours: Option<String>,
    pub scheduled_fleet_sync: bool,
    pub sync_update_settings: bool,
    pub require_fast_forward: bool,
    pub immutable_pins: bool,
    pub allow_protocol_change: bool,
    pub allow_channel_mismatch: bool,
    pub allow: Vec<String>,
    pub trusted_owners: Vec<String>,
    pub max_concurrency: usize,
    pub ref_cache_ttl: String,
}

/// What a configuration says.
pub struct Settings {
    pub policy: Policy,
    pub check_core: bool,
    pub check_plugins: bool,
    pub startup_check: bool,
    pub check_interval: Seq<char>,
    pub catalog_refresh_interval: Seq<char>,
    pub fleet_sync_interval: Seq<char>,
    pub initial_delay: Seq<char>,
    pub jitter: Seq<char>,
    pub quiet_hours: Option<Seq<char>>,
    pub scheduled_fleet_sync: bool,
    pub sync_update_settings: bool,
    pub require_fast_forward: bool,
    pub immutable_pins: bool,
    pub allow_protocol_change: bool,
    pub allow_channel_mismatch: bool,
    pub allow: Seq<Seq<char>>,
    pub trusted_owners: Seq<Seq<char>>,
    pub max_concurrency: usize,
    pub ref_cache_ttl: Seq<char>,
}

impl View for Config {
    type V = Settings;

    open spec fn view(&self) -> Settings {
        Settings {
            policy: self.policy,
            check_core: self.check_core,
            check_plugins: self.check_plugins,
            startup_check: self.startup_check,
            check_interval: self.check_interval@,
            catalog_refresh_interval: self.catalog_refresh_interval@,
            fleet_sync_interval: self.fleet_sync_interval@,
            initial_delay: self.initial_delay@,
            jitter: self.jitter@,
            quiet_hours: text::opt_text(self.quiet_hours),
            scheduled_fleet_sync: self.scheduled_fleet_sync,
            sync_update_settings: self.sync_update_settings,
            require_fast_forward: self.require_fast_forward,
            immutable_pins: self.immutable_pins,
            allow_protocol_change: self.allow_protocol_change,
            allow_channel_mismatch: self.allow_channel_mismatch,
            allow: text::texts(self.allow@),
            trusted_owners: text::texts(self.trusted_owners@),
            max_concurrency: self.max_concurrency,
            ref_cache_ttl: self.ref_cache_ttl@,
        }
    }
}

impl Clone for Config {
    fn clone(&self) -> (r: Self)
        ensures
            r@ == self@,
    {
        let r = Config {
            policy: self.policy,
            check_core: self.check_core,
            check_plugins: self.check_plugins,
            startup_check: self.startup_check,
            check_interval: self.check_interval.clone(),
            catalog_refresh_interval: self.catalog_refresh_interval.clone(),
            fleet_sync_interval: self.fleet_sync_interval.clone(),
            initial_delay: self.initial_delay.clone(),
            jitter: self.jitter.clone(),
            quiet_hours: text::clone_option(&self.quiet_hours),
            scheduled_fleet_sync: self.scheduled_fleet_sync,
            sync_update_settings: self.sync_update_settings,
            require_fast_forward: self.require_fast_forward,
            immutable_pins: self.immutable_pins,
            allow_protocol_change: self.allow_protocol_change,
            allow_channel_mismatch: self.allow_channel_mismatch,
            allow: text::clone_list(&self.allow),
            trusted_owners: text::clone_list(&self.trusted_owners),
            max_concurrency: self.max_concurrency,
            ref_cache_ttl: self.ref_cache_ttl.clone(),
        };
        r
    }
}

pub open spec fn default_settings() -> Settings {
    Settings {
        policy: Policy::Notify,
        check_core: true,
        check_plugins: true,
        startup_check: true,
        check_interval: "6h"@,
        catalog_refresh_interval: "30m"@,
        fleet_sync_interval: "6h"@,
        initial_delay: "5m"@,
        jitter: "5m"@,
        quiet_hours: None,
        scheduled_fleet_sync: false,
        sync_update_settings: false,
        require_fast_forward: true,
        immutable_pins: true,
        allow_protocol_change: false,
        allow_channel_mismatch: false,
        allow: seq![],
        trusted_owners: seq![],
        max_concurrency: 8,
        ref_cache_ttl: "15m"@,
    }
}

impl Default for Config {
    fn default() -> (r: Self)
        ensures
            r@ == default_settings(),
    {
        let r = Config {
            policy: Policy::Notify,
            check_core: true,
            check_plugins: true,
            startup_check: true,
            check_interval: "6h".to_string(),
            catalog_refresh_interval: "30m".to_string(),
            fleet_sync_interval: "6h".to_string(),
            initial_delay: "5m".to_string(),
            jitter: "5m".to_string(),
            quiet_hours: None,
            scheduled_fleet_sync: false,
            sync_update_settings: false,
            require_fast_forward: true,
            immutable_pins: true,
            allow_protocol_change: false,
            allow_channel_mismatch: false,
            allow: Vec::new(),
            trusted_owners: Vec::new(),
            max_concurrency: 8,
            // Short on purpose: this is the only cached value that can go
            // stale, and its worst case is a delayed update, never a wrong
            // one. "0s" disables ref caching entirely.
            ref_cache_ttl: "15m".to_string(),
        };
        assert(text::texts(r.allow@) =~= seq![]);
        assert(text::texts(r.trusted_owners@) =~= seq![]);
        r
    }
}

#[derive(Debug)]
pub struct Loaded {
    pub value: Config,
    pub path: String,
    pub existed: bool,
    /// Non-fatal problems found while reading the file: keys this build does
    /// not know. Carried rather than printed so every command surfaces them
    /// in its own format.
    pub warnings: Vec<String>,
}

// ---------------------------------------------------------------------------
// Where the settings lie

/// What the environment says about directories.
#[derive(Debug)]
pub struct DirSources {
    pub plugin_config_dir: Option<String>,
    pub config_dir: Option<String>,
    pub appdata: Option<String>,
    pub home: Option<String>,
    pub user_profile: Option<String>,
    pub windows: bool,
}

/// A variable that is set to something.
pub open spec fn set_to(value: Option<String>) -> Option<Seq<char>> {
    match value {
        Some(v) if v@.len() > 0 => Some(v@),
        _ => None,
    }
}

/// The directory that the environment names outright.
pub open spec fn named_dir(sources: DirSources) -> Option<Seq<char>> {
    match set_to(sources.plugin_config_dir) {
        Some(dir) => Some(dir),
        None => set_to(sources.config_dir),
    }
}

/// The directory that Herdr reports, if the call succeeded and printed one.
pub open spec fn reported_dir(reported: Result<Output, ExecError>) -> Option<Seq<char>> {
    match reported {
        Ok(out) if out.code == 0 && exec::trimmed_output(out).len() > 0 => Some(
            exec::trimmed_output(out),
        ),
        _ => None,
    }
}

/// The base and the components below it where nothing names a directory.
pub open spec fn fallback_dir(sources: DirSources) -> (Seq<char>, Seq<Seq<char>>) {
    if sources.windows && sources.appdata is Some {
        (sources.appdata->0@, seq!["herdr"@, "plugins"@, "config"@, "herdr-updater"@])
    } else {
        let home = match (sources.home, sources.user_profile) {
            (Some(home), _) => home@,
            (None, Some(profile)) => profile@,
            (None, None) => "."@,
        };
        (home, seq![".config"@, "herdr"@, "plugins"@, "config"@, "herdr-updater"@])
    }
}

fn nonempty(value: &Option<String>) -> (r: Option<String>)
    ensures
        text::opt_text(r) == set_to(*value),
{
    match value {
        Some(v) => if v.as_str().unicode_len() > 0 {
            Some(v.clone())
        } else {
            None
        },
        None => None,
    }
}

/// The directory that the environment names. Where there is one, Herdr is not
/// asked.
pub fn env_dir(sources: &DirSources) -> (r: Option<String>)
    ensures
        text::opt_text(r) == named_dir(*sources),
{
    match nonempty(&sources.plugin_config_dir) {
        Some(dir) => Some(dir),
        None => nonempty(&sources.config_dir),
    }
}

/// The arguments that ask Herdr for the directory.
pub fn config_dir_args() -> (r: Vec<String>)
    ensures
        text::texts(r@) == seq!["plugin"@, "config-dir"@, "herdr-updater"@],
{
    let r = vec!["plugin".to_string(), "config-dir".to_string(), "herdr-updater".to_string()];
    assert(text::texts(r@) =~= seq!["plugin"@, "config-dir"@, "herdr-updater"@]);
    r
}

/// Where the configuration lies: a base and what follows it.
pub open spec fn dir_of(sources: DirSources, reported: Result<Output, ExecError>) -> (
    Seq<char>,
    Seq<Seq<char>>,
) {
    match (named_dir(sources), reported_dir(reported)) {
        (Some(dir), _) => (dir, seq![]),
        (None, Some(dir)) => (dir, seq![]),
        (None, None) => fallback_dir(sources),
    }
}

/// The configuration directory: what the environment names, else what Herdr
/// reports, else the platform's usual place.
pub fn resolve_dir(sources: &DirSources, reported: &Result<Output, ExecError>) -> (r: Location)
    ensures
        r.is(dir_of(*sources, *reported).0, dir_of(*sources, *reported).1),
{
    if let Some(dir) = env_dir(sources) {
        return Location::at(dir.as_str());
    }
    if let Ok(out) = reported {
        if out.ok() && out.trimmed().unicode_len() > 0 {
            return Location::at(out.trimmed());
        }
    }
    if sources.windows {
        if let Some(base) = &sources.appdata {
            let r = Location::at(base.as_str()).join("herdr").join("plugins").join("config").join(
                "herdr-updater",
            );
            assert(text::texts(r.components@) =~= fallback_dir(*sources).1);
            return r;
        }
    }
    let home = match (&sources.home, &sources.user_profile) {
        (Some(home), _) => home.as_str(),
        (None, Some(profile)) => profile.as_str(),
        (None, None) => ".",
    };
    let r = Location::at(home).join(".config").join("herdr").join("plugins").join("config").join(
        "herdr-updater",
    );
    assert(text::texts(r.components@) =~= fallback_dir(*sources).1);
    r
}

// ---------------------------------------------------------------------------
// Durations

pub open spec fn unit_seconds(unit: char) -> Option<nat> {
    match text::lower(unit) {
        's' => Some(1),
        'm' => Some(60),
        'h' => Some(3_600),
        'd' => Some(86_400),
        _ => None,
    }
}

pub enum DurationFault {
    Shape,
    Unit,
    Component,
    Total,
}

/// Adds up the components of a duration: each is digits and one unit.
pub open spec fn added_up(rest: Seq<char>, total: nat) -> Result<nat, DurationFault>
    decreases rest.len(),
{
    if rest.len() == 0 {
        Ok(total)
    } else {
        let behind = text::skip_class(rest, CharClass::Digit);
        let digits = rest.take(rest.len() - behind.len());
        if digits.len() == 0 || behind.len() == 0 || behind.len() > rest.len() {
            Err(DurationFault::Shape)
        } else if text::digits_value(digits) > u64::MAX {
            Err(DurationFault::Component)
        } else {
            match unit_seconds(behind[0]) {
                None => Err(DurationFault::Unit),
                Some(unit) => {
                    let seconds = text::digits_value(digits) * unit;
                    if seconds > u64::MAX {
                        Err(DurationFault::Component)
                    } else if total + seconds > u64::MAX {
                        Err(DurationFault::Total)
                    } else {
                        added_up(behind.drop_first(), total + seconds)
                    }
                },
            }
        }
    }
}

pub open spec fn duration_fault_text(fault: DurationFault, value: Seq<char>) -> Seq<char> {
    match fault {
        DurationFault::Shape => "invalid duration "@ + text::debug_text(value)
            + "; use values such as 30m, 6h, or 1d"@,
        DurationFault::Unit => "invalid duration unit in "@ + text::debug_text(value)
            + "; supported units are s, m, h, and d"@,
        DurationFault::Component => "duration component is too large in "@ + text::debug_text(
            value,
        ),
        DurationFault::Total => "duration is too large in "@ + text::debug_text(value),
    }
}

/// The seconds that a duration denotes, or what is wrong with it.
pub open spec fn duration_of(value: Seq<char>) -> Result<nat, Seq<char>> {
    let t = text::trimmed(value);
    if t.len() == 0 {
        Err("duration is empty"@)
    } else {
        match added_up(t, 0) {
            Ok(seconds) => Ok(seconds),
            Err(fault) => Err(duration_fault_text(fault, t)),
        }
    }
}

/// The components of a duration add up: what stands behind a valid duration
/// continues its sum.
pub proof fn law_durations_add_up(a: Seq<char>, b: Seq<char>, total: nat)
    ensures
        added_up(a, total) matches Ok(sum) ==> added_up(a + b, total) == added_up(b, sum),
    decreases a.len(),
{
    if a.len() == 0 {
        assert(a + b =~= b);
    } else if added_up(a, total) is Ok {
        let behind = text::skip_class(a, CharClass::Digit);
        text::lemma_skip_class(a, CharClass::Digit);
        lemma_skip_digits_append(a, b);
        let digits = a.take(a.len() - behind.len());
        assert((a + b).take((a + b).len() - (behind + b).len()) =~= digits);
        assert((behind + b).drop_first() =~= behind.drop_first() + b);
        let unit = unit_seconds(behind[0])->0;
        law_durations_add_up(behind.drop_first(), b, total + text::digits_value(digits) * unit);
    }
}

proof fn lemma_skip_digits_append(a: Seq<char>, b: Seq<char>)
    requires
        text::skip_class(a, CharClass::Digit).len() > 0,
    ensures
        text::skip_class(a + b, CharClass::Digit) == text::skip_class(a, CharClass::Digit) + b,
    decreases a.len(),
{
    assert((a + b)[0] == a[0]);
    if CharClass::Digit.holds(a[0]) {
        assert((a + b).drop_first() =~= a.drop_first() + b);
        lemma_skip_digits_append(a.drop_first(), b);
    }
}

fn duration_error(fault: DurationFault, value: &str) -> (r: String)
    ensures
        r@ == duration_fault_text(fault, value@),
{
    match fault {
        DurationFault::Shape => "invalid duration ".to_string().concat(
            text::quoted(value).as_str(),
        ).concat("; use values such as 30m, 6h, or 1d"),
        DurationFault::Unit => "invalid duration unit in ".to_string().concat(
            text::quoted(value).as_str(),
        ).concat("; supported units are s, m, h, and d"),
        DurationFault::Component => "duration component is too large in ".to_string().concat(
            text::quoted(value).as_str(),
        ),
        DurationFault::Total => "duration is too large in ".to_string().concat(
            text::quoted(value).as_str(),
        ),
    }
}

fn unit_of(unit: char) -> (r: Option<u64>)
    ensures
        match r {
            Some(n) => unit_seconds(unit) == Some(n as nat) && n <= 86_400,
            None => unit_seconds(unit) is None,
        },
{
    match text::lower_char(unit) {
        's' => Some(1),
        'm' => Some(60),
        'h' => Some(3_600),
        'd' => Some(86_400),
        _ => None,
    }
}

fn add_up(value: &str) -> (r: Result<u64, DurationFault>)
    ensures
        match r {
            Ok(n) => added_up(value@, 0) == Ok::<nat, DurationFault>(n as nat),
            Err(fault) => added_up(value@, 0) == Err::<nat, DurationFault>(fault),
        },
{
    let mut rest: &str = value;
    let mut total: u64 = 0;
    while rest.unicode_len() > 0
        invariant
            added_up(value@, 0) == added_up(rest@, total as nat),
        decreases rest@.len(),
    {
        let behind = text::skip_class_of(rest, CharClass::Digit);
        proof {
            text::lemma_skip_class(rest@, CharClass::Digit);
        }
        let count = rest.unicode_len() - behind.unicode_len();
        if count == 0 || behind.unicode_len() == 0 {
            return Err(DurationFault::Shape);
        }
        let digits = rest.substring_char(0, count);
        proof {
            assert(digits@ =~= rest@.take(rest@.len() - behind@.len()));
            lemma_digits_before(rest@);
            assert(text::CharClass::Digit.holds(digits@[0]));
        }
        let amount: u64 = match text::parse_number(digits, u64::MAX) {
            Some(n) => n,
            None => {
                return Err(DurationFault::Component);
            },
        };
        let unit: u64 = match unit_of(behind.get_char(0)) {
            Some(n) => n,
            None => {
                return Err(DurationFault::Unit);
            },
        };
        let seconds: u64 = match amount.checked_mul(unit) {
            Some(n) => n,
            None => {
                return Err(DurationFault::Component);
            },
        };
        total = match total.checked_add(seconds) {
            Some(n) => n,
            None => {
                return Err(DurationFault::Total);
            },
        };
        let next = behind.substring_char(1, behind.unicode_len());
        assert(next@ =~= behind@.drop_first());
        rest = next;
    }
    Ok(total)
}

proof fn lemma_digits_before(s: Seq<char>)
    ensures
        text::all_in(s.take(s.len() - text::skip_class(s, CharClass::Digit).len()), CharClass::Digit),
    decreases s.len(),
{
    text::lemma_skip_class(s, CharClass::Digit);
    if s.len() > 0 && CharClass::Digit.holds(s[0]) {
        let rest = s.drop_first();
        lemma_digits_before(rest);
        text::lemma_skip_class(rest, CharClass::Digit);
        let n = s.len() - text::skip_class(s, CharClass::Digit).len();
        assert forall|i: int| 0 <= i < n implies CharClass::Digit.holds(#[trigger] s.take(n)[i]) by {
            if i > 0 {
                assert(s.take(n)[i] == rest.take(n - 1)[i - 1]);
            }
        }
    }
}

/// Reads a duration such as `30m`, `6h` or `1h30m`.
pub fn parse_duration(value: &str) -> (r: Result<Duration, String>)
    ensures
        match r {
            Ok(d) => duration_of(value@) == Ok::<nat, Seq<char>>(d@),
            Err(e) => duration_of(value@) == Err::<nat, Seq<char>>(e@),
        },
{
    let value = text::trim(value);
    if value.unicode_len() == 0 {
        return Err("duration is empty".to_string());
    }
    match add_up(value) {
        Ok(seconds) => Ok(Duration::from_secs(seconds)),
        Err(fault) => Err(duration_error(fault, value)),
    }
}

// ---------------------------------------------------------------------------
// What the settings mean

/// The seconds of a duration setting, or a default where it does not parse.
pub open spec fn seconds_or(value: Seq<char>, default: nat) -> nat {
    match duration_of(value) {
        Ok(seconds) => seconds,
        Err(_) => default,
    }
}

fn duration_or(value: &str, default: u64) -> (r: Duration)
    ensures
        r@ == seconds_or(value@, default as nat),
{
    match parse_duration(value) {
        Ok(d) => d,
        Err(_) => Duration::from_secs(default),
    }
}

pub open spec fn same_ignoring_case(a: Seq<char>, b: Seq<char>) -> bool {
    text::lowercase(a) == text::lowercase(b)
}

/// A repository may be updated: its owner is trusted, where owners are listed,
/// and it matches a pattern, where patterns are listed.
pub open spec fn target_permitted(
    trusted_owners: Seq<Seq<char>>,
    allow: Seq<Seq<char>>,
    owner: Seq<char>,
    repo: Seq<char>,
) -> bool {
    &&& trusted_owners.len() == 0 || exists|i: int|
        0 <= i < trusted_owners.len() && same_ignoring_case(#[trigger] trusted_owners[i], owner)
    &&& allow.len() == 0 || exists|i: int|
        0 <= i < allow.len() && matching::wildcard_matches(
            #[trigger] allow[i],
            owner + "/"@ + repo,
        )
}

impl Config {
    pub fn check_every(&self) -> (r: Duration)
        ensures
            r@ == seconds_or(self.check_interval@, 21_600),
    {
        duration_or(self.check_interval.as_str(), 21_600)
    }

    pub fn catalog_refresh_every(&self) -> (r: Duration)
        ensures
            r@ == seconds_or(self.catalog_refresh_interval@, 1_800),
    {
        duration_or(self.catalog_refresh_interval.as_str(), 1_800)
    }

    pub fn fleet_sync_every(&self) -> (r: Duration)
        ensures
            r@ == seconds_or(self.fleet_sync_interval@, 21_600),
    {
        duration_or(self.fleet_sync_interval.as_str(), 21_600)
    }

    pub fn initial_delay_value(&self) -> (r: Duration)
        ensures
            r@ == seconds_or(self.initial_delay@, 300),
    {
        duration_or(self.initial_delay.as_str(), 300)
    }

    pub fn jitter_value(&self) -> (r: Duration)
        ensures
            r@ == seconds_or(self.jitter@, 300),
    {
        duration_or(self.jitter.as_str(), 300)
    }

    /// Seconds a resolved ref may be reused, six hours at most. A value that
    /// does not parse falls back to the default rather than to "forever".
    pub fn ref_cache_seconds(&self) -> (r: u64)
        ensures
            r == matching::least(seconds_or(self.ref_cache_ttl@, 900), 21_600),
    {
        let seconds = duration_or(self.ref_cache_ttl.as_str(), 900).as_secs();
        if seconds < 21_600 {
            seconds
        } else {
            21_600
        }
    }

    pub fn target_allowed(&self, owner: &str, repo: &str) -> (r: bool)
        ensures
            r == target_permitted(self@.trusted_owners, self@.allow, owner@, repo@),
    {
        self.owner_trusted(owner) && self.pattern_matches(owner, repo)
    }

    fn owner_trusted(&self, owner: &str) -> (r: bool)
        ensures
            r == (self@.trusted_owners.len() == 0 || exists|i: int|
                0 <= i < self@.trusted_owners.len() && same_ignoring_case(
                    #[trigger] self@.trusted_owners[i],
                    owner@,
                )),
    {
        if self.trusted_owners.len() == 0 {
            return true;
        }
        let mut i: usize = 0;
        while i < self.trusted_owners.len()
            invariant
                i <= self.trusted_owners.len(),
                forall|k: int|
                    0 <= k < i ==> !same_ignoring_case(
                        #[trigger] self@.trusted_owners[k],
                        owner@,
                    ),
            decreases self.trusted_owners.len() - i,
        {
            assert(self@.trusted_owners[i as int] == self.trusted_owners@[i as int]@);
            if text::eq_ignore_case(self.trusted_owners[i].as_str(), owner) {
                return true;
            }
            i = i + 1;
        }
        false
    }

    fn pattern_matches(&self, owner: &str, repo: &str) -> (r: bool)
        ensures
            r == (self@.allow.len() == 0 || exists|i: int|
                0 <= i < self@.allow.len() && matching::wildcard_matches(
                    #[trigger] self@.allow[i],
                    owner@ + "/"@ + repo@,
                )),
    {
        if self.allow.len() == 0 {
            return true;
        }
        let target = owner.to_string().concat("/").concat(repo);
        let mut i: usize = 0;
        while i < self.allow.len()
            invariant
                i <= self.allow.len(),
                target@ == owner@ + "/"@ + repo@,
                forall|k: int|
                    0 <= k < i ==> !matching::wildcard_matches(
                        #[trigger] self@.allow[k],
                        target@,
                    ),
            decreases self.allow.len() - i,
        {
            assert(self@.allow[i as int] == self.allow@[i as int]@);
            if matching::wildcard(self.allow[i].as_str(), target.as_str()) {
                return true;
            }
            i = i + 1;
        }
        false
    }
}

/// Patterns and owners both narrow: listing either never lets a repository in
/// that the other keeps out.
pub proof fn law_allow_rules_narrow(
    trusted_owners: Seq<Seq<char>>,
    allow: Seq<Seq<char>>,
    owner: Seq<char>,
    repo: Seq<char>,
)
    ensures
        target_permitted(trusted_owners, allow, owner, repo) <==> target_permitted(
            trusted_owners,
            seq![],
            owner,
            repo,
        ) && target_permitted(seq![], allow, owner, repo),
        target_permitted(seq![], seq![], owner, repo),
{
}

// ---------------------------------------------------------------------------
// Quiet hours

/// The minutes after midnight that `HH:MM` denotes.
pub open spec fn clock_minutes(raw: Seq<char>) -> Option<nat> {
    match text::cut_at_char(raw, ':') {
        Some((hour, minute)) if text::utf8_len(hour) == 2 && text::utf8_len(minute) == 2 => {
            match (text::parsed_number(hour, 65_535), text::parsed_number(minute, 65_535)) {
                (Some(h), Some(m)) if h < 24 && m < 60 => Some(h * 60 + m),
                _ => None,
            }
        },
        _ => None,
    }
}

/// The start and end of quiet hours, or what is wrong with them.
pub open spec fn quiet_hours_of(value: Seq<char>) -> Result<(nat, nat), Seq<char>> {
    match text::cut_at_char(value, '-') {
        None => Err("quiet_hours must use HH:MM-HH:MM"@),
        Some((start, end)) => match (clock_minutes(start), clock_minutes(end)) {
            (None, _) => Err("quiet_hours has an invalid start time"@),
            (_, None) => Err("quiet_hours has an invalid end time"@),
            (Some(s), Some(e)) => if s == e {
                Err("quiet_hours cannot cover the entire day"@)
            } else {
                Ok((s, e))
            },
        },
    }
}

fn minutes(raw: &str) -> (r: Option<u16>)
    ensures
        match r {
            Some(n) => clock_minutes(raw@) == Some(n as nat) && n < 1440,
            None => clock_minutes(raw@) is None,
        },
{
    match text::split_once(raw, ':') {
        Some((hour, minute)) => {
            if text::byte_len(hour.as_str()) != 2 || text::byte_len(minute.as_str()) != 2 {
                return None;
            }
            match (
                text::parse_number(hour.as_str(), 65_535),
                text::parse_number(minute.as_str(), 65_535),
            ) {
                (Some(h), Some(m)) => if h < 24 && m < 60 {
                    Some(h as u16 * 60 + m as u16)
                } else {
                    None
                },
                _ => None,
            }
        },
        None => None,
    }
}

pub fn parse_quiet_hours(value: &str) -> (r: Result<(u16, u16), String>)
    ensures
        match r {
            Ok((start, end)) => quiet_hours_of(value@) == Ok::<(nat, nat), Seq<char>>(
                (start as nat, end as nat),
            ) && start < 1440 && end < 1440,
            Err(e) => quiet_hours_of(value@) == Err::<(nat, nat), Seq<char>>(e@),
        },
{
    match text::split_once(value, '-') {
        None => Err("quiet_hours must use HH:MM-HH:MM".to_string()),
        Some((start, end)) => match (minutes(start.as_str()), minutes(end.as_str())) {
            (None, _) => Err("quiet_hours has an invalid start time".to_string()),
            (_, None) => Err("quiet_hours has an invalid end time".to_string()),
            (Some(s), Some(e)) => if s == e {
                Err("quiet_hours cannot cover the entire day".to_string())
            } else {
                Ok((s, e))
            },
        },
    }
}

// ---------------------------------------------------------------------------
// Validation

/// What is wrong with a duration setting that has to lie in a range.
pub open spec fn range_fault(
    raw: Seq<char>,
    minimum: nat,
    maximum: nat,
    field: Seq<char>,
    path: Seq<char>,
) -> Option<Seq<char>> {
    match duration_of(raw) {
        Err(error) => Some(path + ": "@ + field + ": "@ + error),
        Ok(seconds) => if minimum <= seconds <= maximum {
            None
        } else {
            Some(
                path + ": "@ + field + " must be between "@ + text::decimal(minimum) + "s and "@
                    + text::decimal(maximum) + "s"@,
            )
        },
    }
}

pub open spec fn quiet_fault(quiet_hours: Option<Seq<char>>, path: Seq<char>) -> Option<
    Seq<char>,
> {
    match quiet_hours {
        Some(hours) => match quiet_hours_of(hours) {
            Ok(_) => None,
            Err(error) => Some(path + ": "@ + error),
        },
        None => None,
    }
}

pub open spec fn first_fault(a: Option<Seq<char>>, b: Option<Seq<char>>) -> Option<Seq<char>> {
    if a is Some {
        a
    } else {
        b
    }
}

pub open spec fn durations_fault(s: Settings, path: Seq<char>) -> Option<Seq<char>> {
    first_fault(
        range_fault(s.check_interval, 60, 2_592_000, "check_interval"@, path),
        first_fault(
            range_fault(
                s.catalog_refresh_interval,
                300,
                604_800,
                "catalog_refresh_interval"@,
                path,
            ),
            first_fault(
                range_fault(s.fleet_sync_interval, 300, 2_592_000, "fleet_sync_interval"@, path),
                first_fault(
                    range_fault(s.initial_delay, 0, 604_800, "initial_delay"@, path),
                    first_fault(
                        range_fault(s.jitter, 0, 86_400, "jitter"@, path),
                        if seconds_or(s.jitter, 0) > seconds_or(s.check_interval, 0) {
                            Some(path + ": jitter cannot exceed check_interval"@)
                        } else {
                            quiet_fault(s.quiet_hours, path)
                        },
                    ),
                ),
            ),
        ),
    )
}

/// What is wrong with a configuration, if anything.
pub open spec fn settings_fault(s: Settings, path: Seq<char>) -> Option<Seq<char>> {
    if !s.require_fast_forward {
        Some(path + " attempts to disable fast-forward-only enforcement"@)
    } else {
        durations_fault(s, path)
    }
}

fn bounded_duration(raw: &str, minimum: u64, maximum: u64, field: &str, path: &str) -> (r: Result<
    Duration,
    String,
>)
    ensures
        match r {
            Ok(d) => range_fault(raw@, minimum as nat, maximum as nat, field@, path@) is None
                && duration_of(raw@) == Ok::<nat, Seq<char>>(d@),
            Err(e) => range_fault(raw@, minimum as nat, maximum as nat, field@, path@) == Some(e@),
        },
{
    match parse_duration(raw) {
        Err(error) => Err(
            path.to_string().concat(": ").concat(field).concat(": ").concat(error.as_str()),
        ),
        Ok(parsed) => if parsed.as_secs() < minimum || parsed.as_secs() > maximum {
            Err(
                path.to_string().concat(": ").concat(field).concat(" must be between ").concat(
                    text::number_text(minimum).as_str(),
                ).concat("s and ").concat(text::number_text(maximum).as_str()).concat("s"),
            )
        } else {
            Ok(parsed)
        },
    }
}

fn validate_durations(value: &Config, path: &str) -> (r: Result<(), String>)
    ensures
        match r {
            Ok(()) => durations_fault(value@, path@) is None,
            Err(e) => durations_fault(value@, path@) == Some(e@),
        },
{
    let check = match bounded_duration(
        value.check_interval.as_str(),
        60,
        2_592_000,
        "check_interval",
        path,
    ) {
        Ok(d) => d,
        Err(e) => {
            return Err(e);
        },
    };
    if let Err(e) = bounded_duration(
        value.catalog_refresh_interval.as_str(),
        300,
        604_800,
        "catalog_refresh_interval",
        path,
    ) {
        return Err(e);
    }
    if let Err(e) = bounded_duration(
        value.fleet_sync_interval.as_str(),
        300,
        2_592_000,
        "fleet_sync_interval",
        path,
    ) {
        return Err(e);
    }
    if let Err(e) = bounded_duration(
        value.initial_delay.as_str(),
        0,
        604_800,
        "initial_delay",
        path,
    ) {
        return Err(e);
    }
    let jitter = match bounded_duration(value.jitter.as_str(), 0, 86_400, "jitter", path) {
        Ok(d) => d,
        Err(e) => {
            return Err(e);
        },
    };
    if jitter.as_secs() > check.as_secs() {
        return Err(path.to_string().concat(": jitter cannot exceed check_interval"));
    }
    if let Some(hours) = &value.quiet_hours {
        if let Err(error) = parse_quiet_hours(hours.as_str()) {
            return Err(path.to_string().concat(": ").concat(error.as_str()));
        }
    }
    Ok(())
}

/// Refuses a configuration that disables fast-forward enforcement or whose
/// timing does not hold together.
pub fn validate_value(value: &Config, path: &str) -> (r: Result<(), String>)
    ensures
        match r {
            Ok(()) => settings_fault(value@, path@) is None,
            Err(e) => settings_fault(value@, path@) == Some(e@),
        },
{
    if !value.require_fast_forward {
        return Err(
            path.to_string().concat(" attempts to disable fast-forward-only enforcement"),
        );
    }
    validate_durations(value, path)
}

/// No valid configuration disables fast-forward enforcement, lets the jitter
/// exceed the check interval, or checks more often than once a minute.
pub proof fn law_valid_settings(s: Settings, path: Seq<char>)
    requires
        settings_fault(s, path) is None,
    ensures
        s.require_fast_forward,
        seconds_or(s.jitter, 300) <= seconds_or(s.check_interval, 21_600),
        60 <= seconds_or(s.check_interval, 21_600) <= 2_592_000,
        seconds_or(s.jitter, 300) <= 86_400,
{
}

/// The FNV-1a hash of a string of bytes.
pub open spec fn fnv1a(bytes: Seq<u8>) -> u64
    decreases bytes.len(),
{
    if bytes.len() == 0 {
        0xcbf29ce484222325u64
    } else {
        ((fnv1a(bytes.drop_last()) ^ (bytes.last() as u64)) * 0x100000001b3u64
            % 0x1_0000_0000_0000_0000) as u64
    }
}

/// A fingerprint of a configuration, from its encoded bytes.
pub fn fingerprint(encoded: &[u8]) -> (r: String)
    ensures
        r@ == text::hex_digits(fnv1a(encoded@) as nat, 16),
{
    let mut hash: u64 = 0xcbf29ce484222325u64;
    let mut i: usize = 0;
    assert(encoded@.take(0) =~= seq![]);
    while i < encoded.len()
        invariant
            i <= encoded.len(),
            hash == fnv1a(encoded@.take(i as int)),
        decreases encoded.len() - i,
    {
        assert(encoded@.take(i + 1).drop_last() =~= encoded@.take(i as int));
        hash = hash ^ (encoded[i] as u64);
        hash = hash.wrapping_mul(0x100000001b3u64);
        i = i + 1;
    }
    assert(encoded@.take(i as int) =~= encoded@);
    text::hex_text(hash, 16)
}

// ---------------------------------------------------------------------------
// Unknown keys

/// Every key this build understands, in alphabetical order.
pub open spec fn known_settings() -> Seq<Seq<char>> {
    seq![
        "allow"@,
        "allow_channel_mismatch"@,
        "allow_protocol_change"@,
        "catalog_refresh_interval"@,
        "check_core"@,
        "check_interval"@,
        "check_plugins"@,
        "fleet_sync_interval"@,
        "immutable_pins"@,
        "initial_delay"@,
        "jitter"@,
        "max_concurrency"@,
        "policy"@,
        "quiet_hours"@,
        "ref_cache_ttl"@,
        "require_fast_forward"@,
        "scheduled_fleet_sync"@,
        "startup_check"@,
        "sync_update_settings"@,
        "trusted_owners"@,
    ]
}

pub fn known_keys() -> (r: Vec<String>)
    ensures
        text::texts(r@) == known_settings(),
{
    let r = vec![
        "allow".to_string(),
        "allow_channel_mismatch".to_string(),
        "allow_protocol_change".to_string(),
        "catalog_refresh_interval".to_string(),
        "check_core".to_string(),
        "check_interval".to_string(),
        "check_plugins".to_string(),
        "fleet_sync_interval".to_string(),
        "immutable_pins".to_string(),
        "initial_delay".to_string(),
        "jitter".to_string(),
        "max_concurrency".to_string(),
        "policy".to_string(),
        "quiet_hours".to_string(),
        "ref_cache_ttl".to_string(),
        "require_fast_forward".to_string(),
        "scheduled_fleet_sync".to_string(),
        "startup_check".to_string(),
        "sync_update_settings".to_string(),
        "trusted_owners".to_string(),
    ];
    assert(text::texts(r@) =~= known_settings());
    r
}

/// A key with slips of case and separator undone.
pub open spec fn normalized(key: Seq<char>) -> Seq<char> {
    text::replaced(text::lowercase(key), '-', "_"@)
}

/// How far a key may be from a known one for a typo to be the explanation.
pub open spec fn tolerance(key: Seq<char>) -> nat {
    if text::utf8_len(key) <= 6 {
        1
    } else {
        2
    }
}

pub open spec fn close_enough(key: Seq<char>, candidate: Seq<char>) -> bool {
    matching::text_distance(normalized(key), candidate) <= tolerance(key)
}

/// One candidate is closer than another, or as close and shorter.
pub open spec fn nearer(key: Seq<char>, a: Seq<char>, b: Seq<char>) -> bool {
    let da = matching::text_distance(normalized(key), a);
    let db = matching::text_distance(normalized(key), b);
    da < db || (da == db && text::utf8_len(a) < text::utf8_len(b))
}

/// Candidate `i` is the nearest of those that are close enough, the first one
/// where several are as near.
pub open spec fn is_nearest(key: Seq<char>, known: Seq<Seq<char>>, i: int) -> bool {
    &&& 0 <= i < known.len()
    &&& close_enough(key, known[i])
    &&& forall|j: int|
        0 <= j < known.len() && close_enough(key, #[trigger] known[j]) ==> !nearer(
            key,
            known[j],
            known[i],
        ) && (j < i ==> nearer(key, known[i], known[j]))
}

/// The known key that was probably meant.
pub open spec fn suggestion(key: Seq<char>, known: Seq<Seq<char>>) -> Option<Seq<char>> {
    if known.contains(normalized(key)) {
        Some(normalized(key))
    } else if text::utf8_len(key) < 4 {
        None
    } else if exists|i: int| is_nearest(key, known, i) {
        Some(known[choose|i: int| is_nearest(key, known, i)])
    } else {
        None
    }
}

fn position(key: &str, known: &Vec<String>) -> (r: Option<usize>)
    ensures
        match r {
            Some(i) => i < known.len() && known@[i as int]@ == key@,
            None => !text::texts(known@).contains(key@),
        },
{
    let mut i: usize = 0;
    while i < known.len()
        invariant
            i <= known.len(),
            forall|k: int| 0 <= k < i ==> (#[trigger] known@[k])@ != key@,
        decreases known.len() - i,
    {
        if text::text_eq(known[i].as_str(), key) {
            return Some(i);
        }
        i = i + 1;
    }
    None
}

/// The closest known key within a small edit distance, or `None` when nothing
/// is close enough for a typo to be the likely explanation.
pub fn nearest_key(key: &str, known: &Vec<String>) -> (r: Option<String>)
    ensures
        text::opt_text(r) == suggestion(key@, text::texts(known@)),
{
    let plain = text::replace(text::to_lower(key).as_str(), '-', "_");
    let ghost all = text::texts(known@);
    if let Some(i) = position(plain.as_str(), known) {
        assert(all[i as int] == plain@);
        return Some(known[i].clone());
    }
    // Below four bytes an edit distance of two is most of the word, so the
    // "suggestion" would be noise.
    if text::byte_len(key) < 4 {
        return None;
    }
    let limit: usize = if text::byte_len(key) <= 6 {
        1
    } else {
        2
    };
    let mut best: Option<usize> = None;
    let mut best_distance: usize = 0;
    let mut i: usize = 0;
    while i < known.len()
        invariant
            i <= known.len(),
            all == text::texts(known@),
            plain@ == normalized(key@),
            limit == tolerance(key@),
            match best {
                Some(b) => {
                    &&& b < i
                    &&& best_distance == matching::text_distance(plain@, all[b as int])
                    &&& is_nearest(key@, all.take(i as int), b as int)
                },
                None => forall|j: int| 0 <= j < i ==> !close_enough(key@, #[trigger] all[j]),
            },
        decreases known.len() - i,
    {
        assert(all[i as int] == known@[i as int]@);
        let distance = matching::edit_distance(plain.as_str(), known[i].as_str());
        let ghost before = all.take(i as int);
        let ghost after = all.take(i + 1);
        assert(forall|j: int| 0 <= j < i ==> #[trigger] before[j] == all[j]);
        assert(forall|j: int| 0 <= j <= i ==> #[trigger] after[j] == all[j]);
        if distance <= limit {
            let better = match best {
                Some(b) => {
                    assert(all[b as int] == known@[b as int]@);
                    distance < best_distance || (distance == best_distance && text::byte_len(
                        known[i].as_str(),
                    ) < text::byte_len(known[b].as_str()))
                },
                None => true,
            };
            if better {
                proof {
                    assert forall|j: int|
                        0 <= j < after.len() && close_enough(key@, #[trigger] after[j]) implies
                        !nearer(key@, after[j], after[i as int]) && (j < i ==> nearer(
                            key@,
                            after[i as int],
                            after[j],
                        )) by {
                        if j < i {
                            assert(close_enough(key@, all[j]));
                            assert(before[j] == all[j]);
                        }
                    }
                }
                best = Some(i);
                best_distance = distance;
            } else {
                proof {
                    let b = best->0 as int;
                    assert forall|j: int|
                        0 <= j < after.len() && close_enough(key@, #[trigger] after[j]) implies
                        !nearer(key@, after[j], after[b]) && (j < b ==> nearer(
                            key@,
                            after[b],
                            after[j],
                        )) by {
                        if j < i {
                            assert(before[j] == all[j]);
                        }
                    }
                }
            }
        } else {
            proof {
                assert(!close_enough(key@, all[i as int]));
                if let Some(b) = best {
                    assert forall|j: int|
                        0 <= j < after.len() && close_enough(key@, #[trigger] after[j]) implies
                        !nearer(key@, after[j], after[b as int]) && (j < b ==> nearer(
                            key@,
                            after[b as int],
                            after[j],
                        )) by {
                        assert(before[j] == all[j]);
                    }
                }
            }
        }
        i = i + 1;
    }
    assert(all.take(i as int) =~= all);
    match best {
        Some(b) => {
            proof {
                assert(is_nearest(key@, all, b as int));
                let c = choose|i: int| is_nearest(key@, all, i);
                assert(is_nearest(key@, all, c));
                assert(close_enough(key@, all[b as int]));
                assert(close_enough(key@, all[c]));
                assert(b == c);
                assert(all[b as int] == known@[b as int]@);
            }
            Some(known[b].clone())
        },
        None => None,
    }
}

pub open spec fn is_known(key: Seq<char>) -> bool {
    known_settings().contains(key)
}

/// A key that is nearly a known one, with the one that was probably meant.
pub open spec fn typo_text(key: Seq<char>, meant: Seq<char>) -> Seq<char> {
    text::debug_text(key) + " (did you mean "@ + text::debug_text(meant) + "?)"@
}

pub open spec fn unknown_text(key: Seq<char>, path: Seq<char>) -> Seq<char> {
    path + ": unknown setting "@ + text::debug_text(key)
        + " was ignored; it may belong to a newer herdr-updater"@
}

/// The key is nearly a known one, and is none itself.
pub open spec fn is_typo(key: Seq<char>) -> bool {
    !is_known(key) && suggestion(key, known_settings()) is Some
}

/// The key resembles nothing known.
pub open spec fn is_unfamiliar(key: Seq<char>) -> bool {
    !is_known(key) && suggestion(key, known_settings()) is None
}

/// The keys that are probably misspelled.
pub open spec fn typos(keys: Seq<Seq<char>>) -> Seq<Seq<char>>
    decreases keys.len(),
{
    if keys.len() == 0 {
        seq![]
    } else {
        let rest = typos(keys.drop_last());
        if is_typo(keys.last()) {
            rest.push(typo_text(keys.last(), suggestion(keys.last(), known_settings())->0))
        } else {
            rest
        }
    }
}

/// The keys that resemble nothing known.
pub open spec fn unknowns(keys: Seq<Seq<char>>, path: Seq<char>) -> Seq<Seq<char>>
    decreases keys.len(),
{
    if keys.len() == 0 {
        seq![]
    } else {
        let rest = unknowns(keys.drop_last(), path);
        if is_unfamiliar(keys.last()) {
            rest.push(unknown_text(keys.last(), path))
        } else {
            rest
        }
    }
}

pub open spec fn misspelled_text(found: Seq<Seq<char>>, path: Seq<char>) -> Seq<char> {
    path + ": "@ + (if found.len() == 1 {
        "this key"@
    } else {
        "these keys"@
    }) + " looks like a misspelled setting and would be silently ignored: "@ + text::joined(
        found,
        ", "@,
    )
}

/// What the top-level keys of a file lead to: an error where one is probably
/// misspelled, else a warning for each one that is not known.
pub open spec fn keys_verdict(keys: Seq<Seq<char>>, path: Seq<char>) -> Result<
    Seq<Seq<char>>,
    Seq<char>,
> {
    if typos(keys).len() > 0 {
        Err(misspelled_text(typos(keys), path))
    } else {
        Ok(unknowns(keys, path))
    }
}

/// Classifies the keys that a file declares.
///
/// A key that is nearly a known one is a typo: the intended setting is not in
/// effect, and refusing to run is the only answer that cannot be ignored. A
/// key that resembles nothing is most likely a setting of a newer build, read
/// by an older one, and must not stop the older host. That warns.
pub fn judge_keys(keys: &Vec<String>, path: &str) -> (r: Result<Vec<String>, String>)
    ensures
        match r {
            Ok(warnings) => keys_verdict(text::texts(keys@), path@) == Ok::<
                Seq<Seq<char>>,
                Seq<char>,
            >(text::texts(warnings@)),
            Err(e) => keys_verdict(text::texts(keys@), path@) == Err::<Seq<Seq<char>>, Seq<char>>(
                e@,
            ),
        },
{
    broadcast use text::lemma_texts_push;

    let known = known_keys();
    let ghost all = text::texts(keys@);
    let mut warnings: Vec<String> = Vec::new();
    let mut found: Vec<String> = Vec::new();
    let mut i: usize = 0;
    assert(text::texts(warnings@) =~= unknowns(all.take(0), path@));
    assert(text::texts(found@) =~= typos(all.take(0)));
    while i < keys.len()
        invariant
            i <= keys.len(),
            all == text::texts(keys@),
            text::texts(known@) == known_settings(),
            text::texts(warnings@) == unknowns(all.take(i as int), path@),
            text::texts(found@) == typos(all.take(i as int)),
        decreases keys.len() - i,
    {
        let key = keys[i].as_str();
        assert(all[i as int] == key@);
        assert(all.take(i + 1).drop_last() =~= all.take(i as int));
        assert(all.take(i + 1).last() == key@);
        match position(key, &known) {
            Some(k) => {
                assert(known_settings()[k as int] == key@);
            },
            None => {
                match nearest_key(key, &known) {
                    Some(meant) => {
                        found.push(
                            text::quoted(key).concat(" (did you mean ").concat(
                                text::quoted(meant.as_str()).as_str(),
                            ).concat("?)"),
                        );
                    },
                    None => {
                        warnings.push(
                            path.to_string().concat(": unknown setting ").concat(
                                text::quoted(key).as_str(),
                            ).concat(" was ignored; it may belong to a newer herdr-updater"),
                        );
                    },
                }
            },
        }
        i = i + 1;
    }
    assert(all.take(i as int) =~= all);
    if found.len() > 0 {
        let which = if found.len() == 1 {
            "this key"
        } else {
            "these keys"
        };
        return Err(
            path.to_string().concat(": ").concat(which).concat(
                " looks like a misspelled setting and would be silently ignored: ",
            ).concat(text::join(&found, ", ").as_str()),
        );
    }
    Ok(warnings)
}

/// A misspelled setting is refused and an unfamiliar one only warned of: keys
/// are rejected exactly where one is nearly a known setting without being one,
/// and otherwise each key that is not known has its warning.
pub proof fn law_misspelled_settings_are_refused(keys: Seq<Seq<char>>, path: Seq<char>)
    ensures
        keys_verdict(keys, path) is Err <==> exists|i: int|
            0 <= i < keys.len() && is_typo(#[trigger] keys[i]),
        keys_verdict(keys, path) matches Ok(warnings) ==> {
            &&& forall|i: int|
                0 <= i < keys.len() && !is_known(#[trigger] keys[i]) ==> warnings.contains(
                    unknown_text(keys[i], path),
                )
            &&& (forall|i: int| 0 <= i < keys.len() ==> is_known(#[trigger] keys[i]))
                ==> warnings.len() == 0
        },
{
    lemma_typos(keys);
    lemma_unknowns(keys, path);
    if let Ok(warnings) = keys_verdict(keys, path) {
        assert forall|i: int| 0 <= i < keys.len() && !is_known(#[trigger] keys[i]) implies
            warnings.contains(unknown_text(keys[i], path)) by {
            assert(is_typo(keys[i]) || is_unfamiliar(keys[i]));
        }
        assert(forall|i: int|
            0 <= i < keys.len() && is_known(#[trigger] keys[i]) ==> !is_unfamiliar(keys[i]));
    }
}

#[verifier::spinoff_prover]
proof fn lemma_typos(keys: Seq<Seq<char>>)
    ensures
        typos(keys).len() > 0 <==> exists|i: int|
            0 <= i < keys.len() && is_typo(#[trigger] keys[i]),
    decreases keys.len(),
{
    if keys.len() > 0 {
        let rest = keys.drop_last();
        lemma_typos(rest);
        assert(forall|i: int| 0 <= i < rest.len() ==> #[trigger] rest[i] == keys[i]);
        if typos(rest).len() > 0 {
            let i = choose|i: int| 0 <= i < rest.len() && is_typo(#[trigger] rest[i]);
            assert(is_typo(keys[i]));
        } else if exists|i: int| 0 <= i < keys.len() && is_typo(#[trigger] keys[i]) {
            let i = choose|i: int| 0 <= i < keys.len() && is_typo(#[trigger] keys[i]);
            assert(i < rest.len() ==> is_typo(rest[i]));
        }
    }
}

#[verifier::spinoff_prover]
proof fn lemma_unknowns(keys: Seq<Seq<char>>, path: Seq<char>)
    ensures
        forall|i: int|
            0 <= i < keys.len() && is_unfamiliar(#[trigger] keys[i]) ==> unknowns(
                keys,
                path,
            ).contains(unknown_text(keys[i], path)),
        (forall|i: int| 0 <= i < keys.len() ==> !is_unfamiliar(#[trigger] keys[i])) ==> unknowns(
            keys,
            path,
        ).len() == 0,
    decreases keys.len(),
{
    if keys.len() > 0 {
        let rest = keys.drop_last();
        let before = unknowns(rest, path);
        lemma_unknowns(rest, path);
        assert(forall|i: int| 0 <= i < rest.len() ==> #[trigger] rest[i] == keys[i]);
        assert forall|i: int| 0 <= i < keys.len() && is_unfamiliar(#[trigger] keys[i]) implies
            unknowns(keys, path).contains(unknown_text(keys[i], path)) by {
            let message = unknown_text(keys[i], path);
            if i < rest.len() {
                assert(before.contains(unknown_text(rest[i], path)));
                let k = choose|k: int| 0 <= k < before.len() && before[k] == message;
                assert(unknowns(keys, path)[k] == message);
            } else {
                assert(unknowns(keys, path)[before.len() as int] == message);
            }
        }
        if forall|i: int| 0 <= i < keys.len() ==> !is_unfamiliar(#[trigger] keys[i]) {
            assert forall|i: int| 0 <= i < rest.len() implies !is_unfamiliar(
                #[trigger] rest[i],
            ) by {
                assert(!is_unfamiliar(keys[i]));
            }
            assert(!is_unfamiliar(keys[keys.len() - 1]));
        }
    }
}

/// The top-level keys of a TOML document, in the order of the parsed table;
/// `None` where the text is not TOML.
pub uninterp spec fn toml_keys(source: Seq<char>) -> Option<Seq<Seq<char>>>;

/// Parses a text with `toml` into a table and lists the table's keys. The
/// outcome is named, not described: it is the TOML grammar.
#[verifier::external_body]
fn top_level_keys(source: &str) -> (r: Option<Vec<String>>)
    ensures
        match r {
            Some(keys) => toml_keys(source@) == Some(text::texts(keys@)),
            None => toml_keys(source@) is None,
        },
{
    source.parse::<toml::Table>().ok().map(|table| table.keys().cloned().collect())
}

/// The warnings about the keys of a file. A text that is not TOML has none
/// here: the typed parse reports it with a better message.
pub open spec fn source_verdict(source: Seq<char>, path: Seq<char>) -> Result<
    Seq<Seq<char>>,
    Seq<char>,
> {
    match toml_keys(source) {
        Some(keys) => keys_verdict(keys, path),
        None => Ok(seq![]),
    }
}

pub fn inspect_keys(source: &str, path: &str) -> (r: Result<Vec<String>, String>)
    ensures
        match r {
            Ok(warnings) => source_verdict(source@, path@) == Ok::<Seq<Seq<char>>, Seq<char>>(
                text::texts(warnings@),
            ),
            Err(e) => source_verdict(source@, path@) == Err::<Seq<Seq<char>>, Seq<char>>(e@),
        },
{
    match top_level_keys(source) {
        Some(keys) => judge_keys(&keys, path),
        None => {
            let none: Vec<String> = Vec::new();
            assert(text::texts(none@) =~= seq![]);
            Ok(none)
        },
    }
}

// ---------------------------------------------------------------------------
// Loading

/// What reading the file came to.
#[derive(Debug)]
pub enum ConfigFile {
    Missing,
    Unreadable(String),
    /// The text, and what the typed parse made of it.
    Read { source: String, parsed: Result<Config, String> },
}

pub open spec fn clamped(n: usize) -> usize {
    if n < 1 {
        1
    } else if n > 32 {
        32
    } else {
        n
    }
}

pub open spec fn with_concurrency(s: Settings, n: usize) -> Settings {
    Settings { max_concurrency: n, ..s }
}

/// The outcome of loading: the settings, whether the file existed, and the
/// warnings; or the error.
pub open spec fn load_outcome(path: Seq<char>, file: ConfigFile) -> Result<
    (Settings, bool, Seq<Seq<char>>),
    Seq<char>,
> {
    match file {
        ConfigFile::Missing => Ok((default_settings(), false, seq![])),
        ConfigFile::Unreadable(error) => Err("cannot read "@ + path + ": "@ + error@),
        ConfigFile::Read { source, parsed } => match (source_verdict(source@, path), parsed) {
            (Err(error), _) => Err(error),
            (Ok(_), Err(error)) => Err("cannot parse "@ + path + ": "@ + error@),
            (Ok(warnings), Ok(value)) => {
                let settings = with_concurrency(value@, clamped(value.max_concurrency));
                match settings_fault(settings, path) {
                    Some(fault) => Err(fault),
                    None => Ok((settings, true, warnings)),
                }
            },
        },
    }
}

/// Settles what a configuration file means. A missing file means the defaults.
pub fn load(path: &str, file: ConfigFile) -> (r: Result<Loaded, String>)
    ensures
        match r {
            Ok(loaded) => load_outcome(path@, file) == Ok::<
                (Settings, bool, Seq<Seq<char>>),
                Seq<char>,
            >((loaded.value@, loaded.existed, text::texts(loaded.warnings@))) && loaded.path@
                == path@,
            Err(e) => load_outcome(path@, file) == Err::<
                (Settings, bool, Seq<Seq<char>>),
                Seq<char>,
            >(e@),
        },
{
    match file {
        ConfigFile::Missing => {
            let warnings: Vec<String> = Vec::new();
            assert(text::texts(warnings@) =~= seq![]);
            Ok(
                Loaded {
                    value: Config::default(),
                    path: path.to_string(),
                    existed: false,
                    warnings,
                },
            )
        },
        ConfigFile::Unreadable(error) => Err(
            "cannot read ".to_string().concat(path).concat(": ").concat(error.as_str()),
        ),
        ConfigFile::Read { source, parsed } => {
            let warnings = match inspect_keys(source.as_str(), path) {
                Ok(warnings) => warnings,
                Err(e) => {
                    return Err(e);
                },
            };
            let mut value = match parsed {
                Ok(value) => value,
                Err(error) => {
                    return Err(
                        "cannot parse ".to_string().concat(path).concat(": ").concat(
                            error.as_str(),
                        ),
                    );
                },
            };
            if value.max_concurrency < 1 {
                value.max_concurrency = 1;
            } else if value.max_concurrency > 32 {
                value.max_concurrency = 32;
            }
            match validate_value(&value, path) {
                Ok(()) => Ok(
                    Loaded { value, path: path.to_string(), existed: true, warnings },
                ),
                Err(e) => Err(e),
            }
        },
    }
}

/// Whatever loads keeps fast-forward enforcement and asks for some, but not
/// unbounded, concurrency; and where there is no file, nothing is updated but
/// only notified of.
pub proof fn law_loaded_settings(path: Seq<char>, file: ConfigFile)
    ensures
        load_outcome(path, file) matches Ok((settings, existed, warnings)) ==> {
            &&& settings.require_fast_forward
            &&& 1 <= settings.max_concurrency <= 32
            &&& !existed ==> settings.policy == Policy::Notify
        },
{
}

// ---------------------------------------------------------------------------
// What settings mean

/// A number and a unit denote that many seconds, minutes, hours or days, in
/// whatever case the unit is written.
pub proof fn law_units_of_time(n: nat, unit: char, seconds: nat)
    requires
        (unit == 's' || unit == 'S') && seconds == 1 || (unit == 'm' || unit == 'M') && seconds == 60
            || (unit == 'h' || unit == 'H') && seconds == 3_600 || (unit == 'd' || unit == 'D')
            && seconds == 86_400,
        n * seconds <= u64::MAX,
    ensures
        duration_of(text::decimal(n).push(unit)) == Ok::<nat, Seq<char>>(n * seconds),
        added_up(text::decimal(n).push(unit), 0) == Ok::<nat, DurationFault>(n * seconds),
{
    let digits = text::decimal(n);
    let s = digits.push(unit);
    assert(n <= n * seconds) by (nonlinear_arith)
        requires
            seconds >= 1,
    ;
    text::law_decimal_reads_back(n, n);
    assert(s[0] == digits[0]);
    assert(text::is_digit(digits[0]));
    text::lemma_strip_nothing(s, CharClass::Whitespace);
    let behind = text::skip_class(s, CharClass::Digit);
    text::lemma_skip_class(s, CharClass::Digit);
    assert(s[digits.len() as int] == unit);
    if behind.len() == 0 {
        assert(CharClass::Digit.holds(s[digits.len() as int]));
    }
    if behind.len() > 1 {
        let k = s.len() - behind.len();
        assert(behind[0] == s[k]);
        assert(s[k] == digits[k]);
        assert(text::is_digit(digits[k]));
    }
    assert(behind =~= seq![unit]);
    assert(s.take(digits.len() as int) =~= digits);
    assert(text::parsed_number(digits, n) == Some(n));
    assert(text::digits_value(digits) == n);
    assert(unit_seconds(unit) == Some(seconds));
    assert(behind.drop_first() =~= seq![]);
    assert(added_up(seq![], n * seconds) == Ok::<nat, DurationFault>(n * seconds));
}

/// A compound duration is the sum of its parts.
pub proof fn law_compound_duration_is_a_sum(m: nat, n: nat)
    requires
        m * 3_600 + n * 60 <= u64::MAX,
    ensures
        duration_of(text::decimal(m).push('h') + text::decimal(n).push('m')) == Ok::<
            nat,
            Seq<char>,
        >(m * 3_600 + n * 60),
{
    let a = text::decimal(m).push('h');
    let b = text::decimal(n).push('m');
    law_units_of_time(m, 'h', 3_600);
    law_units_of_time(n, 'm', 60);
    law_durations_add_up(a, b, 0);
    lemma_sum_shifts(b, 0, m * 3_600);
    text::law_decimal_reads_back(m, m);
    assert(text::is_digit(text::decimal(m)[0]));
    let s = a + b;
    assert(s[0] == text::decimal(m)[0]);
    assert(s.last() == 'm');
    text::lemma_strip_nothing(s, CharClass::Whitespace);
}

/// Starting from a larger total adds the difference, as far as totals reach.
proof fn lemma_sum_shifts(s: Seq<char>, total: nat, more: nat)
    requires
        added_up(s, total) matches Ok(sum) && sum + more <= u64::MAX,
    ensures
        added_up(s, total + more) == Ok::<nat, DurationFault>((added_up(s, total)->Ok_0 + more) as nat),
        total <= added_up(s, total)->Ok_0,
    decreases s.len(),
{
    if s.len() > 0 {
        let behind = text::skip_class(s, CharClass::Digit);
        let digits = s.take(s.len() - behind.len());
        text::lemma_skip_class(s, CharClass::Digit);
        let seconds = text::digits_value(digits) * unit_seconds(behind[0])->0;
        lemma_sum_shifts(behind.drop_first(), total + seconds, more);
        assert(total + more + seconds == total + seconds + more);
    }
}

/// Quiet hours are written as two times of the day, and read as the minutes
/// after midnight; the same time twice is refused.
pub proof fn law_quiet_hours_are_times_of_day(a: (nat, nat), b: (nat, nat))
    requires
        a.0 < 24 && a.1 < 60,
        b.0 < 24 && b.1 < 60,
    ensures
        ({
            let text_of = |t: (nat, nat)|
                text::zero_padded(t.0, 2) + seq![':'] + text::zero_padded(t.1, 2);
            let read = quiet_hours_of(text_of(a) + seq!['-'] + text_of(b));
            &&& a != b ==> read == Ok::<(nat, nat), Seq<char>>(
                (a.0 * 60 + a.1, b.0 * 60 + b.1),
            )
            &&& a == b ==> read is Err
        }),
{
    let start = text::zero_padded(a.0, 2) + seq![':'] + text::zero_padded(a.1, 2);
    let end = text::zero_padded(b.0, 2) + seq![':'] + text::zero_padded(b.1, 2);
    lemma_clock_minutes(a.0, a.1);
    lemma_clock_minutes(b.0, b.1);
    let s = start + seq!['-'] + end;
    text::lemma_find_char_is(s, '-', 5);
    assert(s.take(5) =~= start);
    assert(s.skip(6) =~= end);
}

proof fn lemma_clock_minutes(hour: nat, minute: nat)
    requires
        hour < 24,
        minute < 60,
    ensures
        ({
            let s = text::zero_padded(hour, 2) + seq![':'] + text::zero_padded(minute, 2);
            &&& clock_minutes(s) == Some(hour * 60 + minute)
            &&& s.len() == 5
            &&& forall|i: int| 0 <= i < 5 ==> #[trigger] s[i] != '-'
        }),
{
    let h = text::zero_padded(hour, 2);
    let m = text::zero_padded(minute, 2);
    let s = h + seq![':'] + m;
    text::lemma_two_digit_field(hour);
    text::lemma_two_digit_field(minute);
    assert(s[0] == h[0] && s[1] == h[1] && s[2] == ':' && s[3] == m[0] && s[4] == m[1]);
    text::lemma_find_char_is(s, ':', 2);
    assert(s.take(2) =~= h);
    assert(s.skip(3) =~= m);
}

/// A setting of time lies in its range.
pub open spec fn lies_between(raw: Seq<char>, minimum: nat, maximum: nat) -> bool {
    duration_of(raw) matches Ok(seconds) && minimum <= seconds && seconds <= maximum
}

/// A configuration is accepted exactly where fast-forward enforcement stays on
/// and every time is readable, in its range and consistent with the others.
pub proof fn law_settings_are_accepted_exactly(s: Settings, path: Seq<char>)
    ensures
        settings_fault(s, path) is None <==> {
            &&& s.require_fast_forward
            &&& lies_between(s.check_interval, 60, 2_592_000)
            &&& lies_between(s.catalog_refresh_interval, 300, 604_800)
            &&& lies_between(s.fleet_sync_interval, 300, 2_592_000)
            &&& lies_between(s.initial_delay, 0, 604_800)
            &&& lies_between(s.jitter, 0, 86_400)
            &&& duration_of(s.jitter)->Ok_0 <= duration_of(s.check_interval)->Ok_0
            &&& s.quiet_hours matches Some(hours) ==> quiet_hours_of(hours) is Ok
        },
{
}

/// A file that reads well is used as it is written, but for how many hosts are
/// asked at once, which stays between one and thirty-two.
pub proof fn law_settings_are_used_as_written(
    path: Seq<char>,
    source: String,
    value: Config,
    warnings: Seq<Seq<char>>,
)
    requires
        source_verdict(source@, path) == Ok::<Seq<Seq<char>>, Seq<char>>(warnings),
        settings_fault(value@, path) is None,
    ensures
        ({
            let found = load_outcome(path, ConfigFile::Read { source, parsed: Ok(value) });
            &&& found is Ok
            &&& found->Ok_0.1
            &&& found->Ok_0.2 == warnings
            &&& found->Ok_0.0 == (Settings {
                max_concurrency: found->Ok_0.0.max_concurrency,
                ..value@
            })
            &&& 1 <= value.max_concurrency <= 32 ==> found->Ok_0.0 == value@
            &&& value.max_concurrency == 0 ==> found->Ok_0.0.max_concurrency == 1
            &&& value.max_concurrency > 32 ==> found->Ok_0.0.max_concurrency == 32
        }),
{
    let settings = with_concurrency(value@, clamped(value.max_concurrency));
    law_settings_are_accepted_exactly(value@, path);
    law_settings_are_accepted_exactly(settings, path);
}

/// A file that cannot be read or parsed, has a misspelled key or a faulty value
/// is an error, never the defaults; the defaults apply only without a file.
pub proof fn law_broken_file_is_no_default(path: Seq<char>, file: ConfigFile)
    ensures
        load_outcome(path, file) matches Ok((settings, existed, _)) ==> (existed <==> !(file
            is Missing)) && (!existed ==> settings == default_settings()),
        file is Unreadable ==> load_outcome(path, file) is Err,
        file matches ConfigFile::Read { source, parsed } ==> {
            &&& parsed is Err ==> load_outcome(path, file) is Err
            &&& source_verdict(source@, path) is Err ==> load_outcome(path, file) is Err
        },
{
}

/// Without a configuration nothing is updated, pins stay, histories only move
/// forward, neither protocol nor channel is crossed, and nothing is written to
/// other hosts; checks run every six hours.
pub proof fn law_defaults_are_cautious(path: Seq<char>)
    ensures
        ({
            let d = default_settings();
            &&& d.policy == Policy::Notify
            &&& d.require_fast_forward && d.immutable_pins
            &&& !d.allow_protocol_change && !d.allow_channel_mismatch
            &&& !d.scheduled_fleet_sync && !d.sync_update_settings
            &&& d.check_core && d.check_plugins && d.startup_check
            &&& d.quiet_hours is None && d.allow.len() == 0 && d.trusted_owners.len() == 0
            &&& duration_of(d.check_interval) == Ok::<nat, Seq<char>>(21_600)
            &&& duration_of(d.catalog_refresh_interval) == Ok::<nat, Seq<char>>(1_800)
            &&& duration_of(d.fleet_sync_interval) == Ok::<nat, Seq<char>>(21_600)
            &&& duration_of(d.initial_delay) == Ok::<nat, Seq<char>>(300)
            &&& duration_of(d.jitter) == Ok::<nat, Seq<char>>(300)
            &&& duration_of(d.ref_cache_ttl) == Ok::<nat, Seq<char>>(900)
            &&& settings_fault(d, path) is None
        }),
{
    reveal_with_fuel(text::decimal, 3);
    reveal_strlit("6h");
    reveal_strlit("30m");
    reveal_strlit("5m");
    reveal_strlit("15m");
    assert("6h"@ =~= text::decimal(6).push('h'));
    assert("30m"@ =~= text::decimal(30).push('m'));
    assert("5m"@ =~= text::decimal(5).push('m'));
    assert("15m"@ =~= text::decimal(15).push('m'));
    law_units_of_time(6, 'h', 3_600);
    law_units_of_time(30, 'm', 60);
    law_units_of_time(5, 'm', 60);
    law_units_of_time(15, 'm', 60);
    law_settings_are_accepted_exactly(default_settings(), path);
}

/// Owners are compared as a whole, in whatever case; a repository is let in by
/// any pattern that matches its owner and name.
pub proof fn law_repositories_are_let_in(
    owners: Seq<Seq<char>>,
    allow: Seq<Seq<char>>,
    owner: Seq<char>,
    repo: Seq<char>,
    i: int,
)
    ensures
        0 <= i < owners.len() && owners[i] == owner ==> target_permitted(
            owners,
            seq![],
            owner,
            repo,
        ),
        owners.len() > 0 && (forall|k: int|
            0 <= k < owners.len() ==> text::lowercase(#[trigger] owners[k]) != text::lowercase(
                owner,
            )) ==> !target_permitted(owners, allow, owner, repo),
        0 <= i < allow.len() && matching::wildcard_matches(allow[i], owner + "/"@ + repo)
            ==> target_permitted(seq![], allow, owner, repo),
        allow.len() > 0 && (forall|k: int|
            0 <= k < allow.len() ==> !matching::wildcard_matches(
                #[trigger] allow[k],
                owner + "/"@ + repo,
            )) ==> !target_permitted(owners, allow, owner, repo),
{
    if 0 <= i < owners.len() && owners[i] == owner {
        assert(same_ignoring_case(owners[i], owner));
    }
}

/// What is suggested for a misspelled key is a known one: the same but for case
/// and dashes, or no more than two slips away, one for a short key.
pub proof fn law_suggestion_is_near(key: Seq<char>, known: Seq<Seq<char>>)
    ensures
        suggestion(key, known) matches Some(meant) ==> known.contains(meant) && (meant
            == normalized(key) || (text::utf8_len(key) >= 4 && matching::text_distance(
            normalized(key),
            meant,
        ) <= 2 && (text::utf8_len(key) <= 6 ==> matching::text_distance(normalized(key), meant)
            <= 1))),
        known.contains(normalized(key)) ==> suggestion(key, known) == Some(normalized(key)),
{
    if !known.contains(normalized(key)) && text::utf8_len(key) >= 4 && exists|i: int|
        is_nearest(key, known, i) {
        let i = choose|i: int| is_nearest(key, known, i);
        assert(known[i] == suggestion(key, known)->0);
    }
}

/// Where the environment names a directory it is used, the plugin's own before
/// the general one; an empty name is none. What Herdr reports comes next, if it
/// succeeded.
pub proof fn law_directory_precedence(sources: DirSources, reported: Result<Output, ExecError>)
    ensures
        (sources.plugin_config_dir matches Some(d) && d@.len() > 0) ==> named_dir(sources) == Some(
            sources.plugin_config_dir->0@,
        ),
        !(sources.plugin_config_dir matches Some(d) && d@.len() > 0) && (
        sources.config_dir matches Some(d) && d@.len() > 0) ==> named_dir(sources) == Some(
            sources.config_dir->0@,
        ),
        !(sources.plugin_config_dir matches Some(d) && d@.len() > 0) && !(
        sources.config_dir matches Some(d) && d@.len() > 0) ==> named_dir(sources) is None,
        reported_dir(reported) is Some ==> (reported matches Ok(out) && out.code == 0
            && reported_dir(reported)->0 == exec::trimmed_output(out) && exec::trimmed_output(
            out,
        ).len() > 0),
        sources.windows && sources.appdata is Some ==> fallback_dir(sources).0
            == sources.appdata->0@,
        !sources.windows && sources.home is Some ==> fallback_dir(sources).0 == sources.home->0@
            && fallback_dir(sources).1[0] == ".config"@,
        fallback_dir(sources).1.last() == "herdr-updater"@,
{
}

/// Configurations that differ in their last byte never share a fingerprint, and
/// what is appended to two configurations never makes their fingerprints meet.
pub proof fn law_fingerprint_tells_bytes_apart(a: Seq<u8>, b: Seq<u8>, x: u8, y: u8)
    ensures
        x != y ==> fnv1a(a.push(x)) != fnv1a(a.push(y)),
        fnv1a(a) != fnv1a(b) ==> fnv1a(a.push(x)) != fnv1a(b.push(x)),
        fnv1a(seq![]) == 0xcbf29ce484222325u64,
{
    assert(a.push(x).drop_last() =~= a);
    assert(a.push(y).drop_last() =~= a);
    assert(b.push(x).drop_last() =~= b);
    let h = fnv1a(a);
    let k = fnv1a(b);
    let (p, q, r) = (h ^ (x as u64), h ^ (y as u64), k ^ (x as u64));
    lemma_prime_undone(p as nat);
    lemma_prime_undone(q as nat);
    lemma_prime_undone(r as nat);
    assert(p == q ==> x == y) by (bit_vector)
        requires
            p == h ^ (x as u64),
            q == h ^ (y as u64),
    ;
    assert(p == r ==> h == k) by (bit_vector)
        requires
            p == h ^ (x as u64),
            r == k ^ (x as u64),
    ;
}

/// The number that undoes a multiplication by the prime of the hash.
spec fn prime_inverse() -> nat {
    0xce96_5057_aff6_957b
}

proof fn lemma_prime_undone(x: nat)
    requires
        x < 0x1_0000_0000_0000_0000,
    ensures
        (x * 0x100000001b3) % 0x1_0000_0000_0000_0000 * prime_inverse() % 0x1_0000_0000_0000_0000
            == x,
{
    let m: int = 0x1_0000_0000_0000_0000;
    let f: int = 0x100000001b3;
    let g: int = prime_inverse() as int;
    let z = x as int;
    assert((f * g) % m == 1);
    vstd::arithmetic::div_mod::lemma_mul_mod_noop_left(z * f, g, m);
    vstd::arithmetic::mul::lemma_mul_is_associative(z, f, g);
    vstd::arithmetic::div_mod::lemma_mul_mod_noop_right(z, f * g, m);
    vstd::arithmetic::div_mod::lemma_small_mod(x, m as nat);
}

/// A directory that the environment names is used before one that Herdr reports,
/// and that one before the usual place.
pub proof fn law_named_directory_comes_first(
    sources: DirSources,
    reported: Result<Output, ExecError>,
    none: Result<Output, ExecError>,
)
    ensures
        (sources.plugin_config_dir matches Some(d) && d@.len() > 0) ==> dir_of(sources, reported)
            == (sources.plugin_config_dir->0@, Seq::<Seq<char>>::empty()),
        named_dir(sources) is Some ==> dir_of(sources, reported) == dir_of(sources, none),
        (named_dir(sources) is None && (reported matches Ok(out) && out.code == 0
            && exec::trimmed_output(out).len() > 0)) ==> dir_of(sources, reported) == (
            exec::trimmed_output(reported->Ok_0),
            Seq::<Seq<char>>::empty(),
        ),
        named_dir(sources) is None && !(reported matches Ok(out) && out.code == 0
            && exec::trimmed_output(out).len() > 0) ==> dir_of(sources, reported).1.last()
            == "herdr-updater"@,
{
}

} // verus!
