//! Installed plugins: where they come from, how they relate to upstream, and
//! whether they may be updated.

use crate::config::{self, Config};
use crate::exec::{self, ExecError, Output};
use crate::herdr;
use crate::json::{self, Found};
use crate::order;
use crate::text::{self, CharClass};
use vstd::prelude::*;
use vstd::string::*;

verus! {

#[derive(Debug)]
pub struct InstalledPlugin {
    pub plugin_id: String,
    pub version: Option<String>,
    pub min_herdr_version: Option<String>,
    pub plugin_root: Option<String>,
    pub source: Option<PluginSource>,
    pub enabled: bool,
}

#[derive(Debug)]
pub struct PluginSource {
    pub kind: String,
    pub owner: Option<String>,
    pub repo: Option<String>,
    pub subdir: Option<String>,
    pub requested_ref: Option<String>,
    pub resolved_commit: Option<String>,
}

#[derive(Debug, Clone, Copy, PartialEq, Eq, Structural)]
pub enum Channel {
    DefaultBranch,
    Branch,
    Tag,
    Commit,
    Linked,
    Unmanaged,
}

#[derive(Debug, Clone, Copy, PartialEq, Eq, Structural)]
pub enum Relation {
    Same,
    Behind,
    Ahead,
    Diverged,
    /// GitHub refused to answer because the API budget is spent. Distinct from
    /// `Unknown` because the remedy is specific and the wait is finite.
    /// Reported as an error, not a quiet hold, so a fleet does not read as
    /// current the moment it grows past the budget.
    RateLimited,
    Unknown,
    NotApplicable,
}

#[derive(Debug)]
pub struct PluginState {
    pub plugin_id: String,
    pub version: Option<String>,
    pub plugin_root: Option<String>,
    pub source_kind: String,
    pub owner: Option<String>,
    pub repo: Option<String>,
    pub subdir: Option<String>,
    pub requested_ref: Option<String>,
    pub installed_sha: Option<String>,
    pub remote_sha: Option<String>,
    pub channel: Channel,
    pub relation: Relation,
    pub update_available: bool,
    pub error: Option<String>,
}

/// The facts in a plugin state.
pub struct PluginFacts {
    pub plugin_id: Seq<char>,
    pub version: Option<Seq<char>>,
    pub plugin_root: Option<Seq<char>>,
    pub source_kind: Seq<char>,
    pub owner: Option<Seq<char>>,
    pub repo: Option<Seq<char>>,
    pub subdir: Option<Seq<char>>,
    pub requested_ref: Option<Seq<char>>,
    pub installed_sha: Option<Seq<char>>,
    pub remote_sha: Option<Seq<char>>,
    pub channel: Channel,
    pub relation: Relation,
    pub update_available: bool,
    pub error: Option<Seq<char>>,
}

impl View for PluginState {
    type V = PluginFacts;

    open spec fn view(&self) -> PluginFacts {
        PluginFacts {
            plugin_id: self.plugin_id@,
            version: text::opt_text(self.version),
            plugin_root: text::opt_text(self.plugin_root),
            source_kind: self.source_kind@,
            owner: text::opt_text(self.owner),
            repo: text::opt_text(self.repo),
            subdir: text::opt_text(self.subdir),
            requested_ref: text::opt_text(self.requested_ref),
            installed_sha: text::opt_text(self.installed_sha),
            remote_sha: text::opt_text(self.remote_sha),
            channel: self.channel,
            relation: self.relation,
            update_available: self.update_available,
            error: text::opt_text(self.error),
        }
    }
}

impl Clone for PluginState {
    fn clone(&self) -> (r: Self)
        ensures
            r == *self,
    {
        PluginState {
            plugin_id: self.plugin_id.clone(),
            version: text::clone_option(&self.version),
            plugin_root: text::clone_option(&self.plugin_root),
            source_kind: self.source_kind.clone(),
            owner: text::clone_option(&self.owner),
            repo: text::clone_option(&self.repo),
            subdir: text::clone_option(&self.subdir),
            requested_ref: text::clone_option(&self.requested_ref),
            installed_sha: text::clone_option(&self.installed_sha),
            remote_sha: text::clone_option(&self.remote_sha),
            channel: self.channel,
            relation: self.relation,
            update_available: self.update_available,
            error: text::clone_option(&self.error),
        }
    }
}

impl Clone for PluginSource {
    fn clone(&self) -> (r: Self)
        ensures
            r == *self,
    {
        PluginSource {
            kind: self.kind.clone(),
            owner: text::clone_option(&self.owner),
            repo: text::clone_option(&self.repo),
            subdir: text::clone_option(&self.subdir),
            requested_ref: text::clone_option(&self.requested_ref),
            resolved_commit: text::clone_option(&self.resolved_commit),
        }
    }
}

impl Clone for InstalledPlugin {
    fn clone(&self) -> (r: Self)
        ensures
            r == *self,
    {
        InstalledPlugin {
            plugin_id: self.plugin_id.clone(),
            version: text::clone_option(&self.version),
            min_herdr_version: text::clone_option(&self.min_herdr_version),
            plugin_root: text::clone_option(&self.plugin_root),
            source: match &self.source {
                Some(source) => Some(source.clone()),
                None => None,
            },
            enabled: self.enabled,
        }
    }
}

// ---------------------------------------------------------------------------
// Validation of what becomes an argument or part of a URL

/// A name of letters, digits, `-`, `_` and `.`, of `max` bytes at most, that is
/// no relative path.
pub open spec fn segment(value: Seq<char>, max: nat) -> bool {
    0 < value.len() && value != "."@ && value != ".."@ && text::utf8_len(value) <= max
        && text::all_in(value, CharClass::Segment)
}

/// The parts of a path, whichever way its slashes lean.
pub open spec fn path_parts(value: Seq<char>) -> Seq<Seq<char>> {
    text::split_at_char(text::replaced(value, '\\', "/"@), '/')
}

pub open spec fn starts_with_slash(value: Seq<char>) -> bool {
    value.len() > 0 && (value[0] == '/' || value[0] == '\\')
}

/// A relative path of valid segments.
pub open spec fn subdir(value: Seq<char>) -> bool {
    text::utf8_len(value) <= 240 && !starts_with_slash(value) && forall|i: int|
        0 <= i < path_parts(value).len() ==> segment(#[trigger] path_parts(value)[i], 100)
}

/// A full commit hash, SHA-1 or SHA-256.
pub open spec fn commit(value: Seq<char>) -> bool {
    (text::utf8_len(value) == 40 || text::utf8_len(value) == 64) && text::all_in(
        value,
        CharClass::Hex,
    )
}

/// A name that git accepts for a ref and that is no option.
pub open spec fn reference(value: Seq<char>) -> bool {
    &&& 0 < value.len()
    &&& text::utf8_len(value) <= 200
    &&& value[0] != '-' && value[0] != '/' && value[0] != '.'
    &&& value.last() != '/' && value.last() != '.'
    &&& !text::finishes_with(value, ".lock"@)
    &&& !text::has_text(value, ".."@)
    &&& !text::has_text(value, "//"@)
    &&& !text::has_text(value, "@{"@)
    &&& text::all_in(value, CharClass::Reference)
}

pub fn valid_segment(value: &str, max: usize) -> (r: bool)
    ensures
        r == segment(value@, max as nat),
{
    value.unicode_len() > 0 && !text::text_eq(value, ".") && !text::text_eq(value, "..")
        && text::byte_len(value) <= max && text::text_all_in(value, CharClass::Segment)
}

fn leads_with_slash(value: &str) -> (r: bool)
    ensures
        r == starts_with_slash(value@),
{
    value.unicode_len() > 0 && (value.get_char(0) == '/' || value.get_char(0) == '\\')
}

pub fn valid_subdir(value: &str) -> (r: bool)
    ensures
        r == subdir(value@),
{
    if text::byte_len(value) > 240 || leads_with_slash(value) {
        return false;
    }
    let parts = text::split(text::replace(value, '\\', "/").as_str(), '/');
    let mut i: usize = 0;
    while i < parts.len()
        invariant
            i <= parts.len(),
            text::texts(parts@) == path_parts(value@),
            forall|k: int| 0 <= k < i ==> segment(#[trigger] path_parts(value@)[k], 100),
        decreases parts.len() - i,
    {
        assert(path_parts(value@)[i as int] == parts@[i as int]@);
        if !valid_segment(parts[i].as_str(), 100) {
            return false;
        }
        i = i + 1;
    }
    true
}

pub fn full_commit(value: &str) -> (r: bool)
    ensures
        r == commit(value@),
{
    let n = text::byte_len(value);
    (n == 40 || n == 64) && text::text_all_in(value, CharClass::Hex)
}

pub fn valid_ref(value: &str) -> (r: bool)
    ensures
        r == reference(value@),
{
    let n = value.unicode_len();
    if n == 0 || text::byte_len(value) > 200 {
        return false;
    }
    let first = value.get_char(0);
    let last = value.get_char(n - 1);
    !(first == '-' || first == '/' || first == '.') && !(last == '/' || last == '.')
        && !text::ends_with(value, ".lock") && !text::contains_text(value, "..")
        && !text::contains_text(value, "//") && !text::contains_text(value, "@{")
        && text::text_all_in(value, CharClass::Reference)
}

/// What is wrong with a source that should be `owner/repo[/subdir]`.
pub open spec fn source_fault(source: Seq<char>) -> Option<Seq<char>> {
    let parts = text::split_at_char(source, '/');
    let rest = text::joined(parts.skip(2), "/"@);
    if text::utf8_len(source) > 340 || starts_with_slash(source) {
        Some("plugin source is invalid"@)
    } else if parts.len() < 2 || !segment(parts[0], 100) || !segment(parts[1], 100) {
        Some("plugin source must be owner/repo[/subdir]"@)
    } else if rest.len() > 0 && !subdir(rest) {
        Some("plugin source subdirectory is invalid"@)
    } else {
        None
    }
}

pub fn validate_source(source: &str) -> (r: Result<(), String>)
    ensures
        match r {
            Ok(()) => source_fault(source@) is None,
            Err(e) => source_fault(source@) == Some(e@),
        },
{
    broadcast use text::lemma_texts_push;

    if text::byte_len(source) > 340 || leads_with_slash(source) {
        return Err("plugin source is invalid".to_string());
    }
    let parts = text::split(source, '/');
    let ghost all = text::texts(parts@);
    if parts.len() < 2 {
        return Err("plugin source must be owner/repo[/subdir]".to_string());
    }
    assert(all[0] == parts@[0]@);
    assert(all[1] == parts@[1]@);
    if !valid_segment(parts[0].as_str(), 100) || !valid_segment(parts[1].as_str(), 100) {
        return Err("plugin source must be owner/repo[/subdir]".to_string());
    }
    let mut rest: Vec<String> = Vec::new();
    let mut i: usize = 2;
    assert(text::texts(rest@) =~= all.subrange(2, 2));
    while i < parts.len()
        invariant
            2 <= i <= parts.len(),
            all == text::texts(parts@),
            text::texts(rest@) == all.subrange(2, i as int),
        decreases parts.len() - i,
    {
        rest.push(parts[i].clone());
        assert(all.subrange(2, i + 1) =~= all.subrange(2, i as int).push(parts@[i as int]@));
        i = i + 1;
    }
    assert(all.subrange(2, i as int) =~= all.skip(2));
    let rest = text::join(&rest, "/");
    if rest.as_str().unicode_len() > 0 && !valid_subdir(rest.as_str()) {
        return Err("plugin source subdirectory is invalid".to_string());
    }
    Ok(())
}

/// What becomes part of a URL or an argument holds nothing out of place: a
/// segment is no relative path and has only letters, digits, `-`, `_` and `.`,
/// a ref is no option, climbs nowhere and separates nothing, and a commit is no
/// option and has only digits and letters.
pub proof fn law_validated_arguments(value: Seq<char>, max: nat)
    ensures
        segment(value, max) ==> value.len() > 0 && value != ".."@ && forall|i: int|
            0 <= i < value.len() ==> text::is_alphanumeric(#[trigger] value[i]) || value[i] == '-'
                || value[i] == '_' || value[i] == '.',
        reference(value) ==> value.len() > 0 && value[0] != '-' && !text::has_text(value, ".."@)
            && !value.contains(' ') && !value.contains(':'),
        commit(value) ==> value.len() > 0 && value[0] != '-' && forall|i: int|
            0 <= i < value.len() ==> text::is_alphanumeric(#[trigger] value[i]),
{
    if segment(value, max) {
        assert forall|i: int| 0 <= i < value.len() implies text::is_alphanumeric(
            #[trigger] value[i],
        ) || value[i] == '-' || value[i] == '_' || value[i] == '.' by {
            assert(CharClass::Segment.holds(value[i]));
        }
    }
    if reference(value) {
        assert forall|i: int| 0 <= i < value.len() implies value[i] != ' ' && value[i] != ':' by {
            assert(CharClass::Reference.holds(value[i]));
        }
    }
    if commit(value) {
        if value.len() == 0 {
            assert(value =~= seq![]);
            text::lemma_utf8_empty();
        }
        assert forall|i: int| 0 <= i < value.len() implies text::is_alphanumeric(
            #[trigger] value[i],
        ) by {
            assert(CharClass::Hex.holds(value[i]));
        }
        assert(CharClass::Hex.holds(value[0]));
    }
}

/// A commit can always stand where a ref is asked for.
pub proof fn law_commit_is_a_ref(value: Seq<char>)
    requires
        commit(value),
    ensures
        reference(value),
{
    law_validated_arguments(value, 0);
    reveal_strlit(".lock");
    reveal_strlit("..");
    reveal_strlit("//");
    reveal_strlit("@{");
    assert forall|i: int| 0 <= i < value.len() implies CharClass::Reference.holds(
        #[trigger] value[i],
    ) && value[i] != '.' && value[i] != '/' && value[i] != '@' && value[i] != 'k' by {
        assert(CharClass::Hex.holds(value[i]));
    }
    if text::finishes_with(value, ".lock"@) {
        assert(value[value.len() - 1] == ".lock"@[4]);
    }
    if text::has_text(value, ".."@) {
        let at = choose|at: int| text::occurs_at(value, ".."@, at);
        assert(value[at] == ".."@[0]);
    }
    if text::has_text(value, "//"@) {
        let at = choose|at: int| text::occurs_at(value, "//"@, at);
        assert(value[at] == "//"@[0]);
    }
    if text::has_text(value, "@{"@) {
        let at = choose|at: int| text::occurs_at(value, "@{"@, at);
        assert(value[at] == "@{"@[0]);
    }
}

// ---------------------------------------------------------------------------
// Listing

/// What `herdr plugin list --json` came to, from how it ran and from what its
/// output parsed to.
pub fn list_installed(
    run: &Result<Output, ExecError>,
    parsed: Result<Vec<InstalledPlugin>, String>,
) -> (r: Result<Vec<InstalledPlugin>, String>)
    ensures
        match (herdr::run_failure("herdr plugin list"@, *run), parsed) {
            (Some(failure), _) => r matches Err(e) && e@ == failure,
            (None, Err(error)) => r matches Err(e) && e@
                == "herdr plugin list --json is not valid JSON: "@ + error@,
            (None, Ok(plugins)) => r == Ok::<Vec<InstalledPlugin>, String>(plugins),
        },
{
    if let Some(failure) = herdr::failure_of("herdr plugin list", run) {
        return Err(failure);
    }
    match parsed {
        Ok(plugins) => Ok(plugins),
        Err(error) => Err(
            "herdr plugin list --json is not valid JSON: ".to_string().concat(error.as_str()),
        ),
    }
}

// ---------------------------------------------------------------------------
// Resolving the remote revision

/// The commit that a line of `git ls-remote` gives for a ref.
pub open spec fn sha_in_line(line: Seq<char>, name: Seq<char>) -> Option<Seq<char>> {
    match text::cut_at_class(line, CharClass::Whitespace) {
        Some((sha, rest)) if text::trimmed(rest) == name && commit(sha) => Some(
            text::lowercase(sha),
        ),
        _ => None,
    }
}

/// The commit that the first fitting line gives.
pub open spec fn sha_in_lines(lines: Seq<Seq<char>>, name: Seq<char>) -> Option<Seq<char>>
    decreases lines.len(),
{
    if lines.len() == 0 {
        None
    } else {
        match sha_in_line(lines[0], name) {
            Some(sha) => Some(sha),
            None => sha_in_lines(lines.drop_first(), name),
        }
    }
}

/// The commit that an output of `git ls-remote` gives for a ref.
pub open spec fn listed_sha(output: Seq<char>, name: Seq<char>) -> Option<Seq<char>> {
    sha_in_lines(text::text_lines(output), name)
}

fn sha_of_line(line: &str, name: &str) -> (r: Option<String>)
    ensures
        text::opt_text(r) == sha_in_line(line@, name@),
{
    match text::split_at_class(line, CharClass::Whitespace) {
        Some((sha, rest)) => if text::text_eq(text::trim(rest.as_str()), name) && full_commit(
            sha.as_str(),
        ) {
            Some(text::to_lower(sha.as_str()))
        } else {
            None
        },
        None => None,
    }
}

fn ref_sha(output: &str, name: &str) -> (r: Option<String>)
    ensures
        text::opt_text(r) == listed_sha(output@, name@),
{
    let lines = text::lines(output);
    let ghost all = text::texts(lines@);
    let mut i: usize = 0;
    assert(all.skip(0) =~= all);
    while i < lines.len()
        invariant
            i <= lines.len(),
            all == text::texts(lines@),
            all == text::text_lines(output@),
            sha_in_lines(all, name@) == sha_in_lines(all.skip(i as int), name@),
        decreases lines.len() - i,
    {
        assert(all.skip(i as int)[0] == lines@[i as int]@);
        assert(all.skip(i as int).drop_first() =~= all.skip(i + 1));
        if let Some(sha) = sha_of_line(lines[i].as_str(), name) {
            return Some(sha);
        }
        i = i + 1;
    }
    None
}

/// The ref that was asked for; an empty one is none.
pub open spec fn asked_ref(requested: Option<Seq<char>>) -> Option<Seq<char>> {
    match requested {
        Some(name) if name.len() > 0 => Some(name),
        _ => None,
    }
}

pub open spec fn repository_url(owner: Seq<char>, repo: Seq<char>) -> Seq<char> {
    "https://github.com/"@ + owner + "/"@ + repo + ".git"@
}

/// The arguments of the `git` command that resolves a ref.
pub open spec fn resolve_args(
    owner: Seq<char>,
    repo: Seq<char>,
    requested: Option<Seq<char>>,
) -> Seq<Seq<char>> {
    match asked_ref(requested) {
        Some(name) => seq![
            "ls-remote"@,
            repository_url(owner, repo),
            "refs/heads/"@ + name,
            "refs/tags/"@ + name,
            "refs/tags/"@ + name + "^{}"@,
        ],
        None => seq!["ls-remote"@, "--symref"@, repository_url(owner, repo), "HEAD"@],
    }
}

/// What resolving a ref came to.
pub open spec fn resolved(requested: Option<Seq<char>>, run: Result<Output, ExecError>) -> Result<
    (Seq<char>, Channel),
    Seq<char>,
> {
    match herdr::run_failure("git ls-remote"@, run) {
        Some(failure) => Err(failure),
        None => {
            let output = run->Ok_0.stdout@;
            match asked_ref(requested) {
                Some(name) => {
                    let branch = listed_sha(output, "refs/heads/"@ + name);
                    let peeled = listed_sha(output, "refs/tags/"@ + name + "^{}"@);
                    let tag = if peeled is Some {
                        peeled
                    } else {
                        listed_sha(output, "refs/tags/"@ + name)
                    };
                    match (branch, tag) {
                        (Some(_), Some(_)) => Err(
                            "ref "@ + text::debug_text(name)
                                + " is both a branch and tag; pin an exact commit"@,
                        ),
                        (Some(sha), None) => Ok((sha, Channel::Branch)),
                        (None, Some(sha)) => Ok((sha, Channel::Tag)),
                        (None, None) => Err(
                            "upstream ref "@ + text::debug_text(name) + " does not exist"@,
                        ),
                    }
                },
                None => match listed_sha(output, "HEAD"@) {
                    Some(sha) => Ok((sha, Channel::DefaultBranch)),
                    None => Err("upstream default branch did not resolve to a commit"@),
                },
            }
        },
    }
}

/// Settles what a ref resolves to, from the run of `git ls-remote`.
pub fn resolve_remote(requested_ref: Option<&str>, run: &Result<Output, ExecError>) -> (r: Result<
    (String, Channel),
    String,
>)
    ensures
        match r {
            Ok((sha, channel)) => resolved(text::opt_str(requested_ref), *run) == Ok::<
                (Seq<char>, Channel),
                Seq<char>,
            >((sha@, channel)),
            Err(e) => resolved(text::opt_str(requested_ref), *run) == Err::<
                (Seq<char>, Channel),
                Seq<char>,
            >(e@),
        },
{
    if let Some(failure) = herdr::failure_of("git ls-remote", run) {
        return Err(failure);
    }
    let output = match run {
        Ok(out) => out.stdout.as_str(),
        Err(_) => "",
    };
    if let Some(name) = requested_ref {
        if name.unicode_len() > 0 {
            let head = "refs/heads/".to_string().concat(name);
            let tag = "refs/tags/".to_string().concat(name);
            let peeled = "refs/tags/".to_string().concat(name).concat("^{}");
            let branch_sha = ref_sha(output, head.as_str());
            let tag_sha = match ref_sha(output, peeled.as_str()) {
                Some(sha) => Some(sha),
                None => ref_sha(output, tag.as_str()),
            };
            return match (branch_sha, tag_sha) {
                (Some(_), Some(_)) => Err(
                    "ref ".to_string().concat(text::quoted(name).as_str()).concat(
                        " is both a branch and tag; pin an exact commit",
                    ),
                ),
                (Some(sha), None) => Ok((sha, Channel::Branch)),
                (None, Some(sha)) => Ok((sha, Channel::Tag)),
                (None, None) => Err(
                    "upstream ref ".to_string().concat(text::quoted(name).as_str()).concat(
                        " does not exist",
                    ),
                ),
            };
        }
    }
    match ref_sha(output, "HEAD") {
        Some(sha) => Ok((sha, Channel::DefaultBranch)),
        None => Err("upstream default branch did not resolve to a commit".to_string()),
    }
}

/// A ref never resolves to anything but a full commit.
pub proof fn law_resolves_to_commit(requested: Option<Seq<char>>, run: Result<Output, ExecError>)
    ensures
        resolved(requested, run) matches Ok((sha, _)) ==> exists|raw: Seq<char>|
            commit(raw) && sha == #[trigger] text::lowercase(raw),
{
    if let Ok(out) = run {
        let lines = text::text_lines(out.stdout@);
        if let Some(name) = asked_ref(requested) {
            lemma_sha_is_commit(lines, "refs/heads/"@ + name);
            lemma_sha_is_commit(lines, "refs/tags/"@ + name);
            lemma_sha_is_commit(lines, "refs/tags/"@ + name + "^{}"@);
        }
        lemma_sha_is_commit(lines, "HEAD"@);
    }
}

proof fn lemma_sha_is_commit(lines: Seq<Seq<char>>, name: Seq<char>)
    ensures
        sha_in_lines(lines, name) matches Some(sha) ==> exists|raw: Seq<char>|
            commit(raw) && sha == #[trigger] text::lowercase(raw),
    decreases lines.len(),
{
    if lines.len() > 0 {
        lemma_sha_is_commit(lines.drop_first(), name);
    }
}

// ---------------------------------------------------------------------------
// Comparing revisions

/// What GitHub's word for a comparison means. It compares base...head, and the
/// remote commit is the head.
pub open spec fn status_relation(status: Seq<char>) -> Option<Relation> {
    let word = text::strip_class(status, CharClass::Quoting);
    if word == "identical"@ {
        Some(Relation::Same)
    } else if word == "ahead"@ {
        Some(Relation::Behind)
    } else if word == "behind"@ {
        Some(Relation::Ahead)
    } else if word == "diverged"@ {
        Some(Relation::Diverged)
    } else {
        None
    }
}

pub fn relation_from_status(status: &str) -> (r: Option<Relation>)
    ensures
        r == status_relation(status@),
{
    let word = text::strip_class_of(status, CharClass::Quoting);
    if text::text_eq(word, "identical") {
        Some(Relation::Same)
    } else if text::text_eq(word, "ahead") {
        Some(Relation::Behind)
    } else if text::text_eq(word, "behind") {
        Some(Relation::Ahead)
    } else if text::text_eq(word, "diverged") {
        Some(Relation::Diverged)
    } else {
        None
    }
}

/// GitHub words its budget refusals a few ways: primary limit, secondary limit,
/// and abuse detection. All of them mean "wait", not "unknown".
pub open spec fn names_rate_limit(message: Seq<char>) -> bool {
    let lower = text::lowercase(message);
    text::has_text(lower, "rate limit"@) || text::has_text(lower, "secondary rate"@)
        || text::has_text(lower, "api limit"@) || text::has_text(lower, "abuse detection"@)
}

pub fn mentions_rate_limit(message: &str) -> (r: bool)
    ensures
        r == names_rate_limit(message@),
{
    let lower = text::to_lower(message);
    text::contains_text(lower.as_str(), "rate limit") || text::contains_text(
        lower.as_str(),
        "secondary rate",
    ) || text::contains_text(lower.as_str(), "api limit") || text::contains_text(
        lower.as_str(),
        "abuse detection",
    )
}

/// The body and the HTTP status in a response that ends in a line with the
/// status.
pub open spec fn status_split(response: Seq<char>) -> (Seq<char>, Option<nat>) {
    match text::cut_at_last(text::drop_class(response, CharClass::Whitespace), '\n') {
        Some((body, code)) => (body, text::parsed_number(text::trimmed(code), 65_535)),
        None => (seq![], text::parsed_number(text::trimmed(response), 65_535)),
    }
}

fn status_code(raw: &str) -> (r: Option<u16>)
    ensures
        match r {
            Some(n) => text::parsed_number(raw@, 65_535) == Some(n as nat),
            None => text::parsed_number(raw@, 65_535) is None,
        },
{
    match text::parse_number(raw, 65_535) {
        Some(n) => Some(n as u16),
        None => None,
    }
}

/// Splits a `curl -w '\n%{http_code}'` response into its body and status.
pub fn split_status(response: &str) -> (r: (&str, Option<u16>))
    ensures
        r.0@ == status_split(response@).0,
        match r.1 {
            Some(n) => status_split(response@).1 == Some(n as nat),
            None => status_split(response@).1 is None,
        },
{
    match text::rsplit_once(text::drop_class_of(response, CharClass::Whitespace), '\n') {
        Some((body, code)) => (body, status_code(text::trim(code))),
        // A body-less response is all status and no body.
        None => {
            proof {
                reveal_strlit("");
                assert(""@ =~= seq![]);
            }
            ("", status_code(text::trim(response)))
        },
    }
}

/// What the `status` member of a comparison says.
pub open spec fn member_relation(member: Result<json::Leaf, Seq<char>>) -> Result<
    Relation,
    Seq<char>,
> {
    match member {
        Err(error) => Err("GitHub compare response is not JSON: "@ + error),
        Ok(leaf) => match leaf.text {
            Some(status) if status_relation(status) is Some => Ok(status_relation(status)->0),
            _ => Err("GitHub compare succeeded but reported no recognisable status"@),
        },
    }
}

/// What a comparison that GitHub answered says.
///
/// An answer whose body says something unrecognisable is a different problem
/// from an answer that never came, and is worded differently.
pub fn relation_of_member(member: Result<Found, String>) -> (r: Result<Relation, String>)
    ensures
        relation_view(r) == member_relation(json::looked_up(member)),
{
    match member {
        Err(error) => Err(
            "GitHub compare response is not JSON: ".to_string().concat(error.as_str()),
        ),
        Ok(found) => {
            if let Some(status) = found.text {
                if let Some(relation) = relation_from_status(status.as_str()) {
                    return Ok(relation);
                }
            }
            Err("GitHub compare succeeded but reported no recognisable status".to_string())
        },
    }
}

/// What comparing came to: settled, or still open, with whether the budget was
/// refused on the way.
pub enum Verdict {
    Settled(Result<Relation, Seq<char>>),
    Open(bool),
}

/// What is settled without asking anyone.
pub open spec fn compared_locally(installed: Seq<char>, remote: Seq<char>) -> Verdict {
    if text::lowercase(installed) == text::lowercase(remote) {
        Verdict::Settled(Ok(Relation::Same))
    } else if !commit(installed) || !commit(remote) {
        Verdict::Settled(Err("installed or remote revision is not a full commit SHA"@))
    } else {
        Verdict::Open(false)
    }
}

/// What `gh` settles; `None` where there is no `gh`.
pub open spec fn compared_by_gh(run: Option<Result<Output, ExecError>>) -> Verdict {
    match run {
        None => Verdict::Open(false),
        Some(Err(e)) => Verdict::Settled(Err("GitHub compare: "@ + exec::exec_error_text(e))),
        Some(Ok(out)) => if out.code == 0 {
            match status_relation(exec::trimmed_output(out)) {
                Some(relation) => Verdict::Settled(Ok(relation)),
                None => Verdict::Open(false),
            }
        } else {
            Verdict::Open(names_rate_limit(out.stderr@) || names_rate_limit(out.stdout@))
        },
    }
}

/// What is left to say when neither tool settled it.
pub open spec fn unsettled(rate_limited: bool) -> Result<Relation, Seq<char>> {
    if rate_limited {
        Ok(Relation::RateLimited)
    } else {
        Err("could not classify the commit relationship with gh or curl"@)
    }
}

/// What the public API answers; `None` where there is no `curl`.
pub open spec fn compared_by_curl(
    run: Option<Result<Output, ExecError>>,
    rate_limited: bool,
) -> Result<Relation, Seq<char>> {
    match run {
        None => unsettled(rate_limited),
        Some(Err(e)) => Err("GitHub compare fallback: "@ + exec::exec_error_text(e)),
        Some(Ok(out)) => if out.code != 0 {
            unsettled(rate_limited)
        } else {
            let (body, code) = status_split(out.stdout@);
            match code {
                None => unsettled(rate_limited),
                Some(n) => if (n == 403 || n == 429) && names_rate_limit(body) {
                    Ok(Relation::RateLimited)
                } else if n == 200 {
                    member_relation(json::json_at(body, "/status"@))
                } else {
                    Err("GitHub compare returned HTTP "@ + text::decimal(n))
                },
            }
        },
    }
}

/// The whole comparison: what can be settled locally, else what `gh` says,
/// else what the public API says.
pub open spec fn comparison(
    installed: Seq<char>,
    remote: Seq<char>,
    gh: Option<Result<Output, ExecError>>,
    curl: Option<Result<Output, ExecError>>,
) -> Result<Relation, Seq<char>> {
    match compared_locally(installed, remote) {
        Verdict::Settled(result) => result,
        Verdict::Open(_) => match compared_by_gh(gh) {
            Verdict::Settled(result) => result,
            Verdict::Open(rate_limited) => compared_by_curl(curl, rate_limited),
        },
    }
}

pub open spec fn relation_view(r: Result<Relation, String>) -> Result<Relation, Seq<char>> {
    match r {
        Ok(relation) => Ok(relation),
        Err(e) => Err(e@),
    }
}

/// What is known so far of a comparison.
#[derive(Debug)]
pub enum Answer {
    Settled(Result<Relation, String>),
    Open { rate_limited: bool },
}

impl View for Answer {
    type V = Verdict;

    open spec fn view(&self) -> Verdict {
        match *self {
            Answer::Settled(result) => Verdict::Settled(relation_view(result)),
            Answer::Open { rate_limited } => Verdict::Open(rate_limited),
        }
    }
}

/// Compares two revisions as far as that takes no network.
pub fn compare(installed: &str, remote: &str) -> (r: Answer)
    ensures
        r@ == compared_locally(installed@, remote@),
{
    if text::eq_ignore_case(installed, remote) {
        return Answer::Settled(Ok(Relation::Same));
    }
    if !full_commit(installed) || !full_commit(remote) {
        return Answer::Settled(
            Err("installed or remote revision is not a full commit SHA".to_string()),
        );
    }
    Answer::Open { rate_limited: false }
}

/// Takes the answer of `gh` to a comparison.
pub fn compare_by_gh(run: &Option<Result<Output, ExecError>>) -> (r: Answer)
    ensures
        r@ == compared_by_gh(*run),
{
    match run {
        None => Answer::Open { rate_limited: false },
        Some(Err(e)) => Answer::Settled(
            Err("GitHub compare: ".to_string().concat(e.describe().as_str())),
        ),
        Some(Ok(out)) => {
            if out.ok() {
                match relation_from_status(out.trimmed()) {
                    Some(relation) => Answer::Settled(Ok(relation)),
                    None => Answer::Open { rate_limited: false },
                }
            } else {
                Answer::Open {
                    rate_limited: mentions_rate_limit(out.stderr.as_str()) || mentions_rate_limit(
                        out.stdout.as_str(),
                    ),
                }
            }
        },
    }
}

fn undecided(rate_limited: bool) -> (r: Result<Relation, String>)
    ensures
        relation_view(r) == unsettled(rate_limited),
{
    if rate_limited {
        Ok(Relation::RateLimited)
    } else {
        Err("could not classify the commit relationship with gh or curl".to_string())
    }
}

/// Takes the answer of the public API to a comparison.
pub fn compare_by_curl(run: &Option<Result<Output, ExecError>>, rate_limited: bool) -> (r: Result<
    Relation,
    String,
>)
    ensures
        relation_view(r) == compared_by_curl(*run, rate_limited),
{
    match run {
        None => undecided(rate_limited),
        Some(Err(e)) => Err(
            "GitHub compare fallback: ".to_string().concat(e.describe().as_str()),
        ),
        Some(Ok(out)) => {
            if !out.ok() {
                return undecided(rate_limited);
            }
            let (body, code) = split_status(out.stdout.as_str());
            match code {
                None => undecided(rate_limited),
                Some(n) => {
                    if (n == 403 || n == 429) && mentions_rate_limit(body) {
                        return Ok(Relation::RateLimited);
                    }
                    if n == 200 {
                        return relation_of_member(json::look_up(body, "/status"));
                    }
                    Err(
                        "GitHub compare returned HTTP ".to_string().concat(
                            text::number_text(n as u64).as_str(),
                        ),
                    )
                },
            }
        },
    }
}

/// A spent budget is never mistaken for an answer: where the public API refuses
/// for it, or where `gh` was refused for it and the public API does not settle
/// the question, the result says so.
pub proof fn law_rate_limit_is_reported(
    installed: Seq<char>,
    remote: Seq<char>,
    gh: Option<Result<Output, ExecError>>,
    curl: Option<Result<Output, ExecError>>,
)
    requires
        compared_locally(installed, remote) is Open,
        ({
            ||| gh matches Some(Ok(out)) && out.code != 0 && (names_rate_limit(out.stderr@)
                || names_rate_limit(out.stdout@)) && match curl {
                None => true,
                Some(Err(_)) => false,
                Some(Ok(answer)) => answer.code != 0 || status_split(answer.stdout@).1 is None,
            }
            ||| compared_by_gh(gh) is Open && (curl matches Some(Ok(answer)) && answer.code == 0
                && names_rate_limit(status_split(answer.stdout@).0) && (status_split(
                answer.stdout@,
            ).1 == Some(403nat) || status_split(answer.stdout@).1 == Some(429nat)))
        }),
    ensures
        comparison(installed, remote, gh, curl) == Ok::<Relation, Seq<char>>(
            Relation::RateLimited,
        ),
{
}

// ---------------------------------------------------------------------------
// Inspecting one plugin

/// What an inspection needs next.
#[derive(Debug, Clone, Copy, PartialEq, Eq, Structural)]
pub enum InspectStage {
    /// Resolve the ref with `git`.
    Resolve,
    /// Ask `gh` for the comparison.
    AskGh,
    /// Ask the public API for the comparison.
    AskCurl { rate_limited: bool },
    /// Nothing: the state is settled.
    Done,
}

/// An inspection under way.
#[derive(Debug)]
pub struct Inspecting {
    pub state: PluginState,
    pub stage: InspectStage,
}

/// What the registry alone says of a plugin.
pub open spec fn listed_facts(plugin: InstalledPlugin) -> PluginFacts {
    let base = PluginFacts {
        plugin_id: plugin.plugin_id@,
        version: text::opt_text(plugin.version),
        plugin_root: text::opt_text(plugin.plugin_root),
        source_kind: seq![],
        owner: None,
        repo: None,
        subdir: None,
        requested_ref: None,
        installed_sha: None,
        remote_sha: None,
        channel: Channel::Unmanaged,
        relation: Relation::NotApplicable,
        update_available: false,
        error: None,
    };
    match plugin.source {
        None => base,
        Some(source) => PluginFacts {
            source_kind: source.kind@,
            owner: text::opt_text(source.owner),
            repo: text::opt_text(source.repo),
            subdir: text::opt_text(source.subdir),
            requested_ref: text::opt_text(source.requested_ref),
            installed_sha: text::opt_text(source.resolved_commit),
            ..base
        },
    }
}

pub open spec fn unknown_with(facts: PluginFacts, error: Seq<char>) -> PluginFacts {
    PluginFacts { relation: Relation::Unknown, error: Some(error), ..facts }
}

/// The state once the comparison is settled.
pub open spec fn related(facts: PluginFacts, result: Result<Relation, Seq<char>>) -> PluginFacts {
    match result {
        Ok(relation) => PluginFacts {
            relation,
            update_available: relation == Relation::Behind,
            ..facts
        },
        Err(e) => unknown_with(facts, e),
    }
}

/// The state and the stage once the remote revision is known.
pub open spec fn with_remote(facts: PluginFacts, sha: Seq<char>, channel: Channel) -> (
    PluginFacts,
    InspectStage,
) {
    let next = PluginFacts { remote_sha: Some(sha), channel, ..facts };
    match compared_locally(text::text_or_empty(facts.installed_sha), sha) {
        Verdict::Settled(result) => (related(next, result), InspectStage::Done),
        Verdict::Open(_) => (next, InspectStage::AskGh),
    }
}

/// Where an inspection begins: sources that are linked, unmanaged, incomplete,
/// invalid or pinned to a commit are settled at once.
pub open spec fn begun(plugin: InstalledPlugin) -> (PluginFacts, InspectStage) {
    let facts = listed_facts(plugin);
    if plugin.source is None {
        (facts, InspectStage::Done)
    } else if facts.source_kind == "local"@ {
        (PluginFacts { channel: Channel::Linked, ..facts }, InspectStage::Done)
    } else if facts.source_kind != "github"@ {
        (facts, InspectStage::Done)
    } else {
        match (facts.owner, facts.repo, facts.installed_sha) {
            (Some(owner), Some(repo), Some(installed)) => {
                if !segment(owner, 100) || !segment(repo, 100) || !commit(installed)
                    || (facts.subdir matches Some(d) && !subdir(d)) {
                    (
                        unknown_with(facts, "GitHub source metadata failed validation"@),
                        InspectStage::Done,
                    )
                } else {
                    match facts.requested_ref {
                        Some(name) if commit(name) => with_remote(
                            facts,
                            text::lowercase(installed),
                            Channel::Commit,
                        ),
                        Some(name) if name.len() > 0 && !reference(name) => (
                            unknown_with(
                                facts,
                                "ref contains unsupported characters: "@ + text::debug_text(name),
                            ),
                            InspectStage::Done,
                        ),
                        _ => (facts, InspectStage::Resolve),
                    }
                }
            },
            _ => (
                unknown_with(
                    facts,
                    "GitHub source is missing owner, repo, or resolved commit"@,
                ),
                InspectStage::Done,
            ),
        }
    }
}

/// What one step of an inspection comes to. The run is `None` where the tool
/// is not there; `git` has to be, its absence is a failed run.
pub open spec fn stepped(
    facts: PluginFacts,
    stage: InspectStage,
    run: Option<Result<Output, ExecError>>,
) -> (PluginFacts, InspectStage) {
    match stage {
        InspectStage::Resolve => match run {
            None => (facts, InspectStage::Resolve),
            Some(run) => match resolved(facts.requested_ref, run) {
                Ok((sha, channel)) => with_remote(facts, sha, channel),
                Err(e) => (unknown_with(facts, e), InspectStage::Done),
            },
        },
        InspectStage::AskGh => match compared_by_gh(run) {
            Verdict::Settled(result) => (related(facts, result), InspectStage::Done),
            Verdict::Open(rate_limited) => (facts, InspectStage::AskCurl { rate_limited }),
        },
        InspectStage::AskCurl { rate_limited } => (
            related(facts, compared_by_curl(run, rate_limited)),
            InspectStage::Done,
        ),
        InspectStage::Done => (facts, InspectStage::Done),
    }
}

pub open spec fn compare_endpoint(facts: PluginFacts) -> Seq<char> {
    "repos/"@ + text::text_or_empty(facts.owner) + "/"@ + text::text_or_empty(facts.repo)
        + "/compare/"@ + text::text_or_empty(facts.installed_sha) + "..."@ + text::text_or_empty(
        facts.remote_sha,
    )
}

/// The header that names this tool to GitHub.
pub const USER_AGENT: &'static str = "User-Agent: herdr-updater/0.1.0";

/// The program and the arguments that a stage asks for.
pub open spec fn stage_command(facts: PluginFacts, stage: InspectStage, timeout: nat) -> (
    Seq<char>,
    Seq<Seq<char>>,
) {
    match stage {
        InspectStage::Resolve => (
            "git"@,
            resolve_args(
                text::text_or_empty(facts.owner),
                text::text_or_empty(facts.repo),
                facts.requested_ref,
            ),
        ),
        InspectStage::AskGh => (
            "gh"@,
            seq!["api"@, compare_endpoint(facts), "--jq"@, ".status"@],
        ),
        InspectStage::AskCurl { .. } => (
            "curl"@,
            seq![
                "-sSL"@,
                "--max-time"@,
                text::decimal(if timeout < 1 { 1 } else { timeout }),
                "-H"@,
                "Accept: application/vnd.github+json"@,
                "-H"@,
                USER_AGENT@,
                "-w"@,
                "\n%{http_code}"@,
                "https://api.github.com/"@ + compare_endpoint(facts),
            ],
        ),
        InspectStage::Done => (seq![], seq![]),
    }
}

fn listed_state(plugin: InstalledPlugin) -> (r: PluginState)
    ensures
        r@ == listed_facts(plugin),
{
    let mut r = PluginState {
        plugin_id: plugin.plugin_id,
        version: plugin.version,
        plugin_root: plugin.plugin_root,
        source_kind: String::new(),
        owner: None,
        repo: None,
        subdir: None,
        requested_ref: None,
        installed_sha: None,
        remote_sha: None,
        channel: Channel::Unmanaged,
        relation: Relation::NotApplicable,
        update_available: false,
        error: None,
    };
    assert(r.source_kind@ =~= seq![]);
    if let Some(source) = plugin.source {
        r.source_kind = source.kind;
        r.owner = source.owner;
        r.repo = source.repo;
        r.subdir = source.subdir;
        r.requested_ref = source.requested_ref;
        r.installed_sha = source.resolved_commit;
    }
    r
}

fn settle_unknown(state: PluginState, error: String) -> (r: Inspecting)
    ensures
        r.state@ == unknown_with(state@, error@),
        r.stage == InspectStage::Done,
{
    let mut state = state;
    state.relation = Relation::Unknown;
    state.error = Some(error);
    Inspecting { state, stage: InspectStage::Done }
}

fn settle(state: PluginState, result: Result<Relation, String>) -> (r: Inspecting)
    ensures
        r.state@ == related(state@, relation_view(result)),
        r.stage == InspectStage::Done,
{
    match result {
        Ok(relation) => {
            let mut state = state;
            state.relation = relation;
            state.update_available = relation == Relation::Behind;
            Inspecting { state, stage: InspectStage::Done }
        },
        Err(e) => settle_unknown(state, e),
    }
}

fn take_remote(state: PluginState, sha: String, channel: Channel) -> (r: Inspecting)
    ensures
        (r.state@, r.stage) == with_remote(state@, sha@, channel),
{
    let answer = compare(text::str_or_empty(&state.installed_sha), sha.as_str());
    let mut state = state;
    state.remote_sha = Some(sha);
    state.channel = channel;
    match answer {
        Answer::Settled(result) => settle(state, result),
        Answer::Open { .. } => Inspecting { state, stage: InspectStage::AskGh },
    }
}

/// Begins the inspection of one plugin.
pub fn inspect_one(plugin: InstalledPlugin) -> (r: Inspecting)
    ensures
        (r.state@, r.stage) == begun(plugin),
{
    let managed = plugin.source.is_some();
    let mut state = listed_state(plugin);
    if !managed {
        return Inspecting { state, stage: InspectStage::Done };
    }
    if text::text_eq(state.source_kind.as_str(), "local") {
        state.channel = Channel::Linked;
        return Inspecting { state, stage: InspectStage::Done };
    }
    if !text::text_eq(state.source_kind.as_str(), "github") {
        return Inspecting { state, stage: InspectStage::Done };
    }
    let valid = match (&state.owner, &state.repo, &state.installed_sha) {
        (Some(owner), Some(repo), Some(installed)) => Some(
            valid_segment(owner.as_str(), 100) && valid_segment(repo.as_str(), 100) && full_commit(
                installed.as_str(),
            ) && match &state.subdir {
                Some(dir) => valid_subdir(dir.as_str()),
                None => true,
            },
        ),
        _ => None,
    };
    match valid {
        None => {
            return settle_unknown(
                state,
                "GitHub source is missing owner, repo, or resolved commit".to_string(),
            );
        },
        Some(false) => {
            return settle_unknown(
                state,
                "GitHub source metadata failed validation".to_string(),
            );
        },
        Some(true) => {},
    }
    let fault = match &state.requested_ref {
        Some(name) => {
            if full_commit(name.as_str()) {
                let pinned = text::to_lower(text::str_or_empty(&state.installed_sha));
                return take_remote(state, pinned, Channel::Commit);
            }
            if name.as_str().unicode_len() > 0 && !valid_ref(name.as_str()) {
                Some(
                    "ref contains unsupported characters: ".to_string().concat(
                        text::quoted(name.as_str()).as_str(),
                    ),
                )
            } else {
                None
            }
        },
        None => None,
    };
    match fault {
        Some(error) => settle_unknown(state, error),
        None => Inspecting { state, stage: InspectStage::Resolve },
    }
}

impl Inspecting {
    /// The program that the next step runs.
    pub fn program(&self) -> (r: String)
        ensures
            r@ == stage_command(self.state@, self.stage, 0).0,
    {
        match self.stage {
            InspectStage::Resolve => "git".to_string(),
            InspectStage::AskGh => "gh".to_string(),
            InspectStage::AskCurl { .. } => "curl".to_string(),
            InspectStage::Done => {
                let r = String::new();
                assert(r@ =~= seq![]);
                r
            },
        }
    }

    fn endpoint(&self) -> (r: String)
        ensures
            r@ == compare_endpoint(self.state@),
    {
        "repos/".to_string().concat(text::str_or_empty(&self.state.owner)).concat("/").concat(
            text::str_or_empty(&self.state.repo),
        ).concat("/compare/").concat(text::str_or_empty(&self.state.installed_sha)).concat(
            "...",
        ).concat(text::str_or_empty(&self.state.remote_sha))
    }

    fn git_args(&self) -> (r: Vec<String>)
        ensures
            text::texts(r@) == stage_command(self.state@, InspectStage::Resolve, 0).1,
    {
        let url = "https://github.com/".to_string().concat(
            text::str_or_empty(&self.state.owner),
        ).concat("/").concat(text::str_or_empty(&self.state.repo)).concat(".git");
        if let Some(name) = &self.state.requested_ref {
            if name.as_str().unicode_len() > 0 {
                let r = vec![
                    "ls-remote".to_string(),
                    url,
                    "refs/heads/".to_string().concat(name.as_str()),
                    "refs/tags/".to_string().concat(name.as_str()),
                    "refs/tags/".to_string().concat(name.as_str()).concat("^{}"),
                ];
                assert(text::texts(r@) =~= stage_command(
                    self.state@,
                    InspectStage::Resolve,
                    0,
                ).1);
                return r;
            }
        }
        let r = vec!["ls-remote".to_string(), "--symref".to_string(), url, "HEAD".to_string()];
        assert(text::texts(r@) =~= stage_command(self.state@, InspectStage::Resolve, 0).1);
        r
    }

    /// The arguments that the next step runs its program with.
    pub fn args(&self, timeout: u64) -> (r: Vec<String>)
        ensures
            text::texts(r@) == stage_command(self.state@, self.stage, timeout as nat).1,
    {
        let r = match self.stage {
            InspectStage::Resolve => self.git_args(),
            InspectStage::AskGh => vec![
                "api".to_string(),
                self.endpoint(),
                "--jq".to_string(),
                ".status".to_string(),
            ],
            InspectStage::AskCurl { .. } => vec![
                "-sSL".to_string(),
                "--max-time".to_string(),
                text::number_text(
                    if timeout < 1 {
                        1
                    } else {
                        timeout
                    },
                ),
                "-H".to_string(),
                "Accept: application/vnd.github+json".to_string(),
                "-H".to_string(),
                USER_AGENT.to_string(),
                "-w".to_string(),
                "\n%{http_code}".to_string(),
                "https://api.github.com/".to_string().concat(self.endpoint().as_str()),
            ],
            InspectStage::Done => Vec::new(),
        };
        assert(text::texts(r@) =~= stage_command(self.state@, self.stage, timeout as nat).1);
        r
    }

    /// Takes what the last step came to and settles the next one. The run is
    /// `None` where `gh` or `curl` is not there.
    pub fn advance(self, run: Option<Result<Output, ExecError>>) -> (r: Inspecting)
        ensures
            (r.state@, r.stage) == stepped(self.state@, self.stage, run),
    {
        let state = self.state;
        match self.stage {
            InspectStage::Resolve => {
                let run = match run {
                    Some(run) => run,
                    None => {
                        return Inspecting { state, stage: InspectStage::Resolve };
                    },
                };
                let requested = match &state.requested_ref {
                    Some(name) => Some(name.as_str()),
                    None => None,
                };
                match resolve_remote(requested, &run) {
                    Ok((sha, channel)) => take_remote(state, sha, channel),
                    Err(e) => settle_unknown(state, e),
                }
            },
            InspectStage::AskGh => match compare_by_gh(&run) {
                Answer::Settled(result) => settle(state, result),
                Answer::Open { rate_limited } => Inspecting {
                    state,
                    stage: InspectStage::AskCurl { rate_limited },
                },
            },
            InspectStage::AskCurl { rate_limited } => settle(
                state,
                compare_by_curl(&run, rate_limited),
            ),
            InspectStage::Done => Inspecting { state, stage: InspectStage::Done },
        }
    }
}

/// An inspection is over after three steps at most.
pub proof fn law_inspection_ends(
    plugin: InstalledPlugin,
    git: Result<Output, ExecError>,
    gh: Option<Result<Output, ExecError>>,
    curl: Option<Result<Output, ExecError>>,
)
    ensures
        ({
            let a = begun(plugin);
            let b = stepped(a.0, a.1, Some(git));
            let c = stepped(b.0, b.1, gh);
            stepped(c.0, c.1, curl).1 == InspectStage::Done
        }),
{
    let facts = listed_facts(plugin);
    if let Some(installed) = facts.installed_sha {
        assert(text::lowercase(text::lowercase(installed)) =~= text::lowercase(installed));
    }
}

/// Once the remote revision is known, the relation is the comparison of the
/// two revisions.
pub proof fn law_inspection_compares(
    facts: PluginFacts,
    sha: Seq<char>,
    channel: Channel,
    gh: Option<Result<Output, ExecError>>,
    curl: Option<Result<Output, ExecError>>,
)
    ensures
        ({
            let a = with_remote(facts, sha, channel);
            let b = stepped(a.0, a.1, gh);
            let c = stepped(b.0, b.1, curl);
            c.0 == related(
                PluginFacts { remote_sha: Some(sha), channel, ..facts },
                comparison(text::text_or_empty(facts.installed_sha), sha, gh, curl),
            )
        }),
{
}

/// Whatever the tools answered, an update is available exactly where the
/// installed revision was found to be behind.
pub proof fn law_update_means_behind(
    plugin: InstalledPlugin,
    git: Result<Output, ExecError>,
    gh: Option<Result<Output, ExecError>>,
    curl: Option<Result<Output, ExecError>>,
)
    ensures
        ({
            let a = begun(plugin);
            let b = stepped(a.0, a.1, Some(git));
            let c = stepped(b.0, b.1, gh);
            let d = stepped(c.0, c.1, curl);
            d.0.update_available <==> d.0.relation == Relation::Behind
        }),
{
}

// ---------------------------------------------------------------------------
// Inspecting all plugins

/// The plugins that an inspection covers: all, or those of one id.
pub open spec fn selected(plugins: Seq<InstalledPlugin>, only: Option<Seq<char>>) -> Seq<
    InstalledPlugin,
> {
    match only {
        None => plugins,
        Some(id) => plugins.filter(|plugin: InstalledPlugin| plugin.plugin_id@ == id),
    }
}

/// Every selected plugin's inspection, begun, in the order of the registry.
pub open spec fn all_begun(plugins: Seq<InstalledPlugin>, inspections: Seq<Inspecting>) -> bool {
    inspections.len() == plugins.len() && forall|i: int|
        0 <= i < plugins.len() ==> ((#[trigger] inspections[i]).state@, inspections[i].stage)
            == begun(plugins[i])
}

/// The inspections of the selected plugins, or that there is none to inspect.
pub open spec fn inspections_begin(
    installed: Seq<InstalledPlugin>,
    only: Option<Seq<char>>,
    r: Result<Vec<Inspecting>, String>,
) -> bool {
    match r {
        Ok(inspections) => all_begun(selected(installed, only), inspections@) && (only is Some
            ==> inspections.len() > 0),
        Err(e) => only matches Some(id) && selected(installed, Some(id)).len() == 0 && e@
            == "plugin "@ + text::debug_text(id) + " is not installed"@,
    }
}

/// Begins the inspection of every installed plugin, or of the one asked for.
pub fn inspect_all(installed: Vec<InstalledPlugin>, only: Option<&str>) -> (r: Result<
    Vec<Inspecting>,
    String,
>)
    ensures
        inspections_begin(installed@, text::opt_str(only), r),
{
    let mut out: Vec<Inspecting> = Vec::new();
    let mut i: usize = 0;
    proof {
        reveal(Seq::filter);
        assert(selected(installed@.take(0), text::opt_str(only)) =~= seq![]);
    }
    while i < installed.len()
        invariant
            i <= installed.len(),
            all_begun(selected(installed@.take(i as int), text::opt_str(only)), out@),
        decreases installed.len() - i,
    {
        let wanted = match only {
            Some(id) => text::text_eq(installed[i].plugin_id.as_str(), id),
            None => true,
        };
        let ghost before = selected(installed@.take(i as int), text::opt_str(only));
        let ghost after = selected(installed@.take(i + 1), text::opt_str(only));
        proof {
            reveal(Seq::filter);
            assert(installed@.take(i + 1).drop_last() =~= installed@.take(i as int));
            assert(installed@.take(i + 1).last() == installed@[i as int]);
            if wanted {
                assert(after =~= before.push(installed@[i as int]));
            } else {
                assert(after =~= before);
            }
        }
        if wanted {
            let begun_one = inspect_one(installed[i].clone());
            out.push(begun_one);
        }
        i = i + 1;
    }
    assert(installed@.take(i as int) =~= installed@);
    if let Some(id) = only {
        if out.len() == 0 {
            return Err(
                "plugin ".to_string().concat(text::quoted(id).as_str()).concat(
                    " is not installed",
                ),
            );
        }
    }
    Ok(out)
}

/// The order in which states are reported: by plugin id.
pub open spec fn id_order(states: Seq<PluginState>) -> spec_fn(int, int) -> bool {
    |i: int, j: int| !text::precedes(states[j].plugin_id@, states[i].plugin_id@)
}

proof fn lemma_id_order(states: Seq<PluginState>)
    ensures
        order::total_preorder(id_order(states), states.len()),
{
    let leq = id_order(states);
    assert forall|i: int, j: int|
        0 <= i < states.len() && 0 <= j < states.len() implies #[trigger] leq(i, j) || leq(
        j,
        i,
    ) by {
        text::lemma_precedes_total(states[i].plugin_id@, states[j].plugin_id@);
    }
    assert forall|i: int, j: int, k: int|
        0 <= i < states.len() && 0 <= j < states.len() && 0 <= k < states.len() && #[trigger] leq(
            i,
            j,
        ) && #[trigger] leq(j, k) implies leq(i, k) by {
        text::lemma_not_before_transitive(
            states[i].plugin_id@,
            states[j].plugin_id@,
            states[k].plugin_id@,
        );
    }
}

/// Puts finished states in the order of their plugin ids.
pub fn sort_states(states: Vec<PluginState>) -> (r: Vec<PluginState>)
    ensures
        exists|sorted: Seq<usize>|
            order::stable_order(sorted, id_order(states@), states@.len()) && r@
                == #[trigger] order::arranged(states@, sorted),
{
    proof {
        lemma_id_order(states@);
    }
    let ghost leq = id_order(states@);
    let le = |i: usize, j: usize| -> (b: bool)
        requires
            i < states@.len(),
            j < states@.len(),
        ensures
            b == leq(i as int, j as int),
        { !text::text_precedes(states[j].plugin_id.as_str(), states[i].plugin_id.as_str()) };
    let sorted = order::sort_positions(states.len(), &le, Ghost(leq));
    proof {
        order::lemma_order_distinct(sorted@, leq, states@.len());
    }
    order::arrange(states, &sorted)
}

// ---------------------------------------------------------------------------
// Deciding

#[derive(Debug, Clone, PartialEq, Eq)]
pub enum Decision {
    Current,
    Update,
    Hold(String),
    Error(String),
}

/// What a decision says.
pub enum Outcome {
    Current,
    Update,
    Hold(Seq<char>),
    Error(Seq<char>),
}

impl View for Decision {
    type V = Outcome;

    open spec fn view(&self) -> Outcome {
        match *self {
            Decision::Current => Outcome::Current,
            Decision::Update => Outcome::Update,
            Decision::Hold(reason) => Outcome::Hold(reason@),
            Decision::Error(reason) => Outcome::Error(reason@),
        }
    }
}

/// What is decided for a plugin.
pub open spec fn decided(state: PluginFacts, settings: config::Settings) -> Outcome {
    if let Some(error) = state.error {
        Outcome::Error(error)
    } else if state.channel == Channel::Linked {
        Outcome::Hold("linked checkout; never replace a local fork"@)
    } else if state.channel == Channel::Unmanaged {
        Outcome::Hold("non-GitHub plugin source"@)
    } else if (state.channel == Channel::Commit || state.channel == Channel::Tag)
        && settings.immutable_pins {
        Outcome::Hold("immutable pin"@)
    } else {
        match state.relation {
            Relation::Same => Outcome::Current,
            Relation::Behind => match (state.owner, state.repo) {
                (Some(owner), Some(repo)) => if config::target_permitted(
                    settings.trusted_owners,
                    settings.allow,
                    owner,
                    repo,
                ) {
                    Outcome::Update
                } else {
                    Outcome::Hold("outside allowlist or trusted-owner policy"@)
                },
                _ => Outcome::Error("missing GitHub identity"@),
            },
            Relation::Ahead => Outcome::Hold("local checkout is ahead of upstream"@),
            Relation::Diverged => Outcome::Hold("local and upstream histories diverged"@),
            Relation::RateLimited => Outcome::Error(
                "GitHub API rate limit reached; authenticate gh for a higher budget"@,
            ),
            Relation::Unknown => Outcome::Error("commit relationship is unknown"@),
            Relation::NotApplicable => Outcome::Current,
        }
    }
}

pub fn decide(state: &PluginState, config: &Config) -> (r: Decision)
    ensures
        r@ == decided(state@, config@),
{
    if let Some(error) = &state.error {
        return Decision::Error(error.clone());
    }
    match state.channel {
        Channel::Linked => {
            return Decision::Hold("linked checkout; never replace a local fork".to_string());
        },
        Channel::Unmanaged => {
            return Decision::Hold("non-GitHub plugin source".to_string());
        },
        Channel::Commit | Channel::Tag => {
            if config.immutable_pins {
                return Decision::Hold("immutable pin".to_string());
            }
        },
        Channel::Branch | Channel::DefaultBranch => {},
    }
    match state.relation {
        Relation::Same => Decision::Current,
        Relation::Behind => {
            match (&state.owner, &state.repo) {
                (Some(owner), Some(repo)) => if config.target_allowed(
                    owner.as_str(),
                    repo.as_str(),
                ) {
                    Decision::Update
                } else {
                    Decision::Hold("outside allowlist or trusted-owner policy".to_string())
                },
                _ => Decision::Error("missing GitHub identity".to_string()),
            }
        },
        Relation::Ahead => Decision::Hold("local checkout is ahead of upstream".to_string()),
        Relation::Diverged => Decision::Hold("local and upstream histories diverged".to_string()),
        Relation::RateLimited => Decision::Error(
            "GitHub API rate limit reached; authenticate gh for a higher budget".to_string(),
        ),
        Relation::Unknown => Decision::Error("commit relationship is unknown".to_string()),
        Relation::NotApplicable => Decision::Current,
    }
}

/// Only a revision that is behind its upstream branch is updated, and only
/// inside the policy: nothing linked, unmanaged, pinned, ahead, diverged,
/// rate-limited or unknown is.
pub proof fn law_only_behind_is_updated(state: PluginFacts, settings: config::Settings)
    ensures
        decided(state, settings) == Outcome::Update <==> {
            &&& state.error is None
            &&& state.relation == Relation::Behind
            &&& state.channel != Channel::Linked && state.channel != Channel::Unmanaged
            &&& settings.immutable_pins ==> state.channel != Channel::Commit && state.channel
                != Channel::Tag
            &&& state.owner is Some && state.repo is Some
            &&& config::target_permitted(
                settings.trusted_owners,
                settings.allow,
                state.owner->0,
                state.repo->0,
            )
        },
{
}

/// What could not be checked is an error, never current: a failed inspection,
/// a spent budget and an unknown relation do not read as green.
pub proof fn law_unknown_plugin_is_error(state: PluginFacts, settings: config::Settings)
    ensures
        state.error is Some ==> decided(state, settings) is Error,
        state.channel == Channel::Branch || state.channel == Channel::DefaultBranch ==> {
            state.relation == Relation::RateLimited || state.relation == Relation::Unknown
                ==> decided(state, settings) is Error
        },
{
}

// ---------------------------------------------------------------------------
// Installing

/// The arguments of an install, or why it is refused.
pub open spec fn install_command(
    source: Seq<char>,
    requested: Option<Seq<char>>,
    yes: bool,
) -> Result<Seq<Seq<char>>, Seq<char>> {
    match source_fault(source) {
        Some(fault) => Err(fault),
        None => if requested matches Some(name) && !reference(name) {
            Err("plugin reference contains unsupported characters"@)
        } else {
            let base = seq!["plugin"@, "install"@, source];
            let with_ref = match requested {
                Some(name) => base.push("--ref"@).push(name),
                None => base,
            };
            Ok(
                if yes {
                    with_ref.push("--yes"@)
                } else {
                    with_ref
                },
            )
        },
    }
}

pub open spec fn args_view(r: Result<Vec<String>, String>) -> Result<Seq<Seq<char>>, Seq<char>> {
    match r {
        Ok(args) => Ok(text::texts(args@)),
        Err(e) => Err(e@),
    }
}

/// The arguments that install a source.
pub fn install_source(source: &str, reference: Option<&str>, yes: bool) -> (r: Result<
    Vec<String>,
    String,
>)
    ensures
        args_view(r) == install_command(source@, text::opt_str(reference), yes),
{
    broadcast use text::lemma_texts_push;

    if let Err(e) = validate_source(source) {
        return Err(e);
    }
    if let Some(name) = reference {
        if !valid_ref(name) {
            return Err("plugin reference contains unsupported characters".to_string());
        }
    }
    let mut args = vec!["plugin".to_string(), "install".to_string(), source.to_string()];
    assert(text::texts(args@) =~= seq!["plugin"@, "install"@, source@]);
    if let Some(name) = reference {
        args.push("--ref".to_string());
        args.push(name.to_string());
    }
    if yes {
        args.push("--yes".to_string());
    }
    Ok(args)
}

/// The source of a plugin as an install names it.
pub open spec fn source_text(state: PluginFacts) -> Option<Seq<char>> {
    match (state.owner, state.repo) {
        (Some(owner), Some(repo)) => Some(
            match state.subdir {
                Some(dir) => owner + "/"@ + repo + "/"@ + dir,
                None => owner + "/"@ + repo,
            },
        ),
        _ => None,
    }
}

/// What Herdr is run with to install a plugin again from where it came.
pub open spec fn reinstall_command(state: PluginFacts, reference: Option<Seq<char>>) -> Result<
    Seq<Seq<char>>,
    Seq<char>,
> {
    match source_text(state) {
        None => Err("plugin has no GitHub source"@),
        Some(source) => install_command(source, reference, true),
    }
}

/// The arguments that reinstall a plugin without asking.
pub fn install(state: &PluginState, reference: Option<&str>) -> (r: Result<Vec<String>, String>)
    ensures
        args_view(r) == reinstall_command(state@, text::opt_str(reference)),
{
    match (&state.owner, &state.repo) {
        (Some(owner), Some(repo)) => {
            let mut source = owner.clone().concat("/").concat(repo.as_str());
            if let Some(dir) = &state.subdir {
                source = source.concat("/").concat(dir.as_str());
            }
            install_source(source.as_str(), reference, true)
        },
        _ => Err("plugin has no GitHub source".to_string()),
    }
}

/// What an unattended install came to.
pub fn install_outcome(run: &Result<Output, ExecError>) -> (r: Result<(), String>)
    ensures
        match herdr::run_failure("plugin install"@, *run) {
            Some(failure) => r matches Err(e) && e@ == failure,
            None => r is Ok,
        },
{
    match herdr::failure_of("plugin install", run) {
        Some(failure) => Err(failure),
        None => Ok(()),
    }
}

/// Why an install that wrote to the terminal failed, if it did.
pub open spec fn inherited_failure(run: Result<i32, ExecError>) -> Option<Seq<char>> {
    match run {
        Err(error) => Some("plugin install: "@ + exec::exec_error_text(error)),
        Ok(code) => if code == 0 {
            None
        } else {
            Some("plugin install exited "@ + text::signed_decimal(code as int))
        },
    }
}

/// What an install in the user's terminal came to.
pub fn inherited_outcome(run: &Result<i32, ExecError>) -> (r: Result<(), String>)
    ensures
        match inherited_failure(*run) {
            Some(failure) => r matches Err(e) && e@ == failure,
            None => r is Ok,
        },
{
    match run {
        Err(e) => Err("plugin install: ".to_string().concat(e.describe().as_str())),
        Ok(code) => if *code == 0 {
            Ok(())
        } else {
            Err("plugin install exited ".to_string().concat(text::signed_text(*code).as_str()))
        },
    }
}

/// The first plugin of an id.
pub open spec fn first_of(plugins: Seq<InstalledPlugin>, id: Seq<char>) -> Option<InstalledPlugin>
    decreases plugins.len(),
{
    if plugins.len() == 0 {
        None
    } else if plugins[0].plugin_id@ == id {
        Some(plugins[0])
    } else {
        first_of(plugins.drop_first(), id)
    }
}

/// The commit that the registry has for a plugin.
pub open spec fn commit_of(plugin: InstalledPlugin) -> Option<Seq<char>> {
    match plugin.source {
        Some(source) => text::opt_text(source.resolved_commit),
        None => None,
    }
}

/// What is wrong with a plugin after an install.
pub open spec fn verify_failure(
    plugins: Seq<InstalledPlugin>,
    id: Seq<char>,
    expected: Seq<char>,
) -> Option<Seq<char>> {
    match first_of(plugins, id) {
        None => Some(id + " disappeared after install"@),
        Some(plugin) => match commit_of(plugin) {
            None => Some(id + " has no resolved commit after install"@),
            Some(sha) => if text::lowercase(sha) == text::lowercase(expected) {
                None
            } else {
                Some(id + " resolved to "@ + sha + ", expected "@ + expected)
            },
        },
    }
}

fn find_plugin<'a>(plugins: &'a Vec<InstalledPlugin>, id: &str) -> (r: Option<&'a InstalledPlugin>)
    ensures
        match r {
            Some(plugin) => first_of(plugins@, id@) == Some(*plugin),
            None => first_of(plugins@, id@) is None,
        },
{
    let mut i: usize = 0;
    assert(plugins@.skip(0) =~= plugins@);
    while i < plugins.len()
        invariant
            i <= plugins.len(),
            first_of(plugins@, id@) == first_of(plugins@.skip(i as int), id@),
        decreases plugins.len() - i,
    {
        assert(plugins@.skip(i as int).drop_first() =~= plugins@.skip(i + 1));
        if text::text_eq(plugins[i].plugin_id.as_str(), id) {
            return Some(&plugins[i]);
        }
        i = i + 1;
    }
    None
}

/// Checks that a plugin is there after an install, at the expected commit.
pub fn verify(plugins: &Vec<InstalledPlugin>, plugin_id: &str, expected_sha: &str) -> (r: Result<
    (),
    String,
>)
    ensures
        match verify_failure(plugins@, plugin_id@, expected_sha@) {
            Some(failure) => r matches Err(e) && e@ == failure,
            None => r is Ok,
        },
{
    let plugin = match find_plugin(plugins, plugin_id) {
        Some(plugin) => plugin,
        None => {
            return Err(plugin_id.to_string().concat(" disappeared after install"));
        },
    };
    let actual = match &plugin.source {
        Some(source) => &source.resolved_commit,
        None => &None,
    };
    match actual {
        None => Err(plugin_id.to_string().concat(" has no resolved commit after install")),
        Some(sha) => if text::eq_ignore_case(sha.as_str(), expected_sha) {
            Ok(())
        } else {
            Err(
                plugin_id.to_string().concat(" resolved to ").concat(sha.as_str()).concat(
                    ", expected ",
                ).concat(expected_sha),
            )
        },
    }
}

/// The commit that a plugin is at after an install, or what is wrong with it.
pub open spec fn commit_after(
    plugins: Seq<InstalledPlugin>,
    id: Seq<char>,
    expected: Option<Seq<char>>,
) -> Result<Seq<char>, Seq<char>> {
    match first_of(plugins, id) {
        None => Err(id + " disappeared after install"@),
        Some(plugin) => match commit_of(plugin) {
            None => Err(id + " has no resolved commit after install"@),
            Some(sha) => match expected {
                None => Ok(sha),
                Some(wanted) => if text::lowercase(sha) == text::lowercase(wanted) {
                    Ok(wanted)
                } else {
                    Err(id + " resolved to "@ + sha + ", expected "@ + wanted)
                },
            },
        },
    }
}

/// The commit that a plugin came to by an install, or what is wrong. Any commit
/// will do where none is expected.
pub fn settled_commit(
    plugins: &Vec<InstalledPlugin>,
    plugin_id: &str,
    expected: Option<&str>,
) -> (r: Result<String, String>)
    ensures
        match commit_after(plugins@, plugin_id@, text::opt_str(expected)) {
            Ok(commit) => r matches Ok(c) && c@ == commit,
            Err(error) => r matches Err(e) && e@ == error,
        },
{
    if let Some(wanted) = expected {
        return match verify(plugins, plugin_id, wanted) {
            Ok(()) => Ok(wanted.to_string()),
            Err(e) => Err(e),
        };
    }
    match find_plugin(plugins, plugin_id) {
        None => Err(plugin_id.to_string().concat(" disappeared after install")),
        Some(plugin) => {
            if let Some(source) = &plugin.source {
                if let Some(sha) = &source.resolved_commit {
                    return Ok(sha.clone());
                }
            }
            Err(plugin_id.to_string().concat(" has no resolved commit after install"))
        },
    }
}

/// Why the actions of a plugin were not found after its install, if they were not.
pub open spec fn discovery_failure(run: Result<Output, ExecError>) -> Option<Seq<char>> {
    match run {
        Err(error) => Some("post-install action discovery: "@ + exec::exec_error_text(error)),
        Ok(out) => if out.code == 0 {
            None
        } else {
            Some("post-install action discovery exited "@ + text::signed_decimal(out.code as int))
        },
    }
}

/// Checks that action discovery still works after an install.
pub fn verify_actions(run: &Result<Output, ExecError>) -> (r: Result<(), String>)
    ensures
        match discovery_failure(*run) {
            Some(failure) => r matches Err(e) && e@ == failure,
            None => r is Ok,
        },
{
    match run {
        Err(e) => Err("post-install action discovery: ".to_string().concat(e.describe().as_str())),
        Ok(out) => if out.ok() {
            Ok(())
        } else {
            Err(
                "post-install action discovery exited ".to_string().concat(
                    text::signed_text(out.code).as_str(),
                ),
            )
        },
    }
}

// ---------------------------------------------------------------------------
// What the answers mean

/// GitHub is asked to compare the installed commit, as the base, with the
/// upstream one, as the head; and what it says of the head is what the
/// installed commit is seen against: a head that is ahead leaves the installed
/// commit behind, and only then there is an update.
pub proof fn law_installed_is_compared_with_remote(
    facts: PluginFacts,
    installed: Seq<char>,
    remote: Seq<char>,
    owner: Seq<char>,
    repo: Seq<char>,
    timeout: nat,
    out: Output,
)
    requires
        facts.installed_sha == Some(installed),
        facts.remote_sha == Some(remote),
        facts.owner == Some(owner),
        facts.repo == Some(repo),
        out.code == 0,
    ensures
        ({
            let (program, args) = stage_command(facts, InspectStage::AskGh, timeout);
            let after = stepped(facts, InspectStage::AskGh, Some(Ok(out))).0;
            &&& program == "gh"@
            &&& args[0] == "api"@
            &&& args[1] == "repos/"@ + owner + "/"@ + repo + "/compare/"@ + installed + "..."@
                + remote
            &&& out.stdout@ == "ahead"@ ==> after.relation == Relation::Behind
                && after.update_available
            &&& out.stdout@ == "behind"@ ==> after.relation == Relation::Ahead
            &&& out.stdout@ == "identical"@ ==> after.relation == Relation::Same
            &&& out.stdout@ == "diverged"@ ==> after.relation == Relation::Diverged
        }),
{
    lemma_words_are_bare();
}

/// The public API is asked the same question, and its answer means the same.
pub proof fn law_public_api_is_asked_the_same(
    facts: PluginFacts,
    installed: Seq<char>,
    remote: Seq<char>,
    owner: Seq<char>,
    repo: Seq<char>,
    timeout: nat,
    rate_limited: bool,
    out: Output,
    number: Option<u64>,
    word: Seq<char>,
)
    requires
        facts.installed_sha == Some(installed),
        facts.remote_sha == Some(remote),
        facts.owner == Some(owner),
        facts.repo == Some(repo),
        out.code == 0,
        status_split(out.stdout@).1 == Some(200nat),
        json::json_at(status_split(out.stdout@).0, "/status"@) == Ok::<json::Leaf, Seq<char>>(
            json::Leaf { text: Some(word), number },
        ),
    ensures
        ({
            let stage = InspectStage::AskCurl { rate_limited };
            let (program, args) = stage_command(facts, stage, timeout);
            let after = stepped(facts, stage, Some(Ok(out))).0;
            &&& program == "curl"@
            &&& args.last() == "https://api.github.com/repos/"@ + owner + "/"@ + repo
                + "/compare/"@ + installed + "..."@ + remote
            &&& word == "ahead"@ ==> after.relation == Relation::Behind && after.update_available
            &&& word == "behind"@ ==> after.relation == Relation::Ahead && !after.update_available
            &&& word == "identical"@ ==> after.relation == Relation::Same
            &&& word == "diverged"@ ==> after.relation == Relation::Diverged
        }),
{
    lemma_words_are_bare();
    reveal_strlit("https://api.github.com/repos/");
    reveal_strlit("https://api.github.com/");
    reveal_strlit("repos/");
    assert("https://api.github.com/repos/"@ =~= "https://api.github.com/"@ + "repos/"@);
    let end = owner + "/"@ + repo + "/compare/"@ + installed + "..."@ + remote;
    assert(compare_endpoint(facts) =~= "repos/"@ + end);
    assert("https://api.github.com/repos/"@ + owner + "/"@ + repo + "/compare/"@ + installed
        + "..."@ + remote =~= "https://api.github.com/repos/"@ + end);
    assert("https://api.github.com/"@ + compare_endpoint(facts)
        =~= "https://api.github.com/repos/"@ + end);
}

proof fn lemma_words_are_bare()
    ensures
        status_relation("ahead"@) == Some(Relation::Behind),
        status_relation("behind"@) == Some(Relation::Ahead),
        status_relation("identical"@) == Some(Relation::Same),
        status_relation("diverged"@) == Some(Relation::Diverged),
        text::drop_class("ahead"@, CharClass::LineEnd) == "ahead"@,
        text::drop_class("behind"@, CharClass::LineEnd) == "behind"@,
        text::drop_class("identical"@, CharClass::LineEnd) == "identical"@,
        text::drop_class("diverged"@, CharClass::LineEnd) == "diverged"@,
{
    reveal_strlit("ahead");
    reveal_strlit("behind");
    reveal_strlit("identical");
    reveal_strlit("diverged");
    text::lemma_strip_nothing("ahead"@, CharClass::Quoting);
    text::lemma_strip_nothing("behind"@, CharClass::Quoting);
    text::lemma_strip_nothing("identical"@, CharClass::Quoting);
    text::lemma_strip_nothing("diverged"@, CharClass::Quoting);
    text::lemma_strip_nothing("ahead"@, CharClass::LineEnd);
    text::lemma_strip_nothing("behind"@, CharClass::LineEnd);
    text::lemma_strip_nothing("identical"@, CharClass::LineEnd);
    text::lemma_strip_nothing("diverged"@, CharClass::LineEnd);
    assert("ahead"@.len() == 5 && "behind"@.len() == 6 && "identical"@.len() == 9
        && "diverged"@.len() == 8);
    assert("ahead"@ != "identical"@ && "behind"@ != "ahead"@ && "behind"@ != "identical"@);
    assert("diverged"@ != "ahead"@ && "diverged"@ != "behind"@ && "diverged"@ != "identical"@);
}

/// A word that is not one of GitHub's settles nothing.
pub proof fn law_unknown_word_settles_nothing(facts: PluginFacts, out: Output)
    requires
        out.code == 0,
        !text::has_text(out.stdout@, "ahead"@),
        !text::has_text(out.stdout@, "behind"@),
        !text::has_text(out.stdout@, "identical"@),
        !text::has_text(out.stdout@, "diverged"@),
    ensures
        stepped(facts, InspectStage::AskGh, Some(Ok(out))) == (
            facts,
            InspectStage::AskCurl { rate_limited: false },
        ),
{
    let s = out.stdout@;
    let a = text::drop_class(s, CharClass::LineEnd);
    let b = text::skip_class(a, CharClass::Quoting);
    let word = text::drop_class(b, CharClass::Quoting);
    text::lemma_drop_class(s, CharClass::LineEnd);
    text::lemma_skip_class(a, CharClass::Quoting);
    text::lemma_drop_class(b, CharClass::Quoting);
    let from = a.len() - b.len();
    assert(word =~= s.subrange(from, from + word.len()));
    assert(text::occurs_at(s, word, from));
}

/// Revisions that are the same, but for the case of their letters, are current
/// without anyone being asked; different ones are never called the same here.
pub proof fn law_same_commit_is_current(facts: PluginFacts, sha: Seq<char>, channel: Channel)
    ensures
        ({
            let installed = text::text_or_empty(facts.installed_sha);
            let (after, stage) = with_remote(facts, sha, channel);
            &&& installed == sha ==> after.relation == Relation::Same && stage == InspectStage::Done
            &&& text::lowercase(installed) != text::lowercase(sha) && commit(installed) && commit(
                sha,
            ) ==> stage == InspectStage::AskGh
            &&& text::lowercase(installed) != text::lowercase(sha) && stage == InspectStage::Done
                ==> after.relation == Relation::Unknown && after.error is Some
            &&& after.remote_sha == Some(sha)
            &&& after.channel == channel
        }),
{
}

/// A line of `git ls-remote` gives its commit for the ref that it names, and
/// for no other.
pub proof fn law_ref_line_gives_its_commit(sha: Seq<char>, name: Seq<char>, other: Seq<char>)
    requires
        commit(sha),
        text::trimmed(name) == name,
    ensures
        name == other ==> sha_in_line(sha + seq!['\t'] + name, other) == Some(
            text::lowercase(sha),
        ),
        name != other ==> sha_in_line(sha + seq!['\t'] + name, other) is None,
{
    let line = sha + seq!['\t'] + name;
    assert forall|i: int| 0 <= i < sha.len() implies !CharClass::Whitespace.holds(
        #[trigger] line[i],
    ) by {
        assert(CharClass::Hex.holds(sha[i]));
        assert(line[i] == sha[i]);
    }
    assert(line[sha.len() as int] == '\t');
    text::lemma_run_len_is(line, CharClass::Whitespace, sha.len() as int);
    assert(line.take(sha.len() as int) =~= sha);
    assert(line.skip(sha.len() as int + 1) =~= name);
}

/// A line among some gives a commit for a ref.
pub open spec fn gives(lines: Seq<Seq<char>>, name: Seq<char>, sha: Seq<char>) -> bool {
    exists|i: int| 0 <= i < lines.len() && sha_in_line(#[trigger] lines[i], name) == Some(sha)
}

proof fn lemma_gives(lines: Seq<Seq<char>>, name: Seq<char>)
    ensures
        sha_in_lines(lines, name) matches Some(sha) ==> gives(lines, name, sha),
        sha_in_lines(lines, name) is None ==> forall|sha: Seq<char>| !gives(lines, name, sha),
    decreases lines.len(),
{
    if lines.len() > 0 {
        let rest = lines.drop_first();
        lemma_gives(rest, name);
        if sha_in_line(lines[0], name) is Some {
            assert(gives(lines, name, sha_in_line(lines[0], name)->0));
        } else {
            if let Some(sha) = sha_in_lines(rest, name) {
                let i = choose|i: int|
                    0 <= i < rest.len() && sha_in_line(#[trigger] rest[i], name) == Some(sha);
                assert(lines[i + 1] == rest[i]);
                assert(gives(lines, name, sha));
            } else {
                assert forall|sha: Seq<char>| !gives(lines, name, sha) by {
                    if gives(lines, name, sha) {
                        let i = choose|i: int|
                            0 <= i < lines.len() && sha_in_line(#[trigger] lines[i], name) == Some(
                                sha,
                            );
                        assert(rest[i - 1] == lines[i]);
                        assert(gives(rest, name, sha));
                    }
                }
            }
        }
    }
}

/// A ref resolves to what upstream lists for it: a branch to its head, a tag to
/// the commit behind it where that is listed, and no ref to the default branch.
/// What is both a branch and a tag, or neither, does not resolve.
pub proof fn law_ref_resolves_to_what_is_listed(name: Seq<char>, out: Output)
    requires
        out.code == 0,
        name.len() > 0,
    ensures
        ({
            let lines = text::text_lines(out.stdout@);
            let head = "refs/heads/"@ + name;
            let tag = "refs/tags/"@ + name;
            let peeled = "refs/tags/"@ + name + "^{}"@;
            let named = resolved(Some(name), Ok(out));
            let unnamed = resolved(None, Ok(out));
            &&& named matches Ok((sha, channel)) ==> {
                &&& channel == Channel::Branch || channel == Channel::Tag
                &&& channel == Channel::Branch ==> gives(lines, head, sha) && forall|s: Seq<char>|
                    !gives(lines, tag, s) && !gives(lines, peeled, s)
                &&& channel == Channel::Tag ==> (gives(lines, peeled, sha) || (gives(
                    lines,
                    tag,
                    sha,
                ) && forall|s: Seq<char>| !gives(lines, peeled, s))) && forall|s: Seq<char>|
                    !gives(lines, head, s)
            }
            &&& (exists|s: Seq<char>| gives(lines, head, s)) && (forall|s: Seq<char>|
                !gives(lines, tag, s) && !gives(lines, peeled, s)) ==> named is Ok
            &&& (exists|s: Seq<char>| gives(lines, head, s)) && (exists|s: Seq<char>|
                gives(lines, tag, s)) ==> named is Err
            &&& unnamed matches Ok((sha, channel)) ==> channel == Channel::DefaultBranch && gives(
                lines,
                "HEAD"@,
                sha,
            )
            &&& (exists|s: Seq<char>| gives(lines, "HEAD"@, s)) ==> unnamed is Ok
        }),
{
    let lines = text::text_lines(out.stdout@);
    lemma_gives(lines, "refs/heads/"@ + name);
    lemma_gives(lines, "refs/tags/"@ + name);
    lemma_gives(lines, "refs/tags/"@ + name + "^{}"@);
    lemma_gives(lines, "HEAD"@);
}

/// The refs that are asked of a repository are those of the plugin's own, and
/// what comes first among several answers decides.
pub proof fn law_own_repository_is_asked(
    facts: PluginFacts,
    owner: Seq<char>,
    repo: Seq<char>,
    name: Seq<char>,
    timeout: nat,
)
    requires
        facts.owner == Some(owner),
        facts.repo == Some(repo),
        name.len() > 0,
    ensures
        ({
            let (program, args) = stage_command(facts, InspectStage::Resolve, timeout);
            let url = "https://github.com/"@ + owner + "/"@ + repo + ".git"@;
            &&& program == "git"@
            &&& args[0] == "ls-remote"@
            &&& args.contains(url)
            &&& facts.requested_ref == Some(name) ==> args[1] == url && args.contains(
                "refs/heads/"@ + name,
            ) && args.contains("refs/tags/"@ + name) && args.contains(
                "refs/tags/"@ + name + "^{}"@,
            )
            &&& facts.requested_ref is None ==> args[2] == url && args.last() == "HEAD"@
        }),
{
    let args = stage_command(facts, InspectStage::Resolve, timeout).1;
    match asked_ref(facts.requested_ref) {
        Some(asked) => {
            assert(args[1] == repository_url(owner, repo));
            assert(args[2] == "refs/heads/"@ + asked);
            assert(args[3] == "refs/tags/"@ + asked);
            assert(args[4] == "refs/tags/"@ + asked + "^{}"@);
        },
        None => {
            assert(args[2] == repository_url(owner, repo));
        },
    }
}

/// A local checkout and a source that is not GitHub's are never looked up and
/// always held, whatever the settings.
pub proof fn law_foreign_sources_are_held(plugin: InstalledPlugin, settings: config::Settings)
    requires
        plugin.source matches Some(source) ==> source.kind@ != "github"@,
    ensures
        begun(plugin).1 == InspectStage::Done,
        decided(begun(plugin).0, settings) is Hold,
        (plugin.source matches Some(source) && source.kind@ == "local"@) <==> begun(plugin).0.channel
            == Channel::Linked,
{
}

/// A GitHub plugin with valid metadata is looked up unless it is pinned to a
/// commit, and then it is held where pins are immutable. With metadata that is
/// missing or invalid it is an error.
pub proof fn law_github_plugin_is_looked_up(
    plugin: InstalledPlugin,
    source: PluginSource,
    settings: config::Settings,
)
    requires
        plugin.source == Some(source),
        source.kind@ == "github"@,
    ensures
        ({
            let (facts, stage) = begun(plugin);
            let valid = source.owner is Some && source.repo is Some && source.resolved_commit
                is Some && segment(source.owner->0@, 100) && segment(source.repo->0@, 100)
                && commit(source.resolved_commit->0@) && (source.subdir matches Some(d)
                ==> subdir(d@));
            let pinned = source.requested_ref matches Some(name) && commit(name@);
            let usable = source.requested_ref matches Some(name) ==> name@.len() == 0 || commit(
                name@,
            ) || reference(name@);
            &&& stage == InspectStage::Resolve <==> valid && usable && !pinned
            &&& !valid || !usable ==> decided(facts, settings) is Error
            &&& valid && pinned ==> facts.channel == Channel::Commit && facts.relation
                == Relation::Same && (settings.immutable_pins ==> decided(facts, settings) is Hold)
            &&& facts.plugin_id == plugin.plugin_id@
            &&& facts.installed_sha == text::opt_text(source.resolved_commit)
            &&& facts.requested_ref == text::opt_text(source.requested_ref)
        }),
{
    reveal_strlit("local");
    reveal_strlit("github");
    assert("local"@.len() != "github"@.len());
    if let Some(installed) = source.resolved_commit {
        assert(text::lowercase(text::lowercase(installed@)) =~= text::lowercase(installed@));
    }
}

/// A plugin is current exactly where nothing failed, it is managed and follows
/// a branch, and its commit is the upstream one; ahead and diverged it is held.
pub proof fn law_relation_decides(state: PluginFacts, settings: config::Settings)
    requires
        state.error is None,
        state.channel == Channel::Branch || state.channel == Channel::DefaultBranch,
        state.owner is Some && state.repo is Some,
    ensures
        decided(state, settings) is Current <==> state.relation == Relation::Same || state.relation
            == Relation::NotApplicable,
        state.relation == Relation::Ahead || state.relation == Relation::Diverged ==> decided(
            state,
            settings,
        ) is Hold,
        state.relation == Relation::Behind ==> decided(state, settings) is Update || decided(
            state,
            settings,
        ) is Hold,
        decided(state, settings) is Error <==> state.relation == Relation::RateLimited
            || state.relation == Relation::Unknown,
{
}

/// A response is taken apart where it was put together: the body, a line end,
/// and the status.
pub proof fn law_response_splits_at_its_status(body: Seq<char>, code: nat)
    requires
        code <= 65_535,
    ensures
        status_split(body + seq!['\n'] + text::decimal(code)) == (body, Some(code)),
{
    let d = text::decimal(code);
    let s = body + seq!['\n'] + d;
    text::law_decimal_reads_back(code, 65_535);
    assert(text::is_digit(d[0]) && text::is_digit(d[d.len() - 1]));
    assert(s.last() == d.last());
    text::lemma_drop_class(s, CharClass::Whitespace);
    assert(text::drop_class(s, CharClass::Whitespace) == s);
    assert forall|i: int| body.len() + 1 <= i < s.len() implies s[i] != '\n' by {
        assert(text::is_digit(d[i - body.len() - 1]));
    }
    assert(s[body.len() as int] == '\n');
    text::lemma_last_after_is(s, '\n', body.len() as int + 1);
    assert(s.take(body.len() as int) =~= body);
    assert(s.skip(body.len() as int + 1) =~= d);
    text::lemma_strip_nothing(d, CharClass::Whitespace);
}

/// A refusal for the budget is recognised by any of GitHub's wordings, in any
/// case and wherever it stands.
pub proof fn law_budget_refusals_are_recognised(
    before: Seq<char>,
    said: Seq<char>,
    behind: Seq<char>,
)
    requires
        text::lowercase(said) == "rate limit"@ || text::lowercase(said) == "secondary rate"@
            || text::lowercase(said) == "api limit"@ || text::lowercase(said) == "abuse detection"@,
    ensures
        names_rate_limit(before + said + behind),
{
    let low = text::lowercase(before + said + behind);
    let at = before.len() as int;
    assert(low.subrange(at, at + said.len()) =~= text::lowercase(said));
    assert(text::occurs_at(low, text::lowercase(said), at));
}

proof fn lemma_first_of(plugins: Seq<InstalledPlugin>, id: Seq<char>)
    ensures
        first_of(plugins, id) matches Some(p) ==> p.plugin_id@ == id && plugins.contains(p),
        first_of(plugins, id) is None <==> forall|i: int|
            0 <= i < plugins.len() ==> (#[trigger] plugins[i]).plugin_id@ != id,
    decreases plugins.len(),
{
    if plugins.len() > 0 {
        let rest = plugins.drop_first();
        lemma_first_of(rest, id);
        if plugins[0].plugin_id@ == id {
            assert(plugins.contains(plugins[0]));
        } else {
            if let Some(p) = first_of(rest, id) {
                let i = choose|i: int| 0 <= i < rest.len() && rest[i] == p;
                assert(plugins[i + 1] == p);
            } else {
                assert forall|i: int| 0 <= i < plugins.len() implies (
                #[trigger] plugins[i]).plugin_id@ != id by {
                    if i > 0 {
                        assert(rest[i - 1] == plugins[i]);
                    }
                }
            }
            if forall|i: int|
                0 <= i < plugins.len() ==> (#[trigger] plugins[i]).plugin_id@ != id {
                assert forall|i: int| 0 <= i < rest.len() implies (
                #[trigger] rest[i]).plugin_id@ != id by {
                    assert(plugins[i + 1] == rest[i]);
                }
            }
        }
    }
}

/// An install only counts as verified where the registry then has the plugin at
/// the commit that was asked for; and where it has it only so, it counts.
pub proof fn law_verified_means_at_the_commit(
    plugins: Seq<InstalledPlugin>,
    id: Seq<char>,
    expected: Seq<char>,
)
    ensures
        verify_failure(plugins, id, expected) is None ==> exists|i: int|
            0 <= i < plugins.len() && (#[trigger] plugins[i]).plugin_id@ == id && (
            plugins[i].source matches Some(s) && s.resolved_commit is Some && text::lowercase(
                s.resolved_commit->0@,
            ) == text::lowercase(expected)),
        (exists|i: int| 0 <= i < plugins.len() && (#[trigger] plugins[i]).plugin_id@ == id) && (
        forall|i: int|
            0 <= i < plugins.len() && (#[trigger] plugins[i]).plugin_id@ == id ==> (
            plugins[i].source matches Some(s) && s.resolved_commit is Some
                && s.resolved_commit->0@ == expected)) ==> verify_failure(
            plugins,
            id,
            expected,
        ) is None,
{
    lemma_first_of(plugins, id);
    if let Some(p) = first_of(plugins, id) {
        let i = choose|i: int| 0 <= i < plugins.len() && plugins[i] == p;
        assert(plugins[i].plugin_id@ == id);
    }
}

/// Asking for one plugin inspects every entry of that id and nothing else.
pub proof fn law_only_selects_by_id(plugins: Seq<InstalledPlugin>, id: Seq<char>)
    ensures
        selected(plugins, None) == plugins,
        forall|i: int|
            0 <= i < selected(plugins, Some(id)).len() ==> (#[trigger] selected(
                plugins,
                Some(id),
            )[i]).plugin_id@ == id,
        forall|i: int|
            0 <= i < plugins.len() && (#[trigger] plugins[i]).plugin_id@ == id ==> selected(
                plugins,
                Some(id),
            ).contains(plugins[i]),
    decreases plugins.len(),
{
    reveal(Seq::filter);
    let keep = |plugin: InstalledPlugin| plugin.plugin_id@ == id;
    if plugins.len() > 0 {
        let rest = plugins.drop_last();
        law_only_selects_by_id(rest, id);
        let a = rest.filter(keep);
        let b = plugins.filter(keep);
        assert(selected(plugins, Some(id)) == b && selected(rest, Some(id)) == a);
        assert(b == if keep(plugins.last()) {
            a.push(plugins.last())
        } else {
            a
        });
        assert forall|i: int| 0 <= i < b.len() implies (#[trigger] b[i]).plugin_id@ == id by {
            if i < a.len() {
                assert(a[i] == selected(rest, Some(id))[i]);
            }
        }
        assert forall|i: int|
            0 <= i < plugins.len() && (#[trigger] plugins[i]).plugin_id@ == id implies b.contains(
            plugins[i],
        ) by {
            if i < rest.len() {
                assert(rest[i] == plugins[i]);
                let k = choose|k: int| 0 <= k < a.len() && a[k] == plugins[i];
                assert(b[k] == plugins[i]);
            } else {
                assert(b[b.len() - 1] == plugins[i]);
            }
        }
    }
}

/// A reinstall names the plugin's own repository and directory, the ref that
/// was asked for, and asks nothing.
pub proof fn law_reinstall_names_its_source(
    state: PluginFacts,
    owner: Seq<char>,
    repo: Seq<char>,
    reference_name: Seq<char>,
)
    requires
        state.owner == Some(owner),
        state.repo == Some(repo),
    ensures
        state.subdir is None ==> source_text(state) == Some(owner + "/"@ + repo),
        state.subdir matches Some(dir) ==> source_text(state) == Some(
            owner + "/"@ + repo + "/"@ + dir,
        ),
        source_fault(source_text(state)->0) is None && reference(reference_name)
            ==> install_command(source_text(state)->0, Some(reference_name), true) == Ok::<
            Seq<Seq<char>>,
            Seq<char>,
        >(
            seq![
                "plugin"@,
                "install"@,
                source_text(state)->0,
                "--ref"@,
                reference_name,
                "--yes"@,
            ],
        ),
        !reference(reference_name) ==> install_command(
            source_text(state)->0,
            Some(reference_name),
            true,
        ) is Err,
{
    let base = seq!["plugin"@, "install"@, source_text(state)->0];
    assert(base.push("--ref"@).push(reference_name).push("--yes"@) =~= seq![
        "plugin"@,
        "install"@,
        source_text(state)->0,
        "--ref"@,
        reference_name,
        "--yes"@,
    ]);
}

/// What an install came to is the commit that the registry then has for the
/// plugin, and where one was expected that very one, or an error.
pub proof fn law_install_settles_on_the_registry(
    plugins: Seq<InstalledPlugin>,
    id: Seq<char>,
    expected: Seq<char>,
)
    ensures
        commit_after(plugins, id, None) matches Ok(commit) ==> exists|i: int|
            0 <= i < plugins.len() && (#[trigger] plugins[i]).plugin_id@ == id && commit_of(
                plugins[i],
            ) == Some(commit),
        commit_after(plugins, id, Some(expected)) is Ok <==> verify_failure(plugins, id, expected)
            is None,
        commit_after(plugins, id, Some(expected)) matches Ok(commit) ==> commit == expected && exists|
            i: int,
        |
            0 <= i < plugins.len() && (#[trigger] plugins[i]).plugin_id@ == id && commit_of(
                plugins[i],
            ) is Some && text::lowercase(commit_of(plugins[i])->0) == text::lowercase(expected),
        (forall|i: int| 0 <= i < plugins.len() ==> (#[trigger] plugins[i]).plugin_id@ != id)
            ==> commit_after(plugins, id, None) is Err,
{
    lemma_first_of(plugins, id);
    if let Some(p) = first_of(plugins, id) {
        let i = choose|i: int| 0 <= i < plugins.len() && plugins[i] == p;
        assert(plugins[i].plugin_id@ == id);
    }
}

/// A full commit is forty or sixty-four hexadecimal digits, and nothing else.
pub proof fn law_commits_are_full(value: Seq<char>)
    ensures
        commit(value) <==> (value.len() == 40 || value.len() == 64) && forall|i: int|
            0 <= i < value.len() ==> '0' <= #[trigger] value[i] <= '9' || 'a' <= value[i] <= 'f'
                || 'A' <= value[i] <= 'F',
{
    if text::all_in(value, CharClass::Hex) {
        assert forall|i: int| 0 <= i < value.len() implies #[trigger] value[i] <= '\u{7f}' by {
            assert(CharClass::Hex.holds(value[i]));
        }
        text::lemma_ascii_len(value);
        assert forall|i: int| 0 <= i < value.len() implies '0' <= #[trigger] value[i] <= '9' || 'a'
            <= value[i] <= 'f' || 'A' <= value[i] <= 'F' by {
            assert(CharClass::Hex.holds(value[i]));
        }
    } else {
        if forall|i: int|
            0 <= i < value.len() ==> '0' <= #[trigger] value[i] <= '9' || 'a' <= value[i] <= 'f'
                || 'A' <= value[i] <= 'F' {
            assert forall|i: int| 0 <= i < value.len() implies CharClass::Hex.holds(
                #[trigger] value[i],
            ) by {
                assert('0' <= value[i] <= '9' || 'a' <= value[i] <= 'f' || 'A' <= value[i] <= 'F');
            }
        }
    }
}

/// Owners and repositories are plain names of a bounded length: letters, digits,
/// `-`, `_` and `.`, and no relative path.
pub proof fn law_segments_are_plain_names(value: Seq<char>, max: nat)
    ensures
        segment(value, max) <==> 0 < value.len() <= max && value != "."@ && value != ".."@ && forall|
            i: int,
        |
            0 <= i < value.len() ==> text::is_alphanumeric(#[trigger] value[i]) || value[i] == '-'
                || value[i] == '_' || value[i] == '.',
{
    let plain = forall|i: int|
        0 <= i < value.len() ==> text::is_alphanumeric(#[trigger] value[i]) || value[i] == '-'
            || value[i] == '_' || value[i] == '.';
    if text::all_in(value, CharClass::Segment) {
        assert forall|i: int| 0 <= i < value.len() implies text::is_alphanumeric(
            #[trigger] value[i],
        ) || value[i] == '-' || value[i] == '_' || value[i] == '.' by {
            assert(CharClass::Segment.holds(value[i]));
        }
    }
    if plain {
        assert forall|i: int| 0 <= i < value.len() implies #[trigger] value[i] <= '\u{7f}' by {
            assert(text::is_alphanumeric(value[i]) || value[i] == '-' || value[i] == '_' || value[i]
                == '.');
        }
        text::lemma_ascii_len(value);
        assert forall|i: int| 0 <= i < value.len() implies CharClass::Segment.holds(
            #[trigger] value[i],
        ) by {
            assert(text::is_alphanumeric(value[i]) || value[i] == '-' || value[i] == '_' || value[i]
                == '.');
        }
    }
}

/// The source of a valid owner and repository is valid, and a source without
/// either is not.
pub proof fn law_owner_and_repository_make_a_source(owner: Seq<char>, repo: Seq<char>)
    requires
        segment(owner, 100),
        segment(repo, 100),
    ensures
        source_fault(owner + "/"@ + repo) is None,
        source_fault(owner) is Some,
{
    law_segments_are_plain_names(owner, 100);
    law_segments_are_plain_names(repo, 100);
    reveal_strlit("/");
    let s = owner + "/"@ + repo;
    assert forall|i: int| 0 <= i < s.len() implies #[trigger] s[i] <= '\u{7f}' by {
        if i < owner.len() {
            assert(s[i] == owner[i]);
            assert(text::is_alphanumeric(owner[i]) || owner[i] == '-' || owner[i] == '_' || owner[i]
                == '.');
        } else if i > owner.len() {
            assert(s[i] == repo[i - owner.len() - 1]);
            let c = repo[i - owner.len() - 1];
            assert(text::is_alphanumeric(c) || c == '-' || c == '_' || c == '.');
        }
    }
    text::lemma_ascii_len(s);
    assert(s[0] == owner[0]);
    let c = owner[0];
    assert(text::is_alphanumeric(c) || c == '-' || c == '_' || c == '.');
    assert forall|i: int| 0 <= i < owner.len() implies s[i] != '/' && owner[i] != '/' by {
        assert(s[i] == owner[i]);
        assert(text::is_alphanumeric(owner[i]) || owner[i] == '-' || owner[i] == '_' || owner[i]
            == '.');
    }
    assert forall|i: int| 0 <= i < repo.len() implies repo[i] != '/' by {
        assert(text::is_alphanumeric(repo[i]) || repo[i] == '-' || repo[i] == '_' || repo[i]
            == '.');
    }
    assert(s[owner.len() as int] == '/');
    text::lemma_find_char_is(s, '/', owner.len() as int);
    assert(s.take(owner.len() as int) =~= owner);
    assert(s.skip(owner.len() as int + 1) =~= repo);
    text::lemma_find_char_is(repo, '/', repo.len() as int);
    text::lemma_find_char_is(owner, '/', owner.len() as int);
    assert(text::split_at_char(repo, '/') =~= seq![repo]);
    let parts = text::split_at_char(s, '/');
    assert(parts =~= seq![owner, repo]);
    assert(parts.skip(2) =~= seq![]);
    assert(text::split_at_char(owner, '/') =~= seq![owner]);
}

/// An install and what follows it succeed exactly where the program they run
/// ended with 0.
pub proof fn law_install_succeeds_with_zero(
    inherited: Result<i32, ExecError>,
    run: Result<Output, ExecError>,
)
    ensures
        inherited_failure(inherited) is None <==> inherited == Ok::<i32, ExecError>(0),
        discovery_failure(run) is None <==> (run matches Ok(out) && out.code == 0),
{
}

/// A plugin is installed again exactly from its owner's repository, at the
/// wanted reference and without a question; one without a repository is not.
pub proof fn law_plugins_are_reinstalled_from_where_they_came(
    state: PluginFacts,
    reference_name: Seq<char>,
)
    ensures
        state.owner is None || state.repo is None ==> reinstall_command(
            state,
            Some(reference_name),
        ) is Err,
        reinstall_command(state, Some(reference_name)) matches Ok(args) ==> args.len() == 6
            && state.owner is Some && state.repo is Some && source_text(state) == Some(args[2])
            && args[0] == "plugin"@ && args[1] == "install"@ && args[3] == "--ref"@ && args[4]
            == reference_name && args[5] == "--yes"@,
        reinstall_command(state, None) matches Ok(args) ==> args.len() == 4 && source_text(state)
            == Some(args[2]) && args[3] == "--yes"@,
{
}

/// Every plugin that is installed is inspected, once and in order, where none
/// was named; where one was, an inspection begins exactly if it is installed.
pub proof fn law_every_plugin_is_inspected(
    installed: Seq<InstalledPlugin>,
    only: Option<Seq<char>>,
    r: Result<Vec<Inspecting>, String>,
    i: int,
)
    requires
        inspections_begin(installed, only, r),
        0 <= i < installed.len(),
    ensures
        only is None ==> r is Ok && r->Ok_0@.len() == installed.len() && r->Ok_0@[i].state@.plugin_id
            == installed[i].plugin_id@,
        only matches Some(id) ==> installed[i].plugin_id@ == id ==> r is Ok && r->Ok_0@.len() > 0,
        only matches Some(id) ==> (forall|k: int|
            0 <= k < installed.len() ==> (#[trigger] installed[k]).plugin_id@ != id) ==> r is Err,
        r matches Err(e) ==> only is Some && e@ == "plugin "@ + text::debug_text(only->0)
            + " is not installed"@,
{
    if let Some(id) = only {
        law_only_selects_by_id(installed, id);
        let chosen = selected(installed, Some(id));
        if installed[i].plugin_id@ == id {
            assert(chosen.contains(installed[i]));
        }
        if chosen.len() > 0 && (forall|k: int|
            0 <= k < installed.len() ==> (#[trigger] installed[k]).plugin_id@ != id) {
            assert(chosen[0].plugin_id@ == id);
            lemma_selected_are_installed(installed, id, 0);
        }
    } else {
        law_only_selects_by_id(installed, seq![]);
        let all = r->Ok_0@;
        assert((all[i].state@, all[i].stage) == begun(installed[i]));
    }
}

proof fn lemma_selected_are_installed(plugins: Seq<InstalledPlugin>, id: Seq<char>, k: int)
    requires
        0 <= k < selected(plugins, Some(id)).len(),
    ensures
        exists|i: int|
            0 <= i < plugins.len() && #[trigger] plugins[i] == selected(plugins, Some(id))[k],
    decreases plugins.len(),
{
    reveal(Seq::filter);
    if plugins.len() > 0 {
        let before = selected(plugins.drop_last(), Some(id));
        if k < before.len() {
            lemma_selected_are_installed(plugins.drop_last(), id, k);
            let i = choose|i: int|
                0 <= i < plugins.drop_last().len() && #[trigger] plugins.drop_last()[i] == before[k];
            assert(plugins[i] == before[k]);
        } else {
            assert(plugins[plugins.len() - 1] == plugins.last());
        }
    }
}

/// A sorted list holds every state, and goes by the ids.
pub proof fn law_states_go_by_id(states: Seq<PluginState>, sorted: Seq<usize>, a: int, b: int)
    requires
        order::stable_order(sorted, id_order(states), states.len()),
        0 <= a < b < states.len(),
    ensures
        ({
            let listed = order::arranged(states, sorted);
            &&& listed.len() == states.len()
            &&& !text::precedes(listed[b].plugin_id@, listed[a].plugin_id@)
        }),
{
    assert(order::belongs_before(id_order(states), sorted[a] as int, sorted[b] as int));
}

/// An empty reference is none: the default branch is asked for and resolved.
pub proof fn law_empty_ref_is_the_default_branch(
    owner: Seq<char>,
    repo: Seq<char>,
    out: Output,
)
    requires
        out.code == 0,
    ensures
        resolved(Some(seq![]), Ok(out)) == resolved(None, Ok(out)),
        resolve_args(owner, repo, Some(seq![])) == resolve_args(owner, repo, None),
        listed_sha(out.stdout@, "HEAD"@) matches Some(sha) ==> resolved(None, Ok(out)) == Ok::<
            (Seq<char>, Channel),
            Seq<char>,
        >((sha, Channel::DefaultBranch)),
        resolve_args(owner, repo, None).last() == "HEAD"@,
{
}

} // verus!
