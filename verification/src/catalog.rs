//! The marketplace: reading its snapshot, searching it, and picking from it.

use crate::duration::Duration;
use crate::exec::{self, ExecError, Output};
use crate::herdr;
use crate::order;
use crate::plugins::{self, InstalledPlugin};
use crate::text::{self, CharClass};
use crate::textmap::TextMap;
use vstd::prelude::*;
use vstd::string::*;

verus! {

pub const MARKETPLACE_URL: &'static str = "https://assets.herdr.dev/plugins/index.json";

pub const CACHE_FILE: &'static str = "marketplace-v1.json";

pub const MAX_SNAPSHOT_BYTES: u64 = 16_777_216;

pub const MAX_REPOSITORIES: usize = 5_000;

pub const MAX_MANIFESTS_PER_REPOSITORY: usize = 100;

pub const MAX_RESULTS: usize = 500;

/// The marketplace snapshot as it is published.
#[derive(Debug)]
pub struct Snapshot {
    pub schema_version: u32,
    pub generated_at: String,
    pub plugins: Vec<Repository>,
}

#[derive(Debug)]
pub struct Repository {
    pub full_name: String,
    pub owner: String,
    pub name: String,
    pub description: Option<String>,
    pub url: String,
    pub stars: u64,
    pub language: Option<String>,
    pub pushed_at: Option<String>,
    pub head_commit: String,
    pub stars_delta_7d: Option<i64>,
    pub manifests: Vec<Manifest>,
}

#[derive(Debug)]
pub struct Manifest {
    pub path: String,
    pub id: String,
    pub name: String,
    pub version: String,
    pub min_herdr_version: String,
    pub description: Option<String>,
    pub platforms: Option<Vec<String>>,
}

#[derive(Debug)]
pub struct CatalogItem {
    pub plugin_id: String,
    pub name: String,
    pub version: String,
    pub min_herdr_version: String,
    pub description: Option<String>,
    pub platforms: Option<Vec<String>>,
    pub source: String,
    pub repository: String,
    pub repository_url: String,
    pub head_commit: String,
    pub stars: u64,
    pub stars_delta_7d: Option<i64>,
    pub language: Option<String>,
    pub pushed_at: Option<String>,
}

/// What an item says.
pub struct Listing {
    pub plugin_id: Seq<char>,
    pub name: Seq<char>,
    pub version: Seq<char>,
    pub min_herdr_version: Seq<char>,
    pub description: Option<Seq<char>>,
    pub platforms: Option<Seq<Seq<char>>>,
    pub source: Seq<char>,
    pub repository: Seq<char>,
    pub repository_url: Seq<char>,
    pub head_commit: Seq<char>,
    pub stars: u64,
    pub stars_delta_7d: Option<i64>,
    pub language: Option<Seq<char>>,
    pub pushed_at: Option<Seq<char>>,
}

pub open spec fn opt_texts(v: Option<Vec<String>>) -> Option<Seq<Seq<char>>> {
    match v {
        Some(list) => Some(text::texts(list@)),
        None => None,
    }
}

impl View for CatalogItem {
    type V = Listing;

    open spec fn view(&self) -> Listing {
        Listing {
            plugin_id: self.plugin_id@,
            name: self.name@,
            version: self.version@,
            min_herdr_version: self.min_herdr_version@,
            description: text::opt_text(self.description),
            platforms: opt_texts(self.platforms),
            source: self.source@,
            repository: self.repository@,
            repository_url: self.repository_url@,
            head_commit: self.head_commit@,
            stars: self.stars,
            stars_delta_7d: self.stars_delta_7d,
            language: text::opt_text(self.language),
            pushed_at: text::opt_text(self.pushed_at),
        }
    }
}

impl Clone for CatalogItem {
    fn clone(&self) -> (r: Self)
        ensures
            r@ == self@,
    {
        CatalogItem {
            plugin_id: self.plugin_id.clone(),
            name: self.name.clone(),
            version: self.version.clone(),
            min_herdr_version: self.min_herdr_version.clone(),
            description: text::clone_option(&self.description),
            platforms: clone_lists(&self.platforms),
            source: self.source.clone(),
            repository: self.repository.clone(),
            repository_url: self.repository_url.clone(),
            head_commit: self.head_commit.clone(),
            stars: self.stars,
            stars_delta_7d: self.stars_delta_7d,
            language: text::clone_option(&self.language),
            pushed_at: text::clone_option(&self.pushed_at),
        }
    }
}

fn clone_lists(v: &Option<Vec<String>>) -> (r: Option<Vec<String>>)
    ensures
        opt_texts(r) == opt_texts(*v),
{
    match v {
        Some(list) => Some(text::clone_list(list)),
        None => None,
    }
}

pub open spec fn listings(items: Seq<CatalogItem>) -> Seq<Listing> {
    Seq::new(items.len(), |i: int| items[i]@)
}

#[derive(Debug)]
pub struct Catalog {
    pub generated_at: String,
    pub items: Vec<CatalogItem>,
    pub stale: bool,
    pub source: &'static str,
}

// ---------------------------------------------------------------------------
// Validation

/// A version as the marketplace states requirements: three numbers, after an
/// optional `v`, before anything behind a `-` or a `+`.
pub open spec fn plain_version(value: Seq<char>) -> Option<(nat, nat, nat)> {
    let t = if value.len() > 0 && value[0] == 'v' {
        value.drop_first()
    } else {
        value
    };
    let t = t.take(text::find_char(t, '-') as int);
    let t = t.take(text::find_char(t, '+') as int);
    let parts = text::split_at_char(t, '.');
    if parts.len() == 3 {
        match (
            text::parsed_number(parts[0], u64::MAX as nat),
            text::parsed_number(parts[1], u64::MAX as nat),
            text::parsed_number(parts[2], u64::MAX as nat),
        ) {
            (Some(a), Some(b), Some(c)) => Some((a, b, c)),
            _ => None,
        }
    } else {
        None
    }
}

pub open spec fn version_at_least(a: (nat, nat, nat), b: (nat, nat, nat)) -> bool {
    a.0 > b.0 || (a.0 == b.0 && (a.1 > b.1 || (a.1 == b.1 && a.2 >= b.2)))
}

fn before_char<'a>(s: &'a str, c: char) -> (r: &'a str)
    ensures
        r@ == s@.take(text::find_char(s@, c) as int),
{
    let n = text::position_of(s, c);
    proof {
        text::lemma_find_char(s@, c);
    }
    let r = s.substring_char(0, n);
    assert(r@ =~= s@.take(n as int));
    r
}

fn parse_version(value: &str) -> (r: Option<(u64, u64, u64)>)
    ensures
        match r {
            Some((a, b, c)) => plain_version(value@) == Some((a as nat, b as nat, c as nat)),
            None => plain_version(value@) is None,
        },
{
    let count = value.unicode_len();
    let value = if count > 0 && value.get_char(0) == 'v' {
        let rest = value.substring_char(1, count);
        assert(rest@ =~= value@.drop_first());
        rest
    } else {
        value
    };
    let core = before_char(before_char(value, '-'), '+');
    let parts = text::split(core, '.');
    assert(text::texts(parts@).len() == parts.len());
    if parts.len() != 3 {
        return None;
    }
    assert(text::texts(parts@)[0] == parts@[0]@);
    assert(text::texts(parts@)[1] == parts@[1]@);
    assert(text::texts(parts@)[2] == parts@[2]@);
    match (
        text::parse_number(parts[0].as_str(), u64::MAX),
        text::parse_number(parts[1].as_str(), u64::MAX),
        text::parse_number(parts[2].as_str(), u64::MAX),
    ) {
        (Some(a), Some(b), Some(c)) => Some((a, b, c)),
        _ => None,
    }
}

/// A Herdr version meets a requirement. A requirement that cannot be read is
/// never met; a version that cannot be read is given the benefit of the doubt.
pub open spec fn compatible(current: Option<Seq<char>>, minimum: Seq<char>) -> bool {
    match plain_version(minimum) {
        None => false,
        Some(least) => match current {
            None => true,
            Some(value) => match plain_version(value) {
                None => true,
                Some(now) => version_at_least(now, least),
            },
        },
    }
}

pub fn compatible_with(current: Option<&str>, minimum: &str) -> (r: bool)
    ensures
        r == compatible(text::opt_str(current), minimum@),
{
    let least = match parse_version(minimum) {
        Some(least) => least,
        None => {
            return false;
        },
    };
    let now = match current {
        Some(value) => match parse_version(value) {
            Some(now) => now,
            None => {
                return true;
            },
        },
        None => {
            return true;
        },
    };
    now.0 > least.0 || (now.0 == least.0 && (now.1 > least.1 || (now.1 == least.1 && now.2
        >= least.2)))
}

pub open spec fn longer_than(v: Option<String>, max: nat) -> bool {
    v matches Some(s) && text::utf8_len(s@) > max
}

fn too_long(v: &Option<String>, max: usize) -> (r: bool)
    ensures
        r == longer_than(*v, max as nat),
{
    match v {
        Some(s) => text::byte_len(s.as_str()) > max,
        None => false,
    }
}

/// What is wrong with a repository.
pub open spec fn repository_fault(repository: Repository) -> Option<Seq<char>> {
    let owner = repository.owner@;
    let name = repository.name@;
    let full = repository.full_name@;
    if !plugins::segment(owner, 100) || !plugins::segment(name, 100) || full != owner + "/"@ + name
        || text::utf8_len(full) > 201 || !plugins::commit(repository.head_commit@) {
        Some("marketplace repository metadata failed validation"@)
    } else if repository.url@ != "https://github.com/"@ + owner + "/"@ + name {
        Some(full + " has a non-canonical repository URL"@)
    } else if longer_than(repository.description, 1_000) || longer_than(repository.language, 100)
        || longer_than(repository.pushed_at, 64) {
        Some(full + " metadata is too large"@)
    } else {
        None
    }
}

fn validate_repository(repository: &Repository) -> (r: Result<(), String>)
    ensures
        match r {
            Ok(()) => repository_fault(*repository) is None,
            Err(e) => repository_fault(*repository) == Some(e@),
        },
{
    let owner = repository.owner.as_str();
    let name = repository.name.as_str();
    let full = repository.full_name.as_str();
    let expected = owner.to_string().concat("/").concat(name);
    if !plugins::valid_segment(owner, 100) || !plugins::valid_segment(name, 100) || !text::text_eq(
        full,
        expected.as_str(),
    ) || text::byte_len(full) > 201 || !plugins::full_commit(repository.head_commit.as_str()) {
        return Err("marketplace repository metadata failed validation".to_string());
    }
    let url = "https://github.com/".to_string().concat(owner).concat("/").concat(name);
    if !text::text_eq(repository.url.as_str(), url.as_str()) {
        return Err(full.to_string().concat(" has a non-canonical repository URL"));
    }
    if too_long(&repository.description, 1_000) || too_long(&repository.language, 100) || too_long(
        &repository.pushed_at,
        64,
    ) {
        return Err(full.to_string().concat(" metadata is too large"));
    }
    Ok(())
}

pub open spec fn known_platform(name: Seq<char>) -> bool {
    name == "linux"@ || name == "macos"@ || name == "windows"@
}

pub open spec fn platforms_valid(platforms: Seq<Seq<char>>) -> bool {
    0 < platforms.len() <= 3 && forall|i: int|
        0 <= i < platforms.len() ==> known_platform(#[trigger] platforms[i])
}

/// What is wrong with a manifest.
pub open spec fn manifest_fault(manifest: Manifest) -> Option<Seq<char>> {
    if manifest.id@.len() == 0 || text::utf8_len(manifest.id@) > 120 || !text::all_in(
        manifest.id@,
        CharClass::PluginId,
    ) || text::trimmed(manifest.name@).len() == 0 || text::utf8_len(manifest.name@) > 120
        || text::trimmed(manifest.version@).len() == 0 || text::utf8_len(manifest.version@) > 64
        || plain_version(manifest.min_herdr_version@) is None || longer_than(
        manifest.description,
        1_000,
    ) {
        Some("marketplace manifest metadata failed validation"@)
    } else if opt_texts(manifest.platforms) matches Some(platforms) && !platforms_valid(platforms) {
        Some(manifest.id@ + " has invalid platforms"@)
    } else {
        None
    }
}

fn valid_platforms(platforms: &Vec<String>) -> (r: bool)
    ensures
        r == platforms_valid(text::texts(platforms@)),
{
    let ghost all = text::texts(platforms@);
    if platforms.len() == 0 || platforms.len() > 3 {
        return false;
    }
    let mut i: usize = 0;
    while i < platforms.len()
        invariant
            i <= platforms.len(),
            all == text::texts(platforms@),
            forall|k: int| 0 <= k < i ==> known_platform(#[trigger] all[k]),
        decreases platforms.len() - i,
    {
        let name = platforms[i].as_str();
        assert(all[i as int] == name@);
        if !text::text_eq(name, "linux") && !text::text_eq(name, "macos") && !text::text_eq(
            name,
            "windows",
        ) {
            return false;
        }
        i = i + 1;
    }
    true
}

fn validate_manifest(manifest: &Manifest) -> (r: Result<(), String>)
    ensures
        match r {
            Ok(()) => manifest_fault(*manifest) is None,
            Err(e) => manifest_fault(*manifest) == Some(e@),
        },
{
    let id = manifest.id.as_str();
    let name = manifest.name.as_str();
    let version = manifest.version.as_str();
    if id.unicode_len() == 0 || text::byte_len(id) > 120 || !text::text_all_in(
        id,
        CharClass::PluginId,
    ) || text::trim(name).unicode_len() == 0 || text::byte_len(name) > 120 || text::trim(
        version,
    ).unicode_len() == 0 || text::byte_len(version) > 64 || parse_version(
        manifest.min_herdr_version.as_str(),
    ).is_none() || too_long(&manifest.description, 1_000) {
        return Err("marketplace manifest metadata failed validation".to_string());
    }
    if let Some(platforms) = &manifest.platforms {
        if !valid_platforms(platforms) {
            return Err(id.to_string().concat(" has invalid platforms"));
        }
    }
    Ok(())
}

/// The directory of a manifest that does not stand at the root of its
/// repository.
pub open spec fn manifest_dir(path: Seq<char>) -> Option<Seq<char>> {
    if text::finishes_with(path, "/herdr-plugin.toml"@) {
        Some(path.take(path.len() - "/herdr-plugin.toml"@.len()))
    } else {
        None
    }
}

/// The source that installs what a manifest describes, or what is wrong.
pub open spec fn manifest_source(owner: Seq<char>, repo: Seq<char>, path: Seq<char>) -> Result<
    Seq<char>,
    Seq<char>,
> {
    let base = owner + "/"@ + repo;
    let source = if path == "herdr-plugin.toml"@ {
        Some(base)
    } else {
        match manifest_dir(path) {
            Some(dir) if plugins::subdir(dir) => Some(base + "/"@ + dir),
            _ => None,
        }
    };
    match source {
        None => Err("marketplace manifest path is invalid"@),
        Some(value) => match plugins::source_fault(value) {
            Some(fault) => Err(fault),
            None => Ok(value),
        },
    }
}

pub fn install_source(owner: &str, repo: &str, manifest_path: &str) -> (r: Result<String, String>)
    ensures
        match manifest_source(owner@, repo@, manifest_path@) {
            Ok(source) => r matches Ok(s) && s@ == source,
            Err(error) => r matches Err(e) && e@ == error,
        },
{
    let mut source = owner.to_string().concat("/").concat(repo);
    if !text::text_eq(manifest_path, "herdr-plugin.toml") {
        if !text::ends_with(manifest_path, "/herdr-plugin.toml") {
            return Err("marketplace manifest path is invalid".to_string());
        }
        let keep = manifest_path.unicode_len() - "/herdr-plugin.toml".unicode_len();
        let dir = manifest_path.substring_char(0, keep);
        assert(dir@ =~= manifest_path@.take(
            manifest_path@.len() - "/herdr-plugin.toml"@.len(),
        ));
        if !plugins::valid_subdir(dir) {
            return Err("marketplace manifest path is invalid".to_string());
        }
        source = source.concat("/").concat(dir);
    }
    match plugins::validate_source(source.as_str()) {
        Ok(()) => Ok(source),
        Err(e) => Err(e),
    }
}

/// The item that a manifest makes.
pub open spec fn manifest_item(repository: Repository, manifest: Manifest) -> Result<
    Listing,
    Seq<char>,
> {
    match manifest_fault(manifest) {
        Some(fault) => Err(fault),
        None => match manifest_source(repository.owner@, repository.name@, manifest.path@) {
            Err(error) => Err(error),
            Ok(source) => Ok(
                Listing {
                    plugin_id: manifest.id@,
                    name: manifest.name@,
                    version: manifest.version@,
                    min_herdr_version: manifest.min_herdr_version@,
                    description: if manifest.description is Some {
                        text::opt_text(manifest.description)
                    } else {
                        text::opt_text(repository.description)
                    },
                    platforms: opt_texts(manifest.platforms),
                    source,
                    repository: repository.full_name@,
                    repository_url: repository.url@,
                    head_commit: repository.head_commit@,
                    stars: repository.stars,
                    stars_delta_7d: repository.stars_delta_7d,
                    language: text::opt_text(repository.language),
                    pushed_at: text::opt_text(repository.pushed_at),
                },
            ),
        },
    }
}

/// The items of some manifests of a repository, or the first fault.
pub open spec fn manifest_items(repository: Repository, manifests: Seq<Manifest>) -> Result<
    Seq<Listing>,
    Seq<char>,
>
    decreases manifests.len(),
{
    if manifests.len() == 0 {
        Ok(seq![])
    } else {
        match manifest_items(repository, manifests.drop_last()) {
            Err(error) => Err(error),
            Ok(items) => match manifest_item(repository, manifests.last()) {
                Err(error) => Err(error),
                Ok(item) => Ok(items.push(item)),
            },
        }
    }
}

/// The items of a repository, or what is wrong with it.
pub open spec fn repository_items(repository: Repository) -> Result<Seq<Listing>, Seq<char>> {
    match repository_fault(repository) {
        Some(fault) => Err(fault),
        None => if repository.manifests@.len() > MAX_MANIFESTS_PER_REPOSITORY {
            Err(repository.full_name@ + " contains too many manifests"@)
        } else {
            manifest_items(repository, repository.manifests@)
        },
    }
}

/// The items of some repositories, or the first fault.
pub open spec fn all_items(repositories: Seq<Repository>) -> Result<Seq<Listing>, Seq<char>>
    decreases repositories.len(),
{
    if repositories.len() == 0 {
        Ok(seq![])
    } else {
        match all_items(repositories.drop_last()) {
            Err(error) => Err(error),
            Ok(items) => match repository_items(repositories.last()) {
                Err(error) => Err(error),
                Ok(more) => Ok(items + more),
            },
        }
    }
}

/// What a snapshot comes to: when it was made and its items, or what is wrong.
pub open spec fn snapshot_items(bytes: nat, parsed: Result<Snapshot, String>) -> Result<
    (Seq<char>, Seq<Listing>),
    Seq<char>,
> {
    if bytes > MAX_SNAPSHOT_BYTES {
        Err("marketplace snapshot exceeds the size limit"@)
    } else {
        match parsed {
            Err(e) => Err("marketplace snapshot is not valid JSON: "@ + e@),
            Ok(snapshot) => if snapshot.schema_version != 1 {
                Err(
                    "unsupported marketplace schema "@ + text::decimal(
                        snapshot.schema_version as nat,
                    ),
                )
            } else if text::utf8_len(snapshot.generated_at@) > 64 || text::trimmed(
                snapshot.generated_at@,
            ).len() == 0 {
                Err("marketplace generatedAt is invalid"@)
            } else if snapshot.plugins@.len() > MAX_REPOSITORIES {
                Err("marketplace contains too many repositories"@)
            } else {
                match all_items(snapshot.plugins@) {
                    Err(error) => Err(error),
                    Ok(items) => Ok((snapshot.generated_at@, items)),
                }
            },
        }
    }
}

proof fn lemma_manifest_fault_stays(repository: Repository, manifests: Seq<Manifest>, n: int)
    requires
        0 <= n <= manifests.len(),
        manifest_items(repository, manifests.take(n)) is Err,
    ensures
        manifest_items(repository, manifests) == manifest_items(repository, manifests.take(n)),
    decreases manifests.len() - n,
{
    if n < manifests.len() {
        assert(manifests.take(n + 1).drop_last() =~= manifests.take(n));
        lemma_manifest_fault_stays(repository, manifests, n + 1);
    } else {
        assert(manifests.take(n) =~= manifests);
    }
}

proof fn lemma_repository_fault_stays(repositories: Seq<Repository>, n: int)
    requires
        0 <= n <= repositories.len(),
        all_items(repositories.take(n)) is Err,
    ensures
        all_items(repositories) == all_items(repositories.take(n)),
    decreases repositories.len() - n,
{
    if n < repositories.len() {
        assert(repositories.take(n + 1).drop_last() =~= repositories.take(n));
        lemma_repository_fault_stays(repositories, n + 1);
    } else {
        assert(repositories.take(n) =~= repositories);
    }
}

fn item_of(repository: &Repository, manifest: &Manifest) -> (r: Result<CatalogItem, String>)
    ensures
        match manifest_item(*repository, *manifest) {
            Ok(listing) => r matches Ok(item) && item@ == listing,
            Err(error) => r matches Err(e) && e@ == error,
        },
{
    if let Err(e) = validate_manifest(manifest) {
        return Err(e);
    }
    let source = match install_source(
        repository.owner.as_str(),
        repository.name.as_str(),
        manifest.path.as_str(),
    ) {
        Ok(source) => source,
        Err(e) => {
            return Err(e);
        },
    };
    let description = match &manifest.description {
        Some(d) => Some(d.clone()),
        None => text::clone_option(&repository.description),
    };
    Ok(
        CatalogItem {
            plugin_id: manifest.id.clone(),
            name: manifest.name.clone(),
            version: manifest.version.clone(),
            min_herdr_version: manifest.min_herdr_version.clone(),
            description,
            platforms: clone_lists(&manifest.platforms),
            source,
            repository: repository.full_name.clone(),
            repository_url: repository.url.clone(),
            head_commit: repository.head_commit.clone(),
            stars: repository.stars,
            stars_delta_7d: repository.stars_delta_7d,
            language: text::clone_option(&repository.language),
            pushed_at: text::clone_option(&repository.pushed_at),
        },
    )
}

fn items_of(repository: &Repository) -> (r: Result<Vec<CatalogItem>, String>)
    ensures
        match repository_items(*repository) {
            Ok(items) => r matches Ok(v) && listings(v@) == items,
            Err(error) => r matches Err(e) && e@ == error,
        },
{
    if let Err(e) = validate_repository(repository) {
        return Err(e);
    }
    if repository.manifests.len() > MAX_MANIFESTS_PER_REPOSITORY {
        return Err(repository.full_name.clone().concat(" contains too many manifests"));
    }
    let ghost all = repository.manifests@;
    let mut out: Vec<CatalogItem> = Vec::new();
    let mut i: usize = 0;
    assert(all.take(0) =~= seq![]);
    assert(listings(out@) =~= seq![]);
    while i < repository.manifests.len()
        invariant
            i <= repository.manifests.len(),
            all == repository.manifests@,
            all.len() <= MAX_MANIFESTS_PER_REPOSITORY,
            repository_fault(*repository) is None,
            manifest_items(*repository, all.take(i as int)) == Ok::<Seq<Listing>, Seq<char>>(
                listings(out@),
            ),
        decreases repository.manifests.len() - i,
    {
        assert(all.take(i + 1).drop_last() =~= all.take(i as int));
        assert(all.take(i + 1).last() == all[i as int]);
        match item_of(repository, &repository.manifests[i]) {
            Ok(item) => {
                let ghost before = out@;
                let ghost l = item@;
                out.push(item);
                assert(listings(out@) =~= listings(before).push(l));
            },
            Err(e) => {
                proof {
                    lemma_manifest_fault_stays(*repository, all, i + 1);
                }
                return Err(e);
            },
        }
        i = i + 1;
    }
    assert(all.take(i as int) =~= all);
    Ok(out)
}

/// Validates a snapshot and flattens it into items. `parsed` is what the raw
/// text parsed to.
pub fn parse(raw: &str, parsed: &Result<Snapshot, String>) -> (r: Result<
    (String, Vec<CatalogItem>),
    String,
>)
    ensures
        match snapshot_items(text::utf8_len(raw@), *parsed) {
            Ok((generated_at, items)) => r matches Ok((g, v)) && g@ == generated_at && listings(
                v@,
            ) == items,
            Err(error) => r matches Err(e) && e@ == error,
        },
{
    if text::byte_len(raw) as u64 > MAX_SNAPSHOT_BYTES {
        return Err("marketplace snapshot exceeds the size limit".to_string());
    }
    let snapshot = match parsed {
        Ok(snapshot) => snapshot,
        Err(e) => {
            return Err(
                "marketplace snapshot is not valid JSON: ".to_string().concat(e.as_str()),
            );
        },
    };
    if snapshot.schema_version != 1 {
        return Err(
            "unsupported marketplace schema ".to_string().concat(
                text::number_text(snapshot.schema_version as u64).as_str(),
            ),
        );
    }
    if text::byte_len(snapshot.generated_at.as_str()) > 64 || text::trim(
        snapshot.generated_at.as_str(),
    ).unicode_len() == 0 {
        return Err("marketplace generatedAt is invalid".to_string());
    }
    if snapshot.plugins.len() > MAX_REPOSITORIES {
        return Err("marketplace contains too many repositories".to_string());
    }
    match flatten(&snapshot.plugins) {
        Ok(items) => Ok((snapshot.generated_at.clone(), items)),
        Err(e) => Err(e),
    }
}

fn flatten(repositories: &Vec<Repository>) -> (r: Result<Vec<CatalogItem>, String>)
    ensures
        match all_items(repositories@) {
            Ok(items) => r matches Ok(v) && listings(v@) == items,
            Err(error) => r matches Err(e) && e@ == error,
        },
{
    let ghost all = repositories@;
    let mut out: Vec<CatalogItem> = Vec::new();
    let mut i: usize = 0;
    assert(all.take(0) =~= seq![]);
    assert(listings(out@) =~= seq![]);
    while i < repositories.len()
        invariant
            i <= repositories.len(),
            all == repositories@,
            all_items(all.take(i as int)) == Ok::<Seq<Listing>, Seq<char>>(listings(out@)),
        decreases repositories.len() - i,
    {
        assert(all.take(i + 1).drop_last() =~= all.take(i as int));
        assert(all.take(i + 1).last() == all[i as int]);
        match items_of(&repositories[i]) {
            Ok(items) => {
                let mut items = items;
                let ghost before = out@;
                let ghost more = items@;
                out.append(&mut items);
                assert(listings(out@) =~= listings(before) + listings(more));
            },
            Err(e) => {
                proof {
                    lemma_repository_fault_stays(all, i + 1);
                }
                return Err(e);
            },
        }
        i = i + 1;
    }
    assert(all.take(i as int) =~= all);
    Ok(out)
}

/// Every item of an accepted snapshot is installed from a valid source at an
/// exact commit.
pub proof fn law_items_are_valid(repositories: Seq<Repository>)
    ensures
        all_items(repositories) matches Ok(items) ==> forall|i: int|
            0 <= i < items.len() ==> plugins::source_fault((#[trigger] items[i]).source) is None
                && plugins::commit(items[i].head_commit),
    decreases repositories.len(),
{
    if repositories.len() > 0 {
        law_items_are_valid(repositories.drop_last());
        let last = repositories.last();
        lemma_repository_items_valid(last, last.manifests@);
        if let Ok(items) = all_items(repositories) {
            let before = all_items(repositories.drop_last())->Ok_0;
            let more = repository_items(last)->Ok_0;
            assert forall|i: int| 0 <= i < items.len() implies plugins::source_fault(
                (#[trigger] items[i]).source,
            ) is None && plugins::commit(items[i].head_commit) by {
                if i < before.len() {
                    assert(items[i] == before[i]);
                } else {
                    assert(items[i] == more[i - before.len()]);
                }
            }
        }
    }
}

proof fn lemma_repository_items_valid(repository: Repository, manifests: Seq<Manifest>)
    ensures
        repository_fault(repository) is None ==> (manifest_items(repository, manifests) matches Ok(
            items,
        ) ==> forall|i: int|
            0 <= i < items.len() ==> plugins::source_fault((#[trigger] items[i]).source) is None
                && plugins::commit(items[i].head_commit)),
    decreases manifests.len(),
{
    if manifests.len() > 0 {
        lemma_repository_items_valid(repository, manifests.drop_last());
        if repository_fault(repository) is None {
            if let Ok(items) = manifest_items(repository, manifests) {
                let before = manifest_items(repository, manifests.drop_last())->Ok_0;
                assert forall|i: int| 0 <= i < items.len() implies plugins::source_fault(
                    (#[trigger] items[i]).source,
                ) is None && plugins::commit(items[i].head_commit) by {
                    if i < before.len() {
                        assert(items[i] == before[i]);
                    }
                }
            }
        }
    }
}

// ---------------------------------------------------------------------------
// Loading

/// How old a cached file is, in seconds and the nanoseconds beyond them.
#[derive(Debug, Clone, Copy, PartialEq, Eq, Structural)]
pub struct Age {
    pub seconds: u64,
    pub nanos: u32,
}

/// A file of an age may still stand in for the network.
pub open spec fn is_fresh(regular: bool, age: Option<Age>, max_age: nat) -> bool {
    regular && (age matches Some(a) && (a.seconds < max_age || (a.seconds == max_age && a.nanos
        == 0)))
}

/// A cached file may stand in for the network: it is a regular file whose age
/// is known and not more than the refresh interval.
pub fn cache_is_fresh(regular: bool, age: Option<Age>, max_age: &Duration) -> (r: bool)
    ensures
        r == is_fresh(regular, age, max_age@),
{
    match age {
        Some(a) => regular && (a.seconds < max_age.as_secs() || (a.seconds == max_age.as_secs()
            && a.nanos == 0)),
        None => false,
    }
}

/// What looking at a cached file came to.
#[derive(Debug)]
pub enum CachedFile {
    Uninspectable(String),
    /// Whether it is a regular file, its length, and what reading it came to.
    Found { regular: bool, bytes: u64, content: Result<String, String> },
}

pub open spec fn bounded_text(path: Seq<char>, file: CachedFile) -> Result<Seq<char>, Seq<char>> {
    match file {
        CachedFile::Uninspectable(e) => Err("cannot inspect "@ + path + ": "@ + e@),
        CachedFile::Found { regular, bytes, content } => if !regular || bytes
            > MAX_SNAPSHOT_BYTES {
            Err(path + " is not a bounded regular file"@)
        } else {
            match content {
                Ok(raw) => Ok(raw@),
                Err(e) => Err("cannot read "@ + path + ": "@ + e@),
            }
        },
    }
}

pub fn read_bounded(path: &str, file: &CachedFile) -> (r: Result<String, String>)
    ensures
        match bounded_text(path@, *file) {
            Ok(raw) => r matches Ok(s) && s@ == raw,
            Err(error) => r matches Err(e) && e@ == error,
        },
{
    match file {
        CachedFile::Uninspectable(e) => Err(
            "cannot inspect ".to_string().concat(path).concat(": ").concat(e.as_str()),
        ),
        CachedFile::Found { regular, bytes, content } => {
            if !*regular || *bytes > MAX_SNAPSHOT_BYTES {
                return Err(path.to_string().concat(" is not a bounded regular file"));
            }
            match content {
                Ok(raw) => Ok(raw.clone()),
                Err(e) => Err(
                    "cannot read ".to_string().concat(path).concat(": ").concat(e.as_str()),
                ),
            }
        },
    }
}

/// Why a snapshot is not stored, if it is not.
pub open spec fn replacing_refused(path: Seq<char>, bytes: nat, existing: Option<bool>) -> Option<
    Seq<char>,
> {
    if bytes > MAX_SNAPSHOT_BYTES {
        Some("marketplace snapshot exceeds the size limit"@)
    } else if existing == Some(false) {
        Some("refusing to replace non-regular "@ + path)
    } else {
        None
    }
}

/// What forbids writing the cache. `existing` says whether what is there is a
/// regular file.
pub fn persist_refusal(path: &str, bytes: u64, existing: Option<bool>) -> (r: Option<String>)
    ensures
        text::opt_text(r) == replacing_refused(path@, bytes as nat, existing),
{
    if bytes > MAX_SNAPSHOT_BYTES {
        return Some("marketplace snapshot exceeds the size limit".to_string());
    }
    match existing {
        Some(regular) => if regular {
            None
        } else {
            Some("refusing to replace non-regular ".to_string().concat(path))
        },
        None => None,
    }
}

/// What curl is run with for a snapshot.
pub open spec fn fetch_command(timeout: nat) -> Seq<Seq<char>> {
    seq![
        "-fsSL"@,
        "--max-time"@,
        text::decimal(
            if timeout < 1 {
                1
            } else {
                timeout
            },
        ),
        "--max-filesize"@,
        text::decimal(MAX_SNAPSHOT_BYTES as nat),
        "-H"@,
        "Accept: application/json"@,
        MARKETPLACE_URL@,
    ]
}

/// The arguments of `curl` that fetch the snapshot.
pub fn fetch_args(timeout: u64) -> (r: Vec<String>)
    ensures
        text::texts(r@) == fetch_command(timeout as nat),
{
    let r = vec![
        "-fsSL".to_string(),
        "--max-time".to_string(),
        text::number_text(
            if timeout < 1 {
                1
            } else {
                timeout
            },
        ),
        "--max-filesize".to_string(),
        text::number_text(MAX_SNAPSHOT_BYTES),
        "-H".to_string(),
        "Accept: application/json".to_string(),
        MARKETPLACE_URL.to_string(),
    ];
    assert(text::texts(r@) =~= seq![
        "-fsSL"@,
        "--max-time"@,
        text::decimal(
            if timeout < 1 {
                1
            } else {
                timeout as nat
            },
        ),
        "--max-filesize"@,
        text::decimal(MAX_SNAPSHOT_BYTES as nat),
        "-H"@,
        "Accept: application/json"@,
        MARKETPLACE_URL@,
    ]);
    r
}

pub open spec fn fetched(have_curl: bool, run: Result<Output, ExecError>) -> Result<
    Seq<char>,
    Seq<char>,
> {
    if !have_curl {
        Err("curl is not available"@)
    } else {
        match herdr::run_failure("marketplace request"@, run) {
            Some(failure) => Err(failure),
            None => {
                let raw = run->Ok_0.stdout@;
                if text::utf8_len(raw) > MAX_SNAPSHOT_BYTES {
                    Err("marketplace snapshot exceeds the size limit"@)
                } else {
                    Ok(raw)
                }
            },
        }
    }
}

/// What fetching the snapshot came to.
pub fn fetch(have_curl: bool, run: &Result<Output, ExecError>) -> (r: Result<String, String>)
    ensures
        match fetched(have_curl, *run) {
            Ok(raw) => r matches Ok(s) && s@ == raw,
            Err(error) => r matches Err(e) && e@ == error,
        },
{
    if !have_curl {
        return Err("curl is not available".to_string());
    }
    if let Some(failure) = herdr::failure_of("marketplace request", run) {
        return Err(failure);
    }
    match run {
        Ok(out) => if text::byte_len(out.stdout.as_str()) as u64 > MAX_SNAPSHOT_BYTES {
            Err("marketplace snapshot exceeds the size limit".to_string())
        } else {
            Ok(out.stdout.clone())
        },
        Err(_) => Err("marketplace request failed".to_string()),
    }
}

/// A snapshot that was accepted.
pub type Accepted = (String, Vec<CatalogItem>);

pub open spec fn is_catalog(
    catalog: Catalog,
    accepted: Accepted,
    stale: bool,
    source: Seq<char>,
) -> bool {
    catalog.generated_at == accepted.0 && catalog.items == accepted.1 && catalog.stale == stale
        && catalog.source@ == source
}

/// What the cache comes to where it may be used.
pub open spec fn is_cached(
    refresh: bool,
    fresh: bool,
    cached: Result<Accepted, String>,
    r: Option<Catalog>,
) -> bool {
    match r {
        Some(catalog) => !refresh && fresh && (cached matches Ok(accepted) && is_catalog(
            catalog,
            accepted,
            false,
            "cache"@,
        )),
        None => refresh || !fresh || cached is Err,
    }
}

/// The catalog from a cached snapshot, where no refresh was demanded and the
/// cache is fresh and valid.
pub fn from_cache(refresh: bool, fresh: bool, cached: Result<Accepted, String>) -> (r: Option<
    Catalog,
>)
    ensures
        is_cached(refresh, fresh, cached, r),
{
    if refresh || !fresh {
        return None;
    }
    match cached {
        Ok((generated_at, items)) => Some(
            Catalog { generated_at, items, stale: false, source: "cache" },
        ),
        Err(_) => None,
    }
}

/// What the cache holds when the network failed: the outer error is a file that
/// cannot be read, the inner one a snapshot that is not valid.
pub type Fallback = Result<Result<Accepted, String>, String>;

/// What loading comes to.
pub open spec fn is_loaded(
    network: Result<Accepted, String>,
    cache: Fallback,
    r: Result<Catalog, String>,
) -> bool {
    match (network, cache) {
        (Ok(accepted), _) => r matches Ok(catalog) && is_catalog(
            catalog,
            accepted,
            false,
            "network"@,
        ),
        (Err(_), Ok(Ok(accepted))) => r matches Ok(catalog) && is_catalog(
            catalog,
            accepted,
            true,
            "stale-cache"@,
        ),
        (Err(error), Err(cache_error)) => r matches Err(e) && e@ == "marketplace unavailable ("@
            + error@ + "); no usable cache ("@ + cache_error@ + ")"@,
        (Err(error), Ok(Err(cache_error))) => r matches Err(e) && e@
            == "marketplace unavailable ("@ + error@ + "); cache is invalid ("@ + cache_error@
            + ")"@,
    }
}

/// The catalog from the network, or from the cache, marked as stale, where the
/// network failed.
pub fn load(network: Result<Accepted, String>, cache: Fallback) -> (r: Result<Catalog, String>)
    ensures
        is_loaded(network, cache, r),
{
    match network {
        Ok((generated_at, items)) => Ok(
            Catalog { generated_at, items, stale: false, source: "network" },
        ),
        Err(error) => match cache {
            Err(cache_error) => Err(
                "marketplace unavailable (".to_string().concat(error.as_str()).concat(
                    "); no usable cache (",
                ).concat(cache_error.as_str()).concat(")"),
            ),
            Ok(Err(cache_error)) => Err(
                "marketplace unavailable (".to_string().concat(error.as_str()).concat(
                    "); cache is invalid (",
                ).concat(cache_error.as_str()).concat(")"),
            ),
            Ok(Ok((generated_at, items))) => Ok(
                Catalog { generated_at, items, stale: true, source: "stale-cache" },
            ),
        },
    }
}

// ---------------------------------------------------------------------------
// Searching

#[derive(Debug, Clone, Copy, PartialEq, Eq, Structural)]
pub enum SortMode {
    Relevance,
    Stars,
    Trending,
    Recent,
    Name,
}

pub struct SearchRequest<'a> {
    pub query: &'a str,
    pub json: bool,
    pub sort: SortMode,
    pub limit: usize,
    pub refresh: bool,
}

pub open spec fn sort_named(value: Seq<char>) -> Option<SortMode> {
    if value == "relevance"@ {
        Some(SortMode::Relevance)
    } else if value == "stars"@ || value == "popular"@ {
        Some(SortMode::Stars)
    } else if value == "trending"@ {
        Some(SortMode::Trending)
    } else if value == "recent"@ || value == "updated"@ {
        Some(SortMode::Recent)
    } else if value == "name"@ {
        Some(SortMode::Name)
    } else {
        None
    }
}

impl SortMode {
    pub fn parse(value: &str) -> (r: Result<SortMode, String>)
        ensures
            match sort_named(value@) {
                Some(mode) => r == Ok::<SortMode, String>(mode),
                None => r matches Err(e) && e@
                    == "--sort must be relevance, stars, trending, recent, or name"@,
            },
    {
        if text::text_eq(value, "relevance") {
            Ok(SortMode::Relevance)
        } else if text::text_eq(value, "stars") || text::text_eq(value, "popular") {
            Ok(SortMode::Stars)
        } else if text::text_eq(value, "trending") {
            Ok(SortMode::Trending)
        } else if text::text_eq(value, "recent") || text::text_eq(value, "updated") {
            Ok(SortMode::Recent)
        } else if text::text_eq(value, "name") {
            Ok(SortMode::Name)
        } else {
            Err("--sort must be relevance, stars, trending, recent, or name".to_string())
        }
    }
}

/// What a query is looked for in.
pub open spec fn haystack(item: Listing) -> Seq<char> {
    text::lowercase(
        item.plugin_id + " "@ + item.name + " "@ + item.source + " "@ + text::text_or_empty(
            item.description,
        ) + " "@ + text::text_or_empty(item.language),
    )
}

/// Every word of the query occurs in the item.
pub open spec fn is_hit(item: Listing, query: Seq<char>) -> bool {
    forall|k: int|
        0 <= k < text::words(query).len() ==> text::has_text(
            haystack(item),
            text::lowercase(#[trigger] text::words(query)[k]),
        )
}

/// How well an item fits the query as a whole.
pub open spec fn score_of(item: Listing, query: Seq<char>) -> int {
    let q = text::lowercase(text::trimmed(query));
    let id = text::lowercase(item.plugin_id);
    let name = text::lowercase(item.name);
    let source = text::lowercase(item.source);
    if q.len() == 0 {
        0
    } else if id == q || source == q {
        400
    } else if text::begins_with(id, q) || text::begins_with(name, q) {
        300
    } else if text::has_text(id, q) || text::has_text(name, q) {
        200
    } else {
        100
    }
}

pub open spec fn trend(item: Listing) -> int {
    match item.stars_delta_7d {
        Some(n) => n as int,
        None => i64::MIN as int,
    }
}

/// A date comes before another; none comes before any.
pub open spec fn earlier(a: Option<Seq<char>>, b: Option<Seq<char>>) -> bool {
    match (a, b) {
        (None, Some(_)) => true,
        (Some(x), Some(y)) => text::precedes(x, y),
        _ => false,
    }
}

/// The first item ranks strictly before the second by what is sorted for.
pub open spec fn ranks_before(a: Listing, b: Listing, sort: SortMode, query: Seq<char>) -> bool {
    match sort {
        SortMode::Relevance => score_of(a, query) > score_of(b, query) || (score_of(a, query)
            == score_of(b, query) && a.stars > b.stars),
        SortMode::Stars => a.stars > b.stars,
        SortMode::Trending => trend(a) > trend(b),
        SortMode::Recent => earlier(b.pushed_at, a.pushed_at),
        SortMode::Name => text::precedes(text::lowercase(a.name), text::lowercase(b.name)),
    }
}

/// The first item may stand before the second: by what is sorted for, else by
/// plugin id.
pub open spec fn may_precede(a: Listing, b: Listing, sort: SortMode, query: Seq<char>) -> bool {
    ranks_before(a, b, sort, query) || (!ranks_before(b, a, sort, query) && !text::precedes(
        b.plugin_id,
        a.plugin_id,
    ))
}

/// The positions of the first `n` items that hit.
pub open spec fn hits(items: Seq<Listing>, query: Seq<char>, n: int) -> Seq<usize>
    decreases n,
{
    if n <= 0 {
        seq![]
    } else if is_hit(items[n - 1], query) {
        hits(items, query, n - 1).push((n - 1) as usize)
    } else {
        hits(items, query, n - 1)
    }
}

pub open spec fn search_order(
    items: Seq<Listing>,
    found: Seq<usize>,
    sort: SortMode,
    query: Seq<char>,
) -> spec_fn(int, int) -> bool {
    |i: int, j: int|
        may_precede(items[found[i] as int], items[found[j] as int], sort, query)
}

pub open spec fn clamped_limit(limit: usize) -> nat {
    if limit < 1 {
        1
    } else if limit > MAX_RESULTS {
        MAX_RESULTS as nat
    } else {
        limit as nat
    }
}

/// `results` are the positions that a search gives: those of the hits, sorted,
/// up to the limit.
pub open spec fn is_search(
    items: Seq<Listing>,
    query: Seq<char>,
    sort: SortMode,
    limit: usize,
    results: Seq<usize>,
) -> bool {
    let found = hits(items, query, items.len() as int);
    exists|places: Seq<usize>|
        #![trigger order::arranged(found, places)]
        order::stable_order(places, search_order(items, found, sort, query), found.len())
            && results == (if clamped_limit(limit) < found.len() {
            order::arranged(found, places).take(clamped_limit(limit) as int)
        } else {
            order::arranged(found, places)
        })
}

proof fn lemma_ranks(a: Listing, b: Listing, c: Listing, sort: SortMode, query: Seq<char>)
    ensures
        !(ranks_before(a, b, sort, query) && ranks_before(b, a, sort, query)),
        !ranks_before(b, a, sort, query) && !ranks_before(c, b, sort, query) ==> !ranks_before(
            c,
            a,
            sort,
            query,
        ),
{
    match sort {
        SortMode::Recent => {
            if let (Some(x), Some(y)) = (a.pushed_at, b.pushed_at) {
                text::lemma_precedes_total(x, y);
            }
            if let (Some(x), Some(y), Some(z)) = (a.pushed_at, b.pushed_at, c.pushed_at) {
                if !text::precedes(x, y) && !text::precedes(y, z) {
                    text::lemma_not_before_transitive(z, y, x);
                }
            }
        },
        SortMode::Name => {
            let x = text::lowercase(a.name);
            let y = text::lowercase(b.name);
            let z = text::lowercase(c.name);
            text::lemma_precedes_total(x, y);
            if !text::precedes(y, x) && !text::precedes(z, y) {
                text::lemma_not_before_transitive(x, y, z);
            }
        },
        _ => {},
    }
}

proof fn lemma_may_precede(a: Listing, b: Listing, c: Listing, sort: SortMode, query: Seq<char>)
    ensures
        may_precede(a, b, sort, query) || may_precede(b, a, sort, query),
        may_precede(a, b, sort, query) && may_precede(b, c, sort, query) ==> may_precede(
            a,
            c,
            sort,
            query,
        ),
{
    lemma_ranks(a, b, c, sort, query);
    lemma_ranks(b, a, c, sort, query);
    lemma_ranks(b, c, a, sort, query);
    lemma_ranks(a, c, b, sort, query);
    lemma_ranks(c, a, b, sort, query);
    lemma_ranks(c, b, a, sort, query);
    text::lemma_precedes_total(a.plugin_id, b.plugin_id);
    if !text::precedes(b.plugin_id, a.plugin_id) && !text::precedes(c.plugin_id, b.plugin_id) {
        text::lemma_not_before_transitive(a.plugin_id, b.plugin_id, c.plugin_id);
    }
}

proof fn lemma_search_order(
    items: Seq<Listing>,
    found: Seq<usize>,
    sort: SortMode,
    query: Seq<char>,
)
    ensures
        order::total_preorder(search_order(items, found, sort, query), found.len()),
{
    let leq = search_order(items, found, sort, query);
    assert forall|i: int, j: int|
        0 <= i < found.len() && 0 <= j < found.len() implies #[trigger] leq(i, j) || leq(
        j,
        i,
    ) by {
        lemma_may_precede(
            items[found[i] as int],
            items[found[j] as int],
            items[found[j] as int],
            sort,
            query,
        );
    }
    assert forall|i: int, j: int, k: int|
        0 <= i < found.len() && 0 <= j < found.len() && 0 <= k < found.len() && #[trigger] leq(
            i,
            j,
        ) && #[trigger] leq(j, k) implies leq(i, k) by {
        lemma_may_precede(
            items[found[i] as int],
            items[found[j] as int],
            items[found[k] as int],
            sort,
            query,
        );
    }
}

fn haystack_of(item: &CatalogItem) -> (r: String)
    ensures
        r@ == haystack(item@),
{
    let whole = item.plugin_id.clone().concat(" ").concat(item.name.as_str()).concat(" ").concat(
        item.source.as_str(),
    ).concat(" ").concat(text::str_or_empty(&item.description)).concat(" ").concat(
        text::str_or_empty(&item.language),
    );
    text::to_lower(whole.as_str())
}

fn hit(item: &CatalogItem, tokens: &Vec<String>, query: Ghost<Seq<char>>) -> (r: bool)
    requires
        text::texts(tokens@) == text::words(query@),
    ensures
        r == is_hit(item@, query@),
{
    let stack = haystack_of(item);
    let ghost words = text::words(query@);
    let mut k: usize = 0;
    while k < tokens.len()
        invariant
            k <= tokens.len(),
            words == text::words(query@),
            text::texts(tokens@) == words,
            stack@ == haystack(item@),
            forall|m: int|
                0 <= m < k ==> text::has_text(stack@, text::lowercase(#[trigger] words[m])),
        decreases tokens.len() - k,
    {
        assert(words[k as int] == tokens@[k as int]@);
        let token = text::to_lower(tokens[k].as_str());
        if !text::contains_text(stack.as_str(), token.as_str()) {
            assert(!text::has_text(haystack(item@), text::lowercase(words[k as int])));
            return false;
        }
        k = k + 1;
    }
    true
}

fn score(item: &CatalogItem, query: &str) -> (r: i32)
    ensures
        r == score_of(item@, query@),
{
    let q = text::to_lower(text::trim(query));
    let id = text::to_lower(item.plugin_id.as_str());
    let name = text::to_lower(item.name.as_str());
    let source = text::to_lower(item.source.as_str());
    let q = q.as_str();
    if q.unicode_len() == 0 {
        0
    } else if text::text_eq(id.as_str(), q) || text::text_eq(source.as_str(), q) {
        400
    } else if text::starts_with(id.as_str(), q) || text::starts_with(name.as_str(), q) {
        300
    } else if text::contains_text(id.as_str(), q) || text::contains_text(name.as_str(), q) {
        200
    } else {
        100
    }
}

fn is_earlier(a: &Option<String>, b: &Option<String>) -> (r: bool)
    ensures
        r == earlier(text::opt_text(*a), text::opt_text(*b)),
{
    match (a, b) {
        (None, Some(_)) => true,
        (Some(x), Some(y)) => text::text_precedes(x.as_str(), y.as_str()),
        _ => false,
    }
}

fn trend_of(item: &CatalogItem) -> (r: i64)
    ensures
        r == trend(item@),
{
    match item.stars_delta_7d {
        Some(n) => n,
        None => i64::MIN,
    }
}

fn ranks(a: &CatalogItem, b: &CatalogItem, a_score: i32, b_score: i32, sort: SortMode, query: Ghost<
    Seq<char>,
>) -> (r: bool)
    requires
        a_score == score_of(a@, query@),
        b_score == score_of(b@, query@),
    ensures
        r == ranks_before(a@, b@, sort, query@),
{
    match sort {
        SortMode::Relevance => a_score > b_score || (a_score == b_score && a.stars > b.stars),
        SortMode::Stars => a.stars > b.stars,
        SortMode::Trending => trend_of(a) > trend_of(b),
        SortMode::Recent => is_earlier(&b.pushed_at, &a.pushed_at),
        SortMode::Name => text::text_precedes(
            text::to_lower(a.name.as_str()).as_str(),
            text::to_lower(b.name.as_str()).as_str(),
        ),
    }
}

proof fn lemma_hits(items: Seq<Listing>, query: Seq<char>, n: int)
    requires
        0 <= n <= items.len(),
        items.len() <= usize::MAX,
    ensures
        hits(items, query, n).len() <= n,
        forall|k: int|
            0 <= k < hits(items, query, n).len() ==> #[trigger] hits(items, query, n)[k] < n
                && is_hit(items[hits(items, query, n)[k] as int], query),
        forall|i: int|
            0 <= i < n && is_hit(#[trigger] items[i], query) ==> hits(items, query, n).contains(
                i as usize,
            ),
        forall|a: int, b: int|
            0 <= a < b < hits(items, query, n).len() ==> #[trigger] hits(items, query, n)[a]
                < #[trigger] hits(items, query, n)[b],
    decreases n,
{
    if n > 0 {
        lemma_hits(items, query, n - 1);
        let before = hits(items, query, n - 1);
        let after = hits(items, query, n);
        assert forall|i: int| 0 <= i < n && is_hit(#[trigger] items[i], query) implies after.contains(
            i as usize,
        ) by {
            if i < n - 1 {
                assert(before.contains(i as usize));
                let k = before.index_of(i as usize);
                assert(after[k] == before[k]);
            } else {
                assert(after[after.len() - 1] == i as usize);
            }
        }
    }
}

/// The positions of the items that fit a query, best first, up to a limit.
fn search_positions(items: &Vec<CatalogItem>, query: &str, sort: SortMode, limit: usize) -> (r: Vec<
    usize,
>)
    ensures
        is_search(listings(items@), query@, sort, limit, r@),
        forall|k: int| 0 <= k < r.len() ==> #[trigger] r@[k] < items.len(),
{
    let ghost all = listings(items@);
    let ghost q = query@;
    let tokens = text::split_whitespace(query);
    let mut found: Vec<usize> = Vec::new();
    let mut scores: Vec<i32> = Vec::new();
    let mut i: usize = 0;
    while i < items.len()
        invariant
            i <= items.len(),
            all == listings(items@),
            q == query@,
            text::texts(tokens@) == text::words(query@),
            found@ == hits(all, q, i as int),
            scores.len() == found.len(),
            forall|k: int| 0 <= k < found.len() ==> #[trigger] found@[k] < i,
            forall|k: int|
                0 <= k < found.len() ==> #[trigger] scores@[k] == score_of(
                    all[found@[k] as int],
                    q,
                ),
        decreases items.len() - i,
    {
        if hit(&items[i], &tokens, Ghost(q)) {
            scores.push(score(&items[i], query));
            found.push(i);
        }
        i = i + 1;
    }
    let ghost leq = search_order(all, found@, sort, q);
    proof {
        lemma_search_order(all, found@, sort, q);
    }
    let le = |a: usize, b: usize| -> (r: bool)
        requires
            a < found@.len(),
            b < found@.len(),
        ensures
            r == leq(a as int, b as int),
        {
            let x = &items[found[a]];
            let y = &items[found[b]];
            assert(scores@[a as int] == score_of(listings(items@)[found@[a as int] as int], query@));
            assert(scores@[b as int] == score_of(listings(items@)[found@[b as int] as int], query@));
            ranks(x, y, scores[a], scores[b], sort, Ghost(query@)) || (!ranks(
                y,
                x,
                scores[b],
                scores[a],
                sort,
                Ghost(query@),
            ) && !text::text_precedes(y.plugin_id.as_str(), x.plugin_id.as_str()))
        };
    let places = order::sort_positions(found.len(), &le, Ghost(leq));
    let most: usize = if limit < 1 {
        1
    } else if limit > MAX_RESULTS {
        MAX_RESULTS
    } else {
        limit
    };
    let count: usize = if most < found.len() {
        most
    } else {
        found.len()
    };
    let ghost sorted = order::arranged(found@, places@);
    let mut out: Vec<usize> = Vec::new();
    let mut k: usize = 0;
    while k < count
        invariant
            k <= count,
            count <= places.len(),
            places.len() == found.len(),
            forall|m: int| 0 <= m < places.len() ==> #[trigger] places@[m] < found.len(),
            forall|m: int| 0 <= m < found.len() ==> #[trigger] found@[m] < items.len(),
            sorted == order::arranged(found@, places@),
            out@ == sorted.take(k as int),
            forall|m: int| 0 <= m < out.len() ==> #[trigger] out@[m] < items.len(),
        decreases count - k,
    {
        out.push(found[places[k]]);
        assert(out@ =~= sorted.take(k + 1));
        k = k + 1;
    }
    assert(sorted.take(found.len() as int) =~= sorted);
    assert(out@ == if clamped_limit(limit) < found@.len() {
        order::arranged(found@, places@).take(clamped_limit(limit) as int)
    } else {
        order::arranged(found@, places@)
    });
    assert(found@ == hits(listings(items@), query@, listings(items@).len() as int));
    out
}

/// The items at some positions.
pub open spec fn picked(items: Seq<CatalogItem>, positions: Seq<usize>, r: Seq<&CatalogItem>) -> bool {
    r.len() == positions.len() && forall|k: int|
        0 <= k < r.len() ==> positions[k] < items.len() && *(#[trigger] r[k])
            == items[positions[k] as int]
}

/// The items that fit a query, best first, up to a limit.
pub fn search<'a>(items: &'a Vec<CatalogItem>, query: &str, sort: SortMode, limit: usize) -> (r: Vec<
    &'a CatalogItem,
>)
    ensures
        exists|positions: Seq<usize>| #[trigger]
            is_search(listings(items@), query@, sort, limit, positions) && picked(
                items@,
                positions,
                r@,
            ),
{
    let positions = search_positions(items, query, sort, limit);
    let mut out: Vec<&'a CatalogItem> = Vec::new();
    let mut k: usize = 0;
    while k < positions.len()
        invariant
            k <= positions.len(),
            forall|m: int| 0 <= m < positions.len() ==> #[trigger] positions@[m] < items.len(),
            out.len() == k,
            forall|m: int|
                0 <= m < k ==> *(#[trigger] out@[m]) == items@[positions@[m] as int],
        decreases positions.len() - k,
    {
        out.push(&items[positions[k]]);
        k = k + 1;
    }
    assert(picked(items@, positions@, out@));
    out
}

/// A search gives the best items that hold every word of the query, each once,
/// best first, and no more than the limit: an item that holds every word is
/// only left out where the limit is reached by items that rank no lower.
pub proof fn law_search_gives_hits(
    items: Seq<Listing>,
    query: Seq<char>,
    sort: SortMode,
    limit: usize,
    results: Seq<usize>,
)
    requires
        items.len() <= usize::MAX,
        is_search(items, query, sort, limit, results),
    ensures
        results.len() <= clamped_limit(limit) <= MAX_RESULTS,
        results.no_duplicates(),
        forall|k: int|
            0 <= k < results.len() ==> #[trigger] results[k] < items.len() && is_hit(
                items[results[k] as int],
                query,
            ),
        forall|a: int, b: int|
            #![trigger results[a], results[b]]
            0 <= a < b < results.len() ==> may_precede(
                items[results[a] as int],
                items[results[b] as int],
                sort,
                query,
            ),
        forall|i: int|
            0 <= i < items.len() && is_hit(#[trigger] items[i], query) && !results.contains(
                i as usize,
            ) ==> results.len() == clamped_limit(limit) && forall|k: int|
                0 <= k < results.len() ==> may_precede(
                    items[#[trigger] results[k] as int],
                    items[i],
                    sort,
                    query,
                ),
{
    let found = hits(items, query, items.len() as int);
    lemma_hits(items, query, items.len() as int);
    let leq = search_order(items, found, sort, query);
    let places = choose|places: Seq<usize>|
        #![trigger order::arranged(found, places)]
        order::stable_order(places, leq, found.len()) && results == (if clamped_limit(limit)
            < found.len() {
            order::arranged(found, places).take(clamped_limit(limit) as int)
        } else {
            order::arranged(found, places)
        });
    order::lemma_order_distinct(places, leq, found.len());
    assert forall|a: int, b: int|
        0 <= a < results.len() && 0 <= b < results.len() && a != b implies results[a]
        != results[b] by {
        assert(results[a] == found[places[a] as int]);
        assert(results[b] == found[places[b] as int]);
        assert(places[a] != places[b]);
    }
    assert forall|k: int| 0 <= k < results.len() implies #[trigger] results[k] < items.len()
        && is_hit(items[results[k] as int], query) by {
        assert(results[k] == found[places[k] as int]);
    }
    assert forall|a: int, b: int|
        #![trigger results[a], results[b]]
        0 <= a < b < results.len() implies may_precede(
        items[results[a] as int],
        items[results[b] as int],
        sort,
        query,
    ) by {
        assert(order::belongs_before(leq, places[a] as int, places[b] as int));
    }
    assert forall|i: int|
        0 <= i < items.len() && is_hit(#[trigger] items[i], query) && !results.contains(
            i as usize,
        ) implies results.len() == clamped_limit(limit) && forall|k: int|
        0 <= k < results.len() ==> may_precede(
            items[#[trigger] results[k] as int],
            items[i],
            sort,
            query,
        ) by {
        let p = found.index_of(i as usize);
        assert(found[p] == i as usize);
        assert(places.contains(p as usize));
        let q = places.index_of(p as usize);
        assert(order::arranged(found, places)[q] == i as usize);
        if q < results.len() {
            assert(results[q] == i as usize);
        }
        assert forall|k: int| 0 <= k < results.len() implies may_precede(
            items[#[trigger] results[k] as int],
            items[i],
            sort,
            query,
        ) by {
            assert(order::belongs_before(leq, places[k] as int, places[q] as int));
        }
    }
}

/// An item whose id is the query comes before every item that is not named or
/// sourced exactly so.
pub proof fn law_exact_id_ranks_first(a: Listing, b: Listing, query: Seq<char>)
    requires
        text::trimmed(query).len() > 0,
        text::lowercase(a.plugin_id) == text::lowercase(text::trimmed(query)),
        text::lowercase(b.plugin_id) != text::lowercase(text::trimmed(query)),
        text::lowercase(b.source) != text::lowercase(text::trimmed(query)),
    ensures
        ranks_before(a, b, SortMode::Relevance, query),
{
}

// ---------------------------------------------------------------------------
// Picking one

/// An item is named exactly: by its id or by its source, in either case.
pub open spec fn names_exactly(item: Listing, value: Seq<char>) -> bool {
    let name = text::lowercase(text::trimmed(value));
    text::lowercase(item.plugin_id) == name || text::lowercase(item.source) == name
}

/// The positions of the first `n` items that are named exactly.
pub open spec fn exact(items: Seq<Listing>, value: Seq<char>, n: int) -> Seq<usize>
    decreases n,
{
    if n <= 0 {
        seq![]
    } else if names_exactly(items[n - 1], value) {
        exact(items, value, n - 1).push((n - 1) as usize)
    } else {
        exact(items, value, n - 1)
    }
}

/// The place of the one item that a text names, or why there is none.
pub open spec fn resolution(items: Seq<Listing>, value: Seq<char>) -> Result<usize, Seq<char>> {
    let found = exact(items, value, items.len() as int);
    if found.len() == 1 {
        Ok(found[0])
    } else if found.len() == 0 {
        Err("no marketplace plugin matches "@ + text::debug_text(value))
    } else {
        Err("marketplace plugin "@ + text::debug_text(value) + " is ambiguous"@)
    }
}

/// The one item that a value names; none and several are errors.
pub fn resolve<'a>(catalog: &'a Catalog, value: &str) -> (r: Result<&'a CatalogItem, String>)
    ensures
        match resolution(listings(catalog.items@), value@) {
            Ok(k) => r matches Ok(item) && k < catalog.items@.len() && *item
                == catalog.items@[k as int],
            Err(error) => r matches Err(e) && e@ == error,
        },
{
    let ghost all = listings(catalog.items@);
    let name = text::to_lower(text::trim(value));
    proof {
        lemma_lowercase_twice(text::trimmed(value@));
    }
    let mut found: Vec<usize> = Vec::new();
    let mut i: usize = 0;
    while i < catalog.items.len()
        invariant
            i <= catalog.items.len(),
            all == listings(catalog.items@),
            name@ == text::lowercase(text::trimmed(value@)),
            text::lowercase(name@) == name@,
            found@ == exact(all, value@, i as int),
            forall|k: int| 0 <= k < found.len() ==> #[trigger] found@[k] < i,
        decreases catalog.items.len() - i,
    {
        let item = &catalog.items[i];
        if text::eq_ignore_case(item.plugin_id.as_str(), name.as_str()) || text::eq_ignore_case(
            item.source.as_str(),
            name.as_str(),
        ) {
            found.push(i);
        }
        i = i + 1;
    }
    if found.len() == 1 {
        Ok(&catalog.items[found[0]])
    } else if found.len() == 0 {
        Err(
            "no marketplace plugin matches ".to_string().concat(text::quoted(value).as_str()),
        )
    } else {
        Err(
            "marketplace plugin ".to_string().concat(text::quoted(value).as_str()).concat(
                " is ambiguous",
            ),
        )
    }
}

proof fn lemma_lowercase_twice(s: Seq<char>)
    ensures
        text::lowercase(text::lowercase(s)) == text::lowercase(s),
{
    assert(text::lowercase(text::lowercase(s)) =~= text::lowercase(s));
}

/// The operating system this runs on, as the marketplace calls it.
#[derive(Debug, Clone, Copy, PartialEq, Eq, Structural)]
pub enum Platform {
    Linux,
    Macos,
    Windows,
}

pub open spec fn platform_name(platform: Platform) -> Seq<char> {
    match platform {
        Platform::Linux => "linux"@,
        Platform::Macos => "macos"@,
        Platform::Windows => "windows"@,
    }
}

impl Platform {
    pub fn name(self) -> (r: &'static str)
        ensures
            r@ == platform_name(self),
    {
        match self {
            Platform::Linux => "linux",
            Platform::Macos => "macos",
            Platform::Windows => "windows",
        }
    }
}

/// An item runs on a platform: it names none, or this one.
pub open spec fn supports(item: Listing, platform: Platform) -> bool {
    match item.platforms {
        None => true,
        Some(names) => names.contains(platform_name(platform)),
    }
}

pub fn supports_platform(item: &CatalogItem, platform: Platform) -> (r: bool)
    ensures
        r == supports(item@, platform),
{
    match &item.platforms {
        None => true,
        Some(names) => text::list_has(names, platform.name()),
    }
}

/// The place of the item that is to be installed, or why nothing is.
pub open spec fn installable(items: Seq<Listing>, value: Seq<char>, platform: Platform) -> Result<
    usize,
    Seq<char>,
> {
    match resolution(items, value) {
        Err(error) => Err(error),
        Ok(k) => if supports(items[k as int], platform) {
            Ok(k)
        } else {
            Err(
                items[k as int].plugin_id + " does not declare support for "@ + platform_name(
                    platform,
                ),
            )
        },
    }
}

/// The item that an install command is about, or why it is refused.
pub fn cmd_install<'a>(catalog: &'a Catalog, value: &str, platform: Platform) -> (r: Result<
    &'a CatalogItem,
    String,
>)
    ensures
        match installable(listings(catalog.items@), value@, platform) {
            Ok(k) => r matches Ok(chosen) && k < catalog.items@.len() && *chosen
                == catalog.items@[k as int],
            Err(error) => r matches Err(e) && e@ == error,
        },
{
    match resolve(catalog, value) {
        Err(e) => Err(e),
        Ok(item) => if supports_platform(item, platform) {
            Ok(item)
        } else {
            Err(
                item.plugin_id.clone().concat(" does not declare support for ").concat(
                    platform.name(),
                ),
            )
        },
    }
}

/// The arguments that install an item, at the commit that is indexed for it.
pub fn install_args(item: &CatalogItem, yes: bool) -> (r: Result<Vec<String>, String>)
    ensures
        plugins::args_view(r) == plugins::install_command(
            item.source@,
            Some(item.head_commit@),
            yes,
        ),
{
    plugins::install_source(item.source.as_str(), Some(item.head_commit.as_str()), yes)
}

/// Whatever item of an accepted snapshot is installed, the command names its
/// source and the exact commit that the snapshot published for it.
pub proof fn law_install_names_the_indexed_commit(
    repositories: Seq<Repository>,
    i: int,
    yes: bool,
)
    requires
        all_items(repositories) matches Ok(items) && 0 <= i < items.len(),
    ensures
        ({
            let item = all_items(repositories)->Ok_0[i];
            let named = seq!["plugin"@, "install"@, item.source, "--ref"@, item.head_commit];
            plugins::install_command(item.source, Some(item.head_commit), yes) == Ok::<
                Seq<Seq<char>>,
                Seq<char>,
            >(
                if yes {
                    named.push("--yes"@)
                } else {
                    named
                },
            )
        }),
{
    let item = all_items(repositories)->Ok_0[i];
    law_items_are_valid(repositories);
    plugins::law_commit_is_a_ref(item.head_commit);
    assert(seq!["plugin"@, "install"@, item.source].push("--ref"@).push(item.head_commit)
        =~= seq!["plugin"@, "install"@, item.source, "--ref"@, item.head_commit]);
}

/// What Herdr is run with to open the store in a pane.
pub open spec fn pane_command(platform: Platform) -> Seq<Seq<char>> {
    seq![
        "plugin"@,
        "pane"@,
        "open"@,
        "--plugin"@,
        "herdr-updater"@,
        "--entrypoint"@,
        if platform == Platform::Windows {
            "store-windows"@
        } else {
            "store"@
        },
        "--focus"@,
    ]
}

/// The arguments that open the store in a pane.
pub fn open_store(platform: Platform) -> (r: Vec<String>)
    ensures
        text::texts(r@) == pane_command(platform),
{
    let entrypoint = match platform {
        Platform::Windows => "store-windows",
        _ => "store",
    };
    let r = vec![
        "plugin".to_string(),
        "pane".to_string(),
        "open".to_string(),
        "--plugin".to_string(),
        "herdr-updater".to_string(),
        "--entrypoint".to_string(),
        entrypoint.to_string(),
        "--focus".to_string(),
    ];
    assert(text::texts(r@) =~= seq![
        "plugin"@,
        "pane"@,
        "open"@,
        "--plugin"@,
        "herdr-updater"@,
        "--entrypoint"@,
        if platform == Platform::Windows {
            "store-windows"@
        } else {
            "store"@
        },
        "--focus"@,
    ]);
    r
}

/// Why the pane did not open, if it did not.
pub open spec fn opening_failure(run: Result<Output, ExecError>) -> Option<Seq<char>> {
    match run {
        Err(error) => Some("could not open store pane: "@ + exec::exec_error_text(error)),
        Ok(out) => if out.code == 0 {
            None
        } else {
            Some(
                "could not open store pane (exit "@ + text::signed_decimal(out.code as int)
                    + "): "@ + text::first_line_or(out.stderr@, "no stderr"@),
            )
        },
    }
}

/// What opening the store came to.
pub fn open_outcome(run: &Result<Output, ExecError>) -> (r: Result<(), String>)
    ensures
        match opening_failure(*run) {
            Some(failure) => r matches Err(e) && e@ == failure,
            None => r is Ok,
        },
{
    match run {
        Err(e) => Err("could not open store pane: ".to_string().concat(e.describe().as_str())),
        Ok(out) => if out.ok() {
            Ok(())
        } else {
            Err(
                "could not open store pane (exit ".to_string().concat(
                    text::signed_text(out.code).as_str(),
                ).concat("): ").concat(
                    text::first_line(out.stderr.as_str(), "no stderr").as_str(),
                ),
            )
        },
    }
}

// ---------------------------------------------------------------------------
// Text

/// What a search prints of an item: a row, and its description where it has
/// one.
pub open spec fn result_lines(item: Listing) -> Seq<Seq<char>> {
    let row = "  "@ + text::padded_right(item.plugin_id, 32) + " "@ + text::padded_left(
        text::decimal(item.stars as nat),
        6,
    ) + " stars  "@ + item.source;
    match item.description {
        Some(d) => seq![row, "    "@ + text::one_line_text(d, 100)],
        None => seq![row],
    }
}

pub open spec fn results_lines(items: Seq<&CatalogItem>) -> Seq<Seq<char>>
    decreases items.len(),
{
    if items.len() == 0 {
        seq![]
    } else {
        results_lines(items.drop_last()) + result_lines(items.last()@)
    }
}

/// What a search prints, line by line.
pub open spec fn search_lines(items: Seq<&CatalogItem>, stale: bool) -> Seq<Seq<char>> {
    seq![
        "Herdr plugins — "@ + text::decimal(items.len()) + " result(s)"@ + (if stale {
            " (stale cache)"@
        } else {
            seq![]
        }),
    ] + results_lines(items)
}

/// Renders the results of a search, line by line.
pub fn cmd_search(results: &Vec<&CatalogItem>, stale: bool) -> (r: Vec<String>)
    ensures
        text::texts(r@) == search_lines(results@, stale),
{
    let mut out: Vec<String> = Vec::new();
    let mut title = "Herdr plugins — ".to_string().concat(
        text::number_text(results.len() as u64).as_str(),
    ).concat(" result(s)");
    assert(title@ + Seq::<char>::empty() =~= title@);
    if stale {
        title = title.concat(" (stale cache)");
    }
    let ghost first = title@;
    out.push(title);
    let mut i: usize = 0;
    assert(results@.take(0) =~= seq![]);
    assert(text::texts(out@) =~= seq![first] + results_lines(results@.take(0)));
    while i < results.len()
        invariant
            i <= results.len(),
            text::texts(out@) == seq![first] + results_lines(results@.take(i as int)),
        decreases results.len() - i,
    {
        assert(results@.take(i + 1).drop_last() =~= results@.take(i as int));
        assert(results@.take(i + 1).last() == results@[i as int]);
        let item = results[i];
        let row = "  ".to_string().concat(
            text::pad_right(item.plugin_id.as_str(), 32).as_str(),
        ).concat(" ").concat(
            text::pad_left(text::number_text(item.stars).as_str(), 6).as_str(),
        ).concat(" stars  ").concat(item.source.as_str());
        let ghost before = text::texts(out@);
        let ghost a = row@;
        out.push(row);
        assert(text::texts(out@) =~= before.push(a));
        if let Some(description) = &item.description {
            let line = "    ".to_string().concat(
                text::one_line(description.as_str(), 100).as_str(),
            );
            let ghost b = line@;
            out.push(line);
            assert(text::texts(out@) =~= before.push(a).push(b));
        }
        assert(text::texts(out@) =~= before + result_lines(item@));
        assert(text::texts(out@) =~= seq![first] + results_lines(results@.take(i + 1)));
        i = i + 1;
    }
    assert(results@.take(i as int) =~= results@);
    out
}

// ---------------------------------------------------------------------------
// What is installed

pub open spec fn kind_of(plugin: InstalledPlugin) -> Seq<char> {
    match plugin.source {
        Some(source) => source.kind@,
        None => seq![],
    }
}

/// The kinds of source of some plugins, by id.
pub open spec fn kinds(plugins: Seq<InstalledPlugin>) -> Map<Seq<char>, Seq<char>>
    decreases plugins.len(),
{
    if plugins.len() == 0 {
        Map::empty()
    } else {
        kinds(plugins.drop_last()).insert(
            plugins.last().plugin_id@,
            kind_of(plugins.last()),
        )
    }
}

pub open spec fn kind_map(m: Map<Seq<char>, String>) -> Map<Seq<char>, Seq<char>> {
    m.map_values(|s: String| s@)
}

/// What is installed, and from what kind of source.
pub fn installed_map(plugins: &Vec<InstalledPlugin>) -> (r: TextMap<String>)
    ensures
        kind_map(r@) == kinds(plugins@),
{
    let mut out: TextMap<String> = TextMap::new();
    let mut i: usize = 0;
    assert(kind_map(out@) =~= kinds(plugins@.take(0)));
    while i < plugins.len()
        invariant
            i <= plugins.len(),
            kind_map(out@) == kinds(plugins@.take(i as int)),
        decreases plugins.len() - i,
    {
        assert(plugins@.take(i + 1).drop_last() =~= plugins@.take(i as int));
        assert(plugins@.take(i + 1).last() == plugins@[i as int]);
        let kind = match &plugins[i].source {
            Some(source) => source.kind.clone(),
            None => String::new(),
        };
        assert(kind@ =~= kind_of(plugins@[i as int]));
        let ghost before = out@;
        let ghost k = kind;
        out.insert(plugins[i].plugin_id.clone(), kind);
        assert(kind_map(out@) =~= kind_map(before).insert(plugins@[i as int].plugin_id@, k@));
        i = i + 1;
    }
    assert(plugins@.take(i as int) =~= plugins@);
    out
}

// ---------------------------------------------------------------------------
// What a search means

/// Results are sorted by what was asked for: of any two, the earlier one is not
/// older, has not fewer stars, has not gained fewer of late, or is not later in
/// the alphabet; one with a date stands before one without, and what is equal
/// so far is in the order of the ids.
pub proof fn law_results_are_sorted(
    items: Seq<Listing>,
    query: Seq<char>,
    sort: SortMode,
    limit: usize,
    results: Seq<usize>,
    first: int,
    second: int,
)
    requires
        items.len() <= usize::MAX,
        is_search(items, query, sort, limit, results),
        0 <= first < second < results.len(),
    ensures
        ({
            let a = items[results[first] as int];
            let b = items[results[second] as int];
            &&& sort == SortMode::Recent ==> match (a.pushed_at, b.pushed_at) {
                (Some(x), Some(y)) => !text::precedes(x, y),
                (None, Some(_)) => false,
                _ => true,
            }
            &&& sort == SortMode::Stars ==> a.stars >= b.stars
            &&& sort == SortMode::Trending ==> match (a.stars_delta_7d, b.stars_delta_7d) {
                (Some(x), Some(y)) => x >= y,
                (None, Some(y)) => y == i64::MIN,
                _ => true,
            }
            &&& sort == SortMode::Name ==> !text::precedes(
                text::lowercase(b.name),
                text::lowercase(a.name),
            )
            &&& sort == SortMode::Recent && a.pushed_at == b.pushed_at ==> !text::precedes(
                b.plugin_id,
                a.plugin_id,
            )
            &&& sort == SortMode::Stars && a.stars == b.stars ==> !text::precedes(
                b.plugin_id,
                a.plugin_id,
            )
        }),
{
    law_search_gives_hits(items, query, sort, limit, results);
    let a = items[results[first] as int];
    let b = items[results[second] as int];
    assert(may_precede(a, b, sort, query));
    if let (Some(x), Some(y)) = (a.pushed_at, b.pushed_at) {
        text::lemma_precedes_total(x, y);
        text::lemma_precedes_total(y, x);
    }
    text::lemma_precedes_total(text::lowercase(a.name), text::lowercase(b.name));
}

/// Of two items sorted as recent, the one that was pushed later ranks first, and
/// one with a date ranks before one with none.
pub proof fn law_recent_ranks_first(a: Listing, b: Listing, query: Seq<char>)
    ensures
        a.pushed_at is Some && b.pushed_at is None ==> ranks_before(a, b, SortMode::Recent, query),
        a.pushed_at is Some && b.pushed_at is Some && text::precedes(b.pushed_at->0, a.pushed_at->0)
            ==> ranks_before(a, b, SortMode::Recent, query) && !ranks_before(
            b,
            a,
            SortMode::Recent,
            query,
        ),
        a.stars > b.stars ==> ranks_before(a, b, SortMode::Stars, query),
        a.stars_delta_7d is Some && b.stars_delta_7d is Some && a.stars_delta_7d->0
            > b.stars_delta_7d->0 ==> ranks_before(a, b, SortMode::Trending, query),
        text::precedes(text::lowercase(a.name), text::lowercase(b.name)) ==> ranks_before(
            a,
            b,
            SortMode::Name,
            query,
        ),
{
    if let (Some(x), Some(y)) = (a.pushed_at, b.pushed_at) {
        text::lemma_precedes_total(x, y);
    }
}

/// An id, name or source that the query begins or is found in outranks one that
/// it is only found elsewhere in; among equals the more starred comes first.
pub proof fn law_better_fit_ranks_first(a: Listing, b: Listing, query: Seq<char>)
    requires
        text::trimmed(query).len() > 0,
    ensures
        ({
            let q = text::lowercase(text::trimmed(query));
            let begins = |item: Listing|
                text::begins_with(text::lowercase(item.plugin_id), q) || text::begins_with(
                    text::lowercase(item.name),
                    q,
                );
            let holds = |item: Listing|
                text::has_text(text::lowercase(item.plugin_id), q) || text::has_text(
                    text::lowercase(item.name),
                    q,
                );
            let is_it = |item: Listing|
                text::lowercase(item.plugin_id) == q || text::lowercase(item.source) == q;
            let first = ranks_before(a, b, SortMode::Relevance, query);
            &&& is_it(a) && !is_it(b) ==> first
            &&& begins(a) && !begins(b) && !is_it(b) ==> first
            &&& holds(a) && !holds(b) && !is_it(b) ==> first
            &&& is_it(a) && is_it(b) && a.stars > b.stars ==> first
            &&& !holds(a) && !holds(b) && !is_it(a) && !is_it(b) ==> first == (a.stars > b.stars)
        }),
{
    let q = text::lowercase(text::trimmed(query));
    lemma_begins_holds(text::lowercase(a.plugin_id), q);
    lemma_begins_holds(text::lowercase(a.name), q);
    lemma_begins_holds(text::lowercase(b.plugin_id), q);
    lemma_begins_holds(text::lowercase(b.name), q);
}

proof fn lemma_begins_holds(s: Seq<char>, t: Seq<char>)
    ensures
        text::begins_with(s, t) ==> text::has_text(s, t),
{
    if text::begins_with(s, t) {
        assert(text::occurs_at(s, t, 0));
    }
}

proof fn lemma_lowercase_joined(a: Seq<char>, b: Seq<char>)
    ensures
        text::lowercase(a + " "@ + b) == text::lowercase(a) + seq![' '] + text::lowercase(b),
{
    reveal_strlit(" ");
    assert(text::lowercase(a + " "@ + b) =~= text::lowercase(a) + seq![' '] + text::lowercase(b));
}

/// An item is found exactly where every word of the query occurs, in whatever
/// case, in its id, name, source, description or language.
pub proof fn law_every_field_is_searched(item: Listing, query: Seq<char>)
    ensures
        is_hit(item, query) <==> forall|k: int|
            0 <= k < text::words(query).len() ==> {
                let w = text::lowercase(#[trigger] text::words(query)[k]);
                ||| text::has_text(text::lowercase(item.plugin_id), w)
                ||| text::has_text(text::lowercase(item.name), w)
                ||| text::has_text(text::lowercase(item.source), w)
                ||| text::has_text(text::lowercase(text::text_or_empty(item.description)), w)
                ||| text::has_text(text::lowercase(text::text_or_empty(item.language)), w)
            },
{
    let (id, name, source) = (item.plugin_id, item.name, item.source);
    let description = text::text_or_empty(item.description);
    let language = text::text_or_empty(item.language);
    let b = id + " "@ + name;
    let c = b + " "@ + source;
    let d = c + " "@ + description;
    lemma_lowercase_joined(id, name);
    lemma_lowercase_joined(b, source);
    lemma_lowercase_joined(c, description);
    lemma_lowercase_joined(d, language);
    text::law_words_are_solid(query);
    assert forall|k: int| 0 <= k < text::words(query).len() implies text::has_text(
        haystack(item),
        text::lowercase(#[trigger] text::words(query)[k]),
    ) == {
        let w = text::lowercase(text::words(query)[k]);
        ||| text::has_text(text::lowercase(id), w)
        ||| text::has_text(text::lowercase(name), w)
        ||| text::has_text(text::lowercase(source), w)
        ||| text::has_text(text::lowercase(description), w)
        ||| text::has_text(text::lowercase(language), w)
    } by {
        let word = text::words(query)[k];
        let w = text::lowercase(word);
        assert forall|i: int| 0 <= i < w.len() implies #[trigger] w[i] != ' ' by {
            assert(!text::is_whitespace(word[i]));
        }
        text::lemma_text_beside_blank(text::lowercase(id), text::lowercase(name), w);
        text::lemma_text_beside_blank(text::lowercase(b), text::lowercase(source), w);
        text::lemma_text_beside_blank(text::lowercase(c), text::lowercase(description), w);
        text::lemma_text_beside_blank(text::lowercase(d), text::lowercase(language), w);
    }
}

/// A limit is taken at its word, from one up to the most that is ever shown.
pub proof fn law_limit_is_kept(limit: usize)
    ensures
        1 <= limit <= 500 ==> clamped_limit(limit) == limit,
        limit == 0 ==> clamped_limit(limit) == 1,
        limit > 500 ==> clamped_limit(limit) == 500,
{
}

/// Asking to sort by a name that the help lists sorts by it.
pub proof fn law_sort_names(value: Seq<char>)
    ensures
        sort_named("relevance"@) == Some(SortMode::Relevance),
        sort_named("stars"@) == Some(SortMode::Stars),
        sort_named("trending"@) == Some(SortMode::Trending),
        sort_named("recent"@) == Some(SortMode::Recent),
        sort_named("name"@) == Some(SortMode::Name),
        sort_named(value) is Some ==> value == "relevance"@ || value == "stars"@ || value
            == "popular"@ || value == "trending"@ || value == "recent"@ || value == "updated"@
            || value == "name"@,
{
    reveal_strlit("relevance");
    reveal_strlit("stars");
    reveal_strlit("popular");
    reveal_strlit("trending");
    reveal_strlit("recent");
    reveal_strlit("updated");
    reveal_strlit("name");
    assert("relevance"@.len() == 9 && "stars"@.len() == 5 && "popular"@.len() == 7
        && "trending"@.len() == 8 && "recent"@.len() == 6 && "updated"@.len() == 7 && "name"@.len()
        == 4);
}

/// A value names an item by its id or by its source, blanks around it and the
/// case of letters aside; and it is looked for among all items, each once.
pub proof fn law_exact_finds_what_is_named(items: Seq<Listing>, value: Seq<char>, n: int, i: int)
    requires
        0 <= n <= items.len() <= usize::MAX,
        0 <= i < n,
    ensures
        exact(items, value, n).contains(i as usize) <==> {
            ||| text::lowercase(items[i].plugin_id) == text::lowercase(text::trimmed(value))
            ||| text::lowercase(items[i].source) == text::lowercase(text::trimmed(value))
        },
        exact(items, value, n).no_duplicates(),
        forall|k: int| 0 <= k < exact(items, value, n).len() ==> #[trigger] exact(items, value, n)[k]
            < n,
    decreases n,
{
    let before = exact(items, value, n - 1);
    let all = exact(items, value, n);
    if n > 1 {
        law_exact_finds_what_is_named(items, value, n - 1, if i < n - 1 { i } else { 0 });
    }
    assert(before.len() == 0 || n > 1);
    if names_exactly(items[n - 1], value) {
        assert(all[all.len() - 1] == (n - 1) as usize);
        if i < n - 1 && before.contains(i as usize) {
            let k = choose|k: int| 0 <= k < before.len() && before[k] == i as usize;
            assert(all[k] == i as usize);
        }
        if i < n - 1 && all.contains(i as usize) {
            let k = choose|k: int| 0 <= k < all.len() && all[k] == i as usize;
            assert(before[k] == i as usize);
        }
    }
}

/// An item without platforms runs everywhere; one with platforms runs on those
/// that it names, and on no other.
pub proof fn law_platforms_are_respected(item: Listing)
    ensures
        item.platforms is None ==> supports(item, Platform::Linux) && supports(
            item,
            Platform::Macos,
        ) && supports(item, Platform::Windows),
        item.platforms matches Some(names) ==> {
            &&& supports(item, Platform::Linux) <==> names.contains("linux"@)
            &&& supports(item, Platform::Macos) <==> names.contains("macos"@)
            &&& supports(item, Platform::Windows) <==> names.contains("windows"@)
        },
{
}

/// A manifest at the root of a repository is installed from the repository, one
/// in a directory from that directory.
pub proof fn law_source_is_where_the_manifest_is(
    owner: Seq<char>,
    repo: Seq<char>,
    dir: Seq<char>,
)
    ensures
        manifest_source(owner, repo, "herdr-plugin.toml"@) matches Ok(s) ==> s == owner + "/"@
            + repo,
        plugins::source_fault(owner + "/"@ + repo) is None ==> manifest_source(
            owner,
            repo,
            "herdr-plugin.toml"@,
        ) is Ok,
        manifest_source(owner, repo, dir + "/herdr-plugin.toml"@) matches Ok(s) ==> s == owner
            + "/"@ + repo + "/"@ + dir && plugins::subdir(dir),
        plugins::subdir(dir) && plugins::source_fault(owner + "/"@ + repo + "/"@ + dir) is None
            ==> manifest_source(owner, repo, dir + "/herdr-plugin.toml"@) is Ok,
{
    reveal_strlit("herdr-plugin.toml");
    reveal_strlit("/herdr-plugin.toml");
    let end = "/herdr-plugin.toml"@;
    let path = dir + end;
    assert(path.len() > "herdr-plugin.toml"@.len());
    assert(path.subrange(dir.len() as int, path.len() as int) =~= end);
    assert(text::finishes_with(path, end));
    assert(path.take(path.len() - end.len()) =~= dir);
}

/// An item says what its repository and its manifest say, and is installed at
/// the commit that the snapshot has for its repository.
pub proof fn law_item_says_what_the_snapshot_says(repository: Repository, manifest: Manifest)
    ensures
        manifest_item(repository, manifest) matches Ok(item) ==> {
            &&& item.head_commit == repository.head_commit@
            &&& item.repository == repository.full_name@
            &&& item.repository_url == repository.url@
            &&& item.stars == repository.stars
            &&& item.stars_delta_7d == repository.stars_delta_7d
            &&& item.language == text::opt_text(repository.language)
            &&& item.pushed_at == text::opt_text(repository.pushed_at)
            &&& item.plugin_id == manifest.id@
            &&& item.name == manifest.name@
            &&& item.version == manifest.version@
            &&& item.min_herdr_version == manifest.min_herdr_version@
            &&& item.platforms == opt_texts(manifest.platforms)
            &&& manifest.description matches Some(d) ==> item.description == Some(d@)
            &&& manifest.description is None ==> item.description == text::opt_text(
                repository.description,
            )
        },
{
}

/// Every manifest of every repository makes one item: one more repository adds
/// its items behind the others, and one more manifest its item.
pub proof fn law_every_manifest_makes_an_item(
    repositories: Seq<Repository>,
    repository: Repository,
    manifests: Seq<Manifest>,
    manifest: Manifest,
)
    ensures
        all_items(seq![]) == Ok::<Seq<Listing>, Seq<char>>(seq![]),
        all_items(repositories) is Ok && repository_items(repository) is Ok ==> all_items(
            repositories.push(repository),
        ) == Ok::<Seq<Listing>, Seq<char>>(
            all_items(repositories)->Ok_0 + repository_items(repository)->Ok_0,
        ),
        all_items(repositories) is Err || repository_items(repository) is Err ==> all_items(
            repositories.push(repository),
        ) is Err,
        manifest_items(repository, manifests) is Ok && manifest_item(repository, manifest) is Ok
            ==> manifest_items(repository, manifests.push(manifest)) == Ok::<
            Seq<Listing>,
            Seq<char>,
        >(
            manifest_items(repository, manifests)->Ok_0.push(
                manifest_item(repository, manifest)->Ok_0,
            ),
        ),
{
    assert(repositories.push(repository).drop_last() =~= repositories);
    assert(manifests.push(manifest).drop_last() =~= manifests);
}

/// A plugin that asks for a release of Herdr runs on that release and on later
/// ones, compared as numbers, and on no earlier one. An unreadable demand is
/// never met.
pub proof fn law_minimum_version_is_a_floor(
    now: (nat, nat, nat),
    least: (nat, nat, nat),
    minimum: Seq<char>,
    current: Option<Seq<char>>,
)
    requires
        now.0 <= u64::MAX && now.1 <= u64::MAX && now.2 <= u64::MAX,
        least.0 <= u64::MAX && least.1 <= u64::MAX && least.2 <= u64::MAX,
    ensures
        compatible(
            Some(crate::version::release_text(now.0, now.1, now.2)),
            crate::version::release_text(least.0, least.1, least.2),
        ) <==> now.0 > least.0 || (now.0 == least.0 && (now.1 > least.1 || (now.1 == least.1
            && now.2 >= least.2))),
        compatible(None, crate::version::release_text(least.0, least.1, least.2)),
        plain_version(minimum) is None ==> !compatible(current, minimum),
{
    lemma_plain_release(now.0, now.1, now.2);
    lemma_plain_release(least.0, least.1, least.2);
}

proof fn lemma_plain_release(major: nat, minor: nat, patch: nat)
    requires
        major <= u64::MAX,
        minor <= u64::MAX,
        patch <= u64::MAX,
    ensures
        plain_version(crate::version::release_text(major, minor, patch)) == Some((major, minor, patch)),
{
    let s = crate::version::release_text(major, minor, patch);
    let (a, b, c) = (text::decimal(major), text::decimal(minor), text::decimal(patch));
    text::law_decimal_reads_back(major, u64::MAX as nat);
    text::law_decimal_reads_back(minor, u64::MAX as nat);
    text::law_decimal_reads_back(patch, u64::MAX as nat);
    assert(s[0] == a[0]);
    assert(text::is_digit(a[0]));
    assert forall|i: int| 0 <= i < s.len() implies text::is_digit(#[trigger] s[i]) || s[i]
        == '.' by {
        if i < a.len() {
            assert(s[i] == a[i]);
        } else if i > a.len() && i < a.len() + 1 + b.len() {
            assert(s[i] == b[i - a.len() - 1]);
        } else if i > a.len() + 1 + b.len() {
            assert(s[i] == c[i - a.len() - b.len() - 2]);
        }
    }
    text::lemma_find_char_is(s, '-', s.len() as int);
    text::lemma_find_char_is(s, '+', s.len() as int);
    assert(s.take(s.len() as int) =~= s);
    crate::version::lemma_release_parts(major, minor, patch);
}

/// A search says how many results there are and whether they are stale, and
/// shows each of them: its id, its stars, its source, and its description.
pub proof fn law_search_shows_each_result(
    results: Seq<&CatalogItem>,
    item: &CatalogItem,
    stale: bool,
)
    ensures
        ({
            let lines = results_lines(results.push(item));
            let own = result_lines(item@);
            &&& lines == results_lines(results) + own
            &&& text::begins_with(own[0], "  "@ + item.plugin_id@)
            &&& text::finishes_with(own[0], " stars  "@ + item.source@)
            &&& text::has_text(own[0], text::decimal(item.stars as nat) + " stars  "@)
            &&& own.len() == if item.description is Some { 2int } else { 1 }
        }),
        search_lines(results, stale)[0] == "Herdr plugins — "@ + text::decimal(results.len())
            + " result(s)"@ + (if stale { " (stale cache)"@ } else { seq![] }),
        search_lines(results, stale).skip(1) == results_lines(results),
{
    assert(results.push(item).drop_last() =~= results);
    let id = item.plugin_id@;
    let stars = text::decimal(item.stars as nat);
    let padded = text::padded_right(id, 32);
    let shown = text::padded_left(stars, 6);
    let row = result_lines(item@)[0];
    let end = " stars  "@ + item.source@;
    assert(row =~= "  "@ + padded + " "@ + shown + end);
    assert(row.take(("  "@ + id).len() as int) =~= "  "@ + id);
    assert(row.subrange(0, ("  "@ + id).len() as int) =~= "  "@ + id);
    assert(row.subrange(row.len() - end.len(), row.len() as int) =~= end);
    let mid = stars + " stars  "@;
    let at = row.len() - end.len() - stars.len();
    assert(row.subrange(at, at + mid.len()) =~= mid);
    assert(text::occurs_at(row, mid, at));
    assert(search_lines(results, stale).skip(1) =~= results_lines(results));
}

/// What is installed is known by id: a plugin of the registry is there with the
/// kind of its source, and nothing else is.
pub proof fn law_installed_are_known(plugins: Seq<InstalledPlugin>, id: Seq<char>)
    ensures
        kinds(plugins).contains_key(id) <==> exists|i: int|
            0 <= i < plugins.len() && (#[trigger] plugins[i]).plugin_id@ == id,
        kinds(plugins).contains_key(id) ==> exists|i: int|
            0 <= i < plugins.len() && (#[trigger] plugins[i]).plugin_id@ == id && kinds(plugins)[id]
                == kind_of(plugins[i]),
    decreases plugins.len(),
{
    if plugins.len() > 0 {
        let rest = plugins.drop_last();
        law_installed_are_known(rest, id);
        let n = plugins.len() - 1;
        if plugins[n].plugin_id@ == id {
            assert(kinds(plugins)[id] == kind_of(plugins[n]));
        } else {
            if kinds(rest).contains_key(id) {
                let i = choose|i: int|
                    0 <= i < rest.len() && (#[trigger] rest[i]).plugin_id@ == id && kinds(rest)[id]
                        == kind_of(rest[i]);
                assert(plugins[i].plugin_id@ == id);
            }
            if exists|i: int|
                0 <= i < plugins.len() && (#[trigger] plugins[i]).plugin_id@ == id {
                let i = choose|i: int|
                    0 <= i < plugins.len() && (#[trigger] plugins[i]).plugin_id@ == id;
                assert(rest[i].plugin_id@ == id);
            }
        }
    }
}

/// A snapshot is fresh up to the refresh interval and not a moment longer; one
/// of unknown age never is.
pub proof fn law_cache_ages(regular: bool, a: Age, b: Age, max_age: nat)
    ensures
        !is_fresh(regular, None, max_age),
        !is_fresh(false, Some(a), max_age),
        is_fresh(true, Some(a), max_age) <==> a.seconds < max_age || (a.seconds == max_age && a.nanos
            == 0),
        is_fresh(true, Some(a), max_age) && (b.seconds < a.seconds || (b.seconds == a.seconds
            && b.nanos <= a.nanos)) ==> is_fresh(true, Some(b), max_age),
{
}

/// What comes from the network or from a fresh cache is not stale; what stands
/// in for a network that failed is, and is the cached snapshot unchanged; and a
/// demanded refresh never uses the cache first.
pub proof fn law_stale_is_said(
    network: Result<Accepted, String>,
    cache: Fallback,
    r: Result<Catalog, String>,
    refresh: bool,
    fresh: bool,
    cached: Result<Accepted, String>,
    c: Option<Catalog>,
)
    requires
        is_loaded(network, cache, r),
        is_cached(refresh, fresh, cached, c),
    ensures
        network matches Ok(accepted) ==> (r matches Ok(catalog) && !catalog.stale && catalog.items
            == accepted.1 && catalog.generated_at == accepted.0),
        network is Err ==> (r is Ok <==> (cache matches Ok(inner) && inner is Ok)),
        network is Err && r is Ok ==> r->Ok_0.stale && r->Ok_0.items == cache->Ok_0->Ok_0.1,
        refresh ==> c is None,
        c is Some <==> !refresh && fresh && cached is Ok,
        c matches Some(catalog) ==> !catalog.stale && catalog.items == cached->Ok_0.1,
{
}

/// A repository of the snapshot is accepted exactly where its name is made of
/// its owner and its own, its address is GitHub's for them, its commit is a
/// full one, and its texts are of a bounded length.
pub proof fn law_repository_is_accepted_exactly(repository: Repository)
    ensures
        repository_fault(repository) is None <==> {
            &&& plugins::segment(repository.owner@, 100)
            &&& plugins::segment(repository.name@, 100)
            &&& repository.full_name@ == repository.owner@ + "/"@ + repository.name@
            &&& text::utf8_len(repository.full_name@) <= 201
            &&& plugins::commit(repository.head_commit@)
            &&& repository.url@ == "https://github.com/"@ + repository.owner@ + "/"@
                + repository.name@
            &&& repository.description matches Some(d) ==> text::utf8_len(d@) <= 1_000
            &&& repository.language matches Some(l) ==> text::utf8_len(l@) <= 100
            &&& repository.pushed_at matches Some(p) ==> text::utf8_len(p@) <= 64
        },
{
}

/// A manifest is accepted exactly where it has a plain id, a name, a version
/// and a readable demand on Herdr, each of a bounded length, and names known
/// platforms only.
pub proof fn law_manifest_is_accepted_exactly(manifest: Manifest)
    ensures
        manifest_fault(manifest) is None <==> {
            &&& 0 < manifest.id@.len() && text::utf8_len(manifest.id@) <= 120
            &&& text::all_in(manifest.id@, CharClass::PluginId)
            &&& text::trimmed(manifest.name@).len() > 0 && text::utf8_len(manifest.name@) <= 120
            &&& text::trimmed(manifest.version@).len() > 0 && text::utf8_len(manifest.version@)
                <= 64
            &&& plain_version(manifest.min_herdr_version@) is Some
            &&& manifest.description matches Some(d) ==> text::utf8_len(d@) <= 1_000
            &&& manifest.platforms matches Some(names) ==> 0 < names@.len() <= 3 && forall|i: int|
                0 <= i < names@.len() ==> (#[trigger] names@[i])@ == "linux"@ || names@[i]@
                    == "macos"@ || names@[i]@ == "windows"@
        },
{
    if let Some(names) = manifest.platforms {
        let all = text::texts(names@);
        assert(forall|i: int| 0 <= i < names@.len() ==> #[trigger] all[i] == names@[i]@);
        if platforms_valid(all) {
            assert forall|i: int| 0 <= i < names@.len() implies (#[trigger] names@[i])@ == "linux"@
                || names@[i]@ == "macos"@ || names@[i]@ == "windows"@ by {
                assert(known_platform(all[i]));
            }
        }
        if 0 < names@.len() <= 3 && forall|i: int|
            0 <= i < names@.len() ==> (#[trigger] names@[i])@ == "linux"@ || names@[i]@ == "macos"@
                || names@[i]@ == "windows"@ {
            assert forall|i: int| 0 <= i < all.len() implies known_platform(#[trigger] all[i]) by {
                assert(names@[i]@ == all[i]);
            }
        }
    }
}

/// A snapshot is taken exactly where its size, its schema, its date and the
/// number of its repositories are in order and every repository is; then it
/// holds all of their items.
pub proof fn law_snapshot_is_taken_exactly(bytes: nat, snapshot: Snapshot)
    ensures
        snapshot_items(bytes, Ok(snapshot)) is Ok <==> bytes <= 16_777_216 && snapshot.schema_version
            == 1 && text::utf8_len(snapshot.generated_at@) <= 64 && text::trimmed(
            snapshot.generated_at@,
        ).len() > 0 && snapshot.plugins@.len() <= MAX_REPOSITORIES && all_items(snapshot.plugins@)
            is Ok,
        snapshot_items(bytes, Ok(snapshot)) matches Ok((at, items)) ==> at == snapshot.generated_at@
            && all_items(snapshot.plugins@) == Ok::<Seq<Listing>, Seq<char>>(items),
{
}

/// What is fetched or read is used as it is, within the bound and no further.
pub proof fn law_snapshots_are_bounded(
    have_curl: bool,
    run: Result<Output, ExecError>,
    path: Seq<char>,
    file: CachedFile,
)
    ensures
        fetched(have_curl, run) is Ok <==> have_curl && (run matches Ok(out) && out.code == 0
            && text::utf8_len(out.stdout@) <= 16_777_216),
        fetched(have_curl, run) matches Ok(raw) ==> raw == run->Ok_0.stdout@,
        bounded_text(path, file) is Ok <==> (file matches CachedFile::Found {
            regular,
            bytes,
            content,
        } && regular && bytes <= 16_777_216 && content is Ok),
        (bounded_text(path, file) is Ok && file is Found) ==> bounded_text(path, file)->Ok_0
            == file->content->Ok_0@,
{
}

/// A text resolves to an item exactly where it names that one and no other, by
/// its id or its source.
pub proof fn law_resolution_is_the_only_one(items: Seq<Listing>, value: Seq<char>)
    requires
        items.len() <= usize::MAX,
    ensures
        resolution(items, value) matches Ok(k) ==> k < items.len() && names_either(
            items[k as int],
            value,
        ) && forall|j: int| 0 <= j < items.len() && names_either(#[trigger] items[j], value) ==> j
            == k,
        resolution(items, value) is Err ==> {
            ||| forall|j: int| 0 <= j < items.len() ==> !names_either(#[trigger] items[j], value)
            ||| exists|i: int, j: int|
                0 <= i < j < items.len() && names_either(#[trigger] items[i], value)
                    && names_either(#[trigger] items[j], value)
        },
{
    let n = items.len() as int;
    let found = exact(items, value, n);
    if items.len() > 0 {
        assert forall|j: int| 0 <= j < n implies (names_either(#[trigger] items[j], value)
            <==> found.contains(j as usize)) by {
            law_exact_finds_what_is_named(items, value, n, j);
        }
        law_exact_finds_what_is_named(items, value, n, 0);
        if found.len() == 1 {
            assert(found.contains(found[0]));
            assert(names_either(items[found[0] as int], value));
        } else if found.len() == 0 {
        } else {
            assert(found.contains(found[0]) && found.contains(found[1]));
            assert(found[0] != found[1]);
            assert(names_either(items[found[0] as int], value));
            assert(names_either(items[found[1] as int], value));
            let i = if found[0] < found[1] { found[0] as int } else { found[1] as int };
            let j = if found[0] < found[1] { found[1] as int } else { found[0] as int };
            assert(0 <= i < j < items.len() && names_either(items[i], value) && names_either(
                items[j],
                value,
            ));
        }
    } else {
        assert(found.len() == 0);
    }
}

/// The text is the id or the source of the item, in any case and with any space
/// around it.
pub open spec fn names_either(item: Listing, value: Seq<char>) -> bool {
    ||| text::lowercase(item.plugin_id) == text::lowercase(text::trimmed(value))
    ||| text::lowercase(item.source) == text::lowercase(text::trimmed(value))
}

/// What is installed from the marketplace is the one item that was named, and
/// only where it supports the platform.
pub proof fn law_installed_is_what_was_named(
    items: Seq<Listing>,
    value: Seq<char>,
    platform: Platform,
)
    ensures
        installable(items, value, platform) matches Ok(k) ==> resolution(items, value) == Ok::<
            usize,
            Seq<char>,
        >(k) && supports(items[k as int], platform),
        (resolution(items, value) matches Ok(k) && supports(items[k as int], platform))
            ==> installable(items, value, platform) is Ok,
        resolution(items, value) is Err ==> installable(items, value, platform) is Err,
{
}

/// A snapshot is stored within the bound and never over something that is no
/// regular file.
pub proof fn law_only_regular_files_are_replaced(path: Seq<char>, bytes: nat, existing: Option<bool>)
    ensures
        replacing_refused(path, bytes, existing) is None <==> bytes <= 16_777_216 && existing
            != Some(false),
{
}

/// A fetch is given at least a second and at most the time that was allowed, is
/// bounded in size, and goes to the marketplace.
pub proof fn law_fetch_goes_to_the_marketplace(timeout: nat)
    ensures
        fetch_command(timeout).len() == 8,
        fetch_command(timeout).last() == "https://assets.herdr.dev/plugins/index.json"@,
        fetch_command(timeout)[1] == "--max-time"@,
        timeout >= 1 ==> fetch_command(timeout)[2] == text::decimal(timeout),
        timeout == 0 ==> fetch_command(timeout)[2] == text::decimal(1),
        fetch_command(timeout)[3] == "--max-filesize"@,
        fetch_command(timeout)[4] == text::decimal(16_777_216),
{
}

/// The store opens in a pane of this plugin, through the entry point of the
/// platform; the pane is open exactly where Herdr says so.
pub proof fn law_store_opens_in_its_pane(platform: Platform, run: Result<Output, ExecError>)
    ensures
        pane_command(platform).take(3) == seq!["plugin"@, "pane"@, "open"@],
        pane_command(platform)[4] == "herdr-updater"@,
        pane_command(Platform::Windows)[6] == "store-windows"@,
        platform != Platform::Windows ==> pane_command(platform)[6] == "store"@,
        opening_failure(run) is None <==> (run matches Ok(out) && out.code == 0),
{
}

/// The results of a search are the items at the found places, in that order.
pub proof fn law_results_are_the_items_found(
    items: Seq<CatalogItem>,
    positions: Seq<usize>,
    r: Seq<&CatalogItem>,
    k: int,
)
    requires
        picked(items, positions, r),
        0 <= k < positions.len(),
    ensures
        r.len() == positions.len(),
        positions[k] < items.len(),
        *r[k] == items[positions[k] as int],
{
    assert(*r[k] == items[positions[k] as int]);
}

/// A catalog says where it came from.
pub proof fn law_catalog_names_its_source(
    accepted: Accepted,
    cache: Fallback,
    r: Result<Catalog, String>,
    stood_in: Result<Catalog, String>,
    error: String,
    c: Option<Catalog>,
)
    requires
        is_loaded(Ok(accepted), cache, r),
        is_loaded(Err(error), Ok(Ok(accepted)), stood_in),
        is_cached(false, true, Ok(accepted), c),
    ensures
        r matches Ok(catalog) && catalog.source@ == "network"@,
        stood_in matches Ok(catalog) && catalog.source@ == "stale-cache"@,
        c matches Some(catalog) && catalog.source@ == "cache"@,
{
}

} // verus!
