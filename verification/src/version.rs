//! Version comparison, shared by core update decisions and plugin
//! compatibility checks.
//!
//! `!=` is not a version comparison: acting on "the manifest says something
//! different" downgrades a machine the first time upstream rolls a release
//! back. Refusing to move backwards needs an ordering.
//!
//! The grammar is semver precedence with build metadata ignored:
//! `MAJOR.MINOR.PATCH`, optionally followed by `-PRERELEASE`. A leading `v` is
//! accepted because tags carry one and manifests do not. Anything else parses
//! to `None`, and callers treat `None` as unknown rather than as an ordering.

use crate::text::{self, CharClass};
use std::cmp::Ordering;
use vstd::prelude::*;
use vstd::std_specs::cmp::PartialOrdSpecImpl;
use vstd::string::*;

verus! {

/// One dot-separated identifier of a prerelease.
#[derive(Debug, Clone, PartialEq, Eq)]
pub enum PreRelease {
    Numeric(u64),
    Alphanumeric(String),
}

#[derive(Debug, Clone, PartialEq, Eq)]
pub struct Version {
    major: u64,
    minor: u64,
    patch: u64,
    pre: Vec<PreRelease>,
}

/// What a prerelease identifier says.
pub enum Identifier {
    Number(nat),
    Word(Seq<char>),
}

/// What a version says.
pub struct Parsed {
    pub major: nat,
    pub minor: nat,
    pub patch: nat,
    pub pre: Seq<Identifier>,
}

impl View for PreRelease {
    type V = Identifier;

    open spec fn view(&self) -> Identifier {
        match *self {
            PreRelease::Numeric(n) => Identifier::Number(n as nat),
            PreRelease::Alphanumeric(s) => Identifier::Word(s@),
        }
    }
}

pub open spec fn identifiers(v: Seq<PreRelease>) -> Seq<Identifier> {
    Seq::new(v.len(), |i: int| v[i]@)
}

impl View for Version {
    type V = Parsed;

    closed spec fn view(&self) -> Parsed {
        Parsed {
            major: self.major as nat,
            minor: self.minor as nat,
            patch: self.patch as nat,
            pre: identifiers(self.pre@),
        }
    }
}

// ---------------------------------------------------------------------------
// Grammar

/// A number without leading zeroes.
pub open spec fn strict_number(raw: Seq<char>) -> Option<nat> {
    if raw.len() > 0 && text::all_in(raw, CharClass::Digit) && !(raw.len() > 1 && raw[0] == '0')
        && text::digits_value(raw) <= u64::MAX {
        Some(text::digits_value(raw))
    } else {
        None
    }
}

/// A prerelease identifier: a number without leading zeroes, or a word of
/// letters, digits and dashes that is not all digits.
pub open spec fn parsed_identifier(raw: Seq<char>) -> Option<Identifier> {
    if raw.len() == 0 {
        None
    } else if text::all_in(raw, CharClass::Digit) {
        match strict_number(raw) {
            Some(n) => Some(Identifier::Number(n)),
            None => None,
        }
    } else if text::all_in(raw, CharClass::PreRelease) {
        Some(Identifier::Word(raw))
    } else {
        None
    }
}

/// The identifiers of a prerelease, if every one of them is valid.
pub open spec fn parsed_prerelease(raw: Seq<char>) -> Option<Seq<Identifier>> {
    let parts = text::split_at_char(raw, '.');
    if forall|i: int| 0 <= i < parts.len() ==> (#[trigger] parsed_identifier(parts[i])) is Some {
        Some(Seq::new(parts.len(), |i: int| parsed_identifier(parts[i])->0))
    } else {
        None
    }
}

/// The text that the grammar is applied to: no whitespace around it, no
/// leading `v`, no build metadata.
pub open spec fn version_body(value: Seq<char>) -> Seq<char> {
    let t = text::trimmed(value);
    let t = if t.len() > 0 && t[0] == 'v' {
        t.drop_first()
    } else {
        t
    };
    t.take(text::find_char(t, '+') as int)
}

pub open spec fn parsed_body(body: Seq<char>) -> Option<Parsed> {
    let (core, pre) = match text::cut_at_char(body, '-') {
        Some((core, pre)) => (core, parsed_prerelease(pre)),
        None => (body, Some(Seq::empty())),
    };
    let parts = text::split_at_char(core, '.');
    if parts.len() == 3 && strict_number(parts[0]) is Some && strict_number(parts[1]) is Some
        && strict_number(parts[2]) is Some && pre is Some {
        Some(
            Parsed {
                major: strict_number(parts[0])->0,
                minor: strict_number(parts[1])->0,
                patch: strict_number(parts[2])->0,
                pre: pre->0,
            },
        )
    } else {
        None
    }
}

/// What a version string says, if it fits the grammar.
pub open spec fn parsed_version(value: Seq<char>) -> Option<Parsed> {
    parsed_body(version_body(value))
}

fn number(raw: &str) -> (r: Option<u64>)
    ensures
        match r {
            Some(n) => strict_number(raw@) == Some(n as nat),
            None => strict_number(raw@) is None,
        },
{
    let count = raw.unicode_len();
    if count == 0 || (count > 1 && raw.get_char(0) == '0') {
        return None;
    }
    if !text::text_all_in(raw, CharClass::Digit) {
        return None;
    }
    assert(text::is_digit(raw@[0]));
    text::parse_number(raw, u64::MAX)
}

fn identifier(raw: &str) -> (r: Option<PreRelease>)
    ensures
        match r {
            Some(p) => parsed_identifier(raw@) == Some(p@),
            None => parsed_identifier(raw@) is None,
        },
{
    if raw.unicode_len() == 0 {
        return None;
    }
    if text::text_all_in(raw, CharClass::Digit) {
        return match number(raw) {
            Some(n) => Some(PreRelease::Numeric(n)),
            None => None,
        };
    }
    if text::text_all_in(raw, CharClass::PreRelease) {
        Some(PreRelease::Alphanumeric(raw.to_string()))
    } else {
        None
    }
}

fn prerelease(raw: &str) -> (r: Option<Vec<PreRelease>>)
    ensures
        match r {
            Some(v) => parsed_prerelease(raw@) == Some(identifiers(v@)),
            None => parsed_prerelease(raw@) is None,
        },
{
    let parts = text::split(raw, '.');
    let ghost all = text::split_at_char(raw@, '.');
    let mut out: Vec<PreRelease> = Vec::new();
    let mut i: usize = 0;
    while i < parts.len()
        invariant
            i <= parts.len(),
            text::texts(parts@) == all,
            all == text::split_at_char(raw@, '.'),
            out.len() == i,
            forall|k: int|
                0 <= k < i ==> #[trigger] parsed_identifier(all[k]) == Some(out@[k]@),
        decreases parts.len() - i,
    {
        assert(all[i as int] == parts@[i as int]@);
        match identifier(parts[i].as_str()) {
            Some(p) => {
                out.push(p);
            },
            None => {
                return None;
            },
        }
        i = i + 1;
    }
    assert(identifiers(out@) =~= Seq::new(all.len(), |i: int| parsed_identifier(all[i])->0));
    Some(out)
}

/// Parses a version, or gives `None` when it does not fit the grammar.
pub fn parse(value: &str) -> (r: Option<Version>)
    ensures
        match r {
            Some(v) => parsed_version(value@) == Some(v@),
            None => parsed_version(value@) is None,
        },
{
    let value = text::trim(value);
    let count = value.unicode_len();
    let value = if count > 0 && value.get_char(0) == 'v' {
        value.substring_char(1, count)
    } else {
        value
    };
    let pieces = text::split(value, '+');
    proof {
        text::lemma_find_char(value@, '+');
        assert(text::split_at_char(value@, '+').len() > 0);
        assert(pieces@[0]@ == text::texts(pieces@)[0]);
        assert(value@.take(value@.len() as int) == value@);
    }
    let body = pieces[0].as_str();
    assert(body@ == value@.take(text::find_char(value@, '+') as int));
    let (core, pre) = match text::split_once(body, '-') {
        Some((core, pre)) => (core, Some(pre)),
        None => (body.to_string(), None),
    };
    let parts = text::split(core.as_str(), '.');
    assert(text::texts(parts@).len() == parts.len());
    if parts.len() != 3 {
        return None;
    }
    assert(text::texts(parts@)[0] == parts@[0]@);
    assert(text::texts(parts@)[1] == parts@[1]@);
    assert(text::texts(parts@)[2] == parts@[2]@);
    let major: u64 = match number(parts[0].as_str()) {
        Some(n) => n,
        None => {
            return None;
        },
    };
    let minor: u64 = match number(parts[1].as_str()) {
        Some(n) => n,
        None => {
            return None;
        },
    };
    let patch: u64 = match number(parts[2].as_str()) {
        Some(n) => n,
        None => {
            return None;
        },
    };
    let pre = match pre {
        Some(raw) => match prerelease(raw.as_str()) {
            Some(pre) => pre,
            None => {
                return None;
            },
        },
        None => Vec::new(),
    };
    assert(identifiers(Seq::<PreRelease>::empty()) =~= Seq::<Identifier>::empty());
    Some(Version { major, minor, patch, pre })
}

// ---------------------------------------------------------------------------
// Precedence

/// Numbers compare numerically, words as ASCII, and a number comes before a
/// word.
pub open spec fn identifier_below(a: Identifier, b: Identifier) -> bool {
    match (a, b) {
        (Identifier::Number(x), Identifier::Number(y)) => x < y,
        (Identifier::Word(x), Identifier::Word(y)) => text::precedes(x, y),
        (Identifier::Number(_), Identifier::Word(_)) => true,
        (Identifier::Word(_), Identifier::Number(_)) => false,
    }
}

/// The first difference decides; a proper prefix comes first.
pub open spec fn identifiers_below(a: Seq<Identifier>, b: Seq<Identifier>) -> bool
    decreases a.len(),
{
    if b.len() == 0 {
        false
    } else if a.len() == 0 {
        true
    } else if a[0] != b[0] {
        identifier_below(a[0], b[0])
    } else {
        identifiers_below(a.drop_first(), b.drop_first())
    }
}

/// A prerelease comes before the release it leads to.
pub open spec fn prerelease_below(a: Seq<Identifier>, b: Seq<Identifier>) -> bool {
    a.len() > 0 && (b.len() == 0 || identifiers_below(a, b))
}

/// Version `a` is older than version `b`.
pub open spec fn version_below(a: Parsed, b: Parsed) -> bool {
    if a.major != b.major {
        a.major < b.major
    } else if a.minor != b.minor {
        a.minor < b.minor
    } else if a.patch != b.patch {
        a.patch < b.patch
    } else {
        prerelease_below(a.pre, b.pre)
    }
}

pub open spec fn version_order(a: Parsed, b: Parsed) -> Ordering {
    if version_below(a, b) {
        Ordering::Less
    } else if version_below(b, a) {
        Ordering::Greater
    } else {
        Ordering::Equal
    }
}

/// How two version strings order, if both fit the grammar.
pub open spec fn compared(left: Seq<char>, right: Seq<char>) -> Option<Ordering> {
    match (parsed_version(left), parsed_version(right)) {
        (Some(a), Some(b)) => Some(version_order(a, b)),
        _ => None,
    }
}

proof fn lemma_identifier_total(a: Identifier, b: Identifier)
    ensures
        !identifier_below(a, a),
        a == b || identifier_below(a, b) || identifier_below(b, a),
        !(identifier_below(a, b) && identifier_below(b, a)),
{
    if let (Identifier::Word(x), Identifier::Word(y)) = (a, b) {
        text::lemma_precedes_total(x, y);
    }
    if let Identifier::Word(x) = a {
        text::lemma_precedes_total(x, x);
    }
}

proof fn lemma_identifiers_total(a: Seq<Identifier>, b: Seq<Identifier>)
    ensures
        !identifiers_below(a, a),
        a == b || identifiers_below(a, b) || identifiers_below(b, a),
        !(identifiers_below(a, b) && identifiers_below(b, a)),
    decreases a.len(),
{
    if a.len() > 0 {
        lemma_identifiers_total(a.drop_first(), a.drop_first());
    }
    if a.len() > 0 && b.len() > 0 {
        lemma_identifier_total(a[0], b[0]);
        if a[0] == b[0] {
            lemma_identifiers_total(a.drop_first(), b.drop_first());
            if a.drop_first() == b.drop_first() {
                assert(a =~= seq![a[0]] + a.drop_first());
                assert(b =~= seq![b[0]] + b.drop_first());
            }
        }
    }
    if a.len() == 0 && b.len() == 0 {
        assert(a =~= b);
    }
}

proof fn lemma_identifiers_transitive(
    a: Seq<Identifier>,
    b: Seq<Identifier>,
    c: Seq<Identifier>,
)
    requires
        identifiers_below(a, b),
        identifiers_below(b, c),
    ensures
        identifiers_below(a, c),
    decreases a.len(),
{
    if a.len() > 0 {
        if a[0] == b[0] && b[0] == c[0] {
            lemma_identifiers_transitive(a.drop_first(), b.drop_first(), c.drop_first());
        } else {
            lemma_identifier_total(a[0], b[0]);
            lemma_identifier_total(b[0], c[0]);
            if let (Identifier::Word(x), Identifier::Word(y), Identifier::Word(z)) = (
                a[0],
                b[0],
                c[0],
            ) {
                if text::precedes(x, y) && text::precedes(y, z) {
                    text::lemma_precedes_transitive(x, y, z);
                }
                text::lemma_precedes_total(x, z);
            }
        }
    }
}

/// Precedence is a strict total order on what versions say: of two versions
/// either both say the same or exactly one is older.
pub proof fn law_precedence_total(a: Parsed, b: Parsed)
    ensures
        !version_below(a, a),
        a == b || version_below(a, b) || version_below(b, a),
        !(version_below(a, b) && version_below(b, a)),
        version_order(a, b) == Ordering::Equal <==> a == b,
        version_order(a, b) == Ordering::Less <==> version_order(b, a) == Ordering::Greater,
{
    lemma_identifiers_total(a.pre, b.pre);
    lemma_identifiers_total(a.pre, a.pre);
    if a.pre.len() == 0 && b.pre.len() == 0 {
        assert(a.pre =~= b.pre);
    }
}

/// What is older than an older version is older.
pub proof fn law_precedence_transitive(a: Parsed, b: Parsed, c: Parsed)
    requires
        version_below(a, b),
        version_below(b, c),
    ensures
        version_below(a, c),
{
    if a.major == b.major && b.major == c.major && a.minor == b.minor && b.minor == c.minor
        && a.patch == b.patch && b.patch == c.patch && b.pre.len() > 0 && c.pre.len() > 0 {
        lemma_identifiers_transitive(a.pre, b.pre, c.pre);
    }
}

/// A prerelease is older than the release it leads to.
pub proof fn law_prerelease_below_release(a: Parsed, b: Parsed)
    requires
        a.major == b.major,
        a.minor == b.minor,
        a.patch == b.patch,
        a.pre.len() > 0,
        b.pre.len() == 0,
    ensures
        version_order(a, b) == Ordering::Less,
{
}

/// Of two prereleases, one that goes on where the other ends is newer.
pub proof fn law_longer_prerelease_is_newer(a: Parsed, b: Parsed, more: Seq<Identifier>)
    requires
        a.major == b.major,
        a.minor == b.minor,
        a.patch == b.patch,
        a.pre.len() > 0,
        more.len() > 0,
        b.pre == a.pre + more,
    ensures
        version_order(a, b) == Ordering::Less,
{
    lemma_longer_is_above(a.pre, more);
}

proof fn lemma_longer_is_above(a: Seq<Identifier>, more: Seq<Identifier>)
    requires
        more.len() > 0,
    ensures
        identifiers_below(a, a + more),
    decreases a.len(),
{
    if a.len() > 0 {
        assert((a + more).drop_first() =~= a.drop_first() + more);
        lemma_longer_is_above(a.drop_first(), more);
    }
}

proof fn lemma_skip_class_append(s: Seq<char>, rest: Seq<char>, class: CharClass)
    requires
        !text::all_in(s, class),
    ensures
        text::skip_class(s + rest, class) == text::skip_class(s, class) + rest,
    decreases s.len(),
{
    assert((s + rest)[0] == s[0]);
    if class.holds(s[0]) {
        let tail = s.drop_first();
        assert((s + rest).drop_first() =~= tail + rest);
        if text::all_in(tail, class) {
            assert forall|i: int| 0 <= i < s.len() implies class.holds(#[trigger] s[i]) by {
                if i > 0 {
                    assert(s[i] == tail[i - 1]);
                }
            }
        }
        lemma_skip_class_append(tail, rest, class);
    }
}

proof fn lemma_drop_class_prepend(first: Seq<char>, s: Seq<char>, class: CharClass)
    requires
        first.len() > 0,
        !class.holds(first.last()),
    ensures
        text::drop_class(first + s, class) == first + text::drop_class(s, class),
    decreases s.len(),
{
    if s.len() == 0 {
        assert(first + s =~= first);
        assert(first + text::drop_class(s, class) =~= first);
    } else {
        assert((first + s).last() == s.last());
        if class.holds(s.last()) {
            assert((first + s).drop_last() =~= first + s.drop_last());
            lemma_drop_class_prepend(first, s.drop_last(), class);
        }
    }
}

/// Build metadata never affects what a version says.
pub proof fn law_build_metadata_ignored(body: Seq<char>, metadata: Seq<char>)
    requires
        text::drop_class(body, CharClass::Whitespace) == body,
    ensures
        parsed_version(body + seq!['+'] + metadata) == parsed_version(body),
{
    let class = CharClass::Whitespace;
    let whole = body + (seq!['+'] + metadata);
    assert(body + seq!['+'] + metadata =~= whole);
    let s = text::skip_class(body, class);
    text::lemma_skip_class(body, class);
    text::lemma_drop_class(body, class);
    if body.len() == 0 {
        assert(whole[0] == '+');
        assert(s + (seq!['+'] + metadata) =~= whole);
    } else {
        assert(!class.holds(body.last()));
        lemma_skip_class_append(body, seq!['+'] + metadata, class);
        assert(s.last() == body.last());
    }
    assert(text::skip_class(whole, class) == s + (seq!['+'] + metadata));
    assert(text::drop_class(s, class) == s);
    let m = text::drop_class(metadata, class);
    lemma_drop_class_prepend(s + seq!['+'], metadata, class);
    assert(s + (seq!['+'] + metadata) =~= (s + seq!['+']) + metadata);
    let w = (s + seq!['+']) + m;
    assert(text::trimmed(whole) == w);
    assert(text::trimmed(body) == s);
    let skipped: int = if s.len() > 0 && s[0] == 'v' {
        1
    } else {
        0
    };
    assert(w[0] == if s.len() > 0 { s[0] } else { '+' });
    let t = w.skip(skipped);
    let u = s.skip(skipped);
    assert(s.skip(0) =~= s);
    assert(w.skip(0) =~= w);
    text::lemma_find_char(u, '+');
    let k = text::find_char(u, '+') as int;
    assert(t[u.len() as int] == '+');
    assert(forall|i: int| 0 <= i < u.len() ==> t[i] == u[i]);
    text::lemma_find_char_is(t, '+', k);
    assert(t.take(k) =~= u.take(k));
}

/// A leading `v` makes no difference to a version that has none.
pub proof fn law_tag_prefix_ignored(body: Seq<char>)
    requires
        body.len() > 0 ==> body[0] != 'v' && !text::is_whitespace(body[0]),
    ensures
        parsed_version(seq!['v'] + body) == parsed_version(body),
{
    let class = CharClass::Whitespace;
    let tagged = seq!['v'] + body;
    assert(text::skip_class(tagged, class) == tagged);
    assert(text::skip_class(body, class) == body);
    lemma_drop_class_prepend(seq!['v'], body, class);
    let t = text::trimmed(body);
    text::lemma_drop_class(body, class);
    assert(text::trimmed(tagged) == seq!['v'] + t);
    assert((seq!['v'] + t).drop_first() =~= t);
    if t.len() > 0 {
        assert(t[0] == body[0]);
    }
}

fn identifier_order(a: &PreRelease, b: &PreRelease) -> (r: Ordering)
    ensures
        r == Ordering::Less <==> identifier_below(a@, b@),
        r == Ordering::Greater <==> identifier_below(b@, a@),
        r == Ordering::Equal <==> a@ == b@,
{
    proof {
        lemma_identifier_total(a@, b@);
        lemma_identifier_total(b@, a@);
    }
    match (a, b) {
        (PreRelease::Numeric(x), PreRelease::Numeric(y)) => {
            if *x < *y {
                Ordering::Less
            } else if *y < *x {
                Ordering::Greater
            } else {
                Ordering::Equal
            }
        },
        (PreRelease::Alphanumeric(x), PreRelease::Alphanumeric(y)) => {
            if text::text_precedes(x.as_str(), y.as_str()) {
                Ordering::Less
            } else if text::text_precedes(y.as_str(), x.as_str()) {
                Ordering::Greater
            } else {
                Ordering::Equal
            }
        },
        (PreRelease::Numeric(_), PreRelease::Alphanumeric(_)) => Ordering::Less,
        (PreRelease::Alphanumeric(_), PreRelease::Numeric(_)) => Ordering::Greater,
    }
}

fn identifiers_order(a: &Vec<PreRelease>, b: &Vec<PreRelease>) -> (r: Ordering)
    ensures
        r == Ordering::Less <==> identifiers_below(identifiers(a@), identifiers(b@)),
        r == Ordering::Greater <==> identifiers_below(identifiers(b@), identifiers(a@)),
{
    let ghost x = identifiers(a@);
    let ghost y = identifiers(b@);
    let ghost mut rest_x = x;
    let ghost mut rest_y = y;
    let mut i: usize = 0;
    loop
        invariant
            i <= a.len(),
            i <= b.len(),
            x == identifiers(a@),
            y == identifiers(b@),
            rest_x.len() == a.len() - i,
            rest_y.len() == b.len() - i,
            forall|k: int| 0 <= k < rest_x.len() ==> #[trigger] rest_x[k] == x[k + i],
            forall|k: int| 0 <= k < rest_y.len() ==> #[trigger] rest_y[k] == y[k + i],
            identifiers_below(x, y) == identifiers_below(rest_x, rest_y),
            identifiers_below(y, x) == identifiers_below(rest_y, rest_x),
        decreases a.len() - i,
    {
        if i == a.len() {
            if i == b.len() {
                return Ordering::Equal;
            }
            return Ordering::Less;
        }
        if i == b.len() {
            return Ordering::Greater;
        }
        let order = identifier_order(&a[i], &b[i]);
        assert(rest_x[0] == x[0 + i]);
        assert(rest_y[0] == y[0 + i]);
        match order {
            Ordering::Equal => {},
            _ => {
                return order;
            },
        }
        proof {
            rest_x = rest_x.drop_first();
            rest_y = rest_y.drop_first();
        }
        i = i + 1;
    }
}

impl Version {
    /// The precedence of two versions.
    pub fn cmp(&self, other: &Self) -> (r: Ordering)
        ensures
            r == version_order(self@, other@),
    {
        if self.major != other.major {
            return if self.major < other.major {
                Ordering::Less
            } else {
                Ordering::Greater
            };
        }
        if self.minor != other.minor {
            return if self.minor < other.minor {
                Ordering::Less
            } else {
                Ordering::Greater
            };
        }
        if self.patch != other.patch {
            return if self.patch < other.patch {
                Ordering::Less
            } else {
                Ordering::Greater
            };
        }
        // A release outranks any prerelease of the same core version, so "no
        // prerelease" cannot be compared as an empty list.
        if self.pre.len() == 0 {
            if other.pre.len() == 0 {
                Ordering::Equal
            } else {
                Ordering::Greater
            }
        } else if other.pre.len() == 0 {
            Ordering::Less
        } else {
            proof {
                lemma_identifiers_total(identifiers(self.pre@), identifiers(other.pre@));
            }
            identifiers_order(&self.pre, &other.pre)
        }
    }
}

impl PartialOrdSpecImpl for Version {
    open spec fn obeys_partial_cmp_spec() -> bool {
        true
    }

    open spec fn partial_cmp_spec(&self, other: &Version) -> Option<Ordering> {
        Some(version_order(self@, other@))
    }
}

impl PartialOrd for Version {
    fn partial_cmp(&self, other: &Version) -> (r: Option<Ordering>) {
        Some(self.cmp(other))
    }
}

/// Orders two version strings, or gives `None` when either does not parse.
///
/// Callers must not fall back to string equality on `None`: "we could not
/// tell" and "they are the same" are different answers, and only one of them
/// is safe to act on.
pub fn compare(left: &str, right: &str) -> (r: Option<Ordering>)
    ensures
        r == compared(left@, right@),
{
    match (parse(left), parse(right)) {
        (Some(a), Some(b)) => Some(a.cmp(&b)),
        _ => None,
    }
}

/// Turning a comparison around turns its answer around.
pub proof fn lemma_compared_turns_around(a: Seq<char>, b: Seq<char>)
    ensures
        compared(a, b) is None <==> parsed_version(a) is None || parsed_version(b) is None,
        compared(a, b) == Some(Ordering::Less) <==> compared(b, a) == Some(Ordering::Greater),
        compared(a, b) == Some(Ordering::Equal) <==> compared(b, a) == Some(Ordering::Equal),
{
    if let (Some(x), Some(y)) = (parsed_version(a), parsed_version(b)) {
        law_precedence_total(x, y);
        law_precedence_total(y, x);
    }
}

/// The text of a release: three numbers.
pub open spec fn release_text(major: nat, minor: nat, patch: nat) -> Seq<char> {
    text::decimal(major) + seq!['.'] + text::decimal(minor) + seq!['.'] + text::decimal(patch)
}

proof fn lemma_no_leading_zero(n: nat)
    ensures
        text::decimal(n).len() > 0,
        text::decimal(n).len() > 1 ==> text::decimal(n)[0] != '0',
        n > 0 ==> text::decimal(n)[0] != '0',
    decreases n,
{
    if n >= 10 {
        lemma_no_leading_zero(n / 10);
        assert(text::decimal(n)[0] == text::decimal(n / 10)[0]);
    }
}

proof fn lemma_strict_decimal(n: nat)
    requires
        n <= u64::MAX,
    ensures
        strict_number(text::decimal(n)) == Some(n),
        text::all_in(text::decimal(n), CharClass::Digit),
        text::decimal(n).len() > 0,
{
    text::law_decimal_reads_back(n, u64::MAX as nat);
    lemma_no_leading_zero(n);
    assert(text::is_digit(text::decimal(n)[0]));
}

/// What a release text says are its three numbers, and no prerelease.
pub proof fn law_release_reads_back(major: nat, minor: nat, patch: nat)
    requires
        major <= u64::MAX,
        minor <= u64::MAX,
        patch <= u64::MAX,
    ensures
        parsed_version(release_text(major, minor, patch)) == Some(
            Parsed { major, minor, patch, pre: seq![] },
        ),
{
    let (a, b, c) = (text::decimal(major), text::decimal(minor), text::decimal(patch));
    lemma_strict_decimal(major);
    lemma_strict_decimal(minor);
    lemma_strict_decimal(patch);
    let s = release_text(major, minor, patch);
    let class = CharClass::Whitespace;
    assert(s[0] == a[0]);
    assert(s.last() == c.last());
    assert(text::is_digit(a[0]) && text::is_digit(c[c.len() - 1]));
    assert(text::skip_class(s, class) == s);
    assert(text::drop_class(s, class) == s);
    assert forall|i: int| 0 <= i < s.len() implies text::is_digit(#[trigger] s[i]) || s[i]
        == '.' by {
        if i < a.len() {
            assert(s[i] == a[i]);
        } else if i > a.len() && i < a.len() + 1 + b.len() {
            assert(s[i] == b[i - a.len() - 1]);
        } else if i > a.len() + 1 + b.len() {
            assert(s[i] == c[i - a.len() - b.len() - 2]);
        }
    }
    text::lemma_find_char_is(s, '+', s.len() as int);
    assert(s.take(s.len() as int) =~= s);
    assert(version_body(s) == s);
    text::lemma_find_char_is(s, '-', s.len() as int);
    lemma_release_parts(major, minor, patch);
}

/// A release text falls into its three numbers.
pub proof fn lemma_release_parts(major: nat, minor: nat, patch: nat)
    ensures
        text::split_at_char(release_text(major, minor, patch), '.') == seq![
            text::decimal(major),
            text::decimal(minor),
            text::decimal(patch),
        ],
{
    let (a, b, c) = (text::decimal(major), text::decimal(minor), text::decimal(patch));
    text::law_decimal_reads_back(major, major);
    text::law_decimal_reads_back(minor, minor);
    text::law_decimal_reads_back(patch, patch);
    let s = release_text(major, minor, patch);
    let rest = b + seq!['.'] + c;
    assert(s =~= a + (seq!['.'] + rest));
    assert forall|i: int| 0 <= i < a.len() implies s[i] != '.' by {
        assert(text::is_digit(a[i]) && s[i] == a[i]);
    }
    text::lemma_find_char_is(s, '.', a.len() as int);
    assert(s.take(a.len() as int) =~= a);
    assert(s.skip(a.len() as int + 1) =~= rest);
    assert forall|i: int| 0 <= i < b.len() implies rest[i] != '.' by {
        assert(text::is_digit(b[i]) && rest[i] == b[i]);
    }
    text::lemma_find_char_is(rest, '.', b.len() as int);
    assert(rest.take(b.len() as int) =~= b);
    assert(rest.skip(b.len() as int + 1) =~= c);
    assert forall|i: int| 0 <= i < c.len() implies c[i] != '.' by {
        assert(text::is_digit(c[i]));
    }
    text::lemma_find_char_is(c, '.', c.len() as int);
    assert(text::split_at_char(c, '.') == seq![c]);
    assert(text::split_at_char(rest, '.') =~= seq![b, c]);
    assert(text::split_at_char(s, '.') =~= seq![a, b, c]);
}

/// Releases order as numbers, the first difference deciding: `0.10.0` is newer
/// than `0.9.0`.
pub proof fn law_releases_order_as_numbers(
    a: (nat, nat, nat),
    b: (nat, nat, nat),
)
    requires
        a.0 <= u64::MAX && a.1 <= u64::MAX && a.2 <= u64::MAX,
        b.0 <= u64::MAX && b.1 <= u64::MAX && b.2 <= u64::MAX,
    ensures
        ({
            let found = compared(release_text(a.0, a.1, a.2), release_text(b.0, b.1, b.2));
            &&& found == Some(Ordering::Less) <==> a.0 < b.0 || (a.0 == b.0 && (a.1 < b.1 || (a.1
                == b.1 && a.2 < b.2)))
            &&& found == Some(Ordering::Equal) <==> a == b
            &&& found is Some
        }),
{
    law_release_reads_back(a.0, a.1, a.2);
    law_release_reads_back(b.0, b.1, b.2);
}

/// Of two prereleases the first identifier that differs decides: a number by
/// its value, a word as text, and a number before any word.
pub proof fn law_first_different_identifier_decides(
    a: Parsed,
    b: Parsed,
    same: Seq<Identifier>,
    x: Identifier,
    y: Identifier,
    more: Seq<Identifier>,
    other: Seq<Identifier>,
)
    requires
        a.major == b.major && a.minor == b.minor && a.patch == b.patch,
        a.pre == same + (seq![x] + more),
        b.pre == same + (seq![y] + other),
        x != y,
    ensures
        version_order(a, b) == Ordering::Less <==> match (x, y) {
            (Identifier::Number(m), Identifier::Number(n)) => m < n,
            (Identifier::Word(m), Identifier::Word(n)) => text::precedes(m, n),
            (Identifier::Number(_), Identifier::Word(_)) => true,
            (Identifier::Word(_), Identifier::Number(_)) => false,
        },
{
    lemma_common_start(same, seq![x] + more, seq![y] + other);
}

proof fn lemma_common_start(same: Seq<Identifier>, a: Seq<Identifier>, b: Seq<Identifier>)
    ensures
        identifiers_below(same + a, same + b) == identifiers_below(a, b),
    decreases same.len(),
{
    if same.len() > 0 {
        assert((same + a).drop_first() =~= same.drop_first() + a);
        assert((same + b).drop_first() =~= same.drop_first() + b);
        lemma_common_start(same.drop_first(), a, b);
    } else {
        assert(same + a =~= a);
        assert(same + b =~= b);
    }
}

/// Only three numbers make a version: a body is read exactly where what stands
/// before its first dash falls into three of them at its dots, and what stands
/// behind it is a prerelease.
pub proof fn law_version_takes_three_numbers(body: Seq<char>)
    ensures
        parsed_body(body) is Some <==> ({
            let core = match text::cut_at_char(body, '-') {
                Some((core, _)) => core,
                None => body,
            };
            let parts = text::split_at_char(core, '.');
            &&& parts.len() == 3
            &&& strict_number(parts[0]) is Some
            &&& strict_number(parts[1]) is Some
            &&& strict_number(parts[2]) is Some
            &&& text::cut_at_char(body, '-') matches Some((_, pre)) ==> parsed_prerelease(pre)
                is Some
        }),
{
}

/// A number of a version has no leading zero, and a prerelease identifier is a
/// number or a word of letters, digits and dashes.
pub proof fn law_version_grammar(raw: Seq<char>)
    ensures
        strict_number(raw) matches Some(n) ==> raw.len() > 0 && (raw.len() > 1 ==> raw[0] != '0')
            && n == text::digits_value(raw) && forall|i: int|
            0 <= i < raw.len() ==> text::is_digit(#[trigger] raw[i]),
        parsed_identifier(raw) matches Some(Identifier::Number(n)) ==> strict_number(raw) == Some(n),
        parsed_identifier(raw) matches Some(Identifier::Word(word)) ==> word == raw && raw.len() > 0
            && exists|i: int| 0 <= i < raw.len() && !text::is_digit(#[trigger] raw[i]),
        raw.len() == 0 ==> parsed_identifier(raw) is None && strict_number(raw) is None,
{
    if strict_number(raw) is Some {
        assert forall|i: int| 0 <= i < raw.len() implies text::is_digit(#[trigger] raw[i]) by {
            assert(CharClass::Digit.holds(raw[i]));
        }
    }
    if parsed_identifier(raw) matches Some(Identifier::Word(_)) {
        let i = choose|i: int| 0 <= i < raw.len() && !CharClass::Digit.holds(#[trigger] raw[i]);
        assert(!text::is_digit(raw[i]));
    }
}

} // verus!
