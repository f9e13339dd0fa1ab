//! Text primitives. A text is modelled by its sequence of characters; where a
//! length is a size limit it is the length of the UTF-8 encoding.

use vstd::prelude::*;
use vstd::string::*;
use vstd::utf8::encode_utf8;

verus! {

/// `String::push` appends one character at the end.
pub assume_specification[ String::push ](s: &mut String, c: char)
    ensures
        final(s)@ == old(s)@.push(c),
;

/// The number of bytes that a text takes in UTF-8.
pub open spec fn utf8_len(s: Seq<char>) -> nat {
    encode_utf8(s).len()
}

pub proof fn lemma_utf8_empty()
    ensures
        utf8_len(seq![]) == 0,
{
}

/// The characters of each text in a list.
pub open spec fn texts(v: Seq<String>) -> Seq<Seq<char>> {
    Seq::new(v.len(), |i: int| v[i]@)
}

pub open spec fn opt_text(v: Option<String>) -> Option<Seq<char>> {
    match v {
        Some(s) => Some(s@),
        None => None,
    }
}

/// The text, or none at all.
pub open spec fn text_or_empty(v: Option<Seq<char>>) -> Seq<char> {
    match v {
        Some(s) => s,
        None => seq![],
    }
}

pub fn str_or_empty(v: &Option<String>) -> (r: &str)
    ensures
        r@ == text_or_empty(opt_text(*v)),
{
    match v {
        Some(s) => s.as_str(),
        None => {
            let r = "";
            proof {
                reveal_strlit("");
                assert(r@ =~= seq![]);
            }
            r
        },
    }
}

pub open spec fn opt_str(v: Option<&str>) -> Option<Seq<char>> {
    match v {
        Some(s) => Some(s@),
        None => None,
    }
}

pub fn opt_eq(a: &Option<String>, b: &Option<String>) -> (r: bool)
    ensures
        r == (opt_text(*a) == opt_text(*b)),
{
    match (a, b) {
        (Some(x), Some(y)) => text_eq(x.as_str(), y.as_str()),
        (None, None) => true,
        _ => false,
    }
}

/// Whether a list holds a text.
pub fn list_has(v: &Vec<String>, s: &str) -> (r: bool)
    ensures
        r == texts(v@).contains(s@),
{
    let mut i: usize = 0;
    while i < v.len()
        invariant
            i <= v.len(),
            forall|k: int| 0 <= k < i ==> (#[trigger] v@[k])@ != s@,
        decreases v.len() - i,
    {
        if text_eq(v[i].as_str(), s) {
            assert(texts(v@)[i as int] == s@);
            return true;
        }
        i = i + 1;
    }
    false
}

pub fn clone_option(v: &Option<String>) -> (r: Option<String>)
    ensures
        r == *v,
{
    match v {
        Some(s) => Some(s.clone()),
        None => None,
    }
}

pub fn clone_list(v: &Vec<String>) -> (r: Vec<String>)
    ensures
        r@ == v@,
{
    let mut r: Vec<String> = Vec::new();
    let mut i: usize = 0;
    while i < v.len()
        invariant
            i <= v.len(),
            r@ == v@.take(i as int),
        decreases v.len() - i,
    {
        r.push(v[i].clone());
        i = i + 1;
        assert(r@ =~= v@.take(i as int));
    }
    assert(v@.take(i as int) =~= v@);
    r
}

pub broadcast proof fn lemma_texts_push(v: Seq<String>, s: String)
    ensures
        #[trigger] texts(v.push(s)) == texts(v).push(s@),
{
    assert(texts(v.push(s)) =~= texts(v).push(s@));
}

/// The sets of characters that the rules of this crate speak of.
#[derive(Clone, Copy, PartialEq, Eq, Structural)]
pub enum CharClass {
    /// Unicode `White_Space`.
    Whitespace,
    /// `\n` and `\r`.
    LineEnd,
    /// `\n`, `\r` and `"`.
    Quoting,
    /// `-`.
    Dash,
    /// `0` to `9`.
    Digit,
    /// Hexadecimal digits of either case.
    Hex,
    /// ASCII letters and digits.
    Alphanumeric,
    /// Letters, digits, `-`.
    PreRelease,
    /// Letters, digits, `-`, `_`.
    Word,
    /// Letters, digits, `-`, `_`, `.`.
    Segment,
    /// Letters, digits, `-`, `_`, `.`, `:`.
    PluginId,
    /// Letters, digits, `-`, `_`, `.`, `@`.
    Alias,
    /// What may stand in a git ref: no ASCII control character and none of
    /// space, `~`, `^`, `:`, `?`, `*`, `[`, `\`.
    Reference,
}

pub open spec fn is_digit(c: char) -> bool {
    '0' <= c <= '9'
}

pub open spec fn is_alphanumeric(c: char) -> bool {
    is_digit(c) || 'a' <= c <= 'z' || 'A' <= c <= 'Z'
}

pub open spec fn is_whitespace(c: char) -> bool {
    ||| '\u{9}' <= c <= '\u{d}'
    ||| c == ' '
    ||| c == '\u{85}'
    ||| c == '\u{a0}'
    ||| c == '\u{1680}'
    ||| '\u{2000}' <= c <= '\u{200a}'
    ||| c == '\u{2028}'
    ||| c == '\u{2029}'
    ||| c == '\u{202f}'
    ||| c == '\u{205f}'
    ||| c == '\u{3000}'
}

impl CharClass {
    pub open spec fn holds(self, c: char) -> bool {
        match self {
            CharClass::Whitespace => is_whitespace(c),
            CharClass::LineEnd => c == '\n' || c == '\r',
            CharClass::Quoting => c == '\n' || c == '\r' || c == '"',
            CharClass::Dash => c == '-',
            CharClass::Digit => is_digit(c),
            CharClass::Hex => is_digit(c) || 'a' <= c <= 'f' || 'A' <= c <= 'F',
            CharClass::Alphanumeric => is_alphanumeric(c),
            CharClass::PreRelease => is_alphanumeric(c) || c == '-',
            CharClass::Word => is_alphanumeric(c) || c == '-' || c == '_',
            CharClass::Segment => is_alphanumeric(c) || c == '-' || c == '_' || c == '.',
            CharClass::PluginId => is_alphanumeric(c) || c == '-' || c == '_' || c == '.' || c
                == ':',
            CharClass::Alias => is_alphanumeric(c) || c == '-' || c == '_' || c == '.' || c == '@',
            CharClass::Reference => !(c < ' ' || c == '\u{7f}') && c != ' ' && c != '~' && c != '^'
                && c != ':' && c != '?' && c != '*' && c != '[' && c != '\\',
        }
    }

    pub fn has(self, c: char) -> (r: bool)
        ensures
            r == self.holds(c),
    {
        let digit = '0' <= c && c <= '9';
        let alphanumeric = digit || ('a' <= c && c <= 'z') || ('A' <= c && c <= 'Z');
        match self {
            CharClass::Whitespace => ('\u{9}' <= c && c <= '\u{d}') || c == ' ' || c == '\u{85}'
                || c == '\u{a0}' || c == '\u{1680}' || ('\u{2000}' <= c && c <= '\u{200a}') || c
                == '\u{2028}' || c == '\u{2029}' || c == '\u{202f}' || c == '\u{205f}' || c
                == '\u{3000}',
            CharClass::LineEnd => c == '\n' || c == '\r',
            CharClass::Quoting => c == '\n' || c == '\r' || c == '"',
            CharClass::Dash => c == '-',
            CharClass::Digit => digit,
            CharClass::Hex => digit || ('a' <= c && c <= 'f') || ('A' <= c && c <= 'F'),
            CharClass::Alphanumeric => alphanumeric,
            CharClass::PreRelease => alphanumeric || c == '-',
            CharClass::Word => alphanumeric || c == '-' || c == '_',
            CharClass::Segment => alphanumeric || c == '-' || c == '_' || c == '.',
            CharClass::PluginId => alphanumeric || c == '-' || c == '_' || c == '.' || c == ':',
            CharClass::Alias => alphanumeric || c == '-' || c == '_' || c == '.' || c == '@',
            CharClass::Reference => !(c < ' ' || c == '\u{7f}') && c != ' ' && c != '~' && c != '^'
                && c != ':' && c != '?' && c != '*' && c != '[' && c != '\\',
        }
    }
}

/// Every character of the text belongs to the class.
pub open spec fn all_in(s: Seq<char>, class: CharClass) -> bool {
    forall|i: int| 0 <= i < s.len() ==> class.holds(#[trigger] s[i])
}

/// The characters of a text, one by one.
pub fn chars_of(s: &str) -> (r: Vec<char>)
    ensures
        r@ == s@,
{
    let mut out: Vec<char> = Vec::new();
    for c in it: s.chars()
        invariant
            out@ == it.seq().take(it.index() as int),
            it.seq() == s@,
    {
        out.push(c);
    }
    out
}

/// The text made of characters `from..to` of a list.
pub fn slice_text(v: &Vec<char>, from: usize, to: usize) -> (r: String)
    requires
        from <= to <= v.len(),
    ensures
        r@ == v@.subrange(from as int, to as int),
{
    let mut out = String::new();
    let mut i: usize = from;
    while i < to
        invariant
            from <= i <= to <= v.len(),
            out@ == v@.subrange(from as int, i as int),
        decreases to - i,
    {
        out.push(v[i]);
        i = i + 1;
    }
    out
}

pub fn byte_len(s: &str) -> (r: usize)
    ensures
        r as nat == utf8_len(s@),
{
    s.as_bytes().len()
}

pub fn text_all_in(s: &str, class: CharClass) -> (r: bool)
    ensures
        r == all_in(s@, class),
{
    let v = chars_of(s);
    let mut i: usize = 0;
    while i < v.len()
        invariant
            i <= v.len(),
            v@ == s@,
            forall|j: int| 0 <= j < i ==> class.holds(#[trigger] v@[j]),
        decreases v.len() - i,
    {
        if !class.has(v[i]) {
            assert(!class.holds(s@[i as int]));
            return false;
        }
        i = i + 1;
    }
    true
}

/// Two texts are equal when they hold the same characters.
pub fn text_eq(a: &str, b: &str) -> (r: bool)
    ensures
        r == (a@ == b@),
{
    let x = chars_of(a);
    let y = chars_of(b);
    if x.len() != y.len() {
        return false;
    }
    let mut i: usize = 0;
    while i < x.len()
        invariant
            i <= x.len(),
            x.len() == y.len(),
            x@ == a@,
            y@ == b@,
            forall|j: int| 0 <= j < i ==> x@[j] == y@[j],
        decreases x.len() - i,
    {
        if x[i] != y[i] {
            assert(a@[i as int] != b@[i as int]);
            return false;
        }
        i = i + 1;
    }
    assert(a@ =~= b@);
    true
}

// ---------------------------------------------------------------------------
// Trimming

/// The text without its leading characters of the class.
pub open spec fn skip_class(s: Seq<char>, class: CharClass) -> Seq<char>
    decreases s.len(),
{
    if s.len() > 0 && class.holds(s[0]) {
        skip_class(s.drop_first(), class)
    } else {
        s
    }
}

/// The text without its trailing characters of the class.
pub open spec fn drop_class(s: Seq<char>, class: CharClass) -> Seq<char>
    decreases s.len(),
{
    if s.len() > 0 && class.holds(s.last()) {
        drop_class(s.drop_last(), class)
    } else {
        s
    }
}

/// The text without its leading and trailing characters of the class.
pub open spec fn strip_class(s: Seq<char>, class: CharClass) -> Seq<char> {
    drop_class(skip_class(s, class), class)
}

/// The text without the whitespace around it.
pub open spec fn trimmed(s: Seq<char>) -> Seq<char> {
    strip_class(s, CharClass::Whitespace)
}

fn skip_count(v: &Vec<char>, class: CharClass) -> (r: usize)
    ensures
        r <= v.len(),
        v@.skip(r as int) == skip_class(v@, class),
{
    let mut i: usize = 0;
    assert(v@.skip(0) == v@);
    while i < v.len() && class.has(v[i])
        invariant
            i <= v.len(),
            skip_class(v@, class) == skip_class(v@.skip(i as int), class),
        decreases v.len() - i,
    {
        assert(v@.skip(i as int).drop_first() == v@.skip(i + 1));
        i = i + 1;
    }
    i
}

fn keep_count(v: &Vec<char>, from: usize, class: CharClass) -> (r: usize)
    requires
        from <= v.len(),
    ensures
        from <= r <= v.len(),
        v@.subrange(from as int, r as int) == drop_class(v@.skip(from as int), class),
{
    let mut i: usize = v.len();
    assert(v@.subrange(from as int, v.len() as int) == v@.skip(from as int));
    while i > from && class.has(v[i - 1])
        invariant
            from <= i <= v.len(),
            drop_class(v@.skip(from as int), class) == drop_class(
                v@.subrange(from as int, i as int),
                class,
            ),
        decreases i,
    {
        assert(v@.subrange(from as int, i as int).drop_last() == v@.subrange(
            from as int,
            i - 1,
        ));
        i = i - 1;
    }
    i
}

pub fn strip_class_of<'a>(s: &'a str, class: CharClass) -> (r: &'a str)
    ensures
        r@ == strip_class(s@, class),
{
    let v = chars_of(s);
    let from = skip_count(&v, class);
    let to = keep_count(&v, from, class);
    s.substring_char(from, to)
}

pub fn skip_class_of<'a>(s: &'a str, class: CharClass) -> (r: &'a str)
    ensures
        r@ == skip_class(s@, class),
{
    let v = chars_of(s);
    let from = skip_count(&v, class);
    let r = s.substring_char(from, v.len());
    assert(v@.subrange(from as int, v.len() as int) == v@.skip(from as int));
    r
}

pub fn drop_class_of<'a>(s: &'a str, class: CharClass) -> (r: &'a str)
    ensures
        r@ == drop_class(s@, class),
{
    let v = chars_of(s);
    assert(v@.skip(0) == v@);
    let to = keep_count(&v, 0, class);
    s.substring_char(0, to)
}

/// `s` without the whitespace around it.
pub fn trim<'a>(s: &'a str) -> (r: &'a str)
    ensures
        r@ == trimmed(s@),
{
    strip_class_of(s, CharClass::Whitespace)
}

/// What is left starts with the first character outside the class.
pub proof fn lemma_skip_class(s: Seq<char>, class: CharClass)
    ensures
        skip_class(s, class).len() <= s.len(),
        skip_class(s, class) == s.skip(s.len() - skip_class(s, class).len()),
        skip_class(s, class).len() > 0 ==> !class.holds(skip_class(s, class)[0]),
        skip_class(s, class).len() == 0 ==> all_in(s, class),
        skip_class(s, class).len() == s.len() ==> skip_class(s, class) == s,
    decreases s.len(),
{
    if s.len() > 0 && class.holds(s[0]) {
        let rest = s.drop_first();
        lemma_skip_class(rest, class);
        let t = skip_class(rest, class);
        assert(rest.skip(rest.len() - t.len()) =~= s.skip(s.len() - t.len()));
        if t.len() == 0 {
            assert forall|i: int| 0 <= i < s.len() implies class.holds(#[trigger] s[i]) by {
                if i > 0 {
                    assert(s[i] == rest[i - 1]);
                }
            }
        }
    } else {
        assert(s.skip(0) =~= s);
    }
}

/// What is left ends with the last character outside the class.
pub proof fn lemma_drop_class(s: Seq<char>, class: CharClass)
    ensures
        drop_class(s, class).len() <= s.len(),
        drop_class(s, class) == s.take(drop_class(s, class).len() as int),
        drop_class(s, class).len() > 0 ==> !class.holds(drop_class(s, class).last()),
        drop_class(s, class).len() == 0 ==> all_in(s, class),
    decreases s.len(),
{
    if s.len() > 0 && class.holds(s.last()) {
        let rest = s.drop_last();
        lemma_drop_class(rest, class);
        let t = drop_class(rest, class);
        assert(rest.take(t.len() as int) =~= s.take(t.len() as int));
        if t.len() == 0 {
            assert forall|i: int| 0 <= i < s.len() implies class.holds(#[trigger] s[i]) by {
                if i < rest.len() {
                    assert(s[i] == rest[i]);
                }
            }
        }
    } else {
        assert(s.take(s.len() as int) =~= s);
    }
}

// ---------------------------------------------------------------------------
// Letter case

pub open spec fn lower(c: char) -> char {
    if 'A' <= c <= 'Z' {
        (c as u8 + 32) as u8 as char
    } else {
        c
    }
}

/// ASCII letters in lower case, all else unchanged.
pub open spec fn lowercase(s: Seq<char>) -> Seq<char> {
    Seq::new(s.len(), |i: int| lower(s[i]))
}

pub fn lower_char(c: char) -> (r: char)
    ensures
        r == lower(c),
{
    if 'A' <= c && c <= 'Z' {
        ((c as u8) + 32) as char
    } else {
        c
    }
}

pub fn to_lower(s: &str) -> (r: String)
    ensures
        r@ == lowercase(s@),
{
    let v = chars_of(s);
    let mut out = String::new();
    let mut i: usize = 0;
    while i < v.len()
        invariant
            i <= v.len(),
            v@ == s@,
            out@ == lowercase(s@.take(i as int)),
        decreases v.len() - i,
    {
        out.push(lower_char(v[i]));
        i = i + 1;
        assert(out@ =~= lowercase(s@.take(i as int)));
    }
    assert(s@.take(i as int) == s@);
    out
}

/// Equal up to the case of ASCII letters.
pub fn eq_ignore_case(a: &str, b: &str) -> (r: bool)
    ensures
        r == (lowercase(a@) == lowercase(b@)),
{
    let x = to_lower(a);
    let y = to_lower(b);
    x == y
}

// ---------------------------------------------------------------------------
// Prefixes, suffixes, occurrences

/// `t` stands in `s` from position `i` on.
pub open spec fn occurs_at(s: Seq<char>, t: Seq<char>, i: int) -> bool {
    0 <= i && i + t.len() <= s.len() && s.subrange(i, i + t.len()) == t
}

pub open spec fn has_text(s: Seq<char>, t: Seq<char>) -> bool {
    exists|i: int| occurs_at(s, t, i)
}

pub open spec fn begins_with(s: Seq<char>, t: Seq<char>) -> bool {
    occurs_at(s, t, 0)
}

pub open spec fn finishes_with(s: Seq<char>, t: Seq<char>) -> bool {
    occurs_at(s, t, s.len() - t.len())
}

fn occurs(v: &Vec<char>, w: &Vec<char>, at: usize) -> (r: bool)
    ensures
        r == occurs_at(v@, w@, at as int),
{
    if at > v.len() || v.len() - at < w.len() {
        return false;
    }
    let mut j: usize = 0;
    while j < w.len()
        invariant
            j <= w.len(),
            at + w.len() <= v.len(),
            forall|k: int| 0 <= k < j ==> v@[at + k] == w@[k],
        decreases w.len() - j,
    {
        if v[at + j] != w[j] {
            assert(v@.subrange(at as int, at + w.len())[j as int] != w@[j as int]);
            return false;
        }
        j = j + 1;
    }
    assert(v@.subrange(at as int, at + w.len()) =~= w@);
    true
}

pub fn contains_text(s: &str, t: &str) -> (r: bool)
    ensures
        r == has_text(s@, t@),
{
    let v = chars_of(s);
    let w = chars_of(t);
    if w.len() > v.len() {
        return false;
    }
    let last: usize = v.len() - w.len();
    let mut i: usize = 0;
    while i <= last
        invariant
            i <= last + 1,
            last == v.len() - w.len(),
            v@ == s@,
            w@ == t@,
            forall|k: int| 0 <= k < i ==> !occurs_at(s@, t@, k),
        decreases last + 1 - i,
    {
        if occurs(&v, &w, i) {
            return true;
        }
        if i == last {
            assert forall|k: int| !occurs_at(s@, t@, k) by {}
            return false;
        }
        i = i + 1;
    }
    false
}

pub fn starts_with(s: &str, t: &str) -> (r: bool)
    ensures
        r == begins_with(s@, t@),
{
    let v = chars_of(s);
    let w = chars_of(t);
    occurs(&v, &w, 0)
}

pub fn ends_with(s: &str, t: &str) -> (r: bool)
    ensures
        r == finishes_with(s@, t@),
{
    let v = chars_of(s);
    let w = chars_of(t);
    if w.len() > v.len() {
        return false;
    }
    occurs(&v, &w, v.len() - w.len())
}

// ---------------------------------------------------------------------------
// Splitting

/// The position of the first `c` in `s`, or the length of `s`.
pub open spec fn find_char(s: Seq<char>, c: char) -> nat
    decreases s.len(),
{
    if s.len() == 0 || s[0] == c {
        0
    } else {
        1 + find_char(s.drop_first(), c)
    }
}

pub proof fn lemma_find_char(s: Seq<char>, c: char)
    ensures
        find_char(s, c) <= s.len(),
        find_char(s, c) < s.len() ==> s[find_char(s, c) as int] == c,
        forall|i: int| 0 <= i < find_char(s, c) ==> s[i] != c,
    decreases s.len(),
{
    if s.len() > 0 && s[0] != c {
        let rest = s.drop_first();
        lemma_find_char(rest, c);
        assert forall|i: int| 0 <= i < find_char(s, c) implies s[i] != c by {
            if i > 0 {
                assert(s[i] == rest[i - 1]);
            }
        }
    }
}

/// The first occurrence is the one position that holds `c` after others that
/// do not.
pub proof fn lemma_find_char_is(s: Seq<char>, c: char, k: int)
    requires
        0 <= k <= s.len(),
        k < s.len() ==> s[k] == c,
        forall|i: int| 0 <= i < k ==> s[i] != c,
    ensures
        find_char(s, c) == k,
{
    lemma_find_char(s, c);
}

fn find_from(v: &Vec<char>, from: usize, c: char) -> (r: usize)
    requires
        from <= v.len(),
    ensures
        from <= r <= v.len(),
        r == from + find_char(v@.skip(from as int), c),
        r < v.len() ==> v@[r as int] == c,
        forall|i: int| from <= i < r ==> v@[i] != c,
{
    let mut i: usize = from;
    while i < v.len() && v[i] != c
        invariant
            from <= i <= v.len(),
            forall|k: int| from <= k < i ==> v@[k] != c,
        decreases v.len() - i,
    {
        i = i + 1;
    }
    proof {
        lemma_find_char_is(v@.skip(from as int), c, i - from);
    }
    i
}

/// The position of the first `c`, or the length where there is none.
pub fn position_of(s: &str, c: char) -> (r: usize)
    ensures
        r == find_char(s@, c),
{
    let v = chars_of(s);
    assert(v@.skip(0) == v@);
    find_from(&v, 0, c)
}

/// The pieces between the occurrences of `c`; always at least one.
pub open spec fn split_at_char(s: Seq<char>, c: char) -> Seq<Seq<char>>
    decreases s.len(),
{
    let k = find_char(s, c) as int;
    if k >= s.len() {
        seq![s]
    } else {
        seq![s.take(k)] + split_at_char(s.skip(k + 1), c)
    }
}

/// The parts before and after the first `c`, if there is one.
pub open spec fn cut_at_char(s: Seq<char>, c: char) -> Option<(Seq<char>, Seq<char>)> {
    let k = find_char(s, c) as int;
    if k >= s.len() {
        None
    } else {
        Some((s.take(k), s.skip(k + 1)))
    }
}

pub open spec fn opt_pair(v: Option<(String, String)>) -> Option<(Seq<char>, Seq<char>)> {
    match v {
        Some((a, b)) => Some((a@, b@)),
        None => None,
    }
}

pub fn split_once(s: &str, c: char) -> (r: Option<(String, String)>)
    ensures
        opt_pair(r) == cut_at_char(s@, c),
{
    let v = chars_of(s);
    assert(v@.skip(0) == v@);
    let k = find_from(&v, 0, c);
    if k >= v.len() {
        None
    } else {
        let a = slice_text(&v, 0, k);
        let b = slice_text(&v, k + 1, v.len());
        assert(a@ == s@.take(k as int));
        assert(b@ == s@.skip(k + 1));
        Some((a, b))
    }
}

pub fn split(s: &str, c: char) -> (r: Vec<String>)
    ensures
        texts(r@) == split_at_char(s@, c),
        r.len() >= 1,
{
    broadcast use lemma_texts_push;

    let v = chars_of(s);
    let mut out: Vec<String> = Vec::new();
    let mut from: usize = 0;
    assert(v@.skip(0) == v@);
    assert(texts(out@) =~= Seq::<Seq<char>>::empty());
    assert(texts(out@) + split_at_char(v@, c) =~= split_at_char(v@, c));
    loop
        invariant_except_break
            split_at_char(s@, c) == texts(out@) + split_at_char(v@.skip(from as int), c),
        invariant
            from <= v.len(),
            v@ == s@,
        ensures
            split_at_char(s@, c) == texts(out@),
            out.len() >= 1,
        decreases v.len() - from,
    {
        let k = find_from(&v, from, c);
        let piece = slice_text(&v, from, k);
        let ghost rest = v@.skip(from as int);
        proof {
            lemma_find_char(rest, c);
        }
        assert(piece@ == rest.take(k - from));
        let ghost before = texts(out@);
        out.push(piece);
        if k >= v.len() {
            assert(rest.take(k - from) == rest);
            assert(texts(out@) =~= before + split_at_char(rest, c));
            break;
        }
        assert(rest.skip(k - from + 1) == v@.skip(k + 1));
        assert(texts(out@) + split_at_char(v@.skip(k + 1), c) =~= before + split_at_char(rest, c));
        from = k + 1;
    }
    out
}

/// The number of characters before the first one of the class.
pub open spec fn run_len(s: Seq<char>, class: CharClass) -> nat
    decreases s.len(),
{
    if s.len() == 0 || class.holds(s[0]) {
        0
    } else {
        1 + run_len(s.drop_first(), class)
    }
}

pub proof fn lemma_run_len(s: Seq<char>, class: CharClass)
    ensures
        run_len(s, class) <= s.len(),
        run_len(s, class) < s.len() ==> class.holds(s[run_len(s, class) as int]),
        forall|i: int| 0 <= i < run_len(s, class) ==> !class.holds(s[i]),
    decreases s.len(),
{
    if s.len() > 0 && !class.holds(s[0]) {
        let rest = s.drop_first();
        lemma_run_len(rest, class);
        assert forall|i: int| 0 <= i < run_len(s, class) implies !class.holds(s[i]) by {
            if i > 0 {
                assert(s[i] == rest[i - 1]);
            }
        }
    }
}

/// Cuts a text at its first character of a class.
pub open spec fn cut_at_class(s: Seq<char>, class: CharClass) -> Option<(Seq<char>, Seq<char>)> {
    let k = run_len(s, class) as int;
    if k < s.len() {
        Some((s.take(k), s.skip(k + 1)))
    } else {
        None
    }
}

pub fn split_at_class(s: &str, class: CharClass) -> (r: Option<(String, String)>)
    ensures
        opt_pair(r) == cut_at_class(s@, class),
{
    let v = chars_of(s);
    assert(v@.skip(0) == v@);
    let k = run_from(&v, 0, class);
    if k < v.len() {
        let before = slice_text(&v, 0, k);
        let after = slice_text(&v, k + 1, v.len());
        assert(v@.subrange(0, k as int) =~= s@.take(k as int));
        assert(v@.subrange(k + 1, v.len() as int) =~= s@.skip(k + 1));
        Some((before, after))
    } else {
        None
    }
}

/// The number of characters up to and with the last `c`; zero where there is
/// none.
pub open spec fn last_after(s: Seq<char>, c: char) -> nat
    decreases s.len(),
{
    if s.len() == 0 {
        0
    } else if s.last() == c {
        s.len()
    } else {
        last_after(s.drop_last(), c)
    }
}

/// Cuts a text at its last `c`.
pub open spec fn cut_at_last(s: Seq<char>, c: char) -> Option<(Seq<char>, Seq<char>)> {
    let k = last_after(s, c) as int;
    if k > 0 {
        Some((s.take(k - 1), s.skip(k)))
    } else {
        None
    }
}

pub fn rsplit_once<'a>(s: &'a str, c: char) -> (r: Option<(&'a str, &'a str)>)
    ensures
        match r {
            Some((a, b)) => cut_at_last(s@, c) == Some((a@, b@)),
            None => cut_at_last(s@, c) is None,
        },
{
    let v = chars_of(s);
    let mut k: usize = v.len();
    assert(v@.take(k as int) =~= v@);
    while k > 0 && v[k - 1] != c
        invariant
            k <= v.len(),
            last_after(v@, c) == last_after(v@.take(k as int), c),
        decreases k,
    {
        assert(v@.take(k as int).drop_last() =~= v@.take(k - 1));
        assert(v@.take(k as int).last() == v@[k - 1]);
        k = k - 1;
    }
    if k == 0 {
        return None;
    }
    assert(v@.take(k as int).last() == v@[k - 1]);
    let before = s.substring_char(0, k - 1);
    let after = s.substring_char(k, v.len());
    assert(before@ =~= s@.take(k - 1));
    assert(after@ =~= s@.skip(k as int));
    Some((before, after))
}

/// The maximal runs of non-whitespace characters, in order.
pub open spec fn words(s: Seq<char>) -> Seq<Seq<char>>
    decreases s.len(),
{
    let t = skip_class(s, CharClass::Whitespace);
    let k = run_len(t, CharClass::Whitespace) as int;
    if t.len() == 0 || k == 0 || t.len() > s.len() || k > t.len() {
        seq![]
    } else {
        seq![t.take(k)] + words(t.skip(k))
    }
}

fn run_from(v: &Vec<char>, from: usize, class: CharClass) -> (r: usize)
    requires
        from <= v.len(),
    ensures
        from <= r <= v.len(),
        r == from + run_len(v@.skip(from as int), class),
{
    let mut i: usize = from;
    while i < v.len() && !class.has(v[i])
        invariant
            from <= i <= v.len(),
            forall|k: int| from <= k < i ==> !class.holds(v@[k]),
        decreases v.len() - i,
    {
        i = i + 1;
    }
    proof {
        lemma_run_len(v@.skip(from as int), class);
        let n = run_len(v@.skip(from as int), class) as int;
        if n < i - from {
            assert(!class.holds(v@[from + n]));
        }
        if n > i - from {
            assert(!class.holds(v@.skip(from as int)[i - from]));
        }
    }
    i
}

fn skip_from(v: &Vec<char>, from: usize, class: CharClass) -> (r: usize)
    requires
        from <= v.len(),
    ensures
        from <= r <= v.len(),
        v@.skip(r as int) == skip_class(v@.skip(from as int), class),
{
    let mut i: usize = from;
    while i < v.len() && class.has(v[i])
        invariant
            from <= i <= v.len(),
            skip_class(v@.skip(from as int), class) == skip_class(v@.skip(i as int), class),
        decreases v.len() - i,
    {
        assert(v@.skip(i as int).drop_first() == v@.skip(i + 1));
        i = i + 1;
    }
    i
}

pub fn split_whitespace(s: &str) -> (r: Vec<String>)
    ensures
        texts(r@) == words(s@),
{
    broadcast use lemma_texts_push;

    let v = chars_of(s);
    let mut out: Vec<String> = Vec::new();
    let mut from: usize = 0;
    assert(v@.skip(0) == v@);
    assert(texts(out@) =~= Seq::<Seq<char>>::empty());
    assert(texts(out@) + words(v@) =~= words(v@));
    loop
        invariant_except_break
            words(s@) == texts(out@) + words(v@.skip(from as int)),
        invariant
            from <= v.len(),
            v@ == s@,
        ensures
            words(s@) == texts(out@),
        decreases v.len() - from,
    {
        let ghost rest = v@.skip(from as int);
        let start = skip_from(&v, from, CharClass::Whitespace);
        let ghost t = v@.skip(start as int);
        if start == v.len() {
            assert(words(rest) =~= Seq::<Seq<char>>::empty());
            assert(texts(out@) + words(rest) =~= texts(out@));
            break;
        }
        let end = run_from(&v, start, CharClass::Whitespace);
        proof {
            lemma_skip_class(rest, CharClass::Whitespace);
            lemma_run_len(t, CharClass::Whitespace);
        }
        let piece = slice_text(&v, start, end);
        assert(piece@ == t.take(end - start));
        let ghost before = texts(out@);
        out.push(piece);
        assert(t.skip(end - start) == v@.skip(end as int));
        assert(texts(out@) + words(v@.skip(end as int)) =~= before + words(rest));
        from = end;
    }
    out
}

/// The line without a carriage return at its end.
pub open spec fn without_cr(s: Seq<char>) -> Seq<char> {
    if s.len() > 0 && s.last() == '\r' {
        s.drop_last()
    } else {
        s
    }
}

/// The lines of a text. A line ends at `\n` or `\r\n`; the end of the text
/// ends the last line too, if it is not empty.
pub open spec fn text_lines(s: Seq<char>) -> Seq<Seq<char>>
    decreases s.len(),
{
    let k = find_char(s, '\n') as int;
    if s.len() == 0 {
        seq![]
    } else if k >= s.len() {
        seq![s]
    } else {
        seq![without_cr(s.take(k))] + text_lines(s.skip(k + 1))
    }
}

pub fn lines(s: &str) -> (r: Vec<String>)
    ensures
        texts(r@) == text_lines(s@),
{
    broadcast use lemma_texts_push;

    let v = chars_of(s);
    let mut out: Vec<String> = Vec::new();
    let mut from: usize = 0;
    assert(v@.skip(0) == v@);
    assert(texts(out@) =~= Seq::<Seq<char>>::empty());
    assert(texts(out@) + text_lines(v@) =~= text_lines(v@));
    while from < v.len()
        invariant
            from <= v.len(),
            v@ == s@,
            text_lines(s@) == texts(out@) + text_lines(v@.skip(from as int)),
        decreases v.len() - from,
    {
        let k = find_from(&v, from, '\n');
        let ghost rest = v@.skip(from as int);
        proof {
            lemma_find_char(rest, '\n');
        }
        let ghost before = texts(out@);
        if k >= v.len() {
            let piece = slice_text(&v, from, k);
            assert(piece@ == rest);
            out.push(piece);
            from = k;
            assert(v@.skip(k as int) =~= Seq::<char>::empty());
            assert(texts(out@) + text_lines(v@.skip(k as int)) =~= before + text_lines(rest));
        } else {
            let to: usize = if k > from && v[k - 1] == '\r' {
                k - 1
            } else {
                k
            };
            let piece = slice_text(&v, from, to);
            assert(piece@ == without_cr(rest.take(k - from)));
            out.push(piece);
            assert(rest.skip(k - from + 1) == v@.skip(k + 1));
            assert(texts(out@) + text_lines(v@.skip(k + 1)) =~= before + text_lines(rest));
            from = k + 1;
        }
    }
    assert(v@.skip(from as int) =~= Seq::<char>::empty());
    assert(texts(out@) + text_lines(v@.skip(from as int)) =~= texts(out@));
    out
}

/// The first line of a text, or the given words where it has none.
pub open spec fn first_line_or(s: Seq<char>, fallback: Seq<char>) -> Seq<char> {
    let all = text_lines(s);
    if all.len() > 0 {
        all[0]
    } else {
        fallback
    }
}

pub fn first_line(s: &str, fallback: &str) -> (r: String)
    ensures
        r@ == first_line_or(s@, fallback@),
{
    let all = lines(s);
    if all.len() > 0 {
        let r = all[0].clone();
        assert(texts(all@)[0] == r@);
        r
    } else {
        fallback.to_string()
    }
}

// ---------------------------------------------------------------------------
// Numbers

pub open spec fn digit_char(d: nat) -> char {
    (48 + d) as u8 as char
}

pub open spec fn digit_value(c: char) -> nat {
    (c as int - 48) as nat
}

/// A number in decimal, without leading zeroes.
pub open spec fn decimal(n: nat) -> Seq<char>
    decreases n,
{
    if n < 10 {
        seq![digit_char(n)]
    } else {
        decimal(n / 10).push(digit_char(n % 10))
    }
}

/// The number that a string of digits denotes.
pub open spec fn digits_value(s: Seq<char>) -> nat
    decreases s.len(),
{
    if s.len() == 0 {
        0
    } else {
        digits_value(s.drop_last()) * 10 + digit_value(s.last())
    }
}

/// The number written in `s`: digits, after an optional `+`, that denote no
/// more than `max`.
pub open spec fn parsed_number(s: Seq<char>, max: nat) -> Option<nat> {
    let d = if s.len() > 0 && s[0] == '+' {
        s.drop_first()
    } else {
        s
    };
    if d.len() > 0 && all_in(d, CharClass::Digit) && digits_value(d) <= max {
        Some(digits_value(d))
    } else {
        None
    }
}

fn push_decimal(out: &mut String, n: u64)
    ensures
        final(out)@ == old(out)@ + decimal(n as nat),
    decreases n,
{
    let ghost before = out@;
    if n < 10 {
        out.push((48 + n as u8) as char);
        assert(out@ =~= before + decimal(n as nat));
    } else {
        push_decimal(out, n / 10);
        out.push((48 + (n % 10) as u8) as char);
        assert(out@ =~= before + decimal(n as nat));
    }
}

pub fn number_text(n: u64) -> (r: String)
    ensures
        r@ == decimal(n as nat),
{
    let mut out = String::new();
    push_decimal(&mut out, n);
    assert(out@ =~= decimal(n as nat));
    out
}

/// A signed number in decimal.
pub open spec fn signed_decimal(n: int) -> Seq<char> {
    if n < 0 {
        seq!['-'] + decimal((-n) as nat)
    } else {
        decimal(n as nat)
    }
}

pub fn signed_text(n: i32) -> (r: String)
    ensures
        r@ == signed_decimal(n as int),
{
    let mut out = String::new();
    if n < 0 {
        out.push('-');
        push_decimal(&mut out, (-(n as i64)) as u64);
    } else {
        push_decimal(&mut out, n as u64);
    }
    assert(out@ =~= signed_decimal(n as int));
    out
}

/// A number in decimal, filled up with zeroes to `width` characters.
pub open spec fn zero_padded(n: nat, width: nat) -> Seq<char> {
    let d = decimal(n);
    if d.len() < width {
        Seq::new((width - d.len()) as nat, |i: int| '0') + d
    } else {
        d
    }
}

/// A number of two digits at most, filled up to two.
pub proof fn lemma_two_digits(n: nat)
    requires
        n < 100,
    ensures
        zero_padded(n, 2) == seq![digit_char(n / 10), digit_char(n % 10)],
{
    reveal_with_fuel(decimal, 3);
    assert(zero_padded(n, 2) =~= seq![digit_char(n / 10), digit_char(n % 10)]);
}

/// A number of four digits at most, filled up to four.
pub proof fn lemma_four_digits(n: nat)
    requires
        n < 10_000,
    ensures
        zero_padded(n, 4) == seq![
            digit_char(n / 1000),
            digit_char(n / 100 % 10),
            digit_char(n / 10 % 10),
            digit_char(n % 10),
        ],
{
    reveal_with_fuel(decimal, 5);
    assert(n / 10 / 10 == n / 100);
    assert(n / 10 / 10 / 10 == n / 1000);
    assert(zero_padded(n, 4) =~= seq![
        digit_char(n / 1000),
        digit_char(n / 100 % 10),
        digit_char(n / 10 % 10),
        digit_char(n % 10),
    ]);
}

pub fn padded_text(n: u64, width: usize) -> (r: String)
    ensures
        r@ == zero_padded(n as nat, width as nat),
{
    let digits = number_text(n);
    let count = digits.as_str().unicode_len();
    let mut out = String::new();
    let mut i: usize = count;
    while i < width
        invariant
            count <= i,
            i <= width || i == count,
            out@ == Seq::new((i - count) as nat, |i: int| '0'),
        decreases width - i,
    {
        out.push('0');
        i = i + 1;
        assert(out@ =~= Seq::new((i - count) as nat, |i: int| '0'));
    }
    out.append(digits.as_str());
    assert(out@ =~= zero_padded(n as nat, width as nat));
    out
}

proof fn lemma_digits_value_grows(s: Seq<char>, k: int)
    requires
        0 <= k <= s.len(),
        all_in(s, CharClass::Digit),
    ensures
        digits_value(s.take(k)) <= digits_value(s),
    decreases s.len() - k,
{
    if k < s.len() {
        assert(s.take(k + 1).drop_last() == s.take(k));
        lemma_digits_value_grows(s, k + 1);
    } else {
        assert(s.take(k) == s);
    }
}

pub fn parse_number(s: &str, max: u64) -> (r: Option<u64>)
    ensures
        match r {
            Some(n) => parsed_number(s@, max as nat) == Some(n as nat),
            None => parsed_number(s@, max as nat) is None,
        },
{
    let v = chars_of(s);
    let start: usize = if v.len() > 0 && v[0] == '+' {
        1
    } else {
        0
    };
    let ghost d = v@.skip(start as int);
    assert(d == if s@.len() > 0 && s@[0] == '+' {
        s@.drop_first()
    } else {
        s@
    });
    if start == v.len() {
        return None;
    }
    let mut i: usize = start;
    let mut total: u64 = 0;
    while i < v.len()
        invariant
            start <= i <= v.len(),
            d == v@.skip(start as int),
            forall|k: int| 0 <= k < i - start ==> is_digit(#[trigger] d[k]),
            total as nat == digits_value(d.take(i - start)),
            total <= max,
            d == if s@.len() > 0 && s@[0] == '+' {
                s@.drop_first()
            } else {
                s@
            },
        decreases v.len() - i,
    {
        let c = v[i];
        assert(d[i - start] == c);
        if !('0' <= c && c <= '9') {
            assert(!CharClass::Digit.holds(d[i - start]));
            return None;
        }
        let next: u128 = (total as u128) * 10 + (c as u8 - 48) as u128;
        assert(d.take(i - start + 1).drop_last() == d.take(i - start));
        assert(next as nat == digits_value(d.take(i - start + 1)));
        if next > max as u128 {
            proof {
                if all_in(d, CharClass::Digit) {
                    lemma_digits_value_grows(d, i - start + 1);
                }
            }
            return None;
        }
        total = next as u64;
        i = i + 1;
    }
    assert(d.take(i - start) == d);
    assert(all_in(d, CharClass::Digit));
    Some(total)
}

/// A text filled up with spaces on the right to `width` characters.
pub open spec fn padded_right(s: Seq<char>, width: nat) -> Seq<char> {
    if s.len() < width {
        s + Seq::new((width - s.len()) as nat, |i: int| ' ')
    } else {
        s
    }
}

pub fn pad_right(s: &str, width: usize) -> (r: String)
    ensures
        r@ == padded_right(s@, width as nat),
{
    let count = s.unicode_len();
    let mut out = s.to_string();
    let mut i: usize = count;
    while i < width
        invariant
            count == s@.len(),
            count <= i,
            i <= width || i == count,
            out@ == s@ + Seq::new((i - count) as nat, |i: int| ' '),
        decreases width - i,
    {
        out.push(' ');
        i = i + 1;
        assert(out@ =~= s@ + Seq::new((i - count) as nat, |i: int| ' '));
    }
    assert(out@ =~= padded_right(s@, width as nat));
    out
}

/// A text filled up with spaces on the left to `width` characters.
pub open spec fn padded_left(s: Seq<char>, width: nat) -> Seq<char> {
    if s.len() < width {
        Seq::new((width - s.len()) as nat, |i: int| ' ') + s
    } else {
        s
    }
}

pub fn pad_left(s: &str, width: usize) -> (r: String)
    ensures
        r@ == padded_left(s@, width as nat),
{
    let count = s.unicode_len();
    let mut out = String::new();
    let mut i: usize = count;
    while i < width
        invariant
            count == s@.len(),
            count <= i,
            i <= width || i == count,
            out@ == Seq::new((i - count) as nat, |i: int| ' '),
        decreases width - i,
    {
        out.push(' ');
        i = i + 1;
        assert(out@ =~= Seq::new((i - count) as nat, |i: int| ' '));
    }
    out.append(s);
    assert(out@ =~= padded_left(s@, width as nat));
    out
}

/// The characters up to a limit.
pub open spec fn prefix(s: Seq<char>, n: nat) -> Seq<char> {
    if n < s.len() {
        s.take(n as int)
    } else {
        s
    }
}

pub fn prefix_of<'a>(s: &'a str, n: usize) -> (r: &'a str)
    ensures
        r@ == prefix(s@, n as nat),
{
    if n < s.unicode_len() {
        let r = s.substring_char(0, n);
        assert(r@ =~= s@.take(n as int));
        r
    } else {
        s
    }
}

/// A text in one line: its words with single spaces between them, cut and
/// marked where it is longer than a limit.
pub open spec fn one_line_text(s: Seq<char>, max: nat) -> Seq<char> {
    let flat = joined(words(s), " "@);
    if flat.len() <= max {
        flat
    } else if max == 0 {
        seq![]
    } else {
        flat.take(max - 1) + "…"@
    }
}

pub fn one_line(s: &str, max: usize) -> (r: String)
    ensures
        r@ == one_line_text(s@, max as nat),
{
    let flat = join(&split_whitespace(s), " ");
    if flat.as_str().unicode_len() <= max {
        flat
    } else if max == 0 {
        let r = String::new();
        assert(r@ =~= seq![]);
        r
    } else {
        let cut = flat.as_str().substring_char(0, max - 1);
        assert(cut@ =~= flat@.take(max - 1));
        cut.to_string().concat("…")
    }
}

/// A lower-case hexadecimal digit.
pub open spec fn hex_char(d: nat) -> char {
    if d < 10 {
        (48 + d) as u8 as char
    } else {
        (87 + d) as u8 as char
    }
}

/// The last `width` hexadecimal digits of a number.
pub open spec fn hex_digits(n: nat, width: nat) -> Seq<char>
    decreases width,
{
    if width == 0 {
        seq![]
    } else {
        hex_digits(n / 16, (width - 1) as nat).push(hex_char(n % 16))
    }
}

pub fn hex_text(n: u64, width: usize) -> (r: String)
    ensures
        r@ == hex_digits(n as nat, width as nat),
    decreases width,
{
    if width == 0 {
        let r = String::new();
        assert(r@ =~= hex_digits(n as nat, 0));
        r
    } else {
        let mut r = hex_text(n / 16, width - 1);
        let d: u8 = (n % 16) as u8;
        if d < 10 {
            r.push((48 + d) as char);
        } else {
            r.push((87 + d) as char);
        }
        r
    }
}

/// Writing a number in decimal and reading it back gives the number.
pub proof fn law_decimal_reads_back(n: nat, max: nat)
    requires
        n <= max,
    ensures
        parsed_number(decimal(n), max) == Some(n),
        all_in(decimal(n), CharClass::Digit),
        decimal(n).len() > 0,
{
    lemma_decimal_value(n);
}

proof fn lemma_decimal_value(n: nat)
    ensures
        decimal(n).len() > 0,
        all_in(decimal(n), CharClass::Digit),
        digits_value(decimal(n)) == n,
    decreases n,
{
    if n < 10 {
        assert(decimal(n).drop_last() =~= Seq::<char>::empty());
        assert(digits_value(Seq::<char>::empty()) == 0);
    } else {
        lemma_decimal_value(n / 10);
        assert(decimal(n).drop_last() =~= decimal(n / 10));
    }
}

// ---------------------------------------------------------------------------
// Building

/// The texts one after the other, `sep` between each two.
pub open spec fn joined(parts: Seq<Seq<char>>, sep: Seq<char>) -> Seq<char>
    decreases parts.len(),
{
    if parts.len() == 0 {
        seq![]
    } else if parts.len() == 1 {
        parts[0]
    } else {
        joined(parts.drop_last(), sep) + sep + parts.last()
    }
}

pub fn join(parts: &Vec<String>, sep: &str) -> (r: String)
    ensures
        r@ == joined(texts(parts@), sep@),
{
    let mut out = String::new();
    let mut i: usize = 0;
    let ghost all = texts(parts@);
    while i < parts.len()
        invariant
            i <= parts.len(),
            all == texts(parts@),
            out@ == joined(all.take(i as int), sep@),
        decreases parts.len() - i,
    {
        assert(all.take(i + 1).drop_last() == all.take(i as int));
        if i > 0 {
            out.append(sep);
        }
        out.append(parts[i].as_str());
        i = i + 1;
        assert(out@ =~= joined(all.take(i as int), sep@));
    }
    assert(all.take(i as int) == all);
    out
}

/// The text with every `c` replaced by `with`.
pub open spec fn replaced(s: Seq<char>, c: char, with: Seq<char>) -> Seq<char>
    decreases s.len(),
{
    if s.len() == 0 {
        seq![]
    } else {
        replaced(s.drop_last(), c, with) + if s.last() == c {
            with
        } else {
            seq![s.last()]
        }
    }
}

pub fn replace(s: &str, c: char, with: &str) -> (r: String)
    ensures
        r@ == replaced(s@, c, with@),
{
    let v = chars_of(s);
    let mut out = String::new();
    let mut i: usize = 0;
    while i < v.len()
        invariant
            i <= v.len(),
            v@ == s@,
            out@ == replaced(s@.take(i as int), c, with@),
        decreases v.len() - i,
    {
        assert(s@.take(i + 1).drop_last() == s@.take(i as int));
        if v[i] == c {
            out.append(with);
        } else {
            out.push(v[i]);
        }
        i = i + 1;
        assert(out@ =~= replaced(s@.take(i as int), c, with@));
    }
    assert(s@.take(i as int) == s@);
    out
}

/// What `Debug` prints for a text: the text between quotes, with escapes.
pub uninterp spec fn debug_text(s: Seq<char>) -> Seq<char>;

/// Formats a text with `str`'s `Debug`. The result is named, not described:
/// which characters are escaped follows Unicode tables of the standard library.
#[verifier::external_body]
pub(crate) fn quoted(s: &str) -> (r: String)
    ensures
        r@ == debug_text(s@),
{
    format!("{s:?}")
}

// ---------------------------------------------------------------------------
// Order

/// The first text comes before the second in the order of code points, which
/// is also the order of their UTF-8 bytes.
pub open spec fn precedes(a: Seq<char>, b: Seq<char>) -> bool
    decreases a.len(),
{
    if b.len() == 0 {
        false
    } else if a.len() == 0 {
        true
    } else if a[0] != b[0] {
        a[0] < b[0]
    } else {
        precedes(a.drop_first(), b.drop_first())
    }
}

/// The order of texts is a strict total order.
pub proof fn lemma_precedes_total(a: Seq<char>, b: Seq<char>)
    ensures
        !precedes(a, a),
        a == b || precedes(a, b) || precedes(b, a),
        !(precedes(a, b) && precedes(b, a)),
    decreases a.len(),
{
    if a.len() > 0 {
        lemma_precedes_total(a.drop_first(), a.drop_first());
    }
    if a.len() > 0 && b.len() > 0 && a[0] == b[0] {
        lemma_precedes_total(a.drop_first(), b.drop_first());
        if a.drop_first() == b.drop_first() {
            assert(a =~= seq![a[0]] + a.drop_first());
            assert(b =~= seq![b[0]] + b.drop_first());
        }
    }
    if a.len() == 0 && b.len() == 0 {
        assert(a =~= b);
    }
}

/// The first place at which two texts differ decides.
pub proof fn lemma_precedes_at(a: Seq<char>, b: Seq<char>, k: int)
    requires
        0 <= k < a.len(),
        k < b.len(),
        forall|i: int| 0 <= i < k ==> #[trigger] a[i] == b[i],
        a[k] < b[k],
    ensures
        precedes(a, b),
    decreases k,
{
    if k > 0 {
        assert(a[0] == b[0]);
        assert forall|i: int| 0 <= i < k - 1 implies #[trigger] a.drop_first()[i]
            == b.drop_first()[i] by {
            assert(a[i + 1] == b[i + 1]);
        }
        lemma_precedes_at(a.drop_first(), b.drop_first(), k - 1);
    }
}

pub proof fn lemma_precedes_transitive(a: Seq<char>, b: Seq<char>, c: Seq<char>)
    requires
        precedes(a, b),
        precedes(b, c),
    ensures
        precedes(a, c),
    decreases a.len(),
{
    if a.len() > 0 && a[0] == b[0] && b[0] == c[0] {
        lemma_precedes_transitive(a.drop_first(), b.drop_first(), c.drop_first());
    }
}

/// What two digits denote.
pub proof fn lemma_two_digits_value(s: Seq<char>)
    requires
        s.len() == 2,
    ensures
        digits_value(s) == digit_value(s[0]) * 10 + digit_value(s[1]),
{
    let one = s.drop_last();
    assert(one.last() == s[0]);
    assert(digits_value(one.drop_last()) == 0);
    assert(digits_value(one) == digit_value(s[0]));
}

/// What four digits denote.
pub proof fn lemma_four_digits_value(s: Seq<char>)
    requires
        s.len() == 4,
    ensures
        digits_value(s) == digit_value(s[0]) * 1000 + digit_value(s[1]) * 100 + digit_value(s[2])
            * 10 + digit_value(s[3]),
{
    let three = s.drop_last();
    let two = three.drop_last();
    assert(three.last() == s[2]);
    assert(two[0] == s[0] && two[1] == s[1]);
    lemma_two_digits_value(two);
    assert(digits_value(three) == digits_value(two) * 10 + digit_value(s[2]));
}

/// A digit is one, and denotes itself.
pub proof fn lemma_digit(d: nat)
    requires
        d < 10,
    ensures
        is_digit(digit_char(d)),
        digit_value(digit_char(d)) == d,
{
}

/// A number of four digits at most is the sum of what its digits stand for.
pub proof fn lemma_sum_of_digits(n: nat)
    requires
        n < 10_000,
    ensures
        n / 1000 < 10,
        n == n / 1000 * 1000 + n / 100 % 10 * 100 + n / 10 % 10 * 10 + n % 10,
{
    assert(n == n / 10 * 10 + n % 10);
    assert(n / 10 == n / 100 * 10 + n / 10 % 10);
    assert(n / 100 == n / 1000 * 10 + n / 100 % 10);
}

/// Numbers of two digits are in the order of their texts.
pub proof fn lemma_two_digits_in_order(m: nat, n: nat)
    requires
        m < n < 100,
    ensures
        precedes(zero_padded(m, 2), zero_padded(n, 2)),
{
    lemma_two_digits(m);
    lemma_two_digits(n);
    if m / 10 < n / 10 {
        lemma_precedes_at(zero_padded(m, 2), zero_padded(n, 2), 0);
    } else {
        lemma_precedes_at(zero_padded(m, 2), zero_padded(n, 2), 1);
    }
}

/// Of two numbers of four digits, the smaller one has the smaller digit at the
/// first place at which they differ.
proof fn lemma_first_digit_decides(m: nat, n: nat)
    requires
        m < n < 10_000,
    ensures
        ({
            let (a, b, c, d) = (m / 1000, m / 100 % 10, m / 10 % 10, m % 10);
            let (e, f, g, h) = (n / 1000, n / 100 % 10, n / 10 % 10, n % 10);
            a < e || (a == e && (b < f || (b == f && (c < g || (c == g && d < h)))))
        }),
{
    assert(m / 100 == m / 1000 * 10 + m / 100 % 10);
    assert(n / 100 == n / 1000 * 10 + n / 100 % 10);
    assert(m / 10 == m / 100 * 10 + m / 10 % 10);
    assert(n / 10 == n / 100 * 10 + n / 10 % 10);
    assert(m == m / 10 * 10 + m % 10);
    assert(n == n / 10 * 10 + n % 10);
}

/// Numbers of four digits are in the order of their texts.
pub proof fn lemma_four_digits_in_order(m: nat, n: nat)
    requires
        m < n < 10_000,
    ensures
        precedes(zero_padded(m, 4), zero_padded(n, 4)),
{
    lemma_four_digits(m);
    lemma_four_digits(n);
    lemma_first_digit_decides(m, n);
    let (a, b) = (zero_padded(m, 4), zero_padded(n, 4));
    if m / 1000 < n / 1000 {
        lemma_precedes_at(a, b, 0);
    } else if m / 100 % 10 < n / 100 % 10 {
        lemma_precedes_at(a, b, 1);
    } else if m / 10 % 10 < n / 10 % 10 {
        lemma_precedes_at(a, b, 2);
    } else {
        lemma_precedes_at(a, b, 3);
    }
}

/// Not coming before carries over: if `b` does not come before `a`, nor `c`
/// before `b`, then `c` does not come before `a`.
pub proof fn lemma_not_before_transitive(a: Seq<char>, b: Seq<char>, c: Seq<char>)
    requires
        !precedes(b, a),
        !precedes(c, b),
    ensures
        !precedes(c, a),
{
    lemma_precedes_total(a, b);
    lemma_precedes_total(b, c);
    lemma_precedes_total(a, c);
    if precedes(c, a) {
        if a == b {
            assert(precedes(c, b));
        } else {
            lemma_precedes_transitive(c, a, b);
        }
    }
}

pub fn text_precedes(a: &str, b: &str) -> (r: bool)
    ensures
        r == precedes(a@, b@),
{
    let x = chars_of(a);
    let y = chars_of(b);
    let mut i: usize = 0;
    assert(x@.skip(0) == x@);
    assert(y@.skip(0) == y@);
    loop
        invariant
            i <= x.len(),
            i <= y.len(),
            precedes(a@, b@) == precedes(x@.skip(i as int), y@.skip(i as int)),
        decreases x.len() - i,
    {
        if i == y.len() {
            return false;
        }
        if i == x.len() {
            return true;
        }
        if x[i] != y[i] {
            return x[i] < y[i];
        }
        assert(x@.skip(i as int).drop_first() == x@.skip(i + 1));
        assert(y@.skip(i as int).drop_first() == y@.skip(i + 1));
        i = i + 1;
    }
}

/// Only a lower-case letter itself and its capital are that letter in lower
/// case.
pub proof fn lemma_lower_is(c: char, letter: char)
    requires
        'a' <= letter <= 'z',
    ensures
        lower(c) == letter <==> c == letter || c as int + 32 == letter as int,
{
}

/// The last place of a character is where no later one follows.
pub proof fn lemma_last_after_is(s: Seq<char>, c: char, k: int)
    requires
        0 < k <= s.len(),
        s[k - 1] == c,
        forall|i: int| k <= i < s.len() ==> s[i] != c,
    ensures
        last_after(s, c) == k,
    decreases s.len(),
{
    if k < s.len() {
        assert(s.last() == s[s.len() - 1]);
        lemma_last_after_is(s.drop_last(), c, k);
    }
}

/// Where a run outside a class ends.
pub proof fn lemma_run_len_is(s: Seq<char>, class: CharClass, k: int)
    requires
        0 <= k <= s.len(),
        k < s.len() ==> class.holds(s[k]),
        forall|i: int| 0 <= i < k ==> !class.holds(#[trigger] s[i]),
    ensures
        run_len(s, class) == k,
{
    lemma_run_len(s, class);
    let n = run_len(s, class) as int;
    if n < k {
        assert(class.holds(s[n]));
    }
    if n > k {
        assert(!class.holds(s[k]));
    }
}

/// A text that neither begins nor ends in a class loses nothing by stripping it.
pub proof fn lemma_strip_nothing(s: Seq<char>, class: CharClass)
    requires
        s.len() > 0 ==> !class.holds(s[0]) && !class.holds(s.last()),
    ensures
        skip_class(s, class) == s,
        drop_class(s, class) == s,
        strip_class(s, class) == s,
{
}

/// Text order: the first character that differs decides, and what goes on where
/// the other ends comes later.
pub proof fn law_first_difference_decides(
    same: Seq<char>,
    a: char,
    b: char,
    x: Seq<char>,
    y: Seq<char>,
)
    requires
        a != b,
    ensures
        precedes(same + (seq![a] + x), same + (seq![b] + y)) <==> a < b,
        precedes(same, same + (seq![b] + y)),
        !precedes(same + (seq![b] + y), same),
    decreases same.len(),
{
    let p = same + (seq![a] + x);
    let q = same + (seq![b] + y);
    if same.len() > 0 {
        let rest = same.drop_first();
        law_first_difference_decides(rest, a, b, x, y);
        assert(p.drop_first() =~= rest + (seq![a] + x));
        assert(q.drop_first() =~= rest + (seq![b] + y));
    } else {
        assert(p =~= seq![a] + x);
        assert(q =~= seq![b] + y);
    }
}

/// What holds no blank lies on one side of a blank.
pub proof fn lemma_text_beside_blank(a: Seq<char>, b: Seq<char>, w: Seq<char>)
    requires
        forall|i: int| 0 <= i < w.len() ==> #[trigger] w[i] != ' ',
    ensures
        has_text(a + seq![' '] + b, w) <==> has_text(a, w) || has_text(b, w),
{
    let s = a + seq![' '] + b;
    if has_text(s, w) {
        let at = choose|at: int| occurs_at(s, w, at);
        if at + w.len() <= a.len() {
            assert(a.subrange(at, at + w.len()) =~= w);
            assert(occurs_at(a, w, at));
        } else if at > a.len() {
            let k = at - a.len() - 1;
            assert(b.subrange(k, k + w.len()) =~= w);
            assert(occurs_at(b, w, k));
        } else {
            if w.len() == 0 {
                assert(a.subrange(0, 0) =~= w);
                assert(occurs_at(a, w, 0));
            } else {
                assert(w[a.len() - at] == s[a.len() as int]);
            }
        }
    }
    if has_text(a, w) {
        let at = choose|at: int| occurs_at(a, w, at);
        assert(s.subrange(at, at + w.len()) =~= w);
        assert(occurs_at(s, w, at));
    }
    if has_text(b, w) {
        let at = choose|at: int| occurs_at(b, w, at);
        let k = at + a.len() + 1;
        assert(s.subrange(k, k + w.len()) =~= w);
        assert(occurs_at(s, w, k));
    }
}

/// Words hold no whitespace and are not empty.
pub proof fn law_words_are_solid(s: Seq<char>)
    ensures
        forall|k: int|
            0 <= k < words(s).len() ==> (#[trigger] words(s)[k]).len() > 0 && forall|i: int|
                0 <= i < words(s)[k].len() ==> !is_whitespace(#[trigger] words(s)[k][i]),
    decreases s.len(),
{
    let t = skip_class(s, CharClass::Whitespace);
    let k = run_len(t, CharClass::Whitespace) as int;
    lemma_skip_class(s, CharClass::Whitespace);
    lemma_run_len(t, CharClass::Whitespace);
    if !(t.len() == 0 || k == 0 || t.len() > s.len() || k > t.len()) {
        let rest = t.skip(k);
        law_words_are_solid(rest);
        assert forall|j: int| 0 <= j < words(s).len() implies (#[trigger] words(s)[j]).len() > 0
            && forall|i: int|
            0 <= i < words(s)[j].len() ==> !is_whitespace(#[trigger] words(s)[j][i]) by {
            if j > 0 {
                assert(words(s)[j] == words(rest)[j - 1]);
            } else {
                assert(words(s)[0] == t.take(k));
                assert forall|i: int| 0 <= i < k implies !is_whitespace(
                    #[trigger] words(s)[0][i],
                ) by {
                    assert(!CharClass::Whitespace.holds(t[i]));
                }
            }
        }
    }
}

/// What stands in the middle of a text occurs in it.
pub proof fn lemma_has_middle(a: Seq<char>, b: Seq<char>, c: Seq<char>)
    ensures
        has_text(a + b + c, b),
{
    let s = a + b + c;
    let at = a.len() as int;
    assert(s.subrange(at, at + b.len()) =~= b);
    assert(occurs_at(s, b, at));
}

/// Replacing goes character by character: the one that is meant becomes the
/// replacement, every other stays.
pub proof fn law_replacing_goes_by_character(s: Seq<char>, t: Seq<char>, c: char, with: Seq<char>)
    ensures
        replaced(s + t, c, with) == replaced(s, c, with) + replaced(t, c, with),
        replaced(seq![c], c, with) == with,
        !s.contains(c) ==> replaced(s, c, with) == s,
    decreases t.len(), s.len(),
{
    if t.len() > 0 {
        law_replacing_goes_by_character(s, t.drop_last(), c, with);
        assert((s + t).drop_last() =~= s + t.drop_last());
        assert((s + t).last() == t.last());
        assert(replaced(s + t, c, with) =~= replaced(s, c, with) + replaced(t, c, with));
    } else {
        assert(s + t =~= s);
        assert(replaced(t, c, with) =~= seq![]);
        assert(replaced(s + t, c, with) =~= replaced(s, c, with) + replaced(t, c, with));
        if s.len() > 0 {
            law_replacing_goes_by_character(s.drop_last(), t, c, with);
            if !s.contains(c) {
                assert(s.contains(s.last()));
                assert forall|x: char| s.drop_last().contains(x) implies s.contains(x) by {
                    let i = choose|i: int| 0 <= i < s.drop_last().len() && s.drop_last()[i] == x;
                    assert(s[i] == x);
                }
                assert(s.drop_last() + seq![s.last()] =~= s);
            }
        }
    }
    assert(seq![c].drop_last() =~= seq![]);
    assert(replaced(seq![], c, with) =~= seq![]);
    assert(replaced(seq![c], c, with) =~= with);
}

/// What was joined by a character falls apart into its parts again, where no
/// part holds that character.
pub proof fn law_split_undoes_joining(parts: Seq<Seq<char>>, c: char)
    requires
        parts.len() > 0,
        forall|i: int| 0 <= i < parts.len() ==> !(#[trigger] parts[i]).contains(c),
    ensures
        split_at_char(joined(parts, seq![c]), c) == parts,
    decreases parts.len(),
{
    if parts.len() == 1 {
        let p = parts[0];
        assert forall|i: int| 0 <= i < p.len() implies p[i] != c by {
            assert(p.contains(p[i]));
        }
        lemma_find_char_is(p, c, p.len() as int);
        assert(split_at_char(p, c) =~= parts);
    } else {
        let rest = parts.drop_last();
        let p = parts.last();
        assert(forall|i: int| 0 <= i < rest.len() ==> #[trigger] rest[i] == parts[i]);
        assert(parts[parts.len() - 1] == p);
        law_split_undoes_joining(rest, c);
        lemma_split_append(joined(rest, seq![c]), p, c);
        assert(joined(parts, seq![c]) =~= joined(rest, seq![c]) + seq![c] + p);
        assert(rest.push(p) =~= parts);
    }
}

proof fn lemma_split_append(s: Seq<char>, p: Seq<char>, c: char)
    requires
        !p.contains(c),
    ensures
        split_at_char(s + seq![c] + p, c) == split_at_char(s, c).push(p),
    decreases s.len(),
{
    let t = s + seq![c] + p;
    let k = find_char(s, c) as int;
    lemma_find_char(s, c);
    assert forall|i: int| 0 <= i < p.len() implies p[i] != c by {
        assert(p.contains(p[i]));
    }
    if k >= s.len() {
        assert forall|i: int| 0 <= i < s.len() implies t[i] != c by {
            assert(t[i] == s[i]);
        }
        assert(t[s.len() as int] == c);
        lemma_find_char_is(t, c, s.len() as int);
        assert(t.take(s.len() as int) =~= s);
        assert(t.skip(s.len() as int + 1) =~= p);
        lemma_find_char_is(p, c, p.len() as int);
        assert(split_at_char(p, c) =~= seq![p]);
        assert(split_at_char(s, c) =~= seq![s]);
        assert(split_at_char(t, c) =~= split_at_char(s, c).push(p));
    } else {
        assert forall|i: int| 0 <= i < k implies t[i] != c by {
            assert(t[i] == s[i]);
        }
        assert(t[k] == c);
        lemma_find_char_is(t, c, k);
        assert(t.take(k) =~= s.take(k));
        assert(t.skip(k + 1) =~= s.skip(k + 1) + seq![c] + p);
        lemma_split_append(s.skip(k + 1), p, c);
        assert(split_at_char(t, c) =~= split_at_char(s, c).push(p));
    }
}

/// A text of ASCII characters has as many bytes as characters.
pub proof fn lemma_ascii_len(s: Seq<char>)
    requires
        forall|i: int| 0 <= i < s.len() ==> #[trigger] s[i] <= '\u{7f}',
    ensures
        utf8_len(s) == s.len(),
    decreases s.len(),
{
    if s.len() > 0 {
        let rest = s.drop_first();
        assert forall|i: int| 0 <= i < rest.len() implies #[trigger] rest[i] <= '\u{7f}' by {
            assert(rest[i] == s[i + 1]);
        }
        lemma_ascii_len(rest);
        assert(s[0] <= '\u{7f}');
        lemma_ascii_width(s[0]);
    }
}

/// What two digits denote, filled up to two.
pub proof fn lemma_two_digit_field(n: nat)
    requires
        n < 100,
    ensures
        zero_padded(n, 2).len() == 2,
        utf8_len(zero_padded(n, 2)) == 2,
        all_in(zero_padded(n, 2), CharClass::Digit),
        is_digit(zero_padded(n, 2)[0]),
        is_digit(zero_padded(n, 2)[1]),
        parsed_number(zero_padded(n, 2), 65_535) == Some(n),
{
    let s = zero_padded(n, 2);
    lemma_two_digits(n);
    lemma_digit(n / 10);
    lemma_digit(n % 10);
    lemma_two_digits_value(s);
    assert(n == n / 10 * 10 + n % 10);
    lemma_ascii_len(s);
}

proof fn lemma_ascii_width(c: char)
    requires
        c <= '\u{7f}',
    ensures
        vstd::utf8::has_width_1_encoding(c as u32),
{
    vstd::utf8::char_u32_cast(c, c as u32);
}

/// Hexadecimal digits are those of the number: as many as asked for, and two
/// numbers that fit have the same only if they are the same.
pub proof fn law_hex_digits_tell_numbers_apart(a: nat, b: nat, width: nat)
    requires
        a < vstd::arithmetic::power::pow(16, width),
        b < vstd::arithmetic::power::pow(16, width),
    ensures
        hex_digits(a, width).len() == width,
        hex_digits(a, width) == hex_digits(b, width) ==> a == b,
        forall|i: int|
            0 <= i < width ==> '0' <= #[trigger] hex_digits(a, width)[i] <= '9' || 'a'
                <= hex_digits(a, width)[i] <= 'f',
        width > 0 && a % 16 == 9 ==> hex_digits(a, width).last() == '9',
        width > 0 && a % 16 == 10 ==> hex_digits(a, width).last() == 'a',
    decreases width,
{
    vstd::arithmetic::power::lemma_pow0(16);
    if width > 0 {
        let less = (width - 1) as nat;
        assert(vstd::arithmetic::power::pow(16, width) == 16 * vstd::arithmetic::power::pow(
            16,
            less,
        )) by {
            reveal(vstd::arithmetic::power::pow);
        }
        law_hex_digits_tell_numbers_apart(a / 16, b / 16, less);
        let da = hex_digits(a, width);
        let db = hex_digits(b, width);
        assert(da.drop_last() =~= hex_digits(a / 16, less));
        assert(db.drop_last() =~= hex_digits(b / 16, less));
        lemma_hex_char(a % 16, b % 16);
        assert(da.last() == hex_char(a % 16));
        assert(db.last() == hex_char(b % 16));
        assert forall|i: int| 0 <= i < width implies '0' <= #[trigger] da[i] <= '9' || 'a' <= da[i]
            <= 'f' by {
            if i < less {
                assert(da[i] == hex_digits(a / 16, less)[i]);
            }
        }
    }
}

proof fn lemma_hex_char(a: nat, b: nat)
    requires
        a < 16,
        b < 16,
    ensures
        hex_char(a) == hex_char(b) ==> a == b,
        '0' <= hex_char(a) <= '9' || 'a' <= hex_char(a) <= 'f',
        hex_char(9) == '9',
        hex_char(10) == 'a',
{
}

} // verus!
