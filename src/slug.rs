//! Deterministic identifier fragments derived from relative paths.

use vstd::prelude::*;
use crate::text::{chars_of, string_of};

verus! {

/// Whether a character belongs to the Unicode word class (`\w`); consulted
/// for non-ASCII characters.
pub uninterp spec fn unicode_word(c: char) -> bool;

/// The Unicode lowercase mapping of a whole string.
pub uninterp spec fn lowercase_of(s: Seq<char>) -> Seq<char>;

/// Relies on `regex_syntax::is_word_character`: membership in the Unicode
/// word class that `\w` denotes (the `unicode-perl` tables are enabled).
#[verifier::external_body]
fn unicode_word_char(c: char) -> (r: bool)
    ensures
        r == unicode_word(c),
{
    regex_syntax::is_word_character(c)
}

/// Relies on `char::is_whitespace`: membership in the Unicode `White_Space`
/// property.
#[verifier::external_body]
fn white_space_char(c: char) -> (r: bool)
    ensures
        r == is_space(c),
{
    c.is_whitespace()
}

/// Relies on `str::to_lowercase`: the Unicode lowercase mapping of `s`.
#[verifier::external_body]
fn to_lowercase(s: &str) -> (r: String)
    ensures
        r@ == lowercase_of(s@),
{
    s.to_lowercase()
}

pub open spec fn is_ascii_char(c: char) -> bool {
    (c as u32) < 0x80
}

/// ASCII word characters: `[_0-9a-zA-Z]`.
pub open spec fn ascii_word(c: char) -> bool {
    ||| 0x61 <= (c as u32) <= 0x7a
    ||| 0x41 <= (c as u32) <= 0x5a
    ||| 0x30 <= (c as u32) <= 0x39
    ||| c == '_'
}

/// A word character (`\w`).
pub open spec fn is_word(c: char) -> bool {
    if is_ascii_char(c) {
        ascii_word(c)
    } else {
        unicode_word(c)
    }
}

/// A white space character (`\s`): the 25 code points of the Unicode
/// `White_Space` property.
pub open spec fn is_space(c: char) -> bool {
    let u = c as u32;
    ||| 0x09 <= u <= 0x0d
    ||| u == 0x20 || u == 0x85 || u == 0xa0 || u == 0x1680
    ||| 0x2000 <= u <= 0x200a
    ||| u == 0x2028 || u == 0x2029 || u == 0x202f || u == 0x205f || u == 0x3000
}

/// Characters that survive the first step: word characters, white space, hyphens.
pub open spec fn is_kept(c: char) -> bool {
    is_word(c) || is_space(c) || c == '-'
}

/// Characters whose runs the third step joins into one underscore.
pub open spec fn is_separator(c: char) -> bool {
    is_space(c) || c == '-'
}

/// Step one: every character that is not kept becomes `_`.
pub open spec fn mask_disallowed(s: Seq<char>) -> Seq<char> {
    Seq::new(s.len(), |i: int| if is_kept(s[i]) { s[i] } else { '_' })
}

pub open spec fn trim_start(s: Seq<char>) -> Seq<char>
    decreases s.len(),
{
    if s.len() > 0 && is_space(s[0]) {
        trim_start(s.drop_first())
    } else {
        s
    }
}

pub open spec fn trim_end(s: Seq<char>) -> Seq<char>
    decreases s.len(),
{
    if s.len() > 0 && is_space(s.last()) {
        trim_end(s.drop_last())
    } else {
        s
    }
}

/// Leading and trailing white space removed.
pub open spec fn trim(s: Seq<char>) -> Seq<char> {
    trim_end(trim_start(s))
}

/// The two classes of characters whose runs are joined.
pub enum RunClass {
    Separators,
    Underscores,
}

pub open spec fn in_run(k: RunClass, c: char) -> bool {
    match k {
        RunClass::Separators => is_separator(c),
        RunClass::Underscores => c == '_',
    }
}

/// Every maximal run of characters of class `k` replaced by a single `_`.
pub open spec fn collapse_runs(k: RunClass, s: Seq<char>) -> Seq<char>
    decreases s.len(),
{
    if s.len() == 0 {
        s
    } else {
        let p = collapse_runs(k, s.drop_last());
        if !in_run(k, s.last()) {
            p.push(s.last())
        } else if s.len() >= 2 && in_run(k, s[s.len() - 2]) {
            p
        } else {
            p.push('_')
        }
    }
}

/// A single leading underscore removed.
pub open spec fn strip_leading_underscore(s: Seq<char>) -> Seq<char> {
    if s.len() > 0 && s[0] == '_' {
        s.drop_first()
    } else {
        s
    }
}

/// The last three steps, which follow lowercasing.
pub open spec fn normalize(s: Seq<char>) -> Seq<char> {
    strip_leading_underscore(
        collapse_runs(RunClass::Underscores, collapse_runs(RunClass::Separators, s)),
    )
}

/// The slug of a string.
pub open spec fn slug_of(s: Seq<char>) -> Seq<char> {
    normalize(lowercase_of(trim(mask_disallowed(s))))
}

/// The shape of every slug: no white space or hyphen, no two underscores in a
/// row, and no leading underscore.
pub open spec fn is_normalized(t: Seq<char>) -> bool {
    &&& forall|i: int| 0 <= i < t.len() ==> !is_separator(#[trigger] t[i])
    &&& forall|i: int| 0 < i < t.len() ==> !(#[trigger] t[i] == '_' && t[i - 1] == '_')
    &&& t.len() > 0 ==> t[0] != '_'
}

proof fn lemma_collapse_separators_clean(s: Seq<char>)
    ensures
        forall|i: int|
            0 <= i < collapse_runs(RunClass::Separators, s).len() ==> !is_separator(
                #[trigger] collapse_runs(RunClass::Separators, s)[i],
            ),
    decreases s.len(),
{
    if s.len() > 0 {
        lemma_collapse_separators_clean(s.drop_last());
        assert(('_' as u32) == 0x5f);
        assert(!is_separator('_'));
        let p = collapse_runs(RunClass::Separators, s.drop_last());
        let c = collapse_runs(RunClass::Separators, s);
        assert forall|i: int| 0 <= i < c.len() implies !is_separator(#[trigger] c[i]) by {
            if i < p.len() {
                assert(c[i] == p[i]);
            }
        }
    }
}

proof fn lemma_collapse_underscores_clean(s: Seq<char>)
    requires
        forall|i: int| 0 <= i < s.len() ==> !is_separator(#[trigger] s[i]),
    ensures
        ({
            let c = collapse_runs(RunClass::Underscores, s);
            &&& forall|i: int| 0 <= i < c.len() ==> !is_separator(#[trigger] c[i])
            &&& forall|i: int| 0 < i < c.len() ==> !(#[trigger] c[i] == '_' && c[i - 1] == '_')
            &&& (c.len() == 0 <==> s.len() == 0)
            &&& c.len() > 0 ==> (c.last() == '_' <==> s.last() == '_')
        }),
    decreases s.len(),
{
    if s.len() > 0 {
        let d = s.drop_last();
        assert(forall|i: int| 0 <= i < d.len() ==> d[i] == s[i]);
        lemma_collapse_underscores_clean(d);
        if s.len() >= 2 {
            assert(d.last() == s[s.len() - 2]);
        }
    }
}

proof fn lemma_collapse_identity(k: RunClass, t: Seq<char>)
    requires
        forall|i: int|
            0 <= i < t.len() && in_run(k, #[trigger] t[i]) ==> (k == RunClass::Underscores && t[i]
                == '_' && (i == 0 || t[i - 1] != '_')),
    ensures
        collapse_runs(k, t) == t,
    decreases t.len(),
{
    if t.len() > 0 {
        let d = t.drop_last();
        assert(forall|i: int| 0 <= i < d.len() ==> d[i] == t[i]);
        lemma_collapse_identity(k, d);
        assert(d.push(t.last()) == t);
        if t.len() >= 2 {
            assert(d.last() == t[t.len() - 2]);
        }
    }
}

/// Every slug has the normalized shape, and the steps that follow lowercasing
/// leave it unchanged when applied again.
pub proof fn lemma_slug_is_normalized(s: Seq<char>)
    ensures
        is_normalized(slug_of(s)),
        normalize(slug_of(s)) == slug_of(s),
{
    let x = lowercase_of(trim(mask_disallowed(s)));
    let a = collapse_runs(RunClass::Separators, x);
    lemma_collapse_separators_clean(x);
    lemma_collapse_underscores_clean(a);
    let b = collapse_runs(RunClass::Underscores, a);
    let t = slug_of(s);
    assert(t == strip_leading_underscore(b));
    if b.len() > 0 && b[0] == '_' {
        assert(forall|i: int| 0 <= i < t.len() ==> t[i] == b[i + 1]);
        if t.len() > 0 {
            assert(t[0] == b[1]);
        }
    }
    assert(is_normalized(t));
    lemma_collapse_identity(RunClass::Separators, t);
    lemma_collapse_identity(RunClass::Underscores, t);
}

proof fn lemma_trim_identity(t: Seq<char>)
    requires
        forall|i: int| 0 <= i < t.len() ==> !is_space(#[trigger] t[i]),
    ensures
        trim(t) == t,
{
    assert(trim_start(t) == t);
    assert(trim_end(t) == t);
}

/// Slugifying a slug gives it back, provided lowercasing leaves the slug
/// unchanged and every character of it is a word character. (Every slug has
/// neither white space nor hyphens; what lowercasing does is up to Unicode.)
pub proof fn lemma_slug_idempotent_when_lowercase_stable(s: Seq<char>)
    requires
        lowercase_of(slug_of(s)) == slug_of(s),
        forall|i: int| 0 <= i < slug_of(s).len() ==> is_word(#[trigger] slug_of(s)[i]),
    ensures
        slug_of(slug_of(s)) == slug_of(s),
{
    let t = slug_of(s);
    lemma_slug_is_normalized(s);
    assert(mask_disallowed(t) =~= t);
    lemma_trim_identity(t);
}

fn is_word_char(c: char) -> (r: bool)
    ensures
        r == is_word(c),
{
    let u = c as u32;
    if u < 0x80 {
        (0x61 <= u && u <= 0x7a) || (0x41 <= u && u <= 0x5a) || (0x30 <= u && u <= 0x39) || c == '_'
    } else {
        unicode_word_char(c)
    }
}

fn is_space_char(c: char) -> (r: bool)
    ensures
        r == is_space(c),
{
    white_space_char(c)
}

fn mask_chars(v: &Vec<char>) -> (r: Vec<char>)
    ensures
        r@ == mask_disallowed(v@),
{
    let mut r: Vec<char> = Vec::new();
    for i in 0..v.len()
        invariant
            r@ == mask_disallowed(v@).take(i as int),
    {
        let c = v[i];
        if is_word_char(c) || is_space_char(c) || c == '-' {
            r.push(c);
        } else {
            r.push('_');
        }
        assert(mask_disallowed(v@).take(i + 1) == mask_disallowed(v@).take(i as int).push(
            mask_disallowed(v@)[i as int],
        ));
    }
    assert(mask_disallowed(v@).take(v.len() as int) == mask_disallowed(v@));
    r
}

fn trim_chars(v: &Vec<char>) -> (r: Vec<char>)
    ensures
        r@ == trim(v@),
{
    let n = v.len();
    let mut start: usize = 0;
    assert(v@.subrange(0, n as int) == v@);
    while start < n && is_space_char(v[start])
        invariant
            start <= n == v.len(),
            trim_start(v@) == trim_start(v@.subrange(start as int, n as int)),
        decreases n - start,
    {
        assert(v@.subrange(start as int, n as int).drop_first() == v@.subrange(
            start + 1,
            n as int,
        ));
        start = start + 1;
    }
    let mut end: usize = n;
    while end > start && is_space_char(v[end - 1])
        invariant
            start <= end <= n == v.len(),
            trim_start(v@) == v@.subrange(start as int, n as int) ==> trim(v@) == trim_end(
                v@.subrange(start as int, end as int),
            ),
        decreases end,
    {
        assert(v@.subrange(start as int, end as int).drop_last() == v@.subrange(
            start as int,
            end - 1,
        ));
        end = end - 1;
    }
    assert(trim_start(v@) == v@.subrange(start as int, n as int));
    let mut r: Vec<char> = Vec::new();
    for i in start..end
        invariant
            start <= end <= v.len(),
            r@ == v@.subrange(start as int, i as int),
    {
        r.push(v[i]);
        assert(v@.subrange(start as int, i + 1) == v@.subrange(start as int, i as int).push(
            v@[i as int],
        ));
    }
    r
}

fn collapse_chars(k: RunClass, v: &Vec<char>) -> (r: Vec<char>)
    ensures
        r@ == collapse_runs(k, v@),
{
    let mut r: Vec<char> = Vec::new();
    let ghost k0 = k;
    for i in 0..v.len()
        invariant
            k == k0,
            r@ == collapse_runs(k, v@.take(i as int)),
    {
        let c = v[i];
        let member = match k {
            RunClass::Separators => is_space_char(c) || c == '-',
            RunClass::Underscores => c == '_',
        };
        let prev_member = i > 0 && match k {
            RunClass::Separators => is_space_char(v[i - 1]) || v[i - 1] == '-',
            RunClass::Underscores => v[i - 1] == '_',
        };
        let ghost t = v@.take(i + 1);
        assert(t.drop_last() == v@.take(i as int));
        assert(t.last() == c);
        assert(i > 0 ==> t[t.len() - 2] == v@[i - 1]);
        if !member {
            r.push(c);
        } else if !prev_member {
            r.push('_');
        }
    }
    assert(v@.take(v.len() as int) == v@);
    r
}

/// The steps that follow lowercasing: runs of white space and hyphens become
/// `_`, runs of `_` become one, and a single leading `_` is dropped.
pub fn normalize_lowered(lower: &str) -> (r: String)
    ensures
        r@ == normalize(lower@),
{
    let lv = chars_of(lower);
    let joined = collapse_chars(RunClass::Separators, &lv);
    let single = collapse_chars(RunClass::Underscores, &joined);
    let mut out: Vec<char> = Vec::new();
    let skip: usize = if single.len() > 0 && single[0] == '_' { 1 } else { 0 };
    for i in skip..single.len()
        invariant
            skip <= single.len(),
            out@ == single@.subrange(skip as int, i as int),
    {
        out.push(single[i]);
        assert(single@.subrange(skip as int, i + 1) == single@.subrange(skip as int, i as int).push(
            single@[i as int],
        ));
    }
    assert(out@ == strip_leading_underscore(single@));
    string_of(&out)
}

/// Turns an arbitrary string into a lowercase identifier fragment: characters
/// other than word characters, white space and hyphens become `_`; the result
/// is trimmed and lowercased; runs of white space and hyphens become `_`; runs
/// of `_` become one; and a single leading `_` is dropped.
pub fn slugify(value: &str) -> (r: String)
    ensures
        r@ == slug_of(value@),
{
    let v = chars_of(value);
    let masked = mask_chars(&v);
    let trimmed = string_of(&trim_chars(&masked));
    let lower = to_lowercase(trimmed.as_str());
    normalize_lowered(lower.as_str())
}

} // verus!
