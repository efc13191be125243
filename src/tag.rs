//! Conversion of a raw platform locale identifier into a canonical tag.
use vstd::prelude::*;

verus! {

/// A character that ends the language/region part of a POSIX locale:
/// `.` starts the encoding, `@` starts the modifier.
pub open spec fn ends_tag(c: char) -> bool {
    c == '.' || c == '@'
}

/// The character as it stands in a canonical tag: `_` becomes `-`.
pub open spec fn hyphenated(c: char) -> char {
    if c == '_' {
        '-'
    } else {
        c
    }
}

/// The position of the first `.` or `@` in `s`, or its length if it has neither.
pub open spec fn tag_end(s: Seq<char>) -> nat
    decreases s.len(),
{
    if s.len() == 0 || ends_tag(s[0]) {
        0
    } else {
        1 + tag_end(s.drop_first())
    }
}

/// The canonical tag of a raw locale identifier: the part before the first
/// `.` or `@`, with every `_` replaced by `-`. Case is kept as it is.
pub open spec fn canonical_tag(s: Seq<char>) -> Seq<char> {
    s.take(tag_end(s) as int).map_values(|c: char| hyphenated(c))
}

/// A string is canonical when it holds none of `.`, `@` and `_`.
pub open spec fn is_canonical(s: Seq<char>) -> bool {
    forall|i: int| 0 <= i < s.len() ==> !ends_tag(#[trigger] s[i]) && s[i] != '_'
}

/// `tag_end` is the first index whose character ends the tag.
pub proof fn lemma_tag_end_first(s: Seq<char>, i: int)
    requires
        0 <= i <= s.len(),
        forall|j: int| 0 <= j < i ==> !ends_tag(#[trigger] s[j]),
        i == s.len() || ends_tag(s[i]),
    ensures
        tag_end(s) == i,
    decreases i,
{
    if i > 0 {
        let t = s.drop_first();
        assert forall|j: int| 0 <= j < i - 1 implies !ends_tag(#[trigger] t[j]) by {
            assert(t[j] == s[j + 1]);
        }
        lemma_tag_end_first(t, i - 1);
        assert(!ends_tag(s[0]));
    }
}

/// No character before `tag_end` ends the tag, and `tag_end` never passes the end.
pub proof fn lemma_tag_end_bounds(s: Seq<char>)
    ensures
        tag_end(s) <= s.len(),
        forall|j: int| 0 <= j < tag_end(s) ==> !ends_tag(#[trigger] s[j]),
    decreases s.len(),
{
    if s.len() > 0 && !ends_tag(s[0]) {
        let t = s.drop_first();
        lemma_tag_end_bounds(t);
        assert forall|j: int| 0 <= j < tag_end(s) implies !ends_tag(#[trigger] s[j]) by {
            if j > 0 {
                assert(s[j] == t[j - 1]);
            }
        }
    }
}

/// Every canonical tag is canonical.
pub proof fn lemma_canonical_tag_is_canonical(s: Seq<char>)
    ensures
        is_canonical(canonical_tag(s)),
{
    lemma_tag_end_bounds(s);
}

/// A canonical string is its own canonical tag.
pub proof fn lemma_canonical_unchanged(s: Seq<char>)
    requires
        is_canonical(s),
    ensures
        canonical_tag(s) == s,
{
    lemma_tag_end_first(s, s.len() as int);
    assert(canonical_tag(s) =~= s);
}

/// Normalising is idempotent: the canonical tag of a canonical tag is itself.
pub proof fn lemma_canonical_tag_idempotent(s: Seq<char>)
    ensures
        canonical_tag(canonical_tag(s)) == canonical_tag(s),
{
    lemma_canonical_tag_is_canonical(s);
    lemma_canonical_unchanged(canonical_tag(s));
}

/// Normalising folds no case: the tag keeps every character before the first
/// `.` or `@` in place, and changes only `_` (into `-`).
pub proof fn lemma_canonical_tag_keeps_case(s: Seq<char>)
    ensures
        canonical_tag(s).len() == tag_end(s),
        forall|i: int|
            0 <= i < tag_end(s) ==> #[trigger] canonical_tag(s)[i] == if s[i] == '_' {
                '-'
            } else {
                s[i]
            },
{
    lemma_tag_end_bounds(s);
}

/// Relies on String::push: the character is appended at the end.
#[verifier::external_body]
pub(crate) fn push_char(s: &mut String, c: char)
    ensures
        final(s)@ == old(s)@.push(c),
{
    s.push(c)
}

/// Converts a POSIX locale identifier (`lang_REGION.ENCODING@modifier`) into a
/// canonical tag (`lang-REGION`). An identifier that is already canonical is
/// returned unchanged; the empty string gives the empty string.
pub fn posix_to_bcp47(locale: &str) -> (r: String)
    ensures
        r@ == canonical_tag(locale@),
{
    let n = locale.unicode_len();
    let mut r = String::new();
    let mut i: usize = 0;
    while i < n
        invariant
            n == locale@.len(),
            i <= n,
            forall|j: int| 0 <= j < i ==> !ends_tag(#[trigger] locale@[j]),
            r@ == locale@.take(i as int).map_values(|c: char| hyphenated(c)),
        ensures
            i <= n,
            forall|j: int| 0 <= j < i ==> !ends_tag(#[trigger] locale@[j]),
            i == n || ends_tag(locale@[i as int]),
            r@ == locale@.take(i as int).map_values(|c: char| hyphenated(c)),
        decreases n - i,
    {
        let c = locale.get_char(i);
        if c == '.' || c == '@' {
            break;
        }
        if c == '_' {
            push_char(&mut r, '-');
        } else {
            push_char(&mut r, c);
        }
        proof {
            assert(locale@.take(i + 1) =~= locale@.take(i as int).push(c));
        }
        i = i + 1;
        assert(r@ =~= locale@.take(i as int).map_values(|c: char| hyphenated(c)));
    }
    proof {
        lemma_tag_end_first(locale@, i as int);
    }
    r
}

} // verus!
