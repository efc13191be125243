//! Resolution of locale candidates from several sources taken in precedence order.
use crate::tag::{canonical_tag, posix_to_bcp47, push_char};
use vstd::prelude::*;

verus! {

broadcast use Seq::lemma_flatten_push;

/// `tags` with `t` appended, unless an equal tag is already there.
pub open spec fn add_unique(tags: Seq<Seq<char>>, t: Seq<char>) -> Seq<Seq<char>> {
    if tags.contains(t) {
        tags
    } else {
        tags.push(t)
    }
}

/// The tags that raw values give, taken in order: an empty value is skipped,
/// any other is normalised and appended unless an equal tag came before.
pub open spec fn resolved(raws: Seq<Seq<char>>) -> Seq<Seq<char>>
    decreases raws.len(),
{
    if raws.len() == 0 {
        Seq::empty()
    } else {
        let before = resolved(raws.drop_last());
        let raw = raws.last();
        if raw.len() == 0 {
            before
        } else {
            add_unique(before, canonical_tag(raw))
        }
    }
}

/// The tag of the first source, in precedence order, whose value is present
/// and not empty.
pub open spec fn best(values: Seq<Option<Seq<char>>>) -> Option<Seq<char>>
    decreases values.len(),
{
    if values.len() == 0 {
        None
    } else {
        match values[0] {
            Some(v) => if v.len() > 0 {
                Some(canonical_tag(v))
            } else {
                best(values.drop_first())
            },
            None => best(values.drop_first()),
        }
    }
}

/// The values that are present, in order.
pub open spec fn present_values(values: Seq<Option<Seq<char>>>) -> Seq<Seq<char>>
    decreases values.len(),
{
    if values.len() == 0 {
        Seq::empty()
    } else {
        match values[0] {
            Some(v) => seq![v] + present_values(values.drop_first()),
            None => present_values(values.drop_first()),
        }
    }
}

/// The two ways of resolving agree: over sources of one value each, the best
/// tag is the first tag of the full resolved list, and there is none exactly
/// when that list is empty.
pub proof fn lemma_best_is_first_resolved(values: Seq<Option<Seq<char>>>)
    ensures
        best(values) == if resolved(present_values(values)).len() > 0 {
            Some(resolved(present_values(values))[0])
        } else {
            None::<Seq<char>>
        },
    decreases values.len(),
{
    if values.len() > 0 {
        let rest = values.drop_first();
        lemma_best_is_first_resolved(rest);
        if let Some(v) = values[0] {
            let p = present_values(rest);
            if v.len() == 0 {
                lemma_empty_value_ignored(Seq::empty(), p);
                assert(v =~= Seq::empty());
                assert(Seq::<Seq<char>>::empty().push(Seq::empty()) + p =~= seq![v] + p);
                assert(Seq::<Seq<char>>::empty() + p =~= p);
            } else {
                lemma_resolved_keeps_order(seq![v], p);
                let first = seq![v];
                assert(first.drop_last() =~= Seq::<Seq<char>>::empty());
                assert(resolved(first.drop_last()) =~= Seq::empty());
                assert(!Seq::<Seq<char>>::empty().contains(canonical_tag(v)));
                assert(resolved(first) =~= seq![canonical_tag(v)]);
                assert(resolved(seq![v] + p).take(1)[0] == resolved(seq![v] + p)[0]);
            }
        }
    }
}

/// The parts of `s` between occurrences of `d`, in order: `n` delimiters give
/// `n + 1` parts, some of which may be empty.
pub open spec fn split_on<A>(s: Seq<A>, d: A) -> Seq<Seq<A>>
    decreases s.len(),
{
    if s.len() == 0 {
        seq![Seq::empty()]
    } else {
        let parts = split_on(s.drop_last(), d);
        if s.last() == d {
            parts.push(Seq::empty())
        } else {
            parts.update(parts.len() - 1, parts.last().push(s.last()))
        }
    }
}

/// The resolved list never holds a tag twice.
pub proof fn lemma_resolved_no_duplicates(raws: Seq<Seq<char>>)
    ensures
        resolved(raws).no_duplicates(),
    decreases raws.len(),
{
    if raws.len() > 0 {
        lemma_resolved_no_duplicates(raws.drop_last());
    }
}

/// A tag is in the resolved list exactly when some non-empty raw value
/// normalises to it.
pub proof fn lemma_resolved_members(raws: Seq<Seq<char>>, t: Seq<char>)
    ensures
        resolved(raws).contains(t) <==> exists|i: int|
            0 <= i < raws.len() && raws[i].len() > 0 && #[trigger] canonical_tag(raws[i]) == t,
    decreases raws.len(),
{
    if raws.len() > 0 {
        let before = raws.drop_last();
        lemma_resolved_members(before, t);
        if resolved(raws).contains(t) {
            if !resolved(before).contains(t) {
                let k = raws.len() - 1;
                assert(raws[k].len() > 0 && canonical_tag(raws[k]) == t);
            } else {
                let i = choose|i: int|
                    0 <= i < before.len() && before[i].len() > 0 && #[trigger] canonical_tag(
                        before[i],
                    ) == t;
                assert(raws[i] == before[i]);
            }
        }
        if exists|i: int|
            0 <= i < raws.len() && raws[i].len() > 0 && #[trigger] canonical_tag(raws[i]) == t {
            let i = choose|i: int|
                0 <= i < raws.len() && raws[i].len() > 0 && #[trigger] canonical_tag(raws[i]) == t;
            if i < raws.len() - 1 {
                assert(before[i] == raws[i]);
                let tags = resolved(before);
                let j = choose|j: int| 0 <= j < tags.len() && tags[j] == t;
                if raws.last().len() > 0 && !tags.contains(canonical_tag(raws.last())) {
                    assert(tags.push(canonical_tag(raws.last()))[j] == t);
                }
            } else {
                let tags = resolved(before);
                if !tags.contains(t) {
                    assert(tags.push(t)[tags.len() as int] == t);
                }
            }
        }
    }
}

/// First seen wins: the tags resolved from some values keep their places when
/// more values follow; later values can only add tags at the end.
pub proof fn lemma_resolved_keeps_order(raws: Seq<Seq<char>>, more: Seq<Seq<char>>)
    ensures
        resolved(raws).len() <= resolved(raws + more).len(),
        resolved(raws + more).take(resolved(raws).len() as int) == resolved(raws),
    decreases more.len(),
{
    if more.len() == 0 {
        assert(raws + more =~= raws);
        assert(resolved(raws).take(resolved(raws).len() as int) =~= resolved(raws));
    } else {
        let shorter = more.drop_last();
        lemma_resolved_keeps_order(raws, shorter);
        assert((raws + more).drop_last() =~= raws + shorter);
        let n = resolved(raws).len() as int;
        let tags = resolved(raws + shorter);
        assert(tags.push(canonical_tag(more.last())).take(n) =~= tags.take(n));
    }
}

/// An empty value contributes nothing, wherever it stands.
pub proof fn lemma_empty_value_ignored(before: Seq<Seq<char>>, after: Seq<Seq<char>>)
    ensures
        resolved(before.push(Seq::empty()) + after) == resolved(before + after),
    decreases after.len(),
{
    if after.len() == 0 {
        assert(before.push(Seq::empty()) + after =~= before.push(Seq::empty()));
        assert(before.push(Seq::empty()).drop_last() =~= before);
        assert(before + after =~= before);
    } else {
        let shorter = after.drop_last();
        lemma_empty_value_ignored(before, shorter);
        assert((before.push(Seq::empty()) + after).drop_last() =~= before.push(Seq::empty())
            + shorter);
        assert((before + after).drop_last() =~= before + shorter);
    }
}

/// Appends `t` to `tags` unless an equal tag is already there.
fn add_tag(tags: &mut Vec<String>, t: String)
    ensures
        final(tags).deep_view() == add_unique(old(tags).deep_view(), t@),
{
    let mut i: usize = 0;
    while i < tags.len()
        invariant
            i <= tags.len(),
            forall|j: int| 0 <= j < i ==> tags.deep_view()[j] != t@,
        decreases tags.len() - i,
    {
        if tags[i] == t {
            assert(tags.deep_view().contains(t@)) by {
                assert(tags.deep_view()[i as int] == t@);
            }
            return;
        }
        i = i + 1;
    }
    let ghost before = tags.deep_view();
    tags.push(t);
    assert(tags.deep_view() =~= before.push(t@));
}

/// Resolves the ordered list of locale tags from sources given in precedence
/// order, highest first, each with its raw values in their own order. Empty
/// values are skipped; each tag appears once, where it was first produced.
pub fn resolve_all(sources: &Vec<Vec<String>>) -> (r: Vec<String>)
    ensures
        r.deep_view() == resolved(sources.deep_view().flatten()),
{
    let mut tags: Vec<String> = Vec::new();
    let mut i: usize = 0;
    while i < sources.len()
        invariant
            i <= sources.len(),
            tags.deep_view() == resolved(sources.deep_view().take(i as int).flatten()),
        decreases sources.len() - i,
    {
        let values = &sources[i];
        let ghost done = sources.deep_view().take(i as int).flatten();
        assert(done + values.deep_view().take(0) =~= done);
        let mut j: usize = 0;
        while j < values.len()
            invariant
                i < sources.len(),
                values == sources[i as int],
                j <= values.len(),
                tags.deep_view() == resolved(done + values.deep_view().take(j as int)),
            decreases values.len() - j,
        {
            let ghost seen = done + values.deep_view().take(j as int);
            let raw = &values[j];
            assert(raw@ == values.deep_view()[j as int]);
            if !raw.as_str().is_empty() {
                add_tag(&mut tags, posix_to_bcp47(raw.as_str()));
            }
            assert(seen.push(raw@).drop_last() =~= seen);
            assert(done + values.deep_view().take(j + 1) =~= seen.push(raw@));
            j = j + 1;
        }
        assert(values.deep_view().take(values.len() as int) =~= values.deep_view());
        assert(sources.deep_view().take(i + 1) =~= sources.deep_view().take(i as int).push(
            values.deep_view(),
        ));
        i = i + 1;
    }
    assert(sources.deep_view().take(sources.len() as int) =~= sources.deep_view());
    tags
}

/// Returns the tag of the first value, in precedence order, that is present
/// and not empty, or `None` when there is none.
pub fn resolve_best(values: &Vec<Option<String>>) -> (r: Option<String>)
    ensures
        r.deep_view() == best(values.deep_view()),
{
    let mut i: usize = 0;
    assert(values.deep_view().skip(0) =~= values.deep_view());
    while i < values.len()
        invariant
            i <= values.len(),
            best(values.deep_view().skip(i as int)) == best(values.deep_view()),
        decreases values.len() - i,
    {
        let ghost rest = values.deep_view().skip(i as int);
        assert(rest.drop_first() =~= values.deep_view().skip(i + 1));
        if let Some(v) = &values[i] {
            assert(rest[0] == Some(v@));
            if !v.as_str().is_empty() {
                return Some(posix_to_bcp47(v.as_str()));
            }
        }
        i = i + 1;
    }
    assert(values.deep_view().skip(i as int) =~= Seq::empty());
    None
}

/// Splits `value` at every occurrence of `delimiter`.
pub fn split_list(value: &str, delimiter: char) -> (r: Vec<String>)
    ensures
        r.deep_view() == split_on(value@, delimiter),
{
    let n = value.unicode_len();
    let mut parts: Vec<String> = Vec::new();
    let mut part = String::new();
    let mut i: usize = 0;
    assert(value@.take(0) =~= Seq::<char>::empty());
    assert(parts.deep_view().push(part@) =~= seq![Seq::<char>::empty()]);
    while i < n
        invariant
            n == value@.len(),
            i <= n,
            parts.deep_view().push(part@) == split_on(value@.take(i as int), delimiter),
        decreases n - i,
    {
        let c = value.get_char(i);
        let ghost before = parts.deep_view();
        let ghost last = part@;
        let ghost s = value@.take(i + 1);
        assert(s.drop_last() =~= value@.take(i as int));
        if c == delimiter {
            parts.push(part);
            part = String::new();
            assert(parts.deep_view().push(part@) =~= before.push(last).push(Seq::empty()));
        } else {
            push_char(&mut part, c);
            assert(parts.deep_view().push(part@) =~= before.push(last).update(
                before.len() as int,
                last.push(c),
            ));
        }
        i = i + 1;
    }
    assert(value@.take(n as int) =~= value@);
    let ghost all = parts.deep_view().push(part@);
    parts.push(part);
    assert(parts.deep_view() =~= all);
    parts
}

} // verus!
