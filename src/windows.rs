//! Locale sources of Windows: the user's preferred UI languages, which the
//! system reports as UTF-16 names, each ended by a NUL unit.
use crate::resolve::{resolve_all, resolved, split_on};
use vstd::prelude::*;

verus! {

/// The UTF-16 code units of one character: a character below `U+10000` is one
/// unit of its own value; any other is a surrogate pair carrying its value
/// minus `0x10000`, the high ten bits first.
pub open spec fn utf16_units(c: char) -> Seq<u16> {
    let v = c as u32 as int;
    if v < 0x10000 {
        seq![v as u16]
    } else {
        let w = v - 0x10000;
        seq![(0xD800 + w / 0x400) as u16, (0xDC00 + w % 0x400) as u16]
    }
}

/// The UTF-16 encoding of a text: the units of its characters, in order.
pub open spec fn utf16_encoding(t: Seq<char>) -> Seq<u16>
    decreases t.len(),
{
    if t.len() == 0 {
        Seq::empty()
    } else {
        utf16_encoding(t.drop_last()) + utf16_units(t.last())
    }
}

/// The text that UTF-16 code units encode, or `None` where they are not the
/// encoding of any text (they hold an unpaired surrogate).
pub open spec fn utf16_text(units: Seq<u16>) -> Option<Seq<char>> {
    if exists|t: Seq<char>| utf16_encoding(t) == units {
        Some(choose|t: Seq<char>| utf16_encoding(t) == units)
    } else {
        None
    }
}

/// Each character takes at least one unit.
pub proof fn lemma_utf16_encoding_len(t: Seq<char>)
    ensures
        utf16_encoding(t).len() >= t.len(),
    decreases t.len(),
{
    if t.len() > 0 {
        lemma_utf16_encoding_len(t.drop_last());
    }
}

/// No units decode to the empty text, and valid units that are not empty
/// decode to text that is not empty.
pub proof fn lemma_utf16_text_empty(units: Seq<u16>)
    ensures
        units.len() == 0 ==> utf16_text(units) == Some(Seq::<char>::empty()),
        units.len() > 0 && utf16_text(units) is Some ==> utf16_text(units)->0.len() > 0,
{
    if units.len() == 0 {
        assert(utf16_encoding(Seq::<char>::empty()) == units);
        let t = choose|t: Seq<char>| utf16_encoding(t) == units;
        lemma_utf16_encoding_len(t);
        assert(t =~= Seq::<char>::empty());
    }
}

/// Relies on String::from_utf16: decodes UTF-16 code units into the text they
/// encode, and fails where they are not valid UTF-16. UTF-16 decodes
/// uniquely, so the text is the one whose encoding the units are.
#[verifier::external_body]
fn decode_utf16(units: &[u16]) -> (r: Option<String>)
    ensures
        r.deep_view() == utf16_text(units@),
{
    String::from_utf16(units).ok()
}

/// The names that a sequence of UTF-16 parts holds: the text of each part that
/// decodes to non-empty text, in order.
pub open spec fn decoded_names(parts: Seq<Seq<u16>>) -> Seq<Seq<char>>
    decreases parts.len(),
{
    if parts.len() == 0 {
        Seq::empty()
    } else {
        let before = decoded_names(parts.drop_last());
        match utf16_text(parts.last()) {
            Some(t) => if t.len() > 0 {
                before.push(t)
            } else {
                before
            },
            None => before,
        }
    }
}

/// The language names in a buffer of NUL-separated UTF-16 names.
pub open spec fn ui_language_names(buffer: Seq<u16>) -> Seq<Seq<char>> {
    decoded_names(split_on(buffer, 0u16))
}

/// Appends the text of `part` to `names` when it decodes to non-empty text.
fn add_name(names: &mut Vec<String>, part: &Vec<u16>)
    ensures
        final(names).deep_view() == (match utf16_text(part@) {
            Some(t) => if t.len() > 0 {
                old(names).deep_view().push(t)
            } else {
                old(names).deep_view()
            },
            None => old(names).deep_view(),
        }),
{
    let ghost before = names.deep_view();
    if let Some(name) = decode_utf16(part.as_slice()) {
        if !name.as_str().is_empty() {
            names.push(name);
            assert(names.deep_view() =~= before.push(utf16_text(part@)->0));
        }
    }
}

/// Returns the language names held in `buffer`, in order: the buffer is split
/// at each NUL unit, and each part that is valid UTF-16 and not empty gives a
/// name. Parts that are empty or not valid UTF-16 are left out.
pub fn ui_languages(buffer: &[u16]) -> (r: Vec<String>)
    ensures
        r.deep_view() == ui_language_names(buffer@),
{
    let mut names: Vec<String> = Vec::new();
    let mut part: Vec<u16> = Vec::new();
    let mut i: usize = 0;
    assert(buffer@.take(0) =~= Seq::<u16>::empty());
    while i < buffer.len()
        invariant
            i <= buffer.len(),
            split_on(buffer@.take(i as int), 0u16).len() >= 1,
            part@ == split_on(buffer@.take(i as int), 0u16).last(),
            names.deep_view() == decoded_names(split_on(buffer@.take(i as int), 0u16).drop_last()),
        decreases buffer.len() - i,
    {
        let unit = buffer[i];
        let ghost parts = split_on(buffer@.take(i as int), 0u16);
        let ghost s = buffer@.take(i + 1);
        assert(s.drop_last() =~= buffer@.take(i as int));
        if unit == 0 {
            assert(parts.push(Seq::empty()).drop_last() =~= parts);
            add_name(&mut names, &part);
            part = Vec::new();
        } else {
            part.push(unit);
            assert(parts.update(parts.len() - 1, parts.last().push(unit)).drop_last()
                =~= parts.drop_last());
        }
        i = i + 1;
    }
    assert(buffer@.take(buffer@.len() as int) =~= buffer@);
    add_name(&mut names, &part);
    names
}

/// Returns the user's preferred UI languages held in `buffer` as a
/// preference list: each name normalised to a canonical tag, in order, and
/// kept only where it first appears.
pub fn preferred_languages(buffer: &[u16]) -> (r: Vec<String>)
    ensures
        r.deep_view() == resolved(ui_language_names(buffer@)),
{
    let sources = vec![ui_languages(buffer)];
    assert(sources.deep_view() =~= seq![ui_language_names(buffer@)]);
    proof {
        sources.deep_view().lemma_flatten_one_element();
    }
    resolve_all(&sources)
}

} // verus!
