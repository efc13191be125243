//! Locale sources of POSIX systems: the locale environment variables.
use crate::resolve::{best, resolve_all, resolve_best, resolved, split_list, split_on};
use vstd::prelude::*;

verus! {

/// The values of the environment variables that name a locale. `None` stands
/// for a variable that is unset or does not hold valid text.
pub struct LocaleEnv {
    /// `LANGUAGE`: a colon-separated list of locales, most preferred first.
    pub language: Option<String>,
    /// `LC_ALL`: one locale, overriding every category.
    pub lc_all: Option<String>,
    /// `LC_CTYPE`: one locale, for character classification.
    pub lc_ctype: Option<String>,
    /// `LC_MESSAGES`: one locale, for messages.
    pub lc_messages: Option<String>,
    /// `LANG`: one locale, the default for every category.
    pub lang: Option<String>,
}

/// The delimiter between the locales of `LANGUAGE`.
pub const LANGUAGE_DELIMITER: char = ':';

/// The raw values of a variable that holds one locale.
pub open spec fn single_value(v: Option<Seq<char>>) -> Seq<Seq<char>> {
    match v {
        Some(s) => seq![s],
        None => Seq::empty(),
    }
}

/// The raw values of a variable that holds a colon-separated list of locales.
pub open spec fn list_values(v: Option<Seq<char>>) -> Seq<Seq<char>> {
    match v {
        Some(s) => split_on(s, LANGUAGE_DELIMITER),
        None => Seq::empty(),
    }
}

/// The sources of the full preference list, highest precedence first:
/// `LANGUAGE`, `LC_ALL`, `LC_MESSAGES`, `LANG`.
pub open spec fn preference_sources(env: LocaleEnv) -> Seq<Seq<Seq<char>>> {
    seq![
        list_values(env.language.deep_view()),
        single_value(env.lc_all.deep_view()),
        single_value(env.lc_messages.deep_view()),
        single_value(env.lang.deep_view()),
    ]
}

/// The sources of the single current locale, highest precedence first:
/// `LC_ALL`, `LC_CTYPE`, `LANG`.
pub open spec fn current_sources(env: LocaleEnv) -> Seq<Option<Seq<char>>> {
    seq![env.lc_all.deep_view(), env.lc_ctype.deep_view(), env.lang.deep_view()]
}

fn copy_value(v: &Option<String>) -> (r: Option<String>)
    ensures
        r.deep_view() == v.deep_view(),
{
    match v {
        Some(s) => Some(s.clone()),
        None => None,
    }
}

fn single_values(v: &Option<String>) -> (r: Vec<String>)
    ensures
        r.deep_view() == single_value(v.deep_view()),
{
    let mut r: Vec<String> = Vec::new();
    if let Some(s) = v {
        r.push(s.clone());
    }
    assert(r.deep_view() =~= single_value(v.deep_view()));
    r
}

/// Returns the user's preferred locales, most preferred first and without
/// duplicates, from `LANGUAGE` (each of its colon-separated parts in order),
/// then `LC_ALL`, `LC_MESSAGES` and `LANG`. Empty values are skipped.
pub fn get(env: &LocaleEnv) -> (r: Vec<String>)
    ensures
        r.deep_view() == resolved(preference_sources(*env).flatten()),
{
    let language = match &env.language {
        Some(s) => split_list(s.as_str(), LANGUAGE_DELIMITER),
        None => Vec::new(),
    };
    assert(language.deep_view() =~= list_values(env.language.deep_view()));
    let sources = vec![
        language,
        single_values(&env.lc_all),
        single_values(&env.lc_messages),
        single_values(&env.lang),
    ];
    assert(sources.deep_view() =~= preference_sources(*env));
    resolve_all(&sources)
}

/// Returns the current locale: the tag of the first of `LC_ALL`, `LC_CTYPE`
/// and `LANG` that is set and not empty, or `None` when none is.
pub fn get_locale(env: &LocaleEnv) -> (r: Option<String>)
    ensures
        r.deep_view() == best(current_sources(*env)),
{
    let values = vec![copy_value(&env.lc_all), copy_value(&env.lc_ctype), copy_value(&env.lang)];
    assert(values.deep_view() =~= current_sources(*env));
    resolve_best(&values)
}

} // verus!
