use sys_locale::windows::{preferred_languages, ui_languages};
use sys_locale::{resolve_all, resolve_best, split_list};

fn strings(items: &[&str]) -> Vec<String> {
    items.iter().map(|s| s.to_string()).collect()
}

fn utf16_list(names: &[&str]) -> Vec<u16> {
    let mut buffer = Vec::new();
    for name in names {
        buffer.extend(name.encode_utf16());
        buffer.push(0);
    }
    buffer.push(0);
    buffer
}

#[test]
fn resolve_all_of_nothing_is_empty() {
    assert!(resolve_all(&Vec::new()).is_empty());
    assert!(resolve_all(&vec![Vec::new(), strings(&[""])]).is_empty());
}

#[test]
fn resolve_all_first_seen_wins() {
    let sources = vec![
        strings(&["de_DE.UTF-8", "fr_FR"]),
        strings(&["fr-FR"]),
        strings(&["it_IT", "de_DE@euro"]),
    ];
    assert_eq!(resolve_all(&sources), strings(&["de-DE", "fr-FR", "it-IT"]));
}

#[test]
fn resolve_all_keeps_tag_of_encoding_only_value() {
    let sources = vec![strings(&[".UTF-8", "@euro", "en"])];
    assert_eq!(resolve_all(&sources), strings(&["", "en"]));
}

#[test]
fn resolve_best_takes_first_non_empty() {
    let values = vec![None, Some(String::new()), Some("nl_BE.UTF-8".to_string()), Some("en".to_string())];
    assert_eq!(resolve_best(&values), Some("nl-BE".to_string()));
    assert_eq!(resolve_best(&vec![None, Some(String::new())]), None);
    assert_eq!(resolve_best(&Vec::new()), None);
}

#[test]
fn split_list_keeps_empty_parts() {
    assert_eq!(split_list("", ':'), strings(&[""]));
    assert_eq!(split_list("a:b", ':'), strings(&["a", "b"]));
    assert_eq!(split_list(":a::b:", ':'), strings(&["", "a", "", "b", ""]));
    assert_eq!(split_list("en_US", ':'), strings(&["en_US"]));
}

#[test]
fn ui_languages_splits_at_nul() {
    let buffer = utf16_list(&["en-US", "fr-FR", "zh-Hant-TW"]);
    assert_eq!(ui_languages(&buffer), strings(&["en-US", "fr-FR", "zh-Hant-TW"]));
}

#[test]
fn ui_languages_decodes_non_ascii() {
    let buffer = utf16_list(&["ja-JP", "x-€𝄞"]);
    assert_eq!(ui_languages(&buffer), strings(&["ja-JP", "x-€𝄞"]));
}

#[test]
fn ui_languages_skips_invalid_and_empty_parts() {
    let mut buffer = utf16_list(&["de-DE"]);
    buffer.extend([0xD800, 0x0041, 0]);
    buffer.extend("es-ES".encode_utf16());
    assert_eq!(ui_languages(&buffer), strings(&["de-DE", "es-ES"]));
    assert!(ui_languages(&[]).is_empty());
    assert!(ui_languages(&[0, 0]).is_empty());
}

#[test]
fn best_is_first_of_resolved_list() {
    let values = vec![None, Some(String::new()), Some("sv_SE.UTF-8".to_string()), Some("en".to_string())];
    let sources: Vec<Vec<String>> = values.iter().map(|v| v.iter().cloned().collect()).collect();
    let all = resolve_all(&sources);
    assert_eq!(all, strings(&["sv-SE", "en"]));
    assert_eq!(resolve_best(&values), all.first().cloned());
}

#[test]
fn preferred_languages_drop_repeats() {
    let buffer = utf16_list(&["en-US", "fr-FR", "en-US", "de-DE", "fr-FR"]);
    assert_eq!(ui_languages(&buffer), strings(&["en-US", "fr-FR", "en-US", "de-DE", "fr-FR"]));
    assert_eq!(preferred_languages(&buffer), strings(&["en-US", "fr-FR", "de-DE"]));
}

#[test]
fn preferred_languages_normalise_names() {
    let buffer = utf16_list(&["pt_BR", "pt-BR", "sr_RS.UTF-8", "EN-us"]);
    assert_eq!(preferred_languages(&buffer), strings(&["pt-BR", "sr-RS", "EN-us"]));
    assert!(preferred_languages(&[]).is_empty());
}
