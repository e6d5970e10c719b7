use gigascli::classify::classify_file;
use gigascli::classify::discover_entities;
use gigascli::matching::build_candidates;
use gigascli::model::MapEntry;
use gigascli::model::RelationshipIndex;
use gigascli::model::SourceFile;
use gigascli::model::default_denylist;
use gigascli::model::default_patterns;
use gigascli::model::default_primary_marker;
use gigascli::model::default_secondary_marker;
use gigascli::model::find_entry;
use gigascli::scan::scan_gigas_files;

fn b(s: &str) -> Vec<u8> {
    s.as_bytes().to_vec()
}

fn file(stem: &str, lines: &[&str]) -> SourceFile {
    SourceFile {
        stem: b(stem),
        lines: lines.iter().map(|l| b(l)).collect(),
    }
}

fn scan(files: &Vec<SourceFile>) -> RelationshipIndex {
    scan_gigas_files(
        files,
        &default_primary_marker(),
        &default_secondary_marker(),
        &default_denylist(),
        &default_patterns(),
    )
}

fn keys(entries: &[MapEntry]) -> Vec<String> {
    entries
        .iter()
        .map(|e| String::from_utf8(e.key.clone()).unwrap())
        .collect()
}

fn values_of(entries: &[MapEntry], key: &str) -> Option<Vec<String>> {
    entries
        .iter()
        .find(|e| e.key.as_slice() == key.as_bytes())
        .map(|e| {
            e.values
                .iter()
                .map(|v| String::from_utf8(v.clone()).unwrap())
                .collect()
        })
}

#[test]
fn classify_untagged_file_is_none() {
    let lines = vec![b("using System;"), b("class Health {}")];
    let r = classify_file(&lines, &default_primary_marker(), &default_secondary_marker());
    assert_eq!(r, None);
}

#[test]
fn classify_marker_is_case_insensitive() {
    let lines = vec![b("// !GIGAS")];
    let r = classify_file(&lines, &default_primary_marker(), &default_secondary_marker());
    assert_eq!(r, Some(false));
}

#[test]
fn classify_variant_comes_from_the_marker_line() {
    let lines = vec![b("// !gigas !alt")];
    let r = classify_file(&lines, &default_primary_marker(), &default_secondary_marker());
    assert_eq!(r, Some(true));
}

#[test]
fn classify_ignores_secondary_on_other_lines() {
    let lines = vec![b("// !gigas"), b("// !alt elsewhere")];
    let r = classify_file(&lines, &default_primary_marker(), &default_secondary_marker());
    assert_eq!(r, Some(false));
}

#[test]
fn classify_stops_at_the_first_marker_line() {
    let lines = vec![b("// !gigas"), b("// !gigas !alt")];
    let r = classify_file(&lines, &default_primary_marker(), &default_secondary_marker());
    assert_eq!(r, Some(false));
}

#[test]
fn default_candidates_for_an_entity() {
    let cands = build_candidates(&b("Health"), &default_patterns());
    let got: Vec<Vec<u8>> = cands;
    assert_eq!(
        got,
        vec![b("HealthId"), b("GetHealth("), b("GetAllHealth("), b("GetAltHealth(")]
    );
}

#[test]
fn discover_entities_keeps_traversal_order_and_variants() {
    let files = vec![
        file("Health", &["// !gigas"]),
        file("Mana", &["// !gigas !alt"]),
        file("Plain", &["no marker"]),
    ];
    let es = discover_entities(
        &files,
        &default_primary_marker(),
        &default_secondary_marker(),
        &default_denylist(),
    );
    assert_eq!(es.len(), 2);
    assert_eq!(es[0].name, b("Health"));
    assert!(!es[0].variant);
    assert_eq!(es[1].name, b("Mana"));
    assert!(es[1].variant);
}

#[test]
fn discover_entities_first_tagged_file_wins_a_shared_stem() {
    let files = vec![
        file("Health", &["// !gigas !alt"]),
        file("Health", &["// !gigas"]),
    ];
    let es = discover_entities(
        &files,
        &default_primary_marker(),
        &default_secondary_marker(),
        &default_denylist(),
    );
    assert_eq!(es.len(), 1);
    assert_eq!(es[0].name, b("Health"));
    assert!(es[0].variant);
}

#[test]
fn discover_entities_excludes_denylisted_stems() {
    let files = vec![file("EntitySet", &["// !gigas"]), file("Health", &["// !gigas"])];
    let es = discover_entities(
        &files,
        &default_primary_marker(),
        &default_secondary_marker(),
        &default_denylist(),
    );
    assert_eq!(es.len(), 1);
    assert_eq!(es[0].name, b("Health"));
}

#[test]
fn scenario_tagged_component_and_referencing_system() {
    let files = vec![
        file("Health", &["// !gigas", "class Health {}"]),
        file("HealthSystem", &["void Run() {", "  var h = EntitySet.GetHealth(e);", "}"]),
    ];
    let r = scan(&files);
    assert_eq!(values_of(&r.by_source, "Health"), Some(vec!["HealthSystem".to_string()]));
    assert_eq!(values_of(&r.by_file, "HealthSystem"), Some(vec!["Health".to_string()]));
}

#[test]
fn scenario_unreferenced_variant_entity_has_no_key() {
    let files = vec![
        file("Mana", &["// !gigas !alt"]),
        file("Other", &["nothing related here"]),
    ];
    let r = scan(&files);
    assert_eq!(values_of(&r.by_source, "Mana"), None);
    assert!(keys(&r.by_source).is_empty());
    assert!(keys(&r.by_file).is_empty());
}

#[test]
fn scenario_denylisted_referencer_gets_no_entry() {
    let files = vec![
        file("Health", &["// !gigas"]),
        file("Mana", &["// !gigas"]),
        file("EntitySet", &["GetHealth(", "GetMana(", "HealthId", "ManaId"]),
    ];
    let r = scan(&files);
    assert_eq!(values_of(&r.by_file, "EntitySet"), None);
    assert!(keys(&r.by_file).is_empty());
    assert!(keys(&r.by_source).is_empty());
}

#[test]
fn scenario_case_differing_stems_are_distinct_entities() {
    let files = vec![
        file("Foo", &["// !gigas"]),
        file("foo", &["// !gigas"]),
        file("Bar", &["GetFoo(", "Getfoo("]),
    ];
    let r = scan(&files);
    assert_eq!(
        values_of(&r.by_file, "Bar"),
        Some(vec!["Foo".to_string(), "foo".to_string()])
    );
    assert_eq!(values_of(&r.by_source, "Foo"), Some(vec!["Bar".to_string()]));
    assert_eq!(values_of(&r.by_source, "foo"), Some(vec!["Bar".to_string()]));
}

#[test]
fn repeated_scans_return_identical_mappings() {
    let files = vec![
        file("Health", &["// !gigas"]),
        file("Mana", &["// !gigas !alt"]),
        file("Engine", &["GetHealth(", "ManaId", "GetAltMana("]),
    ];
    let r1 = scan(&files);
    let r2 = scan(&files);
    assert_eq!(keys(&r1.by_source), keys(&r2.by_source));
    assert_eq!(keys(&r1.by_file), keys(&r2.by_file));
    for k in keys(&r1.by_source) {
        assert_eq!(values_of(&r1.by_source, &k), values_of(&r2.by_source, &k));
    }
    for k in keys(&r1.by_file) {
        assert_eq!(values_of(&r1.by_file, &k), values_of(&r2.by_file, &k));
    }
}

#[test]
fn many_matching_lines_record_a_pair_once() {
    let files = vec![
        file("Health", &["// !gigas"]),
        file(
            "Engine",
            &["GetHealth(", "GetHealth(", "HealthId", "GetAllHealth(", "GetAltHealth("],
        ),
    ];
    let r = scan(&files);
    assert_eq!(values_of(&r.by_file, "Engine"), Some(vec!["Health".to_string()]));
    assert_eq!(values_of(&r.by_source, "Health"), Some(vec!["Engine".to_string()]));
}

#[test]
fn untagged_referencer_keys_by_file_but_never_by_source() {
    let files = vec![
        file("Health", &["// !gigas"]),
        file("Untagged", &["HealthId"]),
    ];
    let r = scan(&files);
    assert_eq!(keys(&r.by_file), vec!["Untagged".to_string()]);
    assert_eq!(values_of(&r.by_source, "Untagged"), None);
    assert_eq!(values_of(&r.by_source, "Health"), Some(vec!["Untagged".to_string()]));
}

#[test]
fn a_tagged_file_can_reference_itself() {
    let files = vec![file("Health", &["// !gigas", "var h = GetHealth(e);"])];
    let r = scan(&files);
    assert_eq!(values_of(&r.by_file, "Health"), Some(vec!["Health".to_string()]));
    assert_eq!(values_of(&r.by_source, "Health"), Some(vec!["Health".to_string()]));
}

#[test]
fn value_order_follows_traversal_and_vocabulary_order() {
    let files = vec![
        file("Beta", &["// !gigas"]),
        file("Alpha", &["// !gigas", "GetBeta("]),
        file("Zeta", &["GetAlpha(", "GetBeta("]),
    ];
    let r = scan(&files);
    // vocabulary order: Beta then Alpha; traversal order: Beta, Alpha, Zeta
    assert_eq!(keys(&r.by_source), vec!["Beta".to_string(), "Alpha".to_string()]);
    assert_eq!(values_of(&r.by_source, "Beta"), Some(vec!["Alpha".to_string(), "Zeta".to_string()]));
    assert_eq!(values_of(&r.by_file, "Zeta"), Some(vec!["Beta".to_string(), "Alpha".to_string()]));
}

#[test]
fn scan_of_no_files_is_empty() {
    let files: Vec<SourceFile> = Vec::new();
    let r = scan(&files);
    assert!(r.by_source.is_empty());
    assert!(r.by_file.is_empty());
}

#[test]
fn find_entry_locates_a_key_or_reports_absence() {
    let files = vec![
        file("Health", &["// !gigas"]),
        file("Engine", &["GetHealth("]),
    ];
    let r = scan(&files);
    let i = find_entry(&r.by_source, &b("Health")).unwrap();
    assert_eq!(r.by_source[i].key, b("Health"));
    assert_eq!(find_entry(&r.by_source, &b("Engine")), None);
}
