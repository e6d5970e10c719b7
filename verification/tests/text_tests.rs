use gigascli::bytes::contains_bytes;
use gigascli::bytes::contains_ci;
use gigascli::bytes::lower_vec;
use gigascli::bytes::matches_extension;
use gigascli::bytes::stem_of;

fn b(s: &str) -> Vec<u8> {
    s.as_bytes().to_vec()
}

#[test]
fn lower_vec_lowercases_ascii_only() {
    assert_eq!(lower_vec(&b("GigasCLI-42!")), b("gigascli-42!"));
    assert_eq!(lower_vec(&b("")), b(""));
}

#[test]
fn contains_bytes_finds_literal_substrings() {
    assert!(contains_bytes(&b("EntitySet.GetHealth(x)"), &b("GetHealth(")));
    assert!(!contains_bytes(&b("EntitySet.GetHealth(x)"), &b("gethealth(")));
    assert!(contains_bytes(&b("abc"), &b("")));
    assert!(contains_bytes(&b(""), &b("")));
    assert!(!contains_bytes(&b("ab"), &b("abc")));
    assert!(contains_bytes(&b("aab"), &b("ab")));
}

#[test]
fn contains_ci_ignores_ascii_case() {
    assert!(contains_ci(&b("// !GiGaS tag"), &b("!gigas")));
    assert!(contains_ci(&b("// !gigas"), &b("!GIGAS")));
    assert!(!contains_ci(&b("// !gig as"), &b("!gigas")));
}

#[test]
fn matches_extension_is_case_insensitive() {
    assert!(matches_extension(&b("Health.cs"), &b(".cs")));
    assert!(matches_extension(&b("HEALTH.CS"), &b(".cs")));
    assert!(matches_extension(&b("Health.cs"), &b(".CS")));
    assert!(!matches_extension(&b("Health.cc"), &b(".cs")));
    assert!(!matches_extension(&b("Healthcs"), &b(".cs")));
    assert!(!matches_extension(&b("x.csx"), &b(".cs")));
}

#[test]
fn stem_of_strips_the_last_extension() {
    assert_eq!(stem_of(&b("Foo.cs")), b("Foo"));
    assert_eq!(stem_of(&b("archive.tar.gz")), b("archive.tar"));
    assert_eq!(stem_of(&b("noext")), b("noext"));
    assert_eq!(stem_of(&b(".hidden")), b(".hidden"));
    assert_eq!(stem_of(&b("trailing.")), b("trailing"));
    assert_eq!(stem_of(&b("")), b(""));
}
