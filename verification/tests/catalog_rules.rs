use loc_radar::catalog::{LanguageCatalog, LanguageDef, LanguageKind};

fn def(name: &str, kind: LanguageKind, extensions: &[&str]) -> LanguageDef {
    LanguageDef {
        name: name.to_string(),
        kind,
        extensions: extensions.iter().map(|e| e.to_string()).collect(),
    }
}

fn sample() -> LanguageCatalog {
    LanguageCatalog::from_defs(&vec![
        def("Go", LanguageKind::Programming, &[".go"]),
        def("Rust", LanguageKind::Programming, &[".rs"]),
        def("Markdown", LanguageKind::Prose, &[".md", ".markdown"]),
        def("JSON", LanguageKind::Data, &[".json"]),
        def("HTML", LanguageKind::Markup, &[".html", ".htm"]),
    ])
}

#[test]
fn classify_finds_a_claimed_extension() {
    let cat = sample();
    let entry = cat.classify(&".rs".to_string()).expect("claimed extension");
    assert_eq!(entry.name, "Rust");
    assert!(entry.kind == LanguageKind::Programming);
}

#[test]
fn classify_finds_each_of_several_extensions() {
    let cat = sample();
    let md = cat.classify(&".markdown".to_string()).expect("claimed extension");
    assert_eq!(md.name, "Markdown");
    assert!(md.kind == LanguageKind::Prose);
    let htm = cat.classify(&".htm".to_string()).expect("claimed extension");
    assert_eq!(htm.name, "HTML");
}

#[test]
fn classify_misses_an_unclaimed_extension() {
    let cat = sample();
    assert!(cat.classify(&".xyz".to_string()).is_none());
    // Lookup is case-sensitive and keyed with the leading dot.
    assert!(cat.classify(&"rs".to_string()).is_none());
    assert!(cat.classify(&".RS".to_string()).is_none());
}

#[test]
fn a_later_record_claiming_the_same_extension_wins() {
    let cat = LanguageCatalog::from_defs(&vec![
        def("First", LanguageKind::Data, &[".x"]),
        def("Second", LanguageKind::Programming, &[".x"]),
    ]);
    let entry = cat.classify(&".x".to_string()).expect("claimed extension");
    assert_eq!(entry.name, "Second");
    assert!(entry.kind == LanguageKind::Programming);
}

#[test]
fn an_empty_table_classifies_nothing() {
    let cat = LanguageCatalog::from_defs(&Vec::new());
    assert!(cat.classify(&".rs".to_string()).is_none());
}
