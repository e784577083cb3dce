use loc_radar::mapping::{combine_loc_by_lang, LineCountMapping};

fn mapping(pairs: &[(&str, u64)]) -> LineCountMapping {
    let mut m = LineCountMapping::new();
    for (lang, count) in pairs {
        m.add_count(&lang.to_string(), *count);
    }
    m
}

fn get(m: &LineCountMapping, lang: &str) -> Option<u64> {
    m.get(&lang.to_string())
}

#[test]
fn merge_none_none_is_none() {
    let r = combine_loc_by_lang(None, None);
    assert!(r.is_none());
}

#[test]
fn merge_some_none_keeps_mapping() {
    let m = mapping(&[("Rust", 5), ("Go", 2)]);
    let r = combine_loc_by_lang(Some(m), None).expect("one present operand survives");
    assert_eq!(get(&r, "Rust"), Some(5));
    assert_eq!(get(&r, "Go"), Some(2));
    assert_eq!(r.len(), 2);
}

#[test]
fn merge_none_some_keeps_mapping() {
    let m = mapping(&[("Python", 7)]);
    let r = combine_loc_by_lang(None, Some(m)).expect("one present operand survives");
    assert_eq!(get(&r, "Python"), Some(7));
    assert_eq!(r.len(), 1);
}

#[test]
fn merge_adds_shared_keys_and_keeps_others() {
    let a = mapping(&[("Rust", 5), ("Go", 2)]);
    let b = mapping(&[("Go", 3), ("Python", 1)]);
    let r = combine_loc_by_lang(Some(a), Some(b)).expect("both present");
    assert_eq!(get(&r, "Rust"), Some(5));
    assert_eq!(get(&r, "Go"), Some(5));
    assert_eq!(get(&r, "Python"), Some(1));
    assert_eq!(r.len(), 3);
}

#[test]
fn merge_commutative_on_concrete_values() {
    let r1 = combine_loc_by_lang(
        Some(mapping(&[("Rust", 5), ("Go", 2)])),
        Some(mapping(&[("Go", 3), ("Python", 1)])),
    )
    .unwrap();
    let r2 = combine_loc_by_lang(
        Some(mapping(&[("Go", 3), ("Python", 1)])),
        Some(mapping(&[("Rust", 5), ("Go", 2)])),
    )
    .unwrap();
    for lang in ["Rust", "Go", "Python"] {
        assert_eq!(get(&r1, lang), get(&r2, lang));
    }
    assert_eq!(r1.len(), r2.len());
}

#[test]
fn merge_associative_on_concrete_values() {
    let a = || mapping(&[("Rust", 5)]);
    let b = || mapping(&[("Rust", 1), ("Go", 2)]);
    let c = || mapping(&[("Go", 4), ("C", 9)]);
    let left = combine_loc_by_lang(combine_loc_by_lang(Some(a()), Some(b())), Some(c())).unwrap();
    let right = combine_loc_by_lang(Some(a()), combine_loc_by_lang(Some(b()), Some(c()))).unwrap();
    for lang in ["Rust", "Go", "C"] {
        assert_eq!(get(&left, lang), get(&right, lang));
    }
    assert_eq!(left.len(), right.len());
    assert_eq!(get(&left, "Rust"), Some(6));
    assert_eq!(get(&left, "Go"), Some(6));
    assert_eq!(get(&left, "C"), Some(9));
}

#[test]
fn merge_loses_no_key_and_keeps_counts_positive() {
    let a = mapping(&[("Rust", 5), ("Go", 2), ("C", 1)]);
    let b = mapping(&[("Go", 3), ("Python", 1)]);
    let r = combine_loc_by_lang(Some(a), Some(b)).unwrap();
    for lang in ["Rust", "Go", "C", "Python"] {
        let count = get(&r, lang).expect("no key of an operand is lost");
        assert!(count > 0);
    }
}
