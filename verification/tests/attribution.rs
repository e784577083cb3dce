use loc_radar::text::{attributed_line_count, extension_key, parse_tracked_list};

#[test]
fn counts_lines_of_one_author() {
    let blame = "author alice\n\tlet x = 1;\nauthor bob\n\tlet y = 2;\nauthor alice\n\tlet z;\n";
    assert_eq!(attributed_line_count(blame, &vec!["alice".to_string()]), 2);
    assert_eq!(attributed_line_count(blame, &vec!["bob".to_string()]), 1);
}

#[test]
fn sums_counts_over_the_author_set() {
    let blame = "author alice\nauthor bob\nauthor alice\n";
    let both = vec!["alice".to_string(), "bob".to_string()];
    assert_eq!(attributed_line_count(blame, &both), 3);
}

#[test]
fn unmatched_author_counts_zero() {
    let blame = "author alice\nauthor alice\n";
    assert_eq!(attributed_line_count(blame, &vec!["bob".to_string()]), 0);
}

#[test]
fn author_match_is_an_exact_substring_match() {
    // The marker of a longer name contains the marker of its prefix: the
    // match is by substring, as the attribution contract states.
    let blame = "author bobby\n";
    assert_eq!(attributed_line_count(blame, &vec!["bob".to_string()]), 1);
    assert_eq!(attributed_line_count(blame, &vec!["bobby".to_string()]), 1);
    // The shorter name's marker is not contained the other way round.
    let blame2 = "author bob\n";
    assert_eq!(attributed_line_count(blame2, &vec!["bobby".to_string()]), 0);
}

#[test]
fn empty_blame_counts_zero() {
    assert_eq!(attributed_line_count("", &vec!["alice".to_string()]), 0);
}

#[test]
fn tracked_list_drops_the_trailing_empty_entry() {
    let parsed = parse_tracked_list("a.rs\nsrc/b.go\n");
    assert_eq!(parsed, vec!["a.rs".to_string(), "src/b.go".to_string()]);
}

#[test]
fn tracked_list_of_empty_output_is_empty() {
    let parsed = parse_tracked_list("");
    assert_eq!(parsed, Vec::<String>::new());
}

#[test]
fn tracked_list_keeps_a_final_entry_without_newline() {
    let parsed = parse_tracked_list("a.rs\nb.rs");
    assert_eq!(parsed, vec!["a.rs".to_string(), "b.rs".to_string()]);
}

#[test]
fn tracked_list_keeps_empty_middle_entries() {
    let parsed = parse_tracked_list("a.rs\n\nb.rs\n");
    assert_eq!(parsed, vec!["a.rs".to_string(), "".to_string(), "b.rs".to_string()]);
}

#[test]
fn extension_includes_the_leading_dot() {
    assert_eq!(extension_key("src/main.rs"), Some(".rs".to_string()));
    assert_eq!(extension_key("lib.go"), Some(".go".to_string()));
}

#[test]
fn extension_of_a_multi_dot_name_is_the_last_part() {
    assert_eq!(extension_key("archive.tar.gz"), Some(".gz".to_string()));
}

#[test]
fn dotfile_has_no_extension() {
    assert_eq!(extension_key(".gitignore"), None);
    assert_eq!(extension_key("dir/.profile"), None);
}

#[test]
fn name_without_a_dot_has_no_extension() {
    assert_eq!(extension_key("Makefile"), None);
    assert_eq!(extension_key("src/README"), None);
}

#[test]
fn a_dot_in_a_directory_is_not_an_extension() {
    assert_eq!(extension_key("bundle.d/config"), None);
}
