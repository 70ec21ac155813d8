use bughunter::discovery::{
    file_name_of, finish_discovery, glob_character_class_matches, glob_characters_match,
    glob_matches, glob_segment_matches, has_glob_pattern, has_ignored_directory_component,
    is_ignored_directory, is_ignored_directory_name, is_source_file, is_test_file,
};

fn owned(paths: &[&str]) -> Vec<String> {
    paths.iter().map(|path| path.to_string()).collect()
}

fn chars(text: &str) -> Vec<char> {
    text.chars().collect()
}

#[test]
fn walked_sources_skip_test_files_and_ignored_directories() {
    let walked = [
        "src/keep.ts",
        "src/view.tsx",
        "src/keep.test.ts",
        "src/keep.spec.ts",
        "src/node_modules/dependency.ts",
        "src/dist/output.ts",
        "src/build/output.ts",
    ];
    let kept = walked
        .iter()
        .filter(|path| is_source_file(path) && !has_ignored_directory_component(path))
        .map(|path| path.to_string())
        .collect::<Vec<_>>();
    assert_eq!(finish_discovery(kept, "src"), Ok(owned(&["src/keep.ts", "src/view.tsx"])));
}

#[test]
fn discovered_files_are_ordered_by_component() {
    let walked = owned(&["src/zeta.ts", "src/alpha.ts", "src/nested/beta.ts"]);
    let expected = owned(&["src/alpha.ts", "src/nested/beta.ts", "src/zeta.ts"]);
    assert_eq!(finish_discovery(walked.clone(), "src"), Ok(expected.clone()));
    assert_eq!(finish_discovery(walked, "src/**/*.ts"), Ok(expected));
}

#[test]
fn component_order_differs_from_text_order() {
    let walked = owned(&["src/a-b.ts", "src/a/b.ts"]);
    assert_eq!(
        finish_discovery(walked, "src"),
        Ok(owned(&["src/a/b.ts", "src/a-b.ts"]))
    );
}

#[test]
fn a_glob_without_matches_is_an_error() {
    assert_eq!(
        finish_discovery(owned(&["src/keep.ts"]), "src/*.tsx"),
        Err("no TypeScript source files matched --file src/*.tsx".to_owned())
    );
    assert_eq!(
        finish_discovery(Vec::new(), "src"),
        Err("no TypeScript source files matched --file src".to_owned())
    );
}

#[test]
fn test_file_names_end_in_test_or_spec_suffixes() {
    assert!(is_test_file("src/keep.test.ts"));
    assert!(is_test_file("src/keep.spec.ts"));
    assert!(is_test_file("src/view.test.tsx"));
    assert!(is_test_file("src/view.spec.tsx"));
    assert!(!is_test_file("src/keep.ts"));
    assert!(!is_test_file("src/test.ts"));
    assert!(!is_test_file("src/keep.test.ts/.."));
}

#[test]
fn source_files_have_a_ts_or_tsx_extension() {
    assert!(is_source_file("src/keep.ts"));
    assert!(is_source_file("view.tsx"));
    assert!(!is_source_file("src/keep.js"));
    assert!(!is_source_file("src/.ts"));
    assert!(!is_source_file("src/keep.spec.ts"));
    assert!(is_source_file("src/keep.ts/"));
    assert!(!is_source_file(""));
}

#[test]
fn file_names_follow_path_components() {
    assert_eq!(file_name_of("src/keep.ts"), Some("keep.ts".to_owned()));
    assert_eq!(file_name_of("src/dir/"), Some("dir".to_owned()));
    assert_eq!(file_name_of("src/dir/."), Some("dir".to_owned()));
    assert_eq!(file_name_of("src/.."), None);
    assert_eq!(file_name_of("/"), None);
    assert_eq!(file_name_of(""), None);
}

#[test]
fn ignored_directories_are_recognised_by_name_and_component() {
    for name in ["node_modules", "dist", "build", ".git"] {
        assert!(is_ignored_directory_name(name));
    }
    assert!(!is_ignored_directory_name("src"));
    assert!(is_ignored_directory("packages/app/node_modules"));
    assert!(!is_ignored_directory("packages/app/node_modules/pkg"));
    assert!(has_ignored_directory_component("packages/app/node_modules/pkg/index.ts"));
    assert!(!has_ignored_directory_component("packages/app/src/index.ts"));
}

#[test]
fn glob_patterns_are_detected_by_their_metacharacters() {
    assert!(has_glob_pattern("src/*.ts"));
    assert!(has_glob_pattern("src/?.ts"));
    assert!(has_glob_pattern("src/[ab].ts"));
    assert!(!has_glob_pattern("src/keep.ts"));
}

#[test]
fn glob_wildcards_match_within_a_segment() {
    assert!(glob_segment_matches("*.ts", "keep.ts"));
    assert!(glob_segment_matches("*", ""));
    assert!(!glob_segment_matches("*.ts", "keep.tsx"));
    assert!(glob_segment_matches("k??p.ts", "keep.ts"));
    assert!(!glob_segment_matches("?", ""));
    assert!(glob_characters_match(&chars("a*c"), &chars("abbbc")));
}

#[test]
fn glob_classes_match_sets_ranges_and_negations() {
    assert!(glob_character_class_matches(&chars("abc"), 'b'));
    assert!(!glob_character_class_matches(&chars("abc"), 'd'));
    assert!(glob_character_class_matches(&chars("a-f"), 'c'));
    assert!(!glob_character_class_matches(&chars("a-f"), 'g'));
    assert!(glob_character_class_matches(&chars("!a-f"), 'g'));
    assert!(!glob_character_class_matches(&chars("^a-f"), 'c'));
    assert!(glob_character_class_matches(&chars("-a"), '-'));
    assert!(glob_segment_matches("[a-c]x.ts", "bx.ts"));
    assert!(!glob_segment_matches("[!a-c]x.ts", "bx.ts"));
}

#[test]
fn an_unclosed_bracket_matches_itself() {
    assert!(glob_segment_matches("[ab", "[ab"));
    assert!(!glob_segment_matches("[ab", "a"));
}

#[test]
fn double_star_matches_any_number_of_directories() {
    assert!(glob_matches("src/**/*.ts", "src/keep.ts"));
    assert!(glob_matches("src/**/*.ts", "src/a/b/c/keep.ts"));
    assert!(!glob_matches("src/**/*.ts", "lib/keep.ts"));
    assert!(glob_matches("./src//*.ts", "src/keep.ts"));
    assert!(!glob_matches("src/*.ts", "src/nested/keep.ts"));
    assert!(glob_matches("**", ""));
}

#[test]
fn directory_and_double_star_glob_agree_whatever_the_walk_order() {
    let under_directory = owned(&["src/zeta.ts", "src/alpha.ts", "src/nested/beta.ts"]);
    let under_repository = owned(&["src/nested/beta.ts", "src/zeta.ts", "src/alpha.ts"]);
    assert_eq!(
        finish_discovery(under_directory, "src"),
        finish_discovery(under_repository, "src/**/*.ts")
    );
}
