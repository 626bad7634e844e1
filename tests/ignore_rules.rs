use heimdall::tree::ignore::Ignore;

fn lines(text: &[&str]) -> Vec<String> {
    text.iter().map(|l| l.to_string()).collect()
}

#[test]
fn hidden_files_are_not_opened() {
    let rules = Ignore::new();
    assert!(!rules.should_open(0, b".git", true));
    assert!(!rules.should_open(0, b".hidden", false));
    assert!(rules.should_open(0, b".gitignore", false));
    assert!(rules.should_open(0, b"visible", false));
}

#[test]
fn comments_and_blank_lines_are_skipped() {
    let mut rules = Ignore::new();
    let errors = rules.parse_gitignore(&lines(&["# a comment", "   ", "", "*.o  "]), 0);
    assert!(errors.is_empty());
    assert!(!rules.should_open(0, b"main.o", false));
    assert!(rules.should_open(0, b"main.c", false));
    assert!(rules.should_open(0, b"# a comment", false));
}

#[test]
fn bad_lines_are_reported_and_the_rest_applies() {
    let mut rules = Ignore::new();
    let errors = rules.parse_gitignore(&lines(&["a//b", "[x", "skip.me"]), 0);
    assert_eq!(2, errors.len());
    assert!(!rules.should_open(0, b"skip.me", false));
}

#[test]
fn negation_overrides_ignore() {
    let mut rules = Ignore::new();
    rules.parse_gitignore(&lines(&["*.log", "!keep.log"]), 0);
    assert!(!rules.should_open(0, b"other.log", false));
    assert!(rules.should_open(0, b"keep.log", false));
}

#[test]
fn rules_apply_only_to_their_directory() {
    let mut rules = Ignore::new();
    rules.parse_gitignore(&lines(&["x"]), 0);
    assert!(!rules.should_open(0, b"x", false));
    assert!(rules.should_open(1, b"x", false));
}

#[test]
fn relative_rules_descend() {
    let mut rules = Ignore::new();
    rules.parse_gitignore(&lines(&["*.tmp"]), 0);
    rules.open_at(0, b"sub", 1);
    assert!(!rules.should_open(1, b"a.tmp", false));
    rules.open_at(1, b"deeper", 2);
    assert!(!rules.should_open(2, b"b.tmp", false));
}

#[test]
fn path_rules_descend_one_level_at_a_time() {
    let mut rules = Ignore::new();
    rules.parse_gitignore(&lines(&["/src/gen"]), 0);
    assert!(rules.should_open(0, b"gen", true));
    rules.open_at(0, b"src", 1);
    assert!(!rules.should_open(1, b"gen", true));
    rules.open_at(0, b"lib", 2);
    assert!(rules.should_open(2, b"gen", true));
}
