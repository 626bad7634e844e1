use heimdall::glob::parser::{parse, Segment};
use heimdall::Error;

#[test]
fn single_file() {
    let glob = parse("filename.txt").unwrap();
    assert_eq!(false, glob.starts_negated);
    let regex = match &glob.segments[..] {
        [Segment::Pattern(regex)] => regex,
        other => panic!("Incorrect pattern: {:?}", other),
    };
    assert_eq!(r"^filename\.txt$", regex.as_str());
}

#[test]
fn negated_single_file() {
    let glob = parse("!.gitignore").unwrap();
    assert_eq!(true, glob.starts_negated);
    let regex = match &glob.segments[..] {
        [Segment::Pattern(regex)] => regex,
        other => panic!("Incorrect pattern: {:?}", other),
    };
    assert_eq!(r"^\.gitignore$", regex.as_str());
}

#[test]
fn regular_path() {
    let glob = parse("path/to/file.txt").unwrap();
    assert_eq!(false, glob.starts_negated);
    let (path, to, file) = match &glob.segments[..] {
        [Segment::Pattern(path), Segment::Separator, Segment::Pattern(to), Segment::Separator, Segment::Pattern(file)] => {
            (path, to, file)
        }
        other => panic!("Incorrect pattern: {:?}", other),
    };
    assert_eq!("^path$", path.as_str());
    assert_eq!("^to$", to.as_str());
    assert_eq!(r"^file\.txt$", file.as_str());
}

#[test]
fn has_question_mark() {
    let glob = parse("hello.?pp").unwrap();
    assert_eq!(false, glob.starts_negated);
    let regex = match &glob.segments[..] {
        [Segment::Pattern(regex)] => regex,
        other => panic!("Incorrect pattern: {:?}", other),
    };
    assert!(regex.is_match("hello.cpp"));
    assert!(regex.is_match("hello.hpp"));
    assert!(regex.is_match("hello.\u{1F680}pp"));
    assert!(!regex.is_match("hello./pp"));
    assert!(!regex.is_match("unrelated string"));
}

#[test]
fn has_star() {
    let glob = parse("*.rs").unwrap();
    assert_eq!(false, glob.starts_negated);
    let regex = match &glob.segments[..] {
        [Segment::Pattern(regex)] => regex,
        other => panic!("Incorrect pattern: {:?}", other),
    };
    assert!(regex.is_match("main.rs"));
    assert!(regex.is_match("testing.rs"));
    assert!(!regex.is_match("path/to/file.rs"));
    assert!(!regex.is_match("unrelated string"));
}

#[test]
fn has_starstar() {
    let glob = parse("target/**").unwrap();
    assert_eq!(false, glob.starts_negated);
    let regex = match &glob.segments[..] {
        [Segment::Pattern(regex), Segment::Separator, Segment::Anything] => regex,
        other => panic!("Incorrect pattern: {:?}", other),
    };
    assert_eq!("^target$", regex.as_str());
}

#[test]
fn question_and_star_regexes() {
    let glob = parse("a?b*").unwrap();
    match &glob.segments[..] {
        [Segment::Pattern(regex)] => assert_eq!("^a[^/]b[^/]*$", regex.as_str()),
        other => panic!("Incorrect pattern: {:?}", other),
    }
}

#[test]
fn character_class_and_range() {
    let glob = parse("[ab]x[z-a]").unwrap();
    let regex = match &glob.segments[..] {
        [Segment::Pattern(regex)] => regex,
        other => panic!("Incorrect pattern: {:?}", other),
    };
    assert_eq!("^[ab]x[a-z]$", regex.as_str());
    assert!(regex.is_match("axq"));
    assert!(!regex.is_match("cxq"));
}

#[test]
fn meta_characters_are_escaped() {
    let glob = parse("a+b(c)").unwrap();
    let regex = match &glob.segments[..] {
        [Segment::Pattern(regex)] => regex,
        other => panic!("Incorrect pattern: {:?}", other),
    };
    assert_eq!(r"^a\+b\(c\)$", regex.as_str());
    assert!(regex.is_match("a+b(c)"));
    assert!(!regex.is_match("aab(c)"));
}

#[test]
fn unterminated_class_is_an_error() {
    assert!(matches!(parse("[abc"), Err(Error::InvalidGlobParse(..))));
}

#[test]
fn empty_class_is_an_error() {
    assert!(matches!(parse("[]"), Err(Error::InvalidGlobParse(..))));
}

#[test]
fn dangling_dash_is_an_error() {
    assert!(matches!(parse("[a-]"), Err(Error::InvalidGlobParse(..))));
}

#[test]
fn empty_pattern_has_no_segments() {
    let glob = parse("").unwrap();
    assert!(glob.segments.is_empty());
    assert!(!glob.starts_negated);
}

#[test]
fn leading_separator_and_triple_star() {
    let glob = parse("/***").unwrap();
    match &glob.segments[..] {
        [Segment::Separator, Segment::Anything, Segment::Pattern(regex)] => {
            assert_eq!("^[^/]*$", regex.as_str())
        }
        other => panic!("Incorrect pattern: {:?}", other),
    }
}

#[test]
fn negated_double_star() {
    let glob = parse("!**/x").unwrap();
    assert!(glob.starts_negated);
    match &glob.segments[..] {
        [Segment::Anything, Segment::Separator, Segment::Pattern(regex)] => {
            assert_eq!("^x$", regex.as_str())
        }
        other => panic!("Incorrect pattern: {:?}", other),
    }
}
