use heimdall::glob::GlobArena;
use heimdall::Error;

#[test]
fn no_double_slash() {
    let mut arena = GlobArena::new();
    arena.compile_glob("path//to/file").unwrap_err();
}

#[test]
fn path_to_file() {
    let mut arena = GlobArena::new();
    let top_key = arena.compile_glob("path/to/file.txt").unwrap();

    assert_eq!(None, arena.match_file(top_key, "path".as_ref(), true));
    let &mid_key = match &arena
        .match_dir(top_key, "path".as_ref())
        .unwrap()
        .into_iter()
        .collect::<Vec<_>>()[..]
    {
        [key] => key,
        other => panic!("Wrong number of keys: {:?}", other),
    };

    assert_eq!(None, arena.match_file(mid_key, "to".as_ref(), true));
    let &low_key = match &arena
        .match_dir(mid_key, "to".as_ref())
        .unwrap()
        .into_iter()
        .collect::<Vec<_>>()[..]
    {
        [key] => key,
        other => panic!("Wrong number of keys: {:?}", other),
    };

    assert_eq!(
        Some(true),
        arena.match_file(low_key, "file.txt".as_ref(), false)
    );
}

#[test]
fn plain_filename() {
    let mut arena = GlobArena::new();
    let key = arena.compile_glob("file.txt").unwrap();

    assert_eq!(
        Some(true),
        arena.match_file(key, "file.txt".as_ref(), false)
    );

    match &arena
        .match_dir(key, "any file".as_ref())
        .unwrap()
        .into_iter()
        .collect::<Vec<_>>()[..]
    {
        [child_key] => assert_eq!(key, *child_key),
        other => panic!("Incorrect child keys: {:?}", other),
    }
}

#[test]
fn uses_star_star() {
    let mut arena = GlobArena::new();
    let key = arena.compile_glob("**/index.js").unwrap();

    assert_eq!(None, arena.match_file(key, "index.js".as_ref(), false));
    let child_key = match &arena
        .match_dir(key, "any directory".as_ref())
        .unwrap()
        .into_iter()
        .collect::<Vec<_>>()[..]
    {
        [key_one, key_two] => {
            assert_eq!(key, *key_two);
            *key_one
        }
        other => panic!("Incorrect child keys: {:?}", other),
    };

    assert_eq!(
        Some(true),
        arena.match_file(child_key, "index.js".as_ref(), false)
    );
}

#[test]
fn double_slash_is_a_compile_error() {
    let mut arena = GlobArena::new();
    assert!(matches!(
        arena.compile_glob("path//to/file"),
        Err(Error::InvalidGlobCompile(..))
    ));
}

#[test]
fn touching_components_are_a_compile_error() {
    let mut arena = GlobArena::new();
    assert!(matches!(
        arena.compile_glob("a**"),
        Err(Error::InvalidGlobCompile(..))
    ));
}

#[test]
fn empty_glob_is_a_compile_error() {
    let mut arena = GlobArena::new();
    assert!(matches!(arena.compile_glob(""), Err(Error::InvalidGlobCompile(..))));
}

#[test]
fn bad_class_is_a_parse_error() {
    let mut arena = GlobArena::new();
    assert!(matches!(arena.compile_glob("[x"), Err(Error::InvalidGlobParse(..))));
}

#[test]
fn negated_glob_keeps() {
    let mut arena = GlobArena::new();
    let key = arena.compile_glob("!keep.me").unwrap();
    assert_eq!(Some(false), arena.match_file(key, "keep.me".as_ref(), false));
    assert_eq!(None, arena.match_file(key, "other".as_ref(), false));
}

#[test]
fn non_utf8_name_never_matches() {
    let mut arena = GlobArena::new();
    let key = arena.compile_glob("*").unwrap();
    let name: &[u8] = &[0xff, 0xfe];
    assert_eq!(None, arena.match_file(key, name, false));
    assert_eq!(Some(vec![key]), arena.match_dir(key, name));
}

#[test]
fn double_star_stays_inside_non_utf8_directories() {
    let mut arena = GlobArena::new();
    let key = arena.compile_glob("**").unwrap();
    let name: &[u8] = &[0xff];
    assert_eq!(Some(vec![key]), arena.match_dir(key, name));
    let anchored = arena.compile_glob("/a/b").unwrap();
    assert_eq!(None, arena.match_dir(anchored, name));
}

#[test]
fn verdict_from_a_given_match() {
    let mut arena = GlobArena::new();
    let plain = arena.compile_glob("x").unwrap();
    let negated = arena.compile_glob("!x").unwrap();
    let path = arena.compile_glob("a/b").unwrap();
    assert_eq!(Some(true), arena.verdict(plain, true));
    assert_eq!(None, arena.verdict(plain, false));
    assert_eq!(Some(false), arena.verdict(negated, true));
    assert_eq!(None, arena.verdict(path, true));
}

#[test]
fn successors_from_a_given_match() {
    let mut arena = GlobArena::new();
    let path = arena.compile_glob("/a/b").unwrap();
    let next = arena.match_dir(path, "a".as_ref()).unwrap()[0];
    assert_eq!(Some(vec![next]), arena.successors(path, true));
    assert_eq!(None, arena.successors(path, false));
    let relative = arena.compile_glob("**/d").unwrap();
    let after = arena.successors(relative, true).unwrap();
    assert_eq!(2, after.len());
    assert_eq!(relative, after[1]);
    assert_eq!(Some(vec![relative]), arena.successors(relative, false));
}

#[test]
fn new_globs_get_new_keys() {
    let mut arena = GlobArena::new();
    let first = arena.compile_glob("a").unwrap();
    let second = arena.compile_glob("a").unwrap();
    assert_ne!(first, second);
}

#[test]
fn anchored_glob_does_not_stay() {
    let mut arena = GlobArena::new();
    let key = arena.compile_glob("/build").unwrap();
    assert_eq!(Some(true), arena.match_file(key, "build".as_ref(), true));
    assert!(arena.match_dir(key, "src".as_ref()).is_none());
}

#[test]
fn trailing_slash_glob_matches_its_name() {
    let mut arena = GlobArena::new();
    let key = arena.compile_glob("target/").unwrap();
    assert_eq!(Some(true), arena.match_file(key, "target".as_ref(), true));
}
