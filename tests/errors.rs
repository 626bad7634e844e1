use heimdall::fs::FileType;
use heimdall::glob::tokenizer::{Token, TokenSet, Tokenizer};
use heimdall::Error;

#[test]
fn from_int_passes_values_through() {
    assert_eq!(7, Error::from_int(7).unwrap());
    assert_eq!(0, Error::from_int(0).unwrap());
    assert!(matches!(Error::from_int(-1), Err(Error::IoError(_))));
}

#[test]
fn from_size_passes_values_through() {
    assert_eq!(12, Error::from_size(12).unwrap());
    assert!(matches!(Error::from_size(-1), Err(Error::IoError(_))));
}

#[test]
fn file_types_from_mode() {
    assert_eq!(FileType::Directory, FileType::try_from(0o040755).unwrap());
    assert_eq!(FileType::Regular, FileType::try_from(0o100644).unwrap());
    assert_eq!(FileType::Link, FileType::try_from(0o120777).unwrap());
    assert_eq!(FileType::Whiteout, FileType::try_from(0o160000).unwrap());
    assert!(matches!(FileType::try_from(0o030000), Err(Error::InvalidFileType(3))));
}

#[test]
fn tokenizer_reads_tokens_and_literals() {
    let mut t = Tokenizer::new("ab*/");
    assert!(t.next_token(TokenSet::star()).is_none());
    let lit = t.read_literal(TokenSet::star()).unwrap();
    assert_eq!(vec!['a', 'b'], lit);
    assert!(t.read_literal(TokenSet::star()).is_none());
    assert_eq!(Some(Token::Star), t.next_token(TokenSet::star()));
    assert!(t.next_token(TokenSet::empty()).is_none());
    assert_eq!(Some(Token::Separator), t.next_token(TokenSet::separator()));
    assert_eq!(Some(Token::Ending), t.next_token(TokenSet::empty()));
}

#[test]
fn tokenizer_flush_and_reset() {
    let mut t = Tokenizer::new("**x");
    assert_eq!(Some(Token::Star), t.next_token(TokenSet::star()));
    t.flush();
    assert_eq!(Some(Token::Star), t.next_token(TokenSet::star()));
    t.reset();
    assert_eq!(Some(Token::Star), t.next_token(TokenSet::star()));
    assert_eq!(vec!['x'], t.read_literal(TokenSet::star()).unwrap());
    match t.error(TokenSet::empty()) {
        Error::InvalidGlobParse(p, _, i) => {
            assert_eq!("**x", p);
            assert_eq!(3, i);
        }
        other => panic!("unexpected error {:?}", other),
    }
}

#[test]
fn parse_error_offset_is_in_bytes() {
    let mut t = Tokenizer::new("\u{e9}\u{1F680}]");
    assert_eq!(vec!['\u{e9}', '\u{1F680}'], t.read_literal(TokenSet::square_end()).unwrap());
    match t.error(TokenSet::literal()) {
        Error::InvalidGlobParse(_, _, i) => assert_eq!(6, i),
        other => panic!("unexpected error {:?}", other),
    }
}
