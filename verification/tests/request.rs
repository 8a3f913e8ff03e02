use file_transfer::request::{parse_request, FileVerb, Request};
use file_transfer::text::{bytes_eq, split_words, to_upper};

fn name_of(request: &Request) -> Option<&[u8]> {
    match request {
        Request::Get(name)
        | Request::Delete(name)
        | Request::Create(name)
        | Request::Update(name) => Some(name.as_slice()),
        _ => None,
    }
}

#[test]
fn test_split_words_at_white_space() {
    assert_eq!(split_words(b"GET hello.txt\n"), vec![b"GET".to_vec(), b"hello.txt".to_vec()]);
    assert_eq!(
        split_words(b"  a\t\tb \r\n c\x0b\x0cd "),
        vec![b"a".to_vec(), b"b".to_vec(), b"c".to_vec(), b"d".to_vec()]
    );
    assert!(split_words(b"").is_empty());
    assert!(split_words(b" \n\t").is_empty());
    assert_eq!(split_words(b"word"), vec![b"word".to_vec()]);
}

#[test]
fn test_upper_case_changes_letters_only() {
    assert_eq!(to_upper(b"list_owned"), b"LIST_OWNED".to_vec());
    assert_eq!(to_upper(b"GeT 1.2.3.4 `{az}"), b"GET 1.2.3.4 `{AZ}".to_vec());
    assert_eq!(to_upper(b""), Vec::<u8>::new());
    assert_eq!(to_upper(&[0xc3, 0xa9]), vec![0xc3, 0xa9]);
}

#[test]
fn test_bytes_eq() {
    assert!(bytes_eq(b"", b""));
    assert!(bytes_eq(b"abc", b"abc"));
    assert!(!bytes_eq(b"abc", b"abd"));
    assert!(!bytes_eq(b"abc", b"ab"));
}

#[test]
fn test_verbs_with_a_file_name() {
    assert!(matches!(parse_request(b"GET hello.txt\n"), Request::Get(name) if name == b"hello.txt"));
    assert!(matches!(parse_request(b"DELETE a\n"), Request::Delete(name) if name == b"a"));
    assert!(matches!(parse_request(b"CREATE hello.txt\n"), Request::Create(name) if name == b"hello.txt"));
    assert!(matches!(parse_request(b"UPDATE b.bin\n"), Request::Update(name) if name == b"b.bin"));
}

#[test]
fn test_verbs_are_read_in_either_case() {
    assert!(matches!(parse_request(b"get nope\n"), Request::Get(name) if name == b"nope"));
    assert!(matches!(parse_request(b"List\n"), Request::List));
    assert!(matches!(parse_request(b"list_owned\n"), Request::ListOwned));
    assert!(matches!(parse_request(b"qUiT\n"), Request::Quit));
    assert!(matches!(parse_request(b"help\n"), Request::Help));
}

#[test]
fn test_the_file_name_keeps_its_case() {
    let request = parse_request(b"create Hello.TXT\n");
    assert_eq!(name_of(&request), Some(b"Hello.TXT".as_slice()));
}

#[test]
fn test_missing_argument_gives_the_usage() {
    assert!(matches!(parse_request(b"GET\n"), Request::Usage(FileVerb::Get)));
    assert!(matches!(parse_request(b"DELETE\n"), Request::Usage(FileVerb::Delete)));
    assert!(matches!(parse_request(b"CREATE \n"), Request::Usage(FileVerb::Create)));
    assert!(matches!(parse_request(b"update"), Request::Usage(FileVerb::Update)));
}

#[test]
fn test_more_than_one_argument_gives_the_usage() {
    assert!(matches!(parse_request(b"GET a b\n"), Request::Usage(FileVerb::Get)));
    assert!(matches!(parse_request(b"CREATE a b c\n"), Request::Usage(FileVerb::Create)));
}

#[test]
fn test_verbs_without_a_file_name_ignore_the_rest() {
    assert!(matches!(parse_request(b"LIST everything\n"), Request::List));
    assert!(matches!(parse_request(b"LIST_OWNED a b\n"), Request::ListOwned));
    assert!(matches!(parse_request(b"QUIT now\n"), Request::Quit));
    assert!(matches!(parse_request(b"HELP me\n"), Request::Help));
}

#[test]
fn test_other_lines_are_unrecognized() {
    assert!(matches!(parse_request(b"\n"), Request::Unrecognized));
    assert!(matches!(parse_request(b""), Request::Unrecognized));
    assert!(matches!(parse_request(b"   \n"), Request::Unrecognized));
    assert!(matches!(parse_request(b"EMPTY\n"), Request::Unrecognized));
    assert!(matches!(parse_request(b"GETS a\n"), Request::Unrecognized));
    assert!(matches!(parse_request(b"LISTOWNED\n"), Request::Unrecognized));
    assert!(matches!(parse_request(b"SHUTDOWN\n"), Request::Unrecognized));
}
