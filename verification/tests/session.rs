use file_transfer::directory_tree::{DirectoryTree, Entry};
use file_transfer::request::{parse_request, FileVerb, Request};
use file_transfer::session::{
    client_directory, enter_client_directory, name_is_taken, plan, Action, Event, Job, OpenError,
    OpenMode, Phase, Session,
};

fn path(names: &[&str]) -> Vec<Vec<u8>> {
    names.iter().map(|name| name.as_bytes().to_vec()).collect()
}

fn file(name: &str) -> Entry {
    Entry::File { name: name.as_bytes().to_vec() }
}

fn dir(name: &str, children: Vec<Entry>) -> Entry {
    Entry::Dir { name: name.as_bytes().to_vec(), children }
}

fn ip(a: u8, b: u8, c: u8, d: u8) -> u32 {
    u32::from_be_bytes([a, b, c, d])
}

/// `/tmp/data/1.2.3.4/{a,b}` and `/tmp/data/5.6.7.8/c`.
fn data() -> DirectoryTree {
    let listing =
        vec![dir("1.2.3.4", vec![file("a"), file("b")]), dir("5.6.7.8", vec![file("c")])];
    DirectoryTree::new_from_existing(b"/tmp/data".to_vec(), Some(listing)).unwrap()
}

fn is_reply(job: &Job, text: &str) -> bool {
    matches!(job, Job::Reply(bytes) if bytes.as_slice() == text.as_bytes())
}

fn is_send(action: &Action, text: &str) -> bool {
    matches!(action, Action::Send(bytes) if bytes.as_slice() == text.as_bytes())
}

/// Runs a session up to the moment the client has connected to the data
/// socket, and gives the action that follows.
fn connected(job: Job, port: u16) -> (Session, Action) {
    let (mut session, first) = Session::begin(job, 4);
    assert!(matches!(first, Action::AcquirePort));
    assert_eq!(session.phase(), Phase::AllocPort);
    assert_eq!(session.port(), None);
    let announce = session.step(Event::PortGranted(port));
    let [high, low] = port.to_be_bytes();
    assert!(
        matches!(announce, Action::Announce(p, bytes) if p == port && bytes == vec![high, low, b'\n'])
    );
    assert_eq!(session.phase(), Phase::DataAccept);
    assert_eq!(session.port(), Some(port));
    let action = session.step(Event::DataConnected);
    (session, action)
}

fn assert_finished(session: &Session, action: &Action, port: Option<u16>) {
    assert!(matches!(action, Action::Finish(p) if *p == port));
    assert!(session.is_closed());
    assert_eq!(session.phase(), Phase::Closed);
    assert_eq!(session.port(), None);
}

#[test]
fn test_client_directory_is_the_dotted_address() {
    assert_eq!(client_directory(ip(1, 2, 3, 4)), b"1.2.3.4".to_vec());
}

#[test]
fn test_enter_client_directory_on_first_contact() {
    let mut tree = DirectoryTree::new(b"/tmp/data".to_vec(), None);
    assert!(enter_client_directory(&mut tree, ip(1, 2, 3, 4)));
    assert!(tree.exists_dir(&path(&["1.2.3.4"])));
    assert!(!enter_client_directory(&mut tree, ip(1, 2, 3, 4)));
    assert!(tree.list_files_in_tree().is_empty());
}

#[test]
fn test_plan_get() {
    let tree = data();
    let hit = plan(&parse_request(b"GET c\n"), &tree, b"1.2.3.4");
    assert!(matches!(hit, Job::SendFile(p) if p == path(&["5.6.7.8", "c"])));
    let miss = plan(&parse_request(b"GET nope\n"), &tree, b"1.2.3.4");
    assert!(is_reply(&miss, "File not found\n"));
}

#[test]
fn test_plan_delete_touches_the_own_directory_only() {
    let tree = data();
    let own = plan(&parse_request(b"DELETE a\n"), &tree, b"1.2.3.4");
    assert!(matches!(own, Job::Unlink(p) if p == path(&["1.2.3.4", "a"])));
    let foreign = plan(&parse_request(b"DELETE c\n"), &tree, b"1.2.3.4");
    assert!(matches!(foreign, Job::Unlink(p) if p == path(&["1.2.3.4", "c"])));
}

#[test]
fn test_plan_create() {
    let tree = data();
    let fresh = plan(&parse_request(b"CREATE hello.txt\n"), &tree, b"1.2.3.4");
    assert!(matches!(fresh, Job::Create(p) if p == path(&["1.2.3.4", "hello.txt"])));
    let taken = plan(&parse_request(b"CREATE c\n"), &tree, b"1.2.3.4");
    assert!(is_reply(&taken, "File already exists\n"));
    let taken_below = plan(&Request::Create(b"sub/c".to_vec()), &tree, b"1.2.3.4");
    assert!(is_reply(&taken_below, "File already exists\n"));
}

#[test]
fn test_plan_update() {
    let tree = data();
    let job = plan(&parse_request(b"UPDATE a\n"), &tree, b"1.2.3.4");
    assert!(matches!(job, Job::Update(p) if p == path(&["1.2.3.4", "a"])));
    let missing = plan(&parse_request(b"UPDATE zzz\n"), &tree, b"9.9.9.9");
    assert!(matches!(missing, Job::Update(p) if p == path(&["9.9.9.9", "zzz"])));
}

#[test]
fn test_plan_listings() {
    let tree = data();
    assert!(is_reply(&plan(&Request::List, &tree, b"1.2.3.4"), "a\nb\nc\n"));
    assert!(is_reply(&plan(&Request::ListOwned, &tree, b"1.2.3.4"), "a\nb\n"));
    assert!(is_reply(&plan(&Request::ListOwned, &tree, b"5.6.7.8"), "c\n"));
    assert!(is_reply(&plan(&Request::ListOwned, &tree, b"9.9.9.9"), ""));
}

#[test]
fn test_plan_fixed_replies() {
    let tree = data();
    assert!(is_reply(&plan(&Request::Quit, &tree, b"x"), "Bye!\n"));
    assert!(is_reply(
        &plan(&Request::Unrecognized, &tree, b"x"),
        "Unrecognized command. Use HELP command for info.\n"
    ));
    assert!(is_reply(&plan(&Request::Usage(FileVerb::Get), &tree, b"x"), "Usage: GET <filename>"));
    assert!(is_reply(
        &plan(&Request::Help, &tree, b"x"),
        "Usage: GET <filename>\nUsage: DELETE <filename>\nUsage: LIST\nUsage: CREATE <filename>\n\
Usage: UPDATE <filename>\nUsage: QUIT\nUsage: LIST_OWNED\n"
    ));
}

#[test]
fn test_open_reads_the_line_and_plans() {
    let tree = data();
    let (mut session, first) = Session::open(b"list_owned\n", &tree, ip(1, 2, 3, 4), 8192);
    assert!(matches!(first, Action::AcquirePort));
    session.step(Event::PortGranted(5000));
    let action = session.step(Event::DataConnected);
    assert!(is_send(&action, "a\nb\n"));
}

#[test]
fn test_create_happy() {
    let tree = DirectoryTree::new(b"/tmp/data".to_vec(), None);
    let (mut session, _) = Session::open(b"CREATE hello.txt\n", &tree, ip(1, 2, 3, 4), 8192);
    let announce = session.step(Event::PortGranted(0x1389));
    assert!(matches!(announce, Action::Announce(0x1389, bytes) if bytes == vec![0x13, 0x89, 0x0a]));
    let open = session.step(Event::DataConnected);
    assert!(
        matches!(open, Action::Open(p, OpenMode::CreateNew) if p == path(&["1.2.3.4", "hello.txt"]))
    );
    let invite = session.step(Event::Opened(0));
    assert!(is_send(&invite, "File ready to receive\n"));
    assert_eq!(session.phase(), Phase::Inviting);
    assert!(matches!(session.step(Event::Sent), Action::Receive(8192)));
    assert!(matches!(session.step(Event::Received(2)), Action::Append(0, 2)));
    assert_eq!(session.phase(), Phase::Receiving);
    let end = session.step(Event::Received(0));
    assert_finished(&session, &end, Some(0x1389));
}

#[test]
fn test_get_miss() {
    let tree = data();
    let (mut session, _) = Session::open(b"GET nope\n", &tree, ip(1, 2, 3, 4), 8192);
    session.step(Event::PortGranted(6000));
    let reply = session.step(Event::DataConnected);
    assert!(is_send(&reply, "File not found\n"));
    let end = session.step(Event::Sent);
    assert_finished(&session, &end, Some(6000));
}

#[test]
fn test_create_of_a_name_that_exists() {
    let listing = vec![dir("1.2.3.4", vec![file("hello.txt")])];
    let tree = DirectoryTree::new_from_existing(b"/tmp/data".to_vec(), Some(listing)).unwrap();
    let (mut session, _) = Session::open(b"CREATE hello.txt\n", &tree, ip(5, 6, 7, 8), 8192);
    session.step(Event::PortGranted(6000));
    let reply = session.step(Event::DataConnected);
    assert!(is_send(&reply, "File already exists\n"));
    let end = session.step(Event::Sent);
    assert_finished(&session, &end, Some(6000));
}

#[test]
fn test_list_owned_scenario() {
    let tree = data();
    let (mut session, _) = Session::open(b"LIST_OWNED\n", &tree, ip(1, 2, 3, 4), 8192);
    session.step(Event::PortGranted(6000));
    let reply = session.step(Event::DataConnected);
    assert!(is_send(&reply, "a\nb\n"));
}

#[test]
fn test_reply_job() {
    let (mut session, action) = connected(Job::Reply(b"Bye!\n".to_vec()), 5001);
    assert!(is_send(&action, "Bye!\n"));
    assert_eq!(session.phase(), Phase::Closing);
    let end = session.step(Event::Sent);
    assert_finished(&session, &end, Some(5001));
    assert!(matches!(session.step(Event::Sent), Action::Nothing));
    assert!(session.is_closed());
}

#[test]
fn test_send_file_in_blocks() {
    let (mut session, action) = connected(Job::SendFile(path(&["5.6.7.8", "c"])), 5002);
    assert!(matches!(action, Action::Open(p, OpenMode::Read) if p == path(&["5.6.7.8", "c"])));
    assert_eq!(session.phase(), Phase::Opening);
    assert!(matches!(session.step(Event::Opened(10)), Action::SendBlock(0, 4)));
    assert_eq!(session.phase(), Phase::Sending);
    assert!(matches!(session.step(Event::Sent), Action::SendBlock(4, 8)));
    assert!(matches!(session.step(Event::Sent), Action::SendBlock(8, 10)));
    let end = session.step(Event::Sent);
    assert_finished(&session, &end, Some(5002));
}

#[test]
fn test_send_file_of_one_full_block() {
    let (mut session, _) = connected(Job::SendFile(path(&["f"])), 5002);
    assert!(matches!(session.step(Event::Opened(4)), Action::SendBlock(0, 4)));
    let end = session.step(Event::Sent);
    assert_finished(&session, &end, Some(5002));
}

#[test]
fn test_send_empty_file() {
    let (mut session, _) = connected(Job::SendFile(path(&["f"])), 5002);
    let end = session.step(Event::Opened(0));
    assert_finished(&session, &end, Some(5002));
}

#[test]
fn test_send_file_that_cannot_be_opened() {
    for error in [OpenError::NotFound, OpenError::AlreadyExists, OpenError::Other] {
        let (mut session, _) = connected(Job::SendFile(path(&["f"])), 5003);
        let reply = session.step(Event::OpenFailed(error));
        assert!(is_send(&reply, "File not found\n"));
        let end = session.step(Event::Sent);
        assert_finished(&session, &end, Some(5003));
    }
}

#[test]
fn test_unlink() {
    let (mut session, action) = connected(Job::Unlink(path(&["1.2.3.4", "a"])), 5004);
    assert!(matches!(action, Action::Remove(p) if p == path(&["1.2.3.4", "a"])));
    assert_eq!(session.phase(), Phase::Removing);
    assert!(is_send(&session.step(Event::Removed(true)), "Deleted file successfully\n"));
    let end = session.step(Event::Sent);
    assert_finished(&session, &end, Some(5004));

    let (mut session, _) = connected(Job::Unlink(path(&["1.2.3.4", "zzz"])), 5004);
    assert!(is_send(&session.step(Event::Removed(false)), "File not found\n"));
}

#[test]
fn test_create_that_loses_the_race() {
    let (mut session, action) = connected(Job::Create(path(&["1.2.3.4", "f"])), 5005);
    assert!(matches!(action, Action::Open(_, OpenMode::CreateNew)));
    let reply = session.step(Event::OpenFailed(OpenError::AlreadyExists));
    assert!(is_send(&reply, "File already exists\n"));
    let end = session.step(Event::Sent);
    assert_finished(&session, &end, Some(5005));
}

#[test]
fn test_create_that_fails_otherwise_ends_the_session() {
    for error in [OpenError::NotFound, OpenError::Other] {
        let (mut session, _) = connected(Job::Create(path(&["1.2.3.4", "f"])), 5005);
        let end = session.step(Event::OpenFailed(error));
        assert_finished(&session, &end, Some(5005));
    }
}

#[test]
fn test_update() {
    let (mut session, action) = connected(Job::Update(path(&["1.2.3.4", "a"])), 5006);
    assert!(matches!(action, Action::Open(p, OpenMode::Truncate) if p == path(&["1.2.3.4", "a"])));
    assert!(is_send(&session.step(Event::Opened(0)), "File ready to receive\n"));
    assert!(matches!(session.step(Event::Sent), Action::Receive(4)));
    assert!(matches!(session.step(Event::Received(4)), Action::Append(0, 4)));
    assert!(matches!(session.step(Event::Received(1)), Action::Append(4, 1)));
    assert!(matches!(session.step(Event::Received(3)), Action::Append(5, 3)));
    let end = session.step(Event::Received(0));
    assert_finished(&session, &end, Some(5006));
}

#[test]
fn test_update_of_a_missing_file() {
    let (mut session, _) = connected(Job::Update(path(&["1.2.3.4", "zzz"])), 5006);
    let reply = session.step(Event::OpenFailed(OpenError::NotFound));
    assert!(is_send(&reply, "File not found\n"));
    let (mut session, _) = connected(Job::Update(path(&["1.2.3.4", "zzz"])), 5006);
    let end = session.step(Event::OpenFailed(OpenError::Other));
    assert_finished(&session, &end, Some(5006));
}

#[test]
fn test_failure_gives_the_port_back_in_every_phase() {
    let jobs: Vec<fn() -> Job> = vec![
        || Job::Reply(b"x".to_vec()),
        || Job::SendFile(vec![b"f".to_vec()]),
        || Job::Unlink(vec![b"f".to_vec()]),
        || Job::Create(vec![b"f".to_vec()]),
        || Job::Update(vec![b"f".to_vec()]),
    ];
    let happy = [
        Event::PortGranted(7000),
        Event::DataConnected,
        Event::Opened(9),
        Event::Sent,
        Event::Sent,
        Event::Received(3),
    ];
    for make in jobs {
        for steps in 0..happy.len() {
            let (mut session, _) = Session::begin(make(), 4);
            for event in &happy[..steps] {
                session.step(*event);
            }
            if session.is_closed() {
                continue;
            }
            let held = session.port();
            assert_eq!(held.is_some(), steps > 0);
            let end = session.step(Event::Failed);
            assert_finished(&session, &end, held);
        }
    }
}

#[test]
fn test_failure_before_a_port_was_given() {
    let (mut session, _) = Session::begin(Job::Reply(b"x".to_vec()), 4);
    let end = session.step(Event::Failed);
    assert_finished(&session, &end, None);
}

#[test]
fn test_event_out_of_turn_ends_the_session() {
    let (mut session, _) = Session::begin(Job::Reply(b"x".to_vec()), 4);
    session.step(Event::PortGranted(7001));
    let end = session.step(Event::Opened(3));
    assert_finished(&session, &end, Some(7001));

    let (mut session, _) = Session::begin(Job::Reply(b"x".to_vec()), 4);
    let end = session.step(Event::DataConnected);
    assert_finished(&session, &end, None);
}

#[test]
fn test_upload_goes_behind_what_the_file_holds() {
    let (mut session, _) = connected(Job::Create(path(&["1.2.3.4", "f"])), 5007);
    session.step(Event::Opened(10));
    session.step(Event::Sent);
    assert!(matches!(session.step(Event::Received(4)), Action::Append(10, 4)));
    assert!(matches!(session.step(Event::Received(4)), Action::Append(14, 4)));
}

#[test]
fn test_upload_that_cannot_be_counted_ends_the_session() {
    let (mut session, _) = connected(Job::Update(path(&["1.2.3.4", "f"])), 5008);
    session.step(Event::Opened(usize::MAX - 1));
    session.step(Event::Sent);
    assert!(matches!(session.step(Event::Received(1)), Action::Append(at, 1) if at == usize::MAX - 1));
    let end = session.step(Event::Received(1));
    assert_finished(&session, &end, Some(5008));
}

#[test]
fn test_name_is_taken() {
    let tree = data();
    assert!(name_is_taken(&tree, b"a"));
    assert!(name_is_taken(&tree, b"c"));
    assert!(name_is_taken(&tree, b"sub/c"));
    assert!(!name_is_taken(&tree, b"hello.txt"));
    assert!(!name_is_taken(&tree, b"1.2.3.4"));
    assert!(!name_is_taken(&tree, b"c/"));
}
