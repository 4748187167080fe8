use sherlock::appdata::{AppData, ApplicationAction, ExecVariable};
use sherlock::cache::{BinaryCache, CandidateCache};
use sherlock::priority::Priority;
use sherlock::errors::{SherlockError, SherlockErrorType};

#[test]
fn a_decoded_value_is_returned() {
    let read = BinaryCache::recover(Some(vec![1, 2, 3]), vec![]);
    assert_eq!(read.value, vec![1, 2, 3]);
    assert!(!read.remove_file);
}

#[test]
fn a_corrupt_file_gives_the_default_and_is_removed() {
    let read = BinaryCache::recover(None, Vec::<u8>::default());
    assert_eq!(read.value, Vec::<u8>::new());
    assert!(read.remove_file);
}

#[test]
fn an_unreadable_file_is_an_error() {
    let read = BinaryCache::read("/cache/apps.bin", Some("No such file"), Some(1u32), 0u32);
    match read {
        Err(SherlockError { error: SherlockErrorType::FileReadError(path), traceback }) => {
            assert_eq!(path, "/cache/apps.bin");
            assert_eq!(traceback, "No such file");
        },
        other => panic!("{:?}", other),
    }
    let read = BinaryCache::read("/cache/apps.bin", None, Some(1u32), 0u32).unwrap();
    assert_eq!(read.value, 1);
    assert!(!read.remove_file);
    let read = BinaryCache::read("/cache/apps.bin", None, None, 7u32).unwrap();
    assert_eq!(read.value, 7);
    assert!(read.remove_file);
}

#[test]
fn errors_name_their_files() {
    let e = BinaryCache::write_error("/cache/apps.bin", "disk full");
    assert!(matches!(e.error, SherlockErrorType::FileWriteError(ref p) if p == "/cache/apps.bin"));
    assert_eq!(e.traceback, "disk full");
    let e = BinaryCache::serialization_error("too deep");
    assert!(matches!(e.error, SherlockErrorType::SerializationError));
    let e = BinaryCache::read_error("/x", "gone");
    assert!(matches!(e.error, SherlockErrorType::FileReadError(ref p) if p == "/x"));
    let e = SherlockError::new(SherlockErrorType::ConfigError(None), "not set up");
    assert!(matches!(e.error, SherlockErrorType::ConfigError(None)));
    assert_eq!(e.traceback, "not set up");
}

fn record(name: &str) -> AppData {
    let mut action = ApplicationAction::new("app_launcher");
    action.name = Some("New Window".to_string());
    action.command = Some(format!("{} --new-window", name));
    let mut data = AppData::new();
    data.name = Some(name.to_string());
    data.command = Some(name.to_lowercase());
    data.search_string = format!("{};web", name.to_lowercase());
    data.priority = Some(Priority::from_bits(1.87f32.to_bits()));
    data.icon = Some(format!("/icons/{}.png", name));
    data.desktop_file = Some(format!("/usr/share/applications/{}.desktop", name));
    data.actions = vec![action];
    data.vars = vec![ExecVariable::StringInput("url".to_string()), ExecVariable::PasswordInput("key".to_string())];
    data.terminal = true;
    data
}

fn same(a: &AppData, b: &AppData) -> bool {
    a.name == b.name
        && a.command == b.command
        && a.search_string == b.search_string
        && a.priority == b.priority
        && a.icon == b.icon
        && a.desktop_file == b.desktop_file
        && a.terminal == b.terminal
        && a.actions.len() == b.actions.len()
        && a.actions.iter().zip(b.actions.iter()).all(|(x, y)| {
            x.name == y.name && x.command == y.command && x.icon == y.icon && x.method == y.method && x.exit == y.exit
        })
        && a.vars.len() == b.vars.len()
        && a.vars.iter().zip(b.vars.iter()).all(|(x, y)| match (x, y) {
            (ExecVariable::StringInput(p), ExecVariable::StringInput(q)) => p == q,
            (ExecVariable::PasswordInput(p), ExecVariable::PasswordInput(q)) => p == q,
            _ => false,
        })
}

#[test]
fn records_round_trip_through_the_cache() {
    let apps = vec![record("Firefox"), AppData::new(), record("Kitty")];
    let blob = CandidateCache::write(&apps).unwrap();
    let read = CandidateCache::read("/cache/apps.bin", Ok(&blob)).unwrap();
    assert!(!read.remove_file);
    assert_eq!(read.value.len(), 3);
    for (a, b) in apps.iter().zip(read.value.iter()) {
        assert!(same(a, b));
    }
    let empty = CandidateCache::write(&vec![]).unwrap();
    assert_eq!(empty, vec![0u8; 8]);
    assert!(CandidateCache::read("/cache/apps.bin", Ok(&empty)).unwrap().value.is_empty());
}

#[test]
fn a_corrupt_cache_is_empty_and_goes() {
    let garbage: Vec<u8> = vec![0xde, 0xad, 0xbe, 0xef, 1, 2, 3];
    let read = CandidateCache::read("/cache/apps.bin", Ok(&garbage)).unwrap();
    assert!(read.value.is_empty());
    assert!(read.remove_file);
    let read = CandidateCache::read("/cache/apps.bin", Ok(&[])).unwrap();
    assert!(read.value.is_empty());
    assert!(read.remove_file);
    // a blob that was cut short
    let mut blob = CandidateCache::write(&vec![record("Firefox")]).unwrap();
    blob.truncate(blob.len() - 3);
    assert!(CandidateCache::read("/cache/apps.bin", Ok(&blob)).unwrap().remove_file);
}

#[test]
fn an_unreadable_cache_is_an_error() {
    match CandidateCache::read("/cache/apps.bin", Err("Permission denied")) {
        Err(e) => {
            assert!(matches!(e.error, SherlockErrorType::FileReadError(ref p) if p == "/cache/apps.bin"));
            assert_eq!(e.traceback, "Permission denied");
        },
        Ok(_) => panic!(),
    }
}

type Action = (Option<String>, Option<String>, Option<String>, String, bool);
type Stored = (
    Option<String>,
    Option<String>,
    String,
    Option<f32>,
    Option<String>,
    Option<String>,
    Vec<Action>,
    Vec<(u32, String)>,
    bool,
);

#[test]
fn priorities_are_stored_as_their_numbers() {
    let config = bincode::config::standard().with_fixed_int_encoding();
    let stored: Vec<Stored> = vec![(
        Some("Firefox".to_string()),
        None,
        "firefox".to_string(),
        Some(1.87),
        None,
        None,
        vec![],
        vec![(1, "key".to_string())],
        false,
    )];
    let blob = bincode::serde::encode_to_vec(&stored, config).unwrap();
    let read = CandidateCache::read("/cache/apps.bin", Ok(&blob)).unwrap();
    assert!(!read.remove_file);
    assert_eq!(read.value[0].priority, Some(Priority::from_bits(1.87f32.to_bits())));
    assert!(matches!(read.value[0].vars[0], ExecVariable::PasswordInput(ref s) if s == "key"));
    let written = CandidateCache::write(&read.value).unwrap();
    assert_eq!(written, blob);
    let (decoded, _): (Vec<Stored>, usize) = bincode::serde::decode_from_slice(&written, config).unwrap();
    assert_eq!(decoded, stored);
}

#[test]
fn a_variable_of_an_unknown_kind_spoils_the_cache() {
    let config = bincode::config::standard().with_fixed_int_encoding();
    let stored: Vec<Stored> = vec![(
        None,
        None,
        String::new(),
        None,
        None,
        None,
        vec![],
        vec![(0, "a".to_string()), (2, "b".to_string())],
        false,
    )];
    let blob = bincode::serde::encode_to_vec(&stored, config).unwrap();
    let read = CandidateCache::read("/cache/apps.bin", Ok(&blob)).unwrap();
    assert!(read.value.is_empty());
    assert!(read.remove_file);
}

#[test]
fn a_length_that_the_cache_cannot_hold_is_refused() {
    let all_ones: Vec<u8> = vec![0xff; 16];
    let read = CandidateCache::read("/cache/apps.bin", Ok(&all_ones)).unwrap();
    assert!(read.value.is_empty());
    assert!(read.remove_file);
    // one record, with a name that claims some gigabytes
    let mut claim: Vec<u8> = vec![1, 0, 0, 0, 0, 0, 0, 0, 1];
    claim.extend_from_slice(&[0, 0, 0, 0, 0x40, 0, 0, 0]);
    claim.extend_from_slice(b"Firefox");
    let read = CandidateCache::read("/cache/apps.bin", Ok(&claim)).unwrap();
    assert!(read.value.is_empty());
    assert!(read.remove_file);
    // a list of actions that claims more entries than the file has bytes
    let mut blob = CandidateCache::write(&vec![AppData::new()]).unwrap();
    let at = blob.len() - 17;
    blob[at..at + 8].copy_from_slice(&[0xff; 8]);
    assert!(CandidateCache::read("/cache/apps.bin", Ok(&blob)).unwrap().remove_file);
}

#[test]
fn the_blob_of_a_record_follows_the_format() {
    let mut action = ApplicationAction::new("m");
    action.name = Some("n".to_string());
    let mut data = AppData::new();
    data.name = Some("ab".to_string());
    data.search_string = "é".to_string();
    data.priority = Some(Priority::from_bits(0x3f80_0000));
    data.actions = vec![action];
    data.vars = vec![ExecVariable::PasswordInput("k".to_string())];
    data.terminal = true;
    let blob = CandidateCache::write(&vec![data]).unwrap();
    let mut expected: Vec<u8> = vec![1, 0, 0, 0, 0, 0, 0, 0]; // one record
    expected.extend_from_slice(&[1, 2, 0, 0, 0, 0, 0, 0, 0, b'a', b'b']); // name
    expected.push(0); // no command
    expected.extend_from_slice(&[2, 0, 0, 0, 0, 0, 0, 0, 0xc3, 0xa9]); // search key
    expected.extend_from_slice(&[1, 0, 0, 0x80, 0x3f]); // priority
    expected.extend_from_slice(&[0, 0]); // no icon, no file
    expected.extend_from_slice(&[1, 0, 0, 0, 0, 0, 0, 0]); // one action
    expected.extend_from_slice(&[1, 1, 0, 0, 0, 0, 0, 0, 0, b'n']); // its name
    expected.extend_from_slice(&[0, 0]); // no command, no icon
    expected.extend_from_slice(&[1, 0, 0, 0, 0, 0, 0, 0, b'm']); // its method
    expected.push(1); // it exits
    expected.extend_from_slice(&[1, 0, 0, 0, 0, 0, 0, 0]); // one variable
    expected.extend_from_slice(&[1, 0, 0, 0]); // a masked one
    expected.extend_from_slice(&[1, 0, 0, 0, 0, 0, 0, 0, b'k']); // its placeholder
    expected.push(1); // in a terminal
    assert_eq!(blob, expected);
    // what follows the list is not read
    let mut longer = expected.clone();
    longer.extend_from_slice(&[9, 9, 9]);
    let read = CandidateCache::read("/cache/apps.bin", Ok(&longer)).unwrap();
    assert!(!read.remove_file);
    assert_eq!(read.value.len(), 1);
    assert_eq!(read.value[0].search_string, "é");
    // a byte of a truth value that is neither 0 nor 1 spoils the file
    let mut spoiled = expected.clone();
    let last = spoiled.len() - 1;
    spoiled[last] = 2;
    assert!(CandidateCache::read("/cache/apps.bin", Ok(&spoiled)).unwrap().remove_file);
    // and so does the byte of an optional value
    let mut spoiled = expected.clone();
    spoiled[8] = 7;
    assert!(CandidateCache::read("/cache/apps.bin", Ok(&spoiled)).unwrap().remove_file);
}
