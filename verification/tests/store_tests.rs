use termmon::command::Command;
use termmon::store::CommandStore;

fn cmd(session_id: &str, index: u32, command: &str, timestamp: i64) -> Command {
    Command {
        id: 0,
        session_id: session_id.to_string(),
        index,
        command: command.to_string(),
        pwd: "/".to_string(),
        status: 0,
        timestamp,
    }
}

#[test]
fn test_insert() {
    let mut storage = CommandStore::new();

    let mut command = cmd("session_id", 1, "echo foo", 0);

    storage.insert_command(&mut command);

    assert_eq!(command.id, 1);
}

#[test]
fn test_get() {
    let mut storage = CommandStore::new();

    let mut command1 = cmd("session_id", 1, "echo foo", 7);
    let mut command2 = cmd("session_id", 2, "echo bar", 7);

    storage.insert_command(&mut command1);
    storage.insert_command(&mut command2);

    let commands = storage.get_latest_commands();

    assert_eq!(commands, vec![command2, command1]);
}

#[test]
fn insert_twice_ids_strictly_increase() {
    let mut storage = CommandStore::new();
    let mut c1 = cmd("s", 1, "a", 0);
    let mut c2 = cmd("s", 2, "b", 0);
    storage.insert_command(&mut c1);
    storage.insert_command(&mut c2);
    assert!(c2.id > c1.id);
    assert_ne!(c1.id, c2.id);
}

#[test]
fn insert_then_recent_heads_the_batch() {
    let mut storage = CommandStore::new();
    let mut older = cmd("s", 1, "first", 10);
    storage.insert_command(&mut older);
    let mut newer = cmd("s", 2, "second", 11);
    storage.insert_command(&mut newer);
    let recent = storage.get_latest_commands();
    assert_eq!(recent[0].command, "second");
}

#[test]
fn recent_caps_at_five_hundred_most_recent() {
    let mut storage = CommandStore::new();
    for i in 0..600u32 {
        let mut c = cmd("s", i, &format!("cmd{}", i), i as i64);
        storage.insert_command(&mut c);
    }
    let recent = storage.get_latest_commands();
    assert_eq!(recent.len(), 500);
    // Newest first: the 500 most recent timestamps are 599 down to 100.
    for (k, c) in recent.iter().enumerate() {
        assert_eq!(c.timestamp, 599 - k as i64);
        assert_eq!(c.command, format!("cmd{}", 599 - k));
    }
}

#[test]
fn recent_breaks_timestamp_ties_by_insertion_order() {
    let mut storage = CommandStore::new();
    for i in 0..600u32 {
        // All timestamps collide: insertion order must decide, later first.
        let mut c = cmd("s", i, &format!("cmd{}", i), 42);
        storage.insert_command(&mut c);
    }
    let recent = storage.get_latest_commands();
    assert_eq!(recent.len(), 500);
    for (k, c) in recent.iter().enumerate() {
        assert_eq!(c.id, 600 - k as i64);
    }
}

#[test]
fn recent_on_empty_store_is_empty() {
    let storage = CommandStore::new();
    assert_eq!(storage.get_latest_commands(), vec![]);
    assert_eq!(storage.len(), 0);
}
