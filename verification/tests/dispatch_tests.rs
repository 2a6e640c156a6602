use lunardb::command::{Command, CommandReply, DispatchError};
use lunardb::facade::LunarDB;

fn args(xs: &[&str]) -> Vec<String> {
    let mut out = Vec::new();
    for x in xs {
        out.push(x.to_string());
    }
    out
}

#[test]
fn test_write_invalidates_cache() {
    let mut db = LunarDB::new("conn", 100);
    assert_eq!(
        db.execute_nosql_command("SET", &args(&["k", "v1"]), 0),
        Ok(CommandReply::Done)
    );
    assert_eq!(
        db.execute_nosql_command("GET", &args(&["k"]), 1),
        Ok(CommandReply::Value(Some("v1".to_string())))
    );
    assert_eq!(
        db.execute_nosql_command("SET", &args(&["k", "v2"]), 2),
        Ok(CommandReply::Done)
    );
    // the cached v1 must not shadow the new value
    assert_eq!(
        db.execute_nosql_command("GET", &args(&["k"]), 3),
        Ok(CommandReply::Value(Some("v2".to_string())))
    );
}

#[test]
fn test_arity_validation() {
    let mut db = LunarDB::new("conn", 100);
    assert_eq!(
        db.execute_nosql_command("SET", &args(&["k"]), 0),
        Err(DispatchError::InvalidArguments { command: Command::CmdSet, given: 1 })
    );
    assert_eq!(
        db.execute_nosql_command("FOO", &args(&[]), 0),
        Err(DispatchError::UnknownCommand("FOO".to_string()))
    );
}

#[test]
fn test_arity_validation_extended() {
    let mut db = LunarDB::new("conn", 100);
    assert_eq!(
        db.execute_nosql_command("GET", &args(&[]), 0),
        Err(DispatchError::InvalidArguments { command: Command::CmdGet, given: 0 })
    );
    assert_eq!(
        db.execute_nosql_command("MSET", &args(&["k1", "v1", "k2"]), 0),
        Err(DispatchError::InvalidArguments { command: Command::CmdMSet, given: 3 })
    );
    assert_eq!(
        db.execute_nosql_command("MGET", &args(&[]), 0),
        Err(DispatchError::InvalidArguments { command: Command::CmdMGet, given: 0 })
    );
    assert_eq!(
        db.execute_nosql_command("KEYS", &args(&["extra"]), 0),
        Err(DispatchError::InvalidArguments { command: Command::CmdKeys, given: 1 })
    );
}

#[test]
fn test_get_missing_key() {
    let mut db = LunarDB::new("conn", 100);
    assert_eq!(
        db.execute_nosql_command("GET", &args(&["nope"]), 0),
        Ok(CommandReply::Value(None))
    );
}

#[test]
fn test_del_through_dispatch() {
    let mut db = LunarDB::new("conn", 100);
    assert_eq!(
        db.execute_nosql_command("SET", &args(&["k", "v"]), 0),
        Ok(CommandReply::Done)
    );
    assert_eq!(
        db.execute_nosql_command("GET", &args(&["k"]), 1),
        Ok(CommandReply::Value(Some("v".to_string())))
    );
    assert_eq!(
        db.execute_nosql_command("DEL", &args(&["k"]), 2),
        Ok(CommandReply::Done)
    );
    // deleted from store and cache alike
    assert_eq!(
        db.execute_nosql_command("GET", &args(&["k"]), 3),
        Ok(CommandReply::Value(None))
    );
    // deleting again still succeeds
    assert_eq!(
        db.execute_nosql_command("DEL", &args(&["k"]), 4),
        Ok(CommandReply::Done)
    );
}

#[test]
fn test_lists_through_dispatch() {
    let mut db = LunarDB::new("conn", 100);
    assert_eq!(
        db.execute_nosql_command("LRANGE", &args(&["l"]), 0),
        Ok(CommandReply::Items(None))
    );
    assert_eq!(
        db.execute_nosql_command("LPUSH", &args(&["l", "x"]), 1),
        Ok(CommandReply::Done)
    );
    assert_eq!(
        db.execute_nosql_command("LPUSH", &args(&["l", "y"]), 2),
        Ok(CommandReply::Done)
    );
    assert_eq!(
        db.execute_nosql_command("LRANGE", &args(&["l"]), 3),
        Ok(CommandReply::Items(Some(vec!["x".to_string(), "y".to_string()])))
    );
}

#[test]
fn test_batch_through_dispatch() {
    let mut db = LunarDB::new("conn", 100);
    assert_eq!(
        db.execute_nosql_command("MSET", &args(&["a", "1", "b", "2", "a", "3"]), 0),
        Ok(CommandReply::Done)
    );
    assert_eq!(
        db.execute_nosql_command("MGET", &args(&["a", "b", "c"]), 1),
        Ok(CommandReply::Values(vec![
            Some("3".to_string()),
            Some("2".to_string()),
            None
        ]))
    );
    assert_eq!(
        db.execute_nosql_command("KEYS", &args(&[]), 2),
        Ok(CommandReply::KeyList(vec!["a".to_string(), "b".to_string()]))
    );
}

#[test]
fn test_mset_invalidates_written_keys() {
    let mut db = LunarDB::new("conn", 100);
    assert_eq!(
        db.execute_nosql_command("SET", &args(&["a", "old"]), 0),
        Ok(CommandReply::Done)
    );
    // populate the cache for "a"
    assert_eq!(
        db.execute_nosql_command("GET", &args(&["a"]), 1),
        Ok(CommandReply::Value(Some("old".to_string())))
    );
    assert_eq!(
        db.execute_nosql_command("MSET", &args(&["a", "new"]), 2),
        Ok(CommandReply::Done)
    );
    assert_eq!(
        db.execute_nosql_command("GET", &args(&["a"]), 3),
        Ok(CommandReply::Value(Some("new".to_string())))
    );
}

#[test]
fn test_cached_read_survives_until_ttl() {
    let mut db = LunarDB::new("conn", 10);
    assert_eq!(
        db.execute_nosql_command("SET", &args(&["k", "v"]), 0),
        Ok(CommandReply::Done)
    );
    assert_eq!(
        db.execute_nosql_command("GET", &args(&["k"]), 0),
        Ok(CommandReply::Value(Some("v".to_string())))
    );
    // hit within the TTL and a fresh read after it agree with the store
    assert_eq!(
        db.execute_nosql_command("GET", &args(&["k"]), 9),
        Ok(CommandReply::Value(Some("v".to_string())))
    );
    assert_eq!(
        db.execute_nosql_command("GET", &args(&["k"]), 11),
        Ok(CommandReply::Value(Some("v".to_string())))
    );
}
