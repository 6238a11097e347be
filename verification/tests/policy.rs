use fly::migration::{Migration, MigrationMeta, MigrationWithMeta};
use fly::planner::{plan_down, ApplicationState};

fn migration(name: &str, up: &str, down: &str) -> Migration {
    Migration {
        up_sql: up.to_string(),
        down_sql: down.to_string(),
        name: name.to_string(),
    }
}

fn record(name: &str, up: &str, down: &str) -> MigrationWithMeta {
    MigrationWithMeta {
        migration: migration(name, up, down),
        meta: MigrationMeta {
            id: 7,
            created_at: 1_700_000_000,
        },
    }
}

fn applied(name: &str) -> ApplicationState {
    ApplicationState::Applied {
        definition: migration(name, "up", "down"),
        application: record(name, "up", "down"),
    }
}

fn changed(name: &str) -> ApplicationState {
    ApplicationState::Changed {
        definition: migration(name, "up-new", "down-new"),
        application: record(name, "up-old", "down-old"),
    }
}

fn removed(name: &str) -> ApplicationState {
    ApplicationState::Removed {
        application: record(name, "up-old", "down-old"),
    }
}

fn pending(name: &str) -> ApplicationState {
    ApplicationState::Pending {
        definition: migration(name, "up", "down"),
    }
}

#[test]
fn test_down_conflicting_flags() {
    let states = vec![applied("a")];
    let r = plan_down(&states, None, true, true);
    assert_eq!(
        r.err().unwrap().message(),
        "cannot specify both --recover and --ignore-changed, aborting"
    );
}

#[test]
fn test_down_nothing_applied_is_noop() {
    let states = vec![pending("a"), pending("b")];
    let r = plan_down(&states, None, false, false);
    assert_eq!(r.unwrap(), None);

    let empty: Vec<ApplicationState> = Vec::new();
    let r = plan_down(&empty, None, false, false);
    assert_eq!(r.unwrap(), None);
}

#[test]
fn test_down_picks_last_non_pending() {
    let states = vec![applied("a"), applied("b"), pending("c")];
    let r = plan_down(&states, None, false, false).unwrap().unwrap();
    assert_eq!(r.name, "b");
    assert_eq!(r.down_sql, "down");
}

#[test]
fn test_down_named_target() {
    let states = vec![applied("a"), applied("b")];
    let r = plan_down(&states, Some("a"), false, false).unwrap().unwrap();
    assert_eq!(r.name, "a");
}

#[test]
fn test_down_named_target_missing() {
    let states = vec![applied("a")];
    let r = plan_down(&states, Some("zzz"), false, false);
    assert_eq!(r.err().unwrap().message(), "couldn't find migration zzz");
}

#[test]
fn test_down_changed_without_flags_fails() {
    let states = vec![changed("m")];
    let r = plan_down(&states, None, false, false);
    assert_eq!(
        r.err().unwrap().message(),
        "m has changed, aborting. Use the --recover flag to run the down sql stored in the database."
    );
}

#[test]
fn test_down_changed_with_recover_uses_recorded_sql() {
    let states = vec![changed("m")];
    let r = plan_down(&states, None, true, false).unwrap().unwrap();
    assert_eq!(r.down_sql, "down-old");
}

#[test]
fn test_down_changed_with_ignore_changed_uses_disk_sql() {
    let states = vec![changed("m")];
    let r = plan_down(&states, None, false, true).unwrap().unwrap();
    assert_eq!(r.down_sql, "down-new");
}

#[test]
fn test_down_removed_without_recover_fails() {
    let states = vec![removed("m")];
    let r = plan_down(&states, None, false, false);
    assert_eq!(
        r.err().unwrap().message(),
        "m was removed, aborting. Use the --recover flag to run the down sql stored in the database."
    );
    // The other flag does not help either.
    let r = plan_down(&states, None, false, true);
    assert!(r.is_err());
}

#[test]
fn test_down_removed_with_recover_uses_recorded_sql() {
    let states = vec![removed("m")];
    let r = plan_down(&states, None, true, false).unwrap().unwrap();
    assert_eq!(r.down_sql, "down-old");
}

#[test]
fn test_down_pending_target_fails() {
    let states = vec![pending("m")];
    let r = plan_down(&states, Some("m"), false, false);
    assert_eq!(
        r.err().unwrap().message(),
        "can't roll back a pending migration m"
    );
}
