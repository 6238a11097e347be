//! The migration lifecycle as the engine sees it, database aside: a new
//! file is pending, applying records it, a recorded migration renders as
//! applied, reverting makes it pending again, and deleting the file of
//! an applied migration reports the missing file.

use fly::file::parse_migration;
use fly::migration::{MigrationMeta, MigrationWithMeta};
use fly::planner::{get_all_migration_state_impl, pending_migrations, plan_down};

#[test]
fn test_migration_lifecycle() {
    let name = "1699999999-create-users.sql";
    let contents = "\n-- up\ncreate table users (id int);\n\n-- down\ndrop table users;\n";
    let definition = parse_migration(name.to_string(), contents).unwrap();
    assert_eq!(definition.up_sql, "create table users (id int);");
    assert_eq!(definition.down_sql, "drop table users;");

    // Freshly created: pending.
    let states = get_all_migration_state_impl(vec![definition.clone()], Vec::new());
    assert_eq!(states.len(), 1);
    assert_eq!(states[0].render(), format!("{} [pending]", name));
    let to_apply = pending_migrations(&states);
    assert_eq!(to_apply, vec![definition.clone()]);

    // Applying inserts a record with the same content.
    let record = MigrationWithMeta {
        migration: definition.clone(),
        meta: MigrationMeta {
            id: 1,
            created_at: 1_700_000_000,
        },
    };
    let states = get_all_migration_state_impl(vec![definition.clone()], vec![record.clone()]);
    assert_eq!(states[0].render(), format!("{} [applied]", name));
    assert!(pending_migrations(&states).is_empty());

    // Reverting runs the definition's down SQL and deletes the record.
    let plan = plan_down(&states, None, false, false).unwrap().unwrap();
    assert_eq!(plan.name, name);
    assert_eq!(plan.down_sql, "drop table users;");
    let states = get_all_migration_state_impl(vec![definition.clone()], Vec::new());
    assert_eq!(states[0].render(), format!("{} [pending]", name));

    // Deleting the file while the record remains: no file.
    let states = get_all_migration_state_impl(Vec::new(), vec![record.clone()]);
    assert_eq!(states[0].render(), format!("{} ** NO FILE **", name));
}

#[test]
fn test_template_round_trip() {
    // The scaffold a `new` command writes parses to two empty bodies.
    let template = "-- up\n\n-- down\n";
    let m = parse_migration("t.sql".to_string(), template).unwrap();
    assert_eq!(m.up_sql, "");
    assert_eq!(m.down_sql, "");
}
