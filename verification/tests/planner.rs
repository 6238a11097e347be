use fly::migration::{Migration, MigrationMeta, MigrationWithMeta};
use fly::planner::{get_all_migration_state_impl, pending_migrations, ApplicationState};

fn build_migration(name: &'static str, up: &'static str, down: &'static str) -> Migration {
    Migration {
        up_sql: up.to_string(),
        down_sql: down.to_string(),
        name: name.to_string(),
    }
}

fn build_migration_meta(
    name: &'static str,
    up: &'static str,
    down: &'static str,
) -> MigrationWithMeta {
    MigrationWithMeta {
        meta: MigrationMeta {
            id: 123,
            created_at: 1_700_000_000,
        },
        migration: build_migration(name, up, down),
    }
}

#[test]
fn test_get_all_migration_state_empty() {
    let result = get_all_migration_state_impl(Vec::new(), Vec::new());
    assert_eq!(result, Vec::new());
}

#[test]
fn test_get_all_migration_state_pending() {
    let definition = build_migration("migration", "up", "down");
    let result = get_all_migration_state_impl(vec![definition.clone()], Vec::new());
    assert_eq!(
        result,
        vec![ApplicationState::Pending {
            definition: definition
        }]
    );
}

#[test]
fn test_get_all_migration_state_removed() {
    let application = build_migration_meta("migration", "up", "down");
    let result = get_all_migration_state_impl(Vec::new(), vec![application.clone()]);
    assert_eq!(
        result,
        vec![ApplicationState::Removed {
            application: application
        }]
    );
}

#[test]
fn test_get_all_migration_state_applied() {
    let definition = build_migration("migration", "up", "down");
    let application = build_migration_meta("migration", "up", "down");
    let result = get_all_migration_state_impl(vec![definition.clone()], vec![application.clone()]);
    assert_eq!(
        result,
        vec![ApplicationState::Applied {
            definition: definition,
            application: application
        }]
    );
}

#[test]
fn test_get_all_migration_up_state_changed() {
    let definition = build_migration("migration", "up-changed", "down");
    let application = build_migration_meta("migration", "up", "down");
    let result = get_all_migration_state_impl(vec![definition.clone()], vec![application.clone()]);
    assert_eq!(
        result,
        vec![ApplicationState::Changed {
            definition: definition,
            application: application
        }]
    );
}

#[test]
fn test_get_all_migration_down_state_changed() {
    let definition = build_migration("migration", "up", "down-changed");
    let application = build_migration_meta("migration", "up", "down");
    let result = get_all_migration_state_impl(vec![definition.clone()], vec![application.clone()]);
    assert_eq!(
        result,
        vec![ApplicationState::Changed {
            definition: definition,
            application: application
        }]
    );
}

#[test]
fn test_get_all_migration_state_multiple() {
    let definition_a = build_migration("1-migration", "1-up", "1-down");
    let definition_b = build_migration("2-migration", "2-up", "2-down");
    let definition_c = build_migration("3-migration", "3-up", "3-down");

    let application_a = build_migration_meta("1-migration", "1-up", "1-down");
    let application_b = build_migration_meta("2-migration", "2-up-changed", "2-down");
    let application_c = build_migration_meta("4-migration", "4-up", "4-down");

    // The particular order of definitions/applications should not
    // matter, as they are keyed and sorted by name.
    let definitions = vec![
        definition_b.clone(),
        definition_c.clone(),
        definition_a.clone(),
    ];
    let applications = vec![
        application_c.clone(),
        application_a.clone(),
        application_b.clone(),
    ];

    let result = get_all_migration_state_impl(definitions, applications);
    assert_eq!(
        result,
        vec![
            ApplicationState::Applied {
                definition: definition_a,
                application: application_a
            },
            ApplicationState::Changed {
                definition: definition_b,
                application: application_b
            },
            ApplicationState::Pending {
                definition: definition_c
            },
            ApplicationState::Removed {
                application: application_c
            },
        ]
    );
}

#[test]
fn test_reconcile_shuffle_invariance() {
    let d1 = build_migration("b", "up-b", "down-b");
    let d2 = build_migration("c", "up-c", "down-c");
    let d3 = build_migration("a", "up-a", "down-a");
    let r1 = build_migration_meta("b", "up-b", "down-b");
    let r2 = build_migration_meta("d", "up-d", "down-d");

    let out1 = get_all_migration_state_impl(
        vec![d1.clone(), d2.clone(), d3.clone()],
        vec![r1.clone(), r2.clone()],
    );
    let out2 = get_all_migration_state_impl(
        vec![d3.clone(), d1.clone(), d2.clone()],
        vec![r2.clone(), r1.clone()],
    );
    assert_eq!(out1, out2);

    // One state per distinct name, ascending by name.
    assert_eq!(out1.len(), 4);
    let names: Vec<&str> = out1.iter().map(|s| s.name()).collect();
    assert_eq!(names, vec!["a", "b", "c", "d"]);
}

#[test]
fn test_state_accessors() {
    let pending = ApplicationState::Pending {
        definition: build_migration("p", "u", "d"),
    };
    let applied = ApplicationState::Applied {
        definition: build_migration("a", "u", "d"),
        application: build_migration_meta("a", "u", "d"),
    };
    let changed = ApplicationState::Changed {
        definition: build_migration("c", "u2", "d"),
        application: build_migration_meta("c", "u", "d"),
    };
    let removed = ApplicationState::Removed {
        application: build_migration_meta("r", "u", "d"),
    };

    assert!(pending.is_pending() && !pending.is_applied());
    assert!(applied.is_applied() && !applied.is_changed());
    assert!(changed.is_changed() && !changed.is_removed());
    assert!(removed.is_removed() && !removed.is_pending());

    assert_eq!(pending.name(), "p");
    assert_eq!(applied.name(), "a");
    assert_eq!(changed.name(), "c");
    assert_eq!(removed.name(), "r");

    assert_eq!(pending.render(), "p [pending]");
    assert_eq!(applied.render(), "a [applied]");
    assert_eq!(changed.render(), "c ** CHANGED **");
    assert_eq!(removed.render(), "r ** NO FILE **");
}

#[test]
fn test_pending_migrations_in_order() {
    let d1 = build_migration("1-a", "u1", "d1");
    let d2 = build_migration("2-b", "u2", "d2");
    let states = vec![
        ApplicationState::Pending {
            definition: d1.clone(),
        },
        ApplicationState::Applied {
            definition: build_migration("1-b", "u", "d"),
            application: build_migration_meta("1-b", "u", "d"),
        },
        ApplicationState::Pending {
            definition: d2.clone(),
        },
        ApplicationState::Removed {
            application: build_migration_meta("9-z", "u", "d"),
        },
    ];
    assert_eq!(pending_migrations(&states), vec![d1, d2]);
}
