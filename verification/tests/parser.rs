use fly::file::{parse_migration, valid_migration_file_name};
use fly::migration::Migration;

#[test]
fn test_parse_migration_empty_string() {
    let migration_str = "".to_string();
    let result = parse_migration("foo".to_string(), &migration_str);

    assert!(result.is_err());
    assert_eq!(
        result.err().unwrap().message(),
        "bad migration file format in foo: both up and down migrations must be defined"
    );
}

#[test]
fn test_parse_migration_just_up() {
    let migration_str = "
-- up
create table users (id int);
"
    .to_string();
    let result = parse_migration("foo".to_string(), &migration_str);

    assert!(result.is_err());
    assert_eq!(
        result.err().unwrap().message(),
        "bad migration file format in foo: both up and down migrations must be defined"
    );
}

#[test]
fn test_parse_migration_just_down() {
    let migration_str = "
-- down
drop table users;
"
    .to_string();
    let result = parse_migration("foo".to_string(), &migration_str);

    assert!(result.is_err());
    assert_eq!(
        result.err().unwrap().message(),
        "bad migration file format in foo: both up and down migrations must be defined"
    );
}

#[test]
fn test_parse_migration_multiple_ups() {
    let migration_str = "
-- up
create table users (id int);

-- up
alter table users add column is_active boolean default true;

-- down
drop table users;
"
    .to_string();
    let result = parse_migration("foo".to_string(), &migration_str);

    assert!(result.is_err());
    assert_eq!(
        result.err().unwrap().message(),
        "bad migration file format in foo: only one up migration allowed"
    );
}

#[test]
fn test_parse_migration_multiple_downs() {
    let migration_str = "
-- up
create table users (id int);

-- down
alter table users remove column id;

-- down
drop table users;
"
    .to_string();
    let result = parse_migration("foo".to_string(), &migration_str);

    assert!(result.is_err());
    assert_eq!(
        result.err().unwrap().message(),
        "bad migration file format in foo: only one down migration allowed"
    );
}

#[test]
fn test_parse_normal_migration() {
    let migration_str = "
-- up
create table users (
  id int
);

-- down
drop table users;
"
    .to_string();
    let result = parse_migration("foo".to_string(), &migration_str);

    assert!(result.is_ok());
    assert_eq!(
        result.ok().unwrap(),
        Migration {
            name: "foo".to_string(),
            up_sql: "create table users (
  id int
);"
            .to_string(),
            down_sql: "drop table users;".to_string(),
        }
    );
}

#[test]
fn test_parse_down_marker_before_up() {
    let migration_str = "-- down\ndrop table users;\n-- up\ncreate table users (id int);\n";
    let result = parse_migration("foo".to_string(), migration_str);

    assert!(result.is_err());
    assert_eq!(
        result.err().unwrap().message(),
        "bad migration file format in foo: up migration must come first"
    );
}

#[test]
fn test_parse_trims_bodies() {
    let migration_str = "-- up\n\n  create table t (x int);  \n\n-- down\n\n  drop table t;  \n\n";
    let result = parse_migration("m".to_string(), migration_str).unwrap();
    assert_eq!(result.up_sql, "create table t (x int);");
    assert_eq!(result.down_sql, "drop table t;");
}

#[test]
fn test_parse_ignores_lines_before_up() {
    let migration_str = "-- a comment\n-- up\nselect 1;\n-- down\nselect 2;\n";
    let result = parse_migration("m".to_string(), migration_str).unwrap();
    assert_eq!(result.up_sql, "select 1;");
    assert_eq!(result.down_sql, "select 2;");
    assert_eq!(result.name, "m");
}

#[test]
fn test_valid_migration_file_name() {
    assert!(valid_migration_file_name("1699999999-create-users.sql"));
    assert!(valid_migration_file_name("a.sql"));
    assert!(!valid_migration_file_name(".hidden.sql"));
    assert!(!valid_migration_file_name(".sql"));
    assert!(!valid_migration_file_name("notes.txt"));
    assert!(!valid_migration_file_name("sql"));
    assert!(!valid_migration_file_name(""));
}
