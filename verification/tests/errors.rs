use fly::error::Error;

#[test]
fn test_error_messages() {
    assert_eq!(
        Error::MissingEnv {
            name: "PG_HOST".to_string()
        }
        .message(),
        "required environment variable PG_HOST not set"
    );
    assert_eq!(
        Error::BadEnvFormat {
            name: "PG_PORT".to_string()
        }
        .message(),
        "environment variable PG_PORT could not be parsed"
    );
    assert_eq!(Error::FilenameRequired.message(), "no filename given");
    assert_eq!(
        Error::FilenameBadEncoding.message(),
        "filename must be utf-8 encoded"
    );
    assert_eq!(
        Error::MigrationFileFormatError {
            reason: "only one up migration allowed".to_string(),
            name: "foo".to_string()
        }
        .message(),
        "bad migration file format in foo: only one up migration allowed"
    );
    assert_eq!(
        Error::ConflictingFlags.message(),
        "cannot specify both --recover and --ignore-changed, aborting"
    );
    assert_eq!(
        Error::MigrationNotFound {
            name: "m".to_string()
        }
        .message(),
        "couldn't find migration m"
    );
    assert_eq!(
        Error::MigrationChanged {
            name: "m".to_string()
        }
        .message(),
        "m has changed, aborting. Use the --recover flag to run the down sql stored in the database."
    );
    assert_eq!(
        Error::MigrationRemoved {
            name: "m".to_string()
        }
        .message(),
        "m was removed, aborting. Use the --recover flag to run the down sql stored in the database."
    );
    assert_eq!(
        Error::RollbackPending {
            name: "m".to_string()
        }
        .message(),
        "can't roll back a pending migration m"
    );
}
