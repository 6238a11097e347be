//! The data model: a migration as defined on disk, and a migration as
//! recorded in the ledger after it was applied.

use vstd::prelude::*;

verus! {

/// A migration definition: the name and the two SQL bodies.
///
/// The name is the defining file's base name; ordering and identity go
/// by it alone. Callers are expected to prefix names with an increasing
/// timestamp so that lexical order equals chronological order.
#[derive(Debug, PartialEq, Eq)]
pub struct Migration {
    pub up_sql: String,
    pub down_sql: String,
    pub name: String,
}

/// The bookkeeping columns of a ledger row: the assigned id and the
/// creation time, in seconds since the Unix epoch.
#[derive(Debug, PartialEq, Eq, Clone, Copy)]
pub struct MigrationMeta {
    pub id: i32,
    pub created_at: u64,
}

/// A ledger record: the migration content as it was when applied, plus
/// the bookkeeping columns.
#[derive(Debug, PartialEq, Eq)]
pub struct MigrationWithMeta {
    pub migration: Migration,
    pub meta: MigrationMeta,
}

impl Clone for Migration {
    /// Yields a migration equal to this one.
    fn clone(&self) -> (r: Self)
        ensures
            r == *self,
    {
        Migration {
            up_sql: self.up_sql.clone(),
            down_sql: self.down_sql.clone(),
            name: self.name.clone(),
        }
    }
}

impl Clone for MigrationWithMeta {
    /// Yields a record equal to this one.
    fn clone(&self) -> (r: Self)
        ensures
            r == *self,
    {
        MigrationWithMeta { migration: self.migration.clone(), meta: self.meta }
    }
}

/// Whether two migrations carry the same name and the same SQL, compared
/// character for character.
pub open spec fn same_content(a: Migration, b: Migration) -> bool {
    a.name@ == b.name@ && a.up_sql@ == b.up_sql@ && a.down_sql@ == b.down_sql@
}

impl Migration {
    /// Compares this migration to another by name and SQL bodies.
    pub fn content_eq(&self, other: &Migration) -> (r: bool)
        ensures
            r == same_content(*self, *other),
    {
        crate::text::str_eq(self.name.as_str(), other.name.as_str())
            && crate::text::str_eq(self.up_sql.as_str(), other.up_sql.as_str())
            && crate::text::str_eq(self.down_sql.as_str(), other.down_sql.as_str())
    }
}

} // verus!
