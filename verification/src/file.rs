//! The migration file format: a line exactly `-- up` opens the up
//! section, a line exactly `-- down` opens the down section, and every
//! other line belongs to the section that is open. Both sections must be
//! present, once each, up first; each SQL body is trimmed of surrounding
//! whitespace.

use crate::error::Error;
use crate::migration::Migration;
use crate::text::{spec_lines, spec_trim, split_lines, str_eq, trim, views_of};
use vstd::prelude::*;

verus! {

/// Where in the file the parser stands: before the `-- up` marker,
/// inside the up section, or inside the down section.
#[derive(Clone, Copy, Debug, PartialEq, Eq, Structural)]
pub enum ParsePhase {
    BeforeUp,
    InUp,
    InDown,
}

/// The ways a migration file can violate the format, each a distinct
/// diagnostic.
#[derive(Clone, Copy, Debug, PartialEq, Eq, Structural)]
pub enum FormatFault {
    /// A `-- down` marker stood before the `-- up` marker.
    UpMustComeFirst,
    /// A second `-- up` marker was found.
    OnlyOneUp,
    /// A second `-- down` marker was found.
    OnlyOneDown,
    /// The file ended without both markers having been seen.
    MissingSection,
}

/// The reason text that each format fault carries.
pub open spec fn fault_text(f: FormatFault) -> Seq<char> {
    match f {
        FormatFault::UpMustComeFirst => "up migration must come first"@,
        FormatFault::OnlyOneUp => "only one up migration allowed"@,
        FormatFault::OnlyOneDown => "only one down migration allowed"@,
        FormatFault::MissingSection => "both up and down migrations must be defined"@,
    }
}

/// One step per line: how the untrimmed up and down bodies grow, and
/// which fault ends the parse, starting from line `i` in the given
/// phase with the given accumulated state.
pub open spec fn spec_parse_lines(
    ls: Seq<Seq<char>>,
    i: int,
    phase: ParsePhase,
    early_down: bool,
    up: Seq<char>,
    down: Seq<char>,
) -> Result<(Seq<char>, Seq<char>), FormatFault>
    decreases ls.len() - i,
{
    if i < 0 || i >= ls.len() {
        if phase is InDown {
            Ok((up, down))
        } else {
            Err(FormatFault::MissingSection)
        }
    } else {
        let l = ls[i];
        if l == "-- up"@ {
            match phase {
                ParsePhase::BeforeUp => if early_down {
                    Err(FormatFault::UpMustComeFirst)
                } else {
                    spec_parse_lines(ls, i + 1, ParsePhase::InUp, early_down, up, down)
                },
                ParsePhase::InUp => Err(FormatFault::OnlyOneUp),
                ParsePhase::InDown => Err(FormatFault::OnlyOneUp),
            }
        } else if l == "-- down"@ {
            match phase {
                ParsePhase::BeforeUp => spec_parse_lines(ls, i + 1, ParsePhase::BeforeUp, true, up, down),
                ParsePhase::InUp => spec_parse_lines(ls, i + 1, ParsePhase::InDown, early_down, up, down),
                ParsePhase::InDown => Err(FormatFault::OnlyOneDown),
            }
        } else {
            match phase {
                ParsePhase::BeforeUp => spec_parse_lines(ls, i + 1, phase, early_down, up, down),
                ParsePhase::InUp => spec_parse_lines(
                    ls,
                    i + 1,
                    phase,
                    early_down,
                    up + l + seq!['\n'],
                    down,
                ),
                ParsePhase::InDown => spec_parse_lines(
                    ls,
                    i + 1,
                    phase,
                    early_down,
                    up,
                    down + l + seq!['\n'],
                ),
            }
        }
    }
}

/// What parsing a whole file yields: the trimmed up and down SQL bodies,
/// or the first format fault.
pub open spec fn spec_parse_migration(s: Seq<char>) -> Result<
    (Seq<char>, Seq<char>),
    FormatFault,
> {
    match spec_parse_lines(
        spec_lines(s),
        0,
        ParsePhase::BeforeUp,
        false,
        Seq::<char>::empty(),
        Seq::<char>::empty(),
    ) {
        Ok(p) => Ok((spec_trim(p.0), spec_trim(p.1))),
        Err(f) => Err(f),
    }
}

/// Parses the contents of a migration file into a `Migration` named
/// `name`, per the `-- up` / `-- down` format; a format fault becomes a
/// `MigrationFileFormatError` carrying `name` and the fault's reason.
pub fn parse_migration(name: String, contents: &str) -> (r: Result<Migration, Error>)
    ensures
        (match spec_parse_migration(contents@) {
            Ok(bodies) => r is Ok && r->Ok_0.name@ == name@ && r->Ok_0.up_sql@ == bodies.0
                && r->Ok_0.down_sql@ == bodies.1,
            Err(f) => r is Err && (r->Err_0 matches Error::MigrationFileFormatError {
                reason,
                name: n,
            } && reason@ == fault_text(f) && n@ == name@),
        }),
{
    let lines = split_lines(contents);
    let ghost gls = views_of(lines@);
    let mut phase = ParsePhase::BeforeUp;
    let mut early_down = false;
    let mut up = String::new();
    let mut down = String::new();
    let mut i: usize = 0;
    proof {
        assert(up@ =~= Seq::<char>::empty());
        assert(down@ =~= Seq::<char>::empty());
    }
    while i < lines.len()
        invariant
            0 <= i <= lines.len(),
            gls == views_of(lines@),
            gls == spec_lines(contents@),
            gls.len() == lines.len(),
            spec_parse_lines(gls, i as int, phase, early_down, up@, down@) == spec_parse_lines(
                gls,
                0,
                ParsePhase::BeforeUp,
                false,
                Seq::<char>::empty(),
                Seq::<char>::empty(),
            ),
        decreases lines.len() - i,
    {
        let line = &lines[i];
        proof {
            assert(gls[i as int] == lines@[i as int]@);
        }
        if str_eq(line.as_str(), "-- up") {
            match phase {
                ParsePhase::BeforeUp => {
                    if early_down {
                        return Err(
                            Error::MigrationFileFormatError {
                                reason: String::from_str("up migration must come first"),
                                name,
                            },
                        );
                    } else {
                        phase = ParsePhase::InUp;
                    }
                },
                ParsePhase::InUp => {
                    return Err(
                        Error::MigrationFileFormatError {
                            reason: String::from_str("only one up migration allowed"),
                            name,
                        },
                    );
                },
                ParsePhase::InDown => {
                    return Err(
                        Error::MigrationFileFormatError {
                            reason: String::from_str("only one up migration allowed"),
                            name,
                        },
                    );
                },
            }
        } else if str_eq(line.as_str(), "-- down") {
            match phase {
                ParsePhase::BeforeUp => {
                    early_down = true;
                },
                ParsePhase::InUp => {
                    phase = ParsePhase::InDown;
                },
                ParsePhase::InDown => {
                    return Err(
                        Error::MigrationFileFormatError {
                            reason: String::from_str("only one down migration allowed"),
                            name,
                        },
                    );
                },
            }
        } else {
            match phase {
                ParsePhase::BeforeUp => {},
                ParsePhase::InUp => {
                    let ghost up0 = up@;
                    up.append(line.as_str());
                    up.append("\n");
                    proof {
                        reveal_strlit("\n");
                        assert("\n"@ =~= seq!['\n']);
                        assert(up@ =~= up0 + gls[i as int] + seq!['\n']);
                    }
                },
                ParsePhase::InDown => {
                    let ghost down0 = down@;
                    down.append(line.as_str());
                    down.append("\n");
                    proof {
                        reveal_strlit("\n");
                        assert("\n"@ =~= seq!['\n']);
                        assert(down@ =~= down0 + gls[i as int] + seq!['\n']);
                    }
                },
            }
        }
        i = i + 1;
    }
    match phase {
        ParsePhase::InDown => {
            let up_sql = String::from_str(trim(up.as_str()));
            let down_sql = String::from_str(trim(down.as_str()));
            Ok(Migration { up_sql, down_sql, name })
        },
        _ => Err(
            Error::MigrationFileFormatError {
                reason: String::from_str("both up and down migrations must be defined"),
                name,
            },
        ),
    }
}

/// Whether a file name is one the definition loader reads: not hidden,
/// and carrying the `.sql` extension.
pub open spec fn spec_valid_migration_file_name(name: Seq<char>) -> bool {
    name.len() >= 4 && name.subrange(name.len() - 4, name.len() as int) == ".sql"@ && name[0]
        != '.'
}

/// Decides whether a directory entry's file name names a migration
/// source: it must end in `.sql` and must not start with a dot.
pub fn valid_migration_file_name(name: &str) -> (r: bool)
    ensures
        r == spec_valid_migration_file_name(name@),
{
    let len = name.unicode_len();
    if len < 4 {
        return false;
    }
    if name.get_char(0) == '.' {
        return false;
    }
    let suffix = name.substring_char(len - 4, len);
    str_eq(suffix, ".sql")
}

} // verus!
