//! The reconciliation engine and the revert policy.
//!
//! Reconciliation is a pure function from the on-disk definitions and
//! the ledger records to one classified state per migration name,
//! ordered ascending by name. The revert policy then picks which SQL a
//! `down` must run, or refuses with a precise diagnostic.

use crate::error::Error;
use crate::migration::{same_content, Migration, MigrationWithMeta};
use crate::text::{lemma_lex_lt_asymmetric, lemma_lex_lt_connected, lemma_lex_lt_irreflexive,
    lemma_lex_lt_transitive, lex_lt, str_eq, str_lt, views_of};
use vstd::prelude::*;

verus! {

/// A migration name's classification: how its on-disk definition
/// relates to the ledger's record of it.
#[derive(Debug, PartialEq, Eq)]
pub enum ApplicationState {
    /// Defined on disk, never applied.
    Pending { definition: Migration },
    /// Defined and applied, content identical.
    Applied { definition: Migration, application: MigrationWithMeta },
    /// Defined and applied, but the SQL on disk differs from what ran.
    Changed { definition: Migration, application: MigrationWithMeta },
    /// Applied, but the defining file is gone.
    Removed { application: MigrationWithMeta },
}

/// The name a state is about.
pub open spec fn spec_state_name(s: ApplicationState) -> Seq<char> {
    match s {
        ApplicationState::Pending { definition } => definition.name@,
        ApplicationState::Applied { definition, application } => definition.name@,
        ApplicationState::Changed { definition, application } => definition.name@,
        ApplicationState::Removed { application } => application.migration.name@,
    }
}

impl ApplicationState {
    /// Whether this migration is defined but not applied.
    pub fn is_pending(&self) -> (r: bool)
        ensures
            r == (*self is Pending),
    {
        matches!(self, ApplicationState::Pending { .. })
    }

    /// Whether this migration is applied with identical content.
    pub fn is_applied(&self) -> (r: bool)
        ensures
            r == (*self is Applied),
    {
        matches!(self, ApplicationState::Applied { .. })
    }

    /// Whether this migration is applied but its file has changed.
    pub fn is_changed(&self) -> (r: bool)
        ensures
            r == (*self is Changed),
    {
        matches!(self, ApplicationState::Changed { .. })
    }

    /// Whether this migration is applied but its file is gone.
    pub fn is_removed(&self) -> (r: bool)
        ensures
            r == (*self is Removed),
    {
        matches!(self, ApplicationState::Removed { .. })
    }

    /// The name of the migration this state is about.
    pub fn name(&self) -> (r: &str)
        ensures
            r@ == spec_state_name(*self),
    {
        match self {
            ApplicationState::Pending { definition } => definition.name.as_str(),
            ApplicationState::Applied { definition, application } => definition.name.as_str(),
            ApplicationState::Changed { definition, application } => definition.name.as_str(),
            ApplicationState::Removed { application } => application.migration.name.as_str(),
        }
    }
}

/// The status line a state renders to.
pub open spec fn spec_render(s: ApplicationState) -> Seq<char> {
    match s {
        ApplicationState::Pending { definition } => definition.name@ + " [pending]"@,
        ApplicationState::Applied { definition, application } => definition.name@ + " [applied]"@,
        ApplicationState::Changed { definition, application } => definition.name@
            + " ** CHANGED **"@,
        ApplicationState::Removed { application } => application.migration.name@
            + " ** NO FILE **"@,
    }
}

impl ApplicationState {
    /// Renders the state as the line the status report prints.
    pub fn render(&self) -> (r: String)
        ensures
            r@ == spec_render(*self),
    {
        match self {
            ApplicationState::Pending { definition } => {
                let mut s = definition.name.clone();
                s.append(" [pending]");
                s
            },
            ApplicationState::Applied { definition, application } => {
                let mut s = definition.name.clone();
                s.append(" [applied]");
                s
            },
            ApplicationState::Changed { definition, application } => {
                let mut s = definition.name.clone();
                s.append(" ** CHANGED **");
                s
            },
            ApplicationState::Removed { application } => {
                let mut s = application.migration.name.clone();
                s.append(" ** NO FILE **");
                s
            },
        }
    }
}

/// Whether some definition carries this name.
pub open spec fn defs_has(defs: Seq<Migration>, name: Seq<char>) -> bool {
    exists|i: int| 0 <= i < defs.len() && defs[i].name@ == name
}

/// The definition carrying this name (meaningful when names are unique).
pub open spec fn def_at(defs: Seq<Migration>, name: Seq<char>) -> Migration {
    defs[choose|i: int| 0 <= i < defs.len() && defs[i].name@ == name]
}

/// Whether some record carries this name.
pub open spec fn recs_has(recs: Seq<MigrationWithMeta>, name: Seq<char>) -> bool {
    exists|i: int| 0 <= i < recs.len() && recs[i].migration.name@ == name
}

/// The record carrying this name (meaningful when names are unique).
pub open spec fn rec_at(recs: Seq<MigrationWithMeta>, name: Seq<char>) -> MigrationWithMeta {
    recs[choose|i: int| 0 <= i < recs.len() && recs[i].migration.name@ == name]
}

/// No two definitions share a name.
pub open spec fn unique_def_names(defs: Seq<Migration>) -> bool {
    forall|i: int, j: int| 0 <= i < j < defs.len() ==> defs[i].name@ != defs[j].name@
}

/// No two records share a name.
pub open spec fn unique_rec_names(recs: Seq<MigrationWithMeta>) -> bool {
    forall|i: int, j: int|
        0 <= i < j < recs.len() ==> recs[i].migration.name@ != recs[j].migration.name@
}

/// How a name present in the definitions, the records, or both is
/// classified: by presence, and for a name present in both, by whether
/// the content matches.
pub open spec fn state_of(
    defs: Seq<Migration>,
    recs: Seq<MigrationWithMeta>,
    name: Seq<char>,
) -> ApplicationState {
    if defs_has(defs, name) && recs_has(recs, name) {
        let d = def_at(defs, name);
        let a = rec_at(recs, name);
        if same_content(d, a.migration) {
            ApplicationState::Applied { definition: d, application: a }
        } else {
            ApplicationState::Changed { definition: d, application: a }
        }
    } else if defs_has(defs, name) {
        ApplicationState::Pending { definition: def_at(defs, name) }
    } else {
        ApplicationState::Removed { application: rec_at(recs, name) }
    }
}

/// What reconciliation promises: every element is the classification of
/// its own name, every name present in either input appears, and the
/// list ascends strictly by name (so each name appears exactly once).
pub open spec fn reconciled(
    defs: Seq<Migration>,
    recs: Seq<MigrationWithMeta>,
    out: Seq<ApplicationState>,
) -> bool {
    &&& forall|k: int|
        0 <= k < out.len() ==> defs_has(defs, spec_state_name(#[trigger] out[k])) || recs_has(
            recs,
            spec_state_name(out[k]),
        )
    &&& forall|k: int|
        0 <= k < out.len() ==> #[trigger] out[k] == state_of(defs, recs, spec_state_name(out[k]))
    &&& forall|name: Seq<char>|
        #[trigger] defs_has(defs, name) ==> exists|k: int|
            0 <= k < out.len() && spec_state_name(#[trigger] out[k]) == name
    &&& forall|name: Seq<char>|
        #[trigger] recs_has(recs, name) ==> exists|k: int|
            0 <= k < out.len() && spec_state_name(#[trigger] out[k]) == name
    &&& forall|k1: int, k2: int|
        0 <= k1 < k2 < out.len() ==> lex_lt(
            spec_state_name(#[trigger] out[k1]),
            spec_state_name(#[trigger] out[k2]),
        )
}

/// A strictly ascending sequence of names.
pub open spec fn strictly_sorted(v: Seq<Seq<char>>) -> bool {
    forall|i: int, j: int| 0 <= i < j < v.len() ==> lex_lt(#[trigger] v[i], #[trigger] v[j])
}

/// Puts `name` into the ascending name list, keeping it ascending and
/// duplicate-free.
fn insert_name(names: &mut Vec<String>, name: &str)
    requires
        strictly_sorted(views_of(old(names)@)),
    ensures
        strictly_sorted(views_of(final(names)@)),
        forall|s: Seq<char>|
            views_of(final(names)@).contains(s) <==> (views_of(old(names)@).contains(s) || s
                == name@),
{
    let ghost v0 = views_of(names@);
    let mut idx: usize = 0;
    while idx < names.len() && str_lt(names[idx].as_str(), name)
        invariant
            strictly_sorted(v0),
            v0 == views_of(names@),
            0 <= idx <= names.len(),
            v0.len() == names.len(),
            forall|j: int| 0 <= j < idx ==> lex_lt(#[trigger] v0[j], name@),
        decreases names.len() - idx,
    {
        idx = idx + 1;
    }
    if idx < names.len() && str_eq(names[idx].as_str(), name) {
        proof {
            assert(v0[idx as int] == name@);
            assert(v0.contains(name@));
        }
        return ;
    }
    proof {
        if idx < names.len() {
            lemma_lex_lt_connected(v0[idx as int], name@);
            assert(lex_lt(name@, v0[idx as int]));
        }
        assert forall|j: int| idx <= j < v0.len() implies lex_lt(name@, #[trigger] v0[j]) by {
            if j > idx {
                lemma_lex_lt_transitive(name@, v0[idx as int], v0[j]);
            }
        }
    }
    names.insert(idx, name.to_owned());
    proof {
        let v1 = views_of(names@);
        assert(v1 =~= v0.insert(idx as int, name@));
        assert forall|i: int, j: int| 0 <= i < j < v1.len() implies lex_lt(
            #[trigger] v1[i],
            #[trigger] v1[j],
        ) by {
            assert(v1[idx as int] == name@);
            if i < idx {
                assert(v1[i] == v0[i]);
            }
            if j < idx {
                assert(v1[j] == v0[j]);
            }
            if i > idx {
                assert(v1[i] == v0[i - 1]);
            }
            if j > idx {
                assert(v1[j] == v0[j - 1]);
            }
        }
        assert forall|s: Seq<char>| v1.contains(s) <==> (v0.contains(s) || s == name@) by {
            if v1.contains(s) {
                let i = choose|i: int| 0 <= i < v1.len() && v1[i] == s;
                if i < idx {
                    assert(v0[i] == s);
                    assert(v0.contains(s));
                } else if i > idx {
                    assert(v0[i - 1] == s);
                    assert(v0.contains(s));
                }
            }
            if v0.contains(s) {
                let i = choose|i: int| 0 <= i < v0.len() && v0[i] == s;
                if i < idx {
                    assert(v1[i] == s);
                } else {
                    assert(v1[i + 1] == s);
                }
                assert(v1.contains(s));
            }
            assert(v1[idx as int] == name@);
            assert(v1.contains(name@));
        }
    }
}

/// Finds the definition carrying `name`, if any.
fn find_def<'a>(defs: &'a Vec<Migration>, name: &str) -> (r: Option<&'a Migration>)
    ensures
        r is Some <==> defs_has(defs@, name@),
        (r matches Some(d) ==> d.name@ == name@ && exists|i: int|
            0 <= i < defs@.len() && defs@[i] == *d),
{
    let mut i: usize = 0;
    while i < defs.len()
        invariant
            0 <= i <= defs.len(),
            forall|j: int| 0 <= j < i ==> defs@[j].name@ != name@,
        decreases defs.len() - i,
    {
        if str_eq(defs[i].name.as_str(), name) {
            proof {
                assert(defs@[i as int].name@ == name@);
            }
            return Some(&defs[i]);
        }
        i = i + 1;
    }
    None
}

/// Finds the record carrying `name`, if any.
fn find_rec<'a>(recs: &'a Vec<MigrationWithMeta>, name: &str) -> (r: Option<&'a MigrationWithMeta>)
    ensures
        r is Some <==> recs_has(recs@, name@),
        (r matches Some(a) ==> a.migration.name@ == name@ && exists|i: int|
            0 <= i < recs@.len() && recs@[i] == *a),
{
    let mut i: usize = 0;
    while i < recs.len()
        invariant
            0 <= i <= recs.len(),
            forall|j: int| 0 <= j < i ==> recs@[j].migration.name@ != name@,
        decreases recs.len() - i,
    {
        if str_eq(recs[i].migration.name.as_str(), name) {
            proof {
                assert(recs@[i as int].migration.name@ == name@);
            }
            return Some(&recs[i]);
        }
        i = i + 1;
    }
    None
}

/// With unique names, the definition any index finds is the one
/// `def_at` denotes.
proof fn lemma_def_at(defs: Seq<Migration>, name: Seq<char>, i: int)
    requires
        unique_def_names(defs),
        0 <= i < defs.len(),
        defs[i].name@ == name,
    ensures
        defs_has(defs, name),
        def_at(defs, name) == defs[i],
{
    let j = choose|j: int| 0 <= j < defs.len() && defs[j].name@ == name;
    if i != j {
        assert(defs[i].name@ != defs[j].name@);
    }
}

/// With unique names, the record any index finds is the one `rec_at`
/// denotes.
proof fn lemma_rec_at(recs: Seq<MigrationWithMeta>, name: Seq<char>, i: int)
    requires
        unique_rec_names(recs),
        0 <= i < recs.len(),
        recs[i].migration.name@ == name,
    ensures
        recs_has(recs, name),
        rec_at(recs, name) == recs[i],
{
    let j = choose|j: int| 0 <= j < recs.len() && recs[j].migration.name@ == name;
    if i != j {
        assert(recs[i].migration.name@ != recs[j].migration.name@);
    }
}

/// Reconciles the on-disk definitions against the ledger records:
/// classifies every name present in either input, in ascending name
/// order. The inputs' own order carries no meaning; names must be
/// unique within each input, as a directory listing and the ledger's
/// unique-name constraint guarantee.
pub fn get_all_migration_state_impl(
    definitions: Vec<Migration>,
    applications: Vec<MigrationWithMeta>,
) -> (r: Vec<ApplicationState>)
    requires
        unique_def_names(definitions@),
        unique_rec_names(applications@),
    ensures
        reconciled(definitions@, applications@, r@),
        r@.len() == all_names(definitions@, applications@).len(),
{
    let mut names: Vec<String> = Vec::new();
    let mut i: usize = 0;
    while i < definitions.len()
        invariant
            0 <= i <= definitions.len(),
            strictly_sorted(views_of(names@)),
            forall|s: Seq<char>|
                views_of(names@).contains(s) <==> exists|j: int|
                    0 <= j < i && #[trigger] definitions@[j].name@ == s,
        decreases definitions.len() - i,
    {
        insert_name(&mut names, definitions[i].name.as_str());
        i = i + 1;
    }
    let mut i: usize = 0;
    while i < applications.len()
        invariant
            0 <= i <= applications.len(),
            strictly_sorted(views_of(names@)),
            forall|s: Seq<char>|
                views_of(names@).contains(s) <==> defs_has(definitions@, s) || exists|j: int|
                    0 <= j < i && #[trigger] applications@[j].migration.name@ == s,
        decreases applications.len() - i,
    {
        let ghost vbefore = views_of(names@);
        let ghost i0 = i as int;
        insert_name(&mut names, applications[i].migration.name.as_str());
        i = i + 1;
        proof {
            let nm_i = applications@[i0].migration.name@;
            assert forall|s: Seq<char>|
                views_of(names@).contains(s) <==> (defs_has(definitions@, s) || (exists|j: int|
                    0 <= j < i && #[trigger] applications@[j].migration.name@ == s)) by {
                if defs_has(definitions@, s) {
                    assert(vbefore.contains(s));
                    assert(views_of(names@).contains(s));
                }
                if exists|j: int| 0 <= j < i && #[trigger] applications@[j].migration.name@
                    == s {
                    let j = choose|j: int|
                        0 <= j < i && #[trigger] applications@[j].migration.name@ == s;
                    if j < i0 {
                        assert(vbefore.contains(s));
                    }
                    assert(views_of(names@).contains(s));
                }
                if views_of(names@).contains(s) {
                    if vbefore.contains(s) {
                        if !defs_has(definitions@, s) {
                            let j = choose|j: int|
                                0 <= j < i0 && #[trigger] applications@[j].migration.name@ == s;
                            assert(0 <= j < i && applications@[j].migration.name@ == s);
                        }
                    } else {
                        assert(s == nm_i);
                        assert(0 <= i0 < i && applications@[i0].migration.name@ == s);
                    }
                }
            }
        }
    }
    proof {
        assert(forall|s: Seq<char>|
            views_of(names@).contains(s) <==> defs_has(definitions@, s) || recs_has(
                applications@,
                s,
            ));
    }
    let ghost nv = views_of(names@);
    let mut out: Vec<ApplicationState> = Vec::new();
    let mut k: usize = 0;
    while k < names.len()
        invariant
            0 <= k <= names.len(),
            nv == views_of(names@),
            nv.len() == names.len(),
            unique_def_names(definitions@),
            unique_rec_names(applications@),
            strictly_sorted(nv),
            forall|s: Seq<char>|
                nv.contains(s) <==> defs_has(definitions@, s) || recs_has(applications@, s),
            out.len() == k,
            forall|m: int|
                0 <= m < k ==> spec_state_name(#[trigger] out@[m]) == nv[m] && out@[m] == state_of(
                    definitions@,
                    applications@,
                    nv[m],
                ),
        decreases names.len() - k,
    {
        let nm = names[k].as_str();
        proof {
            assert(nv[k as int] == names@[k as int]@);
            assert(nv.contains(nv[k as int]));
        }
        let d_opt = find_def(&definitions, nm);
        let a_opt = find_rec(&applications, nm);
        let st = match (d_opt, a_opt) {
            (Some(d), Some(a)) => {
                proof {
                    let di = choose|i: int|
                        0 <= i < definitions@.len() && definitions@[i] == *d;
                    lemma_def_at(definitions@, nm@, di);
                    let ai = choose|i: int|
                        0 <= i < applications@.len() && applications@[i] == *a;
                    lemma_rec_at(applications@, nm@, ai);
                }
                if d.content_eq(&a.migration) {
                    ApplicationState::Applied { definition: d.clone(), application: a.clone() }
                } else {
                    ApplicationState::Changed { definition: d.clone(), application: a.clone() }
                }
            },
            (Some(d), None) => {
                proof {
                    let di = choose|i: int|
                        0 <= i < definitions@.len() && definitions@[i] == *d;
                    lemma_def_at(definitions@, nm@, di);
                }
                ApplicationState::Pending { definition: d.clone() }
            },
            (None, Some(a)) => {
                proof {
                    let ai = choose|i: int|
                        0 <= i < applications@.len() && applications@[i] == *a;
                    lemma_rec_at(applications@, nm@, ai);
                }
                ApplicationState::Removed { application: a.clone() }
            },
            (None, None) => {
                proof {
                    assert(false);
                }
                vstd::pervasive::unreached()
            },
        };
        proof {
            assert(spec_state_name(st) == nv[k as int]);
            assert(st == state_of(definitions@, applications@, nv[k as int]));
        }
        out.push(st);
        k = k + 1;
    }
    proof {
        assert forall|name: Seq<char>| #[trigger]
            defs_has(definitions@, name) implies exists|m: int|
            0 <= m < out@.len() && spec_state_name(#[trigger] out@[m]) == name by {
            assert(nv.contains(name));
            let m = choose|m: int| 0 <= m < nv.len() && nv[m] == name;
            assert(spec_state_name(out@[m]) == name);
        }
        assert forall|name: Seq<char>| #[trigger]
            recs_has(applications@, name) implies exists|m: int|
            0 <= m < out@.len() && spec_state_name(#[trigger] out@[m]) == name by {
            assert(nv.contains(name));
            let m = choose|m: int| 0 <= m < nv.len() && nv[m] == name;
            assert(spec_state_name(out@[m]) == name);
        }
        assert forall|m: int|
            0 <= m < out@.len() implies defs_has(definitions@, spec_state_name(#[trigger] out@[m]))
            || recs_has(applications@, spec_state_name(out@[m])) by {
            assert(nv.contains(nv[m]));
        }
        lemma_reconcile_len(definitions@, applications@, out@);
    }
    out
}

/// Classification by presence and content, read off a reconciled list:
/// a name only defined is pending; only recorded, removed; present in
/// both with identical content, applied; present in both with content
/// differing, changed.
pub proof fn lemma_classification(
    defs: Seq<Migration>,
    recs: Seq<MigrationWithMeta>,
    out: Seq<ApplicationState>,
    k: int,
)
    requires
        reconciled(defs, recs, out),
        0 <= k < out.len(),
    ensures
        ({
            let n = spec_state_name(out[k]);
            &&& (defs_has(defs, n) && !recs_has(recs, n) ==> out[k]
                == ApplicationState::Pending { definition: def_at(defs, n) })
            &&& (!defs_has(defs, n) && recs_has(recs, n) ==> out[k]
                == ApplicationState::Removed { application: rec_at(recs, n) })
            &&& (defs_has(defs, n) && recs_has(recs, n) && same_content(
                def_at(defs, n),
                rec_at(recs, n).migration,
            ) ==> out[k] == ApplicationState::Applied {
                definition: def_at(defs, n),
                application: rec_at(recs, n),
            })
            &&& (defs_has(defs, n) && recs_has(recs, n) && !same_content(
                def_at(defs, n),
                rec_at(recs, n).migration,
            ) ==> out[k] == ApplicationState::Changed {
                definition: def_at(defs, n),
                application: rec_at(recs, n),
            })
        }),
{
    assert(out[k] == state_of(defs, recs, spec_state_name(out[k])));
}

/// Reconciling empty inputs yields the empty list.
pub proof fn lemma_reconcile_empty(out: Seq<ApplicationState>)
    requires
        reconciled(Seq::<Migration>::empty(), Seq::<MigrationWithMeta>::empty(), out),
    ensures
        out == Seq::<ApplicationState>::empty(),
{
    if out.len() > 0 {
        assert(defs_has(Seq::<Migration>::empty(), spec_state_name(out[0])) || recs_has(
            Seq::<MigrationWithMeta>::empty(),
            spec_state_name(out[0]),
        ));
        assert(false);
    }
    assert(out =~= Seq::<ApplicationState>::empty());
}

/// Whether some state in the list carries this name.
pub open spec fn has_name(out: Seq<ApplicationState>, n: Seq<char>) -> bool {
    exists|k: int| 0 <= k < out.len() && spec_state_name(#[trigger] out[k]) == n
}

/// Two strictly name-sorted lists that carry the same names, with each
/// element determined by its own name, are the same list.
proof fn lemma_sorted_same(o1: Seq<ApplicationState>, o2: Seq<ApplicationState>)
    requires
        forall|k1: int, k2: int|
            0 <= k1 < k2 < o1.len() ==> lex_lt(
                spec_state_name(#[trigger] o1[k1]),
                spec_state_name(#[trigger] o1[k2]),
            ),
        forall|k1: int, k2: int|
            0 <= k1 < k2 < o2.len() ==> lex_lt(
                spec_state_name(#[trigger] o2[k1]),
                spec_state_name(#[trigger] o2[k2]),
            ),
        forall|n: Seq<char>|
            #![trigger has_name(o1, n)]
            #![trigger has_name(o2, n)]
            has_name(o1, n) <==> has_name(o2, n),
        forall|k1: int, k2: int|
            0 <= k1 < o1.len() && 0 <= k2 < o2.len() && spec_state_name(#[trigger] o1[k1])
                == spec_state_name(#[trigger] o2[k2]) ==> o1[k1] == o2[k2],
    ensures
        o1 == o2,
    decreases o1.len(),
{
    if o1.len() == 0 {
        if o2.len() > 0 {
            let n = spec_state_name(o2[0]);
            assert(has_name(o2, n));
            assert(false);
        }
        assert(o1 =~= o2);
    } else {
        let n0 = spec_state_name(o1[0]);
        assert(has_name(o1, n0));
        let k = choose|k: int| 0 <= k < o2.len() && spec_state_name(#[trigger] o2[k]) == n0;
        if k > 0 {
            let m0 = spec_state_name(o2[0]);
            assert(has_name(o2, m0));
            let j = choose|j: int| 0 <= j < o1.len() && spec_state_name(#[trigger] o1[j]) == m0;
            assert(lex_lt(m0, n0));
            if j == 0 {
                lemma_lex_lt_irreflexive(n0);
            } else {
                assert(lex_lt(n0, m0));
                lemma_lex_lt_asymmetric(n0, m0);
            }
            assert(false);
        }
        assert(o2.len() > 0 && spec_state_name(o2[0]) == n0);
        assert(o1[0] == o2[0]);
        let t1 = o1.drop_first();
        let t2 = o2.drop_first();
        assert forall|k1: int, k2: int| 0 <= k1 < k2 < t1.len() implies lex_lt(
            spec_state_name(#[trigger] t1[k1]),
            spec_state_name(#[trigger] t1[k2]),
        ) by {
            assert(t1[k1] == o1[k1 + 1] && t1[k2] == o1[k2 + 1]);
        }
        assert forall|k1: int, k2: int| 0 <= k1 < k2 < t2.len() implies lex_lt(
            spec_state_name(#[trigger] t2[k1]),
            spec_state_name(#[trigger] t2[k2]),
        ) by {
            assert(t2[k1] == o2[k1 + 1] && t2[k2] == o2[k2 + 1]);
        }
        assert forall|n: Seq<char>|
            #![trigger has_name(t1, n)]
            #![trigger has_name(t2, n)]
            has_name(t1, n) <==> has_name(t2, n) by {
            if has_name(t1, n) {
                let k1 = choose|k: int|
                    0 <= k < t1.len() && spec_state_name(#[trigger] t1[k]) == n;
                assert(t1[k1] == o1[k1 + 1]);
                assert(lex_lt(n0, n));
                assert(has_name(o1, n));
                let k2 = choose|k: int|
                    0 <= k < o2.len() && spec_state_name(#[trigger] o2[k]) == n;
                if k2 == 0 {
                    lemma_lex_lt_irreflexive(n0);
                }
                assert(t2[k2 - 1] == o2[k2]);
                assert(has_name(t2, n));
            }
            if has_name(t2, n) {
                let k1 = choose|k: int|
                    0 <= k < t2.len() && spec_state_name(#[trigger] t2[k]) == n;
                assert(t2[k1] == o2[k1 + 1]);
                assert(lex_lt(n0, n));
                assert(has_name(o2, n));
                let k2 = choose|k: int|
                    0 <= k < o1.len() && spec_state_name(#[trigger] o1[k]) == n;
                if k2 == 0 {
                    lemma_lex_lt_irreflexive(n0);
                }
                assert(t1[k2 - 1] == o1[k2]);
                assert(has_name(t1, n));
            }
        }
        assert forall|k1: int, k2: int|
            0 <= k1 < t1.len() && 0 <= k2 < t2.len() && spec_state_name(#[trigger] t1[k1])
                == spec_state_name(#[trigger] t2[k2]) implies t1[k1] == t2[k2] by {
            assert(t1[k1] == o1[k1 + 1] && t2[k2] == o2[k2 + 1]);
        }
        lemma_sorted_same(t1, t2);
        assert forall|i: int| 0 <= i < o1.len() implies o1[i] == o2[i] by {
            if i > 0 {
                assert(t1[i - 1] == o1[i] && t2[i - 1] == o2[i]);
            }
        }
        assert(o1.len() == o2.len());
        assert(o1 =~= o2);
    }
}

/// Reconciliation is a function of its inputs: any two lists satisfying
/// the reconciliation contract for the same inputs are equal.
pub proof fn lemma_reconcile_deterministic(
    defs: Seq<Migration>,
    recs: Seq<MigrationWithMeta>,
    o1: Seq<ApplicationState>,
    o2: Seq<ApplicationState>,
)
    requires
        reconciled(defs, recs, o1),
        reconciled(defs, recs, o2),
    ensures
        o1 == o2,
{
    assert forall|n: Seq<char>|
        #![trigger has_name(o1, n)]
        #![trigger has_name(o2, n)]
        has_name(o1, n) <==> has_name(o2, n) by {
        if has_name(o1, n) {
            let k = choose|k: int| 0 <= k < o1.len() && spec_state_name(#[trigger] o1[k]) == n;
            assert(defs_has(defs, n) || recs_has(recs, n));
            assert(has_name(o2, n));
        }
        if has_name(o2, n) {
            let k = choose|k: int| 0 <= k < o2.len() && spec_state_name(#[trigger] o2[k]) == n;
            assert(defs_has(defs, n) || recs_has(recs, n));
            assert(has_name(o1, n));
        }
    }
    assert forall|k1: int, k2: int|
        0 <= k1 < o1.len() && 0 <= k2 < o2.len() && spec_state_name(#[trigger] o1[k1])
            == spec_state_name(#[trigger] o2[k2]) implies o1[k1] == o2[k2] by {
        assert(o1[k1] == state_of(defs, recs, spec_state_name(o1[k1])));
        assert(o2[k2] == state_of(defs, recs, spec_state_name(o2[k2])));
    }
    lemma_sorted_same(o1, o2);
}

/// Presence and identity of a named definition depend only on which
/// definitions are in the list, not on their order.
proof fn lemma_defs_has_permuted(d1: Seq<Migration>, d2: Seq<Migration>, n: Seq<char>)
    requires
        unique_def_names(d1),
        unique_def_names(d2),
        d1.to_multiset() == d2.to_multiset(),
    ensures
        defs_has(d1, n) == defs_has(d2, n),
        defs_has(d1, n) ==> def_at(d1, n) == def_at(d2, n),
{
    broadcast use vstd::seq_lib::group_to_multiset_ensures;

    if defs_has(d1, n) {
        let i = choose|i: int| 0 <= i < d1.len() && d1[i].name@ == n;
        assert(d1.contains(d1[i]));
        assert(d1.to_multiset().contains(d1[i]));
        assert(d2.to_multiset().contains(d1[i]));
        assert(d2.contains(d1[i]));
        let j = choose|j: int| 0 <= j < d2.len() && d2[j] == d1[i];
        lemma_def_at(d1, n, i);
        lemma_def_at(d2, n, j);
    }
    if defs_has(d2, n) {
        let i = choose|i: int| 0 <= i < d2.len() && d2[i].name@ == n;
        assert(d2.contains(d2[i]));
        assert(d2.to_multiset().contains(d2[i]));
        assert(d1.to_multiset().contains(d2[i]));
        assert(d1.contains(d2[i]));
        let j = choose|j: int| 0 <= j < d1.len() && d1[j] == d2[i];
        assert(defs_has(d1, n));
    }
}

/// Presence and identity of a named record depend only on which records
/// are in the list, not on their order.
proof fn lemma_recs_has_permuted(r1: Seq<MigrationWithMeta>, r2: Seq<MigrationWithMeta>, n: Seq<char>)
    requires
        unique_rec_names(r1),
        unique_rec_names(r2),
        r1.to_multiset() == r2.to_multiset(),
    ensures
        recs_has(r1, n) == recs_has(r2, n),
        recs_has(r1, n) ==> rec_at(r1, n) == rec_at(r2, n),
{
    broadcast use vstd::seq_lib::group_to_multiset_ensures;

    if recs_has(r1, n) {
        let i = choose|i: int| 0 <= i < r1.len() && r1[i].migration.name@ == n;
        assert(r1.contains(r1[i]));
        assert(r1.to_multiset().contains(r1[i]));
        assert(r2.to_multiset().contains(r1[i]));
        assert(r2.contains(r1[i]));
        let j = choose|j: int| 0 <= j < r2.len() && r2[j] == r1[i];
        lemma_rec_at(r1, n, i);
        lemma_rec_at(r2, n, j);
    }
    if recs_has(r2, n) {
        let i = choose|i: int| 0 <= i < r2.len() && r2[i].migration.name@ == n;
        assert(r2.contains(r2[i]));
        assert(r2.to_multiset().contains(r2[i]));
        assert(r1.to_multiset().contains(r2[i]));
        assert(r1.contains(r2[i]));
        let j = choose|j: int| 0 <= j < r1.len() && r1[j] == r2[i];
        assert(recs_has(r1, n));
    }
}

/// Shuffle invariance: reconciling permutations of the same definitions
/// and the same records yields the same list. Input order carries no
/// meaning; only name-keyed identity and content matter.
pub proof fn lemma_reconcile_shuffle_invariant(
    d1: Seq<Migration>,
    r1: Seq<MigrationWithMeta>,
    d2: Seq<Migration>,
    r2: Seq<MigrationWithMeta>,
    o1: Seq<ApplicationState>,
    o2: Seq<ApplicationState>,
)
    requires
        unique_def_names(d1),
        unique_rec_names(r1),
        unique_def_names(d2),
        unique_rec_names(r2),
        d1.to_multiset() == d2.to_multiset(),
        r1.to_multiset() == r2.to_multiset(),
        reconciled(d1, r1, o1),
        reconciled(d2, r2, o2),
    ensures
        o1 == o2,
{
    assert forall|n: Seq<char>|
        #![trigger defs_has(d1, n)]
        #![trigger defs_has(d2, n)]
        defs_has(d1, n) == defs_has(d2, n) by {
        lemma_defs_has_permuted(d1, d2, n);
    }
    assert forall|n: Seq<char>|
        #![trigger recs_has(r1, n)]
        #![trigger recs_has(r2, n)]
        recs_has(r1, n) == recs_has(r2, n) by {
        lemma_recs_has_permuted(r1, r2, n);
    }
    assert forall|n: Seq<char>|
        #![trigger state_of(d1, r1, n)]
        #![trigger state_of(d2, r2, n)]
        (defs_has(d1, n) || recs_has(r1, n)) ==> state_of(d1, r1, n) == state_of(d2, r2, n) by {
        lemma_defs_has_permuted(d1, d2, n);
        lemma_recs_has_permuted(r1, r2, n);
    }
    assert(reconciled(d1, r1, o2));
    lemma_reconcile_deterministic(d1, r1, o1, o2);
}

/// The names present in either input: what reconciliation enumerates.
pub open spec fn all_names(defs: Seq<Migration>, recs: Seq<MigrationWithMeta>) -> Set<Seq<char>> {
    Set::new(|n: Seq<char>| defs_has(defs, n) || recs_has(recs, n))
}

/// A reconciled list has one element per distinct name across both
/// inputs: its length is the cardinality of the name set.
pub proof fn lemma_reconcile_len(
    defs: Seq<Migration>,
    recs: Seq<MigrationWithMeta>,
    out: Seq<ApplicationState>,
)
    requires
        reconciled(defs, recs, out),
    ensures
        all_names(defs, recs).finite(),
        out.len() == all_names(defs, recs).len(),
{
    let ns = Seq::new(out.len(), |k: int| spec_state_name(out[k]));
    assert forall|k1: int, k2: int|
        0 <= k1 < out.len() && 0 <= k2 < out.len() && k1 != k2 implies ns[k1] != ns[k2] by {
        if k1 < k2 {
            assert(lex_lt(spec_state_name(out[k1]), spec_state_name(out[k2])));
            lemma_lex_lt_irreflexive(spec_state_name(out[k1]));
        } else {
            assert(lex_lt(spec_state_name(out[k2]), spec_state_name(out[k1])));
            lemma_lex_lt_irreflexive(spec_state_name(out[k1]));
        }
    }
    assert(ns.no_duplicates());
    ns.unique_seq_to_set();
    assert forall|n: Seq<char>| ns.to_set().contains(n) <==> all_names(defs, recs).contains(
        n,
    ) by {
        if ns.to_set().contains(n) {
            let k = choose|k: int| 0 <= k < ns.len() && ns[k] == n;
            assert(spec_state_name(out[k]) == n);
            assert(defs_has(defs, n) || recs_has(recs, n));
        }
        if all_names(defs, recs).contains(n) {
            assert(defs_has(defs, n) || recs_has(recs, n));
            let k = choose|k: int| 0 <= k < out.len() && spec_state_name(#[trigger] out[k]) == n;
            assert(ns[k] == n);
            assert(ns.contains(n));
        }
    }
    assert(ns.to_set() =~= all_names(defs, recs));
}

/// A changed target with neither resolution flag is refused: the policy
/// yields an error before any SQL could run.
pub proof fn lemma_changed_needs_flag(states: Seq<ApplicationState>, target: Option<Seq<char>>)
    requires
        spec_selected(states, target) matches Some(st) && st is Changed,
    ensures
        spec_plan_down(states, target, false, false) == Result::<Option<Migration>, PlanFault>::Err(
            PlanFault::ChangedNeedsFlag,
        ),
{
}

/// A removed target without recovery is refused, whatever the other
/// flag says: the policy yields an error before any SQL could run.
pub proof fn lemma_removed_needs_recover(
    states: Seq<ApplicationState>,
    target: Option<Seq<char>>,
    ignore_changed: bool,
)
    requires
        spec_selected(states, target) matches Some(st) && st is Removed,
    ensures
        spec_plan_down(states, target, false, ignore_changed) == Result::<
            Option<Migration>,
            PlanFault,
        >::Err(PlanFault::RemovedNeedsRecover),
{
}

/// The ways a revert request can be refused, before any SQL runs.
#[derive(Clone, Copy, Debug, PartialEq, Eq, Structural)]
pub enum PlanFault {
    /// Both resolution flags were given at once.
    ConflictingFlags,
    /// No state carries the requested name.
    NotFound,
    /// The target has changed and neither flag says which SQL to trust.
    ChangedNeedsFlag,
    /// The target's file is gone and recovery was not requested.
    RemovedNeedsRecover,
    /// The target was never applied.
    PendingTarget,
}

/// The first state carrying the given name, as `Iterator::find` walks
/// the list.
pub open spec fn spec_find_state(
    states: Seq<ApplicationState>,
    name: Seq<char>,
) -> Option<ApplicationState>
    decreases states.len(),
{
    if states.len() == 0 {
        None
    } else if spec_state_name(states[0]) == name {
        Some(states[0])
    } else {
        spec_find_state(states.drop_first(), name)
    }
}

/// The last state that is not pending, if any: the default revert
/// target.
pub open spec fn spec_last_non_pending(states: Seq<ApplicationState>) -> Option<ApplicationState>
    decreases states.len(),
{
    if states.len() == 0 {
        None
    } else if !(states.last() is Pending) {
        Some(states.last())
    } else {
        spec_last_non_pending(states.drop_last())
    }
}

/// The state a revert request selects: the named one when a name is
/// given, the last non-pending one otherwise.
pub open spec fn spec_selected(
    states: Seq<ApplicationState>,
    target: Option<Seq<char>>,
) -> Option<ApplicationState> {
    match target {
        Some(n) => spec_find_state(states, n),
        None => spec_last_non_pending(states),
    }
}

/// Which migration's down SQL a selected state lets a revert run:
/// an applied state reverts by its definition; a changed state needs a
/// flag to choose between the recorded SQL and the on-disk SQL; a
/// removed state only reverts by the recorded SQL, under `recover`; a
/// pending state never reverts.
pub open spec fn spec_dispatch(st: ApplicationState, recover: bool, ignore_changed: bool) -> Result<
    Option<Migration>,
    PlanFault,
> {
    match st {
        ApplicationState::Applied { definition, application } => Ok(Some(definition)),
        ApplicationState::Changed { definition, application } => if recover {
            Ok(Some(application.migration))
        } else if ignore_changed {
            Ok(Some(definition))
        } else {
            Err(PlanFault::ChangedNeedsFlag)
        },
        ApplicationState::Removed { application } => if recover {
            Ok(Some(application.migration))
        } else {
            Err(PlanFault::RemovedNeedsRecover)
        },
        ApplicationState::Pending { definition } => Err(PlanFault::PendingTarget),
    }
}

/// The whole revert policy: refuse conflicting flags before anything
/// else, select the target, then dispatch on its classification.
/// `Ok(None)` means there is nothing to revert.
pub open spec fn spec_plan_down(
    states: Seq<ApplicationState>,
    target: Option<Seq<char>>,
    recover: bool,
    ignore_changed: bool,
) -> Result<Option<Migration>, PlanFault> {
    if recover && ignore_changed {
        Err(PlanFault::ConflictingFlags)
    } else {
        match target {
            Some(n) => match spec_find_state(states, n) {
                None => Err(PlanFault::NotFound),
                Some(st) => spec_dispatch(st, recover, ignore_changed),
            },
            None => match spec_last_non_pending(states) {
                None => Ok(None),
                Some(st) => spec_dispatch(st, recover, ignore_changed),
            },
        }
    }
}

/// The view of an optional name argument.
pub open spec fn opt_name_view(name: Option<&str>) -> Option<Seq<char>> {
    match name {
        Some(n) => Some(n@),
        None => None,
    }
}

/// Decides what a `down` request must do: `Ok(Some(m))` means run
/// `m.down_sql` and delete `m.name` from the ledger; `Ok(None)` means
/// nothing is applied, so there is nothing to revert; an error refuses
/// the request before any database mutation, with the diagnostic the
/// operator sees.
pub fn plan_down(
    states: &Vec<ApplicationState>,
    name: Option<&str>,
    recover: bool,
    ignore_changed: bool,
) -> (r: Result<Option<Migration>, Error>)
    ensures
        ({
            let target = opt_name_view(name);
            let sel = spec_selected(states@, target);
            match spec_plan_down(states@, target, recover, ignore_changed) {
                Ok(m) => r is Ok && r->Ok_0 == m,
                Err(f) => r is Err && (match f {
                    PlanFault::ConflictingFlags => r->Err_0 is ConflictingFlags,
                    PlanFault::NotFound => (r->Err_0 matches Error::MigrationNotFound { name: nn }
                        && target matches Some(t) && nn@ == t),
                    PlanFault::ChangedNeedsFlag => (r->Err_0 matches Error::MigrationChanged {
                        name: nn,
                    } && sel matches Some(st) && st matches ApplicationState::Changed {
                        definition,
                        application,
                    } && nn@ == application.migration.name@),
                    PlanFault::RemovedNeedsRecover => (r->Err_0 matches Error::MigrationRemoved {
                        name: nn,
                    } && sel matches Some(st) && st matches ApplicationState::Removed { application }
                        && nn@ == application.migration.name@),
                    PlanFault::PendingTarget => (r->Err_0 matches Error::RollbackPending {
                        name: nn,
                    } && sel matches Some(st) && st matches ApplicationState::Pending { definition }
                        && nn@ == definition.name@),
                }),
            }
        }),
{
    if recover && ignore_changed {
        return Err(Error::ConflictingFlags);
    }
    let selected: &ApplicationState = match name {
        Some(n) => {
            let mut k: usize = 0;
            let mut found: Option<&ApplicationState> = None;
            proof {
                assert(states@.skip(0) =~= states@);
            }
            loop
                invariant_except_break
                    found is None,
                invariant
                    0 <= k <= states.len(),
                    !(recover && ignore_changed),
                    name matches Some(nn) && nn@ == n@,
                    spec_find_state(states@, n@) == spec_find_state(states@.skip(k as int), n@),
                ensures
                    (found matches Some(st) && spec_find_state(states@, n@) == Some(*st)),
                decreases states.len() - k,
            {
                if k == states.len() {
                    proof {
                        assert(states@.skip(k as int).len() == 0);
                    }
                    return Err(Error::MigrationNotFound { name: n.to_owned() });
                }
                proof {
                    assert(states@.skip(k as int)[0] == states@[k as int]);
                    assert(states@.skip(k as int).drop_first() =~= states@.skip(k + 1));
                }
                if str_eq(states[k].name(), n) {
                    found = Some(&states[k]);
                    break ;
                }
                k = k + 1;
            }
            match found {
                Some(st) => st,
                None => vstd::pervasive::unreached(),
            }
        },
        None => {
            let mut k: usize = states.len();
            let mut found: Option<&ApplicationState> = None;
            proof {
                assert(states@.take(states@.len() as int) =~= states@);
            }
            loop
                invariant_except_break
                    found is None,
                invariant
                    0 <= k <= states.len(),
                    !(recover && ignore_changed),
                    name is None,
                    spec_last_non_pending(states@) == spec_last_non_pending(
                        states@.take(k as int),
                    ),
                ensures
                    (found matches Some(st) && spec_last_non_pending(states@) == Some(*st)),
                decreases k,
            {
                if k == 0 {
                    proof {
                        assert(states@.take(0).len() == 0);
                    }
                    return Ok(None);
                }
                proof {
                    assert(states@.take(k as int).last() == states@[k - 1]);
                    assert(states@.take(k as int).drop_last() =~= states@.take(k - 1));
                }
                if !states[k - 1].is_pending() {
                    found = Some(&states[k - 1]);
                    break ;
                }
                k = k - 1;
            }
            match found {
                Some(st) => st,
                None => vstd::pervasive::unreached(),
            }
        },
    };
    match selected {
        ApplicationState::Applied { definition, application } => Ok(Some(definition.clone())),
        ApplicationState::Changed { definition, application } => {
            if recover {
                Ok(Some(application.migration.clone()))
            } else if ignore_changed {
                Ok(Some(definition.clone()))
            } else {
                Err(Error::MigrationChanged { name: application.migration.name.clone() })
            }
        },
        ApplicationState::Removed { application } => {
            if recover {
                Ok(Some(application.migration.clone()))
            } else {
                Err(Error::MigrationRemoved { name: application.migration.name.clone() })
            }
        },
        ApplicationState::Pending { definition } => Err(
            Error::RollbackPending { name: definition.name.clone() },
        ),
    }
}

/// The definitions of the pending states, in list order: what an `up`
/// run applies.
pub open spec fn spec_pending(states: Seq<ApplicationState>) -> Seq<Migration>
    decreases states.len(),
{
    if states.len() == 0 {
        Seq::empty()
    } else {
        spec_pending(states.drop_last()) + (match states.last() {
            ApplicationState::Pending { definition } => seq![definition],
            _ => Seq::<Migration>::empty(),
        })
    }
}

/// Collects the definitions of the pending states, in list order.
pub fn pending_migrations(states: &Vec<ApplicationState>) -> (r: Vec<Migration>)
    ensures
        r@ == spec_pending(states@),
{
    let mut r: Vec<Migration> = Vec::new();
    let mut k: usize = 0;
    proof {
        assert(states@.take(0).len() == 0);
        assert(r@ =~= spec_pending(states@.take(0)));
    }
    while k < states.len()
        invariant
            0 <= k <= states.len(),
            r@ == spec_pending(states@.take(k as int)),
        decreases states.len() - k,
    {
        proof {
            assert(states@.take(k + 1).last() == states@[k as int]);
            assert(states@.take(k + 1).drop_last() =~= states@.take(k as int));
        }
        match &states[k] {
            ApplicationState::Pending { definition } => {
                r.push(definition.clone());
                proof {
                    assert(r@ =~= spec_pending(states@.take(k + 1)));
                }
            },
            _ => {
                proof {
                    assert(r@ =~= spec_pending(states@.take(k + 1)));
                }
            },
        }
        k = k + 1;
    }
    proof {
        assert(states@.take(states@.len() as int) =~= states@);
    }
    r
}

} // verus!
