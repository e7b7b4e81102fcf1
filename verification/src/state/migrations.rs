//! Whether the databases that are there fit the program.

use vstd::prelude::*;


verus! {

/// What is wrong with a migration that was applied.
#[derive(Clone, Copy, Debug, PartialEq, Eq, Structural)]
pub enum RuntimeDbMigrationIssue {
    /// It did not finish.
    Dirty { version: i64 },
    /// It is not the one that the program knows.
    ChecksumMismatch { version: i64 },
}

/// Whether a database fits the program.
#[derive(Debug, PartialEq, Eq)]
pub enum RuntimeDbMigrationStatus {
    Missing,
    Compatible { applied: usize, pending: usize },
    Incompatible(Vec<RuntimeDbMigrationIssue>),
    Unreadable(String),
}

/// What was found of one database.
#[derive(Debug, PartialEq, Eq)]
pub struct RuntimeDbMigrationInspection {
    pub label: String,
    pub path: String,
    pub status: RuntimeDbMigrationStatus,
}

/// A migration that a database records.
#[derive(Debug, PartialEq, Eq)]
pub struct AppliedMigration {
    pub version: i64,
    pub success: bool,
    pub checksum: Vec<u8>,
}

/// A migration that the program knows.
#[derive(Debug, PartialEq, Eq)]
pub struct KnownMigration {
    pub version: i64,
    pub checksum: Vec<u8>,
}

/// The checksum of the first known migration with the version.
pub open spec fn known_checksum(known: Seq<KnownMigration>, version: i64) -> Option<Seq<u8>>
    decreases known.len(),
{
    if known.len() == 0 {
        None
    } else if known[0].version == version {
        Some(known[0].checksum@)
    } else {
        known_checksum(known.skip(1), version)
    }
}

/// What is wrong with an applied migration. One that the program does not know
/// comes from a newer program and is tolerated.
pub open spec fn issue_of(row: AppliedMigration, known: Seq<KnownMigration>) -> Option<RuntimeDbMigrationIssue> {
    if !row.success {
        Some(RuntimeDbMigrationIssue::Dirty { version: row.version })
    } else {
        match known_checksum(known, row.version) {
            Some(checksum) => if row.checksum@ != checksum {
                Some(RuntimeDbMigrationIssue::ChecksumMismatch { version: row.version })
            } else {
                None
            },
            None => None,
        }
    }
}

/// What is wrong with the applied migrations, in their order.
pub open spec fn issues_of(rows: Seq<AppliedMigration>, known: Seq<KnownMigration>) -> Seq<RuntimeDbMigrationIssue>
    decreases rows.len(),
{
    if rows.len() == 0 {
        Seq::empty()
    } else {
        let before = issues_of(rows.drop_last(), known);
        match issue_of(rows.last(), known) {
            Some(issue) => before.push(issue),
            None => before,
        }
    }
}

/// Whether a migration with the version was applied.
pub open spec fn was_applied(rows: Seq<AppliedMigration>, version: i64) -> bool {
    exists|i: int| 0 <= i < rows.len() && (#[trigger] rows[i]).version == version
}

/// The number of known migrations that were not applied.
pub open spec fn pending_count(rows: Seq<AppliedMigration>, known: Seq<KnownMigration>) -> nat
    decreases known.len(),
{
    if known.len() == 0 {
        0
    } else {
        pending_count(rows, known.drop_last()) + if was_applied(rows, known.last().version) {
            0nat
        } else {
            1nat
        }
    }
}

fn same_bytes(a: &Vec<u8>, b: &Vec<u8>) -> (r: bool)
    ensures
        r == (a@ == b@),
{
    if a.len() != b.len() {
        return false;
    }
    let mut i: usize = 0;
    while i < a.len()
        invariant
            i <= a.len(),
            a.len() == b.len(),
            forall|j: int| 0 <= j < i ==> a@[j] == b@[j],
        decreases a.len() - i,
    {
        if a[i] != b[i] {
            return false;
        }
        i = i + 1;
    }
    assert(a@ =~= b@);
    true
}

fn find_issue(row: &AppliedMigration, known: &Vec<KnownMigration>) -> (r: Option<RuntimeDbMigrationIssue>)
    ensures
        r == issue_of(*row, known@),
{
    if !row.success {
        return Some(RuntimeDbMigrationIssue::Dirty { version: row.version });
    }
    let mut i: usize = 0;
    assert(known@.skip(0) =~= known@);
    while i < known.len()
        invariant
            i <= known.len(),
            row.success,
            known_checksum(known@, row.version) == known_checksum(known@.skip(i as int), row.version),
        decreases known.len() - i,
    {
        assert(known@.skip(i as int)[0] == known@[i as int]);
        assert(known@.skip(i as int).skip(1) =~= known@.skip(i + 1));
        if known[i].version == row.version {
            return if same_bytes(&row.checksum, &known[i].checksum) {
                None
            } else {
                Some(RuntimeDbMigrationIssue::ChecksumMismatch { version: row.version })
            };
        }
        i = i + 1;
    }
    None
}

fn is_applied(rows: &Vec<AppliedMigration>, version: i64) -> (r: bool)
    ensures
        r == was_applied(rows@, version),
{
    let mut i: usize = 0;
    while i < rows.len()
        invariant
            i <= rows.len(),
            forall|j: int| 0 <= j < i ==> (#[trigger] rows@[j]).version != version,
        decreases rows.len() - i,
    {
        if rows[i].version == version {
            return true;
        }
        i = i + 1;
    }
    false
}

/// Holds the migrations that a database records against those that the program
/// knows. Nothing that is wrong may be recorded.
pub fn inspect_ledger(rows: &Vec<AppliedMigration>, known: &Vec<KnownMigration>) -> (r: RuntimeDbMigrationStatus)
    ensures
        ({
            let issues = issues_of(rows@, known@);
            if issues.len() > 0 {
                r matches RuntimeDbMigrationStatus::Incompatible(found) && found@ == issues
            } else {
                r matches RuntimeDbMigrationStatus::Compatible { applied, pending } && applied == rows@.len() && pending
                    == pending_count(rows@, known@)
            }
        }),
{
    let mut issues: Vec<RuntimeDbMigrationIssue> = Vec::new();
    let mut i: usize = 0;
    assert(rows@.take(0) =~= Seq::<AppliedMigration>::empty());
    assert(issues@ =~= Seq::<RuntimeDbMigrationIssue>::empty());
    while i < rows.len()
        invariant
            i <= rows.len(),
            issues@ == issues_of(rows@.take(i as int), known@),
        decreases rows.len() - i,
    {
        assert(rows@.take(i + 1).drop_last() =~= rows@.take(i as int));
        match find_issue(&rows[i], known) {
            Some(issue) => issues.push(issue),
            None => {},
        }
        i = i + 1;
    }
    assert(rows@.take(rows@.len() as int) =~= rows@);
    if issues.len() > 0 {
        return RuntimeDbMigrationStatus::Incompatible(issues);
    }
    let mut pending: usize = 0;
    let mut k: usize = 0;
    assert(known@.take(0) =~= Seq::<KnownMigration>::empty());
    while k < known.len()
        invariant
            k <= known.len(),
            pending <= k,
            pending == pending_count(rows@, known@.take(k as int)),
        decreases known.len() - k,
    {
        assert(known@.take(k + 1).drop_last() =~= known@.take(k as int));
        if !is_applied(rows, known[k].version) {
            pending = pending + 1;
        }
        k = k + 1;
    }
    assert(known@.take(known@.len() as int) =~= known@);
    RuntimeDbMigrationStatus::Compatible { applied: rows.len(), pending }
}

/// Inspects a database that is there. Without a ledger nothing was applied.
pub fn inspect_existing_database(rows: &Option<Vec<AppliedMigration>>, known: &Vec<KnownMigration>) -> (r:
    RuntimeDbMigrationStatus)
    ensures
        match *rows {
            None => r == (RuntimeDbMigrationStatus::Compatible { applied: 0, pending: known.len() }),
            Some(rows) => {
                let issues = issues_of(rows@, known@);
                if issues.len() > 0 {
                    r matches RuntimeDbMigrationStatus::Incompatible(found) && found@ == issues
                } else {
                    r matches RuntimeDbMigrationStatus::Compatible { applied, pending } && applied == rows@.len()
                        && pending == pending_count(rows@, known@)
                }
            },
        },
{
    match rows {
        None => RuntimeDbMigrationStatus::Compatible { applied: 0, pending: known.len() },
        Some(rows) => inspect_ledger(rows, known),
    }
}

/// What was found of one database: nothing where there is no file, and an
/// error where it could not be read.
pub fn inspect_runtime_db_migration(
    label: String,
    path: String,
    is_file: bool,
    found: Result<RuntimeDbMigrationStatus, String>,
) -> (r: RuntimeDbMigrationInspection)
    ensures
        r.label == label,
        r.path == path,
        r.status == (if !is_file {
            RuntimeDbMigrationStatus::Missing
        } else {
            match found {
                Ok(status) => status,
                Err(e) => RuntimeDbMigrationStatus::Unreadable(e),
            }
        }),
{
    let status = if !is_file {
        RuntimeDbMigrationStatus::Missing
    } else {
        match found {
            Ok(status) => status,
            Err(e) => RuntimeDbMigrationStatus::Unreadable(e),
        }
    };
    RuntimeDbMigrationInspection { label, path, status }
}

proof fn lemma_issues_are_of_rows(rows: Seq<AppliedMigration>, known: Seq<KnownMigration>, n: int)
    requires
        0 <= n < issues_of(rows, known).len(),
    ensures
        exists|i: int| 0 <= i < rows.len() && issue_of(#[trigger] rows[i], known) == Some(issues_of(rows, known)[n]),
    decreases rows.len(),
{
    let before = issues_of(rows.drop_last(), known);
    if n < before.len() {
        lemma_issues_are_of_rows(rows.drop_last(), known, n);
        let i = choose|i: int|
            0 <= i < rows.len() - 1 && issue_of(#[trigger] rows.drop_last()[i], known) == Some(before[n]);
        assert(rows[i] == rows.drop_last()[i]);
        assert(issue_of(rows[i], known) == Some(issues_of(rows, known)[n]));
    } else {
        assert(rows[rows.len() - 1] == rows.last());
        assert(issue_of(rows[rows.len() - 1], known) == Some(issues_of(rows, known)[n]));
    }
}

/// A database is incompatible exactly where one of its migrations did not
/// finish or is not the one that the program knows under its version. A
/// migration of a newer program alone does not make it so.
pub proof fn law_incompatible_iff_some_issue(rows: Seq<AppliedMigration>, known: Seq<KnownMigration>)
    ensures
        issues_of(rows, known).len() > 0 <==> exists|i: int|
            0 <= i < rows.len() && issue_of(#[trigger] rows[i], known) is Some,
    decreases rows.len(),
{
    if issues_of(rows, known).len() > 0 {
        lemma_issues_are_of_rows(rows, known, 0);
    }
    if rows.len() > 0 {
        law_incompatible_iff_some_issue(rows.drop_last(), known);
        if exists|i: int| 0 <= i < rows.len() && issue_of(#[trigger] rows[i], known) is Some {
            let i = choose|i: int| 0 <= i < rows.len() && issue_of(#[trigger] rows[i], known) is Some;
            if i < rows.len() - 1 {
                assert(rows.drop_last()[i] == rows[i]);
            } else {
                assert(rows.last() == rows[i]);
            }
        }
    }
}

/// The checksum of a version is that of the first migration that is known under
/// it.
pub proof fn law_checksum_is_that_of_the_version(known: Seq<KnownMigration>, version: i64)
    ensures
        match known_checksum(known, version) {
            Some(checksum) => exists|i: int|
                0 <= i < known.len() && (#[trigger] known[i]).version == version && known[i].checksum@ == checksum
                    && forall|j: int| 0 <= j < i ==> (#[trigger] known[j]).version != version,
            None => forall|i: int| 0 <= i < known.len() ==> (#[trigger] known[i]).version != version,
        },
    decreases known.len(),
{
    if known.len() > 0 && known[0].version != version {
        let rest = known.skip(1);
        law_checksum_is_that_of_the_version(rest, version);
        assert forall|i: int| 1 <= i < known.len() implies #[trigger] known[i] == rest[i - 1] by {}
        if let Some(checksum) = known_checksum(rest, version) {
            let i = choose|i: int|
                0 <= i < rest.len() && (#[trigger] rest[i]).version == version && rest[i].checksum@ == checksum
                    && forall|j: int| 0 <= j < i ==> (#[trigger] rest[j]).version != version;
            assert(known[i + 1].version == version);
            assert forall|j: int| 0 <= j < i + 1 implies (#[trigger] known[j]).version != version by {
                if j > 0 {
                    assert(rest[j - 1].version != version);
                }
            }
        }
    } else if known.len() > 0 {
        assert(known[0].version == version);
    }
}

/// A migration that did not finish is told as such, whatever its checksum; one
/// that finished is told where the program knows its version by another
/// checksum, and not where it does not know it.
pub proof fn law_issue_of_a_migration(row: AppliedMigration, known: Seq<KnownMigration>)
    ensures
        !row.success ==> issue_of(row, known) == Some(RuntimeDbMigrationIssue::Dirty { version: row.version }),
        row.success && known_checksum(known, row.version) is None ==> issue_of(row, known) is None,
        row.success && known_checksum(known, row.version) == Some(row.checksum@) ==> issue_of(row, known) is None,
        row.success && known_checksum(known, row.version) is Some && known_checksum(known, row.version)->0
            != row.checksum@ ==> issue_of(row, known) == Some(
            RuntimeDbMigrationIssue::ChecksumMismatch { version: row.version },
        ),
{
}

/// The issues are told one behind the other, in the order of the ledger.
pub proof fn law_issues_follow_the_ledger(
    a: Seq<AppliedMigration>,
    b: Seq<AppliedMigration>,
    row: AppliedMigration,
    known: Seq<KnownMigration>,
)
    ensures
        issues_of(a + b, known) == issues_of(a, known) + issues_of(b, known),
        issues_of(seq![row], known) == (match issue_of(row, known) {
            Some(issue) => seq![issue],
            None => Seq::empty(),
        }),
    decreases b.len(),
{
    reveal_with_fuel(issues_of, 2);
    assert(seq![row].drop_last() =~= Seq::<AppliedMigration>::empty());
    assert(issues_of(seq![row].drop_last(), known) =~= Seq::empty());
    if b.len() == 0 {
        assert(a + b =~= a);
        assert(issues_of(b, known) =~= Seq::empty());
    } else {
        law_issues_follow_the_ledger(a, b.drop_last(), row, known);
        assert((a + b).drop_last() =~= a + b.drop_last());
        assert(issues_of(a + b, known) =~= issues_of(a, known) + issues_of(b, known));
    }
}

/// What is pending is what the program knows and the ledger does not hold.
pub proof fn law_pending_is_what_was_not_applied(rows: Seq<AppliedMigration>, known: Seq<KnownMigration>)
    ensures
        pending_count(rows, known) == known.filter(
            |m: KnownMigration|
                forall|i: int| 0 <= i < rows.len() ==> (#[trigger] rows[i]).version != m.version,
        ).len(),
    decreases known.len(),
{
    reveal(Seq::filter);
    if known.len() > 0 {
        law_pending_is_what_was_not_applied(rows, known.drop_last());
        let version = known.last().version;
        assert(was_applied(rows, version) <==> !(forall|i: int|
            0 <= i < rows.len() ==> (#[trigger] rows[i]).version != version));
    }
}

} // verus!
