//! Decisions of the migration engine: what is pending, what is listed, how
//! reverts proceed and how a redo is planned.
use vstd::prelude::*;
use crate::error::Error;
use crate::order::{
    lemma_sorted_arrangement_unique, lemma_two_positions, sort_by_version, sort_versions, sorted_by_version,
    strictly_sorted_by_version, versions_sorted, versions_strictly_sorted, Versioned,
};
use crate::text::{text_eq, text_le, text_lt};

verus! {

broadcast use vstd::seq_lib::group_to_multiset_ensures;

/// An entry of the migration store as the engine sees it.
#[derive(Clone, Debug)]
pub struct Migration {
    /// The version, which orders the entries.
    pub version: String,
    /// The entry's full name, as shown to the operator.
    pub name: String,
    /// Whether the entry's metadata lets it run inside a transaction.
    pub run_in_transaction: bool,
}

/// `v` is among the applied versions.
pub open spec fn is_applied(v: Seq<char>, applied: Seq<String>) -> bool {
    exists|i: int| 0 <= i < applied.len() && #[trigger] applied[i]@ == v
}

/// Some entry on disk has version `v`.
pub open spec fn is_on_disk(v: Seq<char>, entries: Seq<Migration>) -> bool {
    exists|j: int| 0 <= j < entries.len() && #[trigger] entries[j].version@ == v
}

/// The versions of the entries, in store order.
pub open spec fn entry_versions(entries: Seq<Migration>) -> Seq<String> {
    entries.map_values(|m: Migration| m.version)
}

/// Holds of a version that is not applied.
pub open spec fn unapplied(applied: Seq<String>) -> spec_fn(String) -> bool {
    |v: String| !is_applied(v@, applied)
}

/// The versions of the entries that are not applied, in store order.
pub open spec fn unapplied_versions(entries: Seq<Migration>, applied: Seq<String>) -> Seq<String> {
    entry_versions(entries).filter(unapplied(applied))
}

/// Returns whether `v` is among `applied`.
pub fn is_version_applied(v: &str, applied: &Vec<String>) -> (r: bool)
    ensures
        r == is_applied(v@, applied@),
{
    let mut i: usize = 0;
    while i < applied.len()
        invariant
            i <= applied@.len(),
            forall|k: int| 0 <= k < i ==> applied@[k]@ != v@,
        decreases applied.len() - i,
    {
        if text_eq(applied[i].as_str(), v) {
            return true;
        }
        i = i + 1;
    }
    false
}

/// The versions to run: those of the entries that are not applied, in ascending order.
pub fn pending_versions(entries: &Vec<Migration>, applied: &Vec<String>) -> (r: Vec<String>)
    ensures
        r@.to_multiset() == unapplied_versions(entries@, applied@).to_multiset(),
        versions_sorted(r@),
{
    let mut found: Vec<String> = Vec::new();
    let mut i: usize = 0;
    while i < entries.len()
        invariant
            i <= entries@.len(),
            found@ == entry_versions(entries@.subrange(0, i as int)).filter(unapplied(applied@)),
        decreases entries.len() - i,
    {
        let ghost prefix = entry_versions(entries@.subrange(0, i as int));
        assert(entry_versions(entries@.subrange(0, i + 1)) =~= prefix.push(entries@[i as int].version));
        proof {
            prefix.lemma_filter_push(entries@[i as int].version, unapplied(applied@));
        }
        if !is_version_applied(entries[i].version.as_str(), applied) {
            found.push(entries[i].version.clone());
        }
        i = i + 1;
    }
    assert(entries@.subrange(0, entries@.len() as int) =~= entries@);
    sort_versions(found)
}

/// Whether any entry is not applied.
pub fn has_pending(entries: &Vec<Migration>, applied: &Vec<String>) -> (r: bool)
    ensures
        r == exists|j: int| 0 <= j < entries@.len() && !is_applied(#[trigger] entries@[j].version@, applied@),
{
    let mut i: usize = 0;
    while i < entries.len()
        invariant
            i <= entries@.len(),
            forall|j: int| 0 <= j < i ==> is_applied(#[trigger] entries@[j].version@, applied@),
        decreases entries.len() - i,
    {
        if !is_version_applied(entries[i].version.as_str(), applied) {
            return true;
        }
        i = i + 1;
    }
    false
}

/// One line of the listing: an entry and whether it is applied.
#[derive(Clone, Debug)]
pub struct ListedMigration {
    pub version: String,
    pub name: String,
    pub applied: bool,
}

impl Versioned for ListedMigration {
    open spec fn version_view(&self) -> Seq<char> {
        self.version@
    }

    fn version_str(&self) -> (r: &str) {
        self.version.as_str()
    }
}

/// The listing line of entry `m`.
pub open spec fn listed_entry(m: Migration, applied: Seq<String>) -> ListedMigration {
    ListedMigration { version: m.version, name: m.name, applied: is_applied(m.version@, applied) }
}

/// The listing lines of the entries, in store order.
pub open spec fn listing_of(entries: Seq<Migration>, applied: Seq<String>) -> Seq<ListedMigration> {
    entries.map_values(|m: Migration| listed_entry(m, applied))
}

/// No two entries share a version.
pub open spec fn versions_unique(entries: Seq<Migration>) -> bool {
    forall|i: int, j: int|
        0 <= i < entries.len() && 0 <= j < entries.len() && i != j ==> #[trigger] entries[i].version@
            != #[trigger] entries[j].version@
}

/// Every entry in ascending version order, each with its name and marked
/// applied exactly when its version is applied. When no two entries share a
/// version, the order is strict.
pub fn list_migrations(entries: &Vec<Migration>, applied: &Vec<String>) -> (r: Vec<ListedMigration>)
    ensures
        r@.to_multiset() == listing_of(entries@, applied@).to_multiset(),
        sorted_by_version(r@),
        versions_unique(entries@) ==> strictly_sorted_by_version(r@),
{
    let mut lines: Vec<ListedMigration> = Vec::new();
    let mut i: usize = 0;
    while i < entries.len()
        invariant
            i <= entries@.len(),
            lines@ == listing_of(entries@.subrange(0, i as int), applied@),
        decreases entries.len() - i,
    {
        let line = ListedMigration {
            version: entries[i].version.clone(),
            name: entries[i].name.clone(),
            applied: is_version_applied(entries[i].version.as_str(), applied),
        };
        lines.push(line);
        assert(lines@ =~= listing_of(entries@.subrange(0, i + 1), applied@));
        i = i + 1;
    }
    assert(entries@.subrange(0, entries@.len() as int) =~= entries@);
    let ghost all = lines@;
    let r = sort_by_version(lines);
    proof {
        if versions_unique(entries@) {
            assert forall|x: int, y: int| 0 <= x < y < r@.len() implies text_lt(
                #[trigger] r@[x].version_view(),
                #[trigger] r@[y].version_view(),
            ) by {
                assert(text_le(r@[x].version_view(), r@[y].version_view()));
                if r@[x].version_view() == r@[y].version_view() {
                    let ab = lemma_two_positions(r@, all, x, y);
                    assert(all[ab.0] == listed_entry(entries@[ab.0], applied@));
                    assert(all[ab.1] == listed_entry(entries@[ab.1], applied@));
                    assert(entries@[ab.0].version@ == entries@[ab.1].version@);
                }
            }
        }
    }
    r
}

/// How many of the most recently applied migrations a revert or a redo covers.
#[derive(Clone, Copy, Debug, PartialEq, Eq)]
pub enum RevertCount {
    /// Every applied migration.
    All,
    /// At most this many.
    Number(u64),
}

/// What the database reported for one request to revert the last migration.
#[derive(Clone, Copy, Debug, PartialEq, Eq)]
pub enum RevertEvent {
    /// The most recently applied migration was reverted.
    Reverted,
    /// No migration is applied.
    NoMigrationRun,
}

/// Progress of a revert: how many were reverted and whether the database ran out.
#[derive(Clone, Copy, Debug, PartialEq, Eq)]
pub struct RevertLoop {
    pub count: RevertCount,
    pub reverted: u64,
    pub finished: bool,
}

impl RevertLoop {
    /// Another revert is to be requested.
    pub open spec fn wants_more(self) -> bool {
        &&& !self.finished
        &&& self.reverted < u64::MAX
        &&& match self.count {
            RevertCount::All => true,
            RevertCount::Number(n) => self.reverted < n,
        }
    }

    /// The progress after the database reported `e`.
    pub open spec fn after(self, e: RevertEvent) -> RevertLoop {
        match e {
            RevertEvent::Reverted => RevertLoop { reverted: (self.reverted + 1) as u64, ..self },
            RevertEvent::NoMigrationRun => RevertLoop { finished: true, ..self },
        }
    }

    /// A revert that has not started.
    pub open spec fn new_spec(count: RevertCount) -> RevertLoop {
        RevertLoop { count, reverted: 0, finished: false }
    }

    /// A revert that has not started.
    pub fn new(count: RevertCount) -> (r: RevertLoop)
        ensures
            r == RevertLoop::new_spec(count),
    {
        RevertLoop { count, reverted: 0, finished: false }
    }

    /// Whether to request another revert of the last applied migration.
    pub fn should_revert(&self) -> (r: bool)
        ensures
            r == self.wants_more(),
    {
        !self.finished && self.reverted < u64::MAX && match self.count {
            RevertCount::All => true,
            RevertCount::Number(n) => self.reverted < n,
        }
    }

    /// Records what the database reported. Running out of applied migrations
    /// ends the revert; it is no error.
    pub fn record(&mut self, e: RevertEvent)
        requires
            old(self).wants_more(),
        ensures
            *final(self) == old(self).after(e),
    {
        match e {
            RevertEvent::Reverted => self.reverted = self.reverted + 1,
            RevertEvent::NoMigrationRun => self.finished = true,
        }
    }
}

/// A revert run against a database whose applied versions are `applied`,
/// oldest first: each request reverts the most recent one while any is left.
/// Returns the final progress, the versions still applied and `log` followed
/// by the reverted versions in the order they were reverted.
pub open spec fn revert_session(s: RevertLoop, applied: Seq<String>, log: Seq<String>) -> (RevertLoop, Seq<
    String,
>, Seq<String>)
    decreases applied.len(), (if s.finished { 0int } else { 1int }),
{
    if !s.wants_more() {
        (s, applied, log)
    } else if applied.len() == 0 {
        revert_session(s.after(RevertEvent::NoMigrationRun), applied, log)
    } else {
        revert_session(s.after(RevertEvent::Reverted), applied.drop_last(), log.push(applied.last()))
    }
}

proof fn lemma_reverse_split(applied: Seq<String>, log: Seq<String>)
    requires
        applied.len() > 0,
    ensures
        log.push(applied.last()) + applied.drop_last().reverse() == log + applied.reverse(),
{
    assert(log.push(applied.last()) + applied.drop_last().reverse() =~= log + applied.reverse());
}

proof fn lemma_revert_session_drains(count: RevertCount, r: u64, applied: Seq<String>, log: Seq<String>)
    requires
        r + applied.len() < u64::MAX,
        match count {
            RevertCount::All => true,
            RevertCount::Number(n) => r + applied.len() <= n,
        },
    ensures
        ({
            let out = revert_session(RevertLoop { count, reverted: r, finished: false }, applied, log);
            &&& out.0.reverted == r + applied.len()
            &&& out.1 == Seq::<String>::empty()
            &&& out.2 == log + applied.reverse()
        }),
    decreases applied.len(),
{
    let s = RevertLoop { count, reverted: r, finished: false };
    if applied.len() > 0 {
        lemma_revert_session_drains(count, (r + 1) as u64, applied.drop_last(), log.push(applied.last()));
        lemma_reverse_split(applied, log);
    } else {
        assert(log + applied.reverse() =~= log);
        let t = s.after(RevertEvent::NoMigrationRun);
        assert(!t.wants_more());
        assert(revert_session(t, applied, log) == (t, applied, log));
        if !s.wants_more() {
            assert(applied =~= Seq::<String>::empty());
        }
    }
}

/// Asking to revert `n` migrations when at most `n` are applied reverts
/// exactly those, most recent first, leaves none applied and ends without error.
pub proof fn lemma_revert_tolerates_undercount(n: u64, applied: Seq<String>)
    requires
        applied.len() <= n,
        applied.len() < u64::MAX,
    ensures
        ({
            let out = revert_session(RevertLoop::new_spec(RevertCount::Number(n)), applied, Seq::empty());
            &&& out.0.reverted == applied.len()
            &&& out.1 == Seq::<String>::empty()
            &&& out.2 == applied.reverse()
        }),
{
    lemma_revert_session_drains(RevertCount::Number(n), 0, applied, Seq::empty());
    assert(Seq::<String>::empty() + applied.reverse() =~= applied.reverse());
}

/// Reverting all migrations reverts each applied one, most recent first, and
/// stops without error once the database reports that none is left.
pub proof fn lemma_revert_all_empties(applied: Seq<String>)
    requires
        applied.len() < u64::MAX,
    ensures
        ({
            let out = revert_session(RevertLoop::new_spec(RevertCount::All), applied, Seq::empty());
            &&& out.0.reverted == applied.len()
            &&& out.1 == Seq::<String>::empty()
            &&& out.2 == applied.reverse()
        }),
{
    lemma_revert_session_drains(RevertCount::All, 0, applied, Seq::empty());
    assert(Seq::<String>::empty() + applied.reverse() =~= applied.reverse());
}

/// The versions a redo covers, oldest first: every applied version, or the
/// last `n` of them (all of them when fewer are applied).
pub fn redo_versions(applied: &Vec<String>, count: RevertCount) -> (r: Vec<String>)
    ensures
        r@ == match count {
            RevertCount::All => applied@,
            RevertCount::Number(n) => if n >= applied@.len() {
                applied@
            } else {
                applied@.subrange(applied@.len() - n, applied@.len() as int)
            },
        },
{
    let len = applied.len();
    let start: usize = match count {
        RevertCount::All => 0,
        RevertCount::Number(n) => if n >= len as u64 {
            0
        } else {
            len - n as usize
        },
    };
    let mut r: Vec<String> = Vec::new();
    let mut i: usize = start;
    while i < len
        invariant
            start <= i <= len,
            len == applied@.len(),
            r@ == applied@.subrange(start as int, i as int),
        decreases len - i,
    {
        r.push(applied[i].clone());
        assert(r@ =~= applied@.subrange(start as int, i + 1));
        i = i + 1;
    }
    assert(applied@.subrange(0, len as int) =~= applied@);
    r
}

/// Whether a redo of `to_redo` runs inside one transaction: the database must
/// run schema changes transactionally, and no entry being redone may opt out.
pub open spec fn redo_transactional(supports_transactional_ddl: bool, entries: Seq<Migration>, to_redo: Seq<String>) -> bool {
    &&& supports_transactional_ddl
    &&& forall|i: int, j: int|
        0 <= i < to_redo.len() && 0 <= j < entries.len() && #[trigger] entries[j].version@ == #[trigger] to_redo[i]@
            ==> entries[j].run_in_transaction
}

/// Decides whether a redo of `to_redo` runs inside one transaction.
pub fn redo_in_transaction(supports_transactional_ddl: bool, entries: &Vec<Migration>, to_redo: &Vec<String>) -> (r:
    bool)
    ensures
        r == redo_transactional(supports_transactional_ddl, entries@, to_redo@),
{
    if !supports_transactional_ddl {
        return false;
    }
    let mut i: usize = 0;
    while i < to_redo.len()
        invariant
            i <= to_redo@.len(),
            forall|a: int, j: int|
                0 <= a < i && 0 <= j < entries@.len() && #[trigger] entries@[j].version@ == #[trigger] to_redo@[a]@
                    ==> entries@[j].run_in_transaction,
        decreases to_redo.len() - i,
    {
        let mut j: usize = 0;
        while j < entries.len()
            invariant
                i < to_redo@.len(),
                j <= entries@.len(),
                forall|a: int, b: int|
                    0 <= a < i && 0 <= b < entries@.len() && #[trigger] entries@[b].version@ == #[trigger] to_redo@[a]@
                        ==> entries@[b].run_in_transaction,
                forall|b: int|
                    0 <= b < j && #[trigger] entries@[b].version@ == to_redo@[i as int]@ ==> entries@[b].run_in_transaction,
            decreases entries.len() - j,
        {
            if !entries[j].run_in_transaction && text_eq(entries[j].version.as_str(), to_redo[i].as_str()) {
                return false;
            }
            j = j + 1;
        }
        i = i + 1;
    }
    true
}

/// Every version of `vs` before index `k` has an entry on disk.
pub open spec fn all_on_disk_before(vs: Seq<String>, entries: Seq<Migration>, k: int) -> bool {
    forall|i: int| 0 <= i < k ==> is_on_disk(#[trigger] vs[i]@, entries)
}

/// Plans the second half of a redo: the versions just reverted, each of which
/// must still have an entry on disk, in ascending order. The first reverted
/// version without an entry is reported as unknown.
pub fn redo_plan(entries: &Vec<Migration>, reverted: Vec<String>) -> (r: Result<Vec<String>, Error>)
    ensures
        r is Ok <==> all_on_disk_before(reverted@, entries@, reverted@.len() as int),
        r matches Ok(plan) ==> plan@.to_multiset() == reverted@.to_multiset() && versions_sorted(plan@),
        r matches Err(e) ==> exists|i: int|
            0 <= i < reverted@.len() && all_on_disk_before(reverted@, entries@, i) && !is_on_disk(
                reverted@[i]@,
                entries@,
            ) && e == Error::UnknownMigrationVersion(reverted@[i]),
{
    let mut i: usize = 0;
    while i < reverted.len()
        invariant
            i <= reverted@.len(),
            all_on_disk_before(reverted@, entries@, i as int),
        decreases reverted.len() - i,
    {
        let mut j: usize = 0;
        let mut found = false;
        while j < entries.len() && !found
            invariant
                i < reverted@.len(),
                j <= entries@.len(),
                found ==> is_on_disk(reverted@[i as int]@, entries@),
                !found ==> forall|b: int| 0 <= b < j ==> entries@[b].version@ != reverted@[i as int]@,
            decreases entries.len() - j,
        {
            if text_eq(entries[j].version.as_str(), reverted[i].as_str()) {
                found = true;
            }
            j = j + 1;
        }
        if !found {
            assert(!is_on_disk(reverted@[i as int]@, entries@));
            assert(!all_on_disk_before(reverted@, entries@, reverted@.len() as int));
            return Err(Error::UnknownMigrationVersion(reverted[i].clone()));
        }
        i = i + 1;
    }
    Ok(sort_versions(reverted))
}

/// The supported database backends.
#[derive(Clone, Copy, Debug, PartialEq, Eq)]
pub enum Backend {
    Postgres,
    Mysql,
    Sqlite,
}

impl Backend {
    /// The backend runs schema changes inside transactions.
    pub open spec fn transactional_ddl(self) -> bool {
        !(self is Mysql)
    }
}

/// Whether a redo on `backend` may use one enclosing transaction: MySQL
/// commits schema changes implicitly, the others do not.
pub fn should_redo_migration_in_transaction(backend: Backend) -> (r: bool)
    ensures
        r == backend.transactional_ddl(),
{
    match backend {
        Backend::Mysql => false,
        _ => true,
    }
}

/// After running every pending version, nothing is pending: a second run applies nothing.
pub proof fn lemma_run_idempotent(entries: Seq<Migration>, applied: Seq<String>, run: Seq<String>)
    requires
        run.to_multiset() == unapplied_versions(entries, applied).to_multiset(),
    ensures
        unapplied_versions(entries, applied + run) == Seq::<String>::empty(),
{
    let all = entry_versions(entries);
    let after = applied + run;
    let rest = all.filter(unapplied(after));
    if rest.len() > 0 {
        all.lemma_filter_pred(unapplied(after), 0);
        let v = rest[0];
        assert(rest.contains(v));
        all.lemma_filter_contains_rev(unapplied(after), v);
        assert(all.contains(v));
        let k = choose|k: int| 0 <= k < all.len() && all[k] == v;
        assert(!is_applied(v@, after));
        if is_applied(v@, applied) {
            let i = choose|i: int| 0 <= i < applied.len() && #[trigger] applied[i]@ == v@;
            assert(after[i] == applied[i]);
        } else {
            all.lemma_filter_contains(unapplied(applied), k);
            let pend = all.filter(unapplied(applied));
            assert(pend.contains(v));
            assert(pend.to_multiset().count(v) > 0);
            assert(run.to_multiset().count(v) > 0);
            assert(run.contains(v));
            let i = choose|i: int| 0 <= i < run.len() && run[i] == v;
            assert(after[applied.len() + i] == run[i]);
        }
    }
    assert(rest =~= Seq::<String>::empty());
}

/// A redo of every applied migration gives back the same applied sequence:
/// reverting all of them logs the applied versions most recent first, a plan
/// that reapplies the logged versions in ascending order appends them again,
/// and when they had been applied in ascending order the result is the
/// applied sequence itself.
pub proof fn lemma_redo_all_restores(applied: Seq<String>, plan: Seq<String>)
    requires
        versions_strictly_sorted(applied),
        applied.len() < u64::MAX,
        plan.to_multiset() == revert_session(RevertLoop::new_spec(RevertCount::All), applied, Seq::empty()).2.to_multiset(),
        versions_sorted(plan),
    ensures
        revert_session(RevertLoop::new_spec(RevertCount::All), applied, Seq::empty()).1 + plan == applied,
{
    lemma_revert_all_empties(applied);
    applied.lemma_reverse_to_multiset();
    lemma_sorted_arrangement_unique(applied, plan);
    assert(Seq::<String>::empty() + plan =~= plan);
}

} // verus!
