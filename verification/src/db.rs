//! What the database layer decides rather than stores: which schema statements run on
//! start-up, how task rows are written and read back, and which run is the latest of
//! each task.
use vstd::prelude::*;
use crate::sync::{DbTask, LatestLog};
use crate::task::{opt_env_view, opt_views};
use crate::text::{
    all_digits, decimal, digit_char, digit_value, digits_value, is_digit, push_decimal,
    chars_of, env_view, views, i64_text_value, lemma_split_last, lemma_split_step, parse_i64, split_on,
    string_from_range, trim, trim_range, trimmed,
};

verus! {

/// A request received on the webhook endpoint, as it is stored and shown.
pub struct WebhookLog {
    pub id: i64,
    pub path: String,
    pub method: String,
    pub remote_addr: Option<String>,
    pub headers: String,
    pub body: String,
    pub created_at: String,
}

/// The statements among the pieces `ps`: each piece trimmed, empty ones dropped.
pub open spec fn statements_of(ps: Seq<Seq<char>>) -> Seq<Seq<char>>
    decreases ps.len(),
{
    if ps.len() == 0 {
        Seq::empty()
    } else {
        let t = trimmed(ps[0]);
        (if t.len() == 0 { Seq::empty() } else { seq![t] }) + statements_of(ps.drop_first())
    }
}

/// The statements of an SQL script: its text between semicolons, trimmed, empty ones
/// dropped.
pub open spec fn sql_statements(sql: Seq<char>) -> Seq<Seq<char>> {
    statements_of(split_on(sql, ';'))
}

proof fn lemma_statements_cons(x: Seq<char>, rest: Seq<Seq<char>>)
    ensures
        statements_of(seq![x] + rest) == (if trimmed(x).len() == 0 { Seq::empty() } else { seq![trimmed(x)] })
            + statements_of(rest),
{
    let ps = seq![x] + rest;
    assert(ps[0] == x);
    assert(ps.drop_first() =~= rest);
}

/// The statements of an SQL script, in order.
pub fn split_sql(sql: &str) -> (out: Vec<String>)
    ensures
        out@.map_values(|s: String| s@) == sql_statements(sql@),
{
    let v = chars_of(sql);
    let n = v.len();
    let mut out: Vec<String> = Vec::new();
    let mut start: usize = 0;
    let mut k: usize = 0;
    assert(v@.subrange(0, n as int) =~= v@);
    while k < n
        invariant
            v@ == sql@,
            n == v@.len(),
            start <= k <= n,
            forall|q: int| start <= q < k ==> v@[q] != ';',
            out@.map_values(|s: String| s@) + statements_of(split_on(v@.subrange(start as int, n as int), ';'))
                == sql_statements(v@),
        decreases n - k,
    {
        if v[k] == ';' {
            proof {
                lemma_split_step(v@, ';', start as int, k as int);
                lemma_statements_cons(v@.subrange(start as int, k as int), split_on(v@.subrange(k + 1, n as int), ';'));
            }
            let t = trim_range(&v, start, k);
            let ghost before = out@.map_values(|s: String| s@);
            if t.unicode_len() > 0 {
                out.push(t);
                assert(out@.map_values(|s: String| s@) =~= before.push(t@));
                assert(before.push(t@) + statements_of(split_on(v@.subrange(k + 1, n as int), ';')) =~= before
                    + (seq![t@] + statements_of(split_on(v@.subrange(k + 1, n as int), ';'))));
            } else {
                assert(Seq::<Seq<char>>::empty() + statements_of(split_on(v@.subrange(k + 1, n as int), ';'))
                    =~= statements_of(split_on(v@.subrange(k + 1, n as int), ';')));
            }
            start = k + 1;
        }
        k = k + 1;
    }
    proof {
        lemma_split_last(v@, ';', start as int);
        lemma_statements_cons(v@.subrange(start as int, n as int), Seq::empty());
        assert(seq![v@.subrange(start as int, n as int)] + Seq::<Seq<char>>::empty()
            =~= seq![v@.subrange(start as int, n as int)]);
        assert(statements_of(Seq::<Seq<char>>::empty()) =~= Seq::<Seq<char>>::empty());
    }
    let t = trim_range(&v, start, n);
    let ghost before = out@.map_values(|s: String| s@);
    if t.unicode_len() > 0 {
        out.push(t);
        assert(out@.map_values(|s: String| s@) =~= before + seq![t@]);
    } else {
        assert(before + Seq::<Seq<char>>::empty() =~= before);
    }
    out
}

/// A migration of the schema to `version`, by the SQL script `sql`.
pub struct Migration {
    pub version: i64,
    pub sql: String,
}

/// One thing to do to the database on start-up.
pub enum SchemaStep {
    /// Run one SQL statement.
    Execute(String),
    /// Record the schema version in the key-value table.
    SetVersion(i64),
}

/// A schema step, by its text.
pub enum SchemaStepView {
    Execute(Seq<char>),
    SetVersion(i64),
}

impl SchemaStep {
    pub open spec fn view(self) -> SchemaStepView {
        match self {
            SchemaStep::Execute(s) => SchemaStepView::Execute(s@),
            SchemaStep::SetVersion(v) => SchemaStepView::SetVersion(v),
        }
    }
}

/// What start-up does to the schema.
#[derive(Debug)]
pub enum SchemaState {
    /// No version recorded: the full schema is installed.
    FreshInstall,
    /// An older version recorded: the newer migrations run.
    Upgrade,
    /// The recorded version is current or newer: nothing runs.
    UpToDate,
}

/// The start-up plan: what is done, and the steps, in order.
pub struct SchemaPlan {
    pub state: SchemaState,
    pub steps: Vec<SchemaStep>,
}

/// Each statement, as a step that runs it.
pub open spec fn executes(stmts: Seq<Seq<char>>) -> Seq<SchemaStepView> {
    stmts.map_values(|t: Seq<char>| SchemaStepView::Execute(t))
}

/// The steps of the migrations newer than `current`, in order: each one's statements,
/// then the record of its version.
pub open spec fn migration_steps(ms: Seq<Migration>, current: i64) -> Seq<SchemaStepView>
    decreases ms.len(),
{
    if ms.len() == 0 {
        Seq::empty()
    } else {
        migration_steps(ms.drop_last(), current) + if ms.last().version > current {
            executes(sql_statements(ms.last().sql@)).push(SchemaStepView::SetVersion(ms.last().version))
        } else {
            Seq::empty()
        }
    }
}

/// Whether a migration newer than `current` exists.
pub open spec fn any_newer(ms: Seq<Migration>, current: i64) -> bool {
    exists|i: int| 0 <= i < ms.len() && ms[i].version > current
}

/// The start-up plan for a database at version `current` (0 for none) and a schema at
/// version `target` with the full script `sql` and the migrations `ms`: a fresh install
/// runs the full script; an older database runs the newer migrations, or, when there are
/// none, only records the target version; a current one is left alone.
pub open spec fn schema_plan_of(current: i64, target: i64, sql: Seq<char>, ms: Seq<Migration>) -> (SchemaState, Seq<SchemaStepView>) {
    if current == 0 {
        (SchemaState::FreshInstall, executes(sql_statements(sql)))
    } else if current < target {
        (SchemaState::Upgrade, if any_newer(ms, current) {
            migration_steps(ms, current)
        } else {
            seq![SchemaStepView::SetVersion(target)]
        })
    } else {
        (SchemaState::UpToDate, Seq::empty())
    }
}

fn push_executes(steps: &mut Vec<SchemaStep>, sql: &str)
    ensures
        final(steps)@.map_values(|x: SchemaStep| x.view()) == old(steps)@.map_values(|x: SchemaStep| x.view())
            + executes(sql_statements(sql@)),
{
    let stmts = split_sql(sql);
    let mut i: usize = 0;
    let ghost base = steps@.map_values(|x: SchemaStep| x.view());
    while i < stmts.len()
        invariant
            i <= stmts@.len(),
            stmts@.map_values(|s: String| s@) == sql_statements(sql@),
            steps@.map_values(|x: SchemaStep| x.view()) == base
                + executes(stmts@.map_values(|s: String| s@).take(i as int)),
        decreases stmts@.len() - i,
    {
        let t = String::from_str(stmts[i].as_str());
        let ghost before = steps@.map_values(|x: SchemaStep| x.view());
        steps.push(SchemaStep::Execute(t));
        assert(stmts@.map_values(|s: String| s@).take(i + 1) =~= stmts@.map_values(|s: String| s@).take(i as int).push(t@));
        assert(steps@.map_values(|x: SchemaStep| x.view()) =~= before.push(SchemaStepView::Execute(t@)));
        assert(executes(stmts@.map_values(|s: String| s@).take(i + 1)) =~= executes(stmts@.map_values(|s: String| s@).take(i as int)).push(SchemaStepView::Execute(t@)));
        i = i + 1;
    }
    assert(stmts@.map_values(|s: String| s@).take(stmts@.len() as int) =~= stmts@.map_values(|s: String| s@));
}

/// The start-up plan for the schema.
pub fn plan_schema(current: i64, target: i64, sql: &str, migrations: &Vec<Migration>) -> (p: SchemaPlan)
    ensures
        (p.state, p.steps@.map_values(|x: SchemaStep| x.view())) == schema_plan_of(current, target, sql@, migrations@),
        current != 0 && current < target ==> forall|i: int| 0 <= i < migrations@.len() && #[trigger] migrations@[i].version > current
            ==> p.steps@.map_values(|x: SchemaStep| x.view()).contains(SchemaStepView::SetVersion(migrations@[i].version)),
        current != 0 && current < target ==> forall|k: int| 0 <= k < p.steps@.len() ==> match #[trigger] p.steps@[k] {
            SchemaStep::SetVersion(v) => v == target || exists|i: int| 0 <= i < migrations@.len()
                && migrations@[i].version > current && migrations@[i].version == v,
            SchemaStep::Execute(st) => exists|i: int| 0 <= i < migrations@.len() && migrations@[i].version > current
                && sql_statements(migrations@[i].sql@).contains(st@),
        },
{
    proof {
        if current != 0 && current < target {
            lemma_upgrade_runs_newer_migrations(current, target, sql@, migrations@);
        }
    }
    let mut steps: Vec<SchemaStep> = Vec::new();
    assert(steps@.map_values(|x: SchemaStep| x.view()) =~= Seq::<SchemaStepView>::empty());
    if current == 0 {
        push_executes(&mut steps, sql);
        assert(Seq::<SchemaStepView>::empty() + executes(sql_statements(sql@)) =~= executes(sql_statements(sql@)));
        return SchemaPlan { state: SchemaState::FreshInstall, steps };
    }
    if current >= target {
        return SchemaPlan { state: SchemaState::UpToDate, steps };
    }
    let mut applied = false;
    let mut i: usize = 0;
    assert(migrations@.take(0) =~= Seq::<Migration>::empty());
    while i < migrations.len()
        invariant
            current != 0 && current < target,
            i <= migrations@.len(),
            steps@.map_values(|x: SchemaStep| x.view()) == migration_steps(migrations@.take(i as int), current),
            applied == any_newer(migrations@.take(i as int), current),
        decreases migrations@.len() - i,
    {
        let m = &migrations[i];
        let ghost before = steps@.map_values(|x: SchemaStep| x.view());
        assert(migrations@.take(i + 1).drop_last() =~= migrations@.take(i as int));
        assert(migrations@.take(i + 1).last() == migrations@[i as int]);
        if m.version > current {
            push_executes(&mut steps, m.sql.as_str());
            let ghost mid = steps@.map_values(|x: SchemaStep| x.view());
            steps.push(SchemaStep::SetVersion(m.version));
            assert(steps@.map_values(|x: SchemaStep| x.view()) =~= mid.push(SchemaStepView::SetVersion(m.version)));
            assert(mid.push(SchemaStepView::SetVersion(m.version)) =~= before
                + executes(sql_statements(m.sql@)).push(SchemaStepView::SetVersion(m.version)));
            applied = true;
            assert(any_newer(migrations@.take(i + 1), current)) by {
                assert(migrations@.take(i + 1)[i as int] == migrations@[i as int]);
            }
        } else {
            assert(before + Seq::<SchemaStepView>::empty() =~= before);
            assert(any_newer(migrations@.take(i + 1), current) == any_newer(migrations@.take(i as int), current)) by {
                let ghost a = migrations@.take(i + 1);
                let ghost b = migrations@.take(i as int);
                if any_newer(a, current) {
                    let j = choose|j: int| 0 <= j < a.len() && #[trigger] a[j].version > current;
                    assert(b[j] == a[j]);
                }
                if any_newer(b, current) {
                    let j = choose|j: int| 0 <= j < b.len() && #[trigger] b[j].version > current;
                    assert(b[j] == a[j]);
                }
            }
        }
        i = i + 1;
    }
    assert(migrations@.take(migrations@.len() as int) =~= migrations@);
    if !applied {
        steps.push(SchemaStep::SetVersion(target));
        assert(steps@.map_values(|x: SchemaStep| x.view()) =~= seq![SchemaStepView::SetVersion(target)]) by {
            assert(migration_steps(migrations@, current) =~= Seq::<SchemaStepView>::empty()) by {
                lemma_no_newer_steps(migrations@, current);
            }
        }
    }
    proof {
        lemma_upgrade_runs_newer_migrations(current, target, sql@, migrations@);
        let vs = steps@.map_values(|x: SchemaStep| x.view());
        assert forall|k: int| 0 <= k < steps@.len() implies match #[trigger] steps@[k] {
            SchemaStep::SetVersion(v) => v == target || exists|i: int| 0 <= i < migrations@.len()
                && migrations@[i].version > current && migrations@[i].version == v,
            SchemaStep::Execute(st) => exists|i: int| 0 <= i < migrations@.len() && migrations@[i].version > current
                && sql_statements(migrations@[i].sql@).contains(st@),
        } by {
            assert(vs[k] == steps@[k].view());
        }
    }
    SchemaPlan { state: SchemaState::Upgrade, steps }
}

proof fn lemma_no_newer_steps(ms: Seq<Migration>, current: i64)
    requires
        !any_newer(ms, current),
    ensures
        migration_steps(ms, current) == Seq::<SchemaStepView>::empty(),
    decreases ms.len(),
{
    if ms.len() > 0 {
        assert(!any_newer(ms.drop_last(), current)) by {
            if any_newer(ms.drop_last(), current) {
                let d = ms.drop_last();
                let j = choose|j: int| 0 <= j < d.len() && #[trigger] d[j].version > current;
                assert(ms[j] == ms.drop_last()[j]);
            }
        }
        lemma_no_newer_steps(ms.drop_last(), current);
        assert(ms.last() == ms[ms.len() - 1]);
        assert(Seq::<SchemaStepView>::empty() + Seq::<SchemaStepView>::empty() =~= Seq::<SchemaStepView>::empty());
    }
}

/// The steps of the first migrations are the first steps of all of them.
proof fn lemma_steps_prefix(ms: Seq<Migration>, current: i64, n: int)
    requires
        0 <= n <= ms.len(),
    ensures
        migration_steps(ms.take(n), current).len() <= migration_steps(ms, current).len(),
        forall|k: int| 0 <= k < migration_steps(ms.take(n), current).len()
            ==> migration_steps(ms, current)[k] == #[trigger] migration_steps(ms.take(n), current)[k],
    decreases ms.len(),
{
    if n == ms.len() {
        assert(ms.take(n) =~= ms);
    } else {
        let init = ms.drop_last();
        assert(init.take(n) =~= ms.take(n));
        lemma_steps_prefix(init, current, n);
    }
}

/// The steps of the first `i + 1` migrations: those of the first `i`, then, for a newer
/// migration `i`, its statements and the record of its version.
proof fn lemma_steps_take_next(ms: Seq<Migration>, current: i64, i: int)
    requires
        0 <= i < ms.len(),
    ensures
        migration_steps(ms.take(i + 1), current) == migration_steps(ms.take(i), current) + if ms[i].version > current {
            executes(sql_statements(ms[i].sql@)).push(SchemaStepView::SetVersion(ms[i].version))
        } else {
            Seq::<SchemaStepView>::empty()
        },
{
    let t = ms.take(i + 1);
    assert(t.drop_last() =~= ms.take(i));
    assert(t.last() == ms[i]);
}

/// Every step comes from a newer migration: a record is that of a newer migration's
/// version, and a statement is one of a newer migration's statements.
proof fn lemma_steps_from_newer(ms: Seq<Migration>, current: i64)
    ensures
        forall|k: int| 0 <= k < migration_steps(ms, current).len() ==> match #[trigger] migration_steps(ms, current)[k] {
            SchemaStepView::SetVersion(v) => exists|i: int| 0 <= i < ms.len() && ms[i].version > current && ms[i].version == v,
            SchemaStepView::Execute(st) => exists|i: int| 0 <= i < ms.len() && ms[i].version > current
                && sql_statements(ms[i].sql@).contains(st),
        },
    decreases ms.len(),
{
    if ms.len() > 0 {
        let init = ms.drop_last();
        lemma_steps_from_newer(init, current);
        let a = migration_steps(init, current);
        let all = migration_steps(ms, current);
        let m = ms.last();
        assert(m == ms[ms.len() - 1]);
        assert forall|k: int| 0 <= k < all.len() implies match #[trigger] all[k] {
            SchemaStepView::SetVersion(v) => exists|i: int| 0 <= i < ms.len() && ms[i].version > current && ms[i].version == v,
            SchemaStepView::Execute(st) => exists|i: int| 0 <= i < ms.len() && ms[i].version > current
                && sql_statements(ms[i].sql@).contains(st),
        } by {
            if k < a.len() {
                assert(all[k] == a[k]);
                match a[k] {
                    SchemaStepView::SetVersion(v) => {
                        let i = choose|i: int| 0 <= i < init.len() && init[i].version > current && init[i].version == v;
                        assert(ms[i] == init[i]);
                    },
                    SchemaStepView::Execute(st) => {
                        let i = choose|i: int| 0 <= i < init.len() && init[i].version > current
                            && sql_statements(init[i].sql@).contains(st);
                        assert(ms[i] == init[i]);
                    },
                }
            } else {
                assert(m.version > current);
                let e = executes(sql_statements(m.sql@));
                let b = e.push(SchemaStepView::SetVersion(m.version));
                assert(all[k] == b[k - a.len()]);
                if k - a.len() < e.len() {
                    let idx = k - a.len();
                    assert(b[idx] == SchemaStepView::Execute(sql_statements(m.sql@)[idx]));
                    assert(sql_statements(m.sql@).contains(sql_statements(m.sql@)[idx]));
                }
            }
        }
    }
}

/// Where migration `i`'s record stands among the steps: right after the steps of the
/// migrations before it and its own statements.
proof fn lemma_record_position(ms: Seq<Migration>, current: i64, i: int)
    requires
        0 <= i < ms.len(),
        ms[i].version > current,
    ensures
        ({
            let a = migration_steps(ms.take(i), current);
            let b = migration_steps(ms.take(i + 1), current);
            &&& b.len() >= 1
            &&& b.len() - 1 >= a.len()
            &&& b.len() <= migration_steps(ms, current).len()
            &&& migration_steps(ms, current)[b.len() - 1] == SchemaStepView::SetVersion(ms[i].version)
        }),
{
    lemma_steps_take_next(ms, current, i);
    lemma_steps_prefix(ms, current, i + 1);
    let b = migration_steps(ms.take(i + 1), current);
    assert(b[b.len() - 1] == SchemaStepView::SetVersion(ms[i].version));
}

proof fn lemma_records_present(ms: Seq<Migration>, current: i64)
    ensures
        forall|i: int| 0 <= i < ms.len() && #[trigger] ms[i].version > current
            ==> migration_steps(ms, current).contains(SchemaStepView::SetVersion(ms[i].version)),
{
    assert forall|i: int| 0 <= i < ms.len() && #[trigger] ms[i].version > current
        implies migration_steps(ms, current).contains(SchemaStepView::SetVersion(ms[i].version)) by {
        lemma_record_position(ms, current, i);
        let b = migration_steps(ms.take(i + 1), current);
        assert(migration_steps(ms, current)[b.len() - 1] == SchemaStepView::SetVersion(ms[i].version));
    }
}

proof fn lemma_statements_present(ms: Seq<Migration>, current: i64)
    ensures
        forall|i: int, st: Seq<char>| 0 <= i < ms.len() && ms[i].version > current
            && #[trigger] sql_statements(ms[i].sql@).contains(st) ==> migration_steps(ms, current).contains(SchemaStepView::Execute(st)),
{
    assert forall|i: int, st: Seq<char>| 0 <= i < ms.len() && ms[i].version > current
        && #[trigger] sql_statements(ms[i].sql@).contains(st) implies migration_steps(ms, current).contains(SchemaStepView::Execute(st)) by {
        lemma_steps_take_next(ms, current, i);
        lemma_steps_prefix(ms, current, i + 1);
        let a = migration_steps(ms.take(i), current);
        let b = migration_steps(ms.take(i + 1), current);
        let stmts = sql_statements(ms[i].sql@);
        let idx = choose|idx: int| 0 <= idx < stmts.len() && stmts[idx] == st;
        assert(b[a.len() + idx] == SchemaStepView::Execute(st));
        assert(migration_steps(ms, current)[a.len() + idx] == b[a.len() + idx]);
    }
}

proof fn lemma_records_in_order(ms: Seq<Migration>, current: i64)
    ensures
        forall|i: int, j: int| 0 <= i < j < ms.len() && #[trigger] ms[i].version > current && #[trigger] ms[j].version > current
            ==> exists|p: int, q: int| 0 <= p < q < migration_steps(ms, current).len()
                && migration_steps(ms, current)[p] == SchemaStepView::SetVersion(ms[i].version)
                && migration_steps(ms, current)[q] == SchemaStepView::SetVersion(ms[j].version),
{
    let steps = migration_steps(ms, current);
    assert forall|i: int, j: int| 0 <= i < j < ms.len() && #[trigger] ms[i].version > current && #[trigger] ms[j].version > current
        implies exists|p: int, q: int| 0 <= p < q < steps.len() && steps[p] == SchemaStepView::SetVersion(ms[i].version)
            && steps[q] == SchemaStepView::SetVersion(ms[j].version) by {
        lemma_record_position(ms, current, i);
        lemma_record_position(ms, current, j);
        let bi = migration_steps(ms.take(i + 1), current);
        let aj = migration_steps(ms.take(j), current);
        let bj = migration_steps(ms.take(j + 1), current);
        lemma_steps_prefix(ms.take(j), current, i + 1);
        assert(ms.take(j).take(i + 1) =~= ms.take(i + 1));
        assert(bi.len() <= aj.len());
        assert(steps[bi.len() - 1] == SchemaStepView::SetVersion(ms[i].version));
        assert(steps[bj.len() - 1] == SchemaStepView::SetVersion(ms[j].version));
    }
}

/// An upgrade runs every migration newer than the recorded version, in the order they are
/// listed, and nothing else: for a database at version `current`, older than `target`,
/// every migration whose version exceeds `current` has each of its statements run and its
/// version recorded, a migration listed before another has its version recorded first,
/// and every step belongs to such a migration. With no newer migration, only `target` is
/// recorded.
pub proof fn lemma_upgrade_runs_newer_migrations(current: i64, target: i64, sql: Seq<char>, ms: Seq<Migration>)
    requires
        current != 0,
        current < target,
    ensures
        schema_plan_of(current, target, sql, ms).0 == SchemaState::Upgrade,
        (exists|i: int| 0 <= i < ms.len() && ms[i].version > current) ==> {
            let steps = schema_plan_of(current, target, sql, ms).1;
            &&& forall|i: int| 0 <= i < ms.len() && #[trigger] ms[i].version > current
                ==> steps.contains(SchemaStepView::SetVersion(ms[i].version))
            &&& forall|i: int, st: Seq<char>| 0 <= i < ms.len() && ms[i].version > current
                && #[trigger] sql_statements(ms[i].sql@).contains(st) ==> steps.contains(SchemaStepView::Execute(st))
            &&& forall|i: int, j: int| 0 <= i < j < ms.len() && #[trigger] ms[i].version > current && #[trigger] ms[j].version > current
                ==> exists|p: int, q: int| 0 <= p < q < steps.len() && steps[p] == SchemaStepView::SetVersion(ms[i].version)
                    && steps[q] == SchemaStepView::SetVersion(ms[j].version)
            &&& forall|k: int| 0 <= k < steps.len() ==> match #[trigger] steps[k] {
                SchemaStepView::SetVersion(v) => exists|i: int| 0 <= i < ms.len() && ms[i].version > current && ms[i].version == v,
                SchemaStepView::Execute(st) => exists|i: int| 0 <= i < ms.len() && ms[i].version > current
                    && sql_statements(ms[i].sql@).contains(st),
            }
        },
        !(exists|i: int| 0 <= i < ms.len() && ms[i].version > current)
            ==> schema_plan_of(current, target, sql, ms).1 == seq![SchemaStepView::SetVersion(target)],
{
    if exists|i: int| 0 <= i < ms.len() && ms[i].version > current {
        assert(any_newer(ms, current));
        assert(schema_plan_of(current, target, sql, ms).1 == migration_steps(ms, current));
        lemma_steps_from_newer(ms, current);
        lemma_records_present(ms, current);
        lemma_statements_present(ms, current);
        lemma_records_in_order(ms, current);
    } else {
        assert(!any_newer(ms, current));
    }
}

/// The schema version recorded in the key-value table: the stored text read as an
/// integer, 0 when there is none or it does not read.
pub fn stored_schema_version(stored: Option<&str>) -> (v: i64)
    ensures
        v == match stored {
            Some(t) => match i64_text_value(t@) {
                Some(x) => x,
                None => 0,
            },
            None => 0,
        },
{
    match stored {
        Some(t) => match parse_i64(t) {
            Some(x) => x,
            None => 0,
        },
        None => 0,
    }
}

/// The administrator to authorize on start-up: the `ADMIN_USER` setting, trimmed, when
/// it is not blank.
pub fn admin_login(setting: Option<&str>) -> (a: Option<String>)
    ensures
        match setting {
            Some(t) => if trimmed(t@).len() > 0 {
                a matches Some(x) && x@ == trimmed(t@)
            } else {
                a is None
            },
            None => a is None,
        },
{
    match setting {
        Some(t) => {
            let x = trim(t);
            if x.unicode_len() > 0 {
                Some(x)
            } else {
                None
            }
        },
        None => None,
    }
}

/// Names the JSON text that `serde_json::to_string` makes of a list of strings.
pub uninterp spec fn json_of_strings(v: Seq<Seq<char>>) -> Seq<char>;

/// Names the JSON object text that `serde_json::to_string` makes of a map from names to
/// values, written in the order of its names.
pub uninterp spec fn json_of_env(m: Map<Seq<char>, Seq<char>>) -> Seq<char>;

/// Names the list of strings that `serde_json::from_str` reads from a JSON text, if any.
pub uninterp spec fn strings_of_json(j: Seq<char>) -> Option<Seq<Seq<char>>>;

/// Names the map from names to values that `serde_json::from_str` reads from a JSON
/// object text, if any.
pub uninterp spec fn env_of_json(j: Seq<char>) -> Option<Map<Seq<char>, Seq<char>>>;

/// `serde_json::to_string` of a list of strings (which cannot fail for strings). Claims
/// that the result is the named `json_of_strings` of the list, and that
/// `serde_json::from_str` reads the same list back from it (every string is written as
/// an escaped JSON string and read back unescaped).
#[verifier::external_body]
fn strings_to_json(v: &Vec<String>) -> (j: String)
    ensures
        j@ == json_of_strings(views(v@)),
        strings_of_json(j@) == Some(views(v@)),
{
    serde_json::to_string(v).unwrap()
}

/// `serde_json::to_string` of the environment pairs gathered into a `BTreeMap`, the last
/// pair of a name winning (which cannot fail for string keys and values). Claims that the
/// result is the named `json_of_env` of the map the pairs stand for, and that
/// `serde_json::from_str` reads that same map back from it (each name is written once,
/// as are the values, as escaped JSON strings).
#[verifier::external_body]
fn env_to_json(env: &Vec<(String, String)>) -> (j: String)
    ensures
        j@ == json_of_env(env_view(env@)),
        env_of_json(j@) == Some(env_view(env@)),
{
    let m: std::collections::BTreeMap<&str, &str> = env.iter().map(|(k, v)| (k.as_str(), v.as_str())).collect();
    serde_json::to_string(&m).unwrap()
}

/// `serde_json::from_str::<Vec<String>>`. Claims only that the result is the named
/// `strings_of_json` of the text.
#[verifier::external_body]
fn json_to_strings(j: &str) -> (r: Option<Vec<String>>)
    ensures
        match r {
            Some(v) => strings_of_json(j@) == Some(views(v@)),
            None => strings_of_json(j@) is None,
        },
{
    serde_json::from_str::<Vec<String>>(j).ok()
}

/// `serde_json::from_str` of a map from names to values, read into a `BTreeMap` and
/// listed as pairs. Claims only that the map the pairs stand for is the named
/// `env_of_json` of the text.
#[verifier::external_body]
fn json_to_env(j: &str) -> (r: Option<Vec<(String, String)>>)
    ensures
        match r {
            Some(v) => env_of_json(j@) == Some(env_view(v@)),
            None => env_of_json(j@) is None,
        },
{
    serde_json::from_str::<std::collections::BTreeMap<String, String>>(j).ok().map(|m| m.into_iter().collect())
}

/// How a task is written to its row: as a new row (no id) or over the row `id`, with its
/// arguments and environment as JSON texts and its enabled flag as 1 or 0.
pub struct TaskRowWrite {
    pub id: Option<u128>,
    pub args_json: Option<String>,
    pub env_json: Option<String>,
    pub enabled: i64,
}

/// Whether `w` writes these arguments, environment and flag: each list as its JSON text,
/// from which the same list reads back, and the flag as 1 or 0.
pub open spec fn writes_fields(w: TaskRowWrite, args: Option<Vec<String>>, env: Option<Vec<(String, String)>>, enabled: bool) -> bool {
    &&& match args {
        Some(a) => w.args_json matches Some(j) && j@ == json_of_strings(views(a@)) && strings_of_json(j@) == Some(views(a@)),
        None => w.args_json is None,
    }
    &&& match env {
        Some(e) => w.env_json matches Some(j) && j@ == json_of_env(env_view(e@)) && env_of_json(j@) == Some(env_view(e@)),
        None => w.env_json is None,
    }
    &&& w.enabled == if enabled { 1i64 } else { 0i64 }
}

/// Whether `t` holds what these stored texts and flag read as: a list that is missing or
/// does not read as JSON is none, and any flag but 0 means enabled.
pub open spec fn reads_fields(t: DbTask, args_json: Option<String>, env_json: Option<String>, enabled: i64) -> bool {
    &&& match args_json {
        Some(j) => match t.args {
            Some(a) => strings_of_json(j@) == Some(views(a@)),
            None => strings_of_json(j@) is None,
        },
        None => t.args is None,
    }
    &&& match env_json {
        Some(j) => match t.env {
            Some(e) => env_of_json(j@) == Some(env_view(e@)),
            None => env_of_json(j@) is None,
        },
        None => t.env is None,
    }
    &&& t.enabled == (enabled != 0)
}

/// How task `id` (0 for a new one) with these arguments, environment and flag is written.
pub fn encode_task_row(id: u128, args: &Option<Vec<String>>, env: &Option<Vec<(String, String)>>, enabled: bool) -> (w: TaskRowWrite)
    ensures
        w.id == if id == 0 { None } else { Some(id) },
        writes_fields(w, *args, *env, enabled),
{
    let args_json = match args {
        Some(a) => Some(strings_to_json(a)),
        None => None,
    };
    let env_json = match env {
        Some(e) => Some(env_to_json(e)),
        None => None,
    };
    TaskRowWrite {
        id: if id == 0 { None } else { Some(id) },
        args_json,
        env_json,
        enabled: if enabled { 1 } else { 0 },
    }
}

/// The task a stored row stands for: arguments and environment that are missing or do
/// not read as JSON are none, and any flag but 0 means enabled.
pub fn decode_task_row(
    id: u128,
    name: String,
    cron_expr: String,
    timezone: String,
    task_type: String,
    payload: Option<String>,
    args_json: Option<String>,
    env_json: Option<String>,
    sha256: Option<String>,
    enabled: i64,
) -> (t: DbTask)
    ensures
        t.id == id,
        t.name == name,
        t.cron_expr == cron_expr,
        t.timezone == timezone,
        t.task_type == task_type,
        t.payload == payload,
        t.sha256 == sha256,
        reads_fields(t, args_json, env_json, enabled),
{
    let args = match &args_json {
        Some(j) => json_to_strings(j.as_str()),
        None => None,
    };
    let env = match &env_json {
        Some(j) => json_to_env(j.as_str()),
        None => None,
    };
    DbTask { id, name, cron_expr, timezone, task_type, payload, args, env, sha256, enabled: enabled != 0 }
}

/// What is stored reads back: a task row written from some arguments, environment and
/// flag reads back as the same arguments, the same environment (as a map from names to
/// values) and the same flag.
pub proof fn lemma_task_row_round_trip(
    args: Option<Vec<String>>,
    env: Option<Vec<(String, String)>>,
    enabled: bool,
    w: TaskRowWrite,
    t: DbTask,
)
    requires
        writes_fields(w, args, env, enabled),
        reads_fields(t, w.args_json, w.env_json, w.enabled),
    ensures
        opt_views(t.args) == opt_views(args),
        opt_env_view(t.env) == opt_env_view(env),
        t.enabled == enabled,
{
}

/// Names the 128-bit value of a UUID text, as `uuid::Uuid::parse_str` reads it, if any.
pub uninterp spec fn uuid_value(text: Seq<char>) -> Option<u128>;

/// `uuid::Uuid::parse_str`, the result as a 128-bit integer. Claims only that the result
/// is the named `uuid_value` of the text.
#[verifier::external_body]
fn parse_uuid(text: &str) -> (r: Option<u128>)
    ensures
        r == uuid_value(text@),
{
    uuid::Uuid::parse_str(text).ok().map(|u| u.as_u128())
}

/// A row of the latest-runs query: the run's id as text, its task, when it ran, and how
/// long it took.
pub struct LogRow {
    pub log_id: String,
    pub task_id: u128,
    pub run_at: String,
    pub duration_ms: Option<i64>,
}

/// A latest run: task, run id, start and duration.
pub type LatestView = (u128, u128, Seq<char>, Option<i64>);

/// The latest run of `l`, by its text.
pub open spec fn latest_view(l: LatestLog) -> LatestView {
    (l.task_id, l.log_id, l.run_at@, l.duration_ms)
}

/// Whether no two entries are for the same task.
pub open spec fn one_per_task(acc: Seq<LatestView>) -> bool {
    forall|i: int, j: int| 0 <= i < j < acc.len() ==> acc[i].0 != acc[j].0
}

/// `acc` with `e` recorded: it replaces the entry of its task, or is added.
pub open spec fn put_latest(acc: Seq<LatestView>, e: LatestView) -> Seq<LatestView> {
    if exists|i: int| 0 <= i < acc.len() && acc[i].0 == e.0 {
        acc.update(choose|i: int| 0 <= i < acc.len() && acc[i].0 == e.0, e)
    } else {
        acc.push(e)
    }
}

/// The latest run of each task among `rows`, gathered as into a map from task to run:
/// a later row of a task replaces an earlier one, and rows whose run id is not a UUID are
/// skipped.
pub open spec fn latest_fold(rows: Seq<LogRow>) -> Seq<LatestView>
    decreases rows.len(),
{
    if rows.len() == 0 {
        Seq::empty()
    } else {
        let acc = latest_fold(rows.drop_last());
        let r = rows.last();
        match uuid_value(r.log_id@) {
            Some(l) => put_latest(acc, (r.task_id, l, r.run_at@, r.duration_ms)),
            None => acc,
        }
    }
}

/// The latest run of each task, one entry per task.
pub fn latest_logs(rows: &Vec<LogRow>) -> (out: Vec<LatestLog>)
    ensures
        out@.map_values(|l: LatestLog| latest_view(l)) == latest_fold(rows@),
        one_per_task(latest_fold(rows@)),
{
    let mut out: Vec<LatestLog> = Vec::new();
    let mut i: usize = 0;
    assert(rows@.take(0) =~= Seq::<LogRow>::empty());
    while i < rows.len()
        invariant
            i <= rows@.len(),
            out@.map_values(|l: LatestLog| latest_view(l)) == latest_fold(rows@.take(i as int)),
            one_per_task(latest_fold(rows@.take(i as int))),
        decreases rows@.len() - i,
    {
        let r = &rows[i];
        assert(rows@.take(i + 1).drop_last() =~= rows@.take(i as int));
        assert(rows@.take(i + 1).last() == rows@[i as int]);
        match parse_uuid(r.log_id.as_str()) {
            None => {},
            Some(l) => {
                let ghost acc = out@.map_values(|x: LatestLog| latest_view(x));
                let e = LatestLog { task_id: r.task_id, log_id: l, run_at: String::from_str(r.run_at.as_str()), duration_ms: r.duration_ms };
                let ghost ev = latest_view(e);
                let mut k: usize = 0;
                let mut found: Option<usize> = None;
                while k < out.len()
                    invariant
                        k <= out@.len(),
                        ev.0 == r.task_id,
                        acc == out@.map_values(|x: LatestLog| latest_view(x)),
                        found is None ==> forall|q: int| 0 <= q < k ==> acc[q].0 != ev.0,
                        found matches Some(f) ==> f < out@.len() && acc[f as int].0 == ev.0,
                    decreases out@.len() - k,
                {
                    assert(acc[k as int].0 == out@[k as int].task_id);
                    if found.is_none() && out[k].task_id == r.task_id {
                        found = Some(k);
                    }
                    k = k + 1;
                }
                match found {
                    Some(f) => {
                        proof {
                            let c = choose|q: int| 0 <= q < acc.len() && acc[q].0 == ev.0;
                            assert(c == f as int) by {
                                if c != f as int {
                                    if c < f as int {
                                        assert(acc[c].0 != acc[f as int].0);
                                    } else {
                                        assert(acc[f as int].0 != acc[c].0);
                                    }
                                }
                            }
                        }
                        out.set(f, e);
                        assert(out@.map_values(|x: LatestLog| latest_view(x)) =~= acc.update(f as int, ev));
                    },
                    None => {
                        out.push(e);
                        assert(out@.map_values(|x: LatestLog| latest_view(x)) =~= acc.push(ev));
                    },
                }
            },
        }
        i = i + 1;
    }
    assert(rows@.take(rows@.len() as int) =~= rows@);
    out
}

/// The decimal text of an integer, with a leading `-` when it is negative, as `to_string`
/// writes it.
pub open spec fn int_text(v: int) -> Seq<char> {
    if v < 0 {
        seq!['-'] + decimal((-v) as nat)
    } else {
        decimal(v as nat)
    }
}

/// The text under which a schema version is recorded.
pub fn version_text(v: i64) -> (s: String)
    ensures
        s@ == int_text(v as int),
{
    let mut s = String::new();
    if v < 0 {
        s.push('-');
        let a: i128 = -(v as i128);
        push_decimal(&mut s, a as u64);
    } else {
        push_decimal(&mut s, v as u64);
    }
    assert(s@ =~= int_text(v as int));
    s
}

proof fn lemma_decimal_digits(n: nat)
    ensures
        all_digits(decimal(n)),
        digits_value(decimal(n)) == n,
        decimal(n).len() > 0,
    decreases n,
{
    let d = (n % 10) as nat;
    assert(digit_value(digit_char(d)) == d && is_digit(digit_char(d))) by {
        assert(d < 10);
    }
    if n >= 10 {
        lemma_decimal_digits(n / 10);
        let s = decimal(n / 10).push(digit_char(d));
        assert(s.drop_last() =~= decimal(n / 10));
        assert(s.last() == digit_char(d));
        assert(decimal(n) == s);
        assert((n / 10) * 10 + d == n) by (nonlinear_arith)
            requires
                d == n % 10,
        {
        }
        assert(digits_value(s) == digits_value(decimal(n / 10)) * 10 + digit_value(digit_char(d)));
        assert(forall|i: int| 0 <= i < s.len() ==> is_digit(#[trigger] s[i])) by {
            assert forall|i: int| 0 <= i < s.len() implies is_digit(#[trigger] s[i]) by {
                if i < s.len() - 1 {
                    assert(s[i] == decimal(n / 10)[i]);
                }
            }
        }
    } else {
        assert(decimal(n) == seq![digit_char(n)]);
        assert(seq![digit_char(n)].drop_last() =~= Seq::<char>::empty());
        assert(d == n);
        assert(digits_value(seq![digit_char(n)]) == digits_value(Seq::<char>::empty()) * 10 + digit_value(digit_char(n)));
    }
}

/// A recorded schema version reads back as itself: the text `version_text` writes is read
/// by `stored_schema_version` as the same integer.
pub proof fn lemma_version_round_trip(v: i64)
    ensures
        i64_text_value(int_text(v as int)) == Some(v),
{
    if v < 0 {
        let m = (-(v as int)) as nat;
        lemma_decimal_digits(m);
        let t = seq!['-'] + decimal(m);
        assert(t[0] == '-');
        assert(t.drop_first() =~= decimal(m));
    } else {
        lemma_decimal_digits(v as nat);
        let t = decimal(v as nat);
        assert(t[0] != '-' && t[0] != '+') by {
            assert(is_digit(t[0]));
        }
    }
}

} // verus!
