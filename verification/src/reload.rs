//! What reloading the configuration guarantees: once a reload is applied, the tasks in
//! memory are the configured ones with their configured settings, and reloading the same
//! configuration again changes nothing.
use vstd::prelude::*;
use crate::config::{AppConfig, TaskConfigView};
use crate::scheduler::{Scheduler, id_pos, ids_unique, lemma_unique_pos, task_views, upsert_view};
use crate::sync::{
    SyncAcc, SyncPlan, config_views, configured, configured_task, existing_id, matches_config, name_pos, removal_ids, sync_fold,
    sync_step, sync_update_spec, task_with_id,
};
use crate::task::{TaskView, timezone_valid};

verus! {

/// No two tasks of `ts` share a name.
pub open spec fn names_unique(ts: Seq<TaskView>) -> bool {
    forall|i: int, j: int| 0 <= i < j < ts.len() ==> ts[i].name != ts[j].name
}

/// No two configured tasks share a name.
pub open spec fn config_names_unique(cfgs: Seq<TaskConfigView>) -> bool {
    forall|i: int, j: int| 0 <= i < j < cfgs.len() ==> cfgs[i].name != cfgs[j].name
}

/// Whether a reload acts on configuration `c`: a native task with a handler, or a WASM
/// task with a module; any other configured task is passed over.
pub open spec fn effective(c: TaskConfigView, handlers: Seq<Seq<char>>) -> bool {
    (c.task_type == "native"@ && handlers.contains(c.name)) || (c.task_type == "wasm"@ && c.payload is Some)
}

/// A native task's configuration names no module, arguments, environment or checksum
/// (a native task keeps none, so any would never match).
pub open spec fn plain_native(c: TaskConfigView) -> bool {
    c.task_type == "native"@ ==> c.payload is None && c.args is None && c.env is None && c.sha256 is None
}

/// The ids handed to new tasks are distinct and unused.
pub open spec fn fresh_ids_ok(snapshot: Seq<TaskView>, fresh: Seq<u128>) -> bool {
    &&& forall|i: int, j: int| 0 <= i < j < fresh.len() ==> fresh[i] != fresh[j]
    &&& forall|i: int, k: int| 0 <= i < fresh.len() && 0 <= k < snapshot.len() ==> fresh[i] != snapshot[k].id
}

/// `ts` after the tasks `us` are put in, in order, each replacing the task with its id.
pub open spec fn upsert_all(ts: Seq<TaskView>, us: Seq<TaskView>) -> Seq<TaskView>
    decreases us.len(),
{
    if us.len() == 0 {
        ts
    } else {
        upsert_view(upsert_all(ts, us.drop_last()), us.last())
    }
}

/// `ts` without its task with id `id`, if it has one.
pub open spec fn remove_id(ts: Seq<TaskView>, id: u128) -> Seq<TaskView> {
    if id_pos(ts, id) >= 0 {
        ts.remove(id_pos(ts, id))
    } else {
        ts
    }
}

/// `ts` after the tasks with the ids `ids` are removed, in order.
pub open spec fn remove_ids(ts: Seq<TaskView>, ids: Seq<u128>) -> Seq<TaskView>
    decreases ids.len(),
{
    if ids.len() == 0 {
        ts
    } else {
        remove_id(remove_ids(ts, ids.drop_last()), ids.last())
    }
}

/// The tasks after a reload of `cfgs` is applied to `snapshot`: its upserts put in, then
/// its removals taken out.
pub open spec fn reloaded(snapshot: Seq<TaskView>, handlers: Seq<Seq<char>>, cfgs: Seq<TaskConfigView>, fresh: Seq<u128>) -> Seq<TaskView> {
    remove_ids(
        upsert_all(snapshot, sync_fold(snapshot, handlers, cfgs, fresh).upserts),
        removal_ids(snapshot, cfgs, snapshot.len() as int),
    )
}

proof fn lemma_name_pos_unique(ts: Seq<TaskView>, i: int)
    requires
        names_unique(ts),
        0 <= i < ts.len(),
    ensures
        name_pos(ts, ts[i].name) == i,
{
    let n = ts[i].name;
    let j = name_pos(ts, n);
    assert(exists|k: int| 0 <= k < ts.len() && ts[k].name == n);
    assert(0 <= j < ts.len() && ts[j].name == n);
    if j != i {
        if j < i {
            assert(ts[j].name != ts[i].name);
        } else {
            assert(ts[i].name != ts[j].name);
        }
    }
}

proof fn lemma_name_pos_none(ts: Seq<TaskView>, n: Seq<char>)
    requires
        forall|k: int| 0 <= k < ts.len() ==> ts[k].name != n,
    ensures
        name_pos(ts, n) == -1,
        existing_id(ts, n) is None,
{
}

/// The reload state after the first `i` configured tasks.
pub open spec fn fold_prefix(snapshot: Seq<TaskView>, handlers: Seq<Seq<char>>, cfgs: Seq<TaskConfigView>, fresh: Seq<u128>, i: int) -> SyncAcc {
    sync_fold(snapshot, handlers, cfgs.take(i), fresh.take(i))
}

proof fn lemma_fold_prefix_step(snapshot: Seq<TaskView>, handlers: Seq<Seq<char>>, cfgs: Seq<TaskConfigView>, fresh: Seq<u128>, i: int)
    requires
        0 <= i < cfgs.len(),
        fresh.len() == cfgs.len(),
    ensures
        fold_prefix(snapshot, handlers, cfgs, fresh, i + 1) == sync_step(snapshot, handlers,
            fold_prefix(snapshot, handlers, cfgs, fresh, i), cfgs[i], fresh[i]),
{
    let c1 = cfgs.take(i + 1);
    let f1 = fresh.take(i + 1);
    assert(c1.drop_last() =~= cfgs.take(i));
    assert(f1.take(c1.len() - 1) =~= fresh.take(i));
    assert(c1.last() == cfgs[i]);
    assert(f1[c1.len() - 1] == fresh[i]);
}

proof fn lemma_fold_prefix_all(snapshot: Seq<TaskView>, handlers: Seq<Seq<char>>, cfgs: Seq<TaskConfigView>, fresh: Seq<u128>)
    requires
        fresh.len() == cfgs.len(),
    ensures
        fold_prefix(snapshot, handlers, cfgs, fresh, cfgs.len() as int) == sync_fold(snapshot, handlers, cfgs, fresh),
{
    assert(cfgs.take(cfgs.len() as int) =~= cfgs);
    assert(fresh.take(cfgs.len() as int) =~= fresh);
}

/// A reload that ends without error met none on the way.
proof fn lemma_no_error_before(snapshot: Seq<TaskView>, handlers: Seq<Seq<char>>, cfgs: Seq<TaskConfigView>, fresh: Seq<u128>, i: int)
    requires
        fresh.len() == cfgs.len(),
        0 <= i <= cfgs.len(),
        sync_fold(snapshot, handlers, cfgs, fresh).error is None,
    ensures
        fold_prefix(snapshot, handlers, cfgs, fresh, i).error is None,
    decreases cfgs.len() - i,
{
    if i < cfgs.len() {
        lemma_no_error_before(snapshot, handlers, cfgs, fresh, i + 1);
        lemma_fold_prefix_step(snapshot, handlers, cfgs, fresh, i);
    } else {
        lemma_fold_prefix_all(snapshot, handlers, cfgs, fresh);
    }
}

/// Task `t` of the working list after `i` configured tasks is a task of the snapshot (same
/// id and name) or the new task made for one of the first `i` configured tasks.
pub open spec fn origin_ok(snapshot: Seq<TaskView>, cfgs: Seq<TaskConfigView>, fresh: Seq<u128>, i: int, t: TaskView) -> bool {
    (exists|m: int| 0 <= m < snapshot.len() && #[trigger] snapshot[m].id == t.id && snapshot[m].name == t.name)
    || (exists|j: int| 0 <= j < i && #[trigger] fresh[j] == t.id && cfgs[j].name == t.name)
}

/// Some task of `w` bears the name of `c` and has its settings.
pub open spec fn has_match(w: Seq<TaskView>, c: TaskConfigView) -> bool {
    exists|k: int| 0 <= k < w.len() && #[trigger] w[k].name == c.name && matches_config(w[k], c)
}

/// Some task of `w` has the id and name of `s`.
pub open spec fn keeps(w: Seq<TaskView>, s: TaskView) -> bool {
    exists|k: int| 0 <= k < w.len() && #[trigger] w[k].id == s.id && w[k].name == s.name
}

/// What holds of the working list after the first `i` configured tasks of a reload.
pub open spec fn reload_inv(snapshot: Seq<TaskView>, handlers: Seq<Seq<char>>, cfgs: Seq<TaskConfigView>, fresh: Seq<u128>, i: int) -> bool {
    let acc = fold_prefix(snapshot, handlers, cfgs, fresh, i);
    let w = acc.work;
    &&& ids_unique(w)
    &&& names_unique(w)
    &&& w == upsert_all(snapshot, acc.upserts)
    &&& forall|k: int| 0 <= k < w.len() ==> origin_ok(snapshot, cfgs, fresh, i, #[trigger] w[k])
    &&& forall|j: int| 0 <= j < i && effective(cfgs[j], handlers) ==> has_match(w, #[trigger] cfgs[j])
    &&& forall|m: int| 0 <= m < snapshot.len() ==> keeps(w, #[trigger] snapshot[m])
}

/// What a reload asks of its inputs for its guarantees: tasks with distinct ids and
/// names, configured names distinct, fresh ids distinct and unused, native
/// configurations plain, and no error.
pub open spec fn reload_ok(snapshot: Seq<TaskView>, handlers: Seq<Seq<char>>, cfgs: Seq<TaskConfigView>, fresh: Seq<u128>) -> bool {
    &&& ids_unique(snapshot)
    &&& names_unique(snapshot)
    &&& config_names_unique(cfgs)
    &&& fresh.len() == cfgs.len()
    &&& fresh_ids_ok(snapshot, fresh)
    &&& forall|j: int| 0 <= j < cfgs.len() ==> plain_native(#[trigger] cfgs[j])
    &&& sync_fold(snapshot, handlers, cfgs, fresh).error is None
}

proof fn lemma_reload_inv_start(snapshot: Seq<TaskView>, handlers: Seq<Seq<char>>, cfgs: Seq<TaskConfigView>, fresh: Seq<u128>)
    requires
        reload_ok(snapshot, handlers, cfgs, fresh),
    ensures
        reload_inv(snapshot, handlers, cfgs, fresh, 0),
{
    assert(cfgs.take(0) =~= Seq::<TaskConfigView>::empty());
    let acc = fold_prefix(snapshot, handlers, cfgs, fresh, 0);
    assert(acc.work == snapshot);
    assert(acc.upserts == Seq::<TaskView>::empty());
    assert forall|k: int| 0 <= k < snapshot.len() implies origin_ok(snapshot, cfgs, fresh, 0, #[trigger] snapshot[k]) by {
        assert(snapshot[k].id == snapshot[k].id);
    }
    assert forall|m: int| 0 <= m < snapshot.len() implies keeps(snapshot, #[trigger] snapshot[m]) by {
        assert(snapshot[m].id == snapshot[m].id);
    }
}

proof fn lemma_reload_inv_step(snapshot: Seq<TaskView>, handlers: Seq<Seq<char>>, cfgs: Seq<TaskConfigView>, fresh: Seq<u128>, i: int)
    requires
        reload_ok(snapshot, handlers, cfgs, fresh),
        0 <= i < cfgs.len(),
        reload_inv(snapshot, handlers, cfgs, fresh, i),
    ensures
        reload_inv(snapshot, handlers, cfgs, fresh, i + 1),
{
    let acc = fold_prefix(snapshot, handlers, cfgs, fresh, i);
    let acc2 = fold_prefix(snapshot, handlers, cfgs, fresh, i + 1);
    let w = acc.work;
    let c = cfgs[i];
    let f = fresh[i];
    lemma_fold_prefix_step(snapshot, handlers, cfgs, fresh, i);
    lemma_no_error_before(snapshot, handlers, cfgs, fresh, i);
    lemma_no_error_before(snapshot, handlers, cfgs, fresh, i + 1);
    assert(plain_native(cfgs[i]));
    let eid = existing_id(snapshot, c.name);
    // where the configured name stands in the working list
    let ghost mut k0: int = -1;
    if exists|m: int| 0 <= m < snapshot.len() && snapshot[m].name == c.name {
        let m = choose|m: int| 0 <= m < snapshot.len() && snapshot[m].name == c.name;
        lemma_name_pos_unique(snapshot, m);
        assert(eid == Some(snapshot[m].id));
        assert(keeps(w, snapshot[m]));
        let k = choose|k: int| 0 <= k < w.len() && #[trigger] w[k].id == snapshot[m].id && w[k].name == snapshot[m].name;
        lemma_unique_pos(w, k);
        assert(task_with_id(w, snapshot[m].id) == Some(w[k]));
        k0 = k;
    } else {
        lemma_name_pos_none(snapshot, c.name);
        // no task of the working list bears the name
        assert forall|k: int| 0 <= k < w.len() implies w[k].name != c.name && w[k].id != f by {
            assert(origin_ok(snapshot, cfgs, fresh, i, w[k]));
            if exists|m: int| 0 <= m < snapshot.len() && #[trigger] snapshot[m].id == w[k].id && snapshot[m].name == w[k].name {
                let m = choose|m: int| 0 <= m < snapshot.len() && #[trigger] snapshot[m].id == w[k].id && snapshot[m].name == w[k].name;
                assert(fresh[i] != snapshot[m].id);
            } else {
                let j = choose|j: int| 0 <= j < i && #[trigger] fresh[j] == w[k].id && cfgs[j].name == w[k].name;
                assert(cfgs[j].name != cfgs[i].name);
                assert(fresh[j] != fresh[i]);
            }
        }
        assert(id_pos(w, f) == -1) by {
            if id_pos(w, f) >= 0 {
                let p = choose|p: int| 0 <= p < w.len() && w[p].id == f;
                assert(w[p].id != f);
            }
        }
    }
    let cur = match eid {
        Some(id) => task_with_id(w, id),
        None => None,
    };
    if cur matches Some(t) && matches_config(t, c) {
        assert(acc2.work == w && acc2.upserts == acc.upserts);
        assert forall|k: int| 0 <= k < w.len() implies origin_ok(snapshot, cfgs, fresh, i + 1, #[trigger] w[k]) by {
            assert(origin_ok(snapshot, cfgs, fresh, i, w[k]));
            if exists|j: int| 0 <= j < i && #[trigger] fresh[j] == w[k].id && cfgs[j].name == w[k].name {
                let j = choose|j: int| 0 <= j < i && #[trigger] fresh[j] == w[k].id && cfgs[j].name == w[k].name;
                assert(0 <= j < i + 1);
            }
        }
        assert forall|j: int| 0 <= j < i + 1 && effective(cfgs[j], handlers) implies has_match(w, #[trigger] cfgs[j]) by {
            if j == i {
                assert(w[k0].name == c.name);
            }
        }
    } else {
        let id = match eid {
            Some(x) => x,
            None => f,
        };
        assert(acc2 == sync_update_spec(acc, c, id, cur, handlers.contains(c.name)));
        if !effective(c, handlers) {
            assert(acc2.work == w && acc2.upserts == acc.upserts);
            assert forall|k: int| 0 <= k < w.len() implies origin_ok(snapshot, cfgs, fresh, i + 1, #[trigger] w[k]) by {
                assert(origin_ok(snapshot, cfgs, fresh, i, w[k]));
                if exists|j: int| 0 <= j < i && #[trigger] fresh[j] == w[k].id && cfgs[j].name == w[k].name {
                    let j = choose|j: int| 0 <= j < i && #[trigger] fresh[j] == w[k].id && cfgs[j].name == w[k].name;
                    assert(0 <= j < i + 1);
                }
            }
        } else {
            let native = c.task_type == "native"@;
            assert(timezone_valid(c.timezone));
            let t = configured_task(id, c, native, cur);
            assert(acc2.work == upsert_view(w, t));
            assert(acc2.upserts == acc.upserts.push(t));
            assert(acc.upserts.push(t).drop_last() =~= acc.upserts);
            assert(matches_config(t, c));
            let w2 = acc2.work;
            if k0 >= 0 {
                assert(id_pos(w, id) == k0);
                assert(w2 == w.update(k0, t));
                assert(ids_unique(w2)) by {
                    assert forall|a: int, b: int| 0 <= a < b < w2.len() implies w2[a].id != w2[b].id by {
                        assert(w[a].id != w[b].id);
                    }
                }
                assert(names_unique(w2)) by {
                    assert forall|a: int, b: int| 0 <= a < b < w2.len() implies w2[a].name != w2[b].name by {
                        assert(w[a].name != w[b].name);
                    }
                }
                assert forall|k: int| 0 <= k < w2.len() implies origin_ok(snapshot, cfgs, fresh, i + 1, #[trigger] w2[k]) by {
                    assert(origin_ok(snapshot, cfgs, fresh, i, w[k]));
                    assert(w2[k].id == w[k].id && w2[k].name == w[k].name);
                    if exists|j: int| 0 <= j < i && #[trigger] fresh[j] == w[k].id && cfgs[j].name == w[k].name {
                        let j = choose|j: int| 0 <= j < i && #[trigger] fresh[j] == w[k].id && cfgs[j].name == w[k].name;
                        assert(0 <= j < i + 1);
                    } else {
                        let m = choose|m: int| 0 <= m < snapshot.len() && #[trigger] snapshot[m].id == w[k].id && snapshot[m].name == w[k].name;
                        assert(snapshot[m].id == w2[k].id);
                    }
                }
                assert forall|j: int| 0 <= j < i + 1 && effective(cfgs[j], handlers) implies has_match(w2, #[trigger] cfgs[j]) by {
                    if j == i {
                        assert(w2[k0] == t);
                    } else {
                        assert(has_match(w, cfgs[j]));
                        let q = choose|q: int| 0 <= q < w.len() && #[trigger] w[q].name == cfgs[j].name && matches_config(w[q], cfgs[j]);
                        assert(cfgs[j].name != cfgs[i].name);
                        assert(q != k0);
                        assert(w2[q] == w[q]);
                    }
                }
                assert forall|m: int| 0 <= m < snapshot.len() implies keeps(w2, #[trigger] snapshot[m]) by {
                    assert(keeps(w, snapshot[m]));
                    let q = choose|q: int| 0 <= q < w.len() && #[trigger] w[q].id == snapshot[m].id && w[q].name == snapshot[m].name;
                    assert(w2[q].id == w[q].id && w2[q].name == w[q].name);
                }
            } else {
                assert(eid is None);
                assert(w2 == w.push(t));
                assert(ids_unique(w2)) by {
                    assert forall|a: int, b: int| 0 <= a < b < w2.len() implies w2[a].id != w2[b].id by {
                        if b < w.len() {
                            assert(w[a].id != w[b].id);
                        } else {
                            assert(w[a].id != f);
                        }
                    }
                }
                assert(names_unique(w2)) by {
                    assert forall|a: int, b: int| 0 <= a < b < w2.len() implies w2[a].name != w2[b].name by {
                        if b < w.len() {
                            assert(w[a].name != w[b].name);
                        } else {
                            assert(w[a].name != c.name);
                        }
                    }
                }
                assert forall|k: int| 0 <= k < w2.len() implies origin_ok(snapshot, cfgs, fresh, i + 1, #[trigger] w2[k]) by {
                    if k < w.len() {
                        assert(origin_ok(snapshot, cfgs, fresh, i, w[k]));
                        assert(w2[k] == w[k]);
                        if exists|j: int| 0 <= j < i && #[trigger] fresh[j] == w[k].id && cfgs[j].name == w[k].name {
                            let j = choose|j: int| 0 <= j < i && #[trigger] fresh[j] == w[k].id && cfgs[j].name == w[k].name;
                            assert(0 <= j < i + 1);
                        }
                    } else {
                        assert(w2[k] == t);
                        assert(fresh[i] == w2[k].id && cfgs[i].name == w2[k].name);
                    }
                }
                assert forall|j: int| 0 <= j < i + 1 && effective(cfgs[j], handlers) implies has_match(w2, #[trigger] cfgs[j]) by {
                    if j == i {
                        assert(w2[w.len() as int] == t);
                    } else {
                        assert(has_match(w, cfgs[j]));
                        let q = choose|q: int| 0 <= q < w.len() && #[trigger] w[q].name == cfgs[j].name && matches_config(w[q], cfgs[j]);
                        assert(w2[q] == w[q]);
                    }
                }
                assert forall|m: int| 0 <= m < snapshot.len() implies keeps(w2, #[trigger] snapshot[m]) by {
                    assert(keeps(w, snapshot[m]));
                    let q = choose|q: int| 0 <= q < w.len() && #[trigger] w[q].id == snapshot[m].id && w[q].name == snapshot[m].name;
                    assert(w2[q] == w[q]);
                }
            }
        }
    }
}

proof fn lemma_reload_inv_upto(snapshot: Seq<TaskView>, handlers: Seq<Seq<char>>, cfgs: Seq<TaskConfigView>, fresh: Seq<u128>, i: int)
    requires
        reload_ok(snapshot, handlers, cfgs, fresh),
        0 <= i <= cfgs.len(),
    ensures
        reload_inv(snapshot, handlers, cfgs, fresh, i),
    decreases i,
{
    if i == 0 {
        lemma_reload_inv_start(snapshot, handlers, cfgs, fresh);
    } else {
        lemma_reload_inv_upto(snapshot, handlers, cfgs, fresh, i - 1);
        lemma_reload_inv_step(snapshot, handlers, cfgs, fresh, i - 1);
    }
}

proof fn lemma_remove_id(ts: Seq<TaskView>, id: u128)
    requires
        ids_unique(ts),
        names_unique(ts),
    ensures
        ids_unique(remove_id(ts, id)),
        names_unique(remove_id(ts, id)),
        forall|t: TaskView| remove_id(ts, id).contains(t) <==> ts.contains(t) && t.id != id,
{
    let p = id_pos(ts, id);
    if p >= 0 {
        let r = ts.remove(p);
        assert(exists|i: int| 0 <= i < ts.len() && ts[i].id == id);
        assert(0 <= p < ts.len() && ts[p].id == id);
        ts.remove_ensures(p);
        assert forall|a: int, b: int| 0 <= a < b < r.len() implies r[a].id != r[b].id && r[a].name != r[b].name by {
            let a1 = if a < p { a } else { a + 1 };
            let b1 = if b < p { b } else { b + 1 };
            assert(r[a] == ts[a1]);
            assert(r[b] == ts[b1]);
        }
        assert forall|t: TaskView| r.contains(t) <==> ts.contains(t) && t.id != id by {
            if r.contains(t) {
                let a = choose|a: int| 0 <= a < r.len() && r[a] == t;
                let a1 = if a < p { a } else { a + 1 };
                assert(r[a] == ts[a1]);
                assert(a1 != p);
                assert(ts[a1].id != ts[p].id) by {
                    if a1 < p {
                        assert(ts[a1].id != ts[p].id);
                    } else {
                        assert(ts[p].id != ts[a1].id);
                    }
                }
            }
            if ts.contains(t) && t.id != id {
                let a1 = choose|a: int| 0 <= a < ts.len() && ts[a] == t;
                assert(a1 != p);
                let a = if a1 < p { a1 } else { a1 - 1 };
                assert(r[a] == t);
            }
        }
    } else {
        assert forall|t: TaskView| ts.contains(t) implies t.id != id by {
            let a = choose|a: int| 0 <= a < ts.len() && ts[a] == t;
            if t.id == id {
                assert(exists|i: int| 0 <= i < ts.len() && ts[i].id == id);
            }
        }
    }
}

proof fn lemma_remove_ids(ts: Seq<TaskView>, ids: Seq<u128>)
    requires
        ids_unique(ts),
        names_unique(ts),
    ensures
        ids_unique(remove_ids(ts, ids)),
        names_unique(remove_ids(ts, ids)),
        forall|t: TaskView| remove_ids(ts, ids).contains(t) <==> ts.contains(t) && !ids.contains(t.id),
    decreases ids.len(),
{
    if ids.len() > 0 {
        let r0 = remove_ids(ts, ids.drop_last());
        lemma_remove_ids(ts, ids.drop_last());
        lemma_remove_id(r0, ids.last());
        assert forall|t: TaskView| remove_ids(ts, ids).contains(t) <==> ts.contains(t) && !ids.contains(t.id) by {
            assert(ids.contains(t.id) <==> ids.drop_last().contains(t.id) || ids.last() == t.id) by {
                if ids.contains(t.id) {
                    let k = choose|k: int| 0 <= k < ids.len() && ids[k] == t.id;
                    if k < ids.len() - 1 {
                        assert(ids.drop_last()[k] == t.id);
                    }
                }
                if ids.drop_last().contains(t.id) {
                    let k = choose|k: int| 0 <= k < ids.drop_last().len() && ids.drop_last()[k] == t.id;
                    assert(ids[k] == t.id);
                }
            }
        }
    }
}

/// The ids a reload removes are those of the tasks whose names are no longer configured.
proof fn lemma_removal_ids(snapshot: Seq<TaskView>, cfgs: Seq<TaskConfigView>, n: int)
    requires
        names_unique(snapshot),
        0 <= n <= snapshot.len(),
    ensures
        forall|r: u128| removal_ids(snapshot, cfgs, n).contains(r) <==> exists|m: int| 0 <= m < n
            && #[trigger] snapshot[m].id == r && !configured(cfgs, snapshot[m].name),
    decreases n,
{
    if n > 0 {
        lemma_removal_ids(snapshot, cfgs, n - 1);
        lemma_name_pos_unique(snapshot, n - 1);
        let prev = removal_ids(snapshot, cfgs, n - 1);
        assert forall|r: u128| removal_ids(snapshot, cfgs, n).contains(r) <==> exists|m: int| 0 <= m < n
            && #[trigger] snapshot[m].id == r && !configured(cfgs, snapshot[m].name) by {
            if !configured(cfgs, snapshot[n - 1].name) {
                let now = prev.push(snapshot[n - 1].id);
                if now.contains(r) {
                    let k = choose|k: int| 0 <= k < now.len() && now[k] == r;
                    if k < prev.len() {
                        assert(prev[k] == r);
                        assert(prev.contains(r));
                    } else {
                        assert(snapshot[n - 1].id == r);
                    }
                }
                if exists|m: int| 0 <= m < n && #[trigger] snapshot[m].id == r && !configured(cfgs, snapshot[m].name) {
                    let m = choose|m: int| 0 <= m < n && #[trigger] snapshot[m].id == r && !configured(cfgs, snapshot[m].name);
                    if m < n - 1 {
                        assert(prev.contains(r));
                        let k = choose|k: int| 0 <= k < prev.len() && prev[k] == r;
                        assert(now[k] == r);
                    } else {
                        assert(now[prev.len() as int] == r);
                    }
                }
            } else {
                if exists|m: int| 0 <= m < n && #[trigger] snapshot[m].id == r && !configured(cfgs, snapshot[m].name) {
                    let m = choose|m: int| 0 <= m < n && #[trigger] snapshot[m].id == r && !configured(cfgs, snapshot[m].name);
                    assert(m != n - 1);
                }
            }
        }
    }
}

/// A list whose names are all configured loses nothing to a reload.
proof fn lemma_no_removals(ts: Seq<TaskView>, cfgs: Seq<TaskConfigView>, n: int)
    requires
        0 <= n <= ts.len(),
        forall|k: int| 0 <= k < ts.len() ==> configured(cfgs, #[trigger] ts[k].name),
    ensures
        removal_ids(ts, cfgs, n) == Seq::<u128>::empty(),
    decreases n,
{
    if n > 0 {
        lemma_no_removals(ts, cfgs, n - 1);
        assert(configured(cfgs, ts[n - 1].name));
    }
}

/// A reload, once applied, leaves exactly the configuration in memory: tasks keep
/// distinct ids and names, every configured task the reload acts on is there with its
/// configured settings, and every task left is a configured one.
pub proof fn lemma_reload_applies_config(snapshot: Seq<TaskView>, handlers: Seq<Seq<char>>, cfgs: Seq<TaskConfigView>, fresh: Seq<u128>)
    requires
        reload_ok(snapshot, handlers, cfgs, fresh),
    ensures
        ids_unique(reloaded(snapshot, handlers, cfgs, fresh)),
        names_unique(reloaded(snapshot, handlers, cfgs, fresh)),
        forall|j: int| 0 <= j < cfgs.len() && effective(cfgs[j], handlers)
            ==> has_match(reloaded(snapshot, handlers, cfgs, fresh), #[trigger] cfgs[j]),
        forall|k: int| 0 <= k < reloaded(snapshot, handlers, cfgs, fresh).len()
            ==> configured(cfgs, #[trigger] reloaded(snapshot, handlers, cfgs, fresh)[k].name),
{
    let n = cfgs.len() as int;
    lemma_reload_inv_upto(snapshot, handlers, cfgs, fresh, n);
    lemma_fold_prefix_all(snapshot, handlers, cfgs, fresh);
    let acc = sync_fold(snapshot, handlers, cfgs, fresh);
    let w = acc.work;
    assert(w == upsert_all(snapshot, acc.upserts));
    let removals = removal_ids(snapshot, cfgs, snapshot.len() as int);
    let r = reloaded(snapshot, handlers, cfgs, fresh);
    assert(r == remove_ids(w, removals));
    lemma_remove_ids(w, removals);
    lemma_removal_ids(snapshot, cfgs, snapshot.len() as int);
    assert forall|j: int| 0 <= j < cfgs.len() && effective(cfgs[j], handlers) implies has_match(r, #[trigger] cfgs[j]) by {
        assert(has_match(w, cfgs[j]));
        let k = choose|k: int| 0 <= k < w.len() && #[trigger] w[k].name == cfgs[j].name && matches_config(w[k], cfgs[j]);
        assert(configured(cfgs, cfgs[j].name));
        assert(!removals.contains(w[k].id)) by {
            if removals.contains(w[k].id) {
                let m = choose|m: int| 0 <= m < snapshot.len() && #[trigger] snapshot[m].id == w[k].id
                    && !configured(cfgs, snapshot[m].name);
                assert(origin_ok(snapshot, cfgs, fresh, n, w[k]));
                if exists|m2: int| 0 <= m2 < snapshot.len() && #[trigger] snapshot[m2].id == w[k].id && snapshot[m2].name == w[k].name {
                    let m2 = choose|m2: int| 0 <= m2 < snapshot.len() && #[trigger] snapshot[m2].id == w[k].id
                        && snapshot[m2].name == w[k].name;
                    if m2 != m {
                        if m2 < m {
                            assert(snapshot[m2].id != snapshot[m].id);
                        } else {
                            assert(snapshot[m].id != snapshot[m2].id);
                        }
                    }
                } else {
                    let j2 = choose|j2: int| 0 <= j2 < n && #[trigger] fresh[j2] == w[k].id && cfgs[j2].name == w[k].name;
                    assert(fresh[j2] != snapshot[m].id);
                }
            }
        }
        assert(w.contains(w[k]));
        assert(r.contains(w[k]));
        let q = choose|q: int| 0 <= q < r.len() && r[q] == w[k];
        assert(r[q].name == cfgs[j].name);
    }
    assert forall|k: int| 0 <= k < r.len() implies configured(cfgs, #[trigger] r[k].name) by {
        assert(r.contains(r[k]));
        assert(w.contains(r[k]) && !removals.contains(r[k].id));
        let p = choose|p: int| 0 <= p < w.len() && w[p] == r[k];
        assert(origin_ok(snapshot, cfgs, fresh, n, w[p]));
        if exists|m: int| 0 <= m < snapshot.len() && #[trigger] snapshot[m].id == w[p].id && snapshot[m].name == w[p].name {
            let m = choose|m: int| 0 <= m < snapshot.len() && #[trigger] snapshot[m].id == w[p].id && snapshot[m].name == w[p].name;
            if !configured(cfgs, snapshot[m].name) {
                assert(removals.contains(snapshot[m].id));
            }
        } else {
            let j = choose|j: int| 0 <= j < n && #[trigger] fresh[j] == w[p].id && cfgs[j].name == w[p].name;
            assert(cfgs[j].name == r[k].name);
        }
    }
}

proof fn lemma_second_pass(ts: Seq<TaskView>, handlers: Seq<Seq<char>>, cfgs: Seq<TaskConfigView>, fresh: Seq<u128>, i: int)
    requires
        ids_unique(ts),
        names_unique(ts),
        fresh.len() == cfgs.len(),
        0 <= i <= cfgs.len(),
        forall|j: int| 0 <= j < cfgs.len() && effective(cfgs[j], handlers) ==> has_match(ts, #[trigger] cfgs[j]),
    ensures
        fold_prefix(ts, handlers, cfgs, fresh, i).work == ts,
        fold_prefix(ts, handlers, cfgs, fresh, i).upserts == Seq::<TaskView>::empty(),
        fold_prefix(ts, handlers, cfgs, fresh, i).error is None,
    decreases i,
{
    if i == 0 {
        assert(cfgs.take(0) =~= Seq::<TaskConfigView>::empty());
    } else {
        lemma_second_pass(ts, handlers, cfgs, fresh, i - 1);
        lemma_fold_prefix_step(ts, handlers, cfgs, fresh, i - 1);
        let acc = fold_prefix(ts, handlers, cfgs, fresh, i - 1);
        let c = cfgs[i - 1];
        if effective(c, handlers) {
            assert(has_match(ts, c));
            let k = choose|k: int| 0 <= k < ts.len() && #[trigger] ts[k].name == c.name && matches_config(ts[k], c);
            lemma_name_pos_unique(ts, k);
            lemma_unique_pos(ts, k);
            assert(existing_id(ts, c.name) == Some(ts[k].id));
            assert(task_with_id(acc.work, ts[k].id) == Some(ts[k]));
        }
    }
}

/// Reloading a configuration a second time changes nothing: once a reload is applied, a
/// reload of the same configuration puts in no task, meets no error and removes nothing
/// (whatever ids it would hand to new tasks).
pub proof fn lemma_reload_idempotent(snapshot: Seq<TaskView>, handlers: Seq<Seq<char>>, cfgs: Seq<TaskConfigView>, fresh: Seq<u128>, fresh2: Seq<u128>)
    requires
        reload_ok(snapshot, handlers, cfgs, fresh),
        fresh2.len() == cfgs.len(),
    ensures
        sync_fold(reloaded(snapshot, handlers, cfgs, fresh), handlers, cfgs, fresh2).upserts == Seq::<TaskView>::empty(),
        sync_fold(reloaded(snapshot, handlers, cfgs, fresh), handlers, cfgs, fresh2).error is None,
        sync_fold(reloaded(snapshot, handlers, cfgs, fresh), handlers, cfgs, fresh2).work
            == reloaded(snapshot, handlers, cfgs, fresh),
        removal_ids(reloaded(snapshot, handlers, cfgs, fresh), cfgs, reloaded(snapshot, handlers, cfgs, fresh).len() as int)
            == Seq::<u128>::empty(),
{
    let r = reloaded(snapshot, handlers, cfgs, fresh);
    lemma_reload_applies_config(snapshot, handlers, cfgs, fresh);
    lemma_second_pass(r, handlers, cfgs, fresh2, cfgs.len() as int);
    lemma_fold_prefix_all(r, handlers, cfgs, fresh2);
    lemma_no_removals(r, cfgs, r.len() as int);
}

impl<M> Scheduler<M> {
    /// Applies a reload plan to the tasks in memory: its upserts are put in, in order;
    /// unless the plan failed, its removals are then taken out with their handlers. No
    /// handler is recorded here: the plan's registrations say which tasks get one, and
    /// they are recorded as each is installed, only when the plan did not fail.
    pub fn apply_sync_plan(&mut self, plan: &SyncPlan)
        requires
            old(self).wf(),
        ensures
            final(self).wf(),
            plan.error is None ==> final(self).task_list() == remove_ids(
                upsert_all(old(self).task_list(), task_views(plan.upserts@)), plan.removals@),
            plan.error is Some ==> final(self).task_list() == upsert_all(old(self).task_list(), task_views(plan.upserts@)),
            plan.error is Some ==> final(self).handler_ids == old(self).handler_ids,
            plan.error is None ==> forall|h: u128| #[trigger] final(self).handler_ids@.contains(h)
                <==> old(self).handler_ids@.contains(h) && !plan.removals@.contains(h),
            final(self).workers == old(self).workers,
            final(self).task_to_worker == old(self).task_to_worker,
    {
        let ghost start = self.task_list();
        let ghost us = task_views(plan.upserts@);
        let mut i: usize = 0;
        assert(us.take(0) =~= Seq::<TaskView>::empty());
        while i < plan.upserts.len()
            invariant
                i <= plan.upserts@.len(),
                us == task_views(plan.upserts@),
                self.wf(),
                self.task_list() == upsert_all(start, us.take(i as int)),
                self.workers == old(self).workers,
                self.task_to_worker == old(self).task_to_worker,
                self.handler_ids == old(self).handler_ids,
            decreases plan.upserts@.len() - i,
        {
            let t = plan.upserts[i].clone();
            assert(us.take(i + 1).drop_last() =~= us.take(i as int));
            assert(us.take(i + 1).last() == us[i as int]);
            self.upsert_task(t);
            i = i + 1;
        }
        assert(us.take(us.len() as int) =~= us);
        if plan.error.is_some() {
            return;
        }
        let ghost mid = self.task_list();
        let mut k: usize = 0;
        assert(plan.removals@.take(0) =~= Seq::<u128>::empty());
        while k < plan.removals.len()
            invariant
                k <= plan.removals@.len(),
                self.wf(),
                self.task_list() == remove_ids(mid, plan.removals@.take(k as int)),
                self.workers == old(self).workers,
                self.task_to_worker == old(self).task_to_worker,
                forall|h: u128| #[trigger] self.handler_ids@.contains(h)
                    <==> old(self).handler_ids@.contains(h) && !plan.removals@.take(k as int).contains(h),
            decreases plan.removals@.len() - k,
        {
            let id = plan.removals[k];
            assert(plan.removals@.take(k + 1).drop_last() =~= plan.removals@.take(k as int));
            assert(plan.removals@.take(k + 1).last() == id);
            let ghost before = self.task_list();
            proof {
                if self.has_task(id) {
                    let q = choose|q: int| 0 <= q < self.tasks@.len() && self.tasks@[q].id == id;
                    assert(before[q].id == id);
                }
            }
            let removed = self.remove_task(id);
            assert(self.task_list() == remove_id(before, id)) by {
                if removed {
                                        assert(exists|q2: int| 0 <= q2 < before.len() && before[q2].id == id);
                    assert(id_pos(before, id) >= 0);
                } else {
                    assert(!(exists|q: int| 0 <= q < before.len() && before[q].id == id)) by {
                        if exists|q: int| 0 <= q < before.len() && before[q].id == id {
                            let q = choose|q: int| 0 <= q < before.len() && before[q].id == id;
                            assert(before[q].id == self.tasks@[q].id);
                        }
                    }
                }
            }
            assert forall|h: u128| #[trigger] self.handler_ids@.contains(h)
                <==> old(self).handler_ids@.contains(h) && !plan.removals@.take(k + 1).contains(h) by {
                let nt = plan.removals@.take(k + 1);
                let ot = plan.removals@.take(k as int);
                if nt.contains(h) && h != id {
                    let q = choose|q: int| 0 <= q < nt.len() && nt[q] == h;
                    assert(q < k);
                    assert(ot[q] == h);
                }
                if ot.contains(h) {
                    let q = choose|q: int| 0 <= q < ot.len() && ot[q] == h;
                    assert(nt[q] == h);
                }
                if h == id {
                    assert(nt[k as int] == h);
                }
            }
            k = k + 1;
        }
        assert(plan.removals@.take(plan.removals@.len() as int) =~= plan.removals@);
    }
}

/// Applying a reload plan of `config` leaves in memory what `reloaded` describes.
pub proof fn lemma_applied_plan_is_reloaded<M>(s: Scheduler<M>, config: AppConfig, fresh: Seq<u128>, plan: SyncPlan)
    requires
        s.plan_follows(config, fresh, plan),
        plan.error is None,
    ensures
        remove_ids(upsert_all(s.task_list(), task_views(plan.upserts@)), plan.removals@)
            == reloaded(s.task_list(), s.handler_names(), config_views(config), fresh),
{
}

} // verus!
