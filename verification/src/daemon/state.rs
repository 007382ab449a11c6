//! The state of the daemon. It reacts to devices that come and go and to
//! batches of file system events: it recomputes the plan, tells the watcher
//! what to watch, and says which tasks are to be synchronised.

use crate::config::device_specs;
use crate::context::ExecutionContext;
use crate::domain::task::{clone_tasks, task_specs, SyncTask, TaskSpec};
use crate::sync::detect::MountProbe;
use crate::sync::engine::{matching, SyncEngine};
use crate::sync::planner::{plan_sync, planned_tasks};
use crate::sync::watcher::{event_specs, CommandSpec, EventSpec, FsEvent, WatcherControl};
use crate::utils::text::{
    lemma_text_order_is_total, lemma_text_order_is_transitive, str_eq, text_before, text_lt,
};
use vstd::prelude::*;

verus! {

/// Why the plan is recomputed.
#[derive(Debug, Clone, Copy, PartialEq, Eq, Structural)]
pub enum RefreshReason {
    DeviceMounted,
    DeviceUnmounted,
}

/// What the daemon holds between events.
#[derive(Debug)]
pub struct DaemonState {
    pub ctx: ExecutionContext,
    pub engine: SyncEngine,
    pub watcher: WatcherControl,
    /// The tasks of the current plan.
    pub active_syncs: Vec<SyncTask>,
}

/// The tasks that a batch of events concerns, event by event, with
/// repetitions.
pub open spec fn impacted(events: Seq<EventSpec>, active: Seq<TaskSpec>) -> Seq<TaskSpec>
    decreases events.len(),
{
    if events.len() == 0 {
        Seq::empty()
    } else {
        impacted(events.drop_last(), active) + matching(events.last(), active)
    }
}

/// Whether the tasks stand in the order of their sources, no source twice.
pub open spec fn sorted_by_source(tasks: Seq<TaskSpec>) -> bool {
    forall|i: int, j: int|
        0 <= i < j < tasks.len() ==> text_before(
            (#[trigger] tasks[i]).source,
            (#[trigger] tasks[j]).source,
        )
}

/// Whether `t` is the first task of the list with its source.
pub open spec fn is_first_with_source(list: Seq<TaskSpec>, t: TaskSpec) -> bool {
    exists|k: int|
        0 <= k < list.len() && #[trigger] list[k] == t && forall|m: int|
            0 <= m < k ==> (#[trigger] list[m]).source != t.source
}

/// Whether some task of the list has this source.
pub open spec fn has_source(list: Seq<TaskSpec>, source: Seq<char>) -> bool {
    exists|i: int| 0 <= i < list.len() && (#[trigger] list[i]).source == source
}

/// Whether `tasks` are the tasks to synchronise for the hits `hits`: one task
/// for every source that was hit, namely the first that was hit with it, in
/// the order of the sources.
pub open spec fn is_trigger_list(tasks: Seq<TaskSpec>, hits: Seq<TaskSpec>) -> bool {
    &&& sorted_by_source(tasks)
    &&& forall|i: int| 0 <= i < tasks.len() ==> is_first_with_source(hits, #[trigger] tasks[i])
    &&& forall|k: int| 0 <= k < hits.len() ==> has_source(tasks, (#[trigger] hits[k]).source)
}

/// The commands that make the watcher watch the sources of `tasks` and
/// nothing else: clear, then add each source.
pub open spec fn watch_commands(tasks: Seq<TaskSpec>) -> Seq<CommandSpec> {
    seq![CommandSpec::ClearAll] + tasks.map_values(|t: TaskSpec| CommandSpec::Add(t.source))
}

proof fn lemma_trigger_list_grows(
    tasks: Seq<TaskSpec>,
    after: Seq<TaskSpec>,
    hits: Seq<TaskSpec>,
    cand: TaskSpec,
)
    requires
        is_trigger_list(tasks, hits),
        sorted_by_source(after),
        has_source(tasks, cand.source) ==> after == tasks,
        !has_source(tasks, cand.source) ==> exists|p: int|
            0 <= p <= tasks.len() && after == #[trigger] tasks.insert(p, cand),
    ensures
        is_trigger_list(after, hits.push(cand)),
{
    let more = hits.push(cand);
    if has_source(tasks, cand.source) {
        assert forall|i: int| 0 <= i < after.len() implies is_first_with_source(
            more,
            #[trigger] after[i],
        ) by {
            let t = after[i];
            let k = choose|k: int|
                0 <= k < hits.len() && #[trigger] hits[k] == t && forall|m: int|
                    0 <= m < k ==> (#[trigger] hits[m]).source != t.source;
            assert(more[k] == t);
            assert forall|m: int| 0 <= m < k implies (#[trigger] more[m]).source != t.source by {
                assert(more[m] == hits[m]);
            }
        }
        assert forall|k: int| 0 <= k < more.len() implies has_source(
            after,
            (#[trigger] more[k]).source,
        ) by {
            if k < hits.len() {
                assert(more[k] == hits[k]);
            }
        }
    } else {
        let p = choose|p: int| 0 <= p <= tasks.len() && after == #[trigger] tasks.insert(p, cand);
        assert forall|i: int| 0 <= i < after.len() implies is_first_with_source(
            more,
            #[trigger] after[i],
        ) by {
            let t = after[i];
            if i == p {
                assert(more[hits.len() as int] == cand);
                assert forall|m: int| 0 <= m < hits.len() implies (#[trigger] more[m]).source
                    != cand.source by {
                    assert(more[m] == hits[m]);
                    assert(has_source(tasks, hits[m].source));
                }
            } else {
                let old_i = if i < p {
                    i
                } else {
                    i - 1
                };
                assert(tasks[old_i] == t);
                let k = choose|k: int|
                    0 <= k < hits.len() && #[trigger] hits[k] == t && forall|m: int|
                        0 <= m < k ==> (#[trigger] hits[m]).source != t.source;
                assert(more[k] == t);
                assert forall|m: int| 0 <= m < k implies (#[trigger] more[m]).source
                    != t.source by {
                    assert(more[m] == hits[m]);
                }
            }
        }
        assert forall|k: int| 0 <= k < more.len() implies has_source(
            after,
            (#[trigger] more[k]).source,
        ) by {
            if k < hits.len() {
                assert(more[k] == hits[k]);
                let i = choose|i: int|
                    0 <= i < tasks.len() && (#[trigger] tasks[i]).source == hits[k].source;
                let new_i = if i < p {
                    i
                } else {
                    i + 1
                };
                assert(after[new_i].source == hits[k].source);
            } else {
                assert(after[p].source == cand.source);
            }
        }
    }
}

fn insert_unique(out: &mut Vec<SyncTask>, cand: SyncTask)
    requires
        sorted_by_source(task_specs(old(out)@)),
    ensures
        sorted_by_source(task_specs(final(out)@)),
        has_source(task_specs(old(out)@), cand@.source) ==> task_specs(final(out)@) == task_specs(
            old(out)@,
        ),
        !has_source(task_specs(old(out)@), cand@.source) ==> exists|p: int|
            0 <= p <= old(out)@.len() && task_specs(final(out)@) == #[trigger] task_specs(
                old(out)@,
            ).insert(p, cand@),
{
    let ghost before = task_specs(out@);
    let mut p: usize = 0;
    while p < out.len() && text_lt(out[p].source.as_str(), cand.source.as_str())
        invariant
            p <= out.len(),
            before == task_specs(out@),
            forall|k: int| 0 <= k < p ==> text_before((#[trigger] before[k]).source, cand@.source),
        decreases out.len() - p,
    {
        assert(before[p as int].source == out[p as int].source@);
        p += 1;
    }
    if p < out.len() && str_eq(out[p].source.as_str(), cand.source.as_str()) {
        assert(before[p as int].source == cand@.source);
        return ;
    }
    proof {
        if p < out.len() {
            assert(before[p as int].source == out[p as int].source@);
            lemma_text_order_is_total(cand@.source, before[p as int].source);
        }
        assert forall|k: int| p <= k < before.len() implies text_before(
            cand@.source,
            (#[trigger] before[k]).source,
        ) by {
            if k > p {
                assert(text_before(before[p as int].source, before[k].source));
                lemma_text_order_is_transitive(
                    cand@.source,
                    before[p as int].source,
                    before[k].source,
                );
            }
        }
        assert forall|k: int| 0 <= k < before.len() implies (#[trigger] before[k]).source
            != cand@.source by {
            lemma_text_order_is_total(before[k].source, cand@.source);
            lemma_text_order_is_total(cand@.source, before[k].source);
        }
    }
    let ghost cand_spec = cand@;
    out.insert(p, cand);
    proof {
        let after = task_specs(out@);
        assert(after =~= before.insert(p as int, cand_spec));
        assert forall|i: int, j: int| 0 <= i < j < after.len() implies text_before(
            (#[trigger] after[i]).source,
            (#[trigger] after[j]).source,
        ) by {
            if j < p {
                assert(after[i] == before[i] && after[j] == before[j]);
            } else if j == p {
                assert(after[i] == before[i]);
            } else if i < p {
                assert(after[i] == before[i] && after[j] == before[j - 1]);
            } else if i == p {
                assert(after[j] == before[j - 1]);
            } else {
                assert(after[i] == before[i - 1] && after[j] == before[j - 1]);
            }
        }
    }
}

impl DaemonState {
    /// A daemon that has no plan yet.
    pub fn new(ctx: ExecutionContext, engine: SyncEngine, watcher: WatcherControl) -> (r: Self)
        ensures
            r.ctx == ctx,
            r.engine == engine,
            r.watcher == watcher,
            task_specs(r.active_syncs@) == Seq::<TaskSpec>::empty(),
    {
        let r = DaemonState { ctx, engine, watcher, active_syncs: Vec::new() };
        assert(task_specs(r.active_syncs@) =~= Seq::<TaskSpec>::empty());
        r
    }

    /// The plan for what `probe` found on the machine.
    pub open spec fn plan_for(&self, probe: &MountProbe) -> Seq<TaskSpec> {
        planned_tasks(
            self.ctx.expander.ctx@,
            self.ctx.paths.data@,
            probe@,
            device_specs(self.ctx.config.devices@),
        )
    }

    /// Recomputes the plan from what `probe` found on the machine. The plan
    /// replaces the active tasks, and the watcher is told to drop what it
    /// watches and to watch the source of every task of the plan. After a
    /// mount the tasks of the plan are returned, to be synchronised one
    /// after the other; after an unmount nothing is.
    pub fn refresh_plan(&mut self, reason: RefreshReason, probe: &MountProbe) -> (r: Vec<SyncTask>)
        ensures
            task_specs(final(self).active_syncs@) == old(self).plan_for(probe),
            final(self).watcher.waiting() == old(self).watcher.waiting() + watch_commands(
                old(self).plan_for(probe),
            ),
            final(self).ctx == old(self).ctx,
            final(self).engine == old(self).engine,
            task_specs(r@) == if reason == RefreshReason::DeviceMounted {
                old(self).plan_for(probe)
            } else {
                Seq::<TaskSpec>::empty()
            },
    {
        let plan = plan_sync(&self.ctx, probe);
        let ghost planned = task_specs(plan@);
        let ghost waiting = self.watcher.waiting();
        self.active_syncs = clone_tasks(&plan);
        self.watcher.clear_all();
        let mut i: usize = 0;
        assert(self.watcher.waiting() =~= waiting + watch_commands(planned.take(0)));
        while i < plan.len()
            invariant
                i <= plan.len(),
                planned == task_specs(plan@),
                self.watcher.waiting() == waiting + watch_commands(planned.take(i as int)),
                self.ctx == old(self).ctx,
                self.engine == old(self).engine,
                task_specs(self.active_syncs@) == planned,
            decreases plan.len() - i,
        {
            self.watcher.add(plan[i].source.clone());
            proof {
                assert(watch_commands(planned.take(i + 1)) =~= watch_commands(
                    planned.take(i as int),
                ).push(CommandSpec::Add(planned[i as int].source)));
            }
            i += 1;
        }
        assert(planned.take(plan.len() as int) =~= planned);
        match reason {
            RefreshReason::DeviceMounted => plan,
            RefreshReason::DeviceUnmounted => {
                let none: Vec<SyncTask> = Vec::new();
                assert(task_specs(none@) =~= Seq::<TaskSpec>::empty());
                none
            },
        }
    }

    /// A device was mounted: the plan is recomputed as
    /// [`DaemonState::refresh_plan`] does, and every task of the new plan is
    /// to be synchronised. Which device it was does not matter; a second
    /// notice for a device that is mounted already gives the same plan.
    pub fn on_device_mounted(&mut self, device_name: &str, probe: &MountProbe) -> (r: Vec<SyncTask>)
        ensures
            task_specs(final(self).active_syncs@) == old(self).plan_for(probe),
            final(self).watcher.waiting() == old(self).watcher.waiting() + watch_commands(
                old(self).plan_for(probe),
            ),
            final(self).ctx == old(self).ctx,
            final(self).engine == old(self).engine,
            task_specs(r@) == old(self).plan_for(probe),
    {
        self.refresh_plan(RefreshReason::DeviceMounted, probe)
    }

    /// A device was unmounted: the plan is recomputed as
    /// [`DaemonState::refresh_plan`] does, and nothing is synchronised.
    pub fn on_device_unmounted(&mut self, device_name: &str, probe: &MountProbe)
        ensures
            task_specs(final(self).active_syncs@) == old(self).plan_for(probe),
            final(self).watcher.waiting() == old(self).watcher.waiting() + watch_commands(
                old(self).plan_for(probe),
            ),
            final(self).ctx == old(self).ctx,
            final(self).engine == old(self).engine,
    {
        let _ = self.refresh_plan(RefreshReason::DeviceUnmounted, probe);
    }

    /// The tasks to synchronise for a batch of events: of the active tasks
    /// that the events concern, one for every source, in the order of the
    /// sources. Where several tasks share a source, the first that an event
    /// hit stands for them.
    pub fn handle_events(&self, events: &Vec<FsEvent>) -> (r: Vec<SyncTask>)
        ensures
            is_trigger_list(
                task_specs(r@),
                impacted(event_specs(events@), task_specs(self.active_syncs@)),
            ),
    {
        let ghost evs = event_specs(events@);
        let ghost active = task_specs(self.active_syncs@);
        let mut out: Vec<SyncTask> = Vec::new();
        let mut i: usize = 0;
        assert(evs.take(0) =~= Seq::<EventSpec>::empty());
        while i < events.len()
            invariant
                i <= events.len(),
                evs == event_specs(events@),
                active == task_specs(self.active_syncs@),
                is_trigger_list(task_specs(out@), impacted(evs.take(i as int), active)),
            decreases events.len() - i,
        {
            let hits = self.engine.match_event(&events[i], self.active_syncs.as_slice());
            let ghost done = impacted(evs.take(i as int), active);
            let ghost here = task_specs(hits@);
            let mut j: usize = 0;
            assert(done + here.take(0) =~= done);
            while j < hits.len()
                invariant
                    j <= hits.len(),
                    here == task_specs(hits@),
                    is_trigger_list(task_specs(out@), done + here.take(j as int)),
                decreases hits.len() - j,
            {
                let ghost before = task_specs(out@);
                let cand = hits[j].clone();
                insert_unique(&mut out, cand);
                proof {
                    lemma_trigger_list_grows(
                        before,
                        task_specs(out@),
                        done + here.take(j as int),
                        here[j as int],
                    );
                    assert((done + here.take(j as int)).push(here[j as int]) =~= done + here.take(
                        j + 1,
                    ));
                }
                j += 1;
            }
            proof {
                assert(here.take(hits.len() as int) =~= here);
                assert(evs.take(i + 1).drop_last() =~= evs.take(i as int));
                assert(evs.take(i + 1).last() == events[i as int]@);
            }
            i += 1;
        }
        assert(evs.take(events.len() as int) =~= evs);
        out
    }

    /// The tasks of the current plan.
    pub fn active_syncs(&self) -> (r: Vec<SyncTask>)
        ensures
            task_specs(r@) == task_specs(self.active_syncs@),
    {
        clone_tasks(&self.active_syncs)
    }
}


proof fn lemma_same_sources_in_order(a: Seq<TaskSpec>, b: Seq<TaskSpec>, n: int)
    requires
        sorted_by_source(a),
        sorted_by_source(b),
        forall|i: int| 0 <= i < a.len() ==> has_source(b, (#[trigger] a[i]).source),
        forall|j: int| 0 <= j < b.len() ==> has_source(a, (#[trigger] b[j]).source),
        0 <= n <= a.len(),
        n <= b.len(),
    ensures
        forall|i: int| 0 <= i < n ==> (#[trigger] a[i]).source == b[i].source,
    decreases n,
{
    if n > 0 {
        let m = n - 1;
        lemma_same_sources_in_order(a, b, m);
        assert(has_source(b, a[m].source));
        let j = choose|j: int| 0 <= j < b.len() && (#[trigger] b[j]).source == a[m].source;
        assert(has_source(a, b[m].source));
        let k = choose|k: int| 0 <= k < a.len() && (#[trigger] a[k]).source == b[m].source;
        lemma_text_order_is_total(a[m].source, a[m].source);
        lemma_text_order_is_total(b[m].source, b[m].source);
        if j < m {
            assert(a[j].source == b[j].source);
            assert(text_before(a[j].source, a[m].source));
        } else if k < m {
            assert(a[k].source == b[k].source);
            assert(text_before(b[k].source, b[m].source));
        } else if j > m && k > m {
            assert(text_before(b[m].source, b[j].source));
            assert(text_before(a[m].source, a[k].source));
            lemma_text_order_is_transitive(a[m].source, b[m].source, a[m].source);
        } else if j > m {
            assert(text_before(b[m].source, b[j].source));
        } else if k > m {
            assert(text_before(a[m].source, a[k].source));
        }
    }
}

/// The tasks to synchronise for given hits are determined: two lists that
/// both qualify are the same list.
pub proof fn lemma_trigger_list_is_unique(a: Seq<TaskSpec>, b: Seq<TaskSpec>, hits: Seq<TaskSpec>)
    requires
        is_trigger_list(a, hits),
        is_trigger_list(b, hits),
    ensures
        a == b,
{
    assert forall|i: int| 0 <= i < a.len() implies has_source(b, (#[trigger] a[i]).source) by {
        assert(is_first_with_source(hits, a[i]));
        let k = choose|k: int| 0 <= k < hits.len() && #[trigger] hits[k] == a[i];
        assert(has_source(b, hits[k].source));
    }
    assert forall|j: int| 0 <= j < b.len() implies has_source(a, (#[trigger] b[j]).source) by {
        assert(is_first_with_source(hits, b[j]));
        let k = choose|k: int| 0 <= k < hits.len() && #[trigger] hits[k] == b[j];
        assert(has_source(a, hits[k].source));
    }
    let n = if a.len() <= b.len() {
        a.len() as int
    } else {
        b.len() as int
    };
    lemma_same_sources_in_order(a, b, n);
    if a.len() > n {
        assert(has_source(b, a[n].source));
        let j = choose|j: int| 0 <= j < b.len() && (#[trigger] b[j]).source == a[n].source;
        assert(a[j].source == b[j].source);
        assert(text_before(a[j].source, a[n].source));
        lemma_text_order_is_total(a[n].source, a[n].source);
    }
    if b.len() > n {
        assert(has_source(a, b[n].source));
        let j = choose|j: int| 0 <= j < a.len() && (#[trigger] a[j]).source == b[n].source;
        assert(a[j].source == b[j].source);
        assert(text_before(b[j].source, b[n].source));
        lemma_text_order_is_total(b[n].source, b[n].source);
    }
    assert forall|i: int| 0 <= i < a.len() implies a[i] == b[i] by {
        assert(a[i].source == b[i].source);
        assert(is_first_with_source(hits, a[i]));
        assert(is_first_with_source(hits, b[i]));
        let x = choose|k: int|
            0 <= k < hits.len() && #[trigger] hits[k] == a[i] && forall|m: int|
                0 <= m < k ==> (#[trigger] hits[m]).source != a[i].source;
        let y = choose|k: int|
            0 <= k < hits.len() && #[trigger] hits[k] == b[i] && forall|m: int|
                0 <= m < k ==> (#[trigger] hits[m]).source != b[i].source;
        if x < y {
            assert(hits[x].source != b[i].source);
        } else if y < x {
            assert(hits[y].source != a[i].source);
        }
    }
    assert(a =~= b);
}

} // verus!
