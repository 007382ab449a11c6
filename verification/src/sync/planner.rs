//! The plan of a run: the configured folders whose device is present.

use crate::config::{config_tasks, device_specs, DeviceConfig, DeviceSpec};
use crate::context::{EnvSpec, ExecutionContext};
use crate::domain::task::{expanded_task, task_specs, SyncTask, SyncTaskExpand, SyncTaskFilter, TaskSpec};
use crate::sync::detect::{detect_all_devices, mounted_specs, present_devices, MountProbe, ProbeSpec};
use crate::utils::text::lemma_filter_none;
use vstd::hash_set::StringHashSet;
use vstd::prelude::*;

verus! {

/// The tasks that could run: those of the enabled folders of the
/// configuration, with manifests kept below `data`, resolved in `env`.
pub open spec fn candidate_tasks(env: EnvSpec, data: Seq<char>, devices: Seq<DeviceSpec>) -> Seq<
    TaskSpec,
> {
    config_tasks(devices, data).filter(|t: TaskSpec| t.folder.enabled).map_values(
        |t: TaskSpec| expanded_task(env, t),
    )
}

/// The names of the devices that are present.
pub open spec fn present_names(env: EnvSpec, probe: ProbeSpec, devices: Seq<DeviceSpec>) -> Seq<
    Seq<char>,
> {
    present_devices(env, probe, devices).map_values(|m: (DeviceSpec, Seq<char>)| m.0.name)
}

/// The plan: the tasks that could run and whose device is present, in the
/// order of the configuration.
pub open spec fn planned_tasks(
    env: EnvSpec,
    data: Seq<char>,
    probe: ProbeSpec,
    devices: Seq<DeviceSpec>,
) -> Seq<TaskSpec> {
    candidate_tasks(env, data, devices).filter(
        |t: TaskSpec| present_names(env, probe, devices).contains(t.device.name),
    )
}

/// The plan for the context `ctx`, given what `probe` found on the machine.
/// It is empty where no folder is enabled or no device is present.
pub fn plan_sync(ctx: &ExecutionContext, probe: &MountProbe) -> (r: Vec<SyncTask>)
    ensures
        task_specs(r@) == planned_tasks(
            ctx.expander.ctx@,
            ctx.paths.data@,
            probe@,
            device_specs(ctx.config.devices@),
        ),
{
    let ghost env = ctx.expander.ctx@;
    let ghost devices = device_specs(ctx.config.devices@);
    let ghost names_spec = present_names(env, probe@, devices);
    let ghost wanted = |t: TaskSpec| names_spec.contains(t.device.name);
    let tasks = ctx.config.load_tasks_in(ctx.paths.data.as_str()).filter_enabled();
    let tasks = tasks.expanded(ctx);
    let ghost cand = task_specs(tasks@);
    assert(cand == candidate_tasks(env, ctx.paths.data@, devices));
    if tasks.len() == 0 {
        proof {
            lemma_filter_none(cand, wanted);
        }
        return tasks;
    }
    let mounted = detect_all_devices(ctx, probe);
    if mounted.len() == 0 {
        proof {
            assert(names_spec.len() == 0);
            lemma_filter_none(cand, wanted);
        }
        let none: Vec<SyncTask> = Vec::new();
        assert(task_specs(none@) =~= Seq::<TaskSpec>::empty());
        return none;
    }
    let mut names: StringHashSet = StringHashSet::new();
    let mut i: usize = 0;
    while i < mounted.len()
        invariant
            i <= mounted.len(),
            names_spec == mounted_specs(mounted@).map_values(
                |m: (DeviceSpec, Seq<char>)| m.0.name,
            ),
            forall|n: Seq<char>| names@.contains(n) <==> names_spec.take(i as int).contains(n),
        decreases mounted.len() - i,
    {
        let ghost before = names@;
        names.insert(mounted[i].0.name.clone());
        proof {
            let x = mounted[i as int].0@.name;
            let shorter = names_spec.take(i as int);
            let longer = names_spec.take(i + 1);
            assert(names_spec[i as int] == x);
            assert(longer =~= shorter.push(x));
            assert forall|n: Seq<char>| names@.contains(n) <==> longer.contains(n) by {
                if longer.contains(n) {
                    let k = choose|k: int| 0 <= k < longer.len() && longer[k] == n;
                    if k < i {
                        assert(shorter[k] == n);
                    }
                }
                if before.contains(n) {
                    let k = choose|k: int| 0 <= k < shorter.len() && shorter[k] == n;
                    assert(longer[k] == n);
                }
                if n == x {
                    assert(longer[i as int] == n);
                }
            }
        }
        i += 1;
    }
    proof {
        assert(names_spec.take(mounted.len() as int) =~= names_spec);
        assert((|t: TaskSpec| names@.contains(t.device.name)) =~= wanted);
    }
    tasks.filter_by_devices(&names)
}

} // verus!
