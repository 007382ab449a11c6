//! The configuration that the engine works from: devices, their folders and
//! the watcher's settings. It is read once and never changed.

use crate::domain::task::{task_specs, SyncTask, TaskSpec};
use crate::utils::paths::{app_config_dir, app_data_dir, join_path, joined, PathError, APP_DIR};
use crate::utils::slug::{slug, unique_slug};
use crate::utils::text::text_of;
use vstd::prelude::*;
use vstd::string::*;

verus! {

/// The direction of a synchronisation.
#[derive(Debug, Clone, Copy, PartialEq, Eq, Structural)]
pub enum SyncMode {
    /// From the host to the device.
    Push,
    /// From the device to the host.
    Pull,
}

/// The watcher's settings.
#[derive(Debug, Clone, Copy)]
pub struct WatchConfig {
    pub enabled: bool,
    /// The quiet time in milliseconds after which a batch of events is handed on.
    pub debounce_ms: u64,
}

/// One folder of a device: where it is read from and where it is written to.
#[derive(Debug)]
pub struct FolderConfig {
    pub source: String,
    pub target: String,
    pub enabled: bool,
    /// `None` stands for push.
    pub mode: Option<SyncMode>,
}

/// A folder as contracts see it.
pub struct FolderSpec {
    pub source: Seq<char>,
    pub target: Seq<char>,
    pub enabled: bool,
    pub mode: Option<SyncMode>,
}

impl View for FolderConfig {
    type V = FolderSpec;

    open spec fn view(&self) -> FolderSpec {
        FolderSpec {
            source: self.source@,
            target: self.target@,
            enabled: self.enabled,
            mode: self.mode,
        }
    }
}

impl Clone for FolderConfig {
    fn clone(&self) -> (r: Self)
        ensures
            r@ == self@,
    {
        FolderConfig {
            source: self.source.clone(),
            target: self.target.clone(),
            enabled: self.enabled,
            mode: self.mode,
        }
    }
}

/// The folders that a sequence of folder entries stands for.
pub open spec fn folder_specs(folders: Seq<FolderConfig>) -> Seq<FolderSpec> {
    folders.map_values(|f: FolderConfig| f@)
}

/// One device: its name, which is its key, the pattern of its mount path,
/// and its folders.
#[derive(Debug)]
pub struct DeviceConfig {
    pub name: String,
    pub label: Option<String>,
    /// The mount path; may hold placeholders.
    pub mount: String,
    /// Whether the device counts as present only when the mount table lists
    /// its mount path; otherwise it is present when the path exists.
    pub mountinfo: bool,
    pub folders: Vec<FolderConfig>,
}

/// A device as contracts see it.
pub struct DeviceSpec {
    pub name: Seq<char>,
    pub label: Option<Seq<char>>,
    pub mount: Seq<char>,
    pub mountinfo: bool,
    pub folders: Seq<FolderSpec>,
}

/// The text that an optional string stands for.
pub open spec fn opt_text(s: Option<String>) -> Option<Seq<char>> {
    match s {
        Some(t) => Some(t@),
        None => None,
    }
}

impl View for DeviceConfig {
    type V = DeviceSpec;

    open spec fn view(&self) -> DeviceSpec {
        DeviceSpec {
            name: self.name@,
            label: opt_text(self.label),
            mount: self.mount@,
            mountinfo: self.mountinfo,
            folders: folder_specs(self.folders@),
        }
    }
}

impl Clone for DeviceConfig {
    fn clone(&self) -> (r: Self)
        ensures
            r@ == self@,
    {
        let label = match &self.label {
            Some(l) => Some(l.clone()),
            None => None,
        };
        let mut folders: Vec<FolderConfig> = Vec::new();
        let mut i: usize = 0;
        while i < self.folders.len()
            invariant
                i <= self.folders.len(),
                folders.len() == i,
                forall|k: int| 0 <= k < i ==> folders[k]@ == self.folders[k]@,
            decreases self.folders.len() - i,
        {
            folders.push(self.folders[i].clone());
            i += 1;
        }
        assert(folder_specs(folders@) =~= folder_specs(self.folders@));
        DeviceConfig {
            name: self.name.clone(),
            label,
            mount: self.mount.clone(),
            mountinfo: self.mountinfo,
            folders,
        }
    }
}

impl DeviceConfig {
    /// The device as it is shown: its label with the name in brackets, or
    /// the name alone where it has no label.
    pub open spec fn shown(d: DeviceSpec) -> Seq<char> {
        match d.label {
            Some(l) => l + " ("@ + d.name + ")"@,
            None => d.name,
        }
    }

    /// The text that shows this device.
    pub fn display(&self) -> (r: String)
        ensures
            r@ == DeviceConfig::shown(self@),
    {
        match &self.label {
            Some(l) => {
                let mut out = text_of(l.as_str());
                out.append(" (");
                out.append(self.name.as_str());
                out.append(")");
                out
            },
            None => self.name.clone(),
        }
    }
}

/// The devices that a sequence of device entries stands for.
pub open spec fn device_specs(devices: Seq<DeviceConfig>) -> Seq<DeviceSpec> {
    devices.map_values(|d: DeviceConfig| d@)
}

/// The whole configuration.
#[derive(Debug)]
pub struct AppConfig {
    pub devices: Vec<DeviceConfig>,
    pub watch: WatchConfig,
}

impl Clone for AppConfig {
    fn clone(&self) -> (r: Self)
        ensures
            device_specs(r.devices@) == device_specs(self.devices@),
            r.watch == self.watch,
    {
        let mut devices: Vec<DeviceConfig> = Vec::new();
        let mut i: usize = 0;
        while i < self.devices.len()
            invariant
                i <= self.devices.len(),
                devices.len() == i,
                forall|k: int| 0 <= k < i ==> devices[k]@ == self.devices[k]@,
            decreases self.devices.len() - i,
        {
            devices.push(self.devices[i].clone());
            i += 1;
        }
        assert(device_specs(devices@) =~= device_specs(self.devices@));
        AppConfig { devices, watch: self.watch }
    }
}


/// The name of the configuration file in the application's configuration
/// directory.
pub const CONFIG_FILE: &'static str = "config.yaml";

/// The direction of a folder: push where none is given.
pub open spec fn mode_of(folder: FolderSpec) -> SyncMode {
    match folder.mode {
        Some(m) => m,
        None => SyncMode::Push,
    }
}

/// The task of one folder of one device, with manifests kept below
/// `data_base`. The manifest lies in a directory named after the device and
/// is named by the slug of the folder's target and the device's name. A push
/// reads the folder's source on the host and writes its target below the
/// device's mount path; a pull reads the source below the mount path and
/// writes the target on the host.
pub open spec fn task_for(dev: DeviceSpec, folder: FolderSpec, data_base: Seq<char>) -> TaskSpec {
    let mode = mode_of(folder);
    TaskSpec {
        device: dev,
        folder,
        index_path: joined(joined(data_base, dev.name), slug(folder.target, dev.name) + ".bin"@),
        source: match mode {
            SyncMode::Push => folder.source,
            SyncMode::Pull => joined(dev.mount, folder.source),
        },
        target: match mode {
            SyncMode::Push => joined(dev.mount, folder.target),
            SyncMode::Pull => folder.target,
        },
        mode,
    }
}

/// The tasks of one device: one for each of its folders, in their order.
pub open spec fn device_tasks(dev: DeviceSpec, data_base: Seq<char>) -> Seq<TaskSpec> {
    dev.folders.map_values(|f: FolderSpec| task_for(dev, f, data_base))
}

/// The tasks of a configuration: those of its devices, in their order.
pub open spec fn config_tasks(devices: Seq<DeviceSpec>, data_base: Seq<char>) -> Seq<TaskSpec>
    decreases devices.len(),
{
    if devices.len() == 0 {
        Seq::empty()
    } else {
        config_tasks(devices.drop_last(), data_base) + device_tasks(devices.last(), data_base)
    }
}

impl AppConfig {
    /// Where the configuration is kept: [`CONFIG_FILE`] in the application's
    /// configuration directory. Fails only with `NoConfigDir`, where the
    /// system knows no configuration directory.
    pub fn filepath() -> (r: Result<String, PathError>)
        ensures
            match r {
                Ok(p) => exists|base: Seq<char>|
                    p@ == joined(#[trigger] joined(base, APP_DIR@), CONFIG_FILE@),
                Err(e) => e == PathError::NoConfigDir,
            },
    {
        match app_config_dir() {
            Ok(dir) => Ok(join_path(dir.as_str(), CONFIG_FILE)),
            Err(e) => Err(e),
        }
    }

    /// The tasks of this configuration, with manifests kept below
    /// `data_base`: one for every folder of every device, enabled or not, with
    /// patterns unresolved.
    pub fn load_tasks_in(&self, data_base: &str) -> (r: Vec<SyncTask>)
        ensures
            task_specs(r@) == config_tasks(device_specs(self.devices@), data_base@),
    {
        let ghost devs = device_specs(self.devices@);
        let mut out: Vec<SyncTask> = Vec::new();
        let mut i: usize = 0;
        proof {
            assert(devs.take(0) =~= Seq::<DeviceSpec>::empty());
            assert(task_specs(out@) =~= config_tasks(devs.take(0), data_base@));
        }
        while i < self.devices.len()
            invariant
                i <= self.devices.len(),
                devs == device_specs(self.devices@),
                task_specs(out@) == config_tasks(devs.take(i as int), data_base@),
            decreases self.devices.len() - i,
        {
            let device = &self.devices[i];
            let ghost done = task_specs(out@);
            let ghost mine = device_tasks(device@, data_base@);
            let mut j: usize = 0;
            assert(task_specs(out@) =~= done + mine.take(0));
            while j < device.folders.len()
                invariant
                    j <= device.folders.len(),
                    mine == device_tasks(device@, data_base@),
                    task_specs(out@) == done + mine.take(j as int),
                decreases device.folders.len() - j,
            {
                let folder = &device.folders[j];
                let ghost before = task_specs(out@);
                let mut file = unique_slug(folder.target.as_str(), device.name.as_str());
                file.append(".bin");
                let dir = join_path(data_base, device.name.as_str());
                let index_path = join_path(dir.as_str(), file.as_str());
                let mode = match folder.mode {
                    Some(m) => m,
                    None => SyncMode::Push,
                };
                let (source, target) = match mode {
                    SyncMode::Push => (
                        folder.source.clone(),
                        join_path(device.mount.as_str(), folder.target.as_str()),
                    ),
                    SyncMode::Pull => (
                        join_path(device.mount.as_str(), folder.source.as_str()),
                        folder.target.clone(),
                    ),
                };
                let task = SyncTask {
                    device: device.clone(),
                    folder: folder.clone(),
                    index_path,
                    source,
                    target,
                    mode,
                };
                proof {
                    assert(task@ == task_for(device@, folder@, data_base@));
                    assert(mine[j as int] == task_for(device@, folder@, data_base@));
                }
                out.push(task);
                proof {
                    assert(task_specs(out@) =~= before.push(mine[j as int]));
                    assert(mine.take(j + 1) =~= mine.take(j as int).push(mine[j as int]));
                    assert(task_specs(out@) =~= done + mine.take(j + 1));
                }
                j += 1;
            }
            proof {
                assert(mine.take(device.folders.len() as int) =~= mine);
                assert(devs.take(i + 1).drop_last() =~= devs.take(i as int));
                assert(devs.take(i + 1).last() == device@);
            }
            i += 1;
        }
        assert(devs.take(self.devices.len() as int) =~= devs);
        out
    }

    /// The tasks of this configuration as [`AppConfig::load_tasks_in`] gives
    /// them, with manifests kept in the application's data directory. Fails
    /// only with `NoDataDir`, where the system knows no data directory.
    pub fn load_tasks(&self) -> (r: Result<Vec<SyncTask>, PathError>)
        ensures
            match r {
                Ok(tasks) => exists|base: Seq<char>|
                    task_specs(tasks@) == #[trigger] config_tasks(
                        device_specs(self.devices@),
                        base,
                    ),
                Err(e) => e == PathError::NoDataDir,
            },
    {
        match app_data_dir() {
            Ok(base) => Ok(self.load_tasks_in(base.as_str())),
            Err(e) => Err(e),
        }
    }
}

} // verus!
