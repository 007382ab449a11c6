//! Tests of path resolution, of the tasks of a configuration and of the plan.

use sonik::config::{AppConfig, DeviceConfig, FolderConfig, SyncMode, WatchConfig};
use sonik::context::{EnvContext, ExecutionContext, PathExpander, Paths};
use sonik::domain::task::{SyncTask, SyncTaskExpand, SyncTaskFilter};
use sonik::sync::detect::{
    detect_all_devices, mount_candidates, read_mounts, MountProbe,
};
use sonik::sync::planner::plan_sync;
use sonik::utils::paths::{self, PathError};
use sonik::utils::slug::unique_slug;

fn env() -> EnvContext {
    EnvContext {
        home: "/home/alice".to_string(),
        user: "alice".to_string(),
        uid: "1000".to_string(),
        vars: vec![
            ("MUSIC".to_string(), "/srv/music".to_string()),
            ("EMPTY".to_string(), String::new()),
            ("MUSIC".to_string(), "/shadowed".to_string()),
        ],
    }
}

fn folder(source: &str, target: &str, enabled: bool, mode: Option<SyncMode>) -> FolderConfig {
    FolderConfig { source: source.to_string(), target: target.to_string(), enabled, mode }
}

fn config() -> AppConfig {
    AppConfig {
        devices: vec![
            DeviceConfig {
                name: "Pixel7a".to_string(),
                label: Some("Phone".to_string()),
                mount: "/run/user/{uid}/gvfs/mtp".to_string(),
                mountinfo: false,
                folders: vec![
                    folder("~/Music", "Music", true, None),
                    folder("DCIM", "~/Pictures/phone", true, Some(SyncMode::Pull)),
                    folder("~/Books", "Books", false, Some(SyncMode::Push)),
                ],
            },
            DeviceConfig {
                name: "USB1".to_string(),
                label: None,
                mount: "/media/{user}/{device}".to_string(),
                mountinfo: true,
                folders: vec![folder("$MUSIC", "My Music/All", true, None)],
            },
            DeviceConfig {
                name: "Bare".to_string(),
                label: None,
                mount: "/mnt/bare".to_string(),
                mountinfo: true,
                folders: vec![],
            },
        ],
        watch: WatchConfig { enabled: true, debounce_ms: 500 },
    }
}

fn context() -> ExecutionContext {
    let paths = Paths {
        home: "/home/alice".to_string(),
        data: "/home/alice/.local/share/sonik".to_string(),
        conf: "/home/alice/.config/sonik".to_string(),
    };
    ExecutionContext::new(config(), env(), paths)
}

fn probe(mounts: &[&str], existing: &[&str]) -> MountProbe {
    MountProbe {
        mounts: mounts.iter().map(|s| s.to_string()).collect(),
        existing: existing.iter().map(|s| s.to_string()).collect(),
    }
}

fn sources(tasks: &[SyncTask]) -> Vec<&str> {
    tasks.iter().map(|t| t.source.as_str()).collect()
}

#[test]
fn patterns_are_resolved() {
    let expander = PathExpander::new(env());
    assert_eq!(expander.expand("~/Music", "usb"), "/home/alice/Music");
    assert_eq!(expander.expand("$MUSIC/live", "usb"), "/srv/music/live");
    assert_eq!(expander.expand("${MUSIC}2", "usb"), "/srv/music2");
    assert_eq!(expander.expand("/media/{user}/{device}", "USB1"), "/media/alice/USB1");
    assert_eq!(expander.expand("{home}/x/{uid}", "usb"), "/home/alice/x/1000");
    assert_eq!(expander.expand("/abs/~/kept", "usb"), "/abs/~/kept");
    assert_eq!(expander.expand("~", "usb"), "/home/alice/~");
}

#[test]
fn relative_paths_start_at_home() {
    let expander = PathExpander::new(env());
    assert_eq!(expander.expand("Music/new", "usb"), "/home/alice/Music/new");
    assert_eq!(expander.expand("", "usb"), "/home/alice/");
    assert_eq!(expander.expand("{device}", "usb"), "/home/alice/usb");
}

#[test]
fn unknown_variables_stay() {
    let expander = PathExpander::new(env());
    assert_eq!(expander.expand("/x/$NOPE/y", "usb"), "/x/$NOPE/y");
    assert_eq!(expander.expand("/x/${NOPE:-fallback}/y", "usb"), "/x/fallback/y");
    assert_eq!(expander.expand("/x/$EMPTY/y", "usb"), "/x//y");
}

#[test]
fn first_variable_of_a_name_counts() {
    assert_eq!(paths::lookup_var(&env().vars, "MUSIC"), Some("/srv/music".to_string()));
    assert_eq!(paths::lookup_var(&env().vars, "EMPTY"), Some(String::new()));
    assert_eq!(paths::lookup_var(&env().vars, "music"), None);
    assert_eq!(paths::lookup_var(&vec![], "MUSIC"), None);
}

#[test]
fn mount_path_is_resolved_for_the_device() {
    let ctx = context();
    assert_eq!(ctx.expand_mount(&ctx.config.devices[0]), "/run/user/1000/gvfs/mtp");
    assert_eq!(ctx.expand_mount(&ctx.config.devices[1]), "/media/alice/USB1");
}

#[test]
fn standard_directories_are_required_in_order() {
    let some = |s: &str| Some(s.to_string());
    let all = Paths::from_dirs(some("/h"), some("/d"), some("/c")).unwrap();
    assert_eq!((all.home.as_str(), all.data.as_str(), all.conf.as_str()), ("/h", "/d/sonik", "/c/sonik"));
    assert_eq!(Paths::from_dirs(None, None, None).err(), Some(PathError::NoHomeDir));
    assert_eq!(Paths::from_dirs(some("/h"), None, None).err(), Some(PathError::NoDataDir));
    assert_eq!(Paths::from_dirs(some("/h"), some("/d"), None).err(), Some(PathError::NoConfigDir));
    assert_eq!(paths::dir_or(None, PathError::NoHomeDir), Err(PathError::NoHomeDir));
    assert_eq!(paths::dir_or(some("/h"), PathError::NoHomeDir), Ok("/h".to_string()));
    assert_eq!(paths::app_dir_or(some("/d/"), PathError::NoDataDir), Ok("/d/sonik".to_string()));
    assert_eq!(PathError::NoDataDir.message(), "Failed to locate user data directory");
    assert_eq!(PathError::NoConfigDir.message(), "Failed to locate user config directory");
    assert_eq!(PathError::NoHomeDir.message(), "Failed to locate user home directory");
}

#[test]
fn located_directories_belong_to_the_application() {
    let located = Paths::locate().unwrap();
    assert!(located.data.ends_with("sonik"));
    assert!(located.conf.ends_with("sonik"));
    let file = AppConfig::filepath().unwrap();
    assert_eq!(file, format!("{}/config.yaml", located.conf));
}

#[test]
fn slug_is_label_and_fingerprint() {
    let hex = blake3::hash(b"My Music/All::USB1").to_hex();
    assert_eq!(unique_slug("My Music/All", "USB1"), format!("my-music-all-{}", &hex[..8]));
    let hex = blake3::hash("Été::d".as_bytes()).to_hex();
    assert_eq!(unique_slug("Été", "d"), format!("été-{}", &hex[..8]));
    let hex = blake3::hash(b"::").to_hex();
    assert_eq!(unique_slug("", ""), format!("-{}", &hex[..8]));
}

#[test]
fn every_folder_gives_a_task() {
    let tasks = config().load_tasks_in("/data");
    assert_eq!(tasks.len(), 4);

    let music = &tasks[0];
    assert_eq!(music.device.name, "Pixel7a");
    assert_eq!(music.folder.target, "Music");
    assert_eq!(music.mode, SyncMode::Push);
    assert_eq!(music.source, "~/Music");
    assert_eq!(music.target, "/run/user/{uid}/gvfs/mtp/Music");
    assert_eq!(
        music.index_path,
        format!("/data/Pixel7a/{}.bin", unique_slug("Music", "Pixel7a"))
    );

    let pull = &tasks[1];
    assert_eq!(pull.mode, SyncMode::Pull);
    assert_eq!(pull.source, "/run/user/{uid}/gvfs/mtp/DCIM");
    assert_eq!(pull.target, "~/Pictures/phone");
    assert_eq!(
        pull.index_path,
        format!("/data/Pixel7a/{}.bin", unique_slug("~/Pictures/phone", "Pixel7a"))
    );

    assert!(!tasks[2].folder.enabled);
    assert_eq!(tasks[3].device.name, "USB1");
    assert_eq!(tasks[3].target, "/media/{user}/{device}/My Music/All");
}

#[test]
fn tasks_are_kept_in_the_data_directory() {
    let tasks = config().load_tasks().unwrap();
    let base = paths::app_data_dir().unwrap();
    assert_eq!(tasks.len(), 4);
    assert!(tasks[0].index_path.starts_with(&format!("{}/Pixel7a/music-", base)));
}

#[test]
fn tasks_are_resolved_and_selected() {
    let ctx = context();
    let tasks = ctx.config.load_tasks_in("/data");
    let enabled = tasks.filter_enabled();
    assert_eq!(enabled.len(), 3);
    let resolved = enabled.expanded(&ctx);
    assert_eq!(
        sources(&resolved),
        vec!["/home/alice/Music", "/run/user/1000/gvfs/mtp/DCIM", "/srv/music"]
    );
    assert_eq!(resolved[0].target, "/run/user/1000/gvfs/mtp/Music");
    assert_eq!(resolved[1].target, "/home/alice/Pictures/phone");
    assert_eq!(resolved[2].target, "/media/alice/USB1/My Music/All");
    assert_eq!(resolved[2].index_path, ctx.config.load_tasks_in("/data")[3].index_path);

    let one = resolved[0].expanded(&ctx);
    assert_eq!(one.source, "/home/alice/Music");

    let usb = ctx.config.load_tasks_in("/data").filter_by_device("USB1");
    assert_eq!(sources(&usb), vec!["$MUSIC"]);
    assert!(ctx.config.load_tasks_in("/data").filter_by_device("usb1").is_empty());

    let mut names = vstd::hash_set::StringHashSet::new();
    names.insert("USB1".to_string());
    names.insert("Nobody".to_string());
    let chosen = ctx.config.load_tasks_in("/data").filter_by_devices(&names);
    assert_eq!(sources(&chosen), vec!["$MUSIC"]);
}

#[test]
fn task_and_device_are_shown() {
    let ctx = context();
    let tasks = ctx.config.load_tasks_in("/data").expanded(&ctx);
    assert_eq!(
        tasks[2].display(),
        format!(
            "[Pixel7a | disabled] /home/alice/Books \u{2192} /run/user/1000/gvfs/mtp/Books (index: {})",
            tasks[2].index_path
        )
    );
    assert!(tasks[0].display().starts_with("[Pixel7a | enabled] /home/alice/Music"));
    assert_eq!(ctx.config.devices[0].display(), "Phone (Pixel7a)");
    assert_eq!(ctx.config.devices[1].display(), "USB1");
}

const MOUNT_TABLE: &str = "\
22 1 0:21 / /proc rw,nosuid,nodev,noexec,relatime shared:12 - proc proc rw
36 35 98:0 /mnt1 /media/alice/USB1 rw,noatime master:1 - ext3 /dev/root rw,errors=continue

too few fields
\t37   35\t8:17  /  /mnt/with\\040space   rw - vfat /dev/sdb1 rw\r
38 35 8:18 / /last/without/newline";

#[test]
fn mount_points_are_the_fifth_fields() {
    assert_eq!(
        read_mounts(MOUNT_TABLE),
        vec!["/proc", "/media/alice/USB1", "/mnt/with\\040space", "/last/without/newline"]
    );
    assert!(read_mounts("").is_empty());
    assert!(read_mounts("\n\n").is_empty());
    assert_eq!(read_mounts("a b c d e"), vec!["e"]);
    assert_eq!(read_mounts("a b c d e\n"), vec!["e"]);
    assert_eq!(read_mounts("a b c d\ne f g h"), Vec::<String>::new());
    assert_eq!(read_mounts("a\u{a0}b\u{2003}c\u{3000}d é\u{85}x"), vec!["é"]);
}

#[test]
fn mount_table_is_read_as_the_standard_library_splits_it() {
    let by_std: Vec<String> = MOUNT_TABLE
        .lines()
        .filter_map(|line| line.split_whitespace().nth(4))
        .map(|s| s.to_string())
        .collect();
    assert_eq!(read_mounts(MOUNT_TABLE), by_std);
}

#[test]
fn devices_are_found_by_table_or_by_path() {
    let ctx = context();
    assert_eq!(mount_candidates(&ctx), vec!["/run/user/1000/gvfs/mtp"]);

    let none = detect_all_devices(&ctx, &probe(&[], &[]));
    assert!(none.is_empty());

    // the table counts for USB1 only, the existing paths for the phone only
    let wrong = probe(&["/run/user/1000/gvfs/mtp"], &["/media/alice/USB1", "/mnt/bare"]);
    assert!(detect_all_devices(&ctx, &wrong).is_empty());

    let both = probe(&["/", "/media/alice/USB1"], &["/run/user/1000/gvfs/mtp"]);
    let found = detect_all_devices(&ctx, &both);
    let names: Vec<(&str, &str)> =
        found.iter().map(|(d, p)| (d.name.as_str(), p.as_str())).collect();
    assert_eq!(
        names,
        vec![("Pixel7a", "/run/user/1000/gvfs/mtp"), ("USB1", "/media/alice/USB1")]
    );

    // the mount path must match exactly
    let near = probe(&["/media/alice/USB1/", "/media/alice/usb1"], &[]);
    assert!(detect_all_devices(&ctx, &near).is_empty());
}

#[test]
fn plan_holds_enabled_folders_of_present_devices() {
    let ctx = context();
    assert!(plan_sync(&ctx, &probe(&[], &[])).is_empty());

    let usb = plan_sync(&ctx, &probe(&["/media/alice/USB1"], &[]));
    assert_eq!(sources(&usb), vec!["/srv/music"]);

    let phone = plan_sync(&ctx, &probe(&[], &["/run/user/1000/gvfs/mtp"]));
    assert_eq!(sources(&phone), vec!["/home/alice/Music", "/run/user/1000/gvfs/mtp/DCIM"]);

    let all = plan_sync(&ctx, &probe(&["/media/alice/USB1"], &["/run/user/1000/gvfs/mtp"]));
    assert_eq!(all.len(), 3);

    // a present device without folders adds nothing
    assert!(plan_sync(&ctx, &probe(&["/mnt/bare"], &[])).is_empty());
}

#[test]
fn plan_of_an_empty_configuration_is_empty() {
    let paths = Paths { home: "/h".to_string(), data: "/d".to_string(), conf: "/c".to_string() };
    let empty = AppConfig { devices: vec![], watch: WatchConfig { enabled: false, debounce_ms: 0 } };
    let ctx = ExecutionContext::new(empty, env(), paths);
    assert!(plan_sync(&ctx, &probe(&["/"], &["/"])).is_empty());
    assert!(mount_candidates(&ctx).is_empty());
}
