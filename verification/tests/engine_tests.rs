//! Tests of the engine, the detection loop, the watcher and the daemon.

use sonik::config::{AppConfig, DeviceConfig, FolderConfig, SyncMode, WatchConfig};
use sonik::context::{EnvContext, ExecutionContext, Paths};
use sonik::daemon::state::{DaemonState, RefreshReason};
use sonik::domain::task::SyncTask;
use sonik::sync::detect::{detect_all_devices, MountProbe};
use sonik::sync::detect_loop::{device_names, DetectEvent, DetectLoop};
use sonik::sync::engine::SyncEngine;
use sonik::sync::watcher::{start_watcher, FsEvent, WatchAction, Watcher, WatcherCommand, WatcherControl};

fn device(name: &str, mount: &str, folders: Vec<FolderConfig>) -> DeviceConfig {
    DeviceConfig {
        name: name.to_string(),
        label: None,
        mount: mount.to_string(),
        mountinfo: true,
        folders,
    }
}

fn folder(source: &str, target: &str) -> FolderConfig {
    FolderConfig { source: source.to_string(), target: target.to_string(), enabled: true, mode: None }
}

fn task(source: &str, target: &str) -> SyncTask {
    SyncTask {
        device: device("dev", "/mnt/dev", vec![]),
        folder: folder(source, target),
        index_path: format!("/data/dev/{}.bin", target),
        source: source.to_string(),
        target: target.to_string(),
        mode: SyncMode::Push,
    }
}

fn event(paths: &[&str]) -> FsEvent {
    FsEvent { paths: paths.iter().map(|p| p.to_string()).collect() }
}

fn context() -> ExecutionContext {
    let env = EnvContext {
        home: "/home/alice".to_string(),
        user: "alice".to_string(),
        uid: "1000".to_string(),
        vars: vec![],
    };
    let paths = Paths {
        home: "/home/alice".to_string(),
        data: "/data".to_string(),
        conf: "/conf".to_string(),
    };
    let config = AppConfig {
        devices: vec![
            device("usb", "/media/usb", vec![folder("/srv/b", "B"), folder("/srv/a", "A")]),
            device("card", "/media/card", vec![folder("/srv/a", "Other")]),
        ],
        watch: WatchConfig { enabled: true, debounce_ms: 200 },
    };
    ExecutionContext::new(config, env, paths)
}

fn probe(mounts: &[&str]) -> MountProbe {
    MountProbe { mounts: mounts.iter().map(|s| s.to_string()).collect(), existing: vec![] }
}

fn names(events: &[DetectEvent]) -> Vec<String> {
    events
        .iter()
        .map(|e| match e {
            DetectEvent::Mounted(n) => format!("+{}", n),
            DetectEvent::Unmounted(n) => format!("-{}", n),
        })
        .collect()
}

fn list(items: &[&str]) -> Vec<String> {
    items.iter().map(|s| s.to_string()).collect()
}

#[test]
fn only_one_synchronisation_at_a_time() {
    let mut engine = SyncEngine::new();
    let first = task("/srv/a", "/media/usb/A");
    let second = task("/srv/b", "/media/card/B");
    assert!(!engine.syncing);
    assert!(engine.sync_config(&first), "a free engine gives leave");
    assert!(engine.syncing);
    assert!(!engine.sync_config(&second), "a second request is turned down");
    assert!(!engine.sync_config(&first), "and so is a repeated one");
    assert!(engine.syncing, "a refusal leaves the running synchronisation alone");
    engine.finish();
    assert!(!engine.syncing);
    assert!(engine.sync_config(&second), "the request is granted once the engine is free");
}

#[test]
fn events_go_to_tasks_by_whole_components() {
    let engine = SyncEngine::new();
    let active = vec![
        task("/home/alice/Music", "/media/usb/Music"),
        task("/home/alice", "/media/usb/Home"),
        task("/home/alice/Mus", "/media/usb/Mus"),
        task("/home/alice/Music/", "/media/card/Music"),
    ];
    let hit = engine.match_event(&event(&["/home/alice/Music/a/b.mp3", "/home/alice/Mus/x"]), &active);
    let targets: Vec<&str> = hit.iter().map(|t| t.target.as_str()).collect();
    assert_eq!(targets, vec!["/media/usb/Music", "/media/usb/Home", "/media/card/Music"]);

    assert!(engine.match_event(&event(&[]), &active).is_empty());
    assert!(engine.match_event(&event(&["/elsewhere"]), &active).is_empty());
    assert_eq!(engine.match_event(&event(&["/home/alice/Music"]), &active).len(), 3);
    assert!(engine.match_event(&event(&["/home/alice/Music"]), &[]).is_empty());
}

#[test]
fn device_that_appears_is_reported_once() {
    let mut ticks = DetectLoop::new();
    assert!(ticks.tick(&list(&[])).is_empty());
    // tick N: the device is there, at tick N-1 it was not
    assert_eq!(names(&ticks.tick(&list(&["usb"]))), vec!["+usb"]);
    // it stays: nothing is reported
    assert!(ticks.tick(&list(&["usb"])).is_empty());
    assert!(ticks.tick(&list(&["usb", "usb"])).is_empty());
    assert_eq!(names(&ticks.tick(&list(&["card", "usb", "card"]))), vec!["+card"]);
    assert_eq!(ticks.previous, list(&["card", "usb"]));
    assert_eq!(names(&ticks.tick(&list(&["phone"]))), vec!["+phone", "-card", "-usb"]);
    assert_eq!(names(&ticks.tick(&list(&[]))), vec!["-phone"]);
    assert!(ticks.previous.is_empty());
}

#[test]
fn detection_feeds_the_loop() {
    let ctx = context();
    let mut ticks = DetectLoop::new();
    let found = detect_all_devices(&ctx, &probe(&["/media/usb", "/media/card"]));
    assert_eq!(device_names(&found), list(&["usb", "card"]));
    assert_eq!(names(&ticks.tick(&device_names(&found))), vec!["+usb", "+card"]);
    let found = detect_all_devices(&ctx, &probe(&["/media/card"]));
    assert_eq!(names(&ticks.tick(&device_names(&found))), vec!["-usb"]);
}

#[test]
fn commands_queue_up_in_order() {
    let mut control = WatcherControl::new();
    assert!(control.take().is_none());
    control.add("/a".to_string());
    control.clear_all();
    control.remove("/b".to_string());
    assert!(matches!(control.take(), Some(WatcherCommand::Add(p)) if p == "/a"));
    assert!(matches!(control.take(), Some(WatcherCommand::ClearAll)));
    assert!(matches!(control.take(), Some(WatcherCommand::Remove(p)) if p == "/b"));
    assert!(control.take().is_none());
}

fn watch(watcher: &mut Watcher, path: &str, ok: bool) {
    match watcher.command(WatcherCommand::Add(path.to_string())) {
        WatchAction::Watch(p) => {
            assert_eq!(p, path);
            watcher.subscribed(p, ok);
        }
        other => panic!("expected a subscription, got {:?}", other),
    }
}

#[test]
fn watcher_follows_its_commands() {
    let (control, mut watcher) = start_watcher(100);
    assert!(control.queue.is_empty());
    assert!(watcher.watched.is_empty() && watcher.pending.is_empty() && watcher.last.is_none());
    assert_eq!(watcher.debounce_ms, 100);

    watch(&mut watcher, "/a", true);
    watch(&mut watcher, "/b", false);
    watch(&mut watcher, "/c", true);
    assert_eq!(watcher.watched, list(&["/a", "/c"]), "a failed subscription is not watched");
    assert!(matches!(watcher.command(WatcherCommand::Add("/a".to_string())), WatchAction::Nothing));
    assert_eq!(watcher.watched, list(&["/a", "/c"]));

    match watcher.command(WatcherCommand::Remove("/a".to_string())) {
        WatchAction::Unwatch(gone) => assert_eq!(gone, list(&["/a"])),
        other => panic!("expected an unsubscription, got {:?}", other),
    }
    assert_eq!(watcher.watched, list(&["/c"]));
    match watcher.command(WatcherCommand::Remove("/never".to_string())) {
        WatchAction::Unwatch(gone) => assert_eq!(gone, list(&["/never"])),
        other => panic!("expected an unsubscription, got {:?}", other),
    }
    assert_eq!(watcher.watched, list(&["/c"]));

    watch(&mut watcher, "/d", true);
    match watcher.command(WatcherCommand::ClearAll) {
        WatchAction::Unwatch(gone) => assert_eq!(gone, list(&["/c", "/d"])),
        other => panic!("expected an unsubscription, got {:?}", other),
    }
    assert!(watcher.watched.is_empty());
}

#[test]
fn burst_of_events_leaves_as_one_batch() {
    let (_, mut watcher) = start_watcher(100);
    assert!(watcher.flush(1_000_000).is_none(), "nothing came in yet");

    watcher.event(event(&["/a/1"]), 1000);
    assert!(watcher.flush(1050).is_none());
    watcher.event(event(&["/a/2"]), 1060);
    assert!(watcher.flush(1100).is_none(), "the second event began the quiet time anew");
    assert!(watcher.flush(1159).is_none());
    watcher.event(event(&["/a/3"]), 1159);
    assert!(watcher.flush(1258).is_none());
    let batch = watcher.flush(1259).expect("the quiet time has passed");
    let paths: Vec<&str> = batch.iter().map(|e| e.paths[0].as_str()).collect();
    assert_eq!(paths, vec!["/a/1", "/a/2", "/a/3"]);
    assert!(watcher.pending.is_empty());
    assert!(watcher.last.is_none());
    assert!(watcher.flush(5000).is_none(), "a batch leaves once");

    // a clock that reads earlier than the last event holds the batch back
    watcher.event(event(&["/a/4"]), 9000);
    assert!(watcher.flush(10).is_none());
    assert_eq!(watcher.flush(9100).unwrap().len(), 1);
}

#[test]
fn tick_applies_command_then_event_then_hand_over() {
    let (_, mut watcher) = start_watcher(50);
    let tick = watcher.tick(Some(WatcherCommand::Add("/a".to_string())), Some(event(&["/a/1"])), 100);
    assert!(matches!(&tick.action, WatchAction::Watch(p) if p == "/a"));
    assert!(tick.batch.is_none(), "the event has only just come");
    watcher.subscribed("/a".to_string(), true);
    assert_eq!(watcher.watched, list(&["/a"]));

    let idle = watcher.tick(None, None, 149);
    assert!(matches!(idle.action, WatchAction::Nothing));
    assert!(idle.batch.is_none());

    let due = watcher.tick(Some(WatcherCommand::ClearAll), None, 150);
    assert!(matches!(&due.action, WatchAction::Unwatch(gone) if gone == &list(&["/a"])));
    assert_eq!(due.batch.unwrap().len(), 1);
    assert!(watcher.watched.is_empty() && watcher.pending.is_empty());

    // an event that comes when the quiet time of an older one has passed waits for its own
    watcher.event(event(&["/a/2"]), 200);
    let late = watcher.tick(None, Some(event(&["/a/3"])), 300);
    assert!(late.batch.is_none());
    assert_eq!(watcher.tick(None, None, 350).batch.unwrap().len(), 2);
}

#[test]
fn watcher_without_quiet_time_hands_on_at_once() {
    let (_, mut watcher) = start_watcher(0);
    watcher.event(event(&["/x"]), 5);
    assert_eq!(watcher.flush(5).unwrap().len(), 1);
}

fn daemon() -> DaemonState {
    DaemonState::new(context(), SyncEngine::new(), WatcherControl::new())
}

fn drain(control: &mut WatcherControl) -> Vec<String> {
    let mut out = Vec::new();
    while let Some(c) = control.take() {
        out.push(match c {
            WatcherCommand::Add(p) => format!("add {}", p),
            WatcherCommand::Remove(p) => format!("remove {}", p),
            WatcherCommand::ClearAll => "clear".to_string(),
        });
    }
    out
}

#[test]
fn mount_refreshes_plan_and_asks_for_syncs() {
    let mut state = daemon();
    assert!(state.active_syncs().is_empty());

    let to_sync = state.on_device_mounted("usb", &probe(&["/media/usb"]));
    let planned: Vec<&str> = to_sync.iter().map(|t| t.target.as_str()).collect();
    assert_eq!(planned, vec!["/media/usb/B", "/media/usb/A"]);
    assert_eq!(state.active_syncs().len(), 2);
    assert_eq!(drain(&mut state.watcher), vec!["clear", "add /srv/b", "add /srv/a"]);

    // a second notice for the same device gives the same plan
    let again = state.on_device_mounted("usb", &probe(&["/media/usb"]));
    assert_eq!(again.len(), 2);
    assert_eq!(state.active_syncs().len(), 2);
    assert_eq!(drain(&mut state.watcher), vec!["clear", "add /srv/b", "add /srv/a"]);

    // which device is named does not matter: the probe decides
    let none = state.on_device_mounted("usb", &probe(&[]));
    assert!(none.is_empty());
    assert!(state.active_syncs().is_empty());
    assert_eq!(drain(&mut state.watcher), vec!["clear"]);
}

#[test]
fn unmount_refreshes_plan_without_syncs() {
    let mut state = daemon();
    state.on_device_mounted("usb", &probe(&["/media/usb", "/media/card"]));
    assert_eq!(state.active_syncs().len(), 3);
    drain(&mut state.watcher);

    state.on_device_unmounted("usb", &probe(&["/media/card"]));
    let left = state.active_syncs();
    assert_eq!(left.len(), 1);
    assert_eq!(left[0].target, "/media/card/Other");
    assert_eq!(drain(&mut state.watcher), vec!["clear", "add /srv/a"]);

    let nothing = state.refresh_plan(RefreshReason::DeviceUnmounted, &probe(&["/media/usb"]));
    assert!(nothing.is_empty());
    assert_eq!(state.active_syncs().len(), 2);
    let all = state.refresh_plan(RefreshReason::DeviceMounted, &probe(&["/media/usb"]));
    assert_eq!(all.len(), 2);
}

#[test]
fn batch_triggers_each_source_once_in_order() {
    let mut state = daemon();
    state.on_device_mounted("usb", &probe(&["/media/usb", "/media/card"]));
    // active: /srv/b -> usb/B, /srv/a -> usb/A, /srv/a -> card/Other
    let batch = vec![
        event(&["/srv/b/new.txt"]),
        event(&["/srv/a/x"]),
        event(&["/srv/b/other.txt"]),
        event(&["/unwatched"]),
        event(&[]),
        event(&["/srv/a/y", "/srv/b/ignored"]),
    ];
    let impacted = state.handle_events(&batch);
    let hit: Vec<(&str, &str)> =
        impacted.iter().map(|t| (t.source.as_str(), t.target.as_str())).collect();
    assert_eq!(hit, vec![("/srv/a", "/media/usb/A"), ("/srv/b", "/media/usb/B")]);

    assert!(state.handle_events(&vec![]).is_empty());
    assert!(state.handle_events(&vec![event(&["/nowhere"])]).is_empty());
    assert!(daemon().handle_events(&batch).is_empty(), "without a plan nothing is hit");
}
