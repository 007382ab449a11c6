//! Watching source directories: which paths are watched, and when the
//! events that came in are handed on as one batch.

use crate::utils::text::{clone_texts, list_has, str_eq, texts, lemma_filter_none, lemma_filter_step};
use vstd::prelude::*;

verus! {

/// One change that the file system reported.
#[derive(Debug)]
pub struct FsEvent {
    /// The paths that the change concerns; the first one decides which
    /// tasks it belongs to.
    pub paths: Vec<String>,
}

/// An event as contracts see it.
pub struct EventSpec {
    pub paths: Seq<Seq<char>>,
}

impl View for FsEvent {
    type V = EventSpec;

    open spec fn view(&self) -> EventSpec {
        EventSpec { paths: texts(self.paths@) }
    }
}

impl Clone for FsEvent {
    fn clone(&self) -> (r: Self)
        ensures
            r@ == self@,
    {
        FsEvent { paths: clone_texts(&self.paths) }
    }
}

/// The events that a sequence of event values stands for.
pub open spec fn event_specs(events: Seq<FsEvent>) -> Seq<EventSpec> {
    events.map_values(|e: FsEvent| e@)
}

/// What the watcher is asked to do.
#[derive(Debug)]
pub enum WatcherCommand {
    /// Watch this path.
    Add(String),
    /// Stop watching this path.
    Remove(String),
    /// Stop watching every path.
    ClearAll,
}

/// A command as contracts see it.
pub enum CommandSpec {
    Add(Seq<char>),
    Remove(Seq<char>),
    ClearAll,
}

impl View for WatcherCommand {
    type V = CommandSpec;

    open spec fn view(&self) -> CommandSpec {
        match *self {
            WatcherCommand::Add(p) => CommandSpec::Add(p@),
            WatcherCommand::Remove(p) => CommandSpec::Remove(p@),
            WatcherCommand::ClearAll => CommandSpec::ClearAll,
        }
    }
}

/// The commands that a sequence of command values stands for.
pub open spec fn command_specs(commands: Seq<WatcherCommand>) -> Seq<CommandSpec> {
    commands.map_values(|c: WatcherCommand| c@)
}

/// The handle through which the watcher is told what to watch. Commands
/// queue up in the order they are given; the watcher takes them one at a
/// time, oldest first.
#[derive(Debug)]
pub struct WatcherControl {
    /// The commands given and not yet taken, oldest first.
    pub queue: Vec<WatcherCommand>,
}

impl WatcherControl {
    /// The commands that wait.
    pub open spec fn waiting(&self) -> Seq<CommandSpec> {
        command_specs(self.queue@)
    }

    /// A handle with no command waiting.
    pub fn new() -> (r: Self)
        ensures
            r.waiting() == Seq::<CommandSpec>::empty(),
    {
        let r = WatcherControl { queue: Vec::new() };
        assert(r.waiting() =~= Seq::<CommandSpec>::empty());
        r
    }

    /// Asks the watcher to watch `path`.
    pub fn add(&mut self, path: String)
        ensures
            final(self).waiting() == old(self).waiting().push(CommandSpec::Add(path@)),
    {
        self.queue.push(WatcherCommand::Add(path));
        assert(self.waiting() =~= old(self).waiting().push(CommandSpec::Add(path@)));
    }

    /// Asks the watcher to stop watching `path`.
    pub fn remove(&mut self, path: String)
        ensures
            final(self).waiting() == old(self).waiting().push(CommandSpec::Remove(path@)),
    {
        self.queue.push(WatcherCommand::Remove(path));
        assert(self.waiting() =~= old(self).waiting().push(CommandSpec::Remove(path@)));
    }

    /// Asks the watcher to stop watching every path.
    pub fn clear_all(&mut self)
        ensures
            final(self).waiting() == old(self).waiting().push(CommandSpec::ClearAll),
    {
        self.queue.push(WatcherCommand::ClearAll);
        assert(self.waiting() =~= old(self).waiting().push(CommandSpec::ClearAll));
    }

    /// Takes the oldest waiting command, if any waits.
    pub fn take(&mut self) -> (r: Option<WatcherCommand>)
        ensures
            match r {
                Some(c) => old(self).waiting().len() > 0 && c@ == old(self).waiting().first()
                    && final(self).waiting() == old(self).waiting().drop_first(),
                None => old(self).waiting().len() == 0 && final(self).waiting() == old(
                    self,
                ).waiting(),
            },
    {
        if self.queue.len() == 0 {
            return None;
        }
        let c = self.queue.remove(0);
        assert(self.waiting() =~= old(self).waiting().drop_first());
        assert(old(self).waiting().first() == c@);
        Some(c)
    }
}

/// What is to be done on the file system's watch subscriptions.
#[derive(Debug)]
pub enum WatchAction {
    /// Nothing.
    Nothing,
    /// Subscribe to this path and everything below it, and report whether
    /// that succeeded.
    Watch(String),
    /// Unsubscribe from these paths, in this order.
    Unwatch(Vec<String>),
}

/// An action as contracts see it.
pub enum ActionSpec {
    Nothing,
    Watch(Seq<char>),
    Unwatch(Seq<Seq<char>>),
}

impl View for WatchAction {
    type V = ActionSpec;

    open spec fn view(&self) -> ActionSpec {
        match *self {
            WatchAction::Nothing => ActionSpec::Nothing,
            WatchAction::Watch(p) => ActionSpec::Watch(p@),
            WatchAction::Unwatch(ps) => ActionSpec::Unwatch(texts(ps@)),
        }
    }
}

/// The watcher between two ticks: what it watches, the events that came in
/// and were not handed on yet, and when the last of them came.
#[derive(Debug)]
pub struct Watcher {
    /// The quiet time, in milliseconds, after which the events are handed on.
    pub debounce_ms: u64,
    /// The watched paths, each once, in the order they were added.
    pub watched: Vec<String>,
    /// The events that came in and were not handed on yet, oldest first.
    pub pending: Vec<FsEvent>,
    /// When the last event came in, in milliseconds of a clock that never
    /// runs backwards; `None` since the last hand-over.
    pub last: Option<u64>,
}

/// The watcher as contracts see it.
pub struct WatcherSpec {
    pub debounce_ms: u64,
    pub watched: Seq<Seq<char>>,
    pub pending: Seq<EventSpec>,
    pub last: Option<u64>,
}

impl View for Watcher {
    type V = WatcherSpec;

    open spec fn view(&self) -> WatcherSpec {
        WatcherSpec {
            debounce_ms: self.debounce_ms,
            watched: texts(self.watched@),
            pending: event_specs(self.pending@),
            last: self.last,
        }
    }
}

/// The time that has passed from `then` to `now`; none where the clock
/// shows `now` before `then`.
pub open spec fn elapsed(then: u64, now: u64) -> u64 {
    if now >= then {
        (now - then) as u64
    } else {
        0
    }
}

/// Whether the quiet time has passed at `now`.
pub open spec fn is_due(w: WatcherSpec, now: u64) -> bool {
    w.last matches Some(t) && elapsed(t, now) >= w.debounce_ms
}

/// What a command asks of the subscriptions. Adding a path that is watched
/// already asks nothing; removing asks to unsubscribe from the path, watched
/// or not; clearing asks to unsubscribe from every watched path.
pub open spec fn action_for(w: WatcherSpec, c: CommandSpec) -> ActionSpec {
    match c {
        CommandSpec::Add(p) => if w.watched.contains(p) {
            ActionSpec::Nothing
        } else {
            ActionSpec::Watch(p)
        },
        CommandSpec::Remove(p) => ActionSpec::Unwatch(seq![p]),
        CommandSpec::ClearAll => ActionSpec::Unwatch(w.watched),
    }
}

/// The watched paths after a command. A path that is to be added is not
/// among them before the subscription has succeeded.
pub open spec fn watched_after(w: WatcherSpec, c: CommandSpec) -> Seq<Seq<char>> {
    match c {
        CommandSpec::Add(_) => w.watched,
        CommandSpec::Remove(p) => w.watched.filter(|q: Seq<char>| q != p),
        CommandSpec::ClearAll => Seq::empty(),
    }
}

/// The watcher after an event that came at `now`: the event waits behind
/// those that wait already, and the quiet time begins anew.
pub open spec fn after_event(w: WatcherSpec, e: EventSpec, now: u64) -> WatcherSpec {
    WatcherSpec { pending: w.pending.push(e), last: Some(now), ..w }
}

/// The batch that leaves at `now`: every waiting event, once the quiet time
/// has passed and where any waits.
pub open spec fn batch_at(w: WatcherSpec, now: u64) -> Option<Seq<EventSpec>> {
    if is_due(w, now) && w.pending.len() > 0 {
        Some(w.pending)
    } else {
        None
    }
}

/// The watcher after the hand-over at `now`: once the quiet time has passed
/// it holds no event and waits for the next one; until then it stays as it is.
pub open spec fn after_flush(w: WatcherSpec, now: u64) -> WatcherSpec {
    if is_due(w, now) {
        WatcherSpec { pending: Seq::empty(), last: None, ..w }
    } else {
        w
    }
}

/// The watcher after one tick at `now`, in which at most one command and
/// at most one event came: the command is applied, then the event is taken
/// in, then the hand-over is made.
pub open spec fn after_tick(
    w: WatcherSpec,
    command: Option<CommandSpec>,
    event: Option<EventSpec>,
    now: u64,
) -> WatcherSpec {
    after_flush(for_flush(w, command, event, now), now)
}

/// The watcher within a tick, before the hand-over.
pub open spec fn for_flush(
    w: WatcherSpec,
    command: Option<CommandSpec>,
    event: Option<EventSpec>,
    now: u64,
) -> WatcherSpec {
    let commanded = match command {
        Some(c) => WatcherSpec { watched: watched_after(w, c), ..w },
        None => w,
    };
    match event {
        Some(e) => after_event(commanded, e, now),
        None => commanded,
    }
}

/// What one tick of the watcher asks for.
#[derive(Debug)]
pub struct WatcherTick {
    /// What is to be done on the subscriptions.
    pub action: WatchAction,
    /// The batch of events to hand on, if one is due.
    pub batch: Option<Vec<FsEvent>>,
}

/// The events that an optional batch stands for.
pub open spec fn batch_specs(batch: Option<Vec<FsEvent>>) -> Option<Seq<EventSpec>> {
    match batch {
        Some(b) => Some(event_specs(b@)),
        None => None,
    }
}

/// The command that an optional command value stands for.
pub open spec fn opt_command(command: Option<WatcherCommand>) -> Option<CommandSpec> {
    match command {
        Some(c) => Some(c@),
        None => None,
    }
}

/// The event that an optional event value stands for.
pub open spec fn opt_event(event: Option<FsEvent>) -> Option<EventSpec> {
    match event {
        Some(e) => Some(e@),
        None => None,
    }
}

/// Starts the watcher: a handle with no command waiting, and a watcher that
/// watches nothing and holds no event.
pub fn start_watcher(debounce_ms: u64) -> (r: (WatcherControl, Watcher))
    ensures
        r.0.waiting() == Seq::<CommandSpec>::empty(),
        r.1@ == (WatcherSpec {
            debounce_ms,
            watched: Seq::empty(),
            pending: Seq::empty(),
            last: None,
        }),
{
    let w = Watcher { debounce_ms, watched: Vec::new(), pending: Vec::new(), last: None };
    assert(w@.watched =~= Seq::<Seq<char>>::empty());
    assert(w@.pending =~= Seq::<EventSpec>::empty());
    (WatcherControl::new(), w)
}

impl Watcher {
    /// Applies one command and says what is to be done on the subscriptions.
    pub fn command(&mut self, cmd: WatcherCommand) -> (r: WatchAction)
        ensures
            r@ == action_for(old(self)@, cmd@),
            final(self)@ == (WatcherSpec { watched: watched_after(old(self)@, cmd@), ..old(self)@ }),
    {
        match cmd {
            WatcherCommand::Add(path) => {
                if list_has(&self.watched, path.as_str()) {
                    WatchAction::Nothing
                } else {
                    WatchAction::Watch(path)
                }
            },
            WatcherCommand::Remove(path) => {
                let ghost all = texts(self.watched@);
                let ghost keep = |q: Seq<char>| q != path@;
                let mut kept: Vec<String> = Vec::new();
                let mut i: usize = 0;
                proof {
                    lemma_filter_none(all.take(0), keep);
                    assert(texts(kept@) =~= all.take(0).filter(keep));
                }
                while i < self.watched.len()
                    invariant
                        i <= self.watched.len(),
                        all == texts(self.watched@),
                        keep == (|q: Seq<char>| q != path@),
                        texts(kept@) == all.take(i as int).filter(keep),
                    decreases self.watched.len() - i,
                {
                    let ghost before = texts(kept@);
                    proof {
                        lemma_filter_step(all, keep, i as int);
                    }
                    if !str_eq(self.watched[i].as_str(), path.as_str()) {
                        kept.push(self.watched[i].clone());
                        assert(texts(kept@) =~= before.push(self.watched[i as int]@));
                    }
                    i += 1;
                }
                proof {
                    assert(all.take(self.watched.len() as int) =~= all);
                    let gone = cmd@->Remove_0;
                    assert(keep =~= (|q: Seq<char>| q != gone));
                }
                self.watched = kept;
                let mut gone: Vec<String> = Vec::new();
                gone.push(path);
                assert(texts(gone@) =~= seq![path@]);
                WatchAction::Unwatch(gone)
            },
            WatcherCommand::ClearAll => {
                let mut gone: Vec<String> = Vec::new();
                std::mem::swap(&mut gone, &mut self.watched);
                assert(texts(self.watched@) =~= Seq::<Seq<char>>::empty());
                WatchAction::Unwatch(gone)
            },
        }
    }

    /// Records how the subscription to `path` went: the path is watched
    /// from now on where it succeeded and was not watched before.
    pub fn subscribed(&mut self, path: String, ok: bool)
        ensures
            final(self)@ == (WatcherSpec {
                watched: if ok && !old(self)@.watched.contains(path@) {
                    old(self)@.watched.push(path@)
                } else {
                    old(self)@.watched
                },
                ..old(self)@
            }),
    {
        if ok && !list_has(&self.watched, path.as_str()) {
            self.watched.push(path);
            assert(texts(self.watched@) =~= old(self)@.watched.push(path@));
        }
    }

    /// Takes in an event that came at the time `now`: it waits behind those
    /// that wait already, and the quiet time begins anew.
    pub fn event(&mut self, ev: FsEvent, now: u64)
        ensures
            final(self)@ == after_event(old(self)@, ev@, now),
    {
        self.pending.push(ev);
        self.last = Some(now);
        assert(event_specs(self.pending@) =~= old(self)@.pending.push(ev@));
    }

    /// Hands on the waiting events at the time `now` if the quiet time has
    /// passed: all of them as one batch, in the order they came. Until then,
    /// and where no event waits, nothing is handed on. After the quiet time
    /// has passed the watcher holds no event and waits for the next one.
    pub fn flush(&mut self, now: u64) -> (r: Option<Vec<FsEvent>>)
        ensures
            batch_specs(r) == batch_at(old(self)@, now),
            final(self)@ == after_flush(old(self)@, now),
    {
        let t = match self.last {
            Some(t) => t,
            None => {
                return None;
            },
        };
        let waited = if now >= t {
            now - t
        } else {
            0
        };
        if waited < self.debounce_ms {
            return None;
        }
        self.last = None;
        if self.pending.len() == 0 {
            assert(event_specs(self.pending@) =~= Seq::<EventSpec>::empty());
            return None;
        }
        let mut batch: Vec<FsEvent> = Vec::new();
        std::mem::swap(&mut batch, &mut self.pending);
        assert(event_specs(self.pending@) =~= Seq::<EventSpec>::empty());
        Some(batch)
    }

    /// One tick of the watcher at the time `now`: applies the command that
    /// came, if one came, takes in the event that came, if one came, and
    /// hands on the waiting events if the quiet time has passed. The outcome
    /// of a subscription that the tick asks for is recorded afterwards with
    /// [`Watcher::subscribed`].
    pub fn tick(&mut self, command: Option<WatcherCommand>, event: Option<FsEvent>, now: u64) -> (r:
        WatcherTick)
        ensures
            r.action@ == match opt_command(command) {
                Some(c) => action_for(old(self)@, c),
                None => ActionSpec::Nothing,
            },
            batch_specs(r.batch) == batch_at(
                for_flush(old(self)@, opt_command(command), opt_event(event), now),
                now,
            ),
            final(self)@ == after_tick(old(self)@, opt_command(command), opt_event(event), now),
    {
        let action = match command {
            Some(c) => self.command(c),
            None => WatchAction::Nothing,
        };
        match event {
            Some(e) => {
                self.event(e, now);
            },
            None => {},
        }
        let batch = self.flush(now);
        WatcherTick { action, batch }
    }
}

/// Events that come in quick succession leave together: an event that came
/// less than the quiet time ago holds back every waiting event.
pub proof fn lemma_burst_is_held_back(w: WatcherSpec, last: u64, now: u64)
    requires
        w.last == Some(last),
        last <= now,
        now - last < w.debounce_ms,
    ensures
        batch_at(w, now) is None,
        after_flush(w, now) == w,
{
}

/// A batch holds every event that waited, in the order they came, and
/// leaves none behind: no event is lost and none leaves twice.
pub proof fn lemma_batch_takes_everything(w: WatcherSpec, now: u64)
    requires
        batch_at(w, now) is Some,
    ensures
        batch_at(w, now) == Some(w.pending),
        after_flush(w, now).pending == Seq::<EventSpec>::empty(),
        batch_at(after_flush(w, now), now) is None,
{
}

/// An event that comes in a tick leaves with that tick only where no quiet
/// time is asked for.
pub proof fn lemma_event_waits_out_the_quiet_time(
    w: WatcherSpec,
    command: Option<CommandSpec>,
    e: EventSpec,
    now: u64,
)
    requires
        w.debounce_ms > 0,
    ensures
        batch_at(for_flush(w, command, Some(e), now), now) is None,
        after_tick(w, command, Some(e), now).pending == w.pending.push(e),
{
}

} // verus!
