//! Following devices as they come and go: the set of present devices is
//! compared from one tick to the next.

use crate::config::{DeviceConfig, DeviceSpec};
use crate::utils::text::{
    lemma_filter_keeps_distinct, lemma_filter_member, lemma_filter_none, lemma_filter_push,
    lemma_filter_step, list_has, texts,
};
use vstd::prelude::*;

verus! {

/// What a tick found out about one device.
#[derive(Debug)]
pub enum DetectEvent {
    /// The device with this name is present now and was not at the last tick.
    Mounted(String),
    /// The device with this name was present at the last tick and is not now.
    Unmounted(String),
}

/// An event as contracts see it.
pub enum DetectEventSpec {
    Mounted(Seq<char>),
    Unmounted(Seq<char>),
}

impl View for DetectEvent {
    type V = DetectEventSpec;

    open spec fn view(&self) -> DetectEventSpec {
        match *self {
            DetectEvent::Mounted(n) => DetectEventSpec::Mounted(n@),
            DetectEvent::Unmounted(n) => DetectEventSpec::Unmounted(n@),
        }
    }
}

/// The events that a sequence of event values stands for.
pub open spec fn detect_specs(events: Seq<DetectEvent>) -> Seq<DetectEventSpec> {
    events.map_values(|e: DetectEvent| e@)
}

/// The names of a list, each once, in the order of their first occurrence.
pub open spec fn distinct(names: Seq<Seq<char>>) -> Seq<Seq<char>>
    decreases names.len(),
{
    if names.len() == 0 {
        Seq::empty()
    } else if distinct(names.drop_last()).contains(names.last()) {
        distinct(names.drop_last())
    } else {
        distinct(names.drop_last()).push(names.last())
    }
}

/// The names that are present now and were not before, each once.
pub open spec fn appeared(previous: Seq<Seq<char>>, detected: Seq<Seq<char>>) -> Seq<Seq<char>> {
    distinct(detected).filter(|n: Seq<char>| !previous.contains(n))
}

/// The names that were present before and are not now.
pub open spec fn vanished(previous: Seq<Seq<char>>, detected: Seq<Seq<char>>) -> Seq<Seq<char>> {
    previous.filter(|n: Seq<char>| !detected.contains(n))
}

/// What a tick reports: a mount for every name that appeared, then an
/// unmount for every name that vanished.
pub open spec fn tick_events(previous: Seq<Seq<char>>, detected: Seq<Seq<char>>) -> Seq<
    DetectEventSpec,
> {
    appeared(previous, detected).map_values(|n: Seq<char>| DetectEventSpec::Mounted(n))
        + vanished(previous, detected).map_values(|n: Seq<char>| DetectEventSpec::Unmounted(n))
}

/// The names of the devices that were found present.
pub fn device_names(found: &Vec<(DeviceConfig, String)>) -> (r: Vec<String>)
    ensures
        texts(r@) == found@.map_values(|m: (DeviceConfig, String)| m.0@.name),
{
    let mut out: Vec<String> = Vec::new();
    let mut i: usize = 0;
    while i < found.len()
        invariant
            i <= found.len(),
            out.len() == i,
            forall|k: int| 0 <= k < i ==> out[k]@ == found[k].0@.name,
        decreases found.len() - i,
    {
        out.push(found[i].0.name.clone());
        i += 1;
    }
    assert(texts(out@) =~= found@.map_values(|m: (DeviceConfig, String)| m.0@.name));
    out
}

/// The memory of the detection loop: the names of the devices that were
/// present at the last tick. It starts out empty, so that every device
/// present at the first tick is reported as mounted.
#[derive(Debug)]
pub struct DetectLoop {
    /// The names present at the last tick, each once.
    pub previous: Vec<String>,
}

impl DetectLoop {
    /// A loop that has seen no device yet.
    pub fn new() -> (r: Self)
        ensures
            texts(r.previous@) == Seq::<Seq<char>>::empty(),
    {
        let r = DetectLoop { previous: Vec::new() };
        assert(texts(r.previous@) =~= Seq::<Seq<char>>::empty());
        r
    }

    /// One tick: compares the names `detected` now with those of the last
    /// tick, reports what changed and remembers the names for the next tick.
    /// A name that stays is not reported.
    pub fn tick(&mut self, detected: &Vec<String>) -> (r: Vec<DetectEvent>)
        ensures
            detect_specs(r@) == tick_events(texts(old(self).previous@), texts(detected@)),
            texts(final(self).previous@) == distinct(texts(detected@)),
    {
        let ghost prev = texts(self.previous@);
        let ghost det = texts(detected@);
        let ghost fresh = |n: Seq<char>| !prev.contains(n);
        let ghost mounted = |n: Seq<char>| DetectEventSpec::Mounted(n);
        let mut events: Vec<DetectEvent> = Vec::new();
        let mut next: Vec<String> = Vec::new();
        let mut i: usize = 0;
        proof {
            assert(det.take(0) =~= Seq::<Seq<char>>::empty());
            assert(texts(next@) =~= distinct(det.take(0)));
            lemma_filter_none(distinct(det.take(0)), fresh);
            assert(detect_specs(events@) =~= distinct(det.take(0)).filter(fresh).map_values(mounted));
        }
        while i < detected.len()
            invariant
                i <= detected.len(),
                prev == texts(self.previous@),
                det == texts(detected@),
                fresh == (|n: Seq<char>| !prev.contains(n)),
                mounted == (|n: Seq<char>| DetectEventSpec::Mounted(n)),
                texts(next@) == distinct(det.take(i as int)),
                detect_specs(events@) == distinct(det.take(i as int)).filter(fresh).map_values(
                    mounted,
                ),
            decreases detected.len() - i,
        {
            let name = &detected[i];
            let ghost seen = texts(next@);
            let ghost told = detect_specs(events@);
            proof {
                assert(det.take(i + 1).drop_last() =~= det.take(i as int));
                assert(det.take(i + 1).last() == name@);
                lemma_filter_push(seen, fresh, name@);
            }
            if !list_has(&next, name.as_str()) {
                next.push(name.clone());
                assert(texts(next@) =~= seen.push(name@));
                if !list_has(&self.previous, name.as_str()) {
                    events.push(DetectEvent::Mounted(name.clone()));
                    proof {
                        assert(detect_specs(events@) =~= told.push(mounted(name@)));
                        assert(seen.filter(fresh).push(name@).map_values(mounted) =~= told.push(
                            mounted(name@),
                        ));
                    }
                }
            }
            i += 1;
        }
        assert(det.take(detected.len() as int) =~= det);
        let ghost first = detect_specs(events@);
        let ghost gone = |n: Seq<char>| !det.contains(n);
        let ghost unmounted = |n: Seq<char>| DetectEventSpec::Unmounted(n);
        let mut j: usize = 0;
        proof {
            lemma_filter_none(prev.take(0), gone);
            assert(detect_specs(events@) =~= first + prev.take(0).filter(gone).map_values(
                unmounted,
            ));
        }
        while j < self.previous.len()
            invariant
                j <= self.previous.len(),
                prev == texts(self.previous@),
                det == texts(detected@),
                gone == (|n: Seq<char>| !det.contains(n)),
                unmounted == (|n: Seq<char>| DetectEventSpec::Unmounted(n)),
                detect_specs(events@) == first + prev.take(j as int).filter(gone).map_values(
                    unmounted,
                ),
            decreases self.previous.len() - j,
        {
            let name = &self.previous[j];
            let ghost told = detect_specs(events@);
            proof {
                lemma_filter_step(prev, gone, j as int);
            }
            if !list_has(detected, name.as_str()) {
                events.push(DetectEvent::Unmounted(name.clone()));
                proof {
                    assert(detect_specs(events@) =~= told.push(unmounted(name@)));
                    assert(first + prev.take(j as int).filter(gone).push(name@).map_values(
                        unmounted,
                    ) =~= told.push(unmounted(name@)));
                }
            }
            j += 1;
        }
        assert(prev.take(self.previous.len() as int) =~= prev);
        self.previous = next;
        events
    }
}

/// The names of a list, each once, are the names of the list.
pub proof fn lemma_distinct_member(names: Seq<Seq<char>>, n: Seq<char>)
    ensures
        distinct(names).contains(n) <==> names.contains(n),
    decreases names.len(),
{
    if names.len() > 0 {
        let front = names.drop_last();
        let d = distinct(front);
        lemma_distinct_member(front, n);
        if names.contains(n) {
            let k = choose|k: int| 0 <= k < names.len() && names[k] == n;
            if k < front.len() {
                assert(front[k] == n);
                assert(front.contains(n));
                let m = choose|m: int| 0 <= m < d.len() && d[m] == n;
                assert(distinct(names)[m] == n);
            } else if !d.contains(names.last()) {
                assert(distinct(names)[d.len() as int] == n);
            }
        }
        if distinct(names).contains(n) {
            let m = choose|m: int| 0 <= m < distinct(names).len() && distinct(names)[m] == n;
            if m < d.len() {
                assert(d[m] == n);
                assert(d.contains(n));
                let k = choose|k: int| 0 <= k < front.len() && front[k] == n;
                assert(names[k] == n);
            } else {
                assert(names[names.len() - 1] == n);
            }
        }
    }
}

/// The names of a list, each once: no name is repeated.
pub proof fn lemma_distinct(names: Seq<Seq<char>>)
    ensures
        distinct(names).no_duplicates(),
    decreases names.len(),
{
    if names.len() > 0 {
        let front = names.drop_last();
        let d = distinct(front);
        lemma_distinct(front);
        if !d.contains(names.last()) {
            assert forall|i: int, j: int|
                0 <= i < d.push(names.last()).len() && 0 <= j < d.push(names.last()).len() && i
                    != j implies d.push(names.last())[i] != d.push(names.last())[j] by {
                if i < d.len() && j < d.len() {
                } else if i < d.len() {
                    assert(d.contains(d[i]));
                } else {
                    assert(d.contains(d[j]));
                }
            }
        }
    }
}

/// A device that is present at a tick and was not at the tick before is
/// reported as mounted exactly once.
pub proof fn lemma_mount_is_reported_once(
    previous: Seq<Seq<char>>,
    detected: Seq<Seq<char>>,
    name: Seq<char>,
)
    requires
        detected.contains(name),
        !previous.contains(name),
    ensures
        exists|i: int|
            0 <= i < tick_events(previous, detected).len() && #[trigger] tick_events(
                previous,
                detected,
            )[i] == DetectEventSpec::Mounted(name) && forall|j: int|
                0 <= j < tick_events(previous, detected).len() && #[trigger] tick_events(
                    previous,
                    detected,
                )[j] == DetectEventSpec::Mounted(name) ==> j == i,
{
    let fresh = |n: Seq<char>| !previous.contains(n);
    let up = appeared(previous, detected);
    let ev = tick_events(previous, detected);
    lemma_distinct(detected);
    lemma_distinct_member(detected, name);
    lemma_filter_member(distinct(detected), fresh, name);
    lemma_filter_keeps_distinct(distinct(detected), fresh);
    let i = choose|i: int| 0 <= i < up.len() && up[i] == name;
    assert(ev[i] == DetectEventSpec::Mounted(name));
    assert forall|j: int| 0 <= j < ev.len() && #[trigger] ev[j] == DetectEventSpec::Mounted(
        name,
    ) implies j == i by {
        if j < up.len() {
            assert(up[j] == name);
        }
    }
}

/// A device that stays present, or stays absent, is not reported.
pub proof fn lemma_steady_device_is_not_reported(
    previous: Seq<Seq<char>>,
    detected: Seq<Seq<char>>,
    name: Seq<char>,
)
    requires
        detected.contains(name) == previous.contains(name),
    ensures
        !tick_events(previous, detected).contains(DetectEventSpec::Mounted(name)),
        !tick_events(previous, detected).contains(DetectEventSpec::Unmounted(name)),
{
    let fresh = |n: Seq<char>| !previous.contains(n);
    let gone = |n: Seq<char>| !detected.contains(n);
    let up = appeared(previous, detected);
    let down = vanished(previous, detected);
    let ev = tick_events(previous, detected);
    lemma_distinct_member(detected, name);
    lemma_filter_member(distinct(detected), fresh, name);
    lemma_filter_member(previous, gone, name);
    if ev.contains(DetectEventSpec::Mounted(name)) {
        let i = choose|i: int| 0 <= i < ev.len() && ev[i] == DetectEventSpec::Mounted(name);
        if i < up.len() {
            assert(up[i] == name);
            assert(up.contains(name));
        }
    }
    if ev.contains(DetectEventSpec::Unmounted(name)) {
        let i = choose|i: int| 0 <= i < ev.len() && ev[i] == DetectEventSpec::Unmounted(name);
        if i >= up.len() {
            assert(down[i - up.len()] == name);
            assert(down.contains(name));
        }
    }
}

} // verus!
