//! Which of the configured devices are present: read off the mount table
//! and off the paths that exist.

use crate::config::{device_specs, DeviceConfig, DeviceSpec};
use crate::context::{EnvSpec, ExecutionContext};
use crate::utils::paths::expanded_path;
use crate::utils::text::{
    chars_of, lemma_filter_none, lemma_filter_step, list_has, text_of, texts,
};
use vstd::prelude::*;
use vstd::string::*;

verus! {

/// Which field of a line of the mount table holds the mount point, counted
/// from zero.
pub const MOUNT_POINT_FIELD: usize = 4;

/// Whether a character separates fields: the white space of Unicode.
pub open spec fn is_space(c: char) -> bool {
    let u = c as u32;
    (0x09 <= u <= 0x0d) || u == 0x20 || u == 0x85 || u == 0xa0 || u == 0x1680 || (0x2000 <= u
        <= 0x200a) || u == 0x2028 || u == 0x2029 || u == 0x202f || u == 0x205f || u == 0x3000
}

/// Where the line that begins at `from` ends: at the next line feed, or at
/// the end of the text.
pub open spec fn line_end(text: Seq<char>, from: int) -> int
    decreases text.len() - from,
{
    if from >= text.len() {
        text.len() as int
    } else if text[from] == '\n' {
        from
    } else {
        line_end(text, from + 1)
    }
}

/// The first place from `from` on, before `to`, that holds no white space;
/// `to` where there is none.
pub open spec fn field_start(text: Seq<char>, from: int, to: int) -> int
    decreases to - from,
{
    if from >= to {
        to
    } else if !is_space(text[from]) {
        from
    } else {
        field_start(text, from + 1, to)
    }
}

/// The first place from `from` on, before `to`, that holds white space;
/// `to` where there is none.
pub open spec fn field_end(text: Seq<char>, from: int, to: int) -> int
    decreases to - from,
{
    if from >= to {
        to
    } else if is_space(text[from]) {
        from
    } else {
        field_end(text, from + 1, to)
    }
}

/// Where the field with the number `n`, counted from zero, lies in the part
/// of the text from `from` to `to`: fields are the stretches without white
/// space. `None` where the part has no such field.
pub open spec fn nth_field(text: Seq<char>, from: int, to: int, n: nat) -> Option<(int, int)>
    decreases n,
{
    let a = field_start(text, from, to);
    if a >= to {
        None
    } else if n == 0 {
        Some((a, field_end(text, a, to)))
    } else {
        nth_field(text, field_end(text, a, to), to, (n - 1) as nat)
    }
}

/// The mount points that the lines from `from` on name: of each line that
/// has one, the field with the number [`MOUNT_POINT_FIELD`].
pub open spec fn mount_points_from(text: Seq<char>, from: int) -> Seq<Seq<char>>
    decreases text.len() + 1 - from,
    via mount_points_from_ends
{
    if from >= text.len() || from < 0 {
        Seq::empty()
    } else {
        let end = line_end(text, from);
        let here = match nth_field(text, from, end, MOUNT_POINT_FIELD as nat) {
            Some((a, b)) => seq![text.subrange(a, b)],
            None => Seq::empty(),
        };
        here + mount_points_from(text, end + 1)
    }
}

#[via_fn]
proof fn mount_points_from_ends(text: Seq<char>, from: int) {
    if 0 <= from < text.len() {
        lemma_line_end_bounds(text, from);
    }
}

/// The mount points that a mount table names, line by line.
pub open spec fn mount_points(text: Seq<char>) -> Seq<Seq<char>> {
    mount_points_from(text, 0)
}

fn is_space_char(c: char) -> (r: bool)
    ensures
        r == is_space(c),
{
    let u = c as u32;
    (0x09 <= u && u <= 0x0d) || u == 0x20 || u == 0x85 || u == 0xa0 || u == 0x1680 || (0x2000 <= u
        && u <= 0x200a) || u == 0x2028 || u == 0x2029 || u == 0x202f || u == 0x205f || u
        == 0x3000
}

pub proof fn lemma_line_end_bounds(text: Seq<char>, from: int)
    requires
        0 <= from <= text.len(),
    ensures
        from <= line_end(text, from) <= text.len(),
    decreases text.len() - from,
{
    if from < text.len() && text[from] != '\n' {
        lemma_line_end_bounds(text, from + 1);
    }
}

fn find_line_end(cs: &Vec<char>, from: usize) -> (r: usize)
    requires
        from <= cs.len(),
    ensures
        r == line_end(cs@, from as int),
        from <= r <= cs.len(),
{
    let mut i: usize = from;
    while i < cs.len() && cs[i] != '\n'
        invariant
            from <= i <= cs.len(),
            line_end(cs@, from as int) == line_end(cs@, i as int),
        decreases cs.len() - i,
    {
        i += 1;
    }
    i
}

fn find_field_start(cs: &Vec<char>, from: usize, to: usize) -> (r: usize)
    requires
        from <= to <= cs.len(),
    ensures
        r == field_start(cs@, from as int, to as int),
        from <= r <= to,
{
    let mut i: usize = from;
    while i < to && is_space_char(cs[i])
        invariant
            from <= i <= to <= cs.len(),
            field_start(cs@, from as int, to as int) == field_start(cs@, i as int, to as int),
        decreases to - i,
    {
        i += 1;
    }
    i
}

fn find_field_end(cs: &Vec<char>, from: usize, to: usize) -> (r: usize)
    requires
        from <= to <= cs.len(),
    ensures
        r == field_end(cs@, from as int, to as int),
        from <= r <= to,
{
    let mut i: usize = from;
    while i < to && !is_space_char(cs[i])
        invariant
            from <= i <= to <= cs.len(),
            field_end(cs@, from as int, to as int) == field_end(cs@, i as int, to as int),
        decreases to - i,
    {
        i += 1;
    }
    i
}

fn find_field(cs: &Vec<char>, from: usize, to: usize, n: usize) -> (r: Option<(usize, usize)>)
    requires
        from <= to <= cs.len(),
    ensures
        match r {
            Some((a, b)) => nth_field(cs@, from as int, to as int, n as nat) == Some(
                (a as int, b as int),
            ) && from <= a <= b <= to,
            None => nth_field(cs@, from as int, to as int, n as nat) is None,
        },
{
    let mut pos: usize = from;
    let mut left: usize = n;
    loop
        invariant
            from <= pos <= to <= cs.len(),
            left <= n,
            nth_field(cs@, from as int, to as int, n as nat) == nth_field(
                cs@,
                pos as int,
                to as int,
                left as nat,
            ),
        decreases left,
    {
        let a = find_field_start(cs, pos, to);
        if a >= to {
            return None;
        }
        let b = find_field_end(cs, a, to);
        if left == 0 {
            return Some((a, b));
        }
        pos = b;
        left = left - 1;
    }
}

/// Reads the mount points off a mount table: of every line its fifth field,
/// fields being separated by white space. Lines with fewer fields name no
/// mount point.
pub fn read_mounts(table: &str) -> (r: Vec<String>)
    ensures
        texts(r@) == mount_points(table@),
{
    let cs = chars_of(table);
    let mut out: Vec<String> = Vec::new();
    let mut pos: usize = 0;
    assert(texts(out@) + mount_points_from(cs@, 0) =~= mount_points(table@));
    while pos < cs.len()
        invariant
            pos <= cs.len(),
            cs@ == table@,
            texts(out@) + mount_points_from(cs@, pos as int) == mount_points(table@),
        decreases cs.len() - pos,
    {
        let ghost before = texts(out@);
        let end = find_line_end(&cs, pos);
        match find_field(&cs, pos, end, MOUNT_POINT_FIELD) {
            Some((a, b)) => {
                let field = table.substring_char(a, b);
                out.push(text_of(field));
                proof {
                    assert(texts(out@) =~= before.push(cs@.subrange(a as int, b as int)));
                    assert(before + (seq![cs@.subrange(a as int, b as int)] + mount_points_from(
                        cs@,
                        end + 1,
                    )) =~= texts(out@) + mount_points_from(cs@, end + 1));
                }
            },
            None => {
                assert(before + (Seq::<Seq<char>>::empty() + mount_points_from(cs@, end + 1))
                    =~= texts(out@) + mount_points_from(cs@, end + 1));
            },
        }
        if end < cs.len() {
            pos = end + 1;
        } else {
            pos = end;
        }
    }
    assert(texts(out@) + Seq::<Seq<char>>::empty() =~= texts(out@));
    out
}

/// What was found on the machine at one moment: the mount points that the
/// mount table names, and those of the paths asked about that exist.
#[derive(Debug)]
pub struct MountProbe {
    /// The mount points of the mount table.
    pub mounts: Vec<String>,
    /// The paths, among those asked about, that exist.
    pub existing: Vec<String>,
}

/// A probe as contracts see it.
pub struct ProbeSpec {
    pub mounts: Seq<Seq<char>>,
    pub existing: Seq<Seq<char>>,
}

impl View for MountProbe {
    type V = ProbeSpec;

    open spec fn view(&self) -> ProbeSpec {
        ProbeSpec { mounts: texts(self.mounts@), existing: texts(self.existing@) }
    }
}

/// The mount path that is expected of a device: its pattern resolved.
pub open spec fn expected_mount(env: EnvSpec, dev: DeviceSpec) -> Seq<char> {
    expanded_path(env, dev.mount, dev.name)
}

/// Whether a device is present. One that must show in the mount table is
/// present exactly when the table names its expected mount path; any other
/// is present exactly when that path exists.
pub open spec fn is_present(env: EnvSpec, probe: ProbeSpec, dev: DeviceSpec) -> bool {
    if dev.mountinfo {
        probe.mounts.contains(expected_mount(env, dev))
    } else {
        probe.existing.contains(expected_mount(env, dev))
    }
}

/// The devices that are present, each with its mount path, in the order of
/// the configuration.
pub open spec fn present_devices(env: EnvSpec, probe: ProbeSpec, devices: Seq<DeviceSpec>) -> Seq<
    (DeviceSpec, Seq<char>),
> {
    devices.filter(|d: DeviceSpec| is_present(env, probe, d)).map_values(
        |d: DeviceSpec| (d, expected_mount(env, d)),
    )
}

/// The pairs that a sequence of devices with their mount paths stands for.
pub open spec fn mounted_specs(found: Seq<(DeviceConfig, String)>) -> Seq<(DeviceSpec, Seq<char>)> {
    found.map_values(|m: (DeviceConfig, String)| (m.0@, m.1@))
}

/// The paths whose existence decides whether a device is present: the
/// expected mount paths of the devices that need not show in the mount table.
pub open spec fn candidates(env: EnvSpec, devices: Seq<DeviceSpec>) -> Seq<Seq<char>> {
    devices.filter(|d: DeviceSpec| !d.mountinfo).map_values(|d: DeviceSpec| expected_mount(env, d))
}

/// The paths to ask the file system about before detecting devices.
pub fn mount_candidates(ctx: &ExecutionContext) -> (r: Vec<String>)
    ensures
        texts(r@) == candidates(ctx.expander.ctx@, device_specs(ctx.config.devices@)),
{
    let ghost env = ctx.expander.ctx@;
    let ghost all = device_specs(ctx.config.devices@);
    let ghost keep = |d: DeviceSpec| !d.mountinfo;
    let ghost make = |d: DeviceSpec| expected_mount(env, d);
    let mut out: Vec<String> = Vec::new();
    let mut i: usize = 0;
    proof {
        lemma_filter_none(all.take(0), keep);
        assert(texts(out@) =~= all.take(0).filter(keep).map_values(make));
    }
    while i < ctx.config.devices.len()
        invariant
            i <= ctx.config.devices.len(),
            env == ctx.expander.ctx@,
            all == device_specs(ctx.config.devices@),
            keep == (|d: DeviceSpec| !d.mountinfo),
            make == (|d: DeviceSpec| expected_mount(env, d)),
            texts(out@) == all.take(i as int).filter(keep).map_values(make),
        decreases ctx.config.devices.len() - i,
    {
        let dev = &ctx.config.devices[i];
        let ghost before = texts(out@);
        proof {
            lemma_filter_step(all, keep, i as int);
        }
        if !dev.mountinfo {
            out.push(ctx.expand_mount(dev));
            proof {
                assert(texts(out@) =~= before.push(make(dev@)));
                assert(all.take(i as int).filter(keep).push(dev@).map_values(make) =~= before.push(
                    make(dev@),
                ));
            }
        }
        i += 1;
    }
    assert(all.take(ctx.config.devices.len() as int) =~= all);
    out
}

/// The configured devices that are present according to `probe`, each with
/// its mount path.
pub fn detect_all_devices(ctx: &ExecutionContext, probe: &MountProbe) -> (r: Vec<
    (DeviceConfig, String),
>)
    ensures
        mounted_specs(r@) == present_devices(
            ctx.expander.ctx@,
            probe@,
            device_specs(ctx.config.devices@),
        ),
{
    let ghost env = ctx.expander.ctx@;
    let ghost all = device_specs(ctx.config.devices@);
    let ghost keep = |d: DeviceSpec| is_present(env, probe@, d);
    let ghost make = |d: DeviceSpec| (d, expected_mount(env, d));
    let mut out: Vec<(DeviceConfig, String)> = Vec::new();
    let mut i: usize = 0;
    proof {
        lemma_filter_none(all.take(0), keep);
        assert(mounted_specs(out@) =~= all.take(0).filter(keep).map_values(make));
    }
    while i < ctx.config.devices.len()
        invariant
            i <= ctx.config.devices.len(),
            env == ctx.expander.ctx@,
            all == device_specs(ctx.config.devices@),
            keep == (|d: DeviceSpec| is_present(env, probe@, d)),
            make == (|d: DeviceSpec| (d, expected_mount(env, d))),
            mounted_specs(out@) == all.take(i as int).filter(keep).map_values(make),
        decreases ctx.config.devices.len() - i,
    {
        let dev = &ctx.config.devices[i];
        let ghost before = mounted_specs(out@);
        proof {
            lemma_filter_step(all, keep, i as int);
        }
        let expected = ctx.expand_mount(dev);
        let present = if dev.mountinfo {
            list_has(&probe.mounts, expected.as_str())
        } else {
            list_has(&probe.existing, expected.as_str())
        };
        if present {
            out.push((dev.clone(), expected));
            proof {
                assert(mounted_specs(out@) =~= before.push(make(dev@)));
                assert(all.take(i as int).filter(keep).push(dev@).map_values(make) =~= before.push(
                    make(dev@),
                ));
            }
        }
        i += 1;
    }
    assert(all.take(ctx.config.devices.len() as int) =~= all);
    out
}

} // verus!
