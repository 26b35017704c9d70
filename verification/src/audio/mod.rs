//! Audio: which timestamps to trust, when a running source has to start over,
//! and which streams the configured sources turn into.
//!
//! Enumerating devices, sessions and processes is the platform's business;
//! what to record from them is decided here.
pub mod capture;
pub mod engine;
pub mod report;
pub mod ring;

use std::collections::HashMap;
use vstd::prelude::*;
use crate::model::{AudioSource, ProcessMode, SourceKind};
use crate::text::{ascii_lower, to_ascii_lower, same_text};
use vstd::std_specs::iter::IteratorSpec;

verus! {

broadcast use vstd::std_specs::hash::group_hash_axioms;

/// Which process is whose child, and which executable it runs: pid to
/// (parent pid, exe name).
pub open spec fn entry(tree: Map<u32, (u32, String)>, pid: u32) -> Option<(u32, String)> {
    if tree.dom().contains(pid) {
        Some(tree[pid])
    } else {
        None
    }
}

fn lookup(tree: &HashMap<u32, (u32, String)>, pid: u32) -> (r: Option<&(u32, String)>)
    ensures
        match r {
            Some(e) => entry(tree@, pid) == Some(*e),
            None => entry(tree@, pid) is None,
        },
{
    tree.get(&pid)
}

/// Two executable names, equal but for the case of ASCII letters.
pub open spec fn same_exe(a: Seq<char>, b: Seq<char>) -> bool {
    ascii_lower(a) == ascii_lower(b)
}

fn exe_eq(a: &str, b: &str) -> (r: bool)
    ensures
        r == same_exe(a@, b@),
{
    let x = to_ascii_lower(a);
    let y = to_ascii_lower(b);
    same_text(x.as_str(), y.as_str())
}

/// The ancestors of `current` not yet in `acc`, closest first, up to `fuel` of
/// them; the walk ends at pid 0, at an unknown process, or where it would go
/// round in a circle.
pub open spec fn ancestors_from(tree: Map<u32, (u32, String)>, current: u32, acc: Seq<u32>, fuel: nat) -> Seq<
    u32,
>
    decreases fuel,
{
    if fuel == 0 {
        acc
    } else {
        match entry(tree, current) {
            None => acc,
            Some((parent, _)) => if parent == 0 || acc.contains(parent) {
                acc
            } else {
                ancestors_from(tree, parent, acc.push(parent), (fuel - 1) as nat)
            },
        }
    }
}

/// A process's ancestors, closest first, `pid` itself not included. The
/// depth cap only defends against a corrupt snapshot with a cycle.
pub open spec fn ancestors_spec(tree: Map<u32, (u32, String)>, pid: u32) -> Seq<u32> {
    ancestors_from(tree, pid, Seq::empty(), 32)
}

proof fn lemma_ancestors_len(tree: Map<u32, (u32, String)>, current: u32, acc: Seq<u32>, fuel: nat)
    ensures
        ancestors_from(tree, current, acc, fuel).len() <= acc.len() + fuel,
    decreases fuel,
{
    if fuel > 0 {
        if let Some((parent, _)) = entry(tree, current) {
            if !(parent == 0 || acc.contains(parent)) {
                lemma_ancestors_len(tree, parent, acc.push(parent), (fuel - 1) as nat);
            }
        }
    }
}

fn contains_pid(list: &Vec<u32>, pid: u32) -> (r: bool)
    ensures
        r == list@.contains(pid),
{
    let mut i: usize = 0;
    while i < list.len()
        invariant
            i <= list@.len(),
            forall|j: int| 0 <= j < i ==> list@[j] != pid,
        decreases list@.len() - i,
    {
        if list[i] == pid {
            assert(list@[i as int] == pid);
            return true;
        }
        i = i + 1;
    }
    false
}

pub fn ancestors(pid: u32, tree: &HashMap<u32, (u32, String)>) -> (out: Vec<u32>)
    ensures
        out@ == ancestors_spec(tree@, pid),
        out@.len() <= 32,
{
    let mut out: Vec<u32> = Vec::new();
    let mut current = pid;
    let mut fuel: usize = 32;
    let mut done = false;
    while fuel > 0 && !done
        invariant
            fuel <= 32,
            ancestors_from(tree@, current, out@, fuel as nat) == ancestors_spec(tree@, pid),
            out@.len() <= 32 - fuel,
            done ==> ancestors_from(tree@, current, out@, fuel as nat) == out@,
        decreases fuel, if done { 0int } else { 1int },
    {
        match lookup(tree, current) {
            Some(e) => {
                let parent = e.0;
                if parent == 0 || contains_pid(&out, parent) {
                    done = true;
                } else {
                    out.push(parent);
                    current = parent;
                    fuel = fuel - 1;
                }
            },
            None => {
                done = true;
            },
        }
    }
    proof {
        lemma_ancestors_len(tree@, current, out@, fuel as nat);
    }
    out
}

/// Upwards while the parent runs the same executable, up to `fuel` steps.
pub open spec fn root_from(tree: Map<u32, (u32, String)>, current: u32, fuel: nat) -> u32
    decreases fuel,
{
    if fuel == 0 {
        current
    } else {
        match entry(tree, current) {
            None => current,
            Some((parent, exe)) => match entry(tree, parent) {
                Some((_, parent_exe)) => if same_exe(parent_exe@, exe@) {
                    root_from(tree, parent, (fuel - 1) as nat)
                } else {
                    current
                },
                None => current,
            },
        }
    }
}

/// The top process of the application `pid` belongs to: one application's
/// audio sessions may live in several children of one process, and only
/// their common parent covers all of them in a single tap. Stopping at a
/// differently named parent keeps the walk from climbing out into the shell.
pub open spec fn app_root_spec(tree: Map<u32, (u32, String)>, pid: u32) -> u32 {
    root_from(tree, pid, 32)
}

pub fn app_root(pid: u32, tree: &HashMap<u32, (u32, String)>) -> (root: u32)
    ensures
        root == app_root_spec(tree@, pid),
{
    let mut current = pid;
    let mut fuel: usize = 32;
    let mut done = false;
    while fuel > 0 && !done
        invariant
            fuel <= 32,
            root_from(tree@, current, fuel as nat) == app_root_spec(tree@, pid),
            done ==> root_from(tree@, current, fuel as nat) == current,
        decreases fuel, if done { 0int } else { 1int },
    {
        match lookup(tree, current) {
            Some(e) => {
                let parent = e.0;
                match lookup(tree, parent) {
                    Some(p) => {
                        if exe_eq(p.1.as_str(), e.1.as_str()) {
                            current = parent;
                            fuel = fuel - 1;
                        } else {
                            done = true;
                        }
                    },
                    None => {
                        done = true;
                    },
                }
            },
            None => {
                done = true;
            },
        }
    }
    current
}

} // verus!

verus! {

/// `p` is a running process of this executable, and no older one is.
pub open spec fn is_oldest(tree: Map<u32, (u32, String)>, exe: Seq<char>, p: u32) -> bool {
    &&& tree.dom().contains(p)
    &&& same_exe(tree[p].1@, exe)
    &&& forall|q: u32| #[trigger] tree.dom().contains(q) && same_exe(tree[q].1@, exe) ==> p <= q
}

/// The oldest running process of this executable: the lowest pid.
pub open spec fn oldest(tree: Map<u32, (u32, String)>, exe: Seq<char>) -> Option<u32> {
    if exists|p: u32| is_oldest(tree, exe, p) {
        Some(choose|p: u32| is_oldest(tree, exe, p))
    } else {
        None
    }
}

/// The processes holding an audio session, as the session list reports
/// them: pid 0 (the system's own sounds) left out, and each pid once, in the
/// order first seen.
pub open spec fn playing_spec(reported: Seq<u32>) -> Seq<u32>
    decreases reported.len(),
{
    if reported.len() == 0 {
        Seq::empty()
    } else {
        let earlier = playing_spec(reported.drop_last());
        let pid = reported.last();
        if pid == 0 || earlier.contains(pid) {
            earlier
        } else {
            earlier.push(pid)
        }
    }
}

fn holds(list: &Vec<u32>, pid: u32) -> (b: bool)
    ensures
        b == list@.contains(pid),
{
    let mut i: usize = 0;
    while i < list.len()
        invariant
            i <= list@.len(),
            forall|j: int| 0 <= j < i ==> list@[j] != pid,
        decreases list@.len() - i,
    {
        if list[i] == pid {
            return true;
        }
        i = i + 1;
    }
    false
}

pub fn playing_pids(reported: &[u32]) -> (out: Vec<u32>)
    ensures
        out@ == playing_spec(reported@),
{
    let mut out: Vec<u32> = Vec::new();
    let mut i: usize = 0;
    while i < reported.len()
        invariant
            i <= reported@.len(),
            out@ == playing_spec(reported@.take(i as int)),
        decreases reported@.len() - i,
    {
        assert(reported@.take(i as int + 1).drop_last() =~= reported@.take(i as int));
        let pid = reported[i];
        if pid != 0 && !holds(&out, pid) {
            out.push(pid);
        }
        i = i + 1;
    }
    assert(reported@.take(i as int) =~= reported@);
    out
}

/// Is `pid` playing on one of the output devices?
pub open spec fn plays_somewhere(devices: Seq<(crate::model::DeviceKind, Vec<u32>)>, pid: u32) -> bool {
    exists|d: int|
        0 <= d < devices.len() && devices[d].0 == crate::model::DeviceKind::Output && (#[trigger] devices[d].1@).contains(
            pid,
        )
}

/// Everything playing on any output device, each pid once, in ascending
/// order. All output devices count, not only the default one: on a machine
/// with a hardware mixer the applications are spread over its virtual
/// devices. `devices` holds each device's kind and the pids of its sessions.
pub fn everything_playing(devices: &[(crate::model::DeviceKind, Vec<u32>)]) -> (out: Vec<u32>)
    ensures
        forall|pid: u32| #[trigger] out@.contains(pid) <==> plays_somewhere(devices@, pid),
        forall|i: int, j: int| 0 <= i < j < out@.len() ==> out@[i] < out@[j],
{
    let mut out: Vec<u32> = Vec::new();
    let mut d: usize = 0;
    while d < devices.len()
        invariant
            d <= devices@.len(),
            forall|i: int, j: int| 0 <= i < j < out@.len() ==> out@[i] < out@[j],
            forall|pid: u32| #[trigger] out@.contains(pid) <==> plays_somewhere(devices@.take(d as int), pid),
        decreases devices@.len() - d,
    {
        let ghost before_d = devices@.take(d as int);
        assert forall|pid: u32| plays_somewhere(devices@.take(d as int + 1), pid) <==> plays_somewhere(before_d, pid)
            || (devices@[d as int].0 == crate::model::DeviceKind::Output && devices@[d as int].1@.contains(pid)) by {
            if plays_somewhere(devices@.take(d as int + 1), pid) {
                let e = choose|e: int|
                    0 <= e < d + 1 && devices@.take(d as int + 1)[e].0 == crate::model::DeviceKind::Output
                        && (#[trigger] devices@.take(d as int + 1)[e].1@).contains(pid);
                if e < d {
                    assert(before_d[e] == devices@.take(d as int + 1)[e]);
                }
            }
            if plays_somewhere(before_d, pid) {
                let e = choose|e: int|
                    0 <= e < d && before_d[e].0 == crate::model::DeviceKind::Output && (#[trigger] before_d[e].1@).contains(pid);
                assert(devices@.take(d as int + 1)[e] == before_d[e]);
            }
            if devices@[d as int].0 == crate::model::DeviceKind::Output && devices@[d as int].1@.contains(pid) {
                assert(devices@.take(d as int + 1)[d as int] == devices@[d as int]);
            }
        }
        if devices[d].0 == crate::model::DeviceKind::Output {
            let pids = &devices[d].1;
            let mut k: usize = 0;
            while k < pids.len()
                invariant
                    d < devices@.len(),
                    pids@ == devices@[d as int].1@,
                    k <= pids@.len(),
                    forall|i: int, j: int| 0 <= i < j < out@.len() ==> out@[i] < out@[j],
                    forall|pid: u32| #[trigger] out@.contains(pid) <==> plays_somewhere(before_d, pid)
                        || pids@.take(k as int).contains(pid),
                decreases pids@.len() - k,
            {
                let pid = pids[k];
                let ghost old_out = out@;
                // Where it belongs in the ascending list, unless it is there.
                let mut p: usize = 0;
                while p < out.len() && out[p] < pid
                    invariant
                        p <= out@.len(),
                        forall|j: int| 0 <= j < p ==> out@[j] < pid,
                    decreases out@.len() - p,
                {
                    p = p + 1;
                }
                if p < out.len() && out[p] == pid {
                } else {
                    out.insert(p, pid);
                    assert(out@ =~= old_out.insert(p as int, pid));
                    assert forall|i: int, j: int| 0 <= i < j < out@.len() implies out@[i] < out@[j] by {
                        if j < p {
                        } else if i < p && j == p {
                        } else if i < p {
                            assert(out@[j] == old_out[j - 1]);
                            assert(old_out[p as int] > pid || p == old_out.len());
                        } else if i == p {
                            assert(out@[j] == old_out[j - 1]);
                            assert(p < old_out.len());
                            assert(old_out[p as int] > pid);
                            if j - 1 > p {
                                assert(old_out[p as int] < old_out[j - 1]);
                            }
                        } else {
                            assert(out@[i] == old_out[i - 1]);
                            assert(out@[j] == old_out[j - 1]);
                        }
                    }
                }
                assert forall|x: u32| #[trigger] out@.contains(x) <==> old_out.contains(x) || x == pid by {
                    if out@.contains(x) {
                        let w = choose|w: int| 0 <= w < out@.len() && out@[w] == x;
                        if out@ != old_out {
                            if w < p {
                                assert(old_out[w] == x);
                            } else if w > p {
                                assert(old_out[w - 1] == x);
                            }
                        }
                    }
                    if old_out.contains(x) && out@ != old_out {
                        let w = choose|w: int| 0 <= w < old_out.len() && old_out[w] == x;
                        if w < p {
                            assert(out@[w] == x);
                        } else {
                            assert(out@[w + 1] == x);
                        }
                    }
                    if x == pid {
                        if out@ == old_out {
                            assert(out@[p as int] == pid);
                        } else {
                            assert(out@[p as int] == pid);
                        }
                    }
                }
                let ghost t0 = pids@.take(k as int);
                let ghost t1 = pids@.take(k as int + 1);
                assert(t1 =~= t0.push(pid));
                assert forall|x: u32| t1.contains(x) <==> t0.contains(x) || x == pid by {
                    if t1.contains(x) {
                        let w = choose|w: int| 0 <= w < t1.len() && t1[w] == x;
                        if w < k {
                            assert(t0[w] == x);
                        }
                    }
                    if t0.contains(x) {
                        let w = choose|w: int| 0 <= w < t0.len() && t0[w] == x;
                        assert(t1[w] == x);
                    }
                    if x == pid {
                        assert(t1[k as int] == x);
                    }
                }
                k = k + 1;
            }
            assert(pids@.take(pids@.len() as int) =~= pids@);
        }
        d = d + 1;
    }
    assert(devices@.take(devices@.len() as int) =~= devices@);
    out
}

/// The output devices switched-on sources record, in order, each device
/// once.
pub open spec fn output_ids(sources: Seq<AudioSource>) -> Seq<Seq<char>>
    decreases sources.len(),
{
    if sources.len() == 0 {
        Seq::empty()
    } else {
        let earlier = output_ids(sources.drop_last());
        if sources.last().enabled && sources.last().kind is OutputDevice {
            earlier.push(sources.last().kind->OutputDevice_device_id@)
        } else {
            earlier
        }
    }
}

/// Which output devices to ask for the applications playing on them: none
/// unless a source records one application on its own (only then does an
/// output device record its leftovers); otherwise each output device a
/// switched-on source records, once.
pub open spec fn session_devices_spec(sources: Seq<AudioSource>) -> Seq<Seq<char>> {
    if records_single_spec(sources) {
        crate::text::distinct_texts(output_ids(sources))
    } else {
        Seq::empty()
    }
}

pub fn session_devices(sources: &[AudioSource]) -> (out: Vec<String>)
    ensures
        out.deep_view() == session_devices_spec(sources@),
{
    if !records_single_applications(sources) {
        let out: Vec<String> = Vec::new();
        assert(out.deep_view() =~= Seq::<Seq<char>>::empty());
        return out;
    }
    let mut ids: Vec<String> = Vec::new();
    let mut i: usize = 0;
    while i < sources.len()
        invariant
            i <= sources@.len(),
            ids.deep_view() == output_ids(sources@.take(i as int)),
        decreases sources@.len() - i,
    {
        assert(sources@.take(i as int + 1).drop_last() =~= sources@.take(i as int));
        if sources[i].enabled {
            match &sources[i].kind {
                SourceKind::OutputDevice { device_id, .. } => {
                    let ghost before = ids.deep_view();
                    ids.push(String::from_str(device_id.as_str()));
                    assert(ids.deep_view() =~= before.push(device_id@));
                },
                _ => {},
            }
        }
        i = i + 1;
    }
    assert(sources@.take(i as int) =~= sources@);
    crate::text::distinct(ids.as_slice())
}

/// The live pid for a source pinned to a process. The stored pid counts only
/// while it still runs the same executable; otherwise the executable is looked
/// up afresh, the oldest of several namesakes winning. A source stored before
/// the executable was keeps its pid as it stands.
pub open spec fn live_pid_spec(tree: Map<u32, (u32, String)>, pid: u32, exe: Option<Seq<char>>) -> Option<u32> {
    let alive = match entry(tree, pid) {
        Some((_, name)) => match exe {
            None => true,
            Some(e) => same_exe(name@, e),
        },
        None => false,
    };
    if alive {
        Some(pid)
    } else {
        match exe {
            None => Some(pid),
            Some(e) => oldest(tree, e),
        }
    }
}

fn find_oldest(tree: &HashMap<u32, (u32, String)>, exe: &str) -> (r: Option<u32>)
    ensures
        r == oldest(tree@, exe@),
{
    proof {
        vstd::std_specs::hash::axiom_spec_hash_map_iter(tree);
    }
    let mut found: Option<u32> = None;
    for item in it: tree.iter()
        invariant
            it.seq() == vstd::std_specs::hash::spec_hash_map_iter(tree).remaining(),
            match found {
                Some(f) => {
                    &&& tree@.dom().contains(f)
                    &&& same_exe(tree@[f].1@, exe@)
                    &&& forall|i: int|
                        0 <= i < it.index() && same_exe(tree@[*it.seq()[i].0].1@, exe@) ==> f <= *(
                        #[trigger] it.seq()[i]).0
                },
                None => forall|i: int|
                    0 <= i < it.index() ==> !same_exe(tree@[*(#[trigger] it.seq()[i]).0].1@, exe@),
            },
    {
        let (k, v) = item;
        if exe_eq(v.1.as_str(), exe) {
            let better = match found {
                Some(f) => *k < f,
                None => true,
            };
            if better {
                found = Some(*k);
            }
        }
    }
    proof {
        let v = vstd::std_specs::hash::spec_hash_map_iter(tree).remaining();
        match found {
            Some(f) => {
                assert forall|q: u32| #[trigger] tree@.dom().contains(q) && same_exe(tree@[q].1@, exe@) implies f <= q by {
                    assert(v.contains((&q, &tree@[q])));
                    let i = choose|i: int| 0 <= i < v.len() && v[i] == (&q, &tree@[q]);
                    assert(*v[i].0 == q);
                }
                assert(is_oldest(tree@, exe@, f));
                assert forall|c: u32| is_oldest(tree@, exe@, c) implies c == f by {}
            },
            None => {
                assert forall|q: u32| !is_oldest(tree@, exe@, q) by {
                    if is_oldest(tree@, exe@, q) {
                        assert(v.contains((&q, &tree@[q])));
                        let i = choose|i: int| 0 <= i < v.len() && v[i] == (&q, &tree@[q]);
                        assert(*v[i].0 == q);
                    }
                }
            },
        }
    }
    found
}

pub fn live_pid(pid: u32, exe: Option<&str>, tree: &HashMap<u32, (u32, String)>) -> (r: Option<u32>)
    ensures
        r == live_pid_spec(tree@, pid, crate::text::opt_text(exe)),
{
    match lookup(tree, pid) {
        Some(e) => {
            let alive = match exe {
                None => true,
                Some(want) => exe_eq(e.1.as_str(), want),
            };
            if alive {
                return Some(pid);
            }
        },
        None => {},
    }
    match exe {
        None => Some(pid),
        Some(want) => find_oldest(tree, want),
    }
}

} // verus!

verus! {

/// Is any source recording one application on its own: the game, or a
/// process included by hand? Then an output device records only its
/// leftovers, or that sound would be in the clip twice.
pub open spec fn records_single_spec(sources: Seq<AudioSource>) -> bool {
    exists|i: int|
        0 <= i < sources.len() && (#[trigger] sources[i]).enabled && (sources[i].kind is Game || sources[i].kind matches SourceKind::Process { mode: ProcessMode::Include, .. })
}

pub fn records_single_applications(sources: &[AudioSource]) -> (b: bool)
    ensures
        b == records_single_spec(sources@),
{
    let mut i: usize = 0;
    while i < sources.len()
        invariant
            i <= sources@.len(),
            forall|j: int|
                0 <= j < i ==> !((#[trigger] sources@[j]).enabled && (sources@[j].kind is Game || sources@[j].kind matches SourceKind::Process { mode: ProcessMode::Include, .. })),
        decreases sources@.len() - i,
    {
        if sources[i].enabled {
            let single = match &sources[i].kind {
                SourceKind::Game => true,
                SourceKind::Process { mode: ProcessMode::Include, .. } => true,
                _ => false,
            };
            if single {
                return true;
            }
        }
        i = i + 1;
    }
    false
}

/// Is the source heard right now? Solo beats mute: as soon as solo is set
/// anywhere, only the soloed sources count. An inaudible source keeps its
/// track and is given silence.
pub open spec fn audible_spec(sources: Seq<AudioSource>, source: AudioSource) -> bool {
    let any_solo = exists|i: int| 0 <= i < sources.len() && (#[trigger] sources[i]).solo;
    source.enabled && !source.muted && (!any_solo || source.solo)
}

pub fn audible(sources: &[AudioSource], source: &AudioSource) -> (b: bool)
    ensures
        b == audible_spec(sources@, *source),
{
    let mut any_solo = false;
    let mut i: usize = 0;
    while i < sources.len()
        invariant
            i <= sources@.len(),
            any_solo == exists|j: int| 0 <= j < i && (#[trigger] sources@[j]).solo,
        decreases sources@.len() - i,
    {
        if sources[i].solo {
            any_solo = true;
        }
        i = i + 1;
    }
    source.enabled && !source.muted && (!any_solo || source.solo)
}

pub open spec fn is_enabled(s: AudioSource) -> bool {
    s.enabled
}

/// Every source the buffer records, one track each, in mixer order; whether
/// it goes into the main mix or a track of its own is decided on save.
pub fn recorded(sources: &[AudioSource]) -> (out: Vec<&AudioSource>)
    ensures
        out@.len() == sources@.filter(|s: AudioSource| is_enabled(s)).len(),
        forall|i: int| 0 <= i < out@.len() ==> *out@[i] == sources@.filter(|s: AudioSource| is_enabled(s))[i],
{
    let mut out: Vec<&AudioSource> = Vec::new();
    let mut i: usize = 0;
    while i < sources.len()
        invariant
            i <= sources@.len(),
            out@.len() == sources@.take(i as int).filter(|s: AudioSource| is_enabled(s)).len(),
            forall|j: int|
                0 <= j < out@.len() ==> *out@[j] == sources@.take(i as int).filter(|s: AudioSource| is_enabled(s))[j],
        decreases sources@.len() - i,
    {
        proof {
            assert(sources@.take(i as int + 1) =~= sources@.take(i as int).push(sources@[i as int]));
            sources@.take(i as int).lemma_filter_push(sources@[i as int], |s: AudioSource| is_enabled(s));
        }
        if sources[i].enabled {
            out.push(&sources[i]);
        }
        i = i + 1;
    }
    assert(sources@.take(i as int) =~= sources@);
    out
}

} // verus!

verus! {

/// Said of a game source while buffering with no game detected: the track is
/// written regardless, and it will be silence.
pub const NO_GAME: &'static str = "no game detected right now — this track stays silent until one is";

/// Said of a source whose device is not there.
pub const NOT_CONNECTED: &'static str = "this device is not connected — the track stays silent until it is back";

/// The device a source records from, and of which kind, if it records a
/// device.
pub open spec fn device_of(kind: SourceKind) -> Option<(Seq<char>, crate::model::DeviceKind)> {
    match kind {
        SourceKind::OutputDevice { device_id, .. } => Some((device_id@, crate::model::DeviceKind::Output)),
        SourceKind::InputDevice { device_id } => Some((device_id@, crate::model::DeviceKind::Input)),
        _ => None,
    }
}

/// The name of the first default device of this kind.
pub open spec fn default_name(devices: Seq<crate::model::AudioDevice>, kind: crate::model::DeviceKind) -> Option<
    Seq<char>,
>
    decreases devices.len(),
{
    if devices.len() == 0 {
        None
    } else if devices[0].kind == kind && devices[0].is_default {
        Some(devices[0].name@)
    } else {
        default_name(devices.drop_first(), kind)
    }
}

pub open spec fn connected(devices: Seq<crate::model::AudioDevice>, kind: crate::model::DeviceKind, id: Seq<char>) -> bool {
    exists|i: int| 0 <= i < devices.len() && (#[trigger] devices[i]).kind == kind && devices[i].id@ == id
}

pub open spec fn default_note(name: Seq<char>) -> Seq<char> {
    "follows the Windows default device, which is '"@ + name
        + "' right now — not what this source is called. Pick the device in the mixer to pin it."@
}

/// What is wrong with one source as configured, before any stream is built:
/// a game source that will record silence, a source following the default
/// device while its label names another, or a device that is not there. A
/// disabled source is never a problem worth a banner.
pub open spec fn warning_spec(
    source: AudioSource,
    devices: Seq<crate::model::AudioDevice>,
    game_detected: bool,
    buffering: bool,
) -> Option<Seq<char>> {
    if !source.enabled {
        None
    } else if source.kind is Game {
        if !game_detected && buffering { Some(NO_GAME@) } else { None }
    } else {
        match device_of(source.kind) {
            None => None,
            Some((id, kind)) => if id.len() == 0 {
                match default_name(devices, kind) {
                    Some(name) => if !crate::text::contains_text(source.label@, name) {
                        Some(default_note(name))
                    } else {
                        None
                    },
                    None => None,
                }
            } else if !connected(devices, kind, id) {
                Some(NOT_CONNECTED@)
            } else {
                None
            },
        }
    }
}

/// The warnings of all sources, as source id and message, in mixer order.
pub open spec fn warnings_spec(
    sources: Seq<AudioSource>,
    devices: Seq<crate::model::AudioDevice>,
    game_detected: bool,
    buffering: bool,
) -> Seq<(Seq<char>, Seq<char>)>
    decreases sources.len(),
{
    if sources.len() == 0 {
        Seq::empty()
    } else {
        let before = warnings_spec(sources.drop_last(), devices, game_detected, buffering);
        match warning_spec(sources.last(), devices, game_detected, buffering) {
            Some(m) => before.push((sources.last().id@, m)),
            None => before,
        }
    }
}

fn find_default(devices: &[crate::model::AudioDevice], kind: crate::model::DeviceKind) -> (r: Option<&String>)
    ensures
        match r {
            Some(n) => default_name(devices@, kind) == Some(n@),
            None => default_name(devices@, kind) is None,
        },
{
    let mut i: usize = 0;
    assert(devices@.skip(0) =~= devices@);
    while i < devices.len()
        invariant
            i <= devices@.len(),
            default_name(devices@.skip(i as int), kind) == default_name(devices@, kind),
        decreases devices@.len() - i,
    {
        assert(devices@.skip(i as int).drop_first() =~= devices@.skip(i as int + 1));
        if devices[i].kind == kind && devices[i].is_default {
            return Some(&devices[i].name);
        }
        i = i + 1;
    }
    None
}

fn is_connected(devices: &[crate::model::AudioDevice], kind: crate::model::DeviceKind, id: &str) -> (b: bool)
    ensures
        b == connected(devices@, kind, id@),
{
    let mut i: usize = 0;
    while i < devices.len()
        invariant
            i <= devices@.len(),
            forall|j: int| 0 <= j < i ==> !((#[trigger] devices@[j]).kind == kind && devices@[j].id@ == id@),
        decreases devices@.len() - i,
    {
        if devices[i].kind == kind && same_text(devices[i].id.as_str(), id) {
            return true;
        }
        i = i + 1;
    }
    false
}

fn warning(source: &AudioSource, devices: &[crate::model::AudioDevice], game_detected: bool, buffering: bool) -> (r:
    Option<String>)
    ensures
        crate::text::opt_string(r) == warning_spec(*source, devices@, game_detected, buffering),
{
    if !source.enabled {
        return None;
    }
    let (device_id, kind) = match &source.kind {
        SourceKind::Game => {
            return if !game_detected && buffering {
                Some(String::from_str(NO_GAME))
            } else {
                None
            };
        },
        SourceKind::OutputDevice { device_id, .. } => (device_id, crate::model::DeviceKind::Output),
        SourceKind::InputDevice { device_id } => (device_id, crate::model::DeviceKind::Input),
        _ => return None,
    };
    if crate::text::chars_of(device_id.as_str()).len() == 0 {
        // An empty id means the default device. A label naming one particular
        // channel then promises what the source does not record.
        return match find_default(devices, kind) {
            Some(name) => {
                if !crate::text::text_contains(source.label.as_str(), name.as_str()) {
                    let mut note = String::from_str("follows the Windows default device, which is '");
                    crate::text::push_str(&mut note, name.as_str());
                    crate::text::push_str(
                        &mut note,
                        "' right now — not what this source is called. Pick the device in the mixer to pin it.",
                    );
                    Some(note)
                } else {
                    None
                }
            },
            None => None,
        };
    }
    if !is_connected(devices, kind, device_id.as_str()) {
        return Some(String::from_str(NOT_CONNECTED));
    }
    None
}

/// What is wrong with the sources as configured, as source id and message: a
/// source that comes up perfectly and records something other than its label
/// promises fails nowhere, so nothing else would ever say so.
pub fn configuration_warnings(
    sources: &[AudioSource],
    devices: &[crate::model::AudioDevice],
    game_detected: bool,
    buffering: bool,
) -> (out: Vec<(String, String)>)
    ensures
        crate::game::games_view(out@) == warnings_spec(sources@, devices@, game_detected, buffering),
{
    let mut out: Vec<(String, String)> = Vec::new();
    let mut i: usize = 0;
    while i < sources.len()
        invariant
            i <= sources@.len(),
            crate::game::games_view(out@) == warnings_spec(sources@.take(i as int), devices@, game_detected, buffering),
        decreases sources@.len() - i,
    {
        assert(sources@.take(i as int + 1).drop_last() =~= sources@.take(i as int));
        let ghost before = out@;
        match warning(&sources[i], devices, game_detected, buffering) {
            Some(m) => {
                out.push((sources[i].id.clone(), m));
                assert(crate::game::games_view(out@) =~= crate::game::games_view(before).push(
                    (sources@[i as int].id@, out@.last().1@),
                ));
            },
            None => {},
        }
        i = i + 1;
    }
    assert(sources@.take(i as int) =~= sources@);
    out
}

} // verus!

verus! {

/// One capture client the engine has to run, and the mixer source it feeds.
/// Several streams can carry the same source id: the leftovers are one
/// per-application tap each, since a tap names a single process.
#[derive(Debug, Clone, PartialEq)]
pub struct Stream {
    pub source_id: String,
    pub kind: SourceKind,
}

/// Decides which leftovers source each application belongs to.
#[derive(Debug, Clone)]
pub struct Leftovers {
    /// The default output device: the right home for an application that is
    /// playing nowhere in particular.
    pub default_device: String,
    /// Who owned which application last time, so a moment of silence does not
    /// move it and cost a stream restart.
    pub previous: HashMap<u32, String>,
}

/// What plays on each output device: device id, then the sessions on it as
/// (pid, is it rendering right now).
pub open spec fn playing_view(playing: Seq<(String, Vec<(u32, bool)>)>) -> Seq<(Seq<char>, Seq<(u32, bool)>)> {
    Seq::new(playing.len(), |i: int| (playing[i].0@, playing[i].1@))
}

/// The source asking for leftovers from a device, as (source id, device id):
/// an enabled output device, or the old leftover kind, which meant the
/// default device.
pub open spec fn bucket_of(s: AudioSource) -> Option<(Seq<char>, Seq<char>)> {
    if !s.enabled {
        None
    } else {
        match s.kind {
            SourceKind::OutputDevice { device_id, .. } => Some((s.id@, device_id@)),
            SourceKind::Leftovers => Some((s.id@, Seq::empty())),
            _ => None,
        }
    }
}

pub open spec fn buckets_spec(sources: Seq<AudioSource>) -> Seq<(Seq<char>, Seq<char>)>
    decreases sources.len(),
{
    if sources.len() == 0 {
        Seq::empty()
    } else {
        let before = buckets_spec(sources.drop_last());
        match bucket_of(sources.last()) {
            Some(b) => before.push(b),
            None => before,
        }
    }
}

/// Every pid holding a session, device by device.
pub open spec fn session_pids(playing: Seq<(Seq<char>, Seq<(u32, bool)>)>) -> Seq<u32>
    decreases playing.len(),
{
    if playing.len() == 0 {
        Seq::empty()
    } else {
        session_pids(playing.drop_last()) + playing.last().1.map_values(|s: (u32, bool)| s.0)
    }
}

/// The applications behind those pids, each once, in the order first seen.
pub open spec fn first_roots(pids: Seq<u32>, tree: Map<u32, (u32, String)>) -> Seq<u32>
    decreases pids.len(),
{
    if pids.len() == 0 {
        Seq::empty()
    } else {
        let before = first_roots(pids.drop_last(), tree);
        let r = app_root_spec(tree, pids.last());
        if before.contains(r) {
            before
        } else {
            before.push(r)
        }
    }
}

pub open spec fn depth(tree: Map<u32, (u32, String)>, pid: u32) -> int {
    ancestors_spec(tree, pid).len() as int
}

/// The roots with fewer than `d` ancestors, shallower first, keeping their
/// order among equals.
pub open spec fn by_depth(roots: Seq<u32>, tree: Map<u32, (u32, String)>, d: int) -> Seq<u32>
    decreases d,
{
    if d <= 0 {
        Seq::empty()
    } else {
        by_depth(roots, tree, d - 1) + roots.filter(|r: u32| depth(tree, r) == d - 1)
    }
}

/// Ancestors first, so a chosen tap already covers its own descendants when
/// they come up. No process has more than 32 ancestors here.
pub open spec fn roots_spec(playing: Seq<(Seq<char>, Seq<(u32, bool)>)>, tree: Map<u32, (u32, String)>) -> Seq<u32> {
    by_depth(first_roots(session_pids(playing), tree), tree, 33)
}

} // verus!

verus! {

fn buckets(sources: &[AudioSource]) -> (out: Vec<(String, String)>)
    ensures
        crate::game::games_view(out@) == buckets_spec(sources@),
{
    let mut out: Vec<(String, String)> = Vec::new();
    let mut i: usize = 0;
    while i < sources.len()
        invariant
            i <= sources@.len(),
            crate::game::games_view(out@) == buckets_spec(sources@.take(i as int)),
        decreases sources@.len() - i,
    {
        assert(sources@.take(i as int + 1).drop_last() =~= sources@.take(i as int));
        let ghost before = out@;
        let s = &sources[i];
        if s.enabled {
            match &s.kind {
                SourceKind::OutputDevice { device_id, .. } => {
                    out.push((s.id.clone(), device_id.clone()));
                    assert(crate::game::games_view(out@) =~= crate::game::games_view(before).push(
                        (s.id@, device_id@),
                    ));
                },
                SourceKind::Leftovers => {
                    out.push((s.id.clone(), String::new()));
                    assert(crate::game::games_view(out@) =~= crate::game::games_view(before).push(
                        (s.id@, Seq::<char>::empty()),
                    ));
                },
                _ => {},
            }
        }
        i = i + 1;
    }
    assert(sources@.take(i as int) =~= sources@);
    out
}

fn first_roots_of(playing: &[(String, Vec<(u32, bool)>)], tree: &HashMap<u32, (u32, String)>) -> (out: Vec<u32>)
    ensures
        out@ == first_roots(session_pids(playing_view(playing@)), tree@),
{
    let ghost pv = playing_view(playing@);
    let mut out: Vec<u32> = Vec::new();
    let mut i: usize = 0;
    while i < playing.len()
        invariant
            pv == playing_view(playing@),
            i <= playing@.len(),
            out@ == first_roots(session_pids(pv.take(i as int)), tree@),
        decreases playing@.len() - i,
    {
        let sessions = &playing[i].1;
        let ghost base = session_pids(pv.take(i as int));
        let mut j: usize = 0;
        while j < sessions.len()
            invariant
                pv == playing_view(playing@),
                i < playing@.len(),
                *sessions == playing@[i as int].1,
                j <= sessions@.len(),
                out@ == first_roots(base + sessions@.take(j as int).map_values(|s: (u32, bool)| s.0), tree@),
            decreases sessions@.len() - j,
        {
            let pid = sessions[j].0;
            let ghost flat = base + sessions@.take(j as int).map_values(|s: (u32, bool)| s.0);
            assert(base + sessions@.take(j as int + 1).map_values(|s: (u32, bool)| s.0) =~= flat.push(pid));
            assert(flat.push(pid).drop_last() =~= flat);
            let r = app_root(pid, tree);
            if !contains_pid(&out, r) {
                out.push(r);
            }
            j = j + 1;
        }
        assert(pv.take(i as int + 1).drop_last() =~= pv.take(i as int));
        assert(sessions@.take(j as int) =~= sessions@);
        assert(pv.take(i as int + 1).last() == pv[i as int]);
        i = i + 1;
    }
    assert(pv.take(i as int) =~= pv);
    out
}

/// The applications holding sessions, ancestors first.
fn roots_of(playing: &[(String, Vec<(u32, bool)>)], tree: &HashMap<u32, (u32, String)>) -> (out: Vec<u32>)
    ensures
        out@ == roots_spec(playing_view(playing@), tree@),
{
    let first = first_roots_of(playing, tree);
    let mut depths: Vec<usize> = Vec::new();
    let mut k: usize = 0;
    while k < first.len()
        invariant
            k <= first@.len(),
            depths@.len() == k,
            forall|m: int| 0 <= m < k ==> depths@[m] == depth(tree@, #[trigger] first@[m]),
        decreases first@.len() - k,
    {
        let a = ancestors(first[k], tree);
        depths.push(a.len());
        k = k + 1;
    }
    let mut out: Vec<u32> = Vec::new();
    let mut d: usize = 0;
    while d < 33
        invariant
            d <= 33,
            depths@.len() == first@.len(),
            forall|m: int| 0 <= m < first@.len() ==> depths@[m] == depth(tree@, #[trigger] first@[m]),
            out@ == by_depth(first@, tree@, d as int),
        decreases 33 - d,
    {
        let ghost base = out@;
        let mut j: usize = 0;
        while j < first.len()
            invariant
                d < 33,
                depths@.len() == first@.len(),
                forall|m: int| 0 <= m < first@.len() ==> depths@[m] == depth(tree@, #[trigger] first@[m]),
                j <= first@.len(),
                base == by_depth(first@, tree@, d as int),
                out@ == base + first@.take(j as int).filter(|r: u32| depth(tree@, r) == d as int),
            decreases first@.len() - j,
        {
            proof {
                assert(first@.take(j as int + 1) =~= first@.take(j as int).push(first@[j as int]));
                first@.take(j as int).lemma_filter_push(first@[j as int], |r: u32| depth(tree@, r) == d as int);
            }
            if depths[j] == d {
                out.push(first[j]);
            }
            j = j + 1;
        }
        assert(first@.take(j as int) =~= first@);
        d = d + 1;
    }
    out
}

} // verus!

verus! {

/// The sessions on a device, if it is listed.
pub open spec fn device_sessions(playing: Seq<(Seq<char>, Seq<(u32, bool)>)>, device: Seq<char>) -> Option<
    Seq<(u32, bool)>,
>
    decreases playing.len(),
{
    if playing.len() == 0 {
        None
    } else if playing[0].0 == device {
        Some(playing[0].1)
    } else {
        device_sessions(playing.drop_first(), device)
    }
}

/// Whether the application has a session among these, and whether it is
/// rendering there: the first of its sessions decides.
pub open spec fn session_state(sessions: Seq<(u32, bool)>, tree: Map<u32, (u32, String)>, root: u32) -> Option<bool>
    decreases sessions.len(),
{
    if sessions.len() == 0 {
        None
    } else if app_root_spec(tree, sessions[0].0) == root {
        Some(sessions[0].1)
    } else {
        session_state(sessions.drop_first(), tree, root)
    }
}

/// Does this application have a session on that device, and is it rendering
/// there?
pub open spec fn state_spec(
    playing: Seq<(Seq<char>, Seq<(u32, bool)>)>,
    tree: Map<u32, (u32, String)>,
    device: Seq<char>,
    root: u32,
) -> Option<bool> {
    match device_sessions(playing, device) {
        Some(sessions) => session_state(sessions, tree, root),
        None => None,
    }
}

fn state(
    playing: &[(String, Vec<(u32, bool)>)],
    tree: &HashMap<u32, (u32, String)>,
    device: &str,
    root: u32,
) -> (r: Option<bool>)
    ensures
        r == state_spec(playing_view(playing@), tree@, device@, root),
{
    let ghost pv = playing_view(playing@);
    let mut i: usize = 0;
    assert(pv.skip(0) =~= pv);
    while i < playing.len()
        invariant
            pv == playing_view(playing@),
            i <= playing@.len(),
            device_sessions(pv.skip(i as int), device@) == device_sessions(pv, device@),
        decreases playing@.len() - i,
    {
        assert(pv.skip(i as int).drop_first() =~= pv.skip(i as int + 1));
        if same_text(playing[i].0.as_str(), device) {
            let sessions = &playing[i].1;
            let mut j: usize = 0;
            assert(sessions@.skip(0) =~= sessions@);
            assert(pv.skip(i as int)[0] == pv[i as int]);
            assert(device_sessions(pv, device@) == Some(sessions@));
            while j < sessions.len()
                invariant
                    pv == playing_view(playing@),
                    device_sessions(pv, device@) == Some(sessions@),
                    j <= sessions@.len(),
                    session_state(sessions@.skip(j as int), tree@, root) == session_state(sessions@, tree@, root),
                decreases sessions@.len() - j,
            {
                assert(sessions@.skip(j as int).drop_first() =~= sessions@.skip(j as int + 1));
                if app_root(sessions[j].0, tree) == root {
                    assert(sessions@.skip(j as int)[0] == sessions@[j as int]);
                    return Some(sessions[j].1);
                }
                j = j + 1;
            }
            return None;
        }
        i = i + 1;
    }
    None
}

/// Which rule picks a bucket for an application.
#[derive(Debug, Clone, Copy, PartialEq, Eq, Structural)]
pub enum Pick {
    /// Where it is audibly playing. That is the whole rule.
    Playing,
    /// It went quiet: where it was before, if it still has a session there.
    Before,
    /// Playing nowhere in particular: the default device, where it has one.
    Default,
    /// Anywhere it has a session at all.
    Anywhere,
}

pub open spec fn picks(
    p: Pick,
    bucket: (Seq<char>, Seq<char>),
    state: Option<bool>,
    before: Option<Seq<char>>,
    default_device: Seq<char>,
) -> bool {
    match p {
        Pick::Playing => state == Some(true),
        Pick::Before => before == Some(bucket.0) && state is Some,
        Pick::Default => bucket.1 == default_device && state is Some,
        Pick::Anywhere => state is Some,
    }
}

/// `i` is the first bucket the rule picks.
pub open spec fn is_first_pick(
    bs: Seq<(Seq<char>, Seq<char>)>,
    states: Seq<Option<bool>>,
    p: Pick,
    before: Option<Seq<char>>,
    default_device: Seq<char>,
    i: int,
) -> bool {
    &&& 0 <= i < bs.len()
    &&& picks(p, bs[i], states[i], before, default_device)
    &&& forall|j: int| 0 <= j < i ==> !picks(p, #[trigger] bs[j], states[j], before, default_device)
}

pub open spec fn first_pick(
    bs: Seq<(Seq<char>, Seq<char>)>,
    states: Seq<Option<bool>>,
    p: Pick,
    before: Option<Seq<char>>,
    default_device: Seq<char>,
) -> Option<int> {
    if exists|i: int| is_first_pick(bs, states, p, before, default_device, i) {
        Some(choose|i: int| is_first_pick(bs, states, p, before, default_device, i))
    } else {
        None
    }
}

/// The bucket an application belongs to, by the first rule that picks one.
pub open spec fn owner_index(
    bs: Seq<(Seq<char>, Seq<char>)>,
    states: Seq<Option<bool>>,
    before: Option<Seq<char>>,
    default_device: Seq<char>,
) -> Option<int> {
    match first_pick(bs, states, Pick::Playing, before, default_device) {
        Some(i) => Some(i),
        None => match first_pick(bs, states, Pick::Before, before, default_device) {
            Some(i) => Some(i),
            None => match first_pick(bs, states, Pick::Default, before, default_device) {
                Some(i) => Some(i),
                None => first_pick(bs, states, Pick::Anywhere, before, default_device),
            },
        },
    }
}

fn pick_first(
    bs: &Vec<(String, String)>,
    states: &Vec<Option<bool>>,
    p: Pick,
    before: Option<&String>,
    default_device: &str,
) -> (r: Option<usize>)
    requires
        states@.len() == bs@.len(),
    ensures
        match r {
            Some(i) => first_pick(
                crate::game::games_view(bs@),
                states@,
                p,
                crate::text::opt_string(match before { Some(b) => Some(*b), None => None }),
                default_device@,
            ) == Some(i as int),
            None => first_pick(
                crate::game::games_view(bs@),
                states@,
                p,
                crate::text::opt_string(match before { Some(b) => Some(*b), None => None }),
                default_device@,
            ) is None,
        },
{
    let ghost bv = crate::game::games_view(bs@);
    let ghost bf = crate::text::opt_string(match before { Some(b) => Some(*b), None => None });
    let mut i: usize = 0;
    while i < bs.len()
        invariant
            bv == crate::game::games_view(bs@),
            bf == crate::text::opt_string(match before { Some(b) => Some(*b), None => None }),
            states@.len() == bs@.len(),
            i <= bs@.len(),
            forall|j: int| 0 <= j < i ==> !picks(p, #[trigger] bv[j], states@[j], bf, default_device@),
        decreases bs@.len() - i,
    {
        let st = states[i];
        let hit = match p {
            Pick::Playing => matches!(st, Some(true)),
            Pick::Before => st.is_some() && match before {
                Some(b) => same_text(b.as_str(), bs[i].0.as_str()),
                None => false,
            },
            Pick::Default => st.is_some() && same_text(bs[i].1.as_str(), default_device),
            Pick::Anywhere => st.is_some(),
        };
        assert(bv[i as int] == (bs@[i as int].0@, bs@[i as int].1@));
        assert(states@[i as int] == st);
        assert(hit == picks(p, bv[i as int], states@[i as int], bf, default_device@)) by {
            match p {
                Pick::Playing => {},
                Pick::Before => {
                    match before {
                        Some(b) => {
                            assert(bf == Some(b@));
                        },
                        None => {
                            assert(bf is None);
                        },
                    }
                },
                Pick::Default => {},
                Pick::Anywhere => {},
            }
        }
        if hit {
            assert(is_first_pick(bv, states@, p, bf, default_device@, i as int));
            assert forall|c: int| is_first_pick(bv, states@, p, bf, default_device@, c) implies c == i by {
                if c < i {
                    assert(!picks(p, bv[c], states@[c], bf, default_device@));
                } else if c > i {
                    assert(picks(p, bv[i as int], states@[i as int], bf, default_device@));
                }
            }
            return Some(i);
        }
        i = i + 1;
    }
    None
}

} // verus!

verus! {

/// Is this application already in the clip through a tap on it or on one of
/// its ancestors? A tap covers the target and its children.
pub open spec fn covered_spec(spoken: Seq<u32>, tree: Map<u32, (u32, String)>, r: u32) -> bool {
    let anc = ancestors_spec(tree, r);
    spoken.contains(r) || exists|k: int| 0 <= k < anc.len() && spoken.contains(#[trigger] anc[k])
}

pub open spec fn states_for(
    bs: Seq<(Seq<char>, Seq<char>)>,
    playing: Seq<(Seq<char>, Seq<(u32, bool)>)>,
    tree: Map<u32, (u32, String)>,
    root: u32,
) -> Seq<Option<bool>> {
    Seq::new(bs.len(), |i: int| state_spec(playing, tree, bs[i].1, root))
}

pub open spec fn before_of(previous: Map<u32, String>, root: u32) -> Option<Seq<char>> {
    if previous.dom().contains(root) {
        Some(previous[root]@)
    } else {
        None
    }
}

/// One application more: skipped when covered already, otherwise handed to
/// the bucket the rules pick, if any.
pub open spec fn assign_step(
    acc: (Seq<u32>, Seq<(u32, Seq<char>)>),
    r: u32,
    bs: Seq<(Seq<char>, Seq<char>)>,
    playing: Seq<(Seq<char>, Seq<(u32, bool)>)>,
    tree: Map<u32, (u32, String)>,
    previous: Map<u32, String>,
    default_device: Seq<char>,
) -> (Seq<u32>, Seq<(u32, Seq<char>)>) {
    if covered_spec(acc.0, tree, r) {
        acc
    } else {
        match owner_index(bs, states_for(bs, playing, tree, r), before_of(previous, r), default_device) {
            Some(i) => (acc.0.push(r), acc.1.push((r, bs[i].0))),
            None => acc,
        }
    }
}

/// The applications spoken for so far, and where each of the newly assigned
/// ones goes.
pub open spec fn assign_state(
    roots: Seq<u32>,
    taken: Seq<u32>,
    bs: Seq<(Seq<char>, Seq<char>)>,
    playing: Seq<(Seq<char>, Seq<(u32, bool)>)>,
    tree: Map<u32, (u32, String)>,
    previous: Map<u32, String>,
    default_device: Seq<char>,
) -> (Seq<u32>, Seq<(u32, Seq<char>)>)
    decreases roots.len(),
{
    if roots.len() == 0 {
        (taken, Seq::empty())
    } else {
        assign_step(
            assign_state(roots.drop_last(), taken, bs, playing, tree, previous, default_device),
            roots.last(),
            bs,
            playing,
            tree,
            previous,
            default_device,
        )
    }
}

pub open spec fn home_view(home: Seq<(u32, String)>) -> Seq<(u32, Seq<char>)> {
    Seq::new(home.len(), |i: int| (home[i].0, home[i].1@))
}

fn is_covered(spoken: &Vec<u32>, tree: &HashMap<u32, (u32, String)>, r: u32) -> (b: bool)
    ensures
        b == covered_spec(spoken@, tree@, r),
{
    if contains_pid(spoken, r) {
        return true;
    }
    let anc = ancestors(r, tree);
    let mut k: usize = 0;
    while k < anc.len()
        invariant
            anc@ == ancestors_spec(tree@, r),
            !spoken@.contains(r),
            k <= anc@.len(),
            forall|m: int| 0 <= m < k ==> !spoken@.contains(#[trigger] anc@[m]),
        decreases anc@.len() - k,
    {
        if contains_pid(spoken, anc[k]) {
            return true;
        }
        k = k + 1;
    }
    false
}

impl Leftovers {
    /// Which leftovers source each application belongs to, as (application,
    /// source id), given what `taken` already records.
    ///
    /// Nobody should have to sort this out by hand: the system says whether a
    /// session is rendering or merely open, and an application goes where it
    /// is audibly playing; everything else only breaks ties.
    pub fn assign(
        &self,
        sources: &[AudioSource],
        playing: &[(String, Vec<(u32, bool)>)],
        tree: &HashMap<u32, (u32, String)>,
        taken: &[u32],
    ) -> (out: Vec<(u32, String)>)
        ensures
            home_view(out@) == assign_state(
                roots_spec(playing_view(playing@), tree@),
                taken@,
                buckets_spec(sources@),
                playing_view(playing@),
                tree@,
                self.previous@,
                self.default_device@,
            ).1,
    {
        let bs = buckets(sources);
        let roots = roots_of(playing, tree);
        let ghost bv = crate::game::games_view(bs@);
        let ghost pv = playing_view(playing@);
        let mut spoken: Vec<u32> = Vec::new();
        let mut t: usize = 0;
        while t < taken.len()
            invariant
                t <= taken@.len(),
                spoken@ == taken@.take(t as int),
            decreases taken@.len() - t,
        {
            spoken.push(taken[t]);
            assert(taken@.take(t as int + 1) =~= taken@.take(t as int).push(taken@[t as int]));
            t = t + 1;
        }
        assert(taken@.take(t as int) =~= taken@);
        let mut out: Vec<(u32, String)> = Vec::new();
        let mut n: usize = 0;
        assert(roots@.take(0) =~= Seq::<u32>::empty());
        while n < roots.len()
            invariant
                bv == crate::game::games_view(bs@),
                bv == buckets_spec(sources@),
                pv == playing_view(playing@),
                roots@ == roots_spec(pv, tree@),
                n <= roots@.len(),
                (spoken@, home_view(out@)) == assign_state(
                    roots@.take(n as int),
                    taken@,
                    bv,
                    pv,
                    tree@,
                    self.previous@,
                    self.default_device@,
                ),
            decreases roots@.len() - n,
        {
            let r = roots[n];
            assert(roots@.take(n as int + 1).drop_last() =~= roots@.take(n as int));
            assert(roots@.take(n as int + 1).last() == r);
            if !is_covered(&spoken, tree, r) {
                let mut states: Vec<Option<bool>> = Vec::new();
                let mut b: usize = 0;
                while b < bs.len()
                    invariant
                        bv == crate::game::games_view(bs@),
                        pv == playing_view(playing@),
                        b <= bs@.len(),
                        states@ == states_for(bv, pv, tree@, r).take(b as int),
                    decreases bs@.len() - b,
                {
                    let st = state(playing, tree, bs[b].1.as_str(), r);
                    states.push(st);
                    assert(states_for(bv, pv, tree@, r).take(b as int + 1) =~= states_for(bv, pv, tree@, r).take(
                        b as int,
                    ).push(st));
                    b = b + 1;
                }
                assert(states_for(bv, pv, tree@, r).take(b as int) =~= states_for(bv, pv, tree@, r));
                let before = self.previous.get(&r);
                let ghost bf = crate::text::opt_string(match before { Some(x) => Some(*x), None => None });
                assert(bf == before_of(self.previous@, r));
                let dd = self.default_device.as_str();
                let pick = match pick_first(&bs, &states, Pick::Playing, before, dd) {
                    Some(i) => Some(i),
                    None => match pick_first(&bs, &states, Pick::Before, before, dd) {
                        Some(i) => Some(i),
                        None => match pick_first(&bs, &states, Pick::Default, before, dd) {
                            Some(i) => Some(i),
                            None => pick_first(&bs, &states, Pick::Anywhere, before, dd),
                        },
                    },
                };
                if let Some(i) = pick {
                    let ghost prev = out@;
                    spoken.push(r);
                    out.push((r, bs[i].0.clone()));
                    assert(home_view(out@) =~= home_view(prev).push((r, bv[i as int].0)));
                }
            }
            n = n + 1;
        }
        assert(roots@.take(n as int) =~= roots@);
        out
    }
}

} // verus!

verus! {

/// What one source already records, so the leftovers leave it out: the
/// detected game, or the live process of an application included by hand,
/// taken at its application's top.
pub open spec fn taken_by(s: AudioSource, game_pid: Option<u32>, tree: Map<u32, (u32, String)>) -> Seq<u32> {
    if !s.enabled {
        Seq::empty()
    } else {
        match s.kind {
            SourceKind::Game => match game_pid {
                Some(p) => seq![p],
                None => Seq::empty(),
            },
            SourceKind::Process { pid, exe, mode: ProcessMode::Include } => match live_pid_spec(
                tree,
                pid,
                crate::text::opt_string(exe),
            ) {
                Some(now) => seq![app_root_spec(tree, now)],
                None => Seq::empty(),
            },
            _ => Seq::empty(),
        }
    }
}

/// Everything another source records, and this program itself: playing a
/// clip back while the buffer runs must not end up in the next one.
pub open spec fn taken_spec(sources: Seq<AudioSource>, game_pid: Option<u32>, tree: Map<u32, (u32, String)>, own_pid: u32) -> Seq<
    u32,
>
    decreases sources.len(),
{
    if sources.len() == 0 {
        seq![own_pid]
    } else {
        taken_spec(sources.drop_last(), game_pid, tree, own_pid) + taken_by(sources.last(), game_pid, tree)
    }
}

/// A tap on one process for this source.
pub open spec fn tap(s: AudioSource, pid: u32) -> Stream {
    Stream { source_id: s.id, kind: SourceKind::Process { pid, exe: None, mode: ProcessMode::Include } }
}

/// The taps of the applications this source was handed.
pub open spec fn leftover_streams(home: Seq<(u32, Seq<char>)>, s: AudioSource) -> Seq<Stream>
    decreases home.len(),
{
    if home.len() == 0 {
        Seq::empty()
    } else {
        let before = leftover_streams(home.drop_last(), s);
        if home.last().1 == s.id@ {
            before.push(tap(s, home.last().0))
        } else {
            before
        }
    }
}

/// The streams one source turns into. The game is filled in from the live
/// detection and drops out without one; an output device turns into its
/// leftovers while anything is recorded application by application; an
/// application picked by hand follows its live process; anything else is
/// opened as it stands.
pub open spec fn streams_of(
    s: AudioSource,
    home: Seq<(u32, Seq<char>)>,
    game_pid: Option<u32>,
    leftovers_mode: bool,
    tree: Map<u32, (u32, String)>,
) -> Seq<Stream> {
    if !s.enabled {
        Seq::empty()
    } else {
        match s.kind {
            SourceKind::Game => match game_pid {
                Some(p) => seq![tap(s, p)],
                None => Seq::empty(),
            },
            SourceKind::OutputDevice { .. } => if leftovers_mode {
                leftover_streams(home, s)
            } else {
                seq![Stream { source_id: s.id, kind: s.kind }]
            },
            SourceKind::Leftovers => leftover_streams(home, s),
            SourceKind::Process { pid, exe, mode } => match live_pid_spec(tree, pid, crate::text::opt_string(exe)) {
                Some(now) => seq![Stream { source_id: s.id, kind: SourceKind::Process { pid: now, exe, mode } }],
                None => Seq::empty(),
            },
            _ => seq![Stream { source_id: s.id, kind: s.kind }],
        }
    }
}

pub open spec fn resolve_streams(
    sources: Seq<AudioSource>,
    home: Seq<(u32, Seq<char>)>,
    game_pid: Option<u32>,
    leftovers_mode: bool,
    tree: Map<u32, (u32, String)>,
) -> Seq<Stream>
    decreases sources.len(),
{
    if sources.len() == 0 {
        Seq::empty()
    } else {
        resolve_streams(sources.drop_last(), home, game_pid, leftovers_mode, tree) + streams_of(
            sources.last(),
            home,
            game_pid,
            leftovers_mode,
            tree,
        )
    }
}

/// The streams the stored sources turn into, given the detected game, what
/// plays where, the process tree, the last assignment and this program's own
/// pid.
pub open spec fn resolve_spec(
    sources: Seq<AudioSource>,
    game_pid: Option<u32>,
    playing: Seq<(Seq<char>, Seq<(u32, bool)>)>,
    tree: Map<u32, (u32, String)>,
    previous: Map<u32, String>,
    default_device: Seq<char>,
    own_pid: u32,
) -> Seq<Stream> {
    let taken = taken_spec(sources, game_pid, tree, own_pid);
    let home = assign_state(
        roots_spec(playing, tree),
        taken,
        buckets_spec(sources),
        playing,
        tree,
        previous,
        default_device,
    ).1;
    resolve_streams(sources, home, game_pid, records_single_spec(sources), tree)
}

fn taken_list(sources: &[AudioSource], game_pid: Option<u32>, tree: &HashMap<u32, (u32, String)>, own_pid: u32) -> (out:
    Vec<u32>)
    ensures
        out@ == taken_spec(sources@, game_pid, tree@, own_pid),
{
    let mut out: Vec<u32> = Vec::new();
    out.push(own_pid);
    let mut i: usize = 0;
    assert(sources@.take(0) =~= Seq::<AudioSource>::empty());
    while i < sources.len()
        invariant
            i <= sources@.len(),
            out@ == taken_spec(sources@.take(i as int), game_pid, tree@, own_pid),
        decreases sources@.len() - i,
    {
        assert(sources@.take(i as int + 1).drop_last() =~= sources@.take(i as int));
        let s = &sources[i];
        if s.enabled {
            match &s.kind {
                SourceKind::Game => {
                    if let Some(p) = game_pid {
                        out.push(p);
                    }
                },
                SourceKind::Process { pid, exe, mode: ProcessMode::Include } => {
                    let e = crate::text::as_text(exe);
                    if let Some(now) = live_pid(*pid, e, tree) {
                        out.push(app_root(now, tree));
                    }
                },
                _ => {},
            }
        }
        i = i + 1;
    }
    assert(sources@.take(i as int) =~= sources@);
    out
}

fn tap_of(s: &AudioSource, pid: u32) -> (t: Stream)
    ensures
        t == tap(*s, pid),
{
    Stream { source_id: s.id.clone(), kind: SourceKind::Process { pid, exe: None, mode: ProcessMode::Include } }
}

fn push_leftovers(out: &mut Vec<Stream>, home: &Vec<(u32, String)>, s: &AudioSource)
    ensures
        final(out)@ == old(out)@ + leftover_streams(home_view(home@), *s),
{
    let ghost start = out@;
    let ghost hv = home_view(home@);
    let mut k: usize = 0;
    assert(start + leftover_streams(hv.take(0), *s) =~= start);
    while k < home.len()
        invariant
            hv == home_view(home@),
            k <= home@.len(),
            out@ == start + leftover_streams(hv.take(k as int), *s),
        decreases home@.len() - k,
    {
        assert(hv.take(k as int + 1).drop_last() =~= hv.take(k as int));
        if same_text(home[k].1.as_str(), s.id.as_str()) {
            let ghost before = out@;
            out.push(tap_of(s, home[k].0));
            assert(out@ =~= before.push(tap(*s, hv[k as int].0)));
        }
        k = k + 1;
    }
    assert(hv.take(k as int) =~= hv);
}

/// Turns the stored, abstract sources into the streams the engine can open.
///
/// Windows has no "everything except these" tap, so the leftovers are
/// assembled from one tap per application that no other source records;
/// membership goes by descent, since a tap covers its target's children too.
pub fn resolve(
    sources: &[AudioSource],
    game_pid: Option<u32>,
    playing: &[(String, Vec<(u32, bool)>)],
    tree: &HashMap<u32, (u32, String)>,
    ledger: &Leftovers,
    own_pid: u32,
) -> (out: Vec<Stream>)
    ensures
        out@ == resolve_spec(
            sources@,
            game_pid,
            playing_view(playing@),
            tree@,
            ledger.previous@,
            ledger.default_device@,
            own_pid,
        ),
{
    let taken = taken_list(sources, game_pid, tree, own_pid);
    let leftovers_mode = records_single_applications(sources);
    let home = ledger.assign(sources, playing, tree, taken.as_slice());
    let ghost hv = home_view(home@);
    let mut out: Vec<Stream> = Vec::new();
    let mut i: usize = 0;
    assert(sources@.take(0) =~= Seq::<AudioSource>::empty());
    while i < sources.len()
        invariant
            hv == home_view(home@),
            leftovers_mode == records_single_spec(sources@),
            i <= sources@.len(),
            out@ == resolve_streams(sources@.take(i as int), hv, game_pid, leftovers_mode, tree@),
        decreases sources@.len() - i,
    {
        assert(sources@.take(i as int + 1).drop_last() =~= sources@.take(i as int));
        let s = &sources[i];
        let ghost before = out@;
        if s.enabled {
            match &s.kind {
                SourceKind::Game => {
                    if let Some(p) = game_pid {
                        out.push(tap_of(s, p));
                    }
                },
                SourceKind::OutputDevice { .. } => {
                    if leftovers_mode {
                        push_leftovers(&mut out, &home, s);
                    } else {
                        out.push(Stream { source_id: s.id.clone(), kind: s.kind.duplicate() });
                    }
                },
                SourceKind::Leftovers => {
                    push_leftovers(&mut out, &home, s);
                },
                SourceKind::Process { pid, exe, mode } => {
                    let e = crate::text::as_text(exe);
                    if let Some(now) = live_pid(*pid, e, tree) {
                        out.push(
                            Stream {
                                source_id: s.id.clone(),
                                kind: SourceKind::Process { pid: now, exe: crate::text::copy_opt(exe), mode: *mode },
                            },
                        );
                    }
                },
                _ => {
                    out.push(Stream { source_id: s.id.clone(), kind: s.kind.duplicate() });
                },
            }
        }
        assert(out@ =~= before + streams_of(sources@[i as int], hv, game_pid, leftovers_mode, tree@));
        i = i + 1;
    }
    assert(sources@.take(i as int) =~= sources@);
    out
}

} // verus!

verus! {

pub open spec fn assigned_pids(home: Seq<(u32, Seq<char>)>) -> Seq<u32> {
    home.map_values(|e: (u32, Seq<char>)| e.0)
}

proof fn lemma_assign_keeps_books(
    roots: Seq<u32>,
    taken: Seq<u32>,
    bs: Seq<(Seq<char>, Seq<char>)>,
    playing: Seq<(Seq<char>, Seq<(u32, bool)>)>,
    tree: Map<u32, (u32, String)>,
    previous: Map<u32, String>,
    default_device: Seq<char>,
)
    ensures
        ({
            let (spoken, home) = assign_state(roots, taken, bs, playing, tree, previous, default_device);
            &&& spoken == taken + assigned_pids(home)
            &&& forall|j: int|
                0 <= j < home.len() ==> !covered_spec(taken + assigned_pids(home.take(j)), tree, #[trigger] home[j].0)
        }),
    decreases roots.len(),
{
    if roots.len() > 0 {
        lemma_assign_keeps_books(roots.drop_last(), taken, bs, playing, tree, previous, default_device);
        let (sp0, h0) = assign_state(roots.drop_last(), taken, bs, playing, tree, previous, default_device);
        let (sp1, h1) = assign_state(roots, taken, bs, playing, tree, previous, default_device);
        let r = roots.last();
        if h1.len() > h0.len() {
            let i = owner_index(bs, states_for(bs, playing, tree, r), before_of(previous, r), default_device)->0;
            assert(h1 == h0.push((r, bs[i].0)));
            assert(assigned_pids(h1) =~= assigned_pids(h0).push(r));
            assert(taken + assigned_pids(h1) =~= (taken + assigned_pids(h0)).push(r));
            assert forall|j: int| 0 <= j < h1.len() implies !covered_spec(
                taken + assigned_pids(h1.take(j)),
                tree,
                #[trigger] h1[j].0,
            ) by {
                if j < h0.len() {
                    assert(h1.take(j) =~= h0.take(j));
                } else {
                    assert(h1.take(j) =~= h0);
                }
            }
        }
    }
}

/// The leftovers never put an application in the clip twice: none is handed
/// out whose own process, or an ancestor whose tap would cover it, is already
/// recorded by another source or was handed out before it.
pub proof fn law_nothing_is_recorded_twice(
    roots: Seq<u32>,
    taken: Seq<u32>,
    bs: Seq<(Seq<char>, Seq<char>)>,
    playing: Seq<(Seq<char>, Seq<(u32, bool)>)>,
    tree: Map<u32, (u32, String)>,
    previous: Map<u32, String>,
    default_device: Seq<char>,
)
    ensures
        ({
            let home = assign_state(roots, taken, bs, playing, tree, previous, default_device).1;
            &&& forall|j: int|
                0 <= j < home.len() ==> !taken.contains(#[trigger] home[j].0) && forall|k: int|
                    0 <= k < ancestors_spec(tree, home[j].0).len() ==> !taken.contains(
                        #[trigger] ancestors_spec(tree, home[j].0)[k],
                    )
            &&& forall|i: int, j: int|
                0 <= i < j < home.len() ==> #[trigger] home[i].0 != #[trigger] home[j].0 && forall|k: int|
                    0 <= k < ancestors_spec(tree, home[j].0).len() ==> ancestors_spec(tree, home[j].0)[k]
                        != home[i].0
        }),
{
    lemma_assign_keeps_books(roots, taken, bs, playing, tree, previous, default_device);
    let home = assign_state(roots, taken, bs, playing, tree, previous, default_device).1;
    assert forall|j: int| 0 <= j < home.len() implies !taken.contains(#[trigger] home[j].0) && forall|k: int|
        0 <= k < ancestors_spec(tree, home[j].0).len() ==> !taken.contains(
            #[trigger] ancestors_spec(tree, home[j].0)[k],
        ) by {
        let seen = taken + assigned_pids(home.take(j));
        assert(!covered_spec(seen, tree, home[j].0));
        assert forall|x: u32| taken.contains(x) implies seen.contains(x) by {
            let m = choose|m: int| 0 <= m < taken.len() && taken[m] == x;
            assert(seen[m] == x);
        }
    }
    assert forall|i: int, j: int| 0 <= i < j < home.len() implies #[trigger] home[i].0 != #[trigger] home[j].0
        && forall|k: int|
        0 <= k < ancestors_spec(tree, home[j].0).len() ==> ancestors_spec(tree, home[j].0)[k] != home[i].0 by {
        let seen = taken + assigned_pids(home.take(j));
        assert(!covered_spec(seen, tree, home[j].0));
        assert(seen[taken.len() + i] == home[i].0);
        assert(seen.contains(home[i].0));
        let anc = ancestors_spec(tree, home[j].0);
        assert forall|k: int| 0 <= k < anc.len() implies anc[k] != home[i].0 by {
            if anc[k] == home[i].0 {
                assert(seen.contains(anc[k]));
            }
        }
    }
}

} // verus!

verus! {

/// A rule that picks some bucket picks a first one.
proof fn lemma_first_pick_exists(
    bs: Seq<(Seq<char>, Seq<char>)>,
    states: Seq<Option<bool>>,
    p: Pick,
    before: Option<Seq<char>>,
    default_device: Seq<char>,
    i: int,
)
    requires
        0 <= i < bs.len(),
        picks(p, bs[i], states[i], before, default_device),
    ensures
        first_pick(bs, states, p, before, default_device) is Some,
    decreases i,
{
    if forall|j: int| 0 <= j < i ==> !picks(p, #[trigger] bs[j], states[j], before, default_device) {
        assert(is_first_pick(bs, states, p, before, default_device, i));
    } else {
        let j = choose|j: int| 0 <= j < i && picks(p, #[trigger] bs[j], states[j], before, default_device);
        lemma_first_pick_exists(bs, states, p, before, default_device, j);
    }
}

/// Where an application goes among the leftovers buckets, given whether it
/// has a session on each bucket's device (`Some`) and is rendering there
/// (`Some(true)`): it gets a bucket exactly when it has a session on one of
/// their devices, and only ever one where it has a session; where it is
/// audibly playing somewhere, it goes to a bucket where it is playing; where
/// it plays nowhere but still has a session on the device it was recorded
/// from before, it stays there.
pub proof fn law_an_application_with_a_session_gets_a_bucket(
    bs: Seq<(Seq<char>, Seq<char>)>,
    states: Seq<Option<bool>>,
    before: Option<Seq<char>>,
    default_device: Seq<char>,
)
    requires
        states.len() == bs.len(),
    ensures
        (exists|i: int| 0 <= i < bs.len() && (#[trigger] states[i]) is Some) <==> owner_index(
            bs,
            states,
            before,
            default_device,
        ) is Some,
        owner_index(bs, states, before, default_device) matches Some(k) ==> 0 <= k < bs.len() && states[k] is Some,
        (exists|i: int| 0 <= i < bs.len() && (#[trigger] states[i]) == Some(true)) ==> (owner_index(
            bs,
            states,
            before,
            default_device,
        ) matches Some(k) && states[k] == Some(true)),
        (!exists|i: int| 0 <= i < bs.len() && (#[trigger] states[i]) == Some(true)) && (exists|i: int|
            0 <= i < bs.len() && before == Some((#[trigger] bs[i]).0) && states[i] is Some) ==> (owner_index(
            bs,
            states,
            before,
            default_device,
        ) matches Some(k) && before == Some(bs[k].0)),
{
    let o = owner_index(bs, states, before, default_device);
    let fp = first_pick(bs, states, Pick::Playing, before, default_device);
    let fb = first_pick(bs, states, Pick::Before, before, default_device);
    let fd = first_pick(bs, states, Pick::Default, before, default_device);
    let fa = first_pick(bs, states, Pick::Anywhere, before, default_device);
    if let Some(k) = fp {
        assert(is_first_pick(bs, states, Pick::Playing, before, default_device, k));
    }
    if let Some(k) = fb {
        assert(is_first_pick(bs, states, Pick::Before, before, default_device, k));
    }
    if let Some(k) = fd {
        assert(is_first_pick(bs, states, Pick::Default, before, default_device, k));
    }
    if let Some(k) = fa {
        assert(is_first_pick(bs, states, Pick::Anywhere, before, default_device, k));
    }
    if exists|i: int| 0 <= i < bs.len() && (#[trigger] states[i]) is Some {
        let i = choose|i: int| 0 <= i < bs.len() && (#[trigger] states[i]) is Some;
        assert(picks(Pick::Anywhere, bs[i], states[i], before, default_device));
        lemma_first_pick_exists(bs, states, Pick::Anywhere, before, default_device, i);
    }
    if exists|i: int| 0 <= i < bs.len() && (#[trigger] states[i]) == Some(true) {
        let i = choose|i: int| 0 <= i < bs.len() && (#[trigger] states[i]) == Some(true);
        assert(picks(Pick::Playing, bs[i], states[i], before, default_device));
        lemma_first_pick_exists(bs, states, Pick::Playing, before, default_device, i);
    } else {
        assert(fp is None) by {
            if let Some(k) = fp {
                assert(states[k] == Some(true));
            }
        }
        if exists|i: int| 0 <= i < bs.len() && before == Some((#[trigger] bs[i]).0) && states[i] is Some {
            let i = choose|i: int| 0 <= i < bs.len() && before == Some((#[trigger] bs[i]).0) && states[i] is Some;
            assert(picks(Pick::Before, bs[i], states[i], before, default_device));
            lemma_first_pick_exists(bs, states, Pick::Before, before, default_device, i);
        }
    }
}

proof fn lemma_covered_stays(spoken: Seq<u32>, tree: Map<u32, (u32, String)>, r: u32, x: u32)
    requires
        covered_spec(spoken, tree, r),
    ensures
        covered_spec(spoken.push(x), tree, r),
{
    let anc = ancestors_spec(tree, r);
    if spoken.contains(r) {
        let w = choose|w: int| 0 <= w < spoken.len() && spoken[w] == r;
        assert(spoken.push(x)[w] == r);
    } else {
        let k = choose|k: int| 0 <= k < anc.len() && spoken.contains(#[trigger] anc[k]);
        let w = choose|w: int| 0 <= w < spoken.len() && spoken[w] == anc[k];
        assert(spoken.push(x)[w] == anc[k]);
        assert(spoken.push(x).contains(anc[k]));
    }
}

/// Does the application have a session on the device of one of the buckets?
pub open spec fn has_bucket_session(
    bs: Seq<(Seq<char>, Seq<char>)>,
    playing: Seq<(Seq<char>, Seq<(u32, bool)>)>,
    tree: Map<u32, (u32, String)>,
    r: u32,
) -> bool {
    exists|i: int| 0 <= i < bs.len() && (#[trigger] state_spec(playing, tree, bs[i].1, r)) is Some
}

/// The leftovers leave no application out and put none where it is not:
/// the applications spoken for afterwards are those taken before and the
/// ones just assigned; every application with a session on the device of a
/// leftovers bucket ends up recorded, by a tap on it or on one of its
/// parents; and each assigned application goes to a bucket on whose device
/// it has a session.
pub proof fn law_every_application_with_a_session_is_recorded(
    roots: Seq<u32>,
    taken: Seq<u32>,
    bs: Seq<(Seq<char>, Seq<char>)>,
    playing: Seq<(Seq<char>, Seq<(u32, bool)>)>,
    tree: Map<u32, (u32, String)>,
    previous: Map<u32, String>,
    default_device: Seq<char>,
)
    ensures
        ({
            let st = assign_state(roots, taken, bs, playing, tree, previous, default_device);
            &&& st.0 == taken + st.1.map_values(|e: (u32, Seq<char>)| e.0)
            &&& forall|k: int|
                0 <= k < roots.len() && has_bucket_session(bs, playing, tree, #[trigger] roots[k]) ==> covered_spec(
                    st.0,
                    tree,
                    roots[k],
                )
            &&& forall|m: int|
                0 <= m < st.1.len() ==> exists|i: int|
                    0 <= i < bs.len() && bs[i].0 == (#[trigger] st.1[m]).1 && state_spec(
                        playing,
                        tree,
                        bs[i].1,
                        st.1[m].0,
                    ) is Some
        }),
    decreases roots.len(),
{
    let st = assign_state(roots, taken, bs, playing, tree, previous, default_device);
    if roots.len() == 0 {
        assert(st.1.map_values(|e: (u32, Seq<char>)| e.0) =~= Seq::<u32>::empty());
        assert(taken + Seq::<u32>::empty() =~= taken);
    } else {
        let rest = roots.drop_last();
        let r = roots.last();
        law_every_application_with_a_session_is_recorded(rest, taken, bs, playing, tree, previous, default_device);
        let prev = assign_state(rest, taken, bs, playing, tree, previous, default_device);
        let states = states_for(bs, playing, tree, r);
        let bf = before_of(previous, r);
        law_an_application_with_a_session_gets_a_bucket(bs, states, bf, default_device);
        let fresh = !covered_spec(prev.0, tree, r) && owner_index(bs, states, bf, default_device) is Some;
        if fresh {
            let i = owner_index(bs, states, bf, default_device)->0;
            assert(st == (prev.0.push(r), prev.1.push((r, bs[i].0))));
            assert(st.1.map_values(|e: (u32, Seq<char>)| e.0) =~= prev.1.map_values(|e: (u32, Seq<char>)| e.0).push(
                r,
            ));
            assert(st.0 =~= taken + st.1.map_values(|e: (u32, Seq<char>)| e.0));
            assert forall|m: int| 0 <= m < st.1.len() implies exists|j: int|
                0 <= j < bs.len() && bs[j].0 == (#[trigger] st.1[m]).1 && state_spec(
                    playing,
                    tree,
                    bs[j].1,
                    st.1[m].0,
                ) is Some by {
                if m < prev.1.len() {
                    assert(st.1[m] == prev.1[m]);
                } else {
                    assert(st.1[m] == (r, bs[i].0));
                    assert(states[i] == state_spec(playing, tree, bs[i].1, r));
                }
            }
        } else {
            assert(st == prev);
        }
        assert forall|k: int|
            0 <= k < roots.len() && has_bucket_session(bs, playing, tree, #[trigger] roots[k]) implies covered_spec(
            st.0,
            tree,
            roots[k],
        ) by {
            if k < rest.len() {
                assert(rest[k] == roots[k]);
                if fresh {
                    lemma_covered_stays(prev.0, tree, roots[k], r);
                }
            } else {
                assert(roots[k] == r);
                if !covered_spec(prev.0, tree, r) {
                    let i = choose|i: int| 0 <= i < bs.len() && (#[trigger] state_spec(playing, tree, bs[i].1, r)) is Some;
                    assert(states[i] is Some);
                    assert(fresh);
                    assert(st.0 == prev.0.push(r));
                    assert(st.0[st.0.len() - 1] == r);
                    assert(st.0.contains(r));
                }
            }
        }
    }
}

} // verus!
