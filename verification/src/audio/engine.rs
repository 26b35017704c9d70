//! What tells one running audio source from another.
use vstd::prelude::*;
use crate::model::{AudioSource, ProcessMode, SourceKind};
use crate::text::{decimal, is_digit, lemma_decimal_digits, lemma_decimal_injective, push_decimal, push_str, same_text};

verus! {

pub open spec fn mode_name(mode: ProcessMode) -> Seq<char> {
    match mode {
        ProcessMode::Include => "Include"@,
        ProcessMode::Exclude => "Exclude"@,
    }
}

/// What a source is, as far as a running stream is concerned. A stream is
/// restarted exactly when this changes.
pub open spec fn fingerprint_spec(kind: SourceKind) -> Seq<char> {
    match kind {
        SourceKind::InputDevice { device_id } => "in:"@ + device_id@,
        SourceKind::OutputDevice { device_id, exclude_game } => if exclude_game {
            "out:"@ + device_id@ + ":without-game"@
        } else {
            "out:"@ + device_id@
        },
        SourceKind::Process { pid, mode, .. } => "proc:"@ + decimal(pid as nat) + ":"@ + mode_name(mode),
        SourceKind::Game => "game:unresolved"@,
        SourceKind::Leftovers => "leftovers:unresolved"@,
    }
}

/// The identity of a source. An output device without the game excluded keeps
/// the string it always had, so an existing source is not restarted merely
/// because the flag exists.
pub fn fingerprint(kind: &SourceKind) -> (f: String)
    ensures
        f@ == fingerprint_spec(*kind),
{
    match kind {
        SourceKind::InputDevice { device_id } => {
            let mut f = String::from_str("in:");
            push_str(&mut f, device_id.as_str());
            f
        },
        SourceKind::OutputDevice { device_id, exclude_game } => {
            let mut f = String::from_str("out:");
            push_str(&mut f, device_id.as_str());
            if *exclude_game {
                push_str(&mut f, ":without-game");
            }
            f
        },
        SourceKind::Process { pid, mode, .. } => {
            let mut f = String::from_str("proc:");
            push_decimal(&mut f, *pid as u64);
            push_str(&mut f, ":");
            match mode {
                ProcessMode::Include => push_str(&mut f, "Include"),
                ProcessMode::Exclude => push_str(&mut f, "Exclude"),
            }
            f
        },
        // Never reached once the sources are resolved.
        SourceKind::Game => String::from_str("game:unresolved"),
        SourceKind::Leftovers => String::from_str("leftovers:unresolved"),
    }
}

/// Following the game rests on this: another process, or the same process in
/// the other loopback mode, always looks different.
pub proof fn law_a_different_process_looks_different(p1: u32, m1: ProcessMode, p2: u32, m2: ProcessMode)
    requires
        p1 != p2 || m1 != m2,
    ensures
        "proc:"@ + decimal(p1 as nat) + ":"@ + mode_name(m1) != "proc:"@ + decimal(p2 as nat) + ":"@
            + mode_name(m2),
{
    reveal_strlit("proc:");
    reveal_strlit(":");
    reveal_strlit("Include");
    reveal_strlit("Exclude");
    let d1 = decimal(p1 as nat);
    let d2 = decimal(p2 as nat);
    let a = "proc:"@ + d1 + ":"@ + mode_name(m1);
    let b = "proc:"@ + d2 + ":"@ + mode_name(m2);
    if a == b {
        lemma_decimal_digits(p1 as nat);
        lemma_decimal_digits(p2 as nat);
        if d1.len() < d2.len() {
            assert(a[5 + d1.len() as int] == ':');
            assert(b[5 + d1.len() as int] == d2[d1.len() as int]);
            assert(is_digit(d2[d1.len() as int]));
        } else if d2.len() < d1.len() {
            assert(b[5 + d2.len() as int] == ':');
            assert(a[5 + d2.len() as int] == d1[d2.len() as int]);
            assert(is_digit(d1[d2.len() as int]));
        } else {
            assert forall|i: int| 0 <= i < d1.len() implies d1[i] == d2[i] by {
                assert(a[5 + i] == b[5 + i]);
            }
            assert(d1 =~= d2);
            lemma_decimal_injective(p1 as nat, p2 as nat);
            assert(a[6 + d1.len() as int] == b[6 + d1.len() as int]);
        }
    }
}


/// Is source `i` one a stream is wanted for, under this id?
pub open spec fn wanted_as(sources: Seq<AudioSource>, i: int, id: Seq<char>) -> bool {
    sources[i].enabled && sources[i].id@ == id
}

/// The first switched-on source with this id, if there is one.
pub open spec fn first_wanted(sources: Seq<AudioSource>, id: Seq<char>) -> Option<int> {
    if exists|i: int| 0 <= i < sources.len() && wanted_as(sources, i, id) {
        Some(
            choose|i: int|
                0 <= i < sources.len() && wanted_as(sources, i, id) && forall|j: int|
                    0 <= j < i ==> !wanted_as(sources, j, id),
        )
    } else {
        None
    }
}

/// A running stream has to stop when no switched-on source has its id any
/// more, or when that source now stands for something else.
pub open spec fn stale(sources: Seq<AudioSource>, id: Seq<char>, fingerprint: Seq<char>) -> bool {
    match first_wanted(sources, id) {
        Some(i) => fingerprint_spec(sources[i].kind) != fingerprint,
        None => true,
    }
}

/// A switched-on source needs a stream started when none of the streams that
/// keep running has its id.
pub open spec fn starts(running: Seq<(Seq<char>, Seq<char>)>, sources: Seq<AudioSource>, i: int) -> bool {
    &&& sources[i].enabled
    &&& !exists|k: int|
        0 <= k < running.len() && !stale(sources, running[k].0, running[k].1) && #[trigger] running[k].0
            == sources[i].id@
}

pub open spec fn running_view(running: Seq<(String, String)>) -> Seq<(Seq<char>, Seq<char>)> {
    Seq::new(running.len(), |k: int| (running[k].0@, running[k].1@))
}

fn first_wanted_at(sources: &[AudioSource], id: &str) -> (r: Option<usize>)
    ensures
        match r {
            Some(i) => i < sources@.len() && first_wanted(sources@, id@) == Some(i as int),
            None => first_wanted(sources@, id@) is None,
        },
{
    let mut i: usize = 0;
    while i < sources.len()
        invariant
            i <= sources@.len(),
            forall|j: int| 0 <= j < i ==> !wanted_as(sources@, j, id@),
        decreases sources@.len() - i,
    {
        if sources[i].enabled && same_text(sources[i].id.as_str(), id) {
            proof {
                assert(wanted_as(sources@, i as int, id@));
                let c = choose|c: int|
                    0 <= c < sources@.len() && wanted_as(sources@, c, id@) && forall|j: int|
                        0 <= j < c ==> !wanted_as(sources@, j, id@);
                assert(c == i as int) by {
                    if c < i {
                        assert(!wanted_as(sources@, c, id@));
                    }
                    if c > i {
                        assert(!wanted_as(sources@, i as int, id@));
                    }
                }
            }
            return Some(i);
        }
        i = i + 1;
    }
    None
}

/// How the running streams are brought in line with the configured sources:
/// which of them stop (`stop[k]` for `running[k]`, given as source id and
/// fingerprint) and which sources get a stream started (`start[i]` for
/// `sources[i]`). Level, mute and solo change nothing here; they only act
/// while mixing.
pub fn stream_changes(running: &[(String, String)], sources: &[AudioSource]) -> (r: (Vec<bool>, Vec<bool>))
    ensures
        r.0@.len() == running@.len(),
        forall|k: int|
            0 <= k < running@.len() ==> r.0@[k] == stale(sources@, running@[k].0@, running@[k].1@),
        r.1@.len() == sources@.len(),
        forall|i: int| 0 <= i < sources@.len() ==> r.1@[i] == starts(running_view(running@), sources@, i),
{
    let ghost rv = running_view(running@);
    let mut stop: Vec<bool> = Vec::new();
    let mut k: usize = 0;
    while k < running.len()
        invariant
            k <= running@.len(),
            stop@.len() == k,
            forall|j: int| 0 <= j < k ==> stop@[j] == stale(sources@, running@[j].0@, running@[j].1@),
        decreases running@.len() - k,
    {
        let id = running[k].0.as_str();
        let gone = match first_wanted_at(sources, id) {
            Some(i) => {
                let now = fingerprint(&sources[i].kind);
                !same_text(now.as_str(), running[k].1.as_str())
            },
            None => true,
        };
        stop.push(gone);
        k = k + 1;
    }
    let mut start: Vec<bool> = Vec::new();
    let mut i: usize = 0;
    while i < sources.len()
        invariant
            i <= sources@.len(),
            start@.len() == i,
            rv == running_view(running@),
            stop@.len() == running@.len(),
            forall|j: int| 0 <= j < running@.len() ==> stop@[j] == stale(sources@, running@[j].0@, running@[j].1@),
            forall|j: int| 0 <= j < i ==> start@[j] == starts(rv, sources@, j),
        decreases sources@.len() - i,
    {
        let mut kept = false;
        if sources[i].enabled {
            let mut k: usize = 0;
            while k < running.len()
                invariant
                    k <= running@.len(),
                    i < sources@.len(),
                    rv == running_view(running@),
                    stop@.len() == running@.len(),
                    forall|j: int|
                        0 <= j < running@.len() ==> stop@[j] == stale(sources@, running@[j].0@, running@[j].1@),
                    !kept ==> forall|j: int|
                        0 <= j < k ==> !(!stale(sources@, rv[j].0, rv[j].1) && rv[j].0 == sources@[i as int].id@),
                    kept ==> exists|j: int|
                        0 <= j < running@.len() && !stale(sources@, rv[j].0, rv[j].1) && #[trigger] rv[j].0
                            == sources@[i as int].id@,
                decreases running@.len() - k,
            {
                if !kept && !stop[k] && same_text(running[k].0.as_str(), sources[i].id.as_str()) {
                    kept = true;
                    proof {
                        assert(rv[k as int].0 == running@[k as int].0@);
                        assert(rv[k as int].1 == running@[k as int].1@);
                    }
                }
                k = k + 1;
            }
            proof {
                if !kept {
                    assert forall|j: int| 0 <= j < running@.len() implies !(!stale(sources@, rv[j].0, rv[j].1) && #[trigger] rv[j].0 == sources@[i as int].id@) by {
                        assert(!(!stale(sources@, rv[j].0, rv[j].1) && rv[j].0 == sources@[i as int].id@));
                    }
                }
            }
        }
        start.push(sources[i].enabled && !kept);
        i = i + 1;
    }
    (stop, start)
}

/// Level, mute, solo and the separate track only act while mixing: two
/// source lists that differ in nothing else stop and start the same streams.
pub proof fn law_mixing_settings_leave_the_streams_alone(
    running: Seq<(Seq<char>, Seq<char>)>,
    a: Seq<AudioSource>,
    b: Seq<AudioSource>,
)
    requires
        a.len() == b.len(),
        forall|i: int|
            0 <= i < a.len() ==> (#[trigger] a[i]).id == b[i].id && a[i].kind == b[i].kind && a[i].enabled
                == b[i].enabled,
    ensures
        forall|id: Seq<char>, fp: Seq<char>| #[trigger] stale(a, id, fp) == stale(b, id, fp),
        forall|i: int| 0 <= i < a.len() ==> #[trigger] starts(running, a, i) == starts(running, b, i),
{
    assert forall|id: Seq<char>| #[trigger] first_wanted(a, id) == first_wanted(b, id) by {
        assert forall|i: int| 0 <= i < a.len() implies wanted_as(a, i, id) == wanted_as(b, i, id) by {
            assert(a[i].id == b[i].id);
        }
        if exists|i: int| 0 <= i < a.len() && wanted_as(a, i, id) {
            let w = choose|i: int| 0 <= i < a.len() && wanted_as(a, i, id);
            assert(wanted_as(b, w, id));
            let x = choose|i: int|
                0 <= i < a.len() && wanted_as(a, i, id) && forall|j: int| 0 <= j < i ==> !wanted_as(a, j, id);
            let y = choose|i: int|
                0 <= i < b.len() && wanted_as(b, i, id) && forall|j: int| 0 <= j < i ==> !wanted_as(b, j, id);
            lemma_first_exists(a, id);
            lemma_first_exists(b, id);
            if x < y {
                assert(!wanted_as(b, x, id));
            }
            if y < x {
                assert(!wanted_as(a, y, id));
            }
        } else {
            assert forall|i: int| 0 <= i < b.len() implies !wanted_as(b, i, id) by {
                assert(!wanted_as(a, i, id));
            }
        }
    }
    assert forall|id: Seq<char>, fp: Seq<char>| #[trigger] stale(a, id, fp) == stale(b, id, fp) by {
        assert(first_wanted(a, id) == first_wanted(b, id));
        match first_wanted(a, id) {
            Some(i) => {
                lemma_first_exists(a, id);
                assert(a[i].kind == b[i].kind);
            },
            None => {},
        }
    }
    assert forall|i: int| 0 <= i < a.len() implies #[trigger] starts(running, a, i) == starts(running, b, i) by {
        assert(a[i].id == b[i].id);
        assert forall|k: int| 0 <= k < running.len() implies stale(a, running[k].0, running[k].1) == stale(
            b,
            running[k].0,
            running[k].1,
        ) by {}
    }
}

/// Where a switched-on source with the id is, the first of them is one.
proof fn lemma_first_exists(sources: Seq<AudioSource>, id: Seq<char>)
    requires
        exists|i: int| 0 <= i < sources.len() && wanted_as(sources, i, id),
    ensures
        first_wanted(sources, id) matches Some(k) && 0 <= k < sources.len() && wanted_as(sources, k, id)
            && forall|j: int| 0 <= j < k ==> !wanted_as(sources, j, id),
{
    let w = choose|i: int| 0 <= i < sources.len() && wanted_as(sources, i, id);
    lemma_least_wanted(sources, id, w);
}

proof fn lemma_least_wanted(sources: Seq<AudioSource>, id: Seq<char>, w: int)
    requires
        0 <= w < sources.len(),
        wanted_as(sources, w, id),
    ensures
        exists|k: int|
            0 <= k < sources.len() && wanted_as(sources, k, id) && forall|j: int|
                0 <= j < k ==> !wanted_as(sources, j, id),
    decreases w,
{
    if exists|j: int| 0 <= j < w && wanted_as(sources, j, id) {
        let j = choose|j: int| 0 <= j < w && wanted_as(sources, j, id);
        lemma_least_wanted(sources, id, j);
    } else {
        assert(forall|j: int| 0 <= j < w ==> !wanted_as(sources, j, id));
    }
}

} // verus!
