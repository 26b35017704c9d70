//! What the start-up report says when audio sources are in trouble.
//!
//! A source that will not start at all outranks one that merely records
//! something other than its label promises. The sources are named by their
//! labels, in order, in one line: the mixer has the details, and a banner per
//! source over a game would be worse than the problem.
use vstd::prelude::*;
use crate::game::games_view;
use crate::model::AudioSource;
use crate::text::{distinct, distinct_texts, listed, push_str, same_text, sort_texts, sorted_texts};

verus! {

/// The heading when a source could not be started.
pub const NOT_RECORDING: &'static str = "Audio source not recording";

/// The heading when sources run, but not as their labels say.
pub const CHECK_SOURCES: &'static str = "Check the audio sources";

/// What follows the names.
pub const SEE_THE_MIXER: &'static str = " — see the mixer";

/// What stands between two names.
pub const SEPARATOR: &'static str = ", ";

/// Where the first source with this id stands.
pub open spec fn first_with_id(sources: Seq<AudioSource>, id: Seq<char>) -> Option<int> {
    if exists|i: int| 0 <= i < sources.len() && sources[i].id@ == id {
        Some(
            choose|i: int|
                0 <= i < sources.len() && sources[i].id@ == id && forall|j: int|
                    0 <= j < i ==> sources[j].id@ != id,
        )
    } else {
        None
    }
}

/// How a source is named: the label of the first source with its id, or the
/// id itself when no source has it.
pub open spec fn label_of(sources: Seq<AudioSource>, id: Seq<char>) -> Seq<char> {
    match first_with_id(sources, id) {
        Some(i) => sources[i].label@,
        None => id,
    }
}

/// Is this the id of a source that follows the game? What is said about
/// those (no game yet, mostly) is for the mixer, not for a toast at start.
pub open spec fn follows_game(sources: Seq<AudioSource>, id: Seq<char>) -> bool {
    exists|i: int| 0 <= i < sources.len() && sources[i].id@ == id && (#[trigger] sources[i]).kind is Game
}

/// The sources with a warning that counts, each once.
pub open spec fn noted_ids(sources: Seq<AudioSource>, warnings: Seq<(Seq<char>, Seq<char>)>) -> Seq<Seq<char>> {
    distinct_texts(warnings.map_values(|w: (Seq<char>, Seq<char>)| w.0).filter(|id: Seq<char>| !follows_game(sources, id)))
}

/// The names in one line.
pub open spec fn joined(names: Seq<Seq<char>>) -> Seq<char>
    decreases names.len(),
{
    if names.len() == 0 {
        Seq::empty()
    } else if names.len() == 1 {
        names[0]
    } else {
        joined(names.drop_last()) + SEPARATOR@ + names.last()
    }
}

pub open spec fn names_of(sources: Seq<AudioSource>, ids: Seq<Seq<char>>) -> Seq<Seq<char>> {
    ids.map_values(|id: Seq<char>| label_of(sources, id))
}

fn game_source(sources: &[AudioSource], id: &str) -> (b: bool)
    ensures
        b == follows_game(sources@, id@),
{
    let mut i: usize = 0;
    while i < sources.len()
        invariant
            i <= sources@.len(),
            forall|j: int| 0 <= j < i ==> !(sources@[j].id@ == id@ && (#[trigger] sources@[j]).kind is Game),
        decreases sources@.len() - i,
    {
        if matches!(sources[i].kind, crate::model::SourceKind::Game) && same_text(sources[i].id.as_str(), id) {
            return true;
        }
        i = i + 1;
    }
    false
}

fn noted(sources: &[AudioSource], warnings: &[(String, String)]) -> (out: Vec<String>)
    ensures
        out.deep_view() == noted_ids(sources@, games_view(warnings@)),
{
    let ghost ids = games_view(warnings@).map_values(|w: (Seq<char>, Seq<char>)| w.0);
    let ghost pred = |id: Seq<char>| !follows_game(sources@, id);
    let mut out: Vec<String> = Vec::new();
    let mut i: usize = 0;
    while i < warnings.len()
        invariant
            i <= warnings@.len(),
            ids == games_view(warnings@).map_values(|w: (Seq<char>, Seq<char>)| w.0),
            pred == (|id: Seq<char>| !follows_game(sources@, id)),
            out.deep_view() == distinct_texts(ids.take(i as int).filter(pred)),
        decreases warnings@.len() - i,
    {
        let id = warnings[i].0.as_str();
        assert(ids.take(i as int + 1) =~= ids.take(i as int).push(id@));
        proof {
            ids.take(i as int).lemma_filter_push(id@, pred);
        }
        if !game_source(sources, id) {
            let ghost f = ids.take(i as int).filter(pred);
            assert(f.push(id@).drop_last() =~= f);
            if !listed(&out, id) {
                out.push(String::from_str(id));
            }
        }
        i = i + 1;
    }
    assert(ids.take(i as int) =~= ids);
    out
}

fn label(sources: &[AudioSource], id: &str) -> (l: String)
    ensures
        l@ == label_of(sources@, id@),
{
    let mut i: usize = 0;
    while i < sources.len()
        invariant
            i <= sources@.len(),
            forall|j: int| 0 <= j < i ==> sources@[j].id@ != id@,
        decreases sources@.len() - i,
    {
        if same_text(sources[i].id.as_str(), id) {
            proof {
                let c = choose|c: int|
                    0 <= c < sources@.len() && sources@[c].id@ == id@ && forall|j: int|
                        0 <= j < c ==> sources@[j].id@ != id@;
                assert(c == i as int) by {
                    if c < i {
                        assert(sources@[c].id@ != id@);
                    }
                    if c > i {
                        assert(sources@[i as int].id@ == id@);
                    }
                }
            }
            return String::from_str(sources[i].label.as_str());
        }
        i = i + 1;
    }
    String::from_str(id)
}

fn join(names: &Vec<String>) -> (line: String)
    ensures
        line@ == joined(names.deep_view()),
{
    let mut line = String::new();
    let mut i: usize = 0;
    while i < names.len()
        invariant
            i <= names@.len(),
            line@ == joined(names.deep_view().take(i as int)),
        decreases names@.len() - i,
    {
        let ghost before = names.deep_view().take(i as int);
        assert(names.deep_view().take(i as int + 1).drop_last() =~= before);
        if i > 0 {
            push_str(&mut line, SEPARATOR);
        }
        push_str(&mut line, names[i].as_str());
        proof {
            if i == 0 {
                assert(line@ =~= names.deep_view().take(1)[0]);
            }
        }
        i = i + 1;
    }
    assert(names.deep_view().take(i as int) =~= names.deep_view());
    line
}

/// The report on the audio sources: a heading and one line naming them, or
/// nothing when there is nothing to say. `failed` holds the ids of the
/// sources that could not be started; `warnings` what the configuration
/// check found, as source id and message.
pub fn audio_report(sources: &[AudioSource], failed: &[String], warnings: &[(String, String)]) -> (r: Option<
    (String, String),
>)
    ensures
        ({
            let errs = distinct_texts(failed.deep_view());
            let notes = noted_ids(sources@, games_view(warnings@));
            match r {
                None => errs.len() == 0 && notes.len() == 0,
                Some((heading, line)) => {
                    let ids = if errs.len() > 0 {
                        errs
                    } else {
                        notes
                    };
                    &&& ids.len() > 0
                    &&& heading@ == (if errs.len() > 0 {
                        NOT_RECORDING@
                    } else {
                        CHECK_SOURCES@
                    })
                    &&& exists|names: Seq<Seq<char>>|
                        sorted_texts(names) && names.to_multiset() == names_of(sources@, ids).to_multiset()
                            && line@ == joined(names) + SEE_THE_MIXER@
                }
            }
        }),
{
    let errs = distinct(failed);
    let (heading, ids) = if errs.len() > 0 {
        (NOT_RECORDING, errs)
    } else {
        let notes = noted(sources, warnings);
        if notes.len() == 0 {
            return None;
        }
        (CHECK_SOURCES, notes)
    };
    let mut names: Vec<String> = Vec::new();
    let mut i: usize = 0;
    while i < ids.len()
        invariant
            i <= ids@.len(),
            names.deep_view() == names_of(sources@, ids.deep_view()).take(i as int),
        decreases ids@.len() - i,
    {
        let l = label(sources, ids[i].as_str());
        let ghost before = names.deep_view();
        names.push(l);
        assert(ids.deep_view()[i as int] == ids@[i as int]@);
        assert(names.deep_view() =~= before.push(l@));
        assert(names.deep_view() =~= names_of(sources@, ids.deep_view()).take(i as int + 1));
        i = i + 1;
    }
    assert(names.deep_view() =~= names_of(sources@, ids.deep_view()));
    let sorted = sort_texts(&names);
    let mut line = join(&sorted);
    push_str(&mut line, SEE_THE_MIXER);
    Some((String::from_str(heading), line))
}

} // verus!
