//! Where a clip file sits inside the clip folder.
//!
//! One folder per game, favorites in their own, anything without a game stays
//! directly in the clip folder; and in each of those, the kind splits the
//! files once more. The database remains the truth about a clip: the folder is
//! only the order seen in a file browser. Only what lies in the configured
//! clip folder is ever moved.
use vstd::prelude::*;
use crate::game::{normalize_name, normalize_spec, squash, strip_spec, strip_invisibles};
use crate::model::ClipKind;
use crate::text::{chars_of, decimal, opt_text, push_char, push_decimal, push_str, same_text, string_of};

verus! {

/// Folder for the clips marked with a heart.
pub const FAVORITES: &'static str = "Favorites";

/// The bottom level is always the kind, so that a game folder does not mix
/// clips, stills and hour-long recordings.
pub const VIDEOS: &'static str = "Videos";

pub const SCREENSHOTS: &'static str = "Screenshots";

pub const RECORDINGS: &'static str = "Recordings";

/// Device names Windows keeps for itself, unusable as a folder name.
pub const RESERVED: [&'static str; 6] = ["CON", "PRN", "AUX", "NUL", "COM", "LPT"];

/// A folder name gets no longer than this many characters: names that come
/// from window titles can be whole sentences.
pub const MAX_LEN: usize = 60;

/// Characters Windows does not allow in a folder name, and control
/// characters.
pub open spec fn is_forbidden(c: char) -> bool {
    c == '<' || c == '>' || c == ':' || c == '"' || c == '/' || c == '\\' || c == '|' || c == '?' || c == '*'
        || (c as u32) < 0x20
}

pub open spec fn blank_forbidden(s: Seq<char>) -> Seq<char> {
    Seq::new(s.len(), |i: int| if is_forbidden(s[i]) { ' ' } else { s[i] })
}

/// At most `n` characters.
pub open spec fn cut_to(s: Seq<char>, n: int) -> Seq<char> {
    if s.len() > n { s.take(n) } else { s }
}

/// Without dots and plain spaces at the end: Windows tolerates neither.
pub open spec fn trim_end_dots(s: Seq<char>) -> Seq<char>
    decreases s.len(),
{
    if s.len() > 0 && (s.last() == '.' || s.last() == ' ') {
        trim_end_dots(s.drop_last())
    } else {
        s
    }
}

/// The part of a name before its first dot.
pub open spec fn stem(s: Seq<char>) -> Seq<char> {
    if exists|i: int| 0 <= i < s.len() && s[i] == '.' {
        s.take(choose|i: int| 0 <= i < s.len() && s[i] == '.' && forall|j: int| 0 <= j < i ==> s[j] != '.')
    } else {
        s
    }
}

pub open spec fn upper_ascii(c: char) -> char {
    if 'a' <= c && c <= 'z' {
        ((c as u32) - 32) as char
    } else {
        c
    }
}

/// A name with its ASCII letters in upper case.
pub open spec fn ascii_upper(s: Seq<char>) -> Seq<char> {
    Seq::new(s.len(), |i: int| upper_ascii(s[i]))
}

/// A device name, or a device name with one digit after it: `CON`, `COM1`.
pub open spec fn is_reserved(stem: Seq<char>) -> bool {
    exists|k: int|
        0 <= k < 6 && {
            let word = #[trigger] RESERVED@[k]@;
            ||| stem == word
            ||| stem.len() == word.len() + 1 && crate::text::starts_with(stem, word) && crate::game::is_ascii_digit(
                stem.last(),
            )
        }
}

/// A game name as a folder name Windows will accept. Invisible characters
/// come out entirely (a zero-width space sits inside a word, and a space
/// there would split it); forbidden characters become spaces; white space
/// collapses; the name is cut to its first sixty characters; dots and spaces
/// at the end go; a device name gets an underscore in front. `None` when
/// nothing usable is left.
pub open spec fn folder_spec(game: Seq<char>) -> Option<Seq<char>> {
    let name = trim_end_dots(cut_to(squash(blank_forbidden(strip_spec(game))), MAX_LEN as int));
    if name.len() == 0 {
        None
    } else if is_reserved(ascii_upper(stem(name))) {
        Some("_"@ + name)
    } else {
        Some(name)
    }
}

proof fn lemma_trim_end_dots_at(s: Seq<char>, k: int)
    requires
        0 <= k <= s.len(),
        forall|j: int| k <= j < s.len() ==> #[trigger] s[j] == '.' || s[j] == ' ',
        k == 0 || (s[k - 1] != '.' && s[k - 1] != ' '),
    ensures
        trim_end_dots(s) == s.take(k),
    decreases s.len() - k,
{
    if k == s.len() {
        assert(s.take(k) =~= s);
    } else {
        let t = s.drop_last();
        assert forall|j: int| k <= j < t.len() implies #[trigger] t[j] == '.' || t[j] == ' ' by {
            assert(t[j] == s[j]);
        }
        lemma_trim_end_dots_at(t, k);
        assert(t.take(k) =~= s.take(k));
    }
}

fn reserved(stem: &Vec<char>) -> (b: bool)
    ensures
        b == is_reserved(stem@),
{
    let mut k: usize = 0;
    while k < 6
        invariant
            k <= 6,
            forall|j: int|
                0 <= j < k ==> !({
                    let word = #[trigger] RESERVED@[j]@;
                    ||| stem@ == word
                    ||| stem@.len() == word.len() + 1 && crate::text::starts_with(stem@, word)
                        && crate::game::is_ascii_digit(stem@.last())
                }),
        decreases 6 - k,
    {
        let word = chars_of(RESERVED[k]);
        let mut same_prefix = stem.len() >= word.len();
        let mut i: usize = 0;
        while i < word.len() && same_prefix
            invariant
                i <= word@.len(),
                same_prefix ==> stem@.len() >= word@.len(),
                same_prefix == (stem@.len() >= word@.len() && forall|j: int| 0 <= j < i ==> stem@[j] == word@[j]),
            decreases word@.len() - i,
        {
            if stem[i] != word[i] {
                same_prefix = false;
            }
            i = i + 1;
        }
        let prefix = same_prefix && i == word.len();
        proof {
            if prefix {
                assert(stem@.take(word@.len() as int) =~= word@);
            } else if stem@.len() >= word@.len() {
                let j = choose|j: int| 0 <= j < i && stem@[j] != word@[j];
                assert(stem@.take(word@.len() as int)[j] != word@[j]);
            }
        }
        let exact = prefix && stem.len() == word.len();
        let numbered = prefix && stem.len() > word.len() && stem.len() - word.len() == 1 && crate::game::ascii_digit(
            stem[stem.len() - 1],
        );
        proof {
            if exact {
                assert(stem@ =~= word@);
            }
            if stem@ == word@ {
                assert(stem@.take(word@.len() as int) =~= stem@);
            }
        }
        if exact || numbered {
            return true;
        }
        k = k + 1;
    }
    false
}

fn blanked(s: &str) -> (out: String)
    ensures
        out@ == blank_forbidden(s@),
{
    let cs = chars_of(s);
    let mut out = String::new();
    let mut i: usize = 0;
    while i < cs.len()
        invariant
            cs@ == s@,
            i <= cs@.len(),
            out@ == blank_forbidden(cs@).take(i as int),
        decreases cs@.len() - i,
    {
        let c = cs[i];
        let code = c as u32;
        let forbidden = c == '<' || c == '>' || c == ':' || c == '"' || c == '/' || c == '\\' || c == '|' || c
            == '?' || c == '*' || code < 0x20;
        let d = if forbidden { ' ' } else { c };
        push_char(&mut out, d);
        assert(blank_forbidden(cs@).take(i as int + 1) =~= blank_forbidden(cs@).take(i as int).push(d));
        i = i + 1;
    }
    assert(blank_forbidden(cs@).take(i as int) =~= blank_forbidden(cs@));
    out
}

/// How many characters stay: at most sixty, then without dots and spaces at
/// the end.
fn kept(sc: &Vec<char>) -> (k: usize)
    ensures
        k <= sc@.len(),
        trim_end_dots(cut_to(sc@, MAX_LEN as int)) == sc@.take(k as int),
{
    let mut k: usize = if sc.len() > MAX_LEN { MAX_LEN } else { sc.len() };
    let ghost cut = cut_to(sc@, MAX_LEN as int);
    assert(cut =~= sc@.take(k as int));
    while k > 0 && (sc[k - 1] == '.' || sc[k - 1] == ' ')
        invariant
            k <= cut.len(),
            cut == sc@.take(cut.len() as int),
            cut.len() <= sc@.len(),
            forall|j: int| k <= j < cut.len() ==> #[trigger] cut[j] == '.' || cut[j] == ' ',
        decreases k,
    {
        k = k - 1;
    }
    proof {
        lemma_trim_end_dots_at(cut, k as int);
        assert(cut.take(k as int) =~= sc@.take(k as int));
    }
    k
}

/// The part of a name before its first dot, in upper case.
fn upper_stem(nm: &Vec<char>) -> (out: Vec<char>)
    ensures
        out@ == ascii_upper(stem(nm@)),
{
    let k = nm.len();
    let mut d: usize = 0;
    while d < k && nm[d] != '.'
        invariant
            d <= k == nm@.len(),
            forall|j: int| 0 <= j < d ==> #[trigger] nm@[j] != '.',
        decreases k - d,
    {
        d = d + 1;
    }
    proof {
        if d < k {
            assert(nm@[d as int] == '.');
            let c = choose|c: int| 0 <= c < nm@.len() && nm@[c] == '.' && forall|j: int| 0 <= j < c ==> nm@[j] != '.';
            if c < d {
                assert(nm@[c] != '.');
            } else if c > d {
                assert(nm@[d as int] == '.');
            }
        }
        assert(stem(nm@) =~= nm@.take(d as int));
    }
    let mut upper: Vec<char> = Vec::new();
    let mut u: usize = 0;
    while u < d
        invariant
            u <= d <= nm@.len(),
            upper@ == ascii_upper(nm@.take(d as int)).take(u as int),
        decreases d - u,
    {
        let c = nm[u];
        let up = if 'a' <= c && c <= 'z' {
            ((c as u8) - 32) as char
        } else {
            c
        };
        assert(up == upper_ascii(c));
        upper.push(up);
        assert(ascii_upper(nm@.take(d as int)).take(u as int + 1) =~= ascii_upper(nm@.take(d as int)).take(
            u as int,
        ).push(up));
        u = u + 1;
    }
    assert(ascii_upper(nm@.take(d as int)).take(d as int) =~= ascii_upper(stem(nm@)));
    upper
}

/// Turn a game name into a folder name Windows will accept. `None` means
/// nothing usable is left: the clip then goes into the clip folder itself,
/// like one with no game at all.
pub fn folder_name(game: &str) -> (r: Option<String>)
    ensures
        crate::text::opt_string(r) == folder_spec(game@),
{
    let stripped = strip_invisibles(game);
    let blank = blanked(stripped.as_str());
    let squashed = crate::game::squash_text(blank.as_str());
    let sc = chars_of(squashed.as_str());
    let k = kept(&sc);
    if k == 0 {
        return None;
    }
    let name = string_of(&sc, 0, k);
    let nm = chars_of(name.as_str());
    // `CON.mp4` cannot be created on Windows, `_CON` can.
    if reserved(&upper_stem(&nm)) {
        let mut out = String::from_str("_");
        push_str(&mut out, name.as_str());
        proof {
            reveal_strlit("_");
        }
        Some(out)
    } else {
        Some(name)
    }
}

} // verus!

verus! {

/// Does this character separate the parts of a path? On Windows both
/// slashes do.
pub open spec fn is_separator(c: char) -> bool {
    c == '/' || c == '\\'
}

/// A path with one more part: written with `/` between parts, unless the
/// path already ends on a separator.
pub open spec fn join_spec(base: Seq<char>, part: Seq<char>) -> Seq<char> {
    if base.len() == 0 {
        part
    } else if is_separator(base.last()) {
        base + part
    } else {
        base + "/"@ + part
    }
}

pub fn join(base: &str, part: &str) -> (out: String)
    ensures
        out@ == join_spec(base@, part@),
{
    let cs = chars_of(base);
    let mut out = String::from_str(base);
    proof {
        reveal_strlit("/");
    }
    if cs.len() > 0 && cs[cs.len() - 1] != '/' && cs[cs.len() - 1] != '\\' {
        push_char(&mut out, '/');
        assert(base@.push('/') =~= base@ + "/"@);
    }
    push_str(&mut out, part);
    out
}

pub open spec fn kind_folder(kind: ClipKind) -> Seq<char> {
    match kind {
        ClipKind::Clip => VIDEOS@,
        ClipKind::Screenshot => SCREENSHOTS@,
        ClipKind::Recording => RECORDINGS@,
    }
}

/// The folder a clip with this game, this heart and this kind belongs in:
/// the favorites folder for a favorite, the game's folder otherwise, the clip
/// folder itself without a usable game; and below that, the kind.
pub open spec fn dir_spec(clip_dir: Seq<char>, game: Option<Seq<char>>, favorite: bool, kind: ClipKind) -> Seq<
    char,
> {
    let base = if favorite {
        join_spec(clip_dir, FAVORITES@)
    } else {
        match game {
            Some(g) => match folder_spec(g) {
                Some(name) => join_spec(clip_dir, name),
                None => clip_dir,
            },
            None => clip_dir,
        }
    };
    join_spec(base, kind_folder(kind))
}

pub fn dir_for(clip_dir: &str, game: Option<&str>, favorite: bool, kind: ClipKind) -> (dir: String)
    ensures
        dir@ == dir_spec(clip_dir@, crate::text::opt_text(game), favorite, kind),
{
    let base = if favorite {
        join(clip_dir, FAVORITES)
    } else {
        let name = match game {
            Some(g) => folder_name(g),
            None => None,
        };
        match name {
            Some(name) => join(clip_dir, name.as_str()),
            None => String::from_str(clip_dir),
        }
    };
    let folder = match kind {
        ClipKind::Clip => VIDEOS,
        ClipKind::Screenshot => SCREENSHOTS,
        ClipKind::Recording => RECORDINGS,
    };
    join(base.as_str(), folder)
}

/// One more character of splitting a path into its parts: the parts so far,
/// and the part being read.
pub open spec fn parts_step(acc: (Seq<Seq<char>>, Seq<char>), c: char) -> (Seq<Seq<char>>, Seq<char>) {
    if is_separator(c) {
        (if acc.1.len() > 0 { acc.0.push(acc.1) } else { acc.0 }, Seq::empty())
    } else {
        (acc.0, acc.1.push(c))
    }
}

pub open spec fn parts_state(p: Seq<char>) -> (Seq<Seq<char>>, Seq<char>)
    decreases p.len(),
{
    if p.len() == 0 {
        (Seq::empty(), Seq::empty())
    } else {
        parts_step(parts_state(p.drop_last()), p.last())
    }
}

/// The parts of a path: the non-empty pieces between separators, after a
/// part `/` for the root when the path starts with a separator. `a//b/`,
/// `a\\b` and `a/b` have the same parts and so are the same path.
pub open spec fn parts(p: Seq<char>) -> Seq<Seq<char>> {
    let (done, last) = parts_state(p);
    (if p.len() > 0 && is_separator(p[0]) { seq!["/"@] } else { Seq::empty() }) + (if last.len() > 0 {
        done.push(last)
    } else {
        done
    })
}

/// Is the file in the clip folder, or one or two levels down? The deepest a
/// file of ours ever goes is `<clip folder>/<game>/Videos`; anything below
/// belongs to somebody else.
pub open spec fn inside_spec(clip_dir: Seq<char>, file: Seq<char>) -> bool {
    let c = parts(file);
    let rooted = c.len() > 0 && c[0] == "/"@;
    exists|k: int|
        1 <= k <= 3 && k <= c.len() && !(rooted && k == c.len()) && #[trigger] c.take(c.len() - k) == parts(
            clip_dir,
        )
}

fn path_parts(p: &str) -> (out: Vec<String>)
    ensures
        out.deep_view() == parts(p@),
{
    proof {
        reveal_strlit("/");
    }
    let cs = chars_of(p);
    let mut done: Vec<String> = Vec::new();
    let mut cur = String::new();
    let mut has_cur = false;
    let mut i: usize = 0;
    while i < cs.len()
        invariant
            cs@ == p@,
            i <= cs@.len(),
            (done.deep_view(), cur@) == parts_state(p@.take(i as int)),
            has_cur == (cur@.len() > 0),
        decreases cs@.len() - i,
    {
        let c = cs[i];
        assert(p@.take(i as int + 1).drop_last() =~= p@.take(i as int));
        if c == '/' || c == '\\' {
            if has_cur {
                let ghost before = done.deep_view();
                let ghost piece = cur@;
                done.push(cur);
                assert(done.deep_view() =~= before.push(piece));
            }
            cur = String::new();
            has_cur = false;
        } else {
            push_char(&mut cur, c);
            has_cur = true;
        }
        i = i + 1;
    }
    assert(p@.take(i as int) =~= p@);
    let mut out: Vec<String> = Vec::new();
    if cs.len() > 0 && (cs[0] == '/' || cs[0] == '\\') {
        out.push(String::from_str("/"));
    }
    let ghost head = out.deep_view();
    let mut j: usize = 0;
    while j < done.len()
        invariant
            j <= done.deep_view().len(),
            out.deep_view() == head + done.deep_view().take(j as int),
        decreases done.deep_view().len() - j,
    {
        let ghost before = out.deep_view();
        out.push(done[j].clone());
        assert(out.deep_view() =~= before.push(done.deep_view()[j as int]));
        assert(done.deep_view().take(j as int + 1) =~= done.deep_view().take(j as int).push(done.deep_view()[j as int]));
        j = j + 1;
    }
    assert(done.deep_view().take(j as int) =~= done.deep_view());
    if has_cur {
        let ghost before = out.deep_view();
        let ghost piece = cur@;
        out.push(cur);
        assert(out.deep_view() =~= before.push(piece));
    }
    assert(out.deep_view() =~= parts(p@));
    out
}

/// Do the first `n` parts of `a` equal all the parts of `b`?
fn same_prefix(a: &Vec<String>, n: usize, b: &Vec<String>) -> (r: bool)
    requires
        n <= a.deep_view().len(),
    ensures
        r == (a.deep_view().take(n as int) == b.deep_view()),
{
    if n != b.len() {
        assert(a.deep_view().take(n as int).len() != b.deep_view().len());
        return false;
    }
    let mut i: usize = 0;
    while i < n
        invariant
            n <= a.deep_view().len(),
            n == b.deep_view().len(),
            i <= n,
            forall|j: int| 0 <= j < i ==> a.deep_view()[j] == b.deep_view()[j],
        decreases n - i,
    {
        if !same_text(a[i].as_str(), b[i].as_str()) {
            assert(a.deep_view().take(n as int)[i as int] != b.deep_view()[i as int]);
            return false;
        }
        i = i + 1;
    }
    assert(a.deep_view().take(n as int) =~= b.deep_view());
    true
}

/// Is the file in the clip folder, or one or two levels down?
pub fn inside(clip_dir: &str, file: &str) -> (r: bool)
    ensures
        r == inside_spec(clip_dir@, file@),
{
    let c = path_parts(file);
    let d = path_parts(clip_dir);
    proof {
        reveal_strlit("/");
    }
    let rooted = c.len() > 0 && same_text(c[0].as_str(), "/");
    let mut k: usize = 1;
    while k <= 3
        invariant
            1 <= k <= 4,
            c.deep_view() == parts(file@),
            d.deep_view() == parts(clip_dir@),
            rooted == (c.deep_view().len() > 0 && c.deep_view()[0] == "/"@),
            forall|j: int|
                1 <= j < k ==> !(j <= c.deep_view().len() && !(rooted && j == c.deep_view().len())
                    && #[trigger] c.deep_view().take(c.deep_view().len() - j) == d.deep_view()),
        decreases 4 - k,
    {
        if k > c.len() || (rooted && k == c.len()) {
            return false;
        }
        if same_prefix(&c, c.len() - k, &d) {
            return true;
        }
        k = k + 1;
    }
    false
}

} // verus!

verus! {

/// Where a clip's file has to move to, if anywhere: nowhere when it lies
/// outside the clip folder, or already in the folder it belongs in.
pub open spec fn destination_spec(
    clip_dir: Seq<char>,
    file: Seq<char>,
    game: Option<Seq<char>>,
    favorite: bool,
    kind: ClipKind,
) -> Option<Seq<char>> {
    let dir = dir_spec(clip_dir, game, favorite, kind);
    let c = parts(file);
    if !inside_spec(clip_dir, file) {
        None
    } else if c.take(c.len() - 1) == parts(dir) {
        None
    } else {
        Some(dir)
    }
}

/// The folder a clip's file has to be moved into, or `None` when there is
/// nothing to do. Whether the file is there at all is the caller's question.
pub fn destination(clip_dir: &str, file: &str, game: Option<&str>, favorite: bool, kind: ClipKind) -> (r: Option<
    String,
>)
    ensures
        crate::text::opt_string(r) == destination_spec(clip_dir@, file@, crate::text::opt_text(game), favorite, kind),
{
    if !inside(clip_dir, file) {
        return None;
    }
    let dir = dir_for(clip_dir, game, favorite, kind);
    let c = path_parts(file);
    let d = path_parts(dir.as_str());
    // Inside the clip folder means one part at least.
    if c.len() >= 1 && same_prefix(&c, c.len() - 1, &d) {
        None
    } else {
        Some(dir)
    }
}

/// The one spelling of a stored game name: `None` when it is already right,
/// otherwise what to store instead, where a name of nothing but invisible
/// characters becomes no game at all.
pub open spec fn correction_spec(game: Seq<char>) -> Option<Option<Seq<char>>> {
    let clean = normalize_spec(game);
    let target = if clean.len() == 0 { None } else { Some(clean) };
    if target == Some(game) {
        None
    } else {
        Some(target)
    }
}

pub fn game_correction(game: &str) -> (r: Option<Option<String>>)
    ensures
        match (r, correction_spec(game@)) {
            (None, None) => true,
            (Some(t), Some(u)) => crate::text::opt_string(t) == u,
            _ => false,
        },
{
    let clean = normalize_name(game);
    if chars_of(clean.as_str()).len() == 0 {
        return Some(None);
    }
    if same_text(clean.as_str(), game) {
        None
    } else {
        Some(Some(clean))
    }
}

/// Putting the game names right settles them: a name once corrected needs no
/// second correction, so a second run over the library changes nothing.
pub proof fn law_a_second_run_changes_nothing(game: Seq<char>)
    ensures
        correction_spec(game) matches Some(Some(t)) ==> correction_spec(t) is None,
{
    crate::game::law_normalize_settles(game);
}

} // verus!

verus! {

proof fn lemma_trim_end_dots_prefix(s: Seq<char>)
    ensures
        trim_end_dots(s).len() <= s.len(),
        trim_end_dots(s) == s.take(trim_end_dots(s).len() as int),
        trim_end_dots(s).len() > 0 ==> trim_end_dots(s).last() != '.' && trim_end_dots(s).last() != ' ',
    decreases s.len(),
{
    if s.len() > 0 && (s.last() == '.' || s.last() == ' ') {
        lemma_trim_end_dots_prefix(s.drop_last());
        let t = trim_end_dots(s.drop_last());
        assert(s.drop_last().take(t.len() as int) =~= s.take(t.len() as int));
    } else {
        assert(s.take(s.len() as int) =~= s);
    }
}

/// Every folder name Windows is handed is one it accepts: not empty, no
/// forbidden or invisible character in it, no dot or space at the end, and no
/// longer than sixty characters and the underscore a device name gets.
pub proof fn law_folder_names_are_valid(game: Seq<char>)
    ensures
        folder_spec(game) matches Some(n) ==> {
            &&& 0 < n.len() <= MAX_LEN + 1
            &&& n.last() != '.' && n.last() != ' '
            &&& forall|i: int| 0 <= i < n.len() ==> !is_forbidden(#[trigger] n[i]) && !crate::game::is_invisible(n[i])
        },
{
    broadcast use vstd::seq_lib::group_filter_ensures;
    reveal_strlit("_");
    let x = blank_forbidden(strip_spec(game));
    let q = squash(x);
    crate::game::lemma_squash_settled(x);
    let cut = cut_to(q, MAX_LEN as int);
    let name = trim_end_dots(cut);
    lemma_trim_end_dots_prefix(cut);
    assert forall|i: int| 0 <= i < name.len() implies !is_forbidden(#[trigger] name[i])
        && !crate::game::is_invisible(name[i]) by {
        assert(name[i] == q[i]);
        if q[i] != ' ' {
            assert(x.contains(q[i]));
            let k = choose|k: int| 0 <= k < x.len() && x[k] == q[i];
            let s = strip_spec(game);
            assert(s.filter(|c: char| crate::game::visible(c)) == s) by {
                crate::game::lemma_strip_idempotent(game);
            }
            if !is_forbidden(s[k]) {
                assert(s.contains(s[k]));
            }
        }
    }
}

/// Words separated by single plain spaces, with no space at either end: the
/// form `split_whitespace` and a join with `" "` leave a name in.
pub open spec fn single_spaced(n: Seq<char>) -> bool {
    forall|i: int|
        0 <= i < n.len() ==> (#[trigger] n[i] == ' ' || !crate::text::is_space(n[i])) && (n[i] == ' ' ==> 0 < i
            < n.len() - 1 && n[i + 1] != ' ')
}

/// Invisible characters never change a folder: a game name and the same name
/// with its invisible characters taken out go to the same folder. And a
/// folder name is always in single-spaced form.
pub proof fn law_folder_names_are_settled(game: Seq<char>)
    ensures
        folder_spec(crate::game::strip_spec(game)) == folder_spec(game),
        folder_spec(game) matches Some(n) ==> single_spaced(n),
{
    reveal_strlit("_");
    reveal_strlit(" ");
    crate::game::lemma_strip_idempotent(game);
    let x = blank_forbidden(crate::game::strip_spec(game));
    let q = squash(x);
    crate::game::lemma_squash_settled(x);
    crate::game::lemma_squash_single_spaces(x);
    let cut = cut_to(q, MAX_LEN as int);
    let name = trim_end_dots(cut);
    lemma_trim_end_dots_prefix(cut);
    assert(crate::text::is_space(' '));
    if name.len() > 0 {
        assert(forall|i: int| 0 <= i < name.len() ==> name[i] == q[i]);
        assert(!crate::text::is_space(name[0])) by {
            assert(name[0] == q[0]);
        }
        assert(!crate::text::is_space(name.last())) by {
            assert(name.last() == q[name.len() - 1]);
        }
        assert forall|i: int| 0 <= i < name.len() implies (#[trigger] name[i] == ' ' || !crate::text::is_space(
            name[i],
        )) && (name[i] == ' ' ==> 0 < i < name.len() - 1 && name[i + 1] != ' ') by {
            assert(name[i] == q[i]);
            if name[i] == ' ' && i < name.len() - 1 {
                assert(name[i + 1] == q[i + 1]);
            }
        }
        let u = "_"@ + name;
        assert(u[0] == '_');
        assert forall|i: int| 0 <= i < u.len() implies (#[trigger] u[i] == ' ' || !crate::text::is_space(u[i]))
            && (u[i] == ' ' ==> 0 < i < u.len() - 1 && u[i + 1] != ' ') by {
            if i > 0 {
                assert(u[i] == name[i - 1]);
                if i < u.len() - 1 {
                    assert(u[i + 1] == name[i]);
                }
            }
        }
    }
}

/// A favorite goes to the favorites folder whatever its game, and a clip, a
/// still and a recording never share a folder.
pub proof fn law_kinds_never_share_a_folder(
    clip_dir: Seq<char>,
    game: Option<Seq<char>>,
    favorite: bool,
    k1: ClipKind,
    k2: ClipKind,
)
    ensures
        k1 != k2 ==> dir_spec(clip_dir, game, favorite, k1) != dir_spec(clip_dir, game, favorite, k2),
        favorite ==> dir_spec(clip_dir, game, favorite, k1) == dir_spec(clip_dir, None, true, k1),
{
    reveal_strlit("Videos");
    reveal_strlit("Screenshots");
    reveal_strlit("Recordings");
    reveal_strlit("/");
    if k1 != k2 {
        let base = if favorite {
            join_spec(clip_dir, FAVORITES@)
        } else {
            match game {
                Some(g) => match folder_spec(g) {
                    Some(name) => join_spec(clip_dir, name),
                    None => clip_dir,
                },
                None => clip_dir,
            }
        };
        let a = kind_folder(k1);
        let b = kind_folder(k2);
        assert(a.len() != b.len());
        assert(join_spec(base, a).len() - a.len() == join_spec(base, b).len() - b.len());
    }
}


/// The name a file gets when its own is already taken in the folder: the
/// number in brackets behind the stem, the extension kept as it was.
pub open spec fn numbered_spec(stem: Seq<char>, ext: Option<Seq<char>>, n: nat) -> Seq<char> {
    let base = stem + " ("@ + decimal(n) + ")"@;
    match ext {
        Some(e) => base + "."@ + e,
        None => base,
    }
}

/// `stem (n).ext`, or `stem (n)` for a name without an extension. Names carry
/// milliseconds, so a collision is the exception, but nothing is ever
/// overwritten: the caller tries the numbers in turn until one is free.
pub fn numbered_name(stem: &str, ext: Option<&str>, n: u32) -> (name: String)
    ensures
        name@ == numbered_spec(stem@, opt_text(ext), n as nat),
{
    let mut name = String::new();
    push_str(&mut name, stem);
    push_str(&mut name, " (");
    push_decimal(&mut name, n as u64);
    push_str(&mut name, ")");
    match ext {
        Some(e) => {
            push_str(&mut name, ".");
            push_str(&mut name, e);
        },
        None => {},
    }
    name
}

} // verus!
