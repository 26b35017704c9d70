//! Game names: from an exe, a window title and "fills the monitor" to the
//! name a clip is filed under.
//!
//! If the exe is in the list of known games, the name is certain; otherwise an
//! unknown application counts as a game only when its window fills the whole
//! monitor, and the tidied-up window title is used. Which window is in front
//! is the platform's business and is asked elsewhere.
use vstd::prelude::*;
use crate::text::{chars_of, is_space, push_char, space};
use vstd::string::StringSliceAdditionalSpecFns;

verus! {

broadcast use vstd::seq_lib::group_seq_properties;

/// A character that takes up no space and says nothing: Unicode's format
/// class, such as zero-width spaces, joiners, the byte order mark, bidi
/// controls and the soft hyphen. Unusual spaces are white space instead.
pub open spec fn is_invisible(c: char) -> bool {
    let u = c as u32;
    ||| u == 0x00AD
    ||| (0x0600 <= u && u <= 0x0605)
    ||| u == 0x061C
    ||| u == 0x06DD
    ||| u == 0x070F
    ||| u == 0x08E2
    ||| u == 0x180E
    ||| (0x200B <= u && u <= 0x200F)
    ||| (0x202A <= u && u <= 0x202E)
    ||| (0x2060 <= u && u <= 0x2064)
    ||| (0x2066 <= u && u <= 0x206F)
    ||| u == 0xFEFF
    ||| (0xFFF9 <= u && u <= 0xFFFB)
    ||| u == 0xE0001
    ||| (0xE0020 <= u && u <= 0xE007F)
}

fn invisible(c: char) -> (b: bool)
    ensures
        b == is_invisible(c),
{
    let u = c as u32;
    u == 0x00AD || (0x0600 <= u && u <= 0x0605) || u == 0x061C || u == 0x06DD || u == 0x070F || u
        == 0x08E2 || u == 0x180E || (0x200B <= u && u <= 0x200F) || (0x202A <= u && u <= 0x202E) || (
    0x2060 <= u && u <= 0x2064) || (0x2066 <= u && u <= 0x206F) || u == 0xFEFF || (0xFFF9 <= u && u
        <= 0xFFFB) || u == 0xE0001 || (0xE0020 <= u && u <= 0xE007F)
}

pub open spec fn visible(c: char) -> bool {
    !is_invisible(c)
}

/// The text with everything that cannot be seen taken out.
pub open spec fn strip_spec(s: Seq<char>) -> Seq<char> {
    s.filter(|c: char| visible(c))
}

/// Throw away what cannot be seen.
///
/// Some games sprinkle zero-width characters through their window title, a
/// different sprinkling each time it is read; without this every pattern
/// became a game name of its own.
pub fn strip_invisibles(text: &str) -> (out: String)
    ensures
        out@ == strip_spec(text@),
{
    let cs = chars_of(text);
    let mut out = String::new();
    let mut i: usize = 0;
    while i < cs.len()
        invariant
            cs@ == text@,
            i <= cs@.len(),
            out@ == text@.take(i as int).filter(|c: char| visible(c)),
        decreases cs@.len() - i,
    {
        let c = cs[i];
        proof {
            assert(text@.take(i as int + 1) =~= text@.take(i as int).push(c));
            text@.take(i as int).lemma_filter_push(c, |c: char| visible(c));
        }
        if !invisible(c) {
            push_char(&mut out, c);
        }
        i = i + 1;
    }
    assert(text@.take(i as int) =~= text@);
    out
}

/// Stripping twice strips nothing more.
pub proof fn lemma_strip_idempotent(s: Seq<char>)
    ensures
        strip_spec(strip_spec(s)) == strip_spec(s),
    decreases s.len(),
{
    let p = |c: char| visible(c);
    if s.len() == 0 {
        reveal(Seq::filter);
        assert(s.filter(p) =~= s);
    } else {
        let t = s.drop_last();
        let c = s.last();
        assert(t.push(c) =~= s);
        t.lemma_filter_push(c, p);
        lemma_strip_idempotent(t);
        if visible(c) {
            t.filter(p).lemma_filter_push(c, p);
        }
    }
}

/// One character more of the white-space squashing: runs of white space
/// become one plain space between words, and none at either end.
pub open spec fn squash_step(acc: (Seq<char>, bool), c: char) -> (Seq<char>, bool) {
    if is_space(c) {
        (acc.0, acc.0.len() > 0)
    } else if acc.1 {
        (acc.0.push(' ').push(c), false)
    } else {
        (acc.0.push(c), false)
    }
}

/// The squashed text so far, and whether a space is owed before the next
/// word.
pub open spec fn squash_state(s: Seq<char>) -> (Seq<char>, bool)
    decreases s.len(),
{
    if s.len() == 0 {
        (Seq::empty(), false)
    } else {
        squash_step(squash_state(s.drop_last()), s.last())
    }
}

/// The words of `s`, joined by single plain spaces.
pub open spec fn squash(s: Seq<char>) -> Seq<char> {
    squash_state(s).0
}

/// The one answer to "are these two the same game name?": invisible
/// characters out, every run of white space down to a single plain space,
/// the ends trimmed.
pub open spec fn normalize_spec(s: Seq<char>) -> Seq<char> {
    squash(strip_spec(s))
}

pub fn squash_text(s: &str) -> (out: String)
    ensures
        out@ == squash(s@),
{
    let cs = chars_of(s);
    let mut out = String::new();
    let mut gap = false;
    let mut written = false;
    let mut i: usize = 0;
    while i < cs.len()
        invariant
            cs@ == s@,
            i <= cs@.len(),
            (out@, gap) == squash_state(s@.take(i as int)),
            written == (out@.len() > 0),
        decreases cs@.len() - i,
    {
        let c = cs[i];
        assert(s@.take(i as int + 1).drop_last() =~= s@.take(i as int));
        if space(c) {
            gap = written;
        } else {
            if gap {
                push_char(&mut out, ' ');
            }
            push_char(&mut out, c);
            gap = false;
            written = true;
        }
        i = i + 1;
    }
    assert(s@.take(i as int) =~= s@);
    out
}

/// Used wherever a name is derived, filed or compared, so all three agree.
pub fn normalize_name(text: &str) -> (out: String)
    ensures
        out@ == normalize_spec(text@),
{
    let stripped = strip_invisibles(text);
    squash_text(stripped.as_str())
}

} // verus!

verus! {

/// Suffixes on a window title that say nothing about the game.
pub const TITLE_SUFFIXES: [&'static str; 15] = [
    " - steam",
    " - epic games",
    " - directx 12",
    " - directx 11",
    " - direct3d 12",
    " - direct3d 11",
    " - dx12",
    " - dx11",
    " - vulkan",
    " - opengl",
    " (64-bit)",
    " (32-bit)",
    " (x64)",
    " - 64 bit",
    " [steam]",
];

pub open spec fn is_ascii_digit(c: char) -> bool {
    '0' <= c && c <= '9'
}

/// `k` closes an unread counter at the front of a title: `(` then digits
/// then `)`.
pub open spec fn closes_counter(t: Seq<char>, k: int) -> bool {
    &&& t.len() > 0 && t[0] == '('
    &&& 2 <= k < t.len()
    &&& t[k] == ')'
    &&& forall|j: int| 1 <= j < k ==> is_ascii_digit(#[trigger] t[j])
}

/// An unread counter at the front, "(102) ...", says nothing about the game.
pub open spec fn drop_counter(t: Seq<char>) -> Seq<char> {
    if exists|k: int| closes_counter(t, k) {
        let k = choose|k: int| closes_counter(t, k);
        crate::text::trim(t.subrange(k + 1, t.len() as int))
    } else {
        t
    }
}

/// `k` is the first of the known suffixes that `lower` ends with.
pub open spec fn is_first_suffix(lower: Seq<char>, k: int) -> bool {
    &&& 0 <= k < 15
    &&& crate::text::ends_with(lower, TITLE_SUFFIXES@[k]@)
    &&& forall|j: int| 0 <= j < k ==> !crate::text::ends_with(lower, #[trigger] TITLE_SUFFIXES@[j]@)
}

pub open spec fn first_suffix(lower: Seq<char>) -> Option<int> {
    if exists|k: int| is_first_suffix(lower, k) {
        Some(choose|k: int| is_first_suffix(lower, k))
    } else {
        None
    }
}

/// Known suffixes cut off, repeatedly: "Game (64-bit) - Steam".
///
/// The suffix is found in the lower-cased text and cut from the text itself by
/// its length in bytes. `None` where that cut would not land between two
/// characters, or would reach past the front of the text.
pub open spec fn cut_suffixes(t: Seq<char>) -> Option<Seq<char>>
    decreases vstd::utf8::encode_utf8(t).len(),
{
    match first_suffix(crate::text::lowercase(t)) {
        None => Some(t),
        Some(k) => {
            let bytes = vstd::utf8::encode_utf8(t);
            let n = bytes.len() - vstd::utf8::encode_utf8(TITLE_SUFFIXES@[k]@).len();
            if n < 0 || !vstd::utf8::is_char_boundary(bytes, n) {
                None
            } else {
                let shorter = crate::text::trim(vstd::utf8::decode_utf8(bytes.take(n)));
                if vstd::utf8::encode_utf8(shorter).len() < bytes.len() {
                    cut_suffixes(shorter)
                } else {
                    None
                }
            }
        },
    }
}

/// A version number: digits and dots with at least one dot, after an
/// optional `v`.
pub open spec fn looks_like_version(word: Seq<char>) -> bool {
    let core = trim_start_v(word);
    &&& core.len() > 0
    &&& is_ascii_digit(core[0])
    &&& forall|i: int| 0 <= i < core.len() ==> is_ascii_digit(#[trigger] core[i]) || core[i] == '.'
    &&& exists|i: int| 0 <= i < core.len() && #[trigger] core[i] == '.'
}

pub open spec fn trim_start_v(s: Seq<char>) -> Seq<char>
    decreases s.len(),
{
    if s.len() > 0 && (s[0] == 'v' || s[0] == 'V') {
        trim_start_v(s.drop_first())
    } else {
        s
    }
}

/// `i` is the last plain space in `s`.
pub open spec fn is_last_space(s: Seq<char>, i: int) -> bool {
    &&& 0 <= i < s.len()
    &&& s[i] == ' '
    &&& forall|j: int| i < j < s.len() ==> #[trigger] s[j] != ' '
}

/// A version number as the last of several words is dropped: "Minecraft
/// 1.21.4". A number without a dot belongs to the name: "Half-Life 2".
pub open spec fn drop_version(t: Seq<char>) -> Seq<char> {
    let words = squash(t);
    if exists|i: int| is_last_space(words, i) {
        let i = choose|i: int| is_last_space(words, i);
        if looks_like_version(words.subrange(i + 1, words.len() as int)) {
            words.take(i)
        } else {
            t
        }
    } else {
        t
    }
}

pub open spec fn is_trailing_mark(c: char) -> bool {
    c == '-' || c == '–' || c == '|' || c == ':'
}

/// Without dashes, bars and colons at the end.
pub open spec fn trim_end_marks(s: Seq<char>) -> Seq<char>
    decreases s.len(),
{
    if s.len() > 0 && is_trailing_mark(s.last()) {
        trim_end_marks(s.drop_last())
    } else {
        s
    }
}

/// A window title trimmed down to the bare game name; `None` where trimming
/// a suffix would cut a character in two.
pub open spec fn clean_spec(title: Seq<char>) -> Option<Seq<char>> {
    match cut_suffixes(drop_counter(normalize_spec(title))) {
        Some(t) => Some(
            crate::text::trim(trim_end_marks(crate::text::trim(drop_version(t)))),
        ),
        None => None,
    }
}

} // verus!

verus! {

pub fn ascii_digit(c: char) -> (b: bool)
    ensures
        b == is_ascii_digit(c),
{
    '0' <= c && c <= '9'
}

fn without_counter(t: &str) -> (out: String)
    ensures
        out@ == drop_counter(t@),
{
    let cs = chars_of(t);
    if cs.len() == 0 || cs[0] != '(' {
        assert(!exists|k: int| closes_counter(t@, k));
        return String::from_str(t);
    }
    let mut j: usize = 1;
    while j < cs.len() && ascii_digit(cs[j])
        invariant
            cs@ == t@,
            1 <= j <= cs@.len(),
            forall|i: int| 1 <= i < j ==> is_ascii_digit(#[trigger] t@[i]),
        decreases cs@.len() - j,
    {
        j = j + 1;
    }
    if j >= 2 && j < cs.len() && cs[j] == ')' {
        assert(closes_counter(t@, j as int));
        assert forall|k: int| closes_counter(t@, k) implies k == j by {
            if k < j {
                assert(is_ascii_digit(t@[k]));
            } else if k > j {
                assert(is_ascii_digit(t@[j as int]));
            }
        }
        let tail = crate::text::string_of(&cs, j + 1, cs.len());
        crate::text::trimmed(tail.as_str())
    } else {
        assert forall|k: int| !closes_counter(t@, k) by {
            if closes_counter(t@, k) {
                if k < j {
                    assert(is_ascii_digit(t@[k]));
                } else if k > j {
                    if j < cs@.len() {
                        assert(is_ascii_digit(t@[j as int]));
                    }
                }
            }
        }
        String::from_str(t)
    }
}

/// The first known suffix the lower-cased text ends with, as its place in
/// [`TITLE_SUFFIXES`].
pub fn find_suffix(lower: &str) -> (r: Option<usize>)
    ensures
        match r {
            Some(k) => first_suffix(lower@) == Some(k as int),
            None => first_suffix(lower@) is None,
        },
{
    let mut k: usize = 0;
    while k < 15
        invariant
            k <= 15,
            forall|j: int| 0 <= j < k ==> !crate::text::ends_with(lower@, #[trigger] TITLE_SUFFIXES@[j]@),
        decreases 15 - k,
    {
        if crate::text::text_ends_with(lower, TITLE_SUFFIXES[k]) {
            assert(is_first_suffix(lower@, k as int));
            assert forall|c: int| is_first_suffix(lower@, c) implies c == k by {
                if c < k {
                    assert(!crate::text::ends_with(lower@, TITLE_SUFFIXES@[c]@));
                } else if c > k {
                    assert(!crate::text::ends_with(lower@, TITLE_SUFFIXES@[k as int]@));
                }
            }
            return Some(k);
        }
        k = k + 1;
    }
    None
}

fn cut_all_suffixes(t: String) -> (r: Option<String>)
    ensures
        crate::text::opt_string(r) == cut_suffixes(t@),
{
    let mut text = t;
    loop
        invariant
            cut_suffixes(text@) == cut_suffixes(t@),
        decreases vstd::utf8::encode_utf8(text@).len(),
    {
        let lower = crate::text::to_lower(text.as_str());
        let k = match find_suffix(lower.as_str()) {
            Some(k) => k,
            None => return Some(text),
        };
        let s = text.as_str();
        let suffix = TITLE_SUFFIXES[k];
        let whole = s.as_bytes().len();
        let cut = suffix.as_bytes().len();
        proof {
            broadcast use vstd::utf8::encode_utf8_valid_utf8;
            assert(s.spec_bytes() == vstd::utf8::encode_utf8(text@));
            assert(whole == vstd::utf8::encode_utf8(text@).len());
            assert(suffix.spec_bytes() == vstd::utf8::encode_utf8(TITLE_SUFFIXES@[k as int]@));
            assert(cut == vstd::utf8::encode_utf8(TITLE_SUFFIXES@[k as int]@).len());
            assert(vstd::utf8::valid_utf8(vstd::utf8::encode_utf8(text@)));
        }
        if whole < cut {
            return None;
        }
        let n = whole - cut;
        if !text.as_str().is_char_boundary(n) {
            return None;
        }
        let (front, _) = text.as_str().split_at(n);
        proof {
            vstd::utf8::encode_utf8_decode_utf8(front@);
            assert(front@ == vstd::utf8::decode_utf8(vstd::utf8::encode_utf8(text@).take(n as int)));
        }
        let shorter = crate::text::trimmed(front);
        if shorter.as_str().as_bytes().len() >= whole {
            return None;
        }
        text = shorter;
    }
}

} // verus!

verus! {

proof fn lemma_trim_start_v_at(s: Seq<char>, i: int)
    requires
        0 <= i <= s.len(),
        forall|j: int| 0 <= j < i ==> #[trigger] s[j] == 'v' || s[j] == 'V',
        i == s.len() || (s[i] != 'v' && s[i] != 'V'),
    ensures
        trim_start_v(s) == s.subrange(i, s.len() as int),
    decreases i,
{
    if i == 0 {
        assert(s.subrange(0, s.len() as int) =~= s);
    } else {
        assert(s[0] == 'v' || s[0] == 'V');
        let t = s.drop_first();
        assert forall|j: int| 0 <= j < i - 1 implies #[trigger] t[j] == 'v' || t[j] == 'V' by {
            assert(t[j] == s[j + 1]);
        }
        lemma_trim_start_v_at(t, i - 1);
        assert(t.subrange(i - 1, t.len() as int) =~= s.subrange(i, s.len() as int));
    }
}

fn version(word: &str) -> (b: bool)
    ensures
        b == looks_like_version(word@),
{
    let cs = chars_of(word);
    let mut s: usize = 0;
    while s < cs.len() && (cs[s] == 'v' || cs[s] == 'V')
        invariant
            cs@ == word@,
            s <= cs@.len(),
            forall|j: int| 0 <= j < s ==> #[trigger] word@[j] == 'v' || word@[j] == 'V',
        decreases cs@.len() - s,
    {
        s = s + 1;
    }
    proof {
        lemma_trim_start_v_at(word@, s as int);
    }
    let ghost core = word@.subrange(s as int, word@.len() as int);
    if s >= cs.len() || !ascii_digit(cs[s]) {
        return false;
    }
    let mut i: usize = s;
    let mut dots = false;
    while i < cs.len()
        invariant
            cs@ == word@,
            s < cs@.len(),
            s <= i <= cs@.len(),
            core == word@.subrange(s as int, word@.len() as int),
            trim_start_v(word@) == core,
            core.len() > 0 && is_ascii_digit(core[0]),
            forall|j: int| 0 <= j < i - s ==> is_ascii_digit(#[trigger] core[j]) || core[j] == '.',
            dots == exists|j: int| 0 <= j < i - s && #[trigger] core[j] == '.',
        decreases cs@.len() - i,
    {
        let c = cs[i];
        assert(core[i - s] == c);
        if !(ascii_digit(c) || c == '.') {
            assert(!(is_ascii_digit(core[i - s]) || core[i - s] == '.'));
            assert(trim_start_v(word@) == core);
            return false;
        }
        if c == '.' {
            dots = true;
        }
        i = i + 1;
    }
    dots
}

fn without_version(t: &str) -> (out: String)
    ensures
        out@ == drop_version(t@),
{
    let words = squash_text(t);
    let wc = chars_of(words.as_str());
    let mut i: usize = wc.len();
    while i > 0 && wc[i - 1] != ' '
        invariant
            wc@ == squash(t@),
            i <= wc@.len(),
            forall|j: int| i <= j < wc@.len() ==> #[trigger] wc@[j] != ' ',
        decreases i,
    {
        i = i - 1;
    }
    if i == 0 {
        assert(!exists|k: int| is_last_space(wc@, k));
        return String::from_str(t);
    }
    let at = i - 1;
    assert(is_last_space(wc@, at as int));
    assert forall|k: int| is_last_space(wc@, k) implies k == at by {
        if k < at {
            assert(wc@[at as int] == ' ');
        } else if k > at {
            assert(wc@[k] != ' ');
        }
    }
    let last = crate::text::string_of(&wc, at + 1, wc.len());
    if version(last.as_str()) {
        crate::text::string_of(&wc, 0, at)
    } else {
        String::from_str(t)
    }
}

proof fn lemma_trim_end_marks_at(s: Seq<char>, k: int)
    requires
        0 <= k <= s.len(),
        forall|j: int| k <= j < s.len() ==> is_trailing_mark(#[trigger] s[j]),
        k == 0 || !is_trailing_mark(s[k - 1]),
    ensures
        trim_end_marks(s) == s.take(k),
    decreases s.len() - k,
{
    if k == s.len() {
        assert(s.take(k) =~= s);
    } else {
        assert(is_trailing_mark(s.last()));
        let t = s.drop_last();
        assert forall|j: int| k <= j < t.len() implies is_trailing_mark(#[trigger] t[j]) by {
            assert(t[j] == s[j]);
        }
        lemma_trim_end_marks_at(t, k);
        assert(t.take(k) =~= s.take(k));
    }
}

fn without_end_marks(s: &str) -> (out: String)
    ensures
        out@ == trim_end_marks(s@),
{
    let cs = chars_of(s);
    let mut k: usize = cs.len();
    while k > 0 && (cs[k - 1] == '-' || cs[k - 1] == '–' || cs[k - 1] == '|' || cs[k - 1] == ':')
        invariant
            cs@ == s@,
            k <= cs@.len(),
            forall|j: int| k <= j < cs@.len() ==> is_trailing_mark(#[trigger] s@[j]),
        decreases k,
    {
        k = k - 1;
    }
    proof {
        lemma_trim_end_marks_at(s@, k as int);
    }
    crate::text::string_of(&cs, 0, k)
}

/// Trim a window title down to the bare game name; `None` where the
/// trimming would cut a character in two.
pub fn try_clean_title(title: &str) -> (r: Option<String>)
    ensures
        crate::text::opt_string(r) == clean_spec(title@),
{
    // Before anything else measures, trims or compares: a title carrying
    // invisible characters or odd spacing must not survive as its own name.
    let text = normalize_name(title);
    let text = without_counter(text.as_str());
    let text = match cut_all_suffixes(text) {
        Some(t) => t,
        None => return None,
    };
    let text = without_version(text.as_str());
    let text = crate::text::trimmed(text.as_str());
    let text = without_end_marks(text.as_str());
    Some(crate::text::trimmed(text.as_str()))
}

/// Trim a window title down to the bare game name: invisible characters and
/// odd spacing out, an unread counter at the front, known suffixes and a
/// version number at the end, and trailing dashes, bars and colons.
pub fn clean_title(title: &str) -> (name: String)
    requires
        clean_spec(title@) is Some,
    ensures
        name@ == clean_spec(title@)->0,
{
    match try_clean_title(title) {
        Some(name) => name,
        None => String::new(),
    }
}

} // verus!

verus! {

/// Applications that never count as a game, however large their window:
/// browsers, launchers, chat, editors, players, and the tools whose windows
/// cover the whole screen.
pub const IGNORED: [&'static str; 96] = [
    "clippiboy.exe",
    "explorer.exe",
    "searchhost.exe",
    "shellexperiencehost.exe",
    "applicationframehost.exe",
    "startmenuexperiencehost.exe",
    "lockapp.exe",
    "taskmgr.exe",
    "chrome.exe",
    "msedge.exe",
    "firefox.exe",
    "opera.exe",
    "operagx.exe",
    "brave.exe",
    "vivaldi.exe",
    "discord.exe",
    "discordptb.exe",
    "discordcanary.exe",
    "steam.exe",
    "steamwebhelper.exe",
    "epicgameslauncher.exe",
    "battle.net.exe",
    "riotclientservices.exe",
    "riotclientux.exe",
    "upc.exe",
    "eadesktop.exe",
    "goggalaxy.exe",
    "code.exe",
    "devenv.exe",
    "rider64.exe",
    "idea64.exe",
    "windowsterminal.exe",
    "powershell.exe",
    "cmd.exe",
    "wt.exe",
    "spotify.exe",
    "vlc.exe",
    "obs64.exe",
    "obs32.exe",
    "medal.exe",
    "nvidia app.exe",
    "nvidia share.exe",
    "teams.exe",
    "slack.exe",
    "notepad.exe",
    "notepad++.exe",
    "explorerframe.exe",
    "game",
    "snippingtool.exe",
    "screenclippinghost.exe",
    "screensketch.exe",
    "sharex.exe",
    "greenshot.exe",
    "snagit32.exe",
    "snagiteditor.exe",
    "systemsettings.exe",
    "dwm.exe",
    "sihost.exe",
    "textinputhost.exe",
    "rundll32.exe",
    "logonui.exe",
    "mpv.exe",
    "mpc-hc.exe",
    "mpc-hc64.exe",
    "potplayermini.exe",
    "potplayermini64.exe",
    "wmplayer.exe",
    "video.ui.exe",
    "photos.exe",
    "opera_gx.exe",
    "chromium.exe",
    "librewolf.exe",
    "waterfox.exe",
    "zen.exe",
    "arc.exe",
    "msedgewebview2.exe",
    "chrome_proxy.exe",
    "whatsapp.exe",
    "telegram.exe",
    "signal.exe",
    "zoom.exe",
    "ms-teams.exe",
    "outlook.exe",
    "thunderbird.exe",
    "winword.exe",
    "excel.exe",
    "powerpnt.exe",
    "acrord32.exe",
    "acrobat.exe",
    "obs.exe",
    "streamlabs obs.exe",
    "xsplit.core.exe",
    "overwolf.exe",
    "nvidia overlay.exe",
    "cursor.exe",
    "sublime_text.exe",
];

/// Title endings that give away a foreign application, even one that fills
/// the monitor. A second safeguard: the list of ignored applications can never
/// be complete.
pub const FOREIGN_TITLES: [&'static str; 22] = [
    " - youtube",
    " – youtube",
    " - google chrome",
    " – google chrome",
    " - mozilla firefox",
    " – mozilla firefox",
    " - microsoft edge",
    " – microsoft edge",
    " - opera",
    " – opera",
    " - brave",
    " – brave",
    " - vivaldi",
    " – vivaldi",
    " - discord",
    " – discord",
    " - visual studio code",
    " – visual studio code",
    "Überlagerung",
    "overlay",
    " überlagerung",
    " overlay",
];

/// File extensions in the title: a window showing a file is not playing
/// anything.
pub const FILE_TITLES: [&'static str; 20] = [
    ".mp4",
    ".mkv",
    ".webm",
    ".avi",
    ".mov",
    ".m4v",
    ".mp3",
    ".flac",
    ".wav",
    ".png",
    ".jpg",
    ".jpeg",
    ".gif",
    ".webp",
    ".pdf",
    ".txt",
    ".log",
    ".json",
    ".docx",
    ".xlsx",
];

/// Is this application never a game?
pub open spec fn ignored_spec(exe: Seq<char>) -> bool {
    exists|i: int| 0 <= i < IGNORED@.len() && #[trigger] IGNORED@[i]@ == crate::text::lowercase(exe)
}

/// Is this exe name, already lower case, on the list of applications that
/// are never a game?
pub fn is_ignored_name(lower: &str) -> (b: bool)
    ensures
        b == exists|i: int| 0 <= i < IGNORED@.len() && #[trigger] IGNORED@[i]@ == lower@,
{
    let mut i: usize = 0;
    while i < IGNORED.len()
        invariant
            i <= IGNORED@.len(),
            forall|j: int| 0 <= j < i ==> #[trigger] IGNORED@[j]@ != lower@,
        decreases IGNORED@.len() - i,
    {
        if crate::text::same_text(IGNORED[i], lower) {
            return true;
        }
        i = i + 1;
    }
    false
}

pub fn is_ignored(exe: &str) -> (b: bool)
    ensures
        b == ignored_spec(exe@),
{
    let lower = crate::text::to_lower(exe);
    is_ignored_name(lower.as_str())
}

/// The known games, as exe name and display name. A later entry overrides an
/// earlier one with the same exe name, as a file of the user's own overrides
/// the built-in list.
pub open spec fn games_view(games: Seq<(String, String)>) -> Seq<(Seq<char>, Seq<char>)> {
    Seq::new(games.len(), |i: int| (games[i].0@, games[i].1@))
}

/// `i` is the last entry for this exe name.
pub open spec fn is_last_entry(games: Seq<(Seq<char>, Seq<char>)>, key: Seq<char>, i: int) -> bool {
    &&& 0 <= i < games.len()
    &&& games[i].0 == key
    &&& forall|j: int| i < j < games.len() ==> (#[trigger] games[j]).0 != key
}

/// The display name for an exe name that is already lower case.
pub open spec fn lookup(games: Seq<(Seq<char>, Seq<char>)>, key: Seq<char>) -> Option<Seq<char>> {
    if exists|i: int| is_last_entry(games, key, i) {
        Some(games[choose|i: int| is_last_entry(games, key, i)].1)
    } else {
        None
    }
}

/// The last entry for an exe name that is already lower case.
pub fn find_game(games: &[(String, String)], key: &str) -> (r: Option<usize>)
    ensures
        match r {
            Some(i) => is_last_entry(games_view(games@), key@, i as int),
            None => lookup(games_view(games@), key@) is None,
        },
{
    let ghost gv = games_view(games@);
    let mut i: usize = games.len();
    while i > 0
        invariant
            gv == games_view(games@),
            i <= games@.len(),
            forall|j: int| i <= j < games@.len() ==> (#[trigger] gv[j]).0 != key@,
        decreases i,
    {
        if crate::text::same_text(games[i - 1].0.as_str(), key) {
            assert(gv[i - 1].0 == key@);
            return Some(i - 1);
        }
        i = i - 1;
    }
    None
}

proof fn lemma_last_entry_is_unique(games: Seq<(Seq<char>, Seq<char>)>, key: Seq<char>, i: int)
    requires
        is_last_entry(games, key, i),
    ensures
        lookup(games, key) == Some(games[i].1),
{
    let c = choose|c: int| is_last_entry(games, key, c);
    if c < i {
        assert(games[i].0 == key);
    } else if c > i {
        assert(games[c].0 == key);
    }
}

/// Is this exe in the list, so its name is certain? A `false` means the name
/// is read off the window title, which can change from one look to the next.
pub fn is_known_exe(exe: &str, games: &[(String, String)]) -> (b: bool)
    ensures
        b == lookup(games_view(games@), crate::text::lowercase(exe@)) is Some,
{
    let lower = crate::text::to_lower(exe);
    match find_game(games, lower.as_str()) {
        Some(i) => {
            proof {
                lemma_last_entry_is_unique(games_view(games@), lower@, i as int);
            }
            true
        },
        None => false,
    }
}

/// The list of known games with every exe name in lower case, the way they
/// are looked up.
pub fn known_games(entries: Vec<(String, String)>) -> (out: Vec<(String, String)>)
    ensures
        out@.len() == entries@.len(),
        forall|i: int|
            0 <= i < entries@.len() ==> (#[trigger] games_view(out@)[i]) == (
            crate::text::lowercase(entries@[i].0@),
            entries@[i].1@,
        ),
{
    let mut out: Vec<(String, String)> = Vec::new();
    let mut i: usize = 0;
    while i < entries.len()
        invariant
            i <= entries@.len(),
            out@.len() == i,
            forall|j: int|
                0 <= j < i ==> (#[trigger] games_view(out@)[j]) == (
                crate::text::lowercase(entries@[j].0@),
                entries@[j].1@,
            ),
        decreases entries@.len() - i,
    {
        let key = crate::text::to_lower(entries[i].0.as_str());
        let name = entries[i].1.clone();
        let ghost prev = out@;
        out.push((key, name));
        assert forall|j: int| 0 <= j < i + 1 implies (#[trigger] games_view(out@)[j]) == (
            crate::text::lowercase(entries@[j].0@),
            entries@[j].1@,
        ) by {
            if j < i {
                assert(out@[j] == prev[j]);
                assert(games_view(prev)[j] == games_view(out@)[j]);
            }
        }
        i = i + 1;
    }
    out
}

/// The games table: the built-in list with the user's own list layered on
/// top, so the user's name for an exe wins over the built-in one; every exe
/// name in lower case, the way they are looked up.
pub fn layered_games(built_in: Vec<(String, String)>, user: Vec<(String, String)>) -> (out: Vec<(String, String)>)
    ensures
        games_view(out@) == layered_spec(games_view(built_in@), games_view(user@)),
        out@.len() == built_in@.len() + user@.len(),
        forall|i: int|
            0 <= i < built_in@.len() ==> (#[trigger] games_view(out@)[i]) == (
            crate::text::lowercase(built_in@[i].0@),
            built_in@[i].1@,
        ),
        forall|i: int|
            0 <= i < user@.len() ==> (#[trigger] games_view(out@)[built_in@.len() + i]) == (
            crate::text::lowercase(user@[i].0@),
            user@[i].1@,
        ),
{
    let mut all = built_in;
    let ghost b = all@;
    let mut extra = user;
    let ghost u = extra@;
    all.append(&mut extra);
    assert(all@ == b + u);
    let out = known_games(all);
    assert forall|i: int| 0 <= i < u.len() implies (#[trigger] games_view(out@)[b.len() + i]) == (
        crate::text::lowercase(u[i].0@),
        u[i].1@,
    ) by {
        assert((b + u)[b.len() + i] == u[i]);
    }
    assert forall|i: int| 0 <= i < b.len() implies (#[trigger] games_view(out@)[i]) == (
        crate::text::lowercase(b[i].0@),
        b[i].1@,
    ) by {
        assert((b + u)[i] == b[i]);
    }
    let ghost want = layered_spec(games_view(b), games_view(u));
    assert forall|i: int| 0 <= i < want.len() implies #[trigger] games_view(out@)[i] == want[i] by {
        if i >= b.len() {
            let k = i - b.len();
            assert(games_view(out@)[b.len() + k] == want[i]);
        }
    }
    assert(games_view(out@) =~= want);
    out
}

/// The games table from a built-in list and a user's list on top of it,
/// every exe name in lower case.
pub open spec fn layered_spec(
    built_in: Seq<(Seq<char>, Seq<char>)>,
    user: Seq<(Seq<char>, Seq<char>)>,
) -> Seq<(Seq<char>, Seq<char>)> {
    (built_in + user).map_values(|e: (Seq<char>, Seq<char>)| (crate::text::lowercase(e.0), e.1))
}

/// The entries a `games.json` text holds, exe name and display name, in the
/// order of the exe names; `None` when the text is no JSON object whose
/// values are all strings.
pub uninterp spec fn json_game_table(text: Seq<char>) -> Option<Seq<(Seq<char>, Seq<char>)>>;

/// The entries of a `games.json` text.
///
/// Trusted: `serde_json::from_str` into a `BTreeMap<String, String>`, whose
/// entries then come out in the order of their keys. The result is named,
/// `json_game_table`, and depends on the text alone; nothing more is said of
/// it.
#[verifier::external_body]
fn parse_game_table(text: &str) -> (r: Option<Vec<(String, String)>>)
    ensures
        match r {
            Some(v) => json_game_table(text@) == Some(games_view(v@)),
            None => json_game_table(text@) is None,
        },
{
    match serde_json::from_str::<std::collections::BTreeMap<String, String>>(text) {
        Ok(map) => Some(map.into_iter().collect()),
        Err(_) => None,
    }
}

/// The user's entries a `games.json` text stands for: none when there is no
/// file or it cannot be read as one.
pub open spec fn user_entries(user_text: Option<Seq<char>>) -> Seq<(Seq<char>, Seq<char>)> {
    match user_text {
        Some(t) => match json_game_table(t) {
            Some(e) => e,
            None => Seq::empty(),
        },
        None => Seq::empty(),
    }
}

/// The games table: the built-in list with the user's `games.json`, given as
/// its text where there is one, layered on top. The flag says that the
/// user's text was there but is no table, in which case the built-in list
/// stands alone.
pub fn game_table(built_in: Vec<(String, String)>, user_text: Option<&str>) -> (r: (Vec<(String, String)>, bool))
    ensures
        games_view(r.0@) == layered_spec(games_view(built_in@), user_entries(crate::text::opt_text(user_text))),
        r.1 == (user_text matches Some(t) && json_game_table(t@) is None),
{
    let (user, unreadable) = match user_text {
        Some(t) => match parse_game_table(t) {
            Some(v) => (v, false),
            None => (Vec::new(), true),
        },
        None => (Vec::new(), false),
    };
    proof {
        assert(games_view(Seq::<(String, String)>::empty()) =~= Seq::empty());
    }
    (layered_games(built_in, user), unreadable)
}

/// Does the window title give away that no game is running here at all? A
/// path is never a game name, nor is a window showing a file, nor a window
/// whose title ends the way a browser or chat program ends it.
pub open spec fn foreign_spec(title: Seq<char>) -> bool {
    let lower = crate::text::lowercase(crate::text::trim(title));
    &&& lower.len() > 0
    &&& {
        ||| crate::text::contains_text(lower, ":\\"@)
        ||| crate::text::starts_with(lower, "\\\\"@)
        ||| exists|i: int| 0 <= i < FILE_TITLES@.len() && crate::text::ends_with(lower, #[trigger] FILE_TITLES@[i]@)
        ||| exists|i: int| 0 <= i < FOREIGN_TITLES@.len() && crate::text::ends_with(lower, #[trigger] FOREIGN_TITLES@[i]@)
    }
}

pub fn is_foreign_title(title: &str) -> (b: bool)
    ensures
        b == foreign_spec(title@),
{
    let t = crate::text::trimmed(title);
    let lower = crate::text::to_lower(t.as_str());
    let l = lower.as_str();
    if crate::text::chars_of(l).len() == 0 {
        return false;
    }
    if crate::text::text_contains(l, ":\\") || crate::text::text_starts_with(l, "\\\\") {
        return true;
    }
    let mut i: usize = 0;
    while i < FILE_TITLES.len()
        invariant
            l@ == crate::text::lowercase(crate::text::trim(title@)),
            l@.len() > 0,
            i <= FILE_TITLES@.len(),
            forall|j: int| 0 <= j < i ==> !crate::text::ends_with(l@, #[trigger] FILE_TITLES@[j]@),
        decreases FILE_TITLES@.len() - i,
    {
        if crate::text::text_ends_with(l, FILE_TITLES[i]) {
            assert(crate::text::ends_with(l@, FILE_TITLES@[i as int]@));
            return true;
        }
        i = i + 1;
    }
    let mut k: usize = 0;
    while k < FOREIGN_TITLES.len()
        invariant
            l@ == crate::text::lowercase(crate::text::trim(title@)),
            l@.len() > 0,
            k <= FOREIGN_TITLES@.len(),
            forall|j: int| 0 <= j < k ==> !crate::text::ends_with(l@, #[trigger] FOREIGN_TITLES@[j]@),
        decreases FOREIGN_TITLES@.len() - k,
    {
        if crate::text::text_ends_with(l, FOREIGN_TITLES[k]) {
            assert(crate::text::ends_with(l@, FOREIGN_TITLES@[k as int]@));
            return true;
        }
        k = k + 1;
    }
    false
}

} // verus!

verus! {

/// Without any number of `.exe` endings.
pub open spec fn trim_exe(s: Seq<char>) -> Seq<char>
    decreases s.len(),
{
    if s.len() >= 4 && crate::text::ends_with(s, ".exe"@) {
        trim_exe(s.take(s.len() - 4))
    } else {
        s
    }
}

/// Underscores and hyphens read as spaces.
pub open spec fn dashes_to_spaces(s: Seq<char>) -> Seq<char> {
    Seq::new(s.len(), |i: int| if s[i] == '_' || s[i] == '-' { ' ' } else { s[i] })
}

pub open spec fn word_start(s: Seq<char>, i: int) -> bool {
    s[i] != ' ' && (i == 0 || s[i - 1] == ' ')
}

/// Every word's first character in upper case.
pub open spec fn capitalized(s: Seq<char>) -> Seq<char>
    decreases s.len(),
{
    if s.len() == 0 {
        s
    } else {
        capitalized(s.drop_last()) + if word_start(s, s.len() - 1) {
            crate::text::uppercase_char(s.last())
        } else {
            seq![s.last()]
        }
    }
}

/// "eldenring.exe" becomes "Eldenring", "no_hesi.exe" "No Hesi".
pub open spec fn from_exe_spec(exe: Seq<char>) -> Seq<char> {
    capitalized(squash(dashes_to_spaces(trim_exe(exe))))
}

fn without_exe(exe: &str) -> (out: Vec<char>)
    ensures
        out@ == trim_exe(exe@),
{
    let mut cs = chars_of(exe);
    proof {
        reveal_strlit(".exe");
    }
    while cs.len() >= 4 && cs[cs.len() - 4] == '.' && cs[cs.len() - 3] == 'e' && cs[cs.len() - 2] == 'x'
        && cs[cs.len() - 1] == 'e'
        invariant
            trim_exe(cs@) == trim_exe(exe@),
        decreases cs@.len(),
    {
        let ghost before = cs@;
        proof {
            reveal_strlit(".exe");
        }
        assert(before.subrange(before.len() - 4, before.len() as int) =~= ".exe"@);
        cs.pop();
        cs.pop();
        cs.pop();
        cs.pop();
        assert(cs@ =~= before.take(before.len() - 4));
    }
    proof {
        if cs@.len() >= 4 && crate::text::ends_with(cs@, ".exe"@) {
            let k = cs@.len() - 4;
            assert(cs@.subrange(k, cs@.len() as int)[0] == '.');
            assert(cs@.subrange(k, cs@.len() as int)[1] == 'e');
            assert(cs@.subrange(k, cs@.len() as int)[2] == 'x');
            assert(cs@.subrange(k, cs@.len() as int)[3] == 'e');
        }
    }
    cs
}

/// A name made from the exe alone, the last resort when there is no title.
pub fn from_exe(exe: &str) -> (name: String)
    ensures
        name@ == from_exe_spec(exe@),
{
    let stem = without_exe(exe);
    let mut spaced = String::new();
    let mut i: usize = 0;
    while i < stem.len()
        invariant
            i <= stem@.len(),
            spaced@ == dashes_to_spaces(stem@).take(i as int),
        decreases stem@.len() - i,
    {
        let c = stem[i];
        let d = if c == '_' || c == '-' { ' ' } else { c };
        push_char(&mut spaced, d);
        assert(dashes_to_spaces(stem@).take(i as int + 1) =~= dashes_to_spaces(stem@).take(i as int).push(d));
        i = i + 1;
    }
    assert(dashes_to_spaces(stem@).take(i as int) =~= dashes_to_spaces(stem@));
    let words = squash_text(spaced.as_str());
    let ws = chars_of(words.as_str());
    let mut out = String::new();
    let mut k: usize = 0;
    while k < ws.len()
        invariant
            k <= ws@.len(),
            out@ == capitalized(ws@.take(k as int)),
        decreases ws@.len() - k,
    {
        let c = ws[k];
        let starts = c != ' ' && (k == 0 || ws[k - 1] == ' ');
        let ghost next = ws@.take(k as int + 1);
        assert(next.drop_last() =~= ws@.take(k as int));
        assert(starts == word_start(next, k as int));
        if starts {
            let up = crate::text::upper_char(c);
            crate::text::push_str(&mut out, up.as_str());
        } else {
            push_char(&mut out, c);
        }
        k = k + 1;
    }
    assert(ws@.take(k as int) =~= ws@);
    out
}

/// A recognized game in the foreground, with the process behind it.
#[derive(Debug, Clone)]
pub struct Detected {
    pub name: String,
    pub pid: u32,
    pub exe: String,
}

/// Does deriving a name from these reach the title, and can the title be
/// trimmed without cutting a character in two?
pub open spec fn resolvable(
    exe: Seq<char>,
    title: Seq<char>,
    fullscreen: bool,
    games: Seq<(Seq<char>, Seq<char>)>,
) -> bool {
    (exe.len() > 0 && !ignored_spec(exe) && lookup(games, crate::text::lowercase(exe)) is None && fullscreen
        && !foreign_spec(title)) ==> clean_spec(title) is Some
}

/// A game name from exe, window title and "fills the monitor".
///
/// An ignored application is never a game; a known exe has its listed name,
/// whatever the title says; an unknown application counts only in
/// fullscreen, and not when the title gives away a foreign application. Then
/// the cleaned title is the name, or, when nothing of it is left, the exe.
pub open spec fn resolve_spec(
    exe: Seq<char>,
    title: Seq<char>,
    fullscreen: bool,
    games: Seq<(Seq<char>, Seq<char>)>,
) -> Option<Seq<char>> {
    if exe.len() == 0 || ignored_spec(exe) {
        None
    } else if let Some(name) = lookup(games, crate::text::lowercase(exe)) {
        Some(name)
    } else if !fullscreen || foreign_spec(title) {
        None
    } else {
        let cleaned = clean_spec(title)->0;
        Some(if cleaned.len() == 0 { from_exe_spec(exe) } else { cleaned })
    }
}

/// Derive a game name from exe, window title and "fills the monitor", with
/// `games` the known games (see [`known_games`]).
pub fn resolve_name(exe: &str, title: &str, fullscreen: bool, games: &[(String, String)]) -> (r: Option<String>)
    requires
        resolvable(exe@, title@, fullscreen, games_view(games@)),
    ensures
        crate::text::opt_string(r) == resolve_spec(exe@, title@, fullscreen, games_view(games@)),
{
    if chars_of(exe).len() == 0 || is_ignored(exe) {
        return None;
    }
    let lower = crate::text::to_lower(exe);
    if let Some(i) = find_game(games, lower.as_str()) {
        proof {
            lemma_last_entry_is_unique(games_view(games@), lower@, i as int);
        }
        return Some(games[i].1.clone());
    }
    // Unknown application: only in fullscreen, and not when the title gives
    // away a foreign application. Better "unknown" than a browser tab that
    // stands as a gallery filter forever.
    if !fullscreen || is_foreign_title(title) {
        return None;
    }
    let cleaned = clean_title(title);
    if chars_of(cleaned.as_str()).len() == 0 {
        Some(from_exe(exe))
    } else {
        Some(cleaned)
    }
}

/// [`resolve_name`] for any title: `None` where trimming the title would cut a
/// character in two, `Some` of what `resolve_name` answers otherwise.
pub fn resolve_name_checked(exe: &str, title: &str, fullscreen: bool, games: &[(String, String)]) -> (r: Option<
    Option<String>,
>)
    ensures
        r is None <==> !resolvable(exe@, title@, fullscreen, games_view(games@)),
        r matches Some(n) ==> crate::text::opt_string(n) == resolve_spec(
            exe@,
            title@,
            fullscreen,
            games_view(games@),
        ),
{
    let reaches_title = chars_of(exe).len() > 0 && !is_ignored(exe) && !is_known_exe(exe, games) && fullscreen
        && !is_foreign_title(title);
    if reaches_title && try_clean_title(title).is_none() {
        return None;
    }
    Some(resolve_name(exe, title, fullscreen, games))
}

} // verus!

verus! {

/// Invisible characters never make a second game: a title and the same title
/// with its invisible characters taken out come to the same name.
pub proof fn law_invisibles_do_not_make_a_new_game(title: Seq<char>)
    ensures
        clean_spec(strip_spec(title)) == clean_spec(title),
        normalize_spec(strip_spec(title)) == normalize_spec(title),
{
    lemma_strip_idempotent(title);
}

/// A known exe has its listed name, whatever the title says and whether or
/// not its window fills the screen.
pub proof fn law_a_known_exe_wins_over_the_title(
    exe: Seq<char>,
    title: Seq<char>,
    fullscreen: bool,
    games: Seq<(Seq<char>, Seq<char>)>,
)
    requires
        exe.len() > 0,
        !ignored_spec(exe),
        lookup(games, crate::text::lowercase(exe)) is Some,
    ensures
        resolve_spec(exe, title, fullscreen, games) == lookup(games, crate::text::lowercase(exe)),
{
}

/// A path is never a game name: a window title that holds a drive (`:\`)
/// or starts as a network path (`\\`) gives away a foreign application, so
/// an exe that is not on the list gets no name from it, in fullscreen or not.
pub proof fn law_a_path_is_never_a_game(
    exe: Seq<char>,
    title: Seq<char>,
    fullscreen: bool,
    games: Seq<(Seq<char>, Seq<char>)>,
)
    requires
        crate::text::contains_text(crate::text::lowercase(crate::text::trim(title)), ":\\"@)
            || crate::text::starts_with(crate::text::lowercase(crate::text::trim(title)), "\\\\"@),
    ensures
        foreign_spec(title),
        lookup(games, crate::text::lowercase(exe)) is None ==> resolve_spec(exe, title, fullscreen, games) is None,
{
    reveal_strlit(":\\");
    reveal_strlit("\\\\");
    let lower = crate::text::lowercase(crate::text::trim(title));
    if crate::text::contains_text(lower, ":\\"@) {
        let i = choose|i: int| 0 <= i && i + (":\\"@).len() <= lower.len() && #[trigger] lower.subrange(
            i,
            i + (":\\"@).len(),
        ) == ":\\"@;
        assert(lower.len() >= 2);
    }
}

pub proof fn lemma_squash_settled(x: Seq<char>)
    ensures
        squash_state(squash(x)) == (squash(x), false),
        squash_state(x).1 ==> squash(x).len() > 0,
        forall|i: int| 0 <= i < squash(x).len() ==> (#[trigger] squash(x)[i] == ' ' || !is_space(squash(x)[i])),
        squash(x).len() > 0 ==> !is_space(squash(x)[0]) && !is_space(squash(x).last()),
        forall|i: int|
            0 <= i < squash(x).len() ==> #[trigger] squash(x)[i] == ' ' || x.contains(squash(x)[i]),
    decreases x.len(),
{
    reveal_strlit(" ");
    if x.len() > 0 {
        let p = x.drop_last();
        let c = x.last();
        lemma_squash_settled(p);
        let o = squash(p);
        let g = squash_state(p).1;
        assert(is_space(' '));
        assert forall|i: int| 0 <= i < o.len() && o[i] != ' ' implies x.contains(o[i]) by {
            let k = choose|k: int| 0 <= k < p.len() && p[k] == o[i];
            assert(x[k] == p[k]);
        }
        if is_space(c) {
            assert(squash(x) == o);
        } else if g {
            let o2 = o.push(' ');
            assert(o2.drop_last() =~= o);
            assert(o2.last() == ' ');
            assert(squash_state(o2) == squash_step(squash_state(o), ' '));
            assert(squash_state(o2) == (o, o.len() > 0));
            assert(o2.push(c).drop_last() =~= o2);
            assert(squash_state(o2.push(c)) == squash_step(squash_state(o2), c));
            assert(squash(x) == o2.push(c));
            assert(x[x.len() - 1] == c);
        } else {
            assert(o.push(c).drop_last() =~= o);
            assert(squash_state(o.push(c)) == squash_step(squash_state(o), c));
            assert(squash(x) == o.push(c));
            assert(x[x.len() - 1] == c);
        }
    }
}

/// Squashed text never holds two spaces in a row.
pub proof fn lemma_squash_single_spaces(x: Seq<char>)
    ensures
        forall|i: int| 0 <= i < squash(x).len() - 1 && #[trigger] squash(x)[i] == ' ' ==> squash(x)[i + 1] != ' ',
    decreases x.len(),
{
    reveal_strlit(" ");
    if x.len() > 0 {
        let p = x.drop_last();
        let c = x.last();
        lemma_squash_single_spaces(p);
        lemma_squash_settled(p);
        let o = squash(p);
        let g = squash_state(p).1;
        assert(is_space(' '));
        if is_space(c) {
            assert(squash(x) == o);
        } else if g {
            let q = o.push(' ').push(c);
            assert(squash(x) == q);
            assert forall|i: int| 0 <= i < q.len() - 1 && #[trigger] q[i] == ' ' implies q[i + 1] != ' ' by {
                if i < o.len() - 1 {
                    assert(q[i] == o[i] && q[i + 1] == o[i + 1]);
                } else if i == o.len() - 1 {
                    assert(q[i] == o.last());
                }
            }
        } else {
            let q = o.push(c);
            assert(squash(x) == q);
            assert forall|i: int| 0 <= i < q.len() - 1 && #[trigger] q[i] == ' ' implies q[i + 1] != ' ' by {
                if i < o.len() - 1 {
                    assert(q[i] == o[i] && q[i + 1] == o[i + 1]);
                }
            }
        }
    }
}

proof fn lemma_strip_keeps_visible(s: Seq<char>)
    requires
        forall|i: int| 0 <= i < s.len() ==> visible(#[trigger] s[i]),
    ensures
        strip_spec(s) == s,
    decreases s.len(),
{
    let p = |c: char| visible(c);
    if s.len() == 0 {
        reveal(Seq::filter);
        assert(s.filter(p) =~= s);
    } else {
        let t = s.drop_last();
        assert(t.push(s.last()) =~= s);
        t.lemma_filter_push(s.last(), p);
        assert forall|i: int| 0 <= i < t.len() implies visible(#[trigger] t[i]) by {
            assert(t[i] == s[i]);
        }
        lemma_strip_keeps_visible(t);
    }
}

/// Normalizing a name twice changes nothing the first time did not: a name
/// that was derived, filed and compared is normalized the same at each step.
pub proof fn law_normalize_settles(text: Seq<char>)
    ensures
        normalize_spec(normalize_spec(text)) == normalize_spec(text),
{
    let s = strip_spec(text);
    let n = squash(s);
    lemma_squash_settled(s);
    broadcast use vstd::seq_lib::group_filter_ensures;
    assert forall|i: int| 0 <= i < n.len() implies visible(#[trigger] n[i]) by {
        if n[i] != ' ' {
            assert(s.contains(n[i]));
            let k = choose|k: int| 0 <= k < s.len() && s[k] == n[i];
            assert(visible(s[k]));
        } else {
            assert(0x200B > 0x20);
        }
    }
    lemma_strip_keeps_visible(n);
}

} // verus!
