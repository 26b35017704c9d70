//! The rules for the global hotkeys as they are typed into the settings.
//!
//! Whether a combination names real keys is the shortcut parser's business;
//! what is decided here is what counts as the combination, and that no two
//! actions share one.
use vstd::prelude::*;
use crate::profile::{join_lines, joined_with};
use crate::text::{ascii_lower, push_str, same_text, to_ascii_lower, trim, trimmed};

verus! {

/// What an empty combination is answered with.
pub const NO_HOTKEY: &'static str = "No key combination is set.";

/// What two actions on one combination are answered with.
pub const SHARED_HOTKEY: &'static str = "Two hotkeys are on the same key combination.";

/// A combination as typed, without white space at either end, or the error
/// when nothing is left of it.
pub fn hotkey_text(text: &str) -> (r: Result<String, String>)
    ensures
        match r {
            Ok(t) => t@ == trim(text@) && t@.len() > 0,
            Err(e) => trim(text@).len() == 0 && e@ == NO_HOTKEY@,
        },
{
    let t = trimmed(text);
    if t.as_str().is_empty() {
        Err(String::from_str(NO_HOTKEY))
    } else {
        Ok(t)
    }
}

/// Two combinations are the same one when they differ at most in the case of
/// ASCII letters.
pub open spec fn same_combination(a: Seq<char>, b: Seq<char>) -> bool {
    ascii_lower(a) == ascii_lower(b)
}

fn same_keys(a: &str, b: &str) -> (r: bool)
    ensures
        r == same_combination(a@, b@),
{
    let x = to_ascii_lower(a);
    let y = to_ascii_lower(b);
    same_text(x.as_str(), y.as_str())
}

/// Do any two of the three hotkeys (save, buffer, screenshot) share a
/// combination? Every pair counts: with three the clash can sit anywhere.
pub fn hotkeys_clash(save_clip: &str, toggle_buffer: &str, screenshot: &str) -> (r: bool)
    ensures
        r == (same_combination(save_clip@, toggle_buffer@) || same_combination(save_clip@, screenshot@)
            || same_combination(toggle_buffer@, screenshot@)),
{
    same_keys(save_clip, toggle_buffer) || same_keys(save_clip, screenshot) || same_keys(
        toggle_buffer,
        screenshot,
    )
}

/// The three combinations as they are stored: each trimmed and not empty
/// (checked in the order save, buffer, screenshot), and no two the same.
/// Whether each names real keys is left to the shortcut parser.
pub fn check_hotkeys(save_clip: &str, toggle_buffer: &str, screenshot: &str) -> (r: Result<
    (String, String, String),
    String,
>)
    ensures
        match r {
            Ok((a, b, c)) => {
                &&& a@ == trim(save_clip@) && b@ == trim(toggle_buffer@) && c@ == trim(screenshot@)
                &&& a@.len() > 0 && b@.len() > 0 && c@.len() > 0
                &&& !same_combination(a@, b@) && !same_combination(a@, c@) && !same_combination(b@, c@)
            },
            Err(e) => {
                ||| (trim(save_clip@).len() == 0 || trim(toggle_buffer@).len() == 0 || trim(
                    screenshot@,
                ).len() == 0) && e@ == NO_HOTKEY@
                ||| {
                    &&& trim(save_clip@).len() > 0 && trim(toggle_buffer@).len() > 0
                        && trim(screenshot@).len() > 0
                    &&& (same_combination(trim(save_clip@), trim(toggle_buffer@)) || same_combination(
                        trim(save_clip@),
                        trim(screenshot@),
                    ) || same_combination(trim(toggle_buffer@), trim(screenshot@)))
                    &&& e@ == SHARED_HOTKEY@
                }
            },
        },
{
    let a = match hotkey_text(save_clip) {
        Ok(t) => t,
        Err(e) => return Err(e),
    };
    let b = match hotkey_text(toggle_buffer) {
        Ok(t) => t,
        Err(e) => return Err(e),
    };
    let c = match hotkey_text(screenshot) {
        Ok(t) => t,
        Err(e) => return Err(e),
    };
    if hotkeys_clash(a.as_str(), b.as_str(), c.as_str()) {
        return Err(String::from_str(SHARED_HOTKEY));
    }
    Ok((a, b, c))
}

/// The end of what a combination another program holds is answered with.
pub const TAKEN_BY_ANOTHER: &'static str = " is already taken by another program.";

/// What registering the hotkeys comes to, given the combinations that could
/// not be registered: fine when there are none, otherwise they are named,
/// joined with " and ", as taken by another program, which is practically
/// always why Windows refuses one.
pub fn registration_result(failed: &Vec<String>) -> (r: Result<(), String>)
    ensures
        failed@.len() == 0 ==> r is Ok,
        failed@.len() > 0 ==> (r matches Err(e) && e@ == joined_with(failed.deep_view(), " and "@)
            + TAKEN_BY_ANOTHER@),
{
    if failed.len() == 0 {
        return Ok(());
    }
    let mut message = join_lines(failed, " and ");
    push_str(&mut message, TAKEN_BY_ANOTHER);
    Err(message)
}

} // verus!
