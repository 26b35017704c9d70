//! How lengths are written for people.
use vstd::prelude::*;
use crate::text::{decimal, push_decimal, push_padded, push_char, zero_padded};

verus! {

/// `1:02:03` with hours, `2:03` without.
pub open spec fn duration_spec(ms: nat) -> Seq<char> {
    let total = ms / 1000;
    let hours = total / 3600;
    let minutes = total / 60 % 60;
    let seconds = total % 60;
    if hours > 0 {
        decimal(hours) + seq![':'] + zero_padded(minutes, 2) + seq![':'] + zero_padded(seconds, 2)
    } else {
        decimal(minutes) + seq![':'] + zero_padded(seconds, 2)
    }
}

pub fn duration(ms: u64) -> (s: String)
    ensures
        s@ == duration_spec(ms as nat),
{
    let total = ms / 1000;
    let hours = total / 3600;
    let minutes = total / 60 % 60;
    let seconds = total % 60;
    let mut s = String::new();
    if hours > 0 {
        push_decimal(&mut s, hours);
        push_char(&mut s, ':');
        push_padded(&mut s, minutes, 2);
        push_char(&mut s, ':');
        push_padded(&mut s, seconds, 2);
    } else {
        push_decimal(&mut s, minutes);
        push_char(&mut s, ':');
        push_padded(&mut s, seconds, 2);
    }
    assert(s@ =~= duration_spec(ms as nat));
    s
}

} // verus!
