//! Small string helpers the rest of the library builds on.
use vstd::prelude::*;

verus! {

broadcast use vstd::string::group_string_axioms;

/// Appends one character to a string.
///
/// Trusted: `String::push`, which std documents as appending the given char
/// to the end of the string.
#[verifier::external_body]
pub(crate) fn push_char(s: &mut String, c: char)
    ensures
        final(s)@ == old(s)@.push(c),
{
    s.push(c);
}

/// The characters of a string slice, in order.
pub fn chars_of(s: &str) -> (out: Vec<char>)
    ensures
        out@ == s@,
{
    let mut out: Vec<char> = Vec::new();
    for c in it: s.chars()
        invariant
            out@ == it.seq().take(it.index() as int),
    {
        out.push(c);
    }
    out
}

} // verus!

verus! {

/// The ASCII digit for a value below ten.
pub open spec fn digit_char(d: nat) -> char {
    ((d + 48) as u32) as char
}

/// A natural number written out in decimal, without leading zeros.
pub open spec fn decimal(n: nat) -> Seq<char>
    decreases n,
{
    if n < 10 {
        seq![digit_char(n)]
    } else {
        decimal(n / 10).push(digit_char(n % 10))
    }
}

/// A number in decimal, padded on the left with zeros to at least `width`
/// characters.
pub open spec fn zero_padded(n: nat, width: nat) -> Seq<char> {
    let plain = decimal(n);
    if plain.len() >= width {
        plain
    } else {
        Seq::new((width - plain.len()) as nat, |i: int| '0') + plain
    }
}

pub proof fn lemma_decimal_len_pos(n: nat)
    ensures
        decimal(n).len() >= 1,
    decreases n,
{
    if n >= 10 {
        lemma_decimal_len_pos(n / 10);
    }
}

fn digit(d: u64) -> (c: char)
    requires
        d < 10,
    ensures
        c == digit_char(d as nat),
{
    if d == 0 { '0' }
    else if d == 1 { '1' }
    else if d == 2 { '2' }
    else if d == 3 { '3' }
    else if d == 4 { '4' }
    else if d == 5 { '5' }
    else if d == 6 { '6' }
    else if d == 7 { '7' }
    else if d == 8 { '8' }
    else { '9' }
}

/// The decimal digits of `n`, most significant first.
pub fn decimal_chars(n: u64) -> (out: Vec<char>)
    ensures
        out@ == decimal(n as nat),
    decreases n,
{
    if n < 10 {
        let mut out = Vec::new();
        out.push(digit(n));
        out
    } else {
        let mut out = decimal_chars(n / 10);
        out.push(digit(n % 10));
        out
    }
}

/// Appends `n` in decimal.
pub fn push_decimal(s: &mut String, n: u64)
    ensures
        final(s)@ == old(s)@ + decimal(n as nat),
{
    let ds = decimal_chars(n);
    let ghost start = s@;
    let mut i: usize = 0;
    while i < ds.len()
        invariant
            0 <= i <= ds@.len(),
            ds@ == decimal(n as nat),
            s@ == start + ds@.take(i as int),
        decreases ds@.len() - i,
    {
        push_char(s, ds[i]);
        assert(ds@.take(i as int + 1) == ds@.take(i as int).push(ds@[i as int]));
        i = i + 1;
    }
    assert(ds@.take(ds@.len() as int) == ds@);
}

/// Appends `n` in decimal, zero-padded to at least `width` characters.
pub fn push_padded(s: &mut String, n: u64, width: usize)
    ensures
        final(s)@ == old(s)@ + zero_padded(n as nat, width as nat),
{
    let ds = decimal_chars(n);
    let ghost start = s@;
    let mut pad: usize = 0;
    let missing: usize = if ds.len() < width { width - ds.len() } else { 0 };
    while pad < missing
        invariant
            pad <= missing,
            s@ == start + Seq::new(pad as nat, |i: int| '0'),
        decreases missing - pad,
    {
        push_char(s, '0');
        assert(Seq::new((pad + 1) as nat, |i: int| '0') == Seq::new(pad as nat, |i: int| '0').push('0'));
        pad = pad + 1;
    }
    let ghost mid = s@;
    let mut i: usize = 0;
    while i < ds.len()
        invariant
            0 <= i <= ds@.len(),
            ds@ == decimal(n as nat),
            s@ == mid + ds@.take(i as int),
        decreases ds@.len() - i,
    {
        push_char(s, ds[i]);
        assert(ds@.take(i as int + 1) == ds@.take(i as int).push(ds@[i as int]));
        i = i + 1;
    }
    assert(ds@.take(ds@.len() as int) == ds@);
    if ds.len() >= width {
        assert(Seq::new(0nat, |i: int| '0') + ds@ == ds@);
    }
}

/// `n` in decimal as a new string.
pub fn to_decimal(n: u64) -> (out: String)
    ensures
        out@ == decimal(n as nat),
{
    let mut s = String::new();
    push_decimal(&mut s, n);
    assert(Seq::<char>::empty() + decimal(n as nat) == decimal(n as nat));
    s
}

/// Appends a string slice.
pub fn push_str(s: &mut String, t: &str)
    ensures
        final(s)@ == old(s)@ + t@,
{
    s.append(t);
}

/// A copy of a string slice as an owned string.
pub fn owned(t: &str) -> (out: String)
    ensures
        out@ == t@,
{
    String::from_str(t)
}

} // verus!

verus! {

/// Appends one argument to a command line.
pub fn push_arg(args: &mut Vec<String>, s: &str)
    ensures
        final(args).deep_view() == old(args).deep_view().push(s@),
{
    let ghost before = args.deep_view();
    args.push(String::from_str(s));
    assert(args.deep_view() =~= before.push(s@));
}

/// Appends an owned argument to a command line.
pub fn push_owned_arg(args: &mut Vec<String>, s: String)
    ensures
        final(args).deep_view() == old(args).deep_view().push(s@),
{
    let ghost before = args.deep_view();
    let ghost v = s@;
    args.push(s);
    assert(args.deep_view() =~= before.push(v));
}

/// `n` followed by `k`, the way ffmpeg takes a rate in kilobits.
pub open spec fn kilo(n: nat) -> Seq<char> {
    decimal(n) + seq!['k']
}

pub fn kilo_arg(n: u64) -> (out: String)
    ensures
        out@ == kilo(n as nat),
{
    let mut s = to_decimal(n);
    push_char(&mut s, 'k');
    s
}

} // verus!

verus! {

/// Milliseconds as seconds with three decimals: `1500` becomes `1.500`.
pub open spec fn seconds_text(ms: nat) -> Seq<char> {
    decimal(ms / 1000) + seq!['.'] + zero_padded(ms % 1000, 3)
}

pub fn seconds_arg(ms: u64) -> (out: String)
    ensures
        out@ == seconds_text(ms as nat),
{
    let mut s = to_decimal(ms / 1000);
    push_char(&mut s, '.');
    push_padded(&mut s, ms % 1000, 3);
    s
}

} // verus!

verus! {

/// Do two string slices hold the same characters?
pub fn same_text(a: &str, b: &str) -> (r: bool)
    ensures
        r == (a@ == b@),
{
    let x = chars_of(a);
    let y = chars_of(b);
    if x.len() != y.len() {
        return false;
    }
    let mut i: usize = 0;
    while i < x.len()
        invariant
            x@ == a@,
            y@ == b@,
            x.len() == y.len(),
            i <= x.len(),
            forall|j: int| 0 <= j < i ==> x@[j] == y@[j],
        decreases x.len() - i,
    {
        if x[i] != y[i] {
            return false;
        }
        i = i + 1;
    }
    assert(a@ =~= b@);
    true
}

/// An optional string slice, read as its characters.
pub open spec fn opt_text(o: Option<&str>) -> Option<Seq<char>> {
    match o {
        Some(s) => Some(s@),
        None => None,
    }
}

/// An optional owned string, read as its characters.
pub open spec fn opt_string(o: Option<String>) -> Option<Seq<char>> {
    match o {
        Some(s) => Some(s@),
        None => None,
    }
}

/// Borrow an optional string as an optional slice.
pub fn as_text(o: &Option<String>) -> (r: Option<&str>)
    ensures
        opt_text(r) == opt_string(*o),
{
    match o {
        Some(s) => Some(s.as_str()),
        None => None,
    }
}

/// An owned copy of an optional string.
pub fn copy_opt(o: &Option<String>) -> (r: Option<String>)
    ensures
        r == *o,
{
    match o {
        Some(s) => Some(s.clone()),
        None => None,
    }
}

} // verus!

verus! {

pub open spec fn is_digit(c: char) -> bool {
    '0' <= c && c <= '9'
}

proof fn lemma_digit_char(d: nat)
    requires
        d < 10,
    ensures
        is_digit(digit_char(d)),
{
    let u = (d + 48) as u32;
    assert(u == d + 48);
    vstd::utf8::char_u32_cast(digit_char(d), u);
}

/// Decimal text holds digits only.
pub proof fn lemma_decimal_digits(n: nat)
    ensures
        forall|i: int| 0 <= i < decimal(n).len() ==> is_digit(#[trigger] decimal(n)[i]),
    decreases n,
{
    lemma_digit_char(n % 10);
    if n >= 10 {
        lemma_decimal_digits(n / 10);
        let d = decimal(n);
        assert forall|i: int| 0 <= i < d.len() implies is_digit(#[trigger] d[i]) by {
            if i < d.len() - 1 {
                assert(d[i] == decimal(n / 10)[i]);
            } else {
                assert(d[i] == digit_char(n % 10));
            }
        }
    } else {
        assert(n % 10 == n);
        assert(decimal(n)[0] == digit_char(n));
    }
}

/// Different numbers are written differently.
pub proof fn lemma_decimal_injective(a: nat, b: nat)
    requires
        decimal(a) == decimal(b),
    ensures
        a == b,
    decreases a,
{
    lemma_decimal_len_pos(a / 10);
    lemma_decimal_len_pos(b / 10);
    if a < 10 && b < 10 {
        assert(decimal(a)[0] == digit_char(a));
        assert(decimal(b)[0] == digit_char(b));
    } else if a < 10 {
        assert(decimal(b).len() >= 2);
    } else if b < 10 {
        assert(decimal(a).len() >= 2);
    } else {
        let da = decimal(a);
        let db = decimal(b);
        assert(da.last() == digit_char(a % 10));
        assert(db.last() == digit_char(b % 10));
        assert(da.drop_last() =~= decimal(a / 10));
        assert(db.drop_last() =~= decimal(b / 10));
        lemma_decimal_injective(a / 10, b / 10);
    }
}

} // verus!

verus! {

/// Unicode white space, the set `char::is_whitespace` documents.
pub open spec fn is_space(c: char) -> bool {
    let u = c as u32;
    (0x09 <= u && u <= 0x0D) || u == 0x20 || u == 0x85 || u == 0xA0 || u == 0x1680 || (0x2000 <= u && u
        <= 0x200A) || u == 0x2028 || u == 0x2029 || u == 0x202F || u == 0x205F || u == 0x3000
}

pub fn space(c: char) -> (b: bool)
    ensures
        b == is_space(c),
{
    let u = c as u32;
    (0x09 <= u && u <= 0x0D) || u == 0x20 || u == 0x85 || u == 0xA0 || u == 0x1680 || (0x2000 <= u && u
        <= 0x200A) || u == 0x2028 || u == 0x2029 || u == 0x202F || u == 0x205F || u == 0x3000
}

/// Without the white space at the front.
pub open spec fn trim_start(s: Seq<char>) -> Seq<char>
    decreases s.len(),
{
    if s.len() > 0 && is_space(s[0]) {
        trim_start(s.drop_first())
    } else {
        s
    }
}

/// Without the white space at the end.
pub open spec fn trim_end(s: Seq<char>) -> Seq<char>
    decreases s.len(),
{
    if s.len() > 0 && is_space(s.last()) {
        trim_end(s.drop_last())
    } else {
        s
    }
}

/// Without white space at either end.
pub open spec fn trim(s: Seq<char>) -> Seq<char> {
    trim_end(trim_start(s))
}

proof fn lemma_trim_start_at(s: Seq<char>, i: int)
    requires
        0 <= i <= s.len(),
        forall|j: int| 0 <= j < i ==> is_space(#[trigger] s[j]),
        i == s.len() || !is_space(s[i]),
    ensures
        trim_start(s) == s.subrange(i, s.len() as int),
    decreases i,
{
    if i == 0 {
        assert(s.subrange(0, s.len() as int) =~= s);
    } else {
        assert(is_space(s[0]));
        let t = s.drop_first();
        assert forall|j: int| 0 <= j < i - 1 implies is_space(#[trigger] t[j]) by {
            assert(t[j] == s[j + 1]);
        }
        lemma_trim_start_at(t, i - 1);
        assert(t.subrange(i - 1, t.len() as int) =~= s.subrange(i, s.len() as int));
    }
}

proof fn lemma_trim_end_at(s: Seq<char>, k: int)
    requires
        0 <= k <= s.len(),
        forall|j: int| k <= j < s.len() ==> is_space(#[trigger] s[j]),
        k == 0 || !is_space(s[k - 1]),
    ensures
        trim_end(s) == s.take(k),
    decreases s.len() - k,
{
    if k == s.len() {
        assert(s.take(k) =~= s);
    } else {
        assert(is_space(s.last()));
        let t = s.drop_last();
        assert forall|j: int| k <= j < t.len() implies is_space(#[trigger] t[j]) by {
            assert(t[j] == s[j]);
        }
        lemma_trim_end_at(t, k);
        assert(t.take(k) =~= s.take(k));
    }
}

/// A string slice without white space at either end.
pub fn trimmed(s: &str) -> (out: String)
    ensures
        out@ == trim(s@),
{
    let cs = chars_of(s);
    let mut i: usize = 0;
    while i < cs.len() && space(cs[i])
        invariant
            cs@ == s@,
            i <= cs@.len(),
            forall|j: int| 0 <= j < i ==> is_space(#[trigger] s@[j]),
        decreases cs@.len() - i,
    {
        i = i + 1;
    }
    proof {
        lemma_trim_start_at(s@, i as int);
    }
    let ghost front = s@.subrange(i as int, s@.len() as int);
    let mut k: usize = cs.len();
    while k > i && space(cs[k - 1])
        invariant
            cs@ == s@,
            i <= k <= cs@.len(),
            front == s@.subrange(i as int, s@.len() as int),
            forall|j: int| k <= j < cs@.len() ==> is_space(#[trigger] s@[j]),
        decreases k,
    {
        k = k - 1;
    }
    proof {
        assert forall|j: int| k - i <= j < front.len() implies is_space(#[trigger] front[j]) by {
            assert(front[j] == s@[j + i]);
        }
        if k > i {
            assert(front[k - i - 1] == s@[k - 1]);
        }
        lemma_trim_end_at(front, k - i);
    }
    let mut out = String::new();
    let mut p: usize = i;
    while p < k
        invariant
            cs@ == s@,
            i <= p <= k <= cs@.len(),
            out@ == s@.subrange(i as int, p as int),
        decreases k - p,
    {
        push_char(&mut out, cs[p]);
        assert(s@.subrange(i as int, p + 1) =~= s@.subrange(i as int, p as int).push(cs@[p as int]));
        p = p + 1;
    }
    assert(front.take(k - i) =~= s@.subrange(i as int, k as int));
    out
}

/// Does `s` end with `suffix`?
pub open spec fn ends_with(s: Seq<char>, suffix: Seq<char>) -> bool {
    s.len() >= suffix.len() && s.subrange(s.len() - suffix.len(), s.len() as int) == suffix
}

/// Does `s` start with `prefix`?
pub open spec fn starts_with(s: Seq<char>, prefix: Seq<char>) -> bool {
    s.len() >= prefix.len() && s.take(prefix.len() as int) == prefix
}

/// Does `s` hold `part` somewhere?
pub open spec fn contains_text(s: Seq<char>, part: Seq<char>) -> bool {
    exists|i: int| 0 <= i && i + part.len() <= s.len() && #[trigger] s.subrange(i, i + part.len()) == part
}

pub fn text_ends_with(s: &str, suffix: &str) -> (b: bool)
    ensures
        b == ends_with(s@, suffix@),
{
    let a = chars_of(s);
    let b = chars_of(suffix);
    if a.len() < b.len() {
        return false;
    }
    let off = a.len() - b.len();
    let mut i: usize = 0;
    while i < b.len()
        invariant
            a@ == s@,
            b@ == suffix@,
            a@.len() >= b@.len(),
            a@.len() <= usize::MAX,
            off == a@.len() - b@.len(),
            i <= b@.len(),
            forall|j: int| 0 <= j < i ==> a@[off + j] == b@[j],
        decreases b@.len() - i,
    {
        if a[off + i] != b[i] {
            assert(s@.subrange(off as int, s@.len() as int)[i as int] != suffix@[i as int]);
            return false;
        }
        i = i + 1;
    }
    assert(s@.subrange(off as int, s@.len() as int) =~= suffix@);
    true
}

pub fn text_starts_with(s: &str, prefix: &str) -> (b: bool)
    ensures
        b == starts_with(s@, prefix@),
{
    let a = chars_of(s);
    let b = chars_of(prefix);
    if a.len() < b.len() {
        return false;
    }
    let mut i: usize = 0;
    while i < b.len()
        invariant
            a@ == s@,
            b@ == prefix@,
            a@.len() >= b@.len(),
            i <= b@.len(),
            forall|j: int| 0 <= j < i ==> a@[j] == b@[j],
        decreases b@.len() - i,
    {
        if a[i] != b[i] {
            assert(s@.take(prefix@.len() as int)[i as int] != prefix@[i as int]);
            return false;
        }
        i = i + 1;
    }
    assert(s@.take(prefix@.len() as int) =~= prefix@);
    true
}

pub fn text_contains(s: &str, part: &str) -> (b: bool)
    ensures
        b == contains_text(s@, part@),
{
    let a = chars_of(s);
    let b = chars_of(part);
    if a.len() < b.len() {
        assert forall|i: int| 0 <= i && i + part@.len() <= s@.len() implies #[trigger] s@.subrange(i, i + part@.len()) != part@ by {}
        return false;
    }
    let mut start: usize = 0;
    while start <= a.len() - b.len()
        invariant
            a@ == s@,
            b@ == part@,
            a@.len() >= b@.len(),
            start <= a@.len() - b@.len() + 1,
            forall|i: int| 0 <= i < start ==> #[trigger] s@.subrange(i, i + part@.len()) != part@,
        decreases a@.len() - b@.len() + 1 - start,
    {
        let mut i: usize = 0;
        let mut same = true;
        while i < b.len()
            invariant
                a@ == s@,
                b@ == part@,
                start + b@.len() <= a@.len(),
                a@.len() <= usize::MAX,
                i <= b@.len(),
                same == forall|j: int| 0 <= j < i ==> a@[start + j] == b@[j],
            decreases b@.len() - i,
        {
            if a[start + i] != b[i] {
                same = false;
            }
            i = i + 1;
        }
        if same {
            assert(s@.subrange(start as int, start + part@.len()) =~= part@);
            return true;
        }
        assert(s@.subrange(start as int, start + part@.len()) != part@) by {
            let j = choose|j: int| 0 <= j < b@.len() && a@[start + j] != b@[j];
            assert(s@.subrange(start as int, start + part@.len())[j] != part@[j]);
        }
        start = start + 1;
    }
    false
}

/// What `str::to_lowercase` makes of a string: Unicode's lower case, which
/// for a few characters depends on their neighbours (a capital sigma at the
/// end of a word), the same on every machine.
pub uninterp spec fn lowercase(s: Seq<char>) -> Seq<char>;

/// Trusted: `str::to_lowercase`. Its result is named, not written out.
#[verifier::external_body]
pub(crate) fn to_lower(s: &str) -> (r: String)
    ensures
        r@ == lowercase(s@),
{
    s.to_lowercase()
}

/// What `char::to_uppercase` makes of one character, which may be more than
/// one character.
pub uninterp spec fn uppercase_char(c: char) -> Seq<char>;

/// Trusted: `char::to_uppercase`, collected into a string. Its result is
/// named, not written out.
#[verifier::external_body]
pub(crate) fn upper_char(c: char) -> (r: String)
    ensures
        r@ == uppercase_char(c),
{
    c.to_uppercase().collect::<String>()
}

} // verus!

verus! {

/// The characters `from..to` of a character vector, as a string.
pub fn string_of(cs: &Vec<char>, from: usize, to: usize) -> (out: String)
    requires
        from <= to <= cs@.len(),
    ensures
        out@ == cs@.subrange(from as int, to as int),
{
    let mut out = String::new();
    let mut p: usize = from;
    while p < to
        invariant
            from <= p <= to <= cs@.len(),
            out@ == cs@.subrange(from as int, p as int),
        decreases to - p,
    {
        push_char(&mut out, cs[p]);
        assert(cs@.subrange(from as int, p + 1) =~= cs@.subrange(from as int, p as int).push(cs@[p as int]));
        p = p + 1;
    }
    out
}

} // verus!

verus! {

pub open spec fn hex_digit(d: nat, upper: bool) -> char {
    if d < 10 {
        digit_char(d)
    } else if upper {
        ((d - 10 + 65) as u32) as char
    } else {
        ((d - 10 + 97) as u32) as char
    }
}

/// A natural number in hexadecimal, without leading zeros.
pub open spec fn hex(n: nat, upper: bool) -> Seq<char>
    decreases n,
{
    if n < 16 {
        seq![hex_digit(n, upper)]
    } else {
        hex(n / 16, upper).push(hex_digit(n % 16, upper))
    }
}

/// Hexadecimal, padded on the left with zeros to at least `width`
/// characters, the way `{:04X}` writes it.
pub open spec fn hex_padded(n: nat, width: nat, upper: bool) -> Seq<char> {
    let plain = hex(n, upper);
    if plain.len() >= width {
        plain
    } else {
        Seq::new((width - plain.len()) as nat, |i: int| '0') + plain
    }
}

fn hex_char(d: u64, upper: bool) -> (c: char)
    requires
        d < 16,
    ensures
        c == hex_digit(d as nat, upper),
{
    if d < 10 {
        digit(d)
    } else if upper {
        ((d - 10 + 65) as u8) as char
    } else {
        ((d - 10 + 97) as u8) as char
    }
}

fn hex_chars(n: u64, upper: bool) -> (out: Vec<char>)
    ensures
        out@ == hex(n as nat, upper),
    decreases n,
{
    if n < 16 {
        let mut out = Vec::new();
        out.push(hex_char(n, upper));
        out
    } else {
        let mut out = hex_chars(n / 16, upper);
        out.push(hex_char(n % 16, upper));
        out
    }
}

/// Appends `n` in hexadecimal, zero-padded to at least `width` characters.
pub fn push_hex(s: &mut String, n: u64, width: usize, upper: bool)
    ensures
        final(s)@ == old(s)@ + hex_padded(n as nat, width as nat, upper),
{
    let ds = hex_chars(n, upper);
    let ghost start = s@;
    let mut pad: usize = 0;
    let missing: usize = if ds.len() < width { width - ds.len() } else { 0 };
    while pad < missing
        invariant
            pad <= missing,
            s@ == start + Seq::new(pad as nat, |i: int| '0'),
        decreases missing - pad,
    {
        push_char(s, '0');
        assert(Seq::new((pad + 1) as nat, |i: int| '0') == Seq::new(pad as nat, |i: int| '0').push('0'));
        pad = pad + 1;
    }
    let ghost mid = s@;
    let mut i: usize = 0;
    while i < ds.len()
        invariant
            0 <= i <= ds@.len(),
            ds@ == hex(n as nat, upper),
            s@ == mid + ds@.take(i as int),
        decreases ds@.len() - i,
    {
        push_char(s, ds[i]);
        assert(ds@.take(i as int + 1) == ds@.take(i as int).push(ds@[i as int]));
        i = i + 1;
    }
    assert(ds@.take(ds@.len() as int) == ds@);
    if ds.len() >= width {
        assert(Seq::new(0nat, |i: int| '0') + ds@ == ds@);
    }
}

} // verus!

verus! {

pub open spec fn lower_char(c: char) -> char {
    if 'A' <= c && c <= 'Z' {
        ((c as u32) + 32) as char
    } else {
        c
    }
}

/// A name in ASCII lower case; other characters as they are.
pub open spec fn ascii_lower(s: Seq<char>) -> Seq<char> {
    Seq::new(s.len(), |i: int| lower_char(s[i]))
}

/// A string in ASCII lower case.
pub fn to_ascii_lower(s: &str) -> (out: String)
    ensures
        out@ == ascii_lower(s@),
{
    let chars = chars_of(s);
    let mut out = String::new();
    let mut i: usize = 0;
    while i < chars.len()
        invariant
            chars@ == s@,
            i <= chars@.len(),
            out@ == ascii_lower(s@).take(i as int),
        decreases chars@.len() - i,
    {
        let c = chars[i];
        let l = if 'A' <= c && c <= 'Z' {
            ((c as u8) + 32) as char
        } else {
            c
        };
        assert(l == lower_char(c));
        push_char(&mut out, l);
        assert(ascii_lower(s@).take(i as int + 1) =~= ascii_lower(s@).take(i as int).push(l));
        i = i + 1;
    }
    assert(ascii_lower(s@).take(i as int) =~= ascii_lower(s@));
    out
}

} // verus!

verus! {

/// `a` sorts no later than `b`: character by character by code point, and a
/// text before anything it begins. The order of `String`'s `Ord`, whose
/// bytes compare in the same order as the code points they encode.
pub open spec fn text_le(a: Seq<char>, b: Seq<char>) -> bool
    decreases a.len(),
{
    if a.len() == 0 {
        true
    } else if b.len() == 0 {
        false
    } else if a[0] != b[0] {
        a[0] < b[0]
    } else {
        text_le(a.drop_first(), b.drop_first())
    }
}

pub proof fn lemma_text_le_total(a: Seq<char>, b: Seq<char>)
    ensures
        text_le(a, b) || text_le(b, a),
    decreases a.len(),
{
    if a.len() > 0 && b.len() > 0 && a[0] == b[0] {
        lemma_text_le_total(a.drop_first(), b.drop_first());
    }
}

pub proof fn lemma_text_le_transitive(a: Seq<char>, b: Seq<char>, c: Seq<char>)
    requires
        text_le(a, b),
        text_le(b, c),
    ensures
        text_le(a, c),
    decreases a.len(),
{
    if a.len() > 0 && b.len() > 0 && c.len() > 0 && a[0] == b[0] && b[0] == c[0] {
        lemma_text_le_transitive(a.drop_first(), b.drop_first(), c.drop_first());
    }
}

/// Texts in order, each no later than any after it.
pub open spec fn sorted_texts(s: Seq<Seq<char>>) -> bool {
    forall|i: int, j: int| 0 <= i < j < s.len() ==> text_le(#[trigger] s[i], #[trigger] s[j])
}

/// Does `a` sort no later than `b`?
pub fn text_at_most(a: &str, b: &str) -> (r: bool)
    ensures
        r == text_le(a@, b@),
{
    let x = chars_of(a);
    let y = chars_of(b);
    assert(a@.skip(0) =~= a@);
    assert(b@.skip(0) =~= b@);
    let mut i: usize = 0;
    while i < x.len() && i < y.len()
        invariant
            x@ == a@,
            y@ == b@,
            i <= x@.len(),
            i <= y@.len(),
            text_le(a@, b@) == text_le(a@.skip(i as int), b@.skip(i as int)),
        decreases x@.len() - i,
    {
        let (p, q) = (x[i], y[i]);
        assert(a@.skip(i as int)[0] == p);
        assert(b@.skip(i as int)[0] == q);
        if p != q {
            return p < q;
        }
        assert(a@.skip(i as int).drop_first() =~= a@.skip(i as int + 1));
        assert(b@.skip(i as int).drop_first() =~= b@.skip(i as int + 1));
        i = i + 1;
    }
    x.len() <= y.len()
}

/// The texts in order, the same ones as many times each.
pub fn sort_texts(v: &Vec<String>) -> (out: Vec<String>)
    ensures
        sorted_texts(out.deep_view()),
        out.deep_view().to_multiset() == v.deep_view().to_multiset(),
{
    broadcast use vstd::seq_lib::group_to_multiset_ensures;

    let mut out: Vec<String> = Vec::new();
    let mut i: usize = 0;
    while i < v.len()
        invariant
            i <= v@.len(),
            sorted_texts(out.deep_view()),
            out.deep_view().to_multiset() == v.deep_view().take(i as int).to_multiset(),
        decreases v@.len() - i,
    {
        let x = String::from_str(v[i].as_str());
        let mut p: usize = 0;
        while p < out.len() && text_at_most(out[p].as_str(), x.as_str())
            invariant
                p <= out@.len(),
                forall|j: int| 0 <= j < p ==> text_le(#[trigger] out.deep_view()[j], x@),
            decreases out@.len() - p,
        {
            p = p + 1;
        }
        let ghost before = out.deep_view();
        proof {
            if p < out.len() {
                lemma_text_le_total(before[p as int], x@);
                assert forall|j: int| p <= j < before.len() implies text_le(x@, #[trigger] before[j]) by {
                    if j > p {
                        lemma_text_le_transitive(x@, before[p as int], before[j]);
                    }
                }
            }
        }
        out.insert(p, x);
        proof {
            let now = out.deep_view();
            assert(now =~= before.insert(p as int, x@));
            assert forall|a: int, b: int| 0 <= a < b < now.len() implies text_le(#[trigger] now[a], #[trigger] now[b]) by {
                if a < p && b < p {
                } else if a < p && b == p {
                } else if a < p && b > p {
                    assert(now[b] == before[b - 1]);
                } else if a == p {
                    assert(now[b] == before[b - 1]);
                } else {
                    assert(now[a] == before[a - 1]);
                    assert(now[b] == before[b - 1]);
                }
            }
            vstd::seq_lib::to_multiset_insert(before, p as int, x@);
            assert(v.deep_view().take(i as int + 1) =~= v.deep_view().take(i as int).push(v.deep_view()[i as int]));
            vstd::seq_lib::to_multiset_build(v.deep_view().take(i as int), v.deep_view()[i as int]);
        }
        i = i + 1;
    }
    proof {
        assert(v.deep_view().take(v@.len() as int) =~= v.deep_view());
    }
    out
}

/// Each text once, in the order first seen.
pub open spec fn distinct_texts(ids: Seq<Seq<char>>) -> Seq<Seq<char>>
    decreases ids.len(),
{
    if ids.len() == 0 {
        Seq::empty()
    } else {
        let earlier = distinct_texts(ids.drop_last());
        if earlier.contains(ids.last()) {
            earlier
        } else {
            earlier.push(ids.last())
        }
    }
}

/// Does the list hold this text?
pub fn listed(list: &Vec<String>, id: &str) -> (b: bool)
    ensures
        b == list.deep_view().contains(id@),
{
    let mut i: usize = 0;
    while i < list.len()
        invariant
            i <= list@.len(),
            forall|j: int| 0 <= j < i ==> list.deep_view()[j] != id@,
        decreases list@.len() - i,
    {
        if same_text(list[i].as_str(), id) {
            assert(list.deep_view()[i as int] == id@);
            return true;
        }
        i = i + 1;
    }
    false
}

/// Each text once, in the order first seen.
pub fn distinct(ids: &[String]) -> (out: Vec<String>)
    ensures
        out.deep_view() == distinct_texts(ids.deep_view()),
{
    let mut out: Vec<String> = Vec::new();
    let mut i: usize = 0;
    while i < ids.len()
        invariant
            i <= ids@.len(),
            out.deep_view() == distinct_texts(ids.deep_view().take(i as int)),
        decreases ids@.len() - i,
    {
        assert(ids.deep_view().take(i as int + 1).drop_last() =~= ids.deep_view().take(i as int));
        if !listed(&out, ids[i].as_str()) {
            out.push(String::from_str(ids[i].as_str()));
        }
        i = i + 1;
    }
    assert(ids.deep_view().take(i as int) =~= ids.deep_view());
    out
}

} // verus!
