//! Snapshot slot names and the small text helpers shared by the front-ends.
use vstd::prelude::*;
use vstd::string::*;

verus! {

/// Default slot used by the quick-save workflow.
pub const QUICK_SLOT: &'static str = "_quick";

/// `n` occurs in `h` as a contiguous run.
pub open spec fn has_substring(h: Seq<char>, n: Seq<char>) -> bool {
    exists|i: int| 0 <= i && i + n.len() <= h.len() && #[trigger] h.subrange(i, i + n.len()) == n
}

/// The characters of `s`.
pub(crate) fn chars_of(s: &str) -> (v: Vec<char>)
    ensures
        v@ == s@,
{
    let n = s.unicode_len();
    let mut v: Vec<char> = Vec::new();
    let mut i: usize = 0;
    while i < n
        invariant
            n == s@.len(),
            i <= n,
            v@ == s@.take(i as int),
        decreases n - i,
    {
        v.push(s.get_char(i));
        i = i + 1;
        assert(v@ =~= s@.take(i as int));
    }
    assert(s@.take(n as int) =~= s@);
    v
}

/// `n` occurs in `h` at `i`.
fn matches_at(h: &Vec<char>, i: usize, n: &Vec<char>) -> (r: bool)
    requires
        i + n@.len() <= h@.len(),
    ensures
        r == (h@.subrange(i as int, i + n@.len()) == n@),
{
    let hl = h.len();
    let mut j: usize = 0;
    while j < n.len()
        invariant
            hl == h@.len(),
            j <= n@.len(),
            i + n@.len() <= h@.len(),
            forall|k: int| 0 <= k < j ==> h@[i + k] == n@[k],
        decreases n@.len() - j,
    {
        if h[i + j] != n[j] {
            assert(h@.subrange(i as int, i + n@.len())[j as int] != n@[j as int]);
            return false;
        }
        j = j + 1;
    }
    assert(h@.subrange(i as int, i + n@.len()) =~= n@);
    true
}

/// Whether `needle` occurs in `hay`.
pub(crate) fn contains_str(hay: &str, needle: &str) -> (r: bool)
    ensures
        r == has_substring(hay@, needle@),
{
    let h = chars_of(hay);
    let n = chars_of(needle);
    if n.len() > h.len() {
        return false;
    }
    let last = h.len() - n.len();
    let mut i: usize = 0;
    loop
        invariant
            h@ == hay@,
            n@ == needle@,
            last == h@.len() - n@.len(),
            i <= last,
            forall|k: int| 0 <= k < i ==> #[trigger] h@.subrange(k, k + n@.len()) != n@,
        ensures
            forall|k: int| 0 <= k <= last ==> #[trigger] h@.subrange(k, k + n@.len()) != n@,
        decreases last - i,
    {
        if matches_at(&h, i, &n) {
            return true;
        }
        if i == last {
            break;
        }
        i = i + 1;
    }
    assert forall|k: int| 0 <= k && k + n@.len() <= h@.len() implies #[trigger] h@.subrange(
        k,
        k + n@.len(),
    ) != n@ by {}
    false
}

/// Whether `c` occurs in `s`.
fn contains_char(s: &str, c: char) -> (r: bool)
    ensures
        r == s@.contains(c),
{
    let v = chars_of(s);
    let mut i: usize = 0;
    while i < v.len()
        invariant
            v@ == s@,
            i <= v@.len(),
            forall|k: int| 0 <= k < i ==> v@[k] != c,
        decreases v@.len() - i,
    {
        if v[i] == c {
            return true;
        }
        i = i + 1;
    }
    false
}

/// Whether two strings hold the same characters.
pub(crate) fn str_eq(a: &str, b: &str) -> (r: bool)
    ensures
        r == (a@ == b@),
{
    let x = chars_of(a);
    let y = chars_of(b);
    if x.len() != y.len() {
        return false;
    }
    let r = matches_at(&x, 0, &y);
    assert(x@.subrange(0, y@.len() as int) =~= x@);
    r
}

/// A slot name is refused when it is empty or could reach outside the
/// snapshot directory.
pub open spec fn slot_name_ok(slot: Seq<char>) -> bool {
    &&& slot.len() != 0
    &&& !slot.contains('/')
    &&& !has_substring(slot, ".."@)
}

pub fn validate_slot(slot: &str) -> (r: Result<(), String>)
    ensures
        match r {
            Ok(_) => slot_name_ok(slot@),
            Err(e) => !slot_name_ok(slot@) && e@ == "invalid slot name '"@ + slot@ + "'"@,
        },
{
    let n = slot.unicode_len();
    if n == 0 || contains_char(slot, '/') || contains_str(slot, "..") {
        let mut e = String::from_str("invalid slot name '");
        e.append(slot);
        e.append("'");
        return Err(e);
    }
    Ok(())
}

/// How a slot is shown: the quick slot as `[quick]`, others by their name.
pub open spec fn shown_slot(slot: Seq<char>) -> Seq<char> {
    if slot == QUICK_SLOT@ {
        "[quick]"@
    } else {
        slot
    }
}

pub fn display_slot(slot: &str) -> (r: String)
    ensures
        r@ == shown_slot(slot@),
{
    if str_eq(slot, QUICK_SLOT) {
        String::from_str("[quick]")
    } else {
        String::from_str(slot)
    }
}

// ---------------------------------------------------------------------------
// Decimal numbers.
pub open spec fn digit(d: int) -> char {
    if d == 0 {
        '0'
    } else if d == 1 {
        '1'
    } else if d == 2 {
        '2'
    } else if d == 3 {
        '3'
    } else if d == 4 {
        '4'
    } else if d == 5 {
        '5'
    } else if d == 6 {
        '6'
    } else if d == 7 {
        '7'
    } else if d == 8 {
        '8'
    } else {
        '9'
    }
}

/// The decimal digits of `n`, without leading zeros.
pub open spec fn decimal(n: nat) -> Seq<char>
    decreases n,
{
    if n < 10 {
        seq![digit(n as int)]
    } else {
        decimal(n / 10).push(digit((n % 10) as int))
    }
}

fn digit_str(d: u64) -> (s: &'static str)
    requires
        d < 10,
    ensures
        s@ == seq![digit(d as int)],
{
    proof {
        reveal_strlit("0");
        reveal_strlit("1");
        reveal_strlit("2");
        reveal_strlit("3");
        reveal_strlit("4");
        reveal_strlit("5");
        reveal_strlit("6");
        reveal_strlit("7");
        reveal_strlit("8");
        reveal_strlit("9");
    }
    let s = if d == 0 {
        "0"
    } else if d == 1 {
        "1"
    } else if d == 2 {
        "2"
    } else if d == 3 {
        "3"
    } else if d == 4 {
        "4"
    } else if d == 5 {
        "5"
    } else if d == 6 {
        "6"
    } else if d == 7 {
        "7"
    } else if d == 8 {
        "8"
    } else {
        "9"
    };
    assert(s@ =~= seq![digit(d as int)]);
    s
}

/// Appends the decimal digits of `n`.
pub(crate) fn push_decimal(s: &mut String, n: u128)
    ensures
        final(s)@ == old(s)@ + decimal(n as nat),
    decreases n,
{
    if n >= 10 {
        push_decimal(s, n / 10);
    }
    s.append(digit_str((n % 10) as u64));
    assert(final(s)@ =~= old(s)@ + decimal(n as nat));
}

/// `n` in decimal followed by `suffix`.
fn decimal_with(n: u64, suffix: &str) -> (r: String)
    ensures
        r@ == decimal(n as nat) + suffix@,
{
    let mut s = String::new();
    push_decimal(&mut s, n as u128);
    s.append(suffix);
    assert(s@ =~= decimal(n as nat) + suffix@);
    s
}

/// An age in seconds, in its largest whole unit.
pub open spec fn relative_text(secs: u64) -> Seq<char> {
    if secs <= 59 {
        decimal(secs as nat) + "s ago"@
    } else if secs <= 3599 {
        decimal((secs / 60) as nat) + "m ago"@
    } else if secs <= 86399 {
        decimal((secs / 3600) as nat) + "h ago"@
    } else {
        decimal((secs / 86400) as nat) + "d ago"@
    }
}

pub fn fmt_relative(secs: u64) -> (r: String)
    ensures
        r@ == relative_text(secs),
{
    if secs <= 59 {
        decimal_with(secs, "s ago")
    } else if secs <= 3599 {
        decimal_with(secs / 60, "m ago")
    } else if secs <= 86399 {
        decimal_with(secs / 3600, "h ago")
    } else {
        decimal_with(secs / 86400, "d ago")
    }
}

// ---------------------------------------------------------------------------
// Typed input: trimming and numbers.
/// `c` has the Unicode White_Space property (what `char::is_whitespace`
/// tests).
pub open spec fn is_white(c: char) -> bool {
    let u = c as u32;
    ||| 0x09 <= u <= 0x0D
    ||| u == 0x20
    ||| u == 0x85
    ||| u == 0xA0
    ||| u == 0x1680
    ||| 0x2000 <= u <= 0x200A
    ||| u == 0x2028
    ||| u == 0x2029
    ||| u == 0x202F
    ||| u == 0x205F
    ||| u == 0x3000
}

/// The first index at or after `i` that holds no white space (or the end).
pub open spec fn first_dark(s: Seq<char>, i: int) -> int
    decreases s.len() - i,
{
    if i < 0 || i >= s.len() {
        s.len() as int
    } else if is_white(s[i]) {
        first_dark(s, i + 1)
    } else {
        i
    }
}

/// The end of the text before `j` once trailing white space is dropped.
pub open spec fn dark_end(s: Seq<char>, j: int) -> int
    decreases j,
{
    if j <= 0 || j > s.len() {
        0
    } else if is_white(s[j - 1]) {
        dark_end(s, j - 1)
    } else {
        j
    }
}

/// `s` without leading and trailing white space (what `str::trim` gives).
pub open spec fn trimmed(s: Seq<char>) -> Seq<char> {
    let a = first_dark(s, 0);
    if a >= s.len() {
        seq![]
    } else {
        s.subrange(a, dark_end(s, s.len() as int))
    }
}

fn white(c: char) -> (r: bool)
    ensures
        r == is_white(c),
{
    let u = c as u32;
    (0x09 <= u && u <= 0x0D) || u == 0x20 || u == 0x85 || u == 0xA0 || u == 0x1680 || (0x2000
        <= u && u <= 0x200A) || u == 0x2028 || u == 0x2029 || u == 0x202F || u == 0x205F || u
        == 0x3000
}

proof fn lemma_dark_end_bounds(s: Seq<char>, j: int, a: int)
    requires
        0 <= a < s.len(),
        a < j <= s.len(),
        !is_white(s[a]),
    ensures
        a < dark_end(s, j) <= j,
    decreases j,
{
    if is_white(s[j - 1]) {
        lemma_dark_end_bounds(s, j - 1, a);
    }
}

proof fn lemma_first_dark(s: Seq<char>, i: int)
    requires
        0 <= i,
    ensures
        i <= first_dark(s, i) <= s.len() || (i > s.len() && first_dark(s, i) == s.len()),
        first_dark(s, i) < s.len() ==> !is_white(s[first_dark(s, i)]),
        forall|k: int| i <= k < first_dark(s, i) ==> is_white(#[trigger] s[k]),
    decreases s.len() - i,
{
    if i < s.len() && is_white(s[i]) {
        lemma_first_dark(s, i + 1);
    }
}

proof fn lemma_dark_end(s: Seq<char>, j: int)
    requires
        0 <= j <= s.len(),
    ensures
        0 <= dark_end(s, j) <= j,
        dark_end(s, j) > 0 ==> !is_white(s[dark_end(s, j) - 1]),
    decreases j,
{
    if j > 0 && is_white(s[j - 1]) {
        lemma_dark_end(s, j - 1);
    }
}

/// Trimming twice is trimming once.
pub proof fn lemma_trimmed_twice(s: Seq<char>)
    ensures
        trimmed(trimmed(s)) == trimmed(s),
{
    let a = first_dark(s, 0);
    lemma_first_dark(s, 0);
    if a < s.len() {
        lemma_dark_end_bounds(s, s.len() as int, a);
        lemma_dark_end(s, s.len() as int);
        let e = dark_end(s, s.len() as int);
        let t = s.subrange(a, e);
        assert(t[0] == s[a]);
        assert(first_dark(t, 0) == 0);
        assert(t[t.len() - 1] == s[e - 1]);
        assert(dark_end(t, t.len() as int) == t.len());
        assert(t.subrange(0, t.len() as int) =~= t);
    }
}

/// `s` without leading and trailing white space.
pub fn trim_text(s: &str) -> (r: String)
    ensures
        r@ == trimmed(s@),
{
    let n = s.unicode_len();
    let mut a: usize = 0;
    while a < n && white(s.get_char(a))
        invariant
            n == s@.len(),
            a <= n,
            first_dark(s@, a as int) == first_dark(s@, 0),
        decreases n - a,
    {
        a = a + 1;
    }
    if a >= n {
        return String::new();
    }
    let mut b: usize = n;
    while b > a && white(s.get_char(b - 1))
        invariant
            n == s@.len(),
            a < n,
            a < b <= n,
            !is_white(s@[a as int]),
            dark_end(s@, b as int) == dark_end(s@, n as int),
        decreases b,
    {
        b = b - 1;
    }
    proof {
        assert(dark_end(s@, b as int) == b as int);
        assert(first_dark(s@, a as int) == a as int);
    }
    String::from_str(s.substring_char(a, b))
}

/// The value of a run of decimal digits.
pub open spec fn digits_value(s: Seq<char>) -> nat
    decreases s.len(),
{
    if s.len() == 0 {
        0
    } else {
        digits_value(s.drop_last()) * 10 + ((s.last() as u32) - ('0' as u32)) as nat
    }
}

pub open spec fn is_digit(c: char) -> bool {
    '0' <= c && c <= '9'
}

/// `s` without its leading `+`, if it has one.
pub open spec fn unsigned_part(s: Seq<char>) -> Seq<char> {
    if s.len() > 0 && s[0] == '+' {
        s.skip(1)
    } else {
        s
    }
}

/// What `str::parse` gives for an unsigned type whose largest value is
/// `max`: an optional `+`, then one or more ASCII digits whose value is at
/// most `max`; anything else is refused.
pub open spec fn parsed_upto(s: Seq<char>, max: int) -> Option<int> {
    let d = unsigned_part(s);
    if d.len() > 0 && (forall|i: int| 0 <= i < d.len() ==> is_digit(#[trigger] d[i]))
        && digits_value(d) <= max {
        Some(digits_value(d) as int)
    } else {
        None
    }
}

/// What `str::parse::<u32>` gives.
pub open spec fn parsed_u32(s: Seq<char>) -> Option<u32> {
    match parsed_upto(s, u32::MAX as int) {
        Some(v) => Some(v as u32),
        None => None,
    }
}

/// What `str::parse::<usize>` gives.
pub open spec fn parsed_usize(s: Seq<char>) -> Option<usize> {
    match parsed_upto(s, usize::MAX as int) {
        Some(v) => Some(v as usize),
        None => None,
    }
}

proof fn lemma_digits_grow(d: Seq<char>, i: int)
    requires
        0 <= i <= d.len(),
        forall|k: int| 0 <= k < d.len() ==> is_digit(#[trigger] d[k]),
    ensures
        digits_value(d.take(i)) <= digits_value(d),
    decreases d.len() - i,
{
    if i < d.len() {
        lemma_digits_grow(d, i + 1);
        let t = d.take(i + 1);
        assert(t.drop_last() =~= d.take(i));
        assert(t.last() == d[i]);
        assert(is_digit(d[i]));
        assert(digits_value(t) == digits_value(d.take(i)) * 10 + ((d[i] as u32) - ('0' as u32)) as nat);
    } else {
        assert(d.take(i) =~= d);
    }
}

/// `s` read as an unsigned decimal of at most `max`.
fn parse_upto(s: &str, max: u64) -> (r: Option<u64>)
    ensures
        match r {
            Some(v) => parsed_upto(s@, max as int) == Some(v as int),
            None => parsed_upto(s@, max as int) is None,
        },
{
    let n = s.unicode_len();
    let mut start: usize = 0;
    if n > 0 && s.get_char(0) == '+' {
        start = 1;
    }
    let ghost d = unsigned_part(s@);
    assert(d =~= s@.skip(start as int));
    if start >= n {
        return None;
    }
    let mut i: usize = start;
    let mut v: u64 = 0;
    while i < n
        invariant
            n == s@.len(),
            start <= i <= n,
            start < n,
            d == s@.skip(start as int),
            d == unsigned_part(s@),
            d.len() == n - start,
            forall|k: int| 0 <= k < i - start ==> is_digit(#[trigger] d[k]),
            v == digits_value(d.take(i - start)),
            v <= max,
        decreases n - i,
    {
        let c = s.get_char(i);
        let ghost k = i - start;
        assert(d[k] == c);
        if !('0' <= c && c <= '9') {
            assert(!is_digit(d[k]));
            return None;
        }
        let digit = (c as u64) - ('0' as u64);
        let ghost t = d.take(k + 1);
        assert(t.drop_last() =~= d.take(k));
        assert(t.last() == c);
        assert(digits_value(t) == v * 10 + digit);
        if digit > max || v > (max - digit) / 10 {
            assert(v * 10 + digit > max) by (nonlinear_arith)
                requires
                    digit > max || v > (max - digit) / 10,
                    digit <= 9,
            ;
            proof {
                if forall|j: int| 0 <= j < d.len() ==> is_digit(#[trigger] d[j]) {
                    lemma_digits_grow(d, k + 1);
                }
            }
            return None;
        }
        assert(v * 10 + digit <= max) by (nonlinear_arith)
            requires
                digit <= max,
                v <= (max - digit) / 10,
                digit <= 9,
        ;
        v = v * 10 + digit;
        i = i + 1;
    }
    assert(d.take(n - start) =~= d);
    Some(v)
}

/// `s` read as a decimal `u32`, as `str::parse::<u32>` reads it.
pub fn parse_u32(s: &str) -> (r: Option<u32>)
    ensures
        r == parsed_u32(s@),
{
    match parse_upto(s, 0xFFFF_FFFF) {
        Some(v) => Some(v as u32),
        None => None,
    }
}

/// `s` read as a decimal `usize`, as `str::parse::<usize>` reads it.
pub fn parse_usize(s: &str) -> (r: Option<usize>)
    ensures
        r == parsed_usize(s@),
{
    match parse_upto(s, usize::MAX as u64) {
        Some(v) => Some(v as usize),
        None => None,
    }
}

/// The snapshot name that typed text gives: the text trimmed, and none when
/// nothing is left.
pub fn snapshot_name(typed: &str) -> (r: Option<String>)
    ensures
        match r {
            Some(n) => trimmed(typed@).len() > 0 && n@ == trimmed(typed@),
            None => trimmed(typed@).len() == 0,
        },
{
    let n = trim_text(typed);
    if n.unicode_len() == 0 {
        None
    } else {
        Some(n)
    }
}

} // verus!
