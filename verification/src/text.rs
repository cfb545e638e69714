//! Character-level helpers shared by the record formats: decimal numbers,
//! whitespace trimming, searching and building strings.

use vstd::prelude::*;
use vstd::utf8::{decode_utf8, encode_utf8, is_ascii_chars, is_char_boundary};

verus! {

/// The character of a decimal digit `d` (`0 <= d < 10`).
pub open spec fn digit_char(d: nat) -> char {
    (d + 48) as char
}

/// The decimal notation of `n`, without sign and without leading zeros.
pub open spec fn spec_decimal(n: nat) -> Seq<char>
    decreases n,
{
    if n < 10 {
        seq![digit_char(n)]
    } else {
        spec_decimal(n / 10).push(digit_char(n % 10))
    }
}

/// Appends one character to a string (`String::push`): the string's
/// characters are the old ones and then `c`.
#[verifier::external_body]
pub(crate) fn push_char(s: &mut String, c: char)
    ensures
        final(s)@ == old(s)@.push(c),
{
    s.push(c)
}

fn digit_of(d: u128) -> (c: char)
    requires
        d < 10,
    ensures
        c == digit_char(d as nat),
{
    let b: u8 = 48u8 + (d as u8);
    b as char
}

/// Appends the decimal notation of `n` to `out`.
pub fn push_decimal(out: &mut String, n: u128)
    ensures
        final(out)@ == old(out)@ + spec_decimal(n as nat),
    decreases n,
{
    if n >= 10 {
        push_decimal(out, n / 10);
    }
    push_char(out, digit_of(n % 10));
}


/// Whether `c` is a decimal digit.
pub open spec fn is_digit(c: char) -> bool {
    '0' <= c && c <= '9'
}

/// The value of a decimal digit character.
pub open spec fn digit_value(c: char) -> nat {
    (c as int - 48) as nat
}

/// Whether every character of `s` is a decimal digit.
pub open spec fn all_digits(s: Seq<char>) -> bool {
    forall|i: int| 0 <= i < s.len() ==> is_digit(#[trigger] s[i])
}

/// The value of a sequence of decimal digits (most significant first).
pub open spec fn digits_value(s: Seq<char>) -> nat
    decreases s.len(),
{
    if s.len() == 0 {
        0
    } else {
        digits_value(s.drop_last()) * 10 + digit_value(s.last())
    }
}

/// What `str::parse::<u64>` gives for `s`: an optional `+`, then at least
/// one decimal digit, and a value that fits in a `u64`.
pub open spec fn spec_parse_u64(s: Seq<char>) -> Option<u64> {
    let d = if s.len() > 0 && s[0] == '+' { s.drop_first() } else { s };
    if d.len() == 0 || !all_digits(d) || digits_value(d) > u64::MAX {
        None
    } else {
        Some(digits_value(d) as u64)
    }
}

/// `0` reads as zero.
pub proof fn lemma_parse_zero()
    ensures
        spec_parse_u64(seq!['0']) == Some(0u64),
{
    reveal_with_fuel(digits_value, 2);
    assert(seq!['0'].drop_last() =~= Seq::<char>::empty());
}

proof fn lemma_digits_value_prefix(s: Seq<char>, i: int)
    requires
        0 <= i <= s.len(),
    ensures
        digits_value(s.take(i)) <= digits_value(s),
    decreases s.len(),
{
    if i < s.len() {
        assert(s.drop_last().take(i) =~= s.take(i));
        lemma_digits_value_prefix(s.drop_last(), i);
    } else {
        assert(s.take(i) =~= s);
    }
}

/// The decimal notation of `n` is a non-empty run of digits worth `n`.
pub proof fn lemma_decimal_digits(n: nat)
    ensures
        spec_decimal(n).len() > 0,
        all_digits(spec_decimal(n)),
        digits_value(spec_decimal(n)) == n,
    decreases n,
{
    if n >= 10 {
        lemma_decimal_digits(n / 10);
        let d = spec_decimal(n);
        assert(d.drop_last() =~= spec_decimal(n / 10));
        assert(forall|i: int| 0 <= i < d.len() - 1 ==> d[i] == spec_decimal(n / 10)[i]);
        assert(digit_value(digit_char(n % 10)) == n % 10);
        assert(digits_value(d) == digits_value(d.drop_last()) * 10 + digit_value(d.last()));
        assert((n / 10) * 10 + n % 10 == n) by (nonlinear_arith);
    } else {
        assert(spec_decimal(n).drop_last() =~= Seq::<char>::empty());
        assert(digit_value(digit_char(n)) == n);
        assert(digits_value(Seq::<char>::empty()) == 0);
    }
}

/// Reading the decimal notation of a `u64` gives the number back.
pub proof fn lemma_decimal_round_trip(v: u64)
    ensures
        spec_parse_u64(spec_decimal(v as nat)) == Some(v),
{
    lemma_decimal_digits(v as nat);
    assert(is_digit(spec_decimal(v as nat)[0]));
}

/// Parses `s[a..b]` as `str::parse::<u64>` does.
pub fn parse_u64_range(s: &Vec<char>, a: usize, b: usize) -> (r: Option<u64>)
    requires
        a <= b <= s.len(),
    ensures
        r == spec_parse_u64(s@.subrange(a as int, b as int)),
{
    let ghost sub = s@.subrange(a as int, b as int);
    let mut start = a;
    if a < b && s[a] == '+' {
        start = a + 1;
    }
    let ghost d = s@.subrange(start as int, b as int);
    assert(d =~= (if sub.len() > 0 && sub[0] == '+' { sub.drop_first() } else { sub }));
    if start == b {
        return None;
    }
    let mut acc: u64 = 0;
    let mut i = start;
    while i < b
        invariant
            start <= i <= b <= s.len(),
            d == s@.subrange(start as int, b as int),
            sub == s@.subrange(a as int, b as int),
            d =~= (if sub.len() > 0 && sub[0] == '+' { sub.drop_first() } else { sub }),
            d.len() > 0,
            all_digits(s@.subrange(start as int, i as int)),
            acc == digits_value(s@.subrange(start as int, i as int)),
        decreases b - i,
    {
        let c = s[i];
        let ghost pre = s@.subrange(start as int, i as int);
        let ghost next = s@.subrange(start as int, i + 1 as int);
        assert(next.drop_last() =~= pre);
        assert(next.last() == c);
        if !('0' <= c && c <= '9') {
            assert(d[i - start] == c);
            return None;
        }
        let dv: u64 = (c as u32 - 48u32) as u64;
        assert(all_digits(next));
        if acc > (u64::MAX - dv) / 10 {
            proof {
                assert(d.take(i + 1 - start) =~= next);
                lemma_digits_value_prefix(d, i + 1 - start);
                assert(digits_value(next) == acc * 10 + dv);
                assert(acc * 10 + dv > u64::MAX) by (nonlinear_arith)
                    requires acc > (u64::MAX - dv) / 10, dv <= 9;
            }
            return None;
        }
        acc = acc * 10 + dv;
        i = i + 1;
    }
    assert(d =~= s@.subrange(start as int, i as int));
    Some(acc)
}


/// Unicode `White_Space`, the property that `char::is_whitespace` tests.
pub open spec fn is_whitespace(c: char) -> bool {
    ||| ('\u{9}' <= c && c <= '\u{d}')
    ||| c == ' '
    ||| c == '\u{85}'
    ||| c == '\u{a0}'
    ||| c == '\u{1680}'
    ||| ('\u{2000}' <= c && c <= '\u{200a}')
    ||| c == '\u{2028}'
    ||| c == '\u{2029}'
    ||| c == '\u{202f}'
    ||| c == '\u{205f}'
    ||| c == '\u{3000}'
}

/// Whether `c` is a whitespace character (`char::is_whitespace`).
pub fn char_is_whitespace(c: char) -> (r: bool)
    ensures
        r == is_whitespace(c),
{
    ('\u{9}' <= c && c <= '\u{d}') || c == ' ' || c == '\u{85}' || c == '\u{a0}' || c
        == '\u{1680}' || ('\u{2000}' <= c && c <= '\u{200a}') || c == '\u{2028}' || c
        == '\u{2029}' || c == '\u{202f}' || c == '\u{205f}' || c == '\u{3000}'
}

/// The characters that trimming removes: whitespace when `quote` is false,
/// the double quote when it is true.
pub open spec fn trimmed(c: char, quote: bool) -> bool {
    if quote {
        c == '"'
    } else {
        is_whitespace(c)
    }
}

/// `s` with the leading characters that `trimmed` selects removed.
pub open spec fn trim_start(s: Seq<char>, quote: bool) -> Seq<char>
    decreases s.len(),
{
    if s.len() > 0 && trimmed(s[0], quote) {
        trim_start(s.drop_first(), quote)
    } else {
        s
    }
}

/// `s` with the trailing characters that `trimmed` selects removed.
pub open spec fn trim_end(s: Seq<char>, quote: bool) -> Seq<char>
    decreases s.len(),
{
    if s.len() > 0 && trimmed(s.last(), quote) {
        trim_end(s.drop_last(), quote)
    } else {
        s
    }
}

/// `str::trim` (whitespace) or `str::trim_matches('"')` (quotes).
pub open spec fn trim(s: Seq<char>, quote: bool) -> Seq<char> {
    trim_end(trim_start(s, quote), quote)
}

fn is_trimmed(c: char, quote: bool) -> (r: bool)
    ensures
        r == trimmed(c, quote),
{
    if quote {
        c == '"'
    } else {
        char_is_whitespace(c)
    }
}

/// Bounds `(a', b')` such that `s[a'..b']` is `trim(s[a..b])`.
pub fn trim_range(s: &Vec<char>, a: usize, b: usize, quote: bool) -> (r: (usize, usize))
    requires
        a <= b <= s.len(),
    ensures
        a <= r.0 <= r.1 <= b,
        s@.subrange(r.0 as int, r.1 as int) == trim(s@.subrange(a as int, b as int), quote),
{
    let mut x = a;
    while x < b && is_trimmed(s[x], quote)
        invariant
            a <= x <= b <= s.len(),
            trim_start(s@.subrange(a as int, b as int), quote) == trim_start(
                s@.subrange(x as int, b as int),
                quote,
            ),
        decreases b - x,
    {
        assert(s@.subrange(x as int, b as int).drop_first() =~= s@.subrange(x + 1, b as int));
        x = x + 1;
    }
    assert(trim_start(s@.subrange(x as int, b as int), quote) == s@.subrange(x as int, b as int));
    let mut y = b;
    while y > x && is_trimmed(s[y - 1], quote)
        invariant
            a <= x <= y <= b <= s.len(),
            trim(s@.subrange(a as int, b as int), quote) == trim_end(
                s@.subrange(x as int, y as int),
                quote,
            ),
        decreases y,
    {
        assert(s@.subrange(x as int, y as int).drop_last() =~= s@.subrange(x as int, y - 1));
        y = y - 1;
    }
    (x, y)
}

/// Whether `pat` occurs in `s` at index `i`.
pub open spec fn occurs_at(s: Seq<char>, pat: Seq<char>, i: int) -> bool {
    0 <= i && i + pat.len() <= s.len() && s.subrange(i, i + pat.len()) == pat
}

/// The first index at or after `i` where `pat` occurs in `s` (`str::find`).
pub open spec fn find_from(s: Seq<char>, pat: Seq<char>, i: int) -> Option<int>
    decreases s.len() + 1 - i,
{
    if i < 0 || i + pat.len() > s.len() {
        None
    } else if occurs_at(s, pat, i) {
        Some(i)
    } else {
        find_from(s, pat, i + 1)
    }
}

/// What `find_from` finds: the first occurrence at or after `i`.
pub proof fn lemma_find_from(s: Seq<char>, pat: Seq<char>, i: int)
    requires
        0 <= i,
    ensures
        find_from(s, pat, i) matches Some(x) ==> i <= x && occurs_at(s, pat, x) && forall|k: int|
            i <= k < x ==> !#[trigger] occurs_at(s, pat, k),
        find_from(s, pat, i) is None ==> forall|k: int| i <= k ==> !#[trigger] occurs_at(s, pat, k),
    decreases s.len() + 1 - i,
{
    if i + pat.len() > s.len() {
    } else if !occurs_at(s, pat, i) {
        lemma_find_from(s, pat, i + 1);
    }
}

/// Whether `pat` occurs at `s[i..]` (exec).
fn occurs_at_exec(s: &Vec<char>, end: usize, pat: &[char], i: usize) -> (r: bool)
    requires
        end <= s.len(),
        i <= end,
    ensures
        r == occurs_at(s@.subrange(0, end as int), pat@, i as int),
{
    if pat.len() > end - i {
        return false;
    }
    let mut k: usize = 0;
    while k < pat.len()
        invariant
            i + pat.len() <= end <= s.len(),
            k <= pat.len(),
            forall|j: int| 0 <= j < k ==> s@[i + j] == pat@[j],
        decreases pat.len() - k,
    {
        if s[i + k] != pat[k] {
            assert(s@.subrange(0, end as int).subrange(i as int, i + pat.len())[k as int] != pat@[k as int]);
            return false;
        }
        k = k + 1;
    }
    assert(s@.subrange(0, end as int).subrange(i as int, i + pat@.len()) =~= pat@);
    true
}

/// The first index in `[from, end)` where `pat` occurs within `s[..end]`.
pub fn find_in(s: &Vec<char>, end: usize, pat: &[char], from: usize) -> (r: Option<usize>)
    requires
        from <= end <= s.len(),
        pat.len() > 0,
    ensures
        r matches Some(i) ==> find_from(s@.subrange(0, end as int), pat@, from as int) == Some(i as int)
            && from <= i && i + pat.len() <= end,
        r is None ==> find_from(s@.subrange(0, end as int), pat@, from as int) is None,
{
    let ghost t = s@.subrange(0, end as int);
    let mut i = from;
    while i < end
        invariant
            from <= i <= end <= s.len(),
            t == s@.subrange(0, end as int),
            pat.len() > 0,
            find_from(t, pat@, from as int) == find_from(t, pat@, i as int),
        decreases end - i,
    {
        if occurs_at_exec(s, end, pat, i) {
            return Some(i);
        }
        i = i + 1;
    }
    None
}

/// The characters of `s`, in order.
pub fn chars_of(s: &str) -> (v: Vec<char>)
    ensures
        v@ == s@,
{
    broadcast use vstd::string::axiom_spec_iter;
    let mut v: Vec<char> = Vec::new();
    for c in it: s.chars()
        invariant
            v@ == it.seq().take(it.index() as int),
    {
        v.push(c);
    }
    v
}

/// Whether the string `s` reads `w`.
pub fn string_eq_str(s: &String, w: &str) -> (r: bool)
    ensures
        r == (s@ == w@),
{
    let a = chars_of(s.as_str());
    let b = chars_of(w);
    if a.len() != b.len() {
        return false;
    }
    let mut k: usize = 0;
    while k < a.len()
        invariant
            a.len() == b.len(),
            a@ == s@,
            b@ == w@,
            k <= a.len(),
            forall|j: int| 0 <= j < k ==> a@[j] == b@[j],
        decreases a.len() - k,
    {
        if a[k] != b[k] {
            assert(a@[k as int] != b@[k as int]);
            return false;
        }
        k = k + 1;
    }
    assert(a@ =~= b@);
    true
}

/// The pieces of `s` between the occurrences of `sep` (`str::split` with
/// a character), empty pieces included.
pub open spec fn spec_split(s: Seq<char>, sep: char) -> Seq<Seq<char>>
    decreases s.len(),
{
    match find_from(s, seq![sep], 0) {
        None => seq![s],
        Some(i) => {
            proof {
                lemma_find_from(s, seq![sep], 0);
            }
            seq![s.subrange(0, i)] + spec_split(s.subrange(i + 1, s.len() as int), sep)
        },
    }
}

/// A one-character pattern occurs exactly where that character stands.
pub proof fn lemma_occurs_char(s: Seq<char>, c: char, k: int)
    ensures
        occurs_at(s, seq![c], k) <==> (0 <= k < s.len() && s[k] == c),
{
    if 0 <= k < s.len() {
        assert(s.subrange(k, k + 1) =~= seq![s[k]]);
        if s.subrange(k, k + 1) == seq![c] {
            assert(s.subrange(k, k + 1)[0] == c);
        }
    }
}

/// The first `sep` in `x + [sep] + y`, where `x` holds none, is the one
/// after `x`.
pub proof fn lemma_find_char_after(x: Seq<char>, y: Seq<char>, sep: char)
    requires
        !x.contains(sep),
    ensures
        find_from(x + seq![sep] + y, seq![sep], 0) == Some(x.len() as int),
{
    let s = x + seq![sep] + y;
    lemma_find_char_at(s, sep, 0, x.len() as int);
}

/// `find_from` from `i` finds the character `sep` first at `n` when it
/// stands there and not before.
proof fn lemma_find_char_at(s: Seq<char>, sep: char, i: int, n: int)
    requires
        0 <= i <= n < s.len(),
        s[n] == sep,
        forall|k: int| i <= k < n ==> s[k] != sep,
    ensures
        find_from(s, seq![sep], i) == Some(n),
    decreases n - i,
{
    lemma_occurs_char(s, sep, i);
    if i < n {
        lemma_find_char_at(s, sep, i + 1, n);
    }
}

/// A character that `x` lacks is not found in it.
pub proof fn lemma_find_char_none(x: Seq<char>, c: char)
    requires
        !x.contains(c),
    ensures
        find_from(x, seq![c], 0) is None,
{
    lemma_find_from(x, seq![c], 0);
    if let Some(m) = find_from(x, seq![c], 0) {
        lemma_occurs_char(x, c, m);
        assert(x.contains(c));
    }
}

/// A text without `sep` is one piece.
pub proof fn lemma_split_no_sep(x: Seq<char>, sep: char)
    requires
        !x.contains(sep),
    ensures
        spec_split(x, sep) == seq![x],
{
    lemma_find_from(x, seq![sep], 0);
    match find_from(x, seq![sep], 0) {
        Some(m) => {
            lemma_occurs_char(x, sep, m);
            assert(x.contains(sep));
        },
        None => {},
    }
}

/// Splitting `x + [sep] + y`, where `x` holds no `sep`, gives `x` and then
/// the pieces of `y`.
pub proof fn lemma_split_cons(x: Seq<char>, y: Seq<char>, sep: char)
    requires
        !x.contains(sep),
    ensures
        spec_split(x + seq![sep] + y, sep) == seq![x] + spec_split(y, sep),
{
    let s = x + seq![sep] + y;
    lemma_find_char_after(x, y, sep);
    assert(s.subrange(0, x.len() as int) =~= x);
    assert(s.subrange(x.len() + 1 as int, s.len() as int) =~= y);
}

/// Splitting `y + [sep] + z`, where `z` holds no `sep`, gives the pieces of
/// `y` and then `z`.
pub proof fn lemma_split_snoc(y: Seq<char>, z: Seq<char>, sep: char)
    requires
        !z.contains(sep),
    ensures
        spec_split(y + seq![sep] + z, sep) == spec_split(y, sep) + seq![z],
    decreases y.len(),
{
    if !y.contains(sep) {
        lemma_split_cons(y, z, sep);
        lemma_split_no_sep(y, sep);
        lemma_split_no_sep(z, sep);
    } else {
        let k = choose|k: int| 0 <= k < y.len() && y[k] == sep;
        lemma_occurs_char(y, sep, k);
        lemma_find_from(y, seq![sep], 0);
        let i = find_from(y, seq![sep], 0)->0;
        lemma_occurs_char(y, sep, i);
        let y0 = y.subrange(0, i);
        let y1 = y.subrange(i + 1, y.len() as int);
        assert forall|j: int| 0 <= j < y0.len() implies y0[j] != sep by {
            lemma_occurs_char(y, sep, j);
        }
        assert(y =~= y0 + seq![sep] + y1);
        assert(y + seq![sep] + z =~= y0 + seq![sep] + (y1 + seq![sep] + z));
        lemma_split_cons(y0, y1 + seq![sep] + z, sep);
        lemma_split_cons(y0, y1, sep);
        lemma_split_snoc(y1, z, sep);
        assert(seq![y0] + (spec_split(y1, sep) + seq![z]) =~= seq![y0] + spec_split(y1, sep) + seq![z]);
    }
}

/// Whether `pat` occurs nowhere in `s`.
pub open spec fn no_occurrence(s: Seq<char>, pat: Seq<char>) -> bool {
    forall|k: int| !#[trigger] occurs_at(s, pat, k)
}

/// `find_from` from `i` finds `pat` first at `n` when it occurs there and
/// not between `i` and `n`.
pub proof fn lemma_find_first(s: Seq<char>, pat: Seq<char>, i: int, n: int)
    requires
        0 <= i <= n,
        occurs_at(s, pat, n),
        forall|k: int| i <= k < n ==> !#[trigger] occurs_at(s, pat, k),
    ensures
        find_from(s, pat, i) == Some(n),
    decreases n - i,
{
    if i < n {
        assert(!occurs_at(s, pat, i));
        lemma_find_first(s, pat, i + 1, n);
    }
}

/// A text none of whose characters is in `pat` holds no occurrence of it.
pub proof fn lemma_no_occurrence_alphabet(s: Seq<char>, pat: Seq<char>)
    requires
        pat.len() > 0,
        forall|i: int| 0 <= i < s.len() ==> !pat.contains(#[trigger] s[i]),
    ensures
        no_occurrence(s, pat),
{
    assert forall|k: int| !#[trigger] occurs_at(s, pat, k) by {
        if occurs_at(s, pat, k) {
            assert(s.subrange(k, k + pat.len())[0] == s[k]);
            assert(pat[0] == s[k]);
            assert(pat.contains(s[k]));
        }
    }
}

/// A text that lacks a character of `pat` holds no occurrence of it.
pub proof fn lemma_no_occurrence_missing(s: Seq<char>, pat: Seq<char>, c: char)
    requires
        pat.contains(c),
        !s.contains(c),
    ensures
        no_occurrence(s, pat),
{
    assert forall|k: int| !#[trigger] occurs_at(s, pat, k) by {
        if occurs_at(s, pat, k) {
            let j = choose|j: int| 0 <= j < pat.len() && pat[j] == c;
            assert(s.subrange(k, k + pat.len())[j] == s[k + j]);
            assert(s.contains(c));
        }
    }
}

/// A text shorter than `pat` holds no occurrence of it.
pub proof fn lemma_no_occurrence_short(s: Seq<char>, pat: Seq<char>)
    requires
        s.len() < pat.len(),
    ensures
        no_occurrence(s, pat),
{
}

/// `a + b` holds no occurrence of `pat` when neither part does and no
/// occurrence can straddle them.
pub proof fn lemma_no_occurrence_concat(a: Seq<char>, b: Seq<char>, pat: Seq<char>)
    requires
        no_occurrence(a, pat),
        no_occurrence(b, pat),
        pat.len() > 0,
        a.len() == 0 || b.len() == 0 || !pat.contains(a.last()) || !pat.contains(b[0]),
    ensures
        no_occurrence(a + b, pat),
{
    let s = a + b;
    let n = pat.len() as int;
    assert forall|k: int| !#[trigger] occurs_at(s, pat, k) by {
        if occurs_at(s, pat, k) {
            if k + n <= a.len() {
                assert(a.subrange(k, k + n) =~= s.subrange(k, k + n));
                assert(occurs_at(a, pat, k));
            } else if k >= a.len() {
                assert(b.subrange(k - a.len(), k - a.len() + n) =~= s.subrange(k, k + n));
                assert(occurs_at(b, pat, k - a.len()));
            } else {
                let j1 = a.len() - 1 - k;
                assert(s.subrange(k, k + n)[j1] == s[a.len() - 1]);
                assert(pat[j1] == a.last());
                assert(pat.contains(a.last()));
                let j2 = a.len() - k;
                assert(s.subrange(k, k + n)[j2] == s[a.len() as int]);
                assert(pat[j2] == b[0]);
                assert(pat.contains(b[0]));
            }
        }
    }
}

/// In `a + pat + z`, where `a` holds no occurrence of `pat` and does not end
/// with one of its characters, `pat` is first found right after `a`.
pub proof fn lemma_find_after_free(a: Seq<char>, pat: Seq<char>, z: Seq<char>)
    requires
        no_occurrence(a, pat),
        pat.len() > 0,
        a.len() == 0 || !pat.contains(a.last()),
    ensures
        find_from(a + pat + z, pat, 0) == Some(a.len() as int),
{
    let s = a + pat + z;
    let n = pat.len() as int;
    assert(s.subrange(a.len() as int, a.len() + n) =~= pat);
    assert forall|k: int| 0 <= k < a.len() implies !#[trigger] occurs_at(s, pat, k) by {
        if occurs_at(s, pat, k) {
            if k + n <= a.len() {
                assert(a.subrange(k, k + n) =~= s.subrange(k, k + n));
                assert(occurs_at(a, pat, k));
            } else {
                let j1 = a.len() - 1 - k;
                assert(s.subrange(k, k + n)[j1] == s[a.len() - 1]);
                assert(pat[j1] == a.last());
                assert(pat.contains(a.last()));
            }
        }
    }
    lemma_find_first(s, pat, 0, a.len() as int);
}

/// `pieces` joined by `sep`.
pub open spec fn spec_join(pieces: Seq<Seq<char>>, sep: char) -> Seq<char>
    decreases pieces.len(),
{
    if pieces.len() == 0 {
        seq![]
    } else if pieces.len() == 1 {
        pieces[0]
    } else {
        spec_join(pieces.drop_last(), sep) + seq![sep] + pieces.last()
    }
}

/// Joining two non-empty lists is joining each and putting `sep` between.
pub proof fn lemma_join_append(a: Seq<Seq<char>>, b: Seq<Seq<char>>, sep: char)
    requires
        a.len() > 0,
        b.len() > 0,
    ensures
        spec_join(a + b, sep) == spec_join(a, sep) + seq![sep] + spec_join(b, sep),
    decreases b.len(),
{
    if b.len() == 1 {
        assert((a + b).drop_last() =~= a);
        assert((a + b).last() == b[0]);
    } else {
        assert((a + b).drop_last() =~= a + b.drop_last());
        assert((a + b).last() == b.last());
        lemma_join_append(a, b.drop_last(), sep);
        assert(spec_join(a + b, sep) =~= spec_join(a, sep) + seq![sep] + spec_join(b, sep));
    }
}

/// Pieces that hold no occurrence of `pat`, joined by a character not in
/// `pat`, hold none either.
pub proof fn lemma_no_occurrence_join(pieces: Seq<Seq<char>>, sep: char, pat: Seq<char>)
    requires
        pat.len() > 0,
        !pat.contains(sep),
        forall|i: int| 0 <= i < pieces.len() ==> no_occurrence(#[trigger] pieces[i], pat),
    ensures
        no_occurrence(spec_join(pieces, sep), pat),
    decreases pieces.len(),
{
    if pieces.len() == 0 {
    } else if pieces.len() == 1 {
        assert(no_occurrence(pieces[0], pat));
    } else {
        let init = pieces.drop_last();
        assert forall|i: int| 0 <= i < init.len() implies no_occurrence(#[trigger] init[i], pat) by {
            assert(init[i] == pieces[i]);
        }
        lemma_no_occurrence_join(init, sep, pat);
        let a = spec_join(init, sep);
        if pat.len() == 1 {
            lemma_no_occurrence_alphabet(seq![sep], pat);
        } else {
            lemma_no_occurrence_short(seq![sep], pat);
        }
        assert(seq![sep].last() == sep);
        assert(seq![sep][0] == sep);
        lemma_no_occurrence_concat(a, seq![sep], pat);
        assert(no_occurrence(pieces.last(), pat));
        lemma_no_occurrence_concat(a + seq![sep], pieces.last(), pat);
    }
}

/// Trimming a text that starts with a space trims the rest.
pub proof fn lemma_trim_space_first(v: Seq<char>)
    ensures
        trim(seq![' '] + v, false) == trim(v, false),
{
    assert((seq![' '] + v).drop_first() =~= v);
}

/// A text that neither starts nor ends with whitespace is its own trim.
pub proof fn lemma_trim_plain(s: Seq<char>)
    requires
        s.len() == 0 || (!is_whitespace(s[0]) && !is_whitespace(s.last())),
    ensures
        trim(s, false) == s,
{
}

/// The characters of a list of strings.
pub open spec fn strings_view(v: Seq<String>) -> Seq<Seq<char>> {
    v.map_values(|s: String| s@)
}

/// The pieces of `s[a..b]` between the occurrences of `sep`.
pub fn split_range(s: &Vec<char>, a: usize, b: usize, sep: char) -> (r: Vec<String>)
    requires
        a <= b <= s.len(),
    ensures
        strings_view(r@) == spec_split(s@.subrange(a as int, b as int), sep),
{
    let pat = [sep];
    assert(pat@ =~= seq![sep]);
    let mut r: Vec<String> = Vec::new();
    let mut p = a;
    loop
        invariant
            a <= p <= b <= s.len(),
            pat@ == seq![sep],
            spec_split(s@.subrange(a as int, b as int), sep) == strings_view(r@) + spec_split(
                s@.subrange(p as int, b as int),
                sep,
            ),
        decreases b - p,
    {
        let ghost rest = s@.subrange(p as int, b as int);
        proof {
            assert(s@.subrange(0, b as int).subrange(p as int, b as int) =~= rest);
            lemma_find_shift(s@.subrange(0, b as int), seq![sep], p as int);
        }
        match find_in(s, b, &pat, p) {
            None => {
                let piece = string_of(s, p, b);
                proof {
                    assert(strings_view(r@.push(piece)) =~= strings_view(r@) + seq![rest]);
                }
                r.push(piece);
                return r;
            },
            Some(i) => {
                let piece = string_of(s, p, i);
                proof {
                    assert(rest.subrange(0, i - p) =~= s@.subrange(p as int, i as int));
                    assert(rest.subrange(i - p + 1, rest.len() as int) =~= s@.subrange(i + 1, b as int));
                    assert(strings_view(r@.push(piece)) =~= strings_view(r@).push(piece@));
                    assert(strings_view(r@) + (seq![piece@] + spec_split(s@.subrange(i + 1, b as int), sep))
                        =~= strings_view(r@).push(piece@) + spec_split(s@.subrange(i + 1, b as int), sep));
                }
                r.push(piece);
                p = i + 1;
            },
        }
    }
}

/// A string holding `s[a..b]`.
pub fn string_of(s: &Vec<char>, a: usize, b: usize) -> (r: String)
    requires
        a <= b <= s.len(),
    ensures
        r@ == s@.subrange(a as int, b as int),
{
    let mut r = String::new();
    let mut i = a;
    while i < b
        invariant
            a <= i <= b <= s.len(),
            r@ == s@.subrange(a as int, i as int),
        decreases b - i,
    {
        push_char(&mut r, s[i]);
        assert(s@.subrange(a as int, i + 1 as int) =~= s@.subrange(a as int, i as int).push(s@[i as int]));
        i = i + 1;
    }
    r
}

/// Appends the characters of `s` to `out`.
pub(crate) fn push_chars(out: &mut String, s: &[char])
    ensures
        final(out)@ == old(out)@ + s@,
{
    let mut i: usize = 0;
    while i < s.len()
        invariant
            i <= s.len(),
            out@ == old(out)@ + s@.take(i as int),
        decreases s.len() - i,
    {
        push_char(out, s[i]);
        assert(s@.take(i + 1 as int) =~= s@.take(i as int).push(s@[i as int]));
        i = i + 1;
    }
    assert(s@.take(s.len() as int) =~= s@);
}

/// Appends the characters of the string `s` to `out`.
pub(crate) fn push_chars_of_string(out: &mut String, s: &String)
    ensures
        final(out)@ == old(out)@ + s@,
{
    let v = chars_of(s.as_str());
    push_chars(out, v.as_slice());
}

/// Searching `s` from `k` is searching its suffix `s[k..]` from its start,
/// shifted by `k`.
pub proof fn lemma_find_shift(s: Seq<char>, pat: Seq<char>, k: int)
    requires
        0 <= k <= s.len(),
    ensures
        find_from(s, pat, k) is None <==> find_from(s.subrange(k, s.len() as int), pat, 0) is None,
        find_from(s, pat, k) matches Some(i) ==> find_from(s.subrange(k, s.len() as int), pat, 0)
            == Some(i - k),
{
    lemma_find_shift_from(s, pat, k, k);
}

proof fn lemma_find_shift_from(s: Seq<char>, pat: Seq<char>, k: int, i: int)
    requires
        0 <= k <= i,
        k <= s.len(),
    ensures
        find_from(s, pat, i) is None <==> find_from(s.subrange(k, s.len() as int), pat, i - k) is None,
        find_from(s, pat, i) matches Some(x) ==> find_from(s.subrange(k, s.len() as int), pat, i - k)
            == Some(x - k),
    decreases s.len() + 1 - i,
{
    let t = s.subrange(k, s.len() as int);
    if i + pat.len() > s.len() {
    } else {
        assert(s.subrange(i, i + pat.len()) =~= t.subrange(i - k, i - k + pat.len()));
        if !occurs_at(s, pat, i) {
            lemma_find_shift_from(s, pat, k, i + 1);
        }
    }
}

/// `true` or `false`, as `bool` displays.
pub open spec fn bool_text(b: bool) -> Seq<char> {
    if b {
        seq!['t', 'r', 'u', 'e']
    } else {
        seq!['f', 'a', 'l', 's', 'e']
    }
}

/// Appends `true` or `false` to `out`.
pub(crate) fn push_bool(out: &mut String, b: bool)
    ensures
        final(out)@ == old(out)@ + bool_text(b),
{
    if b {
        let t = ['t', 'r', 'u', 'e'];
        push_chars(out, &t);
        assert(t@ =~= bool_text(true));
    } else {
        let f = ['f', 'a', 'l', 's', 'e'];
        push_chars(out, &f);
        assert(f@ =~= bool_text(false));
    }
}

/// The decimal notation of a signed value, with `-` before a negative one.
pub open spec fn spec_signed_decimal(v: int) -> Seq<char> {
    if v < 0 {
        seq!['-'] + spec_decimal((-v) as nat)
    } else {
        spec_decimal(v as nat)
    }
}

/// Appends the decimal notation of `v` to `out`.
pub(crate) fn push_signed_decimal(out: &mut String, v: i128)
    ensures
        final(out)@ == old(out)@ + spec_signed_decimal(v as int),
{
    if v < 0 {
        push_char(out, '-');
        let m: u128 = ((-(v + 1)) as u128) + 1;
        push_decimal(out, m);
        assert(old(out)@ + seq!['-'] + spec_decimal(m as nat) =~= old(out)@ + (seq!['-'] + spec_decimal(m as nat)));
    } else {
        push_decimal(out, v as u128);
    }
}

/// The UTF-8 encoding of a concatenation is the concatenation of the
/// encodings.
pub proof fn lemma_encode_utf8_concat(a: Seq<char>, b: Seq<char>)
    ensures
        encode_utf8(a + b) == encode_utf8(a) + encode_utf8(b),
    decreases a.len(),
{
    if a.len() == 0 {
        assert(a + b =~= b);
        assert(encode_utf8(a) =~= Seq::<u8>::empty());
        assert(encode_utf8(a) + encode_utf8(b) =~= encode_utf8(b));
    } else {
        assert((a + b).drop_first() =~= a.drop_first() + b);
        assert((a + b)[0] == a[0]);
        lemma_encode_utf8_concat(a.drop_first(), b);
        assert(encode_utf8(a + b) =~= encode_utf8(a) + encode_utf8(b));
    }
}

/// When the first `n` characters of `cs` are ASCII, their encoding takes
/// the first `n` bytes, and byte `n` starts a character.
pub proof fn lemma_ascii_boundary(cs: Seq<char>, n: int)
    requires
        0 <= n <= cs.len(),
        is_ascii_chars(cs.take(n)),
    ensures
        encode_utf8(cs).len() >= n,
        is_char_boundary(encode_utf8(cs), n),
    decreases n,
{
    vstd::utf8::encode_utf8_valid_utf8(cs);
    if n > 0 {
        let bytes = encode_utf8(cs);
        vstd::utf8::encode_utf8_first_scalar(cs);
        let h = seq![cs[0]];
        assert(cs.take(n)[0] == cs[0]);
        assert(is_ascii_chars(h));
        vstd::utf8::is_ascii_chars_encode_utf8(h);
        assert(h.drop_first() =~= Seq::<char>::empty());
        assert(encode_utf8(h) == vstd::utf8::encode_scalar(cs[0] as u32) + encode_utf8(h.drop_first()));
        assert(vstd::utf8::encode_scalar(cs[0] as u32).len() == 1);
        assert(vstd::utf8::pop_first_scalar(bytes) =~= encode_utf8(cs.drop_first()));
        assert(cs.drop_first().take(n - 1) =~= cs.take(n).drop_first());
        lemma_ascii_boundary(cs.drop_first(), n - 1);
    }
}

/// When the first `n` characters of `cs` are ASCII, the first `n` bytes of
/// its encoding decode to them.
pub proof fn lemma_ascii_prefix(cs: Seq<char>, n: int)
    requires
        0 <= n <= cs.len(),
        is_ascii_chars(cs.take(n)),
    ensures
        encode_utf8(cs).len() >= n,
        is_char_boundary(encode_utf8(cs), n),
        decode_utf8(encode_utf8(cs).subrange(0, n)) == cs.take(n),
{
    lemma_ascii_boundary(cs, n);
    let head = cs.take(n);
    let tail = cs.skip(n);
    assert(cs =~= head + tail);
    lemma_encode_utf8_concat(head, tail);
    vstd::utf8::is_ascii_chars_encode_utf8(head);
    assert(encode_utf8(cs).subrange(0, n) =~= encode_utf8(head));
    vstd::utf8::encode_utf8_decode_utf8(head);
}

} // verus!
