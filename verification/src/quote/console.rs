//! The lines typed into the console source of quotes: `exit`, or
//! `<ticker> <price> <volume>` separated by whitespace. The price is a
//! floating-point number, which the server reads itself.

use crate::quote::command::{spec_to_uppercase, str_to_uppercase};
use crate::quote::stock::spec_parse_u32;
use crate::text::{
    char_is_whitespace, chars_of, is_whitespace, parse_u64_range, string_eq_str, string_of,
    strings_view, trim, trim_range,
};
use vstd::prelude::*;

verus! {

/// The length of the run of non-whitespace characters that starts `s`.
pub open spec fn word_len(s: Seq<char>) -> nat
    decreases s.len(),
{
    if s.len() == 0 || is_whitespace(s[0]) {
        0
    } else {
        1 + word_len(s.drop_first())
    }
}

/// A word is no longer than the text it starts.
pub proof fn lemma_word_len(s: Seq<char>)
    ensures
        word_len(s) <= s.len(),
        s.len() > 0 && !is_whitespace(s[0]) ==> word_len(s) >= 1,
    decreases s.len(),
{
    if s.len() > 0 && !is_whitespace(s[0]) {
        lemma_word_len(s.drop_first());
    }
}

/// The words of `s`, its maximal runs of non-whitespace characters, in
/// order (`str::split_whitespace`).
pub open spec fn words(s: Seq<char>) -> Seq<Seq<char>>
    decreases s.len(),
{
    if s.len() == 0 {
        seq![]
    } else if is_whitespace(s[0]) {
        words(s.drop_first())
    } else {
        proof {
            lemma_word_len(s);
        }
        seq![s.take(word_len(s) as int)] + words(s.skip(word_len(s) as int))
    }
}

/// The words of `s[a..b]` (see [`words`]).
pub fn words_of(s: &Vec<char>, a: usize, b: usize) -> (r: Vec<String>)
    requires
        a <= b <= s.len(),
    ensures
        strings_view(r@) == words(s@.subrange(a as int, b as int)),
{
    let mut r: Vec<String> = Vec::new();
    let mut p = a;
    assert(strings_view(r@) =~= Seq::<Seq<char>>::empty());
    while p < b
        invariant
            a <= p <= b <= s.len(),
            words(s@.subrange(a as int, b as int)) == strings_view(r@) + words(s@.subrange(p as int, b as int)),
        decreases b - p,
    {
        let ghost rest = s@.subrange(p as int, b as int);
        assert(rest.drop_first() =~= s@.subrange(p + 1, b as int));
        if char_is_whitespace(s[p]) {
            p = p + 1;
        } else {
            let mut q = p + 1;
            while q < b && !char_is_whitespace(s[q])
                invariant
                    p < q <= b <= s.len(),
                    rest == s@.subrange(p as int, b as int),
                    word_len(rest) == (q - p) + word_len(s@.subrange(q as int, b as int)),
                decreases b - q,
            {
                assert(s@.subrange(q as int, b as int).drop_first() =~= s@.subrange(q + 1, b as int));
                q = q + 1;
            }
            assert(word_len(s@.subrange(q as int, b as int)) == 0);
            assert(rest.take(q - p) =~= s@.subrange(p as int, q as int));
            assert(rest.skip(q - p) =~= s@.subrange(q as int, b as int));
            let w = string_of(s, p, q);
            proof {
                assert(strings_view(r@.push(w)) =~= strings_view(r@).push(w@));
                assert(strings_view(r@) + (seq![w@] + words(s@.subrange(q as int, b as int)))
                    =~= strings_view(r@).push(w@) + words(s@.subrange(q as int, b as int)));
            }
            r.push(w);
            p = q;
        }
    }
    assert(words(s@.subrange(p as int, b as int)) =~= Seq::<Seq<char>>::empty());
    assert(strings_view(r@) + Seq::<Seq<char>>::empty() =~= strings_view(r@));
    r
}

/// What a typed line asks for.
#[derive(Debug, Clone, PartialEq)]
pub enum ConsoleLine {
    /// Stop reading.
    Exit,
    /// The line does not have three words.
    WrongCount,
    /// The ticker, price and volume words.
    Fields(String, String, String),
}

/// The mathematical value of a [`ConsoleLine`].
pub enum ConsoleLineView {
    Exit,
    WrongCount,
    Fields(Seq<char>, Seq<char>, Seq<char>),
}

impl View for ConsoleLine {
    type V = ConsoleLineView;

    open spec fn view(&self) -> ConsoleLineView {
        match self {
            ConsoleLine::Exit => ConsoleLineView::Exit,
            ConsoleLine::WrongCount => ConsoleLineView::WrongCount,
            ConsoleLine::Fields(t, p, v) => ConsoleLineView::Fields(t@, p@, v@),
        }
    }
}

/// What the typed text `buf` asks for: it stops when its trimmed upper case
/// is `EXIT`; otherwise its trimmed text must have three words.
pub open spec fn spec_console_line(buf: Seq<char>) -> ConsoleLineView {
    let t = trim(buf, false);
    if spec_to_uppercase(t) == "EXIT"@ {
        ConsoleLineView::Exit
    } else {
        let w = words(t);
        if w.len() != 3 {
            ConsoleLineView::WrongCount
        } else {
            ConsoleLineView::Fields(w[0], w[1], w[2])
        }
    }
}

/// Reads what the typed text `buf` asks for (see [`spec_console_line`]).
pub fn read_console_line(buf: &str) -> (r: ConsoleLine)
    ensures
        r@ == spec_console_line(buf@),
{
    let c = chars_of(buf);
    let (x, y) = trim_range(&c, 0, c.len(), false);
    assert(c@.subrange(0, c@.len() as int) =~= buf@);
    let t = string_of(&c, x, y);
    let upper = str_to_uppercase(t.as_str());
    if string_eq_str(&upper, "EXIT") {
        return ConsoleLine::Exit;
    }
    let w = words_of(&c, x, y);
    if w.len() != 3 {
        return ConsoleLine::WrongCount;
    }
    assert(strings_view(w@)[0] == w@[0]@);
    assert(strings_view(w@)[1] == w@[1]@);
    assert(strings_view(w@)[2] == w@[2]@);
    ConsoleLine::Fields(w[0].clone(), w[1].clone(), w[2].clone())
}

/// Reads a volume as `str::parse::<u32>` does.
pub fn parse_volume(text: &String) -> (r: Option<u32>)
    ensures
        r == spec_parse_u32(text@),
{
    let c = chars_of(text.as_str());
    assert(c@.subrange(0, c@.len() as int) =~= c@);
    match parse_u64_range(&c, 0, c.len()) {
        Some(v) => {
            if v > 4294967295 {
                None
            } else {
                Some(v as u32)
            }
        },
        None => None,
    }
}

} // verus!
