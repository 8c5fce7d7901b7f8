//! How long a word stays on screen, and which of its letters is highlighted.
use unicode_segmentation::UnicodeSegmentation;
use vstd::arithmetic::div_mod::{
    lemma_div_is_ordered, lemma_div_is_ordered_by_denominator, lemma_div_pos_is_pos,
};
use vstd::arithmetic::mul::lemma_mul_inequality;
use vstd::prelude::*;

verus! {

/// Nanoseconds in one minute: the display time of a word at one word per minute.
pub const NANOS_PER_MINUTE: u128 = 60_000_000_000;

/// The extended grapheme clusters of a text, as UAX #29 segments it.
pub uninterp spec fn graphemes_of(s: Seq<char>) -> Seq<Seq<char>>;

/// The character sequences of a list of strings.
pub open spec fn views(v: Seq<String>) -> Seq<Seq<char>> {
    v.map_values(|s: String| s@)
}

/// Relies on `UnicodeSegmentation::graphemes` with extended clusters: it yields
/// consecutive non-empty slices that run from the start of the text to its end.
#[verifier::external_body]
pub(crate) fn split_graphemes(word: &str) -> (r: Vec<String>)
    ensures
        views(r@) == graphemes_of(word@),
        views(r@).flatten() == word@,
        forall|i: int| 0 <= i < r@.len() ==> (#[trigger] r@[i])@.len() > 0,
{
    word.graphemes(true).map(|g| g.to_string()).collect()
}

/// A grapheme that is a vowel of the highlight rule. Lower case `a e i o u ä ö ü`
/// always count; their upper case forms only when `uppercase` is set.
pub open spec fn is_vowel(g: Seq<char>, uppercase: bool) -> bool {
    g.len() == 1 && {
        let c = g[0];
        c == 'a' || c == 'e' || c == 'i' || c == 'o' || c == 'u' || c == 'ä' || c == 'ö'
            || c == 'ü' || (uppercase && (c == 'A' || c == 'E' || c == 'I' || c == 'O' || c
            == 'U' || c == 'Ä' || c == 'Ö' || c == 'Ü'))
    }
}

/// The first vowel position in `[i, end)`, or the midpoint of `g` where there is none.
pub open spec fn first_vowel_from(g: Seq<Seq<char>>, i: int, end: int, uppercase: bool) -> int
    decreases end - i,
{
    if i >= end {
        g.len() as int / 2
    } else if is_vowel(g[i], uppercase) {
        i
    } else {
        first_vowel_from(g, i + 1, end, uppercase)
    }
}

/// The position of the highlighted grapheme: the first vowel among the positions
/// `[n / 5, n / 2)` of a word of `n` graphemes, else `n / 2`.
pub open spec fn highlight_index(g: Seq<Seq<char>>, uppercase: bool) -> int {
    first_vowel_from(g, g.len() as int / 5, g.len() as int / 2, uppercase)
}

proof fn lemma_first_vowel_bounds(g: Seq<Seq<char>>, i: int, end: int, uppercase: bool)
    requires
        0 <= i,
        end == g.len() as int / 2,
    ensures
        i <= end ==> i <= first_vowel_from(g, i, end, uppercase) <= end,
        g.len() > 0 ==> first_vowel_from(g, i, end, uppercase) < g.len(),
    decreases end - i,
{
    if i < end && !is_vowel(g[i], uppercase) {
        lemma_first_vowel_bounds(g, i + 1, end, uppercase);
    }
}

/// The highlighted position lies inside every non-empty word, so a renderer may
/// index the word's graphemes with it.
pub proof fn lemma_highlight_in_word(g: Seq<Seq<char>>, uppercase: bool)
    ensures
        0 <= highlight_index(g, uppercase) <= g.len() / 2,
        g.len() > 0 ==> highlight_index(g, uppercase) < g.len(),
{
    lemma_first_vowel_bounds(g, g.len() as int / 5, g.len() as int / 2, uppercase);
}

fn grapheme_is_vowel(g: &String, uppercase: bool) -> (r: bool)
    ensures
        r == is_vowel(g@, uppercase),
{
    let s = g.as_str();
    if s.unicode_len() != 1 {
        return false;
    }
    let c = s.get_char(0);
    let lower = c == 'a' || c == 'e' || c == 'i' || c == 'o' || c == 'u' || c == 'ä' || c == 'ö'
        || c == 'ü';
    let upper = c == 'A' || c == 'E' || c == 'I' || c == 'O' || c == 'U' || c == 'Ä' || c == 'Ö'
        || c == 'Ü';
    lower || (uppercase && upper)
}

/// The index of the grapheme to highlight among a word's graphemes.
pub fn highlight_index_of(graphemes: &Vec<String>, uppercase: bool) -> (r: usize)
    ensures
        r == highlight_index(views(graphemes@), uppercase),
        graphemes@.len() > 0 ==> r < graphemes@.len(),
{
    let ghost g = views(graphemes@);
    let n = graphemes.len();
    let end = n / 2;
    let mut i = n / 5;
    while i < end
        invariant
            n == graphemes@.len(),
            n == g.len(),
            g == views(graphemes@),
            end == n / 2,
            n / 5 <= i <= end,
            highlight_index(g, uppercase) == first_vowel_from(g, i as int, end as int, uppercase),
        decreases end - i,
    {
        if grapheme_is_vowel(&graphemes[i], uppercase) {
            return i;
        }
        i += 1;
    }
    proof {
        lemma_highlight_in_word(g, uppercase);
    }
    end
}

/// The index, in graphemes, of the letter of `word` to highlight; only lower case
/// vowels count.
pub fn get_highlight_letter(word: &str) -> (r: usize)
    ensures
        r == highlight_index(graphemes_of(word@), false),
        word@.len() > 0 ==> r < graphemes_of(word@).len(),
{
    let graphemes = split_graphemes(word);
    proof {
        if word@.len() > 0 && graphemes@.len() == 0 {
            assert(views(graphemes@) =~= Seq::<Seq<char>>::empty());
            assert(views(graphemes@).flatten() =~= Seq::<char>::empty());
        }
    }
    highlight_index_of(&graphemes, false)
}

/// The nominal display time of a word at `wpm` words per minute, in nanoseconds.
pub open spec fn base_nanos(wpm: int) -> int {
    NANOS_PER_MINUTE as int / wpm
}

/// The display time after the length penalty: each grapheme beyond the sixth adds
/// a fifth of the nominal time.
pub open spec fn length_adjusted_nanos(len: int, wpm: int) -> int {
    let base = base_nanos(wpm);
    if len > 6 {
        base + (base / 5) * (len - 6)
    } else {
        base
    }
}

/// A grapheme that ends a sentence: `.`, `?` or `!`.
pub open spec fn is_stop(g: Seq<char>) -> bool {
    g == seq!['.'] || g == seq!['?'] || g == seq!['!']
}

/// A length-adjusted time `t` after the penalty for the trailing grapheme `last`:
/// a comma adds half of `t`, a sentence end multiplies it by one and a half.
pub open spec fn punctuation_adjusted_nanos(t: int, last: Seq<char>) -> int {
    if last == seq![','] {
        t + t / 2
    } else if is_stop(last) {
        t * 3 / 2
    } else {
        t
    }
}

/// The display time of a word of `len` graphemes whose last grapheme is `last`.
pub open spec fn display_nanos_for(len: int, last: Seq<char>, wpm: int) -> int {
    punctuation_adjusted_nanos(length_adjusted_nanos(len, wpm), last)
}

/// The last grapheme of a word, empty for the empty word.
pub open spec fn last_grapheme(g: Seq<Seq<char>>) -> Seq<char> {
    if g.len() > 0 {
        g.last()
    } else {
        Seq::empty()
    }
}

/// The display time of the word with graphemes `g` at `wpm` words per minute.
pub open spec fn display_nanos(g: Seq<Seq<char>>, wpm: int) -> int {
    display_nanos_for(g.len() as int, last_grapheme(g), wpm)
}

fn grapheme_is(g: &String, c: char) -> (r: bool)
    ensures
        r == (g@ == seq![c]),
{
    let s = g.as_str();
    if s.unicode_len() != 1 {
        return false;
    }
    let r = s.get_char(0) == c;
    assert(r ==> g@ =~= seq![c]);
    r
}

/// The display time, in nanoseconds, of the word whose graphemes are given.
pub fn display_time_nanos(graphemes: &Vec<String>, wpm: u32) -> (r: u128)
    requires
        wpm > 0,
    ensures
        r == display_nanos(views(graphemes@), wpm as int),
{
    let ghost g = views(graphemes@);
    let base: u128 = NANOS_PER_MINUTE / (wpm as u128);
    let len = graphemes.len();
    assert(base <= NANOS_PER_MINUTE) by (nonlinear_arith)
        requires base == NANOS_PER_MINUTE as int / wpm as int, wpm > 0;
    let mut t: u128 = base;
    if len > 6 {
        let extra: u128 = (len - 6) as u128;
        assert((base / 5) * extra <= 60_000_000_000u128 * 0xffff_ffff_ffff_ffffu128)
            by (nonlinear_arith)
            requires base / 5 <= 60_000_000_000, extra <= 0xffff_ffff_ffff_ffffu128;
        t = base + (base / 5) * extra;
    }
    assert(t == length_adjusted_nanos(g.len() as int, wpm as int));
    if len > 0 {
        let last = &graphemes[len - 1];
        assert(last@ == last_grapheme(g));
        if grapheme_is(last, ',') {
            t = t + t / 2;
        } else if grapheme_is(last, '.') || grapheme_is(last, '?') || grapheme_is(last, '!') {
            t = t * 3 / 2;
        }
    } else {
        assert(last_grapheme(g) =~= Seq::<char>::empty());
        assert(seq![','].len() == 1 && seq!['.'].len() == 1 && seq!['?'].len() == 1
            && seq!['!'].len() == 1);
    }
    t
}

/// The display time, in nanoseconds, of `word` at `wpm` words per minute.
pub fn compute_display_time(word: &str, wpm: u32) -> (r: u128)
    requires
        wpm > 0,
    ensures
        r == display_nanos(graphemes_of(word@), wpm as int),
{
    let graphemes = split_graphemes(word);
    display_time_nanos(&graphemes, wpm)
}

proof fn lemma_punctuation_monotone(t1: int, t2: int, last: Seq<char>)
    requires
        0 <= t1 <= t2,
    ensures
        punctuation_adjusted_nanos(t1, last) <= punctuation_adjusted_nanos(t2, last),
{
    lemma_div_is_ordered(t1, t2, 2);
    lemma_div_is_ordered(t1 * 3, t2 * 3, 2);
}

proof fn lemma_length_adjusted_nonnegative(len: int, wpm: int)
    requires
        wpm > 0,
    ensures
        0 <= base_nanos(wpm) <= length_adjusted_nanos(len, wpm),
{
    lemma_div_pos_is_pos(NANOS_PER_MINUTE as int, wpm);
    lemma_div_pos_is_pos(base_nanos(wpm), 5);
    if len > 6 {
        lemma_mul_inequality(0, base_nanos(wpm) / 5, len - 6);
    }
}

/// For a fixed trailing grapheme and speed, a longer word is shown at least as long.
pub proof fn lemma_display_time_grows_with_length(l1: int, l2: int, last: Seq<char>, wpm: int)
    requires
        0 <= l1 <= l2,
        40 <= wpm <= 1000,
    ensures
        display_nanos_for(l1, last, wpm) <= display_nanos_for(l2, last, wpm),
{
    let base = base_nanos(wpm);
    lemma_length_adjusted_nonnegative(l1, wpm);
    lemma_div_pos_is_pos(base, 5);
    if l2 > 6 {
        if l1 > 6 {
            lemma_mul_inequality(l1 - 6, l2 - 6, base / 5);
            assert((base / 5) * (l1 - 6) <= (base / 5) * (l2 - 6)) by (nonlinear_arith)
                requires (l1 - 6) * (base / 5) <= (l2 - 6) * (base / 5);
        } else {
            lemma_mul_inequality(0, base / 5, l2 - 6);
        }
    }
    lemma_punctuation_monotone(length_adjusted_nanos(l1, wpm), length_adjusted_nanos(l2, wpm), last);
}

/// For a fixed word, a higher speed never shows it longer.
pub proof fn lemma_display_time_shrinks_with_speed(g: Seq<Seq<char>>, w1: int, w2: int)
    requires
        40 <= w1 <= w2 <= 1000,
    ensures
        display_nanos(g, w2) <= display_nanos(g, w1),
{
    let len = g.len() as int;
    lemma_div_is_ordered_by_denominator(NANOS_PER_MINUTE as int, w1, w2);
    lemma_div_is_ordered(base_nanos(w2), base_nanos(w1), 5);
    lemma_length_adjusted_nonnegative(len, w2);
    lemma_div_pos_is_pos(base_nanos(w2), 5);
    if len > 6 {
        lemma_mul_inequality(base_nanos(w2) / 5, base_nanos(w1) / 5, len - 6);
    }
    lemma_punctuation_monotone(
        length_adjusted_nanos(len, w2),
        length_adjusted_nanos(len, w1),
        last_grapheme(g),
    );
}

} // verus!
