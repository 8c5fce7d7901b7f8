//! Whitespace-separated words, handed out one at a time from batches of lines.
//!
//! The splitter does no reading itself: whoever owns the text hands it one batch
//! of lines at a time through `refill`, and asks `needs_refill` when to do so.
//! Runs of whitespace never yield empty words.
use vstd::prelude::*;
use crate::pacing::views;
use vstd::std_specs::iter::IteratorSpec;

verus! {

/// The number of lines in one batch.
pub const BATCH_LINES: usize = 100;

/// Unicode's White_Space characters: what `char::is_whitespace` accepts.
pub open spec fn is_white(c: char) -> bool {
    let n = c as u32;
    (0x09 <= n <= 0x0d) || n == 0x20 || n == 0x85 || n == 0xa0 || n == 0x1680 || (0x2000 <= n
        <= 0x200a) || n == 0x2028 || n == 0x2029 || n == 0x202f || n == 0x205f || n == 0x3000
}

/// Relies on `char::is_whitespace`: true exactly for the characters with Unicode's
/// White_Space property.
#[verifier::external_body]
fn char_is_whitespace(c: char) -> (r: bool)
    ensures
        r == is_white(c),
{
    c.is_whitespace()
}

/// Relies on `String`'s `FromIterator<char>`: the string of the given characters.
#[verifier::external_body]
fn string_from_chars(cs: &[char]) -> (r: String)
    ensures
        r@ == cs@,
{
    cs.iter().collect()
}

/// The maximal runs of non-whitespace characters of `s`, in order.
pub open spec fn words_of(s: Seq<char>) -> Seq<Seq<char>>
    decreases s.len(),
{
    if s.len() == 0 {
        Seq::empty()
    } else {
        let prev = s.drop_last();
        let c = s.last();
        let w = words_of(prev);
        if is_white(c) {
            w
        } else if prev.len() > 0 && !is_white(prev.last()) {
            w.update(w.len() - 1, w.last().push(c))
        } else {
            w.push(seq![c])
        }
    }
}

/// Splits `text` into its whitespace-separated words.
pub fn split_words(text: &str) -> (r: Vec<String>)
    ensures
        views(r@) == words_of(text@),
{
    let mut chars = text.chars();
    let mut words: Vec<String> = Vec::new();
    let mut current: Vec<char> = Vec::new();
    let ghost s = text@;
    let ghost mut i: int = 0;
    proof {
        broadcast use vstd::string::axiom_spec_iter;
    }
    loop
        invariant
            0 <= i <= s.len(),
            chars.remaining() == s.skip(i),
            chars.obeys_prophetic_iter_laws(),
            current@.len() > 0 ==> words_of(s.take(i)) == views(words@).push(current@),
            current@.len() > 0 ==> !is_white(s[i - 1]),
            current@.len() == 0 ==> words_of(s.take(i)) == views(words@),
            current@.len() == 0 && i > 0 ==> is_white(s[i - 1]),
        ensures
            s.take(i) == s,
        decreases s.len() - i,
    {
        broadcast use vstd::string::next_postcondition;

        let next = chars.next();
        match next {
            None => {
                assert(s.take(i) =~= s);
                break;
            },
            Some(c) => {
                assert(c == s[i]);
                let ghost t = s.take(i + 1);
                assert(t.drop_last() =~= s.take(i));
                assert(t.last() == c);
                assert(chars.remaining() =~= s.skip(i + 1));
                if char_is_whitespace(c) {
                    if current.len() > 0 {
                        let ghost before = words@;
                        let w = string_from_chars(current.as_slice());
                        words.push(w);
                        assert(views(words@) =~= views(before).push(current@));
                        current = Vec::new();
                    }
                } else {
                    let ghost before = current@;
                    current.push(c);
                    proof {
                        if before.len() > 0 {
                            let w = views(words@).push(before);
                            assert(w.update(w.len() - 1, w.last().push(c)) =~= views(
                                words@,
                            ).push(current@));
                        } else {
                            assert(current@ =~= seq![c]);
                        }
                    }
                }
                proof {
                    i = i + 1;
                }
            },
        }
    }
    if current.len() > 0 {
        let ghost before = words@;
        let w = string_from_chars(current.as_slice());
        words.push(w);
        assert(views(words@) =~= views(before).push(current@));
    }
    words
}

/// No word is empty or holds whitespace.
pub proof fn lemma_words_are_solid(s: Seq<char>)
    ensures
        forall|k: int| 0 <= k < words_of(s).len() ==> (#[trigger] words_of(s)[k]).len() > 0,
        forall|k: int, j: int|
            0 <= k < words_of(s).len() && 0 <= j < words_of(s)[k].len() ==> !is_white(
                #[trigger] words_of(s)[k][j],
            ),
    decreases s.len(),
{
    if s.len() > 0 {
        let prev = s.drop_last();
        let c = s.last();
        let w = words_of(prev);
        lemma_words_are_solid(prev);
        if !is_white(c) {
            let r = words_of(s);
            if prev.len() > 0 && !is_white(prev.last()) {
                lemma_last_char_in_last_word(prev);
                let n = w.len() - 1;
                assert(r == w.update(n, w[n].push(c)));
                assert forall|k: int, j: int| 0 <= k < r.len() && 0 <= j < r[k].len() implies !is_white(
                    #[trigger] r[k][j],
                ) by {
                    if k == n && j == w[n].len() {
                        assert(r[k][j] == c);
                    } else {
                        assert(r[k][j] == w[k][j]);
                    }
                }
                assert forall|k: int| 0 <= k < r.len() implies (#[trigger] r[k]).len() > 0 by {
                    if k != n {
                        assert(r[k] == w[k]);
                    }
                }
            } else {
                assert(r == w.push(seq![c]));
                assert forall|k: int, j: int| 0 <= k < r.len() && 0 <= j < r[k].len() implies !is_white(
                    #[trigger] r[k][j],
                ) by {
                    if k == w.len() {
                        assert(r[k] == seq![c]);
                    } else {
                        assert(r[k] == w[k]);
                    }
                }
                assert forall|k: int| 0 <= k < r.len() implies (#[trigger] r[k]).len() > 0 by {
                    if k < w.len() {
                        assert(r[k] == w[k]);
                    }
                }
            }
        }
    }
}

/// A batch that ends in whitespace splits no word with the text that follows it:
/// the words of the two texts together are the words of the first, then those of
/// the second.
pub proof fn lemma_batch_boundary(a: Seq<char>, b: Seq<char>)
    requires
        a.len() == 0 || is_white(a.last()),
    ensures
        words_of(a + b) == words_of(a) + words_of(b),
    decreases b.len(),
{
    if b.len() == 0 {
        assert(a + b =~= a);
        assert(words_of(a) + words_of(b) =~= words_of(a));
    } else {
        let b0 = b.drop_last();
        lemma_batch_boundary(a, b0);
        assert((a + b).drop_last() =~= a + b0);
        assert((a + b).last() == b.last());
        let c = b.last();
        let w = words_of(a + b0);
        let wb = words_of(b0);
        if !is_white(c) {
            if b0.len() > 0 {
                assert((a + b0).last() == b0.last());
                if !is_white(b0.last()) {
                    assert(wb.len() > 0) by {
                        lemma_last_char_in_last_word(b0);
                    }
                    assert(w.update(w.len() - 1, w.last().push(c)) =~= words_of(a) + wb.update(
                        wb.len() - 1,
                        wb.last().push(c),
                    ));
                } else {
                    assert(w.push(seq![c]) =~= words_of(a) + wb.push(seq![c]));
                }
            } else {
                assert(a + b0 =~= a);
                assert(wb =~= Seq::<Seq<char>>::empty());
                assert(w.push(seq![c]) =~= words_of(a) + wb.push(seq![c]));
            }
        }
    }
}

proof fn lemma_last_char_in_last_word(s: Seq<char>)
    requires
        s.len() > 0,
        !is_white(s.last()),
    ensures
        words_of(s).len() > 0,
    decreases s.len(),
{
    let prev = s.drop_last();
    if prev.len() > 0 && !is_white(prev.last()) {
        lemma_last_char_in_last_word(prev);
    }
}

/// A word source that hands out the words of one batch of lines at a time.
pub struct WordSplitter {
    words: Vec<String>,
    pointer: usize,
    more: bool,
}

impl WordSplitter {
    /// The words of the current batch that have not been handed out yet.
    pub closed spec fn pending(&self) -> Seq<Seq<char>> {
        views(self.words@).skip(self.pointer as int)
    }

    /// Whether the text may go on after the current batch.
    pub closed spec fn expects_more(&self) -> bool {
        self.more
    }

    /// The handed-out position never passes the end of the batch.
    pub closed spec fn wf(&self) -> bool {
        self.pointer <= self.words@.len()
    }

    /// A splitter that holds no words yet and waits for its first batch.
    pub fn new() -> (r: Self)
        ensures
            r.wf(),
            r.pending() == Seq::<Seq<char>>::empty(),
            r.expects_more(),
    {
        let r = WordSplitter { words: Vec::new(), pointer: 0, more: true };
        assert(r.pending() =~= Seq::<Seq<char>>::empty());
        r
    }

    /// Whether the next batch of lines must be handed in before the next word.
    pub fn needs_refill(&self) -> (r: bool)
        requires
            self.wf(),
        ensures
            r == (self.pending().len() == 0 && self.expects_more()),
    {
        self.pointer == self.words.len() && self.more
    }

    /// Whether every word has been handed out and no text follows.
    pub fn is_exhausted(&self) -> (r: bool)
        requires
            self.wf(),
        ensures
            r == (self.pending().len() == 0 && !self.expects_more()),
    {
        self.pointer == self.words.len() && !self.more
    }

    /// Replaces the pending words with those of `text`, the concatenation of the
    /// `lines_read` lines of the next batch. A batch of fewer than `BATCH_LINES`
    /// lines is the last one.
    pub fn refill(&mut self, text: &str, lines_read: usize)
        requires
            old(self).wf(),
        ensures
            final(self).wf(),
            final(self).pending() == words_of(text@),
            final(self).expects_more() == (lines_read >= BATCH_LINES),
    {
        self.words = split_words(text);
        self.pointer = 0;
        self.more = lines_read >= BATCH_LINES;
        assert(self.pending() =~= views(self.words@));
    }

    /// Hands out the next pending word, or `None` where no word is pending.
    pub fn get_next_word(&mut self) -> (r: Option<String>)
        requires
            old(self).wf(),
        ensures
            final(self).wf(),
            final(self).expects_more() == old(self).expects_more(),
            old(self).pending().len() == 0 ==> r is None && final(self).pending() == old(
                self,
            ).pending(),
            old(self).pending().len() > 0 ==> r is Some && r->0@ == old(self).pending()[0]
                && final(self).pending() == old(self).pending().drop_first(),
    {
        if self.pointer < self.words.len() {
            let w = self.words[self.pointer].clone();
            self.pointer += 1;
            assert(self.pending() =~= old(self).pending().drop_first());
            Some(w)
        } else {
            None
        }
    }
}

} // verus!
