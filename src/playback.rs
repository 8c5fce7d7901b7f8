//! The decisions of one tick of the reading loop: the key pressed, the speed, the
//! pause, and the next word with its display time and highlighted letter.
use vstd::prelude::*;
use crate::pacing::{
    display_nanos, display_time_nanos, graphemes_of, highlight_index, highlight_index_of,
    split_graphemes, views,
};
use crate::words::WordSplitter;

verus! {

/// The slowest speed, in words per minute.
pub const MIN_WPM: u32 = 40;

/// The fastest speed, in words per minute.
pub const MAX_WPM: u32 = 1000;

/// The change of speed for one key press, in words per minute.
pub const WPM_STEP: u32 = 10;

/// The speed at start, in words per minute.
pub const START_WPM: u32 = 200;

/// The key that quits.
pub const KEY_QUIT: u8 = 0x71;

/// The key that pauses and resumes.
pub const KEY_PAUSE: u8 = 0x20;

/// The key that speeds up.
pub const KEY_FASTER: u8 = 0x2b;

/// The key that slows down.
pub const KEY_SLOWER: u8 = 0x2d;

/// The speed after `key`: faster or slower by one step, kept within the bounds.
pub open spec fn adjust_wpm(wpm: int, key: Option<u8>) -> int {
    if key == Some(KEY_FASTER) {
        if wpm + WPM_STEP > MAX_WPM {
            MAX_WPM as int
        } else {
            wpm + WPM_STEP
        }
    } else if key == Some(KEY_SLOWER) {
        if wpm - WPM_STEP < MIN_WPM {
            MIN_WPM as int
        } else {
            wpm - WPM_STEP
        }
    } else {
        wpm
    }
}

/// The speed after each key of `keys` in turn.
pub open spec fn wpm_after(wpm: int, keys: Seq<Option<u8>>) -> int
    decreases keys.len(),
{
    if keys.len() == 0 {
        wpm
    } else {
        adjust_wpm(wpm_after(wpm, keys.drop_last()), keys.last())
    }
}

/// No sequence of key presses moves the speed out of its bounds.
pub proof fn lemma_wpm_stays_in_range(wpm: int, keys: Seq<Option<u8>>)
    requires
        MIN_WPM <= wpm <= MAX_WPM,
    ensures
        MIN_WPM <= wpm_after(wpm, keys) <= MAX_WPM,
    decreases keys.len(),
{
    if keys.len() > 0 {
        lemma_wpm_stays_in_range(wpm, keys.drop_last());
    }
}

/// Whether a word ends a sentence, by a final `.`.
pub open spec fn ends_sentence(w: Seq<char>) -> bool {
    w.len() > 0 && w.last() == '.'
}

/// What a tick leaves on screen: the word's graphemes, the one to highlight, and
/// how long to wait before the next tick.
#[derive(Debug)]
pub struct Frame {
    pub graphemes: Vec<String>,
    pub highlight: usize,
    pub timeout_nanos: u128,
}

/// The outcome of one tick.
#[derive(Debug)]
pub enum TickOutcome {
    /// The quit key was pressed.
    Quit,
    /// A word was due and none was left.
    Finished,
    /// Show this frame, then wait.
    Show(Frame),
}

/// The playback state that the reading loop keeps between ticks.
pub struct PlaybackState {
    pub active: bool,
    pub wpm: u32,
    pub current_word: String,
    pub sentence_count: u64,
}

impl PlaybackState {
    /// The speed lies within its bounds.
    pub open spec fn wf(&self) -> bool {
        MIN_WPM <= self.wpm <= MAX_WPM
    }

    /// Whether `f` shows `word` at `wpm` words per minute.
    pub open spec fn shows(f: Frame, word: Seq<char>, wpm: int) -> bool {
        &&& views(f.graphemes@) == graphemes_of(word)
        &&& f.highlight == highlight_index(graphemes_of(word), false)
        &&& f.timeout_nanos == display_nanos(graphemes_of(word), wpm)
    }

    /// The state at start: running at the start speed, no word shown yet.
    pub fn new() -> (r: Self)
        ensures
            r.wf(),
            r.active,
            r.wpm == START_WPM,
            r.current_word@.len() == 0,
            r.sentence_count == 0,
    {
        PlaybackState { active: true, wpm: START_WPM, current_word: String::new(), sentence_count: 0 }
    }

    /// Applies the key pressed during this tick, if any, and takes the next word
    /// from `source` while running. The caller hands in the next batch of lines
    /// first where `source` asks for one.
    pub fn tick(&mut self, source: &mut WordSplitter, key: Option<u8>) -> (r: TickOutcome)
        requires
            old(self).wf(),
            old(source).wf(),
            !(old(source).pending().len() == 0 && old(source).expects_more()),
        ensures
            final(self).wf(),
            final(source).wf(),
            key == Some(KEY_QUIT) ==> r is Quit && *final(self) == *old(self) && *final(source)
                == *old(source),
            key != Some(KEY_QUIT) ==> {
                let active = if key == Some(KEY_PAUSE) {
                    !old(self).active
                } else {
                    old(self).active
                };
                &&& final(self).active == active
                &&& final(self).wpm == adjust_wpm(old(self).wpm as int, key)
                &&& !active ==> {
                    &&& *final(source) == *old(source)
                    &&& final(self).current_word == old(self).current_word
                    &&& final(self).sentence_count == old(self).sentence_count
                }
                &&& (r is Finished) == (active && old(source).pending().len() == 0)
                &&& r is Finished ==> final(source).pending() == old(source).pending()
                    && final(source).expects_more() == old(source).expects_more()
                &&& active && old(source).pending().len() > 0 ==> {
                    &&& final(self).current_word@ == old(source).pending()[0]
                    &&& final(source).pending() == old(source).pending().drop_first()
                    &&& final(source).expects_more() == old(source).expects_more()
                    &&& final(self).sentence_count == if ends_sentence(final(self).current_word@)
                        && old(self).sentence_count < u64::MAX {
                        old(self).sentence_count + 1
                    } else {
                        old(self).sentence_count as int
                    }
                }
                &&& !(r is Finished) ==> r is Show && Self::shows(
                    r->Show_0,
                    final(self).current_word@,
                    final(self).wpm as int,
                )
            },
    {
        if key == Some(KEY_QUIT) {
            return TickOutcome::Quit;
        }
        if key == Some(KEY_PAUSE) {
            self.active = !self.active;
        } else if key == Some(KEY_FASTER) {
            self.wpm = if self.wpm + WPM_STEP > MAX_WPM {
                MAX_WPM
            } else {
                self.wpm + WPM_STEP
            };
        } else if key == Some(KEY_SLOWER) {
            self.wpm = if self.wpm - WPM_STEP < MIN_WPM {
                MIN_WPM
            } else {
                self.wpm - WPM_STEP
            };
        }
        if self.active {
            match source.get_next_word() {
                None => {
                    return TickOutcome::Finished;
                },
                Some(w) => {
                    self.current_word = w;
                    if ends_with_period(&self.current_word) && self.sentence_count < u64::MAX {
                        self.sentence_count = self.sentence_count + 1;
                    }
                },
            }
        }
        let graphemes = split_graphemes(self.current_word.as_str());
        let highlight = highlight_index_of(&graphemes, false);
        let timeout_nanos = display_time_nanos(&graphemes, self.wpm);
        TickOutcome::Show(Frame { graphemes, highlight, timeout_nanos })
    }
}

fn ends_with_period(w: &String) -> (r: bool)
    ensures
        r == ends_sentence(w@),
{
    let s = w.as_str();
    let n = s.unicode_len();
    n > 0 && s.get_char(n - 1) == '.'
}

} // verus!
