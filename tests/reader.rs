use rusty_reader::pacing::{compute_display_time, display_time_nanos, get_highlight_letter, highlight_index_of};
use rusty_reader::playback::{PlaybackState, TickOutcome, MAX_WPM, MIN_WPM};
use rusty_reader::words::{split_words, WordSplitter, BATCH_LINES};

fn strings(words: &[&str]) -> Vec<String> {
    words.iter().map(|w| w.to_string()).collect()
}

fn loaded(text: &str, lines_read: usize) -> WordSplitter {
    let mut source = WordSplitter::new();
    source.refill(text, lines_read);
    source
}

#[test]
fn display_time_comma() {
    assert_eq!(compute_display_time("hello,", 200), 450_000_000);
}

#[test]
fn display_time_long_word_with_period() {
    assert_eq!(compute_display_time("wonderful.", 300), 540_000_000);
}

#[test]
fn display_time_plain_and_other_stops() {
    assert_eq!(compute_display_time("hello", 200), 300_000_000);
    assert_eq!(compute_display_time("why?", 200), 450_000_000);
    assert_eq!(compute_display_time("now!", 200), 450_000_000);
    assert_eq!(compute_display_time("semi;", 200), 300_000_000);
    assert_eq!(compute_display_time("", 200), 300_000_000);
    assert_eq!(compute_display_time("abcdefg", 60), 1_200_000_000);
}

#[test]
fn display_time_counts_graphemes() {
    // seven letters, one of them written as a base letter and a combining accent
    assert_eq!(compute_display_time("cafe\u{301}sss", 300), 240_000_000);
    assert_eq!(compute_display_time("cafe\u{301}ss", 300), 200_000_000);
}

#[test]
fn display_time_monotone_in_length_and_speed() {
    let mut previous = 0u128;
    let mut word = String::new();
    for _ in 0..20 {
        let t = compute_display_time(&word, 200);
        assert!(t >= previous);
        previous = t;
        word.push('x');
    }
    let mut last = u128::MAX;
    let mut wpm = MIN_WPM;
    while wpm <= MAX_WPM {
        let t = compute_display_time("wonderful.", wpm);
        assert!(t <= last);
        last = t;
        wpm += 10;
    }
}

#[test]
fn display_time_of_graphemes() {
    let g = strings(&["w", "o", "r", "d", "s", ","]);
    assert_eq!(display_time_nanos(&g, 200), 450_000_000);
}

#[test]
fn highlight_banana() {
    assert_eq!(get_highlight_letter("banana"), 1);
}

#[test]
fn highlight_sky_falls_back_to_middle() {
    assert_eq!(get_highlight_letter("sky"), 1);
}

#[test]
fn highlight_short_words() {
    assert_eq!(get_highlight_letter(""), 0);
    assert_eq!(get_highlight_letter("a"), 0);
    assert_eq!(get_highlight_letter("ab"), 0);
    assert_eq!(get_highlight_letter("bc"), 1);
}

#[test]
fn highlight_ignores_upper_case_vowels_by_default() {
    assert_eq!(get_highlight_letter("strEngths"), 4);
    assert_eq!(get_highlight_letter("strength"), 3);
    assert_eq!(get_highlight_letter("bröten"), 2);
    let g = strings(&["s", "t", "r", "E", "n", "g", "t", "h", "s"]);
    assert_eq!(highlight_index_of(&g, true), 3);
    assert_eq!(highlight_index_of(&g, false), 4);
}

#[test]
fn highlight_counts_graphemes_not_bytes() {
    // "e\u{301}" is one grapheme of three bytes
    assert_eq!(get_highlight_letter("e\u{301}e\u{301}e\u{301}xaxxxxx"), 4);
    assert_eq!(get_highlight_letter("xxxxxe\u{301}xxxx"), 5);
}

#[test]
fn split_words_skips_runs_of_whitespace() {
    assert_eq!(split_words("  one  two\tthree\n\nfour "), strings(&["one", "two", "three", "four"]));
    assert_eq!(split_words(""), Vec::<String>::new());
    assert_eq!(split_words(" \t\n"), Vec::<String>::new());
    assert_eq!(split_words("a\u{3000}b\u{a0}c"), strings(&["a", "b", "c"]));
}

#[test]
fn splitter_hands_out_words_in_order() {
    let mut source = loaded("alpha beta\ngamma\n", 2);
    assert!(!source.needs_refill());
    assert_eq!(source.get_next_word(), Some("alpha".to_string()));
    assert_eq!(source.get_next_word(), Some("beta".to_string()));
    assert_eq!(source.get_next_word(), Some("gamma".to_string()));
    assert!(source.is_exhausted());
    for _ in 0..5 {
        assert_eq!(source.get_next_word(), None);
        assert!(!source.needs_refill());
    }
}

#[test]
fn splitter_new_waits_for_first_batch() {
    let source = WordSplitter::new();
    assert!(source.needs_refill());
    assert!(!source.is_exhausted());
}

#[test]
fn splitter_full_batch_asks_for_more() {
    let mut source = loaded("x\n", BATCH_LINES);
    assert_eq!(source.get_next_word(), Some("x".to_string()));
    assert!(source.needs_refill());
    source.refill("", 0);
    assert!(source.is_exhausted());
    assert_eq!(source.get_next_word(), None);
}

#[test]
fn splitter_250_tokens_across_batches() {
    let lines: Vec<String> = (0..250).map(|i| format!("w{}\n", i)).collect();
    let mut source = WordSplitter::new();
    let mut next_line = 0;
    let mut seen = Vec::new();
    loop {
        while source.needs_refill() {
            let end = std::cmp::min(next_line + BATCH_LINES, lines.len());
            let text: String = lines[next_line..end].concat();
            source.refill(&text, end - next_line);
            next_line = end;
        }
        match source.get_next_word() {
            Some(w) => seen.push(w),
            None => break,
        }
    }
    let expected: Vec<String> = (0..250).map(|i| format!("w{}", i)).collect();
    assert_eq!(seen, expected);
    for _ in 0..3 {
        assert_eq!(source.get_next_word(), None);
    }
}

#[test]
fn tick_quit() {
    let mut state = PlaybackState::new();
    let mut source = loaded("one two", 1);
    assert!(matches!(state.tick(&mut source, Some(b'q')), TickOutcome::Quit));
    assert_eq!(source.get_next_word(), Some("one".to_string()));
}

#[test]
fn tick_shows_words_and_finishes() {
    let mut state = PlaybackState::new();
    let mut source = loaded("banana end.", 1);
    match state.tick(&mut source, None) {
        TickOutcome::Show(frame) => {
            assert_eq!(frame.graphemes, strings(&["b", "a", "n", "a", "n", "a"]));
            assert_eq!(frame.highlight, 1);
            assert_eq!(frame.timeout_nanos, 300_000_000);
        }
        other => panic!("unexpected {:?}", other),
    }
    assert_eq!(state.current_word, "banana");
    assert!(matches!(state.tick(&mut source, None), TickOutcome::Show(_)));
    assert_eq!(state.current_word, "end.");
    assert_eq!(state.sentence_count, 1);
    assert!(matches!(state.tick(&mut source, None), TickOutcome::Finished));
}

#[test]
fn tick_pause_keeps_word() {
    let mut state = PlaybackState::new();
    let mut source = loaded("one two three", 1);
    state.tick(&mut source, None);
    assert_eq!(state.current_word, "one");
    state.tick(&mut source, Some(b' '));
    assert!(!state.active);
    for _ in 0..4 {
        state.tick(&mut source, None);
        assert_eq!(state.current_word, "one");
    }
    state.tick(&mut source, Some(b'+'));
    assert_eq!(state.current_word, "one");
    assert_eq!(state.wpm, 210);
    state.tick(&mut source, Some(b' '));
    assert!(state.active);
    assert_eq!(state.current_word, "two");
}

#[test]
fn tick_paused_frame_uses_new_speed() {
    let mut state = PlaybackState::new();
    let mut source = loaded("hello, there", 1);
    state.tick(&mut source, None);
    state.tick(&mut source, Some(b' '));
    match state.tick(&mut source, Some(b'+')) {
        TickOutcome::Show(frame) => {
            assert_eq!(frame.timeout_nanos, compute_display_time("hello,", 210));
        }
        other => panic!("unexpected {:?}", other),
    }
}

#[test]
fn wpm_stays_within_bounds() {
    let mut state = PlaybackState::new();
    state.active = false;
    let mut source = loaded("", 0);
    for _ in 0..200 {
        state.tick(&mut source, Some(b'+'));
        assert!(state.wpm <= MAX_WPM);
    }
    assert_eq!(state.wpm, 1000);
    for _ in 0..200 {
        state.tick(&mut source, Some(b'-'));
        assert!(state.wpm >= MIN_WPM);
    }
    assert_eq!(state.wpm, 40);
    state.tick(&mut source, Some(b'+'));
    assert_eq!(state.wpm, 50);
    state.tick(&mut source, Some(b'x'));
    assert_eq!(state.wpm, 50);
}
