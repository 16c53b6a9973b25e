use cortex::assembler::{chunk_text, crossfade_concat, playback_duration, stitch_samples};

#[test]
fn newlines_always_split() {
    let chunks = chunk_text("abc\ndef");
    assert_eq!(chunks, vec!["abc".to_string(), "def".to_string()]);
}

#[test]
fn sentence_ends_split_once_past_the_soft_limit() {
    // Fifty-one characters ending in a full stop, then more text.
    let first = format!("{}{}", "a".repeat(50), ".");
    let text = format!("{}{}", first, "tail text");
    let chunks = chunk_text(&text);
    assert_eq!(chunks, vec![first, "tail text".to_string()]);
    // Under the soft limit the same stop does not split.
    let short = "abc.def";
    assert_eq!(chunk_text(short), vec![short.to_string()]);
}

#[test]
fn the_hard_limit_splits_unconditionally() {
    let text = "a".repeat(501);
    let chunks = chunk_text(&text);
    assert_eq!(chunks.len(), 2);
    assert_eq!(chunks[0].len(), 500);
    assert_eq!(chunks[1].len(), 1);
}

#[test]
fn chunks_preserve_every_non_newline_character() {
    let text = "first line\nsecond sentence\u{3002}and a very long tail ".repeat(30);
    let chunks = chunk_text(&text);
    let rejoined: String = chunks.concat();
    let expected: String = text.chars().filter(|c| *c != '\n').collect();
    assert_eq!(rejoined, expected);
    assert!(chunks.iter().all(|c| !c.is_empty() && c.chars().count() <= 500));
}

#[test]
fn crossfade_blends_a_linear_ramp() {
    let a = vec![100i16; 10];
    let b = vec![-100i16; 10];
    let r = crossfade_concat(&a, &b, 4);
    assert_eq!(r.len(), 16);
    assert_eq!(&r[..6], &[100; 6]);
    // Ramp positions 1..=4 of 5: computed from the integer blend formula.
    assert_eq!(&r[6..10], &[60, 20, -20, -60]);
    assert_eq!(&r[10..], &[-100; 6]);
}

#[test]
fn zero_overlap_is_a_plain_concatenation() {
    let a = vec![1i16, 2, 3];
    let b = vec![4i16, 5];
    let r = crossfade_concat(&a, &b, 0);
    assert_eq!(r, vec![1, 2, 3, 4, 5]);
}

#[test]
fn stitching_passes_a_single_buffer_through() {
    let only = vec![7i16, 8, 9];
    assert_eq!(stitch_samples(vec![only.clone()], 4), only);
    let r = stitch_samples(vec![vec![1i16, 2], vec![3i16, 4]], 0);
    assert_eq!(r, vec![1, 2, 3, 4]);
    assert_eq!(stitch_samples(Vec::new(), 4), Vec::<i16>::new());
}

#[test]
fn stitching_two_buffers_is_one_crossfade() {
    let a = vec![100i16; 10];
    let b = vec![-100i16; 10];
    let joined = stitch_samples(vec![a.clone(), b.clone()], 4);
    assert_eq!(joined, crossfade_concat(&a, &b, 4));
    // The window is clamped to the shorter neighbour.
    let short = vec![5i16, 5];
    let joined = stitch_samples(vec![short.clone(), b.clone()], 4);
    assert_eq!(joined, crossfade_concat(&short, &b, 2));
}

#[test]
fn stitching_folds_left_over_many_buffers() {
    let a = vec![10i16; 6];
    let b = vec![-10i16; 6];
    let c = vec![30i16; 6];
    let step1 = crossfade_concat(&a, &b, 2);
    let expected = crossfade_concat(&step1, &c, 2);
    assert_eq!(stitch_samples(vec![a, b, c], 2), expected);
}

#[test]
fn duration_is_samples_over_rate() {
    assert_eq!(playback_duration(48_000 * 3, 48_000), 3);
    assert_eq!(playback_duration(48_000 * 3 + 47_999, 48_000), 3);
    assert_eq!(playback_duration(100, 0), 0);
}
