use overlap_chunk::{chunk_text, ChunkOptions};

const SAMPLE: &str = "This is a test text. We will split this long text into smaller chunks.";

fn with_overlap(percentage: u8) -> Option<ChunkOptions> {
    Some(ChunkOptions {
        overlap_percentage: percentage,
    })
}

#[test]
fn test_empty_text() {
    let chunks = chunk_text("", 10, None);
    assert_eq!(chunks.len(), 0);
}

#[test]
fn test_text_smaller_than_chunk() {
    let text = "Small text";
    let chunks = chunk_text(text, 20, None);
    assert_eq!(chunks.len(), 1);
    assert_eq!(chunks[0], text);
}

#[test]
fn test_no_overlap() {
    let text = "This is a test text. We will split this long text into smaller chunks.";
    let chunks = chunk_text(text, 10, None);
    assert_eq!(chunks.len(), 7);
    assert_eq!(chunks[0], "This is a ");
    assert_eq!(chunks[1], "test text.");
    assert_eq!(chunks[2], " We will s");
    assert_eq!(chunks[3], "plit this ");
    assert_eq!(chunks[4], "long text ");
    assert_eq!(chunks[5], "into small");
    assert_eq!(chunks[6], "er chunks.");
}

#[test]
fn test_with_overlap() {
    let text = "This is a test text. We will split this long text into smaller chunks.";
    let options = ChunkOptions {
        overlap_percentage: 50,
        ..Default::default()
    };
    let chunks = chunk_text(text, 10, Some(options));
    assert_eq!(chunks.len(), 14);
    // the second chunk begins half a chunk into the first
    assert!(chunks[1].starts_with("is a "));
}

#[test]
fn test_max_overlap() {
    let text = "This is a test text. We will split this long text into smaller chunks.";
    let options = ChunkOptions {
        overlap_percentage: 90,
        ..Default::default()
    };
    let chunks = chunk_text(text, 10, Some(options));
    // with 90% overlap the step is one character
    assert!(chunks.len() > 20);

    let over_max_options = ChunkOptions {
        overlap_percentage: 100,
        ..Default::default()
    };
    let capped_chunks = chunk_text(text, 10, Some(over_max_options));
    // a request above the ceiling behaves like the ceiling
    assert_eq!(chunks.len(), capped_chunks.len());
}

#[test]
fn default_options_have_no_overlap() {
    assert_eq!(ChunkOptions::default().overlap_percentage, 0);
    assert_eq!(
        chunk_text(SAMPLE, 10, Some(ChunkOptions::default())),
        chunk_text(SAMPLE, 10, None)
    );
}

#[test]
fn zero_chunk_size_gives_nothing() {
    assert!(chunk_text(SAMPLE, 0, None).is_empty());
    assert!(chunk_text(SAMPLE, 0, with_overlap(50)).is_empty());
}

#[test]
fn empty_text_gives_nothing_for_any_settings() {
    assert!(chunk_text("", 1, with_overlap(90)).is_empty());
    assert!(chunk_text("", 0, None).is_empty());
    assert!(chunk_text("", usize::MAX, with_overlap(0)).is_empty());
}

#[test]
fn text_of_exactly_chunk_size_is_one_chunk() {
    let chunks = chunk_text("abcde", 5, with_overlap(50));
    assert_eq!(chunks, vec!["abcde".to_string()]);
}

#[test]
fn short_text_chunked_twice_is_unchanged() {
    let first = chunk_text("Small text", 20, with_overlap(30));
    assert_eq!(first, vec!["Small text".to_string()]);
    let second = chunk_text(&first[0], 20, with_overlap(30));
    assert_eq!(first, second);
}

#[test]
fn unoverlapped_chunks_join_back_to_text() {
    let chunks = chunk_text(SAMPLE, 10, with_overlap(0));
    assert_eq!(chunks.concat(), SAMPLE);
    let chunks = chunk_text(SAMPLE, 7, None);
    assert_eq!(chunks.len(), 10);
    assert_eq!(chunks.concat(), SAMPLE);
    assert_eq!(chunks[9], "chunks.");
}

#[test]
fn chunks_fit_and_last_reaches_end() {
    for size in 1..=12usize {
        for percentage in [0u8, 25, 50, 75, 90] {
            let chunks = chunk_text(SAMPLE, size, with_overlap(percentage));
            assert!(!chunks.is_empty());
            assert!(chunks.iter().all(|c| c.chars().count() <= size && !c.is_empty()));
            assert!(SAMPLE.ends_with(chunks.last().unwrap().as_str()));
        }
    }
}

#[test]
fn overlap_is_rounded_half_up() {
    // 7 * 50% = 3.5, rounded to 4 shared characters: a step of 3
    let chunks = chunk_text("abcdefghij", 7, with_overlap(50));
    assert_eq!(chunks, vec!["abcdefg", "defghij", "ghij", "j"]);
    // 10 * 25% = 2.5, rounded to 3: a step of 7
    let chunks = chunk_text("abcdefghijklmnopq", 10, with_overlap(25));
    assert_eq!(chunks, vec!["abcdefghij", "hijklmnopq", "opq"]);
}

#[test]
fn starts_advance_by_step() {
    let chunks = chunk_text(SAMPLE, 10, with_overlap(50));
    let chars: Vec<char> = SAMPLE.chars().collect();
    for (k, chunk) in chunks.iter().enumerate() {
        let start = 5 * k;
        let end = usize::min(start + 10, chars.len());
        let expected: String = chars[start..end].iter().collect();
        assert_eq!(chunk, &expected);
    }
    assert_eq!(chunks[1], "is a test ");
}

#[test]
fn full_overlap_steps_one_character() {
    let chunks = chunk_text(SAMPLE, 5, with_overlap(100));
    let n = SAMPLE.chars().count();
    assert_eq!(chunks.len(), n);
    assert_eq!(chunks[0], "This ");
    assert_eq!(chunks[1], "his i");
    assert_eq!(chunks[n - 1], ".");
    let windows = chunks.iter().filter(|c| c.chars().count() == 5).count();
    assert_eq!(windows, n - 5 + 1);
}

#[test]
fn overlap_above_ceiling_is_lowered() {
    let capped = chunk_text(SAMPLE, 25, with_overlap(255));
    let ceiling = chunk_text(SAMPLE, 25, with_overlap(90));
    assert_eq!(capped, ceiling);
    // 25 * 90% = 22.5, rounded to 23: a step of 2
    assert_eq!(ceiling.len(), 35);
}

#[test]
fn multibyte_text_splits_on_characters() {
    let text = "日本語のテキストを分割します";
    let chunks = chunk_text(text, 4, None);
    assert_eq!(chunks, vec!["日本語の", "テキスト", "を分割し", "ます"]);
    let chunks = chunk_text(text, 4, with_overlap(50));
    assert_eq!(chunks[1], "語のテキ");
    assert_eq!(chunks.len(), 7);
    let mixed = "aé😀b";
    assert_eq!(chunk_text(mixed, 1, None), vec!["a", "é", "😀", "b"]);
}
