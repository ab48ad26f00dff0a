use sudachi_tantivy::failure::excerpt;
use sudachi_tantivy::morpheme::Morpheme;
use sudachi_tantivy::stream::TokenStreamAdapter;

fn m(begin: usize, end: usize, surface: &str, tag: &str) -> Morpheme {
    Morpheme {
        begin,
        end,
        surface: surface.to_string(),
        pos: vec![tag.to_string(), "*".to_string()],
    }
}

fn word(begin: usize, end: usize, surface: &str) -> Morpheme {
    m(begin, end, surface, "\u{540d}\u{8a5e}")
}

fn space(begin: usize, end: usize) -> Morpheme {
    m(begin, end, " ", "\u{7a7a}\u{767d}")
}

/// Drive a stream whose chunks each get the next of the given morpheme
/// lists, and collect every emitted token as (position, from, to, text).
fn collect(
    stream: &mut TokenStreamAdapter,
    mut per_chunk: Vec<Vec<Morpheme>>,
) -> Vec<(usize, usize, usize, String)> {
    let mut out: Vec<(usize, usize, usize, String)> = Vec::new();
    loop {
        if stream.next_token() {
            let t = stream.token();
            out.push((t.position, t.offset_from, t.offset_to, t.text.clone()));
            continue;
        }
        match stream.next_chunk_range() {
            None => return out,
            Some(_) => {
                let ms = if per_chunk.is_empty() { Vec::new() } else { per_chunk.remove(0) };
                stream.push_chunk(ms);
            }
        }
    }
}

#[test]
fn test_tokenize() {
    let text = "\u{9078}\u{6319}\u{7ba1}\u{7406}\u{59d4}\u{54e1}\u{4f1a}";
    let mut stream = TokenStreamAdapter::with_default_limit(text);
    let tokens = collect(
        &mut stream,
        vec![vec![
            word(0, 6, "\u{9078}\u{6319}"),
            word(6, 12, "\u{7ba1}\u{7406}"),
            word(12, 18, "\u{59d4}\u{54e1}"),
            word(18, 21, "\u{4f1a}"),
        ]],
    );
    assert_eq!(tokens.len(), 4);
    assert_eq!(tokens[0].3, "\u{9078}\u{6319}");
    assert_eq!(tokens[1].3, "\u{7ba1}\u{7406}");
    assert_eq!(tokens[2].3, "\u{59d4}\u{54e1}");
    assert_eq!(tokens[3].3, "\u{4f1a}");
    // Positions are 1-based and sequential.
    assert_eq!(
        tokens.iter().map(|t| t.0).collect::<Vec<usize>>(),
        vec![1, 2, 3, 4]
    );
}

#[test]
fn test_mix_jp_alphabet() {
    let text = "sudachi.rs \u{306f}\u{65e5}\u{672c}\u{8a9e}\u{5f62}\u{614b}\u{7d20}\u{89e3}\u{6790}\u{5668} Sudachi \u{306e} Rust \u{5b9f}\u{88c5}\u{3067}\u{3059}\u{3002}";
    let mut stream = TokenStreamAdapter::with_default_limit(text);
    let tokens = collect(
        &mut stream,
        vec![vec![
            word(0, 7, "sudachi"),
            word(7, 8, "."),
            word(8, 10, "rs"),
            space(10, 11),
            word(11, 14, "\u{306f}"),
            word(14, 20, "\u{65e5}\u{672c}"),
            word(20, 23, "\u{8a9e}"),
            word(23, 29, "\u{5f62}\u{614b}"),
            word(29, 32, "\u{7d20}"),
            word(32, 38, "\u{89e3}\u{6790}"),
            word(38, 41, "\u{5668}"),
            space(41, 42),
            word(42, 49, "Sudachi"),
            space(49, 50),
            word(50, 53, "\u{306e}"),
            space(53, 54),
            word(54, 58, "Rust"),
            space(58, 59),
            word(59, 65, "\u{5b9f}\u{88c5}"),
            word(65, 71, "\u{3067}\u{3059}"),
            word(71, 74, "\u{3002}"),
        ]],
    );
    assert_eq!(tokens.len(), 16);
    assert_eq!(tokens[0].3, "sudachi");
    assert_eq!(tokens[1].3, ".");
    assert_eq!(tokens[2].3, "rs");
    assert_eq!(tokens[3].3, "\u{306f}");
    assert_eq!(tokens[4].3, "\u{65e5}\u{672c}");
    assert_eq!(tokens[5].3, "\u{8a9e}");
    assert_eq!(tokens[6].3, "\u{5f62}\u{614b}");
    assert_eq!(tokens[7].3, "\u{7d20}");
    assert_eq!(tokens[8].3, "\u{89e3}\u{6790}");
    assert_eq!(tokens[9].3, "\u{5668}");
    assert_eq!(tokens[10].3, "Sudachi");
    assert_eq!(tokens[11].3, "\u{306e}");
    assert_eq!(tokens[12].3, "Rust");
    assert_eq!(tokens[13].3, "\u{5b9f}\u{88c5}");
    assert_eq!(tokens[14].3, "\u{3067}\u{3059}");
    assert_eq!(tokens[15].3, "\u{3002}");
}

#[test]
fn test_whitespace_consumes_no_position() {
    let text = "a b";
    let mut stream = TokenStreamAdapter::with_default_limit(text);
    let tokens = collect(
        &mut stream,
        vec![vec![word(0, 1, "a"), space(1, 2), word(2, 3, "b")]],
    );
    // The space morpheme is suppressed and takes no position slot.
    assert_eq!(tokens.len(), 2);
    assert_eq!(tokens[0], (1, 0, 2, "a".to_string()));
    assert_eq!(tokens[1], (2, 2, 4, "b".to_string()));
}

#[test]
fn test_positions_and_offsets_continue_across_chunks() {
    let text = "This is a test.\nSecond line here.";
    let mut stream = TokenStreamAdapter::with_default_limit(text);
    stream.max_chunk_size = 20;
    let chunk1 = vec![
        word(0, 4, "This"),
        space(4, 5),
        word(5, 7, "is"),
        space(7, 8),
        word(8, 9, "a"),
        space(9, 10),
        word(10, 14, "test"),
        word(14, 15, "."),
    ];
    let chunk2 = vec![
        word(0, 6, "Second"),
        space(6, 7),
        word(7, 11, "line"),
        space(11, 12),
        word(12, 16, "here"),
        word(16, 17, "."),
    ];
    let tokens = collect(&mut stream, vec![chunk1, chunk2]);
    assert_eq!(tokens.len(), 9);
    // Positions are strictly increasing across the chunk boundary.
    for (i, t) in tokens.iter().enumerate() {
        assert_eq!(t.0, i + 1);
    }
    // Offsets of the second chunk's tokens are rebased by the first chunk's
    // byte length (16), and never decrease across the boundary.
    assert_eq!(tokens[5], (6, 16, 23, "Second".to_string()));
    assert_eq!(tokens[6], (7, 23, 28, "line".to_string()));
    assert_eq!(tokens[8], (9, 32, 34, ".".to_string()));
    for w in tokens.windows(2) {
        assert!(w[0].1 <= w[1].1);
    }
}

#[test]
fn test_empty_text() {
    let mut stream = TokenStreamAdapter::with_default_limit("");
    assert!(!stream.next_token());
    assert!(stream.next_chunk_range().is_none());
}

#[test]
fn test_chunk_with_no_morphemes_is_skipped() {
    let text = "one.\ntwo";
    let mut stream = TokenStreamAdapter::with_default_limit(text);
    stream.max_chunk_size = 5;
    let tokens = collect(&mut stream, vec![Vec::new(), vec![word(0, 3, "two")]]);
    assert_eq!(tokens.len(), 1);
    // The empty first chunk still counts toward the offset base.
    assert_eq!(tokens[0], (1, 5, 9, "two".to_string()));
}

#[test]
fn test_failure_is_chunk_local() {
    let text = "one.\ntwo";
    let mut stream = TokenStreamAdapter::with_default_limit(text);
    stream.max_chunk_size = 5;
    // The first chunk fails; the second one still contributes tokens with
    // correct cumulative offsets.
    assert!(stream.next_chunk_range().is_some());
    stream.push_chunk_failure("broken chunk".to_string());
    assert!(!stream.next_token());
    assert!(stream.next_chunk_range().is_some());
    stream.push_chunk(vec![word(0, 3, "two")]);
    assert!(stream.next_token());
    let t = stream.token();
    assert_eq!(t.position, 1);
    assert_eq!(t.offset_from, 5);
    assert_eq!(t.offset_to, 9);
    assert_eq!(t.text, "two");
    assert!(!stream.next_token());
    assert!(stream.next_chunk_range().is_none());
    let errors = stream.errors();
    assert_eq!(errors.len(), 1);
    assert_eq!(errors[0].excerpt, "one.\n");
    assert_eq!(errors[0].detail, "broken chunk");
}

#[test]
fn test_position_wraps_at_numeric_limit() {
    let mut stream = TokenStreamAdapter::with_default_limit("ab");
    stream.token.position = usize::MAX;
    let tokens = collect(&mut stream, vec![vec![word(0, 1, "a"), word(1, 2, "b")]]);
    assert_eq!(tokens[0].0, 0);
    assert_eq!(tokens[1].0, 1);
}

#[test]
fn test_excerpt_short_chunk_kept_whole() {
    assert_eq!(excerpt("short"), "short");
}

#[test]
fn test_excerpt_long_chunk_truncated() {
    let long = "\u{3042}".repeat(150);
    let e = excerpt(&long);
    assert_eq!(e.chars().count(), 103);
    assert!(e.ends_with("..."));
    assert!(e.starts_with(&"\u{3042}".repeat(100)));
}
