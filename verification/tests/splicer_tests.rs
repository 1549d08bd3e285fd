use bashable_notes::block::CodeBlock;
use bashable_notes::events::{tokenize, Token};
use bashable_notes::splicer::{extract, splice};

fn text(s: &str) -> Token {
    Token::Text(s.to_string())
}

#[test]
fn extract_finds_every_fenced_block_in_order() {
    let tokens = vec![
        Token::Other,
        Token::CodeBlockStart,
        text("first\n"),
        Token::CodeBlockEnd,
        Token::Other,
        text("between"),
        Token::CodeBlockStart,
        text("second\n"),
        text("more\n"),
        Token::CodeBlockEnd,
    ];
    let blocks: Vec<CodeBlock> = extract(&tokens);
    assert_eq!(blocks.len(), 2);
    assert_eq!(blocks[0].index, 0);
    assert_eq!(blocks[0].start_index, 1);
    assert_eq!(blocks[0].end_index, 3);
    assert_eq!(blocks[0].code, "first\n");
    assert_eq!(blocks[1].index, 1);
    assert_eq!(blocks[1].start_index, 6);
    assert_eq!(blocks[1].end_index, 9);
    assert_eq!(blocks[1].code, "second\nmore\n");
    for block in &blocks {
        assert!(block.start_index < block.end_index);
        assert!(block.is_closed());
    }
    assert!(blocks[0].end_index < blocks[1].start_index);
}

#[test]
fn extract_of_no_tokens_is_empty() {
    let blocks = extract(&Vec::new());
    assert!(blocks.is_empty());
}

#[test]
fn extract_ignores_text_outside_blocks() {
    let tokens = vec![text("a"), Token::Other, text("b")];
    assert!(extract(&tokens).is_empty());
}

#[test]
fn extract_reads_directives_from_the_first_line() {
    let tokens = vec![
        Token::CodeBlockStart,
        text("{\"name\": \"a.txt\", \"cmd\": \"cat a.txt\", \"hide\": true}\n"),
        text("hello\n"),
        Token::CodeBlockEnd,
    ];
    let blocks = extract(&tokens);
    assert_eq!(blocks.len(), 1);
    assert_eq!(blocks[0].options.name.as_deref(), Some("a.txt"));
    assert_eq!(blocks[0].options.cmd.as_deref(), Some("cat a.txt"));
    assert_eq!(blocks[0].options.hide, Some(true));
    assert_eq!(blocks[0].code, "hello\n");
    assert!(blocks[0].is_directed());
}

#[test]
fn extract_keeps_an_unparsed_first_line_as_code() {
    let tokens = vec![
        Token::CodeBlockStart,
        text("{\"name\": 3}\n"),
        text("{\"cmd\": \"ls\"}\n"),
        Token::CodeBlockEnd,
    ];
    let blocks = extract(&tokens);
    assert_eq!(blocks.len(), 1);
    assert_eq!(blocks[0].options.hide, None);
    assert_eq!(blocks[0].options.name, None);
    assert_eq!(blocks[0].options.cmd, None);
    assert_eq!(blocks[0].code, "{\"name\": 3}\n{\"cmd\": \"ls\"}\n");
    assert!(!blocks[0].is_directed());
}

#[test]
fn extract_reads_directives_only_from_the_first_line() {
    let tokens = vec![
        Token::CodeBlockStart,
        text("echo hi\n"),
        text("{\"cmd\": \"ls\"}"),
        Token::CodeBlockEnd,
    ];
    let blocks = extract(&tokens);
    assert_eq!(blocks[0].options.cmd, None);
    assert_eq!(blocks[0].code, "echo hi\n{\"cmd\": \"ls\"}");
}

#[test]
fn extract_ignores_an_opening_inside_a_block() {
    let tokens = vec![
        Token::CodeBlockStart,
        text("a"),
        Token::CodeBlockStart,
        text("b"),
        Token::CodeBlockEnd,
        text("c"),
        Token::CodeBlockEnd,
    ];
    let blocks = extract(&tokens);
    assert_eq!(blocks.len(), 1);
    assert_eq!(blocks[0].start_index, 0);
    assert_eq!(blocks[0].end_index, 4);
    assert_eq!(blocks[0].code, "ab");
}

#[test]
fn extract_leaves_an_unclosed_block_open() {
    let tokens = vec![Token::Other, Token::CodeBlockStart, text("x")];
    let blocks = extract(&tokens);
    assert_eq!(blocks.len(), 1);
    assert_eq!(blocks[0].start_index, 1);
    assert_eq!(blocks[0].end_index, 0);
    assert!(!blocks[0].is_closed());
    assert_eq!(blocks[0].code, "x");
}

#[test]
fn tokenize_reads_markdown_fences() {
    let tokens = tokenize("# Title\n\n```\nhello\nworld\n```\n");
    let shapes: Vec<String> = tokens.iter().map(|t| format!("{:?}", t)).collect();
    assert_eq!(
        shapes,
        vec![
            "Other".to_string(),
            "Text(\"Title\")".to_string(),
            "Other".to_string(),
            "CodeBlockStart".to_string(),
            "Text(\"hello\\n\")".to_string(),
            "Text(\"world\\n\")".to_string(),
            "CodeBlockEnd".to_string(),
        ]
    );
}

#[test]
fn tokenize_then_extract_counts_the_fences_of_a_note() {
    let note = "intro\n\n```sh\n{\"cmd\": \"ls\"}\nls\n```\n\ntext\n\n```\nplain\n```\n\n```\n```\n";
    let tokens = tokenize(note);
    let blocks = extract(&tokens);
    assert_eq!(blocks.len(), 3);
    for (k, block) in blocks.iter().enumerate() {
        assert_eq!(block.index, k);
        assert!(block.start_index < block.end_index);
        assert!(matches!(tokens[block.start_index], Token::CodeBlockStart));
        assert!(matches!(tokens[block.end_index], Token::CodeBlockEnd));
    }
    assert!(blocks[0].end_index < blocks[1].start_index);
    assert!(blocks[1].end_index < blocks[2].start_index);
    assert_eq!(blocks[0].options.cmd.as_deref(), Some("ls"));
    assert_eq!(blocks[0].code, "ls\n");
    assert_eq!(blocks[1].code, "plain\n");
    assert_eq!(blocks[2].code, "");
}

#[test]
fn splice_places_fragments_before_their_targets() {
    let events = vec!["a", "b", "c", "d"];
    let insertions = vec![(1, "X"), (3, "Y")];
    assert_eq!(splice(events, insertions), vec!["a", "X", "b", "c", "Y", "d"]);
}

#[test]
fn splice_keeps_the_order_of_fragments_with_one_target() {
    let events = vec![10, 20, 30];
    let insertions = vec![(1, 1), (1, 2), (1, 3), (2, 4), (2, 5)];
    assert_eq!(splice(events, insertions), vec![10, 1, 2, 3, 20, 4, 5, 30]);
}

#[test]
fn splice_appends_at_the_end_and_prepends_at_the_start() {
    let events = vec!['m'];
    let insertions = vec![(0, 'a'), (0, 'b'), (1, 'y'), (1, 'z')];
    assert_eq!(splice(events, insertions), vec!['a', 'b', 'm', 'y', 'z']);
}

#[test]
fn splice_without_insertions_changes_nothing() {
    let events = vec![1, 2, 3];
    assert_eq!(splice(events, Vec::new()), vec![1, 2, 3]);
}

#[test]
fn splice_into_nothing_lists_the_fragments() {
    let events: Vec<u8> = Vec::new();
    assert_eq!(splice(events, vec![(0, 7), (0, 8)]), vec![7, 8]);
}

#[test]
fn splice_applies_the_list_in_order_with_a_running_offset() {
    let events = vec![0, 1, 2, 3];
    let insertions = vec![(3, 30), (1, 10)];
    assert_eq!(splice(events, insertions), vec![0, 1, 10, 2, 30, 3]);
}

#[test]
fn splice_keeps_the_elements_in_their_order() {
    let events: Vec<u32> = (0..20).collect();
    let insertions: Vec<(usize, u32)> = vec![(0, 100), (5, 101), (5, 102), (19, 103), (20, 104)];
    let out = splice(events.clone(), insertions.clone());
    assert_eq!(out.len(), events.len() + insertions.len());
    let kept: Vec<u32> = out.iter().copied().filter(|x| *x < 100).collect();
    assert_eq!(kept, events);
    let added: Vec<u32> = out.iter().copied().filter(|x| *x >= 100).collect();
    assert_eq!(added, vec![100, 101, 102, 103, 104]);
    for (k, (target, fragment)) in insertions.iter().enumerate() {
        assert_eq!(out[target + k], *fragment);
    }
}
