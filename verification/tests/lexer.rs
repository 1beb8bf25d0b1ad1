use quizfold_parser::lexer::{lex, TokenKind};
use quizfold_parser::parse::cursor::collect_lines;

#[test]
fn lexes_quiz_and_inline_tokens() {
    let tokens = lex("? Energy is $E = mc^2$ and ${energy}.\n");
    let kinds: Vec<_> = tokens.iter().map(|token| token.kind).collect();

    assert_eq!(
        kinds,
        vec![
            TokenKind::QuestionMarker,
            TokenKind::Raw,
            TokenKind::MathInlineDelimiter,
            TokenKind::Raw,
            TokenKind::MathInlineDelimiter,
            TokenKind::Raw,
            TokenKind::FoldBlankStart,
            TokenKind::Raw,
            TokenKind::FoldBlankEnd,
            TokenKind::Raw,
            TokenKind::Newline,
        ]
    );
}

#[test]
fn lexes_bare_code_fence() {
    let tokens = lex("```\nlet value = 1;\n```\n");

    assert!(matches!(
        tokens[0].kind,
        TokenKind::CodeFenceStart { info: None }
    ));
    assert!(tokens
        .iter()
        .any(|token| token.kind == TokenKind::CodeFenceEnd));
}

#[test]
fn lexes_mermaid_fence_info_range() {
    let source = "```mmd\nflowchart LR\n```\n";
    let tokens = lex(source);
    let TokenKind::CodeFenceStart { info: Some(range) } = tokens[0].kind else {
        panic!("expected fence info");
    };

    assert_eq!(&source[range.start..range.end], "mmd");
}

#[test]
fn lexes_math_block_delimiters() {
    let tokens = lex("$$\nE = mc^2\n$$\n");
    assert_eq!(
        tokens
            .iter()
            .filter(|token| token.kind == TokenKind::MathBlockDelimiter)
            .count(),
        2
    );
}

#[test]
fn lexes_markdown_image_ranges() {
    let source = "Before ![Cell](qf-attachment:cell) after";
    let tokens = lex(source);
    let image = tokens
        .iter()
        .find(|token| matches!(token.kind, TokenKind::Image { .. }))
        .expect("expected image token");
    let TokenKind::Image { alt, destination } = image.kind else {
        unreachable!();
    };

    assert_eq!(&source[alt.start..alt.end], "Cell");
    assert_eq!(
        &source[destination.start..destination.end],
        "qf-attachment:cell"
    );
    assert_eq!(
        &source[image.source_range.start..image.source_range.end],
        "![Cell](qf-attachment:cell)"
    );
}

#[test]
fn tokens_tile_a_source_without_carriage_returns() {
    let source = "? Q ${a} $x$ ![A](qf-stored:s)\n---\n\n```math\nx\n```\n";
    let tokens = lex(source);
    assert_eq!(tokens[0].source_range.start, 0);
    assert_eq!(tokens[tokens.len() - 1].source_range.end, source.len());
    for pair in tokens.windows(2) {
        assert_eq!(pair[0].source_range.end, pair[1].source_range.start);
    }
}

#[test]
fn newline_tokens_stand_exactly_on_line_feeds() {
    let source = "a\r\nb\n\n$$\nc\n$$";
    let tokens = lex(source);
    let feeds: Vec<usize> = source.bytes().enumerate().filter(|(_, b)| *b == b'\n').map(|(i, _)| i).collect();
    let newlines: Vec<usize> = tokens
        .iter()
        .filter(|t| t.kind == TokenKind::Newline)
        .map(|t| t.source_range.start)
        .collect();
    assert_eq!(newlines, feeds);
    for t in &tokens {
        if t.kind != TokenKind::Newline {
            assert!(!source.as_bytes()[t.source_range.start..t.source_range.end].contains(&b'\n'));
        }
    }
}

#[test]
fn lines_are_cut_at_newline_tokens() {
    let source = "a\n\nb";
    let tokens = lex(source);
    let lines = collect_lines(source.len(), &tokens);
    assert_eq!(lines.len(), 3);
    assert_eq!((lines[0].content_range.start, lines[0].content_range.end), (0, 1));
    assert_eq!((lines[1].content_range.start, lines[1].content_range.end), (2, 2));
    assert_eq!((lines[2].content_range.start, lines[2].content_range.end), (3, 4));
    for pair in lines.windows(2) {
        assert_eq!(pair[0].token_end + 1, pair[1].token_start);
        assert_eq!(tokens[pair[0].token_end].kind, TokenKind::Newline);
        assert_eq!(pair[0].full_end, pair[1].content_range.start);
    }
    assert_eq!(lines[2].full_end, source.len());
}

#[test]
fn there_is_a_line_per_line_feed_and_one_for_an_unterminated_end() {
    for (source, count) in [("", 0), ("a", 1), ("a\n", 1), ("\n", 1), ("a\n\nb", 3), ("a\r\nb\r\n", 2)] {
        let tokens = lex(source);
        assert_eq!(collect_lines(source.len(), &tokens).len(), count, "{source:?}");
    }
}
