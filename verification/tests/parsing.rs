use quizfold_parser::ast::{DocumentItemKind, InlineKind, QuizItemKind};
use quizfold_parser::errors::ParseError;
use quizfold_parser::lexer::{lex, TokenKind};
use quizfold_parser::{parse_quizfold, validate_quizfold};

#[test]
fn validation_reports_the_parse_diagnostics() {
    for source in [
        "? Q\nno separator\n",
        "! no blank\n",
        "$$\nunclosed\n",
        "@memo\n@memo\nx\n@end\n",
        "ok\n",
    ] {
        assert_eq!(validate_quizfold(source), parse_quizfold(source).diagnostics);
    }
}

#[test]
fn stats_count_the_bytes_of_the_input() {
    let source = "? 徳川\n---\nA\n";
    assert_eq!(parse_quizfold(source).stats.byte_len, source.len());
}

#[test]
fn references_are_collected_in_source_order() {
    let result = parse_quizfold(
        "![A](qf-attachment:one) ![B](qf-attachment:two) ![C](qf-stored:s) ![D](https://e.com/x)\n",
    );
    assert!(result.diagnostics.is_empty());
    let keys: Vec<&str> = result
        .references
        .request_attachments
        .iter()
        .map(|key| key.as_str())
        .collect();
    assert_eq!(keys, vec!["one", "two"]);
    assert_eq!(result.references.stored_images[0].as_str(), "s");
    assert_eq!(result.references.external_images[0].as_str(), "https://e.com/x");
}

#[test]
fn raw_text_is_the_decoded_source() {
    let result = parse_quizfold("日本語のテキスト\n");
    let DocumentItemKind::Block(block) = &result.document.items[0].kind else {
        panic!("expected block");
    };
    let quizfold_parser::ast::BlockKind::Paragraph(paragraph) = &block.kind else {
        panic!("expected paragraph");
    };
    let InlineKind::Raw(raw) = &paragraph.inlines[0].kind else {
        panic!("expected raw text");
    };
    assert_eq!(raw.value.as_str(), "日本語のテキスト");
}

#[test]
fn every_parse_error_variant_can_be_produced() {
    let cases = [
        ("? Q\nA\n", ParseError::MissingAnswerSeparator),
        ("! nothing\n", ParseError::FoldQuizWithoutBlank),
        ("! ${open\n", ParseError::UnclosedFoldBlank),
        ("$x\n", ParseError::UnclosedMathInline),
        ("```\ncode\n", ParseError::UnclosedBlock),
        ("![](qf-stored:x)\n", ParseError::EmptyImageAlt),
        ("![A](ftp://x)\n", ParseError::InvalidImageReference),
        ("@memo\nx\n", ParseError::UnclosedMemo),
        ("@end\n", ParseError::UnexpectedMemoEnd),
        ("@memo\n@memo\n@end\n", ParseError::NestedMemo),
        ("? Q\n---\n@memo\nm\n@end\n", ParseError::QaSectionIsMemoOnly),
        ("plain ${x}\n", ParseError::FoldBlankOutsideAnswer),
        ("? Q\n---\n", ParseError::EmptyAnswer),
    ];
    for (source, error) in cases {
        let result = parse_quizfold(source);
        assert!(
            result.diagnostics.iter().any(|d| d.error == error),
            "{source:?} should report {error:?}, got {:?}",
            result.diagnostics
        );
    }
}

#[test]
fn a_missing_separator_at_the_end_points_after_the_marker() {
    let marker_end = lex("? Q")[0].source_range.end;
    let result = parse_quizfold("? Q");
    let diagnostic = &result.diagnostics[0];
    assert_eq!(diagnostic.error, ParseError::MissingAnswerSeparator);
    assert_eq!(diagnostic.source_range.start, marker_end);
    assert_eq!(diagnostic.source_range.end, marker_end);
    let DocumentItemKind::Quiz(quiz) = &result.document.items[0].kind else {
        panic!("expected quiz");
    };
    assert!(matches!(quiz.kind, QuizItemKind::Qa(_)));
}

#[test]
fn crlf_line_ends_are_not_part_of_block_bodies() {
    let result = parse_quizfold("$$\r\nx\r\n$$\r\n");
    assert!(result.diagnostics.is_empty());
    let DocumentItemKind::Block(block) = &result.document.items[0].kind else {
        panic!("expected block");
    };
    let quizfold_parser::ast::BlockKind::MathBlock(math) = &block.kind else {
        panic!("expected math block");
    };
    assert_eq!(math.source.as_str(), "x");
}

#[test]
fn lexer_marks_memo_lines_only_when_exact() {
    let kinds: Vec<TokenKind> = lex("@memo\n@end\n").iter().map(|t| t.kind).collect();
    assert_eq!(
        kinds,
        vec![TokenKind::MemoStart, TokenKind::Newline, TokenKind::MemoEnd, TokenKind::Newline]
    );
    let kinds: Vec<TokenKind> = lex("@memo x\n").iter().map(|t| t.kind).collect();
    assert_eq!(kinds, vec![TokenKind::Raw, TokenKind::Newline]);
}

#[test]
fn lexing_at_an_offset_moves_every_range() {
    let source = "```mmd\n![A](qf-stored:x)\n";
    let plain = lex(source);
    let moved = quizfold_parser::lexer::lex_with_offset(source, 100);
    assert_eq!(plain.len(), moved.len());
    for (a, b) in plain.iter().zip(&moved) {
        assert_eq!(a.source_range.start + 100, b.source_range.start);
        assert_eq!(a.source_range.end + 100, b.source_range.end);
    }
    let TokenKind::CodeFenceStart { info: Some(info) } = moved[0].kind else {
        panic!("expected fence info");
    };
    assert_eq!((info.start, info.end), (103, 106));
}

#[test]
fn references_follow_the_tree_across_questions_answers_and_memos() {
    let result = parse_quizfold(
        "? ![Q](qf-stored:a)\n---\n![A](qf-attachment:b) and ${x}\n@memo\n![M](qf-stored:m)\n@end\n",
    );
    assert!(result.diagnostics.is_empty());
    let stored: Vec<&str> = result.references.stored_images.iter().map(|s| s.as_str()).collect();
    assert_eq!(stored, vec!["a", "m"]);
    assert_eq!(result.references.request_attachments.len(), 1);
    assert_eq!(result.references.request_attachments[0].as_str(), "b");
    assert!(result.references.external_images.is_empty());
}

#[test]
fn a_failed_memo_keeps_neither_its_blocks_nor_its_references() {
    let result = parse_quizfold("![k](qf-stored:kept)\n\n@memo\n![a](qf-stored:x)\n");
    assert_eq!(result.diagnostics.len(), 1);
    assert_eq!(result.diagnostics[0].error, ParseError::UnclosedMemo);
    let stored: Vec<&str> = result.references.stored_images.iter().map(|s| s.as_str()).collect();
    assert_eq!(stored, vec!["kept"]);
    let DocumentItemKind::Block(block) = &result.document.items[1].kind else {
        panic!("expected a block item");
    };
    let quizfold_parser::ast::BlockKind::Memo(memo) = &block.kind else {
        panic!("expected a memo block");
    };
    assert!(memo.blocks.is_empty());

    let nested = parse_quizfold("@memo\n![a](qf-attachment:y)\n@memo\n@end\n");
    assert!(nested.diagnostics.iter().any(|d| d.error == ParseError::NestedMemo));
    assert!(nested.references.request_attachments.is_empty());
}

#[test]
fn a_clean_fold_quiz_is_one_paragraph_with_a_blank() {
    let result = parse_quizfold("! Edo began in ${1603}.\n");
    assert!(result.diagnostics.is_empty());
    let DocumentItemKind::Quiz(quiz) = &result.document.items[0].kind else {
        panic!("expected a quiz");
    };
    let QuizItemKind::Fold(fold) = &quiz.kind else {
        panic!("expected a fold quiz");
    };
    assert_eq!(fold.content.blocks.len(), 1);
    let quizfold_parser::ast::BlockKind::Paragraph(paragraph) = &fold.content.blocks[0].kind else {
        panic!("expected a paragraph");
    };
    assert!(paragraph.inlines.iter().any(|i| matches!(i.kind, InlineKind::FoldBlank(_))));
}

#[test]
fn a_math_fence_is_a_math_block() {
    let result = parse_quizfold("```math\nE = \\frac{1}{2}mv^2\n```\n");
    assert!(result.diagnostics.is_empty());
    let DocumentItemKind::Block(block) = &result.document.items[0].kind else {
        panic!("expected a block item");
    };
    let quizfold_parser::ast::BlockKind::MathBlock(math) = &block.kind else {
        panic!("expected a math block");
    };
    assert_eq!(math.source, "E = \\frac{1}{2}mv^2");
}

#[test]
fn an_empty_answer_is_reported_at_the_separator() {
    let result = parse_quizfold("? Question\n---\n");
    assert_eq!(result.diagnostics.len(), 1);
    let diagnostic = &result.diagnostics[0];
    assert_eq!(diagnostic.error, ParseError::EmptyAnswer);
    assert_eq!(diagnostic.code(), "QF013");
    assert_eq!(diagnostic.source_range.start, 11);
    assert_eq!(diagnostic.source_range.end, 14);
    assert_eq!(diagnostic.severity(), quizfold_parser::diagnostics::Severity::Error);
}

#[test]
fn an_answer_after_a_blank_line_is_empty() {
    let result = parse_quizfold("? Question\n---\n\nLater text\n");
    assert!(result.diagnostics.iter().any(|d| d.error == ParseError::EmptyAnswer));
}

#[test]
fn every_diagnostic_range_lies_in_the_source() {
    for source in [
        "? Q\nno separator",
        "? Q\n---\n",
        "! ${open",
        "$x",
        "```\ncode",
        "![](qf-stored:x)",
        "@memo\nx",
        "@memo\n@memo\n@end\n",
        "? Q\n---\n@memo\nm\n@end\n",
        "plain ${x} and $y",
    ] {
        let result = parse_quizfold(source);
        assert!(!result.diagnostics.is_empty());
        for d in &result.diagnostics {
            assert!(d.source_range.start <= d.source_range.end);
            assert!(d.source_range.end <= source.len());
        }
    }
}
