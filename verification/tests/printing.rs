use quizfold_parser::{format_quizfold, parse_quizfold, print_quizfold};
use quizfold_parser::ast::{DocumentItemKind, QuizItemKind};

fn reprint(source: &str) -> String {
    let parsed = parse_quizfold(source);
    print_quizfold(&parsed.document)
}

#[test]
fn empty_document_prints_as_empty_text() {
    assert_eq!(reprint(""), "");
    assert_eq!(reprint("\n\n\n"), "");
}

#[test]
fn items_are_separated_by_one_blank_line_and_text_ends_with_one_newline() {
    assert_eq!(reprint("First\n\n\n\nSecond"), "First\n\nSecond\n");
}

#[test]
fn soft_breaks_keep_the_lines_of_a_paragraph() {
    assert_eq!(reprint("one\ntwo\nthree\n"), "one\ntwo\nthree\n");
}

#[test]
fn question_paragraphs_after_the_first_are_separated() {
    assert_eq!(
        reprint("? First\n\nSecond\n---\nAnswer\n"),
        "? First\n\nSecond\n---\nAnswer\n"
    );
}

#[test]
fn code_fences_keep_their_language_or_none() {
    assert_eq!(reprint("```rust\nfn main() {}\n```\n"), "```rust\nfn main() {}\n```\n");
    assert_eq!(reprint("```\nplain\n```\n"), "```\nplain\n```\n");
}

#[test]
fn fold_blank_answers_keep_their_math() {
    assert_eq!(reprint("! A ${b $x$} c.\n"), "! A ${b $x$} c.\n");
}

#[test]
fn formatting_is_printing() {
    let parsed = parse_quizfold("? Q\n---\nA ${b}\n\n@memo\nm\n@end\n");
    assert_eq!(format_quizfold(&parsed.document), print_quizfold(&parsed.document));
}

#[test]
fn printing_is_idempotent_on_parsed_output() {
    let first = reprint("? Q\n@memo\nm\n@end\n---\nA\n\n! ${x} and ![I](qf-stored:i)\n");
    assert_eq!(reprint(&first), first);
}

#[test]
fn a_question_paragraph_below_an_empty_marker_line_prints_onto_the_marker_line() {
    let source = "? \nfoo\nbar\n---\nA\n";
    let first = parse_quizfold(source);
    assert!(first.diagnostics.is_empty());
    let printed = print_quizfold(&first.document);
    assert_eq!(printed, "? foo\nbar\n---\nA\n");
    let second = parse_quizfold(&printed);
    assert!(second.diagnostics.is_empty());
    let DocumentItemKind::Quiz(first_quiz) = &first.document.items[0].kind else {
        panic!("expected a quiz");
    };
    let DocumentItemKind::Quiz(second_quiz) = &second.document.items[0].kind else {
        panic!("expected a quiz");
    };
    let (QuizItemKind::Qa(a), QuizItemKind::Qa(b)) = (&first_quiz.kind, &second_quiz.kind) else {
        panic!("expected Q/A quizzes");
    };
    assert_eq!(a.question.blocks.len(), 1);
    assert_eq!(b.question.blocks.len(), 2);
    assert_eq!(print_quizfold(&second.document), "? foo\n\nbar\n---\nA\n");
}

#[test]
fn a_math_fence_holding_a_dollar_line_prints_as_an_unclosed_math_block() {
    let first = parse_quizfold("```math\n$$\n```\n");
    assert!(first.diagnostics.is_empty());
    let printed = print_quizfold(&first.document);
    assert_eq!(printed, "$$\n$$\n$$\n");
    assert!(!parse_quizfold(&printed).diagnostics.is_empty());
}
