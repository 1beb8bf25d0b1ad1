use quizfold_parser::ast::{
    BlockKind, DocumentItemKind, FoldQuiz, QuizContent, QuizFoldDocument, QuizItem, QuizItemKind,
};
use quizfold_parser::model::{
    Blank, BlankInline, Block, Content, Document, Fold, Inline, Item, ModelError, Note, Paragraph,
    Qa, QaFold,
};
use quizfold_parser::source::SourceRange;
use quizfold_parser::{parse_quizfold, print_quizfold};

fn raw_blank(text: &str) -> Blank {
    Blank {
        answer: vec![BlankInline::Raw(text.to_string())],
    }
}

fn to_ast(document: &Document) -> Result<QuizFoldDocument, quizfold_parser::model::ModelDiagnostic> {
    QuizFoldDocument::try_from(document)
}

#[test]
fn model_document_survives_conversion_to_tree_and_back() {
    let model = Document {
        items: vec![
            Item::QaFold(QaFold {
                question: Content {
                    blocks: vec![Block::Paragraph(Paragraph {
                        inlines: vec![Inline::Raw("Capital?".to_string())],
                    })],
                },
                content: Content {
                    blocks: vec![Block::Paragraph(Paragraph {
                        inlines: vec![
                            Inline::Blank(0),
                            Inline::Raw(" and ".to_string()),
                            Inline::Blank(1),
                        ],
                    })],
                },
                blanks: vec![raw_blank("Tokyo"), raw_blank("Kyoto")],
            }),
            Item::Fold(Fold {
                content: vec![Inline::MathInline("x".to_string()), Inline::Blank(0)],
                blanks: vec![Blank {
                    answer: vec![BlankInline::MathInline("y".to_string())],
                }],
            }),
            Item::Note(Note {
                block: Block::Memo(quizfold_parser::model::Memo {
                    blocks: vec![Block::Paragraph(Paragraph {
                        inlines: vec![Inline::Raw("hint".to_string()), Inline::SoftBreak],
                    })],
                }),
            }),
        ],
    };

    let tree = to_ast(&model).unwrap();
    assert_eq!(tree.source_range, SourceRange { start: 0, end: 0 });
    let back = Document::try_from(&tree).unwrap();
    assert_eq!(back, model);
}

#[test]
fn tree_survives_conversion_to_model_and_back_without_ranges() {
    let source = "? Question\n@memo\nnote\n@end\n---\n${first} and ${second $x$}\n\n! Fold ${a}.\n\nPlain text\n";
    let parsed = parse_quizfold(source);
    assert!(parsed.diagnostics.is_empty());

    let model = Document::try_from(&parsed.document).unwrap();
    let tree = to_ast(&model).unwrap();

    assert_eq!(tree.items.len(), parsed.document.items.len());
    for item in &tree.items {
        assert_eq!(item.source_range, SourceRange { start: 0, end: 0 });
    }
    assert_eq!(print_quizfold(&tree), print_quizfold(&parsed.document));
    assert_eq!(Document::try_from(&tree).unwrap(), model);
}

#[test]
fn qa_with_blank_in_question_is_rejected_when_restoring() {
    let model = Document {
        items: vec![Item::Qa(Qa {
            question: Content {
                blocks: vec![Block::Paragraph(Paragraph {
                    inlines: vec![Inline::Blank(0)],
                })],
            },
            answer: Content::default(),
        })],
    };
    let diagnostic = to_ast(&model).unwrap_err();
    assert_eq!(diagnostic.error, ModelError::FoldBlankNotAllowed);
    assert_eq!(diagnostic.code.as_str(), "QFM001");
    assert_eq!(diagnostic.message.as_str(), "Fold blank is not allowed in a Q/A question.");
    assert_eq!(diagnostic.to_string(), "Fold blank is not allowed in a Q/A question.");
    assert!(diagnostic.source_range.is_none());
}

#[test]
fn blank_reference_past_the_answers_is_missing() {
    let model = Document {
        items: vec![Item::Fold(Fold {
            content: vec![Inline::Blank(0), Inline::Blank(1)],
            blanks: vec![raw_blank("only")],
        })],
    };
    let diagnostic = to_ast(&model).unwrap_err();
    assert_eq!(diagnostic.error, ModelError::MissingBlankReference);
    assert_eq!(diagnostic.code.as_str(), "QFM005");
    assert_eq!(diagnostic.message.as_str(), "Blank reference 1 does not exist.");
}

#[test]
fn out_of_order_and_unused_messages_name_the_indices() {
    let blanks: Vec<Blank> = (0..13).map(|i| raw_blank(&format!("b{i}"))).collect();
    let out_of_order = Document {
        items: vec![Item::Fold(Fold {
            content: vec![Inline::Blank(12)],
            blanks: blanks.clone(),
        })],
    };
    let diagnostic = to_ast(&out_of_order).unwrap_err();
    assert_eq!(diagnostic.error, ModelError::BlankOutOfOrder);
    assert_eq!(
        diagnostic.message.as_str(),
        "Blank reference 12 is out of order; expected 0."
    );

    let unused = Document {
        items: vec![Item::Fold(Fold {
            content: vec![Inline::Blank(0)],
            blanks,
        })],
    };
    let diagnostic = to_ast(&unused).unwrap_err();
    assert_eq!(diagnostic.error, ModelError::UnusedBlanks);
    assert_eq!(diagnostic.message.as_str(), "12 blank answers are not referenced.");
}

#[test]
fn fold_items_without_blanks_are_rejected_both_ways() {
    let model = Document {
        items: vec![Item::Fold(Fold {
            content: vec![Inline::Raw("text".to_string())],
            blanks: Vec::new(),
        })],
    };
    let diagnostic = to_ast(&model).unwrap_err();
    assert_eq!(diagnostic.error, ModelError::MissingBlank);
    assert_eq!(diagnostic.code.as_str(), "QFM003");
    assert_eq!(diagnostic.message.as_str(), "Fold quiz must contain at least one blank.");

    let qa_fold = Document {
        items: vec![Item::QaFold(QaFold {
            question: Content::default(),
            content: Content::default(),
            blanks: Vec::new(),
        })],
    };
    let diagnostic = to_ast(&qa_fold).unwrap_err();
    assert_eq!(
        diagnostic.message.as_str(),
        "Q/A fold quiz must contain at least one blank."
    );

    let parsed = parse_quizfold("! No blank here.\n");
    let diagnostic = Document::try_from(&parsed.document).unwrap_err();
    assert_eq!(diagnostic.error, ModelError::MissingBlank);
    assert_eq!(diagnostic.source_range, Some(SourceRange { start: 0, end: 17 }));
}

#[test]
fn fold_quiz_with_two_blocks_has_an_invalid_shape() {
    let parsed = parse_quizfold("Para\n");
    let DocumentItemKind::Block(block) = &parsed.document.items[0].kind else {
        panic!("expected block");
    };
    let BlockKind::Paragraph(paragraph) = &block.kind else {
        panic!("expected paragraph");
    };
    let make_block = || {
        quizfold_parser::ast::Block::new(
            BlockKind::Paragraph(paragraph.clone()),
            SourceRange { start: 0, end: 4 },
        )
    };
    let range = SourceRange { start: 1, end: 9 };
    let fold = FoldQuiz::new(QuizContent::new(vec![make_block(), make_block()], range), range);
    let document = QuizFoldDocument::new(
        vec![quizfold_parser::ast::DocumentItem::new(
            DocumentItemKind::Quiz(QuizItem::new(QuizItemKind::Fold(fold), range)),
            range,
        )],
        range,
    );
    let diagnostic = Document::try_from(&document).unwrap_err();
    assert_eq!(diagnostic.error, ModelError::InvalidFoldShape);
    assert_eq!(diagnostic.code.as_str(), "QFM002");
    assert_eq!(
        diagnostic.message.as_str(),
        "Fold quiz content must contain exactly one paragraph block."
    );
    assert_eq!(diagnostic.source_range, Some(range));
}

#[test]
fn blanks_inside_notes_and_memos_are_rejected_with_their_location() {
    let parsed = parse_quizfold("Remember ${this}.\n");
    let diagnostic = Document::try_from(&parsed.document).unwrap_err();
    assert_eq!(diagnostic.message.as_str(), "Fold blank is not allowed in a note.");

    let parsed = parse_quizfold("? Q ${x}\n---\nA\n");
    let diagnostic = Document::try_from(&parsed.document).unwrap_err();
    assert_eq!(
        diagnostic.message.as_str(),
        "Fold blank is not allowed in a Q/A question."
    );
}

#[test]
fn conversions_by_value_agree_with_borrowed_ones() {
    let parsed = parse_quizfold("! A ${b}.\n");
    let by_ref = Document::try_from(&parsed.document).unwrap();
    let by_value = Document::try_from(parsed.document).unwrap();
    assert_eq!(by_ref, by_value);
    let tree = QuizFoldDocument::try_from(by_value).unwrap();
    assert_eq!(Document::try_from(&tree).unwrap(), by_ref);
}

#[test]
fn clean_parse_with_literal_blank_in_answer_memo_converts() {
    let source = "? Capital?\n---\n@memo\nwrite ${x} literally\n@end\n${Tokyo}\n";
    let parsed = parse_quizfold(source);
    assert!(parsed.diagnostics.is_empty());

    let model = Document::try_from(&parsed.document).unwrap();
    let Item::QaFold(qa) = &model.items[0] else {
        panic!("expected a Q/A fold item");
    };
    assert_eq!(qa.blanks, vec![raw_blank("Tokyo")]);
    assert_eq!(qa.content.blocks.len(), 2);

    let tree = to_ast(&model).unwrap();
    assert_eq!(print_quizfold(&tree), print_quizfold(&parsed.document));
}

#[test]
fn answer_blanks_are_numbered_in_source_order_across_paragraphs() {
    let parsed = parse_quizfold("? Q\n---\n${a} then ${b}\n$$\nx\n$$\n${c}\n");
    assert!(parsed.diagnostics.is_empty());
    let model = Document::try_from(&parsed.document).unwrap();
    let Item::QaFold(qa) = &model.items[0] else {
        panic!("expected a Q/A fold item");
    };
    assert_eq!(qa.blanks, vec![raw_blank("a"), raw_blank("b"), raw_blank("c")]);
    let Block::Paragraph(first) = &qa.content.blocks[0] else {
        panic!("expected a paragraph");
    };
    assert_eq!(first.inlines[0], Inline::Blank(0));
    assert_eq!(first.inlines[2], Inline::Blank(1));
    let Block::Paragraph(last) = &qa.content.blocks[2] else {
        panic!("expected a paragraph");
    };
    assert_eq!(last.inlines[0], Inline::Blank(2));
}
