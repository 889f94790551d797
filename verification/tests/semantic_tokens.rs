use stub_pipeline::semantic_tokens::diff_tokens;
use stub_pipeline::semantic_tokens::type_index;
use stub_pipeline::semantic_tokens::ModifierSet;
use stub_pipeline::semantic_tokens::Position;
use stub_pipeline::semantic_tokens::Range;
use stub_pipeline::semantic_tokens::SemanticToken;
use stub_pipeline::semantic_tokens::SemanticTokensBuilder;
use stub_pipeline::semantic_tokens::SemanticTokensEdit;
use stub_pipeline::semantic_tokens::TokenModifier;
use stub_pipeline::semantic_tokens::TokenType;

fn from(t: (u32, u32, u32, u32, u32)) -> SemanticToken {
    SemanticToken {
        delta_line: t.0,
        delta_start: t.1,
        length: t.2,
        token_type: t.3,
        token_modifiers_bitset: t.4,
    }
}

fn range(line: u32, from: u32, to: u32) -> Range {
    Range {
        start: Position { line, character: from },
        end: Position { line, character: to },
    }
}

#[test]
fn test_diff_insert_at_end() {
    let before = [from((1, 2, 3, 4, 5)), from((6, 7, 8, 9, 10))];
    let after = [
        from((1, 2, 3, 4, 5)),
        from((6, 7, 8, 9, 10)),
        from((11, 12, 13, 14, 15)),
    ];

    let edits = diff_tokens(&before, &after);
    assert_eq!(
        edits[0],
        SemanticTokensEdit {
            start: 10,
            delete_count: 0,
            data: Some(vec![from((11, 12, 13, 14, 15))])
        }
    );
}

#[test]
fn test_diff_insert_at_beginning() {
    let before = [from((1, 2, 3, 4, 5)), from((6, 7, 8, 9, 10))];
    let after = [
        from((11, 12, 13, 14, 15)),
        from((1, 2, 3, 4, 5)),
        from((6, 7, 8, 9, 10)),
    ];

    let edits = diff_tokens(&before, &after);
    assert_eq!(
        edits[0],
        SemanticTokensEdit {
            start: 0,
            delete_count: 0,
            data: Some(vec![from((11, 12, 13, 14, 15))])
        }
    );
}

#[test]
fn test_diff_insert_in_middle() {
    let before = [from((1, 2, 3, 4, 5)), from((6, 7, 8, 9, 10))];
    let after = [
        from((1, 2, 3, 4, 5)),
        from((10, 20, 30, 40, 50)),
        from((60, 70, 80, 90, 100)),
        from((6, 7, 8, 9, 10)),
    ];

    let edits = diff_tokens(&before, &after);
    assert_eq!(
        edits[0],
        SemanticTokensEdit {
            start: 5,
            delete_count: 0,
            data: Some(vec![
                from((10, 20, 30, 40, 50)),
                from((60, 70, 80, 90, 100))
            ])
        }
    );
}

#[test]
fn test_diff_remove_from_end() {
    let before = [
        from((1, 2, 3, 4, 5)),
        from((6, 7, 8, 9, 10)),
        from((11, 12, 13, 14, 15)),
    ];
    let after = [from((1, 2, 3, 4, 5)), from((6, 7, 8, 9, 10))];

    let edits = diff_tokens(&before, &after);
    assert_eq!(
        edits[0],
        SemanticTokensEdit {
            start: 10,
            delete_count: 5,
            data: Some(vec![])
        }
    );
}

#[test]
fn test_diff_remove_from_beginning() {
    let before = [
        from((11, 12, 13, 14, 15)),
        from((1, 2, 3, 4, 5)),
        from((6, 7, 8, 9, 10)),
    ];
    let after = [from((1, 2, 3, 4, 5)), from((6, 7, 8, 9, 10))];

    let edits = diff_tokens(&before, &after);
    assert_eq!(
        edits[0],
        SemanticTokensEdit {
            start: 0,
            delete_count: 5,
            data: Some(vec![])
        }
    );
}

#[test]
fn test_diff_remove_from_middle() {
    let before = [
        from((1, 2, 3, 4, 5)),
        from((10, 20, 30, 40, 50)),
        from((60, 70, 80, 90, 100)),
        from((6, 7, 8, 9, 10)),
    ];
    let after = [from((1, 2, 3, 4, 5)), from((6, 7, 8, 9, 10))];

    let edits = diff_tokens(&before, &after);
    assert_eq!(
        edits[0],
        SemanticTokensEdit {
            start: 5,
            delete_count: 10,
            data: Some(vec![])
        }
    );
}

#[test]
fn diff_of_equal_lists_is_empty() {
    let tokens = [from((1, 2, 3, 4, 5)), from((6, 7, 8, 9, 10))];
    assert!(diff_tokens(&tokens, &tokens).is_empty());
    assert!(diff_tokens(&[], &[]).is_empty());
}

#[test]
fn diff_replaces_one_token_in_the_middle() {
    let before = [from((1, 0, 0, 0, 0)), from((2, 0, 0, 0, 0)), from((3, 0, 0, 0, 0))];
    let after = [from((1, 0, 0, 0, 0)), from((9, 0, 0, 0, 0)), from((3, 0, 0, 0, 0))];
    let edits = diff_tokens(&before, &after);
    assert_eq!(edits.len(), 1);
    assert_eq!(
        edits[0],
        SemanticTokensEdit { start: 5, delete_count: 5, data: Some(vec![from((9, 0, 0, 0, 0))]) }
    );
}

#[test]
fn diff_then_patch_gives_the_new_list() {
    let before = vec![from((1, 1, 1, 1, 1)), from((2, 2, 2, 2, 2)), from((3, 3, 3, 3, 3))];
    let after = vec![from((1, 1, 1, 1, 1)), from((7, 7, 7, 7, 7)), from((8, 8, 8, 8, 8)), from((3, 3, 3, 3, 3))];
    let edits = diff_tokens(&before, &after);
    let edit = &edits[0];
    let start = (edit.start / 5) as usize;
    let deleted = (edit.delete_count / 5) as usize;
    let mut patched: Vec<SemanticToken> = before[..start].to_vec();
    patched.extend(edit.data.clone().unwrap());
    patched.extend(before[start + deleted..].iter().copied());
    assert_eq!(patched, after);
}

#[test]
fn builder_encodes_tokens_relative_to_each_other() {
    let mut builder = SemanticTokensBuilder::new("7".to_string());
    assert!(builder.can_push(range(2, 4, 9)));
    builder.push(range(2, 4, 9), type_index(TokenType::Function), 0);
    assert!(builder.can_push(range(2, 10, 12)));
    builder.push(range(2, 10, 12), type_index(TokenType::Variable), 1);
    assert!(!builder.can_push(range(1, 0, 1)));
    assert!(!builder.can_push(range(2, 3, 5)));
    assert!(!builder.can_push(range(3, 5, 4)));
    builder.push(range(5, 1, 2), type_index(TokenType::Macro), 0);
    let tokens = builder.build();
    assert_eq!(tokens.result_id, Some("7".to_string()));
    assert_eq!(
        tokens.data,
        vec![from((2, 4, 5, 0, 0)), from((0, 6, 2, 6, 1)), from((3, 1, 1, 1, 0))]
    );
}

#[test]
fn legend_positions() {
    assert_eq!(type_index(TokenType::Function), 0);
    assert_eq!(type_index(TokenType::TypeParameter), 5);
    assert_eq!(type_index(TokenType::Generic), 7);
    let mut set = ModifierSet::new();
    set.bitor_assign(TokenModifier::ExportedFunction);
    set.bitor_assign(TokenModifier::TypeDynamic);
    assert_eq!(set.0, 0b10010);
    set.bitor_assign(TokenModifier::Bound);
    assert_eq!(set.0, 0b10011);
}
