use sourcemap::{ConcatSourceMapBuilder, SourceMap, Token, TokenChunk, Tokens};

fn tokens_of(list: &[Token]) -> Tokens {
    let mut tokens = Tokens::new();
    for t in list {
        tokens.push(*t);
    }
    tokens
}

fn run_test<F>(create_builder: F)
where
    F: Fn(&[(&SourceMap, u32)]) -> ConcatSourceMapBuilder,
{
    let sm1 = SourceMap::new(
        None,
        vec!["foo".into(), "foo2".into()],
        None,
        vec!["foo.js".into()],
        vec![],
        tokens_of(&[Token::new(1, 1, 1, 1, Some(0), Some(0))]),
        None,
    );
    let sm2 = SourceMap::new(
        None,
        vec!["bar".into()],
        None,
        vec!["bar.js".into()],
        vec![],
        tokens_of(&[Token::new(1, 1, 1, 1, Some(0), Some(0))]),
        None,
    );
    let sm3 = SourceMap::new(
        None,
        vec!["abc".into()],
        None,
        vec!["abc.js".into()],
        vec![],
        tokens_of(&[Token::new(1, 2, 2, 2, Some(0), Some(0))]),
        None,
    );

    let builder = create_builder(&[(&sm1, 0), (&sm2, 2), (&sm3, 2)]);

    let sm = SourceMap::new(
        None,
        vec!["foo".into(), "foo2".into(), "bar".into(), "abc".into()],
        None,
        vec!["foo.js".into(), "bar.js".into(), "abc.js".into()],
        vec![],
        tokens_of(&[
            Token::new(1, 1, 1, 1, Some(0), Some(0)),
            Token::new(3, 1, 1, 1, Some(1), Some(2)),
            Token::new(3, 2, 2, 2, Some(2), Some(3)),
        ]),
        None,
    );
    let concat_sm = builder.into_sourcemap();

    assert_eq!(concat_sm.tokens, sm.tokens);
    assert_eq!(concat_sm.sources, sm.sources);
    assert_eq!(concat_sm.names, sm.names);
    assert_eq!(
        concat_sm.token_chunks,
        Some(vec![
            TokenChunk::new(0, 1, 0, 0, 0, 0, 0, 0,),
            TokenChunk::new(1, 2, 1, 1, 1, 1, 0, 0,),
            TokenChunk::new(2, 3, 3, 1, 1, 1, 2, 1,)
        ])
    );

    assert_eq!(sm.to_json().mappings, concat_sm.to_json().mappings);
}

#[test]
fn test_concat_sourcemap_builder() {
    run_test(|sourcemap_and_line_offsets| {
        let mut builder = ConcatSourceMapBuilder::new();
        for (sourcemap, line_offset) in sourcemap_and_line_offsets.iter().copied() {
            builder.add_sourcemap(sourcemap, line_offset);
        }
        builder
    });
}

#[test]
fn test_concat_sourcemap_builder_from_sourcemaps() {
    run_test(ConcatSourceMapBuilder::from_sourcemaps);
}

#[test]
fn test_concat_sourcemap_builder_deduplicates_tokens() {
    // Test that duplicate tokens at concatenation boundaries are removed
    // For tokens to be truly identical after concatenation, they must have:
    // - Same dst_line (after line_offset)
    // - Same dst_col
    // - Same src_line, src_col
    // - Same source_id and name_id (after source_offset/name_offset)

    // This is difficult to create naturally, so we test the scenario where
    // no deduplication should happen (tokens are different)
    let sm1 = SourceMap::new(
        None,
        vec!["name1".into()],
        None,
        vec!["file1.js".into()],
        vec![],
        tokens_of(&[
            Token::new(1, 1, 1, 1, Some(0), Some(0)),
            Token::new(2, 5, 2, 5, Some(0), Some(0)),
        ]),
        None,
    );

    // sm2 has different source_id/name_id after offset, so won't deduplicate
    let sm2 = SourceMap::new(
        None,
        vec!["name2".into()],
        None,
        vec!["file2.js".into()],
        vec![],
        tokens_of(&[
            Token::new(2, 5, 2, 5, Some(0), Some(0)),  // Different source/name after offset
            Token::new(3, 10, 3, 10, Some(0), Some(0)),
        ]),
        None,
    );

    let mut builder = ConcatSourceMapBuilder::new();
    builder.add_sourcemap(&sm1, 0);
    builder.add_sourcemap(&sm2, 0);

    let concat_sm = builder.into_sourcemap();

    // Should have 4 tokens (no deduplication because source_id/name_id differ)
    assert_eq!(concat_sm.get_tokens().len(), 4);
}

#[test]
fn test_concat_drops_identical_boundary_token() {
    // with no ids to renumber, an exactly repeated boundary token is dropped
    let sm1 = SourceMap::new(
        None,
        vec![],
        None,
        vec![],
        vec![],
        tokens_of(&[Token::new(1, 1, 0, 0, None, None)]),
        None,
    );
    let sm2 = SourceMap::new(
        None,
        vec![],
        None,
        vec![],
        vec![],
        tokens_of(&[Token::new(1, 1, 0, 0, None, None), Token::new(2, 0, 0, 0, None, None)]),
        None,
    );
    let mut builder = ConcatSourceMapBuilder::new();
    builder.add_sourcemap(&sm1, 0);
    builder.add_sourcemap(&sm2, 0);
    let concat_sm = builder.into_sourcemap();
    assert_eq!(concat_sm.get_tokens().len(), 2);
    assert_eq!(
        concat_sm.get_tokens(),
        vec![Token::new(1, 1, 0, 0, None, None), Token::new(2, 0, 0, 0, None, None)]
    );
}

#[test]
fn test_concat_orders_agree() {
    // pairwise appending and building from the whole list give the same map
    let sm1 = SourceMap::new(
        None,
        vec!["a".into()],
        None,
        vec!["a.js".into()],
        vec![Some("aaa".into())],
        tokens_of(&[Token::new(0, 0, 0, 0, Some(0), Some(0))]),
        None,
    );
    let sm2 = SourceMap::new(
        None,
        vec!["b".into()],
        None,
        vec!["b.js".into()],
        vec![None],
        tokens_of(&[Token::new(0, 3, 1, 1, Some(0), None)]),
        None,
    );
    let inputs: Vec<(&SourceMap, u32)> = vec![(&sm1, 0), (&sm2, 7)];

    let all_at_once = ConcatSourceMapBuilder::from_sourcemaps(&inputs).into_sourcemap();

    let mut builder = ConcatSourceMapBuilder::new();
    for (sm, off) in inputs.iter().copied() {
        builder.add_sourcemap(sm, off);
    }
    let one_by_one = builder.into_sourcemap();

    assert_eq!(all_at_once.tokens, one_by_one.tokens);
    assert_eq!(all_at_once.names, one_by_one.names);
    assert_eq!(all_at_once.sources, one_by_one.sources);
    assert_eq!(all_at_once.source_contents, one_by_one.source_contents);
    assert_eq!(all_at_once.token_chunks, one_by_one.token_chunks);
    assert_eq!(all_at_once.to_json_string(), one_by_one.to_json_string());
}
