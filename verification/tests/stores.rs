use sourcemap::{CompressedTokens, SoaTokens, Token, Tokens};

#[test]
fn test_compress_decompress() {
    let tokens = vec![
        Token::new(0, 0, 0, 0, Some(0), Some(0)),
        Token::new(0, 5, 0, 5, Some(0), Some(0)),
        Token::new(1, 0, 1, 0, Some(0), None),
        Token::new(1, 10, 1, 10, Some(1), Some(1)),
    ];

    let compressed = CompressedTokens::from_tokens(&tokens);

    // Test individual access
    for (i, &expected) in tokens.iter().enumerate() {
        assert_eq!(compressed.get(i), Some(expected));
    }

    // Test iterator
    let decompressed: Vec<_> = compressed.to_vec();
    assert_eq!(decompressed, tokens);
}

#[test]
fn test_empty_tokens() {
    let compressed = CompressedTokens::from_tokens(&[]);
    assert!(compressed.is_empty());
    assert_eq!(compressed.len(), 0);
    assert_eq!(compressed.get(0), None);
}

#[test]
fn test_compressed_iterator_matches_get() {
    let tokens = vec![
        Token::new(0, 0, 0, 0, None, None),
        Token::new(0, 7, 3, 9, Some(2), None),
        Token::new(4, 1, 3, 11, Some(2), Some(1)),
    ];
    let compressed = CompressedTokens::from_tokens(&tokens);
    let mut iter = compressed.iter();
    let mut collected: Vec<Token> = Vec::new();
    while let Some(t) = iter.next() {
        collected.push(t);
    }
    assert_eq!(collected, tokens);
}

#[test]
fn test_compress_decompress_past_checkpoint() {
    // enough tokens that random access crosses a checkpoint boundary
    let mut tokens: Vec<Token> = Vec::new();
    for i in 0..600u32 {
        let name = if i % 3 == 0 { None } else { Some(i / 3) };
        tokens.push(Token::new(i / 7, i % 97, i / 5, i % 31, Some(i % 11), name));
    }
    let compressed = CompressedTokens::from_tokens(&tokens);
    assert_eq!(compressed.len(), 600);
    for (i, &expected) in tokens.iter().enumerate() {
        assert_eq!(compressed.get(i), Some(expected));
    }
    assert_eq!(compressed.to_vec(), tokens);
}

#[test]
fn test_compress_large_field_jumps() {
    // deltas that need every per-field format, absolute included
    let tokens = vec![
        Token::new(0, 0, 0, 0, None, None),
        Token::new(200, 40_000, 3_000_000_000, 5, Some(0), Some(4_000_000_000)),
        Token::new(1, 2, 3, 4, Some(2_100_000_000), None),
        Token::new(4_294_967_295, 0, 0, 4_294_967_295, None, None),
    ];
    let compressed = CompressedTokens::from_tokens(&tokens);
    for (i, &expected) in tokens.iter().enumerate() {
        assert_eq!(compressed.get(i), Some(expected));
    }
    assert_eq!(compressed.to_vec(), tokens);
}

#[test]
fn test_soa_tokens_basic() {
    let tokens = vec![
        Token::new(0, 0, 0, 0, Some(0), Some(0)),
        Token::new(0, 5, 0, 5, Some(0), Some(1)),
        Token::new(1, 0, 1, 0, Some(1), None),
    ];

    let soa = SoaTokens::from_tokens(&tokens);

    assert_eq!(soa.len(), 3);
    assert!(!soa.is_empty());

    for (i, expected) in tokens.iter().enumerate() {
        assert_eq!(soa.get(i), Some(*expected));
    }

    assert_eq!(soa.get(3), None);
}

#[test]
fn test_soa_tokens_iterator() {
    let tokens = vec![
        Token::new(0, 0, 0, 0, Some(0), Some(0)),
        Token::new(0, 5, 0, 5, Some(0), Some(1)),
        Token::new(1, 0, 1, 0, Some(1), None),
    ];

    let soa = SoaTokens::from_tokens(&tokens);
    let mut iter = soa.iter();
    let mut collected: Vec<Token> = Vec::new();
    while let Some(t) = iter.next() {
        collected.push(t);
    }

    assert_eq!(collected, tokens);
}

#[test]
fn test_soa_tokens_empty() {
    let soa = SoaTokens::from_tokens(&[]);
    assert!(soa.is_empty());
    assert_eq!(soa.len(), 0);
    assert_eq!(soa.get(0), None);
    assert_eq!(soa.last(), None);
}

#[test]
fn test_soa_tokens_optimized_access() {
    let tokens = vec![
        Token::new(0, 10, 0, 0, Some(0), Some(0)),
        Token::new(1, 20, 1, 5, Some(0), None),
        Token::new(2, 30, 2, 10, Some(1), Some(1)),
    ];

    let soa = SoaTokens::from_tokens(&tokens);

    assert_eq!(soa.get_dst_line(0), Some(0));
    assert_eq!(soa.get_dst_line(1), Some(1));
    assert_eq!(soa.get_dst_line(2), Some(2));
    assert_eq!(soa.get_dst_line(3), None);

    assert_eq!(soa.get_dst_pos(0), Some((0, 10)));
    assert_eq!(soa.get_dst_pos(1), Some((1, 20)));
    assert_eq!(soa.get_dst_pos(2), Some((2, 30)));
}

#[test]
fn test_tokens_store_basics() {
    let mut tokens = Tokens::new();
    assert!(tokens.is_empty());
    tokens.push_raw(0, 1, 2, 3, Some(4), None);
    tokens.push(Token::new(5, 6, 7, 8, None, None));
    assert_eq!(tokens.len(), 2);
    assert_eq!(tokens.get(0), Some(Token::new(0, 1, 2, 3, Some(4), None)));
    assert_eq!(tokens.get(1), Some(Token::new(5, 6, 7, 8, None, None)));
    assert_eq!(tokens.get(2), None);
    assert_eq!(tokens.last(), Some(Token::new(5, 6, 7, 8, None, None)));

    let slice = [Token::new(9, 9, 9, 9, None, Some(1))];
    tokens.extend_from_slice(&slice);
    assert_eq!(tokens.len(), 3);
    assert_eq!(tokens.last(), Some(slice[0]));

    let copy = tokens.duplicate();
    assert_eq!(copy, tokens);

    let mut iter = tokens.iter();
    assert_eq!(iter.len(), 3);
    assert_eq!(iter.next(), Some(Token::new(0, 1, 2, 3, Some(4), None)));
    assert_eq!(iter.len(), 2);
}
