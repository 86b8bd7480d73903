use alagent::knowledge_base::chunk::fixed_length_chunking;

#[test]
fn chunks_by_chunk_size_with_overlap() {
    let text = "abcdefghijklmnopqrstuvwxyz";
    let chunks = fixed_length_chunking(text, 10, 2);
    assert_eq!(
        chunks,
        vec!["abcdefghij".to_string(), "ijklmnopqr".to_string(), "qrstuvwxyz".to_string(),]
    );
}

#[test]
fn text_shorter_than_chunk_size_returns_single_chunk() {
    let chunks = fixed_length_chunking("hello", 100, 10);
    assert_eq!(chunks, vec!["hello".to_string()]);
}

#[test]
fn overlap_not_smaller_than_chunk_size_returns_empty() {
    assert!(fixed_length_chunking("hello world", 10, 10).is_empty());
}

#[test]
fn empty_or_zero_size_returns_empty() {
    assert!(fixed_length_chunking("", 10, 2).is_empty());
    assert!(fixed_length_chunking("hello", 0, 0).is_empty());
}

#[test]
fn chunks_put_back_together_give_the_text() {
    let text = "一二三四五六七八九十abcdefg";
    let chunks = fixed_length_chunking(text, 6, 2);
    let mut whole: String = chunks[0].clone();
    for c in &chunks[1..] {
        whole.extend(c.chars().skip(2));
    }
    assert_eq!(whole, text);
    for (i, c) in chunks.iter().enumerate() {
        let n = c.chars().count();
        if i + 1 < chunks.len() {
            assert_eq!(n, 6);
        } else {
            assert!(n >= 1 && n <= 6);
        }
        if i > 0 {
            let prev: Vec<char> = chunks[i - 1].chars().collect();
            let head: String = c.chars().take(2).collect();
            let tail: String = prev[prev.len() - 2..].iter().collect();
            assert_eq!(head, tail);
        }
    }
}
