use alagent::knowledge_base::chunk::fixed_length_chunking;
use alagent::knowledge_base::embed::{batch_ranges, order_by_index, EMBED_BATCH_SIZE};
use alagent::knowledge_base::search::{check_embedding_count, rank_top_k, score_key, search_has_work};

#[test]
fn chunk_all_whitespace_pieces_are_dropped() {
    let chunks = fixed_length_chunking("ab      cd", 4, 0);
    assert_eq!(chunks, vec!["ab  ".to_string(), "cd".to_string()]);
    let blank = fixed_length_chunking("   \t\n", 2, 1);
    assert!(blank.is_empty());
}

#[test]
fn chunk_counts_characters_not_bytes() {
    let chunks = fixed_length_chunking("你好世界再见", 4, 1);
    assert_eq!(chunks, vec!["你好世界".to_string(), "界再见".to_string()]);
    for c in &chunks {
        assert!(c.chars().count() <= 4);
    }
}

#[test]
fn chunk_unicode_whitespace_counts_as_blank() {
    let chunks = fixed_length_chunking("x\u{3000}\u{3000}\u{3000}", 2, 0);
    assert_eq!(chunks, vec!["x\u{3000}".to_string()]);
}

#[test]
fn rank_top_k_picks_largest_first() {
    let keys = vec![5u64, 1, 9, 7, 3];
    assert_eq!(rank_top_k(&keys, 3), vec![2, 3, 0]);
    assert_eq!(rank_top_k(&keys, 0), Vec::<usize>::new());
    assert_eq!(rank_top_k(&keys, 10).len(), 5);
    assert_eq!(rank_top_k(&keys, 10), vec![2, 3, 0, 4, 1]);
}

#[test]
fn rank_top_k_with_ties_keeps_the_largest_keys() {
    let keys = vec![4u64, 8, 4, 8, 1];
    let r = rank_top_k(&keys, 3);
    assert_eq!(r.len(), 3);
    let mut top = vec![r[0], r[1]];
    top.sort();
    assert_eq!(top, vec![1, 3]);
    assert!(r[2] == 0 || r[2] == 2);
}

#[test]
fn batch_ranges_cut_by_batch_size() {
    assert_eq!(batch_ranges(300, EMBED_BATCH_SIZE), vec![(0, 128), (128, 256), (256, 300)]);
    assert_eq!(batch_ranges(0, EMBED_BATCH_SIZE), Vec::<(usize, usize)>::new());
    assert_eq!(batch_ranges(128, EMBED_BATCH_SIZE), vec![(0, 128)]);
}

#[test]
fn order_by_index_is_a_stable_sort() {
    assert_eq!(order_by_index(&vec![2u32, 0, 1]), vec![1, 2, 0]);
    assert_eq!(order_by_index(&vec![1u32, 0, 1, 0]), vec![1, 3, 0, 2]);
    assert_eq!(order_by_index(&vec![]), Vec::<usize>::new());
}

#[test]
fn search_shortcut_and_count_check() {
    assert!(search_has_work(3, 1));
    assert!(!search_has_work(0, 1));
    assert!(!search_has_work(3, 0));
    assert_eq!(check_embedding_count(2, 2), Ok(()));
    assert_eq!(check_embedding_count(3, 2), Err("embedding count mismatch: expected 3, got 2".to_string()));
}

#[test]
fn score_keys_order_like_total_cmp() {
    let scores: Vec<f32> = vec![-1.0, -0.0, 0.0, 0.25, 1.0, f32::NEG_INFINITY, f32::INFINITY, -0.5];
    for a in &scores {
        for b in &scores {
            assert_eq!(score_key(a.to_bits()).cmp(&score_key(b.to_bits())), a.total_cmp(b));
        }
    }
    assert_eq!(score_key(0.0f32.to_bits()), 0x8000_0000);
}
