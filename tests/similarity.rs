use image_browser::similarity::{
    candidate_pool_size, rank_descending, rank_key, CosineIndex, Similarity,
};
use std::collections::HashSet;

fn cosine(a: &[f32], b: &[f32]) -> f32 {
    let dot: f32 = a.iter().zip(b.iter()).map(|(x, y)| x * y).sum();
    let na: f32 = a.iter().map(|x| x * x).sum::<f32>().sqrt();
    let nb: f32 = b.iter().map(|x| x * x).sum::<f32>().sqrt();
    if na == 0.0 || nb == 0.0 {
        return 0.0;
    }
    dot / (na * nb)
}

fn sim(x: f32) -> Similarity {
    Similarity { bits: x.to_bits() }
}

fn scores_for(index: &CosineIndex<Vec<f32>>, query: &[f32]) -> Vec<Similarity> {
    index
        .cached_images
        .iter()
        .map(|(_, e)| sim(cosine(query, e)))
        .collect()
}

#[test]
fn test_add_image() {
    let mut index: CosineIndex<Vec<f32>> = CosineIndex::new();
    let path = String::from("/test/image.jpg");
    let embedding = vec![1.0f32, 2.0, 3.0];

    index.add_image(path.clone(), embedding.clone());

    assert_eq!(index.cached_images.len(), 1);
    assert_eq!(index.cached_images[0].0, path);
    assert_eq!(index.cached_images[0].1, embedding);
}

#[test]
fn test_add_multiple_images() {
    let mut index: CosineIndex<Vec<f32>> = CosineIndex::new();
    for i in 0..10 {
        let path = format!("/test/image_{}.jpg", i);
        let embedding = vec![i as f32; 512];
        index.add_image(path, embedding);
    }
    assert_eq!(index.cached_images.len(), 10);
}

#[test]
fn test_get_similar_images_returns_most_similar() {
    let mut index: CosineIndex<Vec<f32>> = CosineIndex::new();
    let query_embedding = vec![1.0f32, 0.0, 0.0];
    index.add_image(String::from("/images/very_similar.jpg"), vec![0.9, 0.1, 0.0]);
    index.add_image(String::from("/images/somewhat_similar.jpg"), vec![0.7, 0.3, 0.0]);
    index.add_image(String::from("/images/dissimilar.jpg"), vec![0.0, 0.0, 1.0]);

    let scores = scores_for(&index, &query_embedding);
    let results = index.get_similar_images(&scores, 2);

    assert_eq!(results.len(), 2);
    let similarities: Vec<f32> = results.iter().map(|(_, s)| f32::from_bits(s.bits)).collect();
    for s in &similarities {
        assert!(*s >= -1.0 && *s <= 1.0, "Similarity out of bounds: {}", s);
    }
    println!("Returned similarities: {:?}", similarities);
}

#[test]
fn test_get_similar_images_with_many_candidates() {
    let mut index: CosineIndex<Vec<f32>> = CosineIndex::new();
    let query = vec![1.0f32; 512];
    for i in 0..100 {
        let mut v = vec![0.0f32; 512];
        for j in 0..(i % 512) {
            v[j] = 1.0;
        }
        index.add_image(format!("/images/img_{}.jpg", i), v);
    }

    let scores = scores_for(&index, &query);
    let results = index.get_similar_images(&scores, 10);

    assert_eq!(results.len(), 10);
    let unique: HashSet<&String> = results.iter().map(|(p, _)| p).collect();
    assert_eq!(unique.len(), 10, "Returned duplicate paths");
}

#[test]
fn test_get_similar_images_request_more_than_available() {
    let mut index: CosineIndex<Vec<f32>> = CosineIndex::new();
    let query = vec![1.0f32, 0.0, 0.0];
    for i in 0..3 {
        index.add_image(format!("/images/img_{}.jpg", i), vec![1.0, i as f32, 0.0]);
    }
    let scores = scores_for(&index, &query);
    let results = index.get_similar_images(&scores, 10);
    assert!(results.len() <= 3, "Returned more images than available");
}

#[test]
fn test_empty_index() {
    let index: CosineIndex<Vec<f32>> = CosineIndex::new();
    let query = vec![1.0f32, 2.0, 3.0];
    let scores = scores_for(&index, &query);
    let results = index.get_similar_images(&scores, 5);
    assert_eq!(results.len(), 0, "Empty index should return no results");
}

#[test]
fn empty_index_returns_nothing_for_any_request() {
    let index: CosineIndex<Vec<f32>> = CosineIndex::new();
    for top_n in [0usize, 1, 7, usize::MAX] {
        assert!(index.get_similar_images(&Vec::new(), top_n).is_empty());
    }
}

#[test]
fn end_to_end_three_entries_top_two() {
    let mut index: CosineIndex<Vec<f32>> = CosineIndex::new();
    index.add_image(String::from("a"), vec![1.0, 0.0, 0.0]);
    index.add_image(String::from("b"), vec![0.9, 0.1, 0.0]);
    index.add_image(String::from("c"), vec![0.0, 0.0, 1.0]);
    let scores = scores_for(&index, &[1.0, 0.0, 0.0]);
    assert_eq!(candidate_pool_size(3, 2), 2);
    for _ in 0..20 {
        let results = index.get_similar_images(&scores, 2);
        assert_eq!(results.len(), 2);
        let ids: HashSet<&str> = results.iter().map(|(p, _)| p.as_str()).collect();
        assert_eq!(ids, HashSet::from(["a", "b"]));
        for (_, s) in &results {
            let v = f32::from_bits(s.bits);
            assert!((-1.0..=1.0).contains(&v));
        }
    }
}

#[test]
fn injected_draws_pick_exact_ranking_positions() {
    let mut index: CosineIndex<Vec<f32>> = CosineIndex::new();
    index.add_image(String::from("a"), vec![1.0, 0.0, 0.0]);
    index.add_image(String::from("b"), vec![0.9, 0.1, 0.0]);
    index.add_image(String::from("c"), vec![0.0, 0.0, 1.0]);
    let scores = scores_for(&index, &[1.0, 0.0, 0.0]);
    let r = index.get_similar_images_with_draws(&scores, 2, &vec![1, 0]);
    assert_eq!(r.len(), 2);
    assert_eq!(r[0].0, "b");
    assert_eq!(r[1].0, "a");
    assert_eq!(r[1].1, sim(1.0));
}

#[test]
fn duplicate_identifiers_are_never_multiplied() {
    let mut index: CosineIndex<Vec<f32>> = CosineIndex::new();
    index.add_image(String::from("dup"), vec![1.0, 0.0]);
    index.add_image(String::from("dup"), vec![1.0, 0.0]);
    index.add_image(String::from("solo"), vec![0.0, 1.0]);
    let scores = scores_for(&index, &[1.0, 0.0]);
    for _ in 0..20 {
        let r = index.get_similar_images(&scores, 3);
        assert_eq!(r.len(), 3);
        assert_eq!(r.iter().filter(|(p, _)| p == "dup").count(), 2);
        assert_eq!(r.iter().filter(|(p, _)| p == "solo").count(), 1);
    }
}

#[test]
fn ranking_is_descending_with_nan_last_and_stable_ties() {
    let scores = vec![
        sim(0.5),
        sim(f32::NAN),
        sim(-0.25),
        sim(0.9),
        sim(0.5),
        sim(-0.0),
        sim(0.0),
    ];
    assert_eq!(rank_descending(&scores), vec![3, 0, 4, 5, 6, 2, 1]);
}

#[test]
fn rank_keys_follow_float_order() {
    let values = [f32::NEG_INFINITY, -2.0, -1.0, -1e-30, 0.0, 1e-30, 0.5, 1.0, f32::INFINITY];
    for w in values.windows(2) {
        assert!(rank_key(sim(w[0])) < rank_key(sim(w[1])));
    }
    assert_eq!(rank_key(sim(-0.0)), rank_key(sim(0.0)));
    assert_eq!(rank_key(sim(f32::NAN)), 0);
    assert!(rank_key(sim(f32::NEG_INFINITY)) > 0);
}

#[test]
fn candidate_pool_is_top_fifth_or_top_n() {
    assert_eq!(candidate_pool_size(0, 5), 0);
    assert_eq!(candidate_pool_size(100, 10), 20);
    assert_eq!(candidate_pool_size(101, 10), 21);
    assert_eq!(candidate_pool_size(100, 30), 30);
    assert_eq!(candidate_pool_size(10, 50), 10);
    assert_eq!(candidate_pool_size(1, 0), 1);
}

#[test]
fn pool_limits_results_to_the_best_ranked() {
    let mut index: CosineIndex<Vec<f32>> = CosineIndex::new();
    for i in 0..10 {
        index.add_image(format!("{}", i), vec![]);
    }
    let scores: Vec<Similarity> = (0..10).map(|i| sim(i as f32 / 10.0)).collect();
    for _ in 0..20 {
        let r = index.get_similar_images(&scores, 2);
        assert_eq!(r.len(), 2);
        for (p, _) in &r {
            assert!(p == "9" || p == "8");
        }
    }
}
