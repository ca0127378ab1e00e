use git_agent::chunker::CodeChunk;
use git_agent::indexer::{rank, IndexedDoc, RebuildPlan, RebuildStatus, Score, SemanticIndexer, SourceFile};

fn chunk(path: &str, content: &str, start_line: usize) -> CodeChunk {
    CodeChunk { path: path.to_string(), content: content.to_string(), start_line, end_line: start_line + 4 }
}

fn doc(name: &str, vector: &[f32]) -> IndexedDoc {
    IndexedDoc {
        path: format!("{}.rs", name),
        content: format!("fn {}() {{}}", name),
        start_line: 1,
        embedding: vector.iter().map(|x| x.to_bits()).collect(),
    }
}

fn rank_of(score: f32) -> u32 {
    let bits = score.to_bits();
    if score.is_nan() {
        0
    } else if bits & 0x8000_0000 != 0 {
        !bits
    } else {
        bits | 0x8000_0000
    }
}

fn cosine(a: &[f32], b: &[f32]) -> f32 {
    let dot: f32 = a.iter().zip(b).map(|(x, y)| x * y).sum();
    let norm_a: f32 = a.iter().map(|x| x * x).sum::<f32>().sqrt();
    let norm_b: f32 = b.iter().map(|x| x * x).sum::<f32>().sqrt();
    if norm_a == 0.0 || norm_b == 0.0 {
        0.0
    } else {
        dot / (norm_a * norm_b)
    }
}

fn scores_for(indexer: &SemanticIndexer, query: &[f32]) -> Vec<Score> {
    indexer
        .documents()
        .iter()
        .map(|d| {
            let vector: Vec<f32> = d.embedding.iter().map(|b| f32::from_bits(*b)).collect();
            let score = cosine(query, &vector);
            Score { rank: rank_of(score), shown: format!("{:.2}", score) }
        })
        .collect()
}

fn score(rank: u32) -> Score {
    Score { rank, shown: rank.to_string() }
}

#[test]
fn embedding_input_names_path_and_line_in_front_of_the_text() {
    let input = SemanticIndexer::embedding_input(&chunk("src/a.rs", "fn a() {}", 12));
    assert_eq!(input, "File: src/a.rs\nLine: 12\n\nfn a() {}");
}

#[test]
fn embedding_inputs_keep_the_order_of_the_chunks() {
    let inputs = SemanticIndexer::embedding_inputs(&vec![chunk("a", "x", 1), chunk("b", "y", 20)]);
    assert_eq!(inputs, vec!["File: a\nLine: 1\n\nx".to_string(), "File: b\nLine: 20\n\ny".to_string()]);
}

const LONG_FUNCTION: &str = "fn long() -> i32 {\n    let a = 1;\n    let b = 2;\n    let c = 3;\n    a + b + c\n}\n";

#[test]
fn collect_passes_over_unreadable_files_and_keeps_the_order() {
    let files = vec![
        SourceFile { path: "b.rs".to_string(), content: Some(LONG_FUNCTION.to_string()) },
        SourceFile { path: "gone.rs".to_string(), content: None },
        SourceFile { path: "notes.txt".to_string(), content: Some(LONG_FUNCTION.to_string()) },
        SourceFile { path: "a.rs".to_string(), content: Some(LONG_FUNCTION.to_string()) },
    ];
    let chunks = SemanticIndexer::collect(&files).unwrap();
    let paths: Vec<&str> = chunks.iter().map(|c| c.path.as_str()).collect();
    assert_eq!(paths, vec!["b.rs", "a.rs"]);
}

#[test]
fn plan_rebuild_has_nothing_to_embed_without_chunks() {
    let files = vec![SourceFile { path: "notes.txt".to_string(), content: Some("text".to_string()) }];
    assert!(matches!(SemanticIndexer::plan_rebuild(&files), Ok(RebuildPlan::Nothing)));
    assert!(matches!(SemanticIndexer::plan_rebuild(&vec![]), Ok(RebuildPlan::Nothing)));
}

#[test]
fn plan_rebuild_gives_one_input_for_each_chunk() {
    let files = vec![SourceFile { path: "a.rs".to_string(), content: Some(LONG_FUNCTION.to_string()) }];
    match SemanticIndexer::plan_rebuild(&files).unwrap() {
        RebuildPlan::Embed { chunks, inputs } => {
            assert_eq!(chunks.len(), 1);
            assert_eq!(inputs, vec![format!("File: a.rs\nLine: 1\n\n{}", LONG_FUNCTION.trim_end())]);
        },
        RebuildPlan::Nothing => panic!("the file has a chunk"),
    }
}

#[test]
fn index_repo_pairs_chunks_and_vectors_by_position() {
    let mut indexer = SemanticIndexer::new(vec![doc("old", &[1.0])]);
    let chunks = vec![chunk("a", "x", 1), chunk("b", "y", 9)];
    let status = indexer.index_repo(&chunks, Ok(vec![vec![1, 2], vec![3, 4]]));
    assert!(matches!(status, RebuildStatus::Updated(2)));
    let docs = indexer.documents();
    assert_eq!(docs.len(), 2);
    assert_eq!((docs[0].path.as_str(), docs[0].content.as_str(), docs[0].start_line), ("a", "x", 1));
    assert_eq!(docs[0].embedding, vec![1, 2]);
    assert_eq!((docs[1].path.as_str(), docs[1].content.as_str(), docs[1].start_line), ("b", "y", 9));
    assert_eq!(docs[1].embedding, vec![3, 4]);
}

#[test]
fn index_repo_without_chunks_leaves_the_index() {
    let mut indexer = SemanticIndexer::new(vec![doc("old", &[1.0])]);
    assert!(matches!(indexer.index_repo(&vec![], Ok(vec![])), RebuildStatus::NoChange));
    assert!(matches!(indexer.index_repo(&vec![], Err("down".to_string())), RebuildStatus::NoChange));
    assert_eq!(indexer.documents()[0].path, "old.rs");
}

#[test]
fn index_repo_leaves_the_index_when_the_embedding_failed() {
    let mut indexer = SemanticIndexer::new(vec![doc("old", &[1.0])]);
    match indexer.index_repo(&vec![chunk("a", "x", 1)], Err("backend down".to_string())) {
        RebuildStatus::Failed(message) => assert_eq!(message, "Embedding failed: backend down"),
        _ => panic!("the embedding failed"),
    }
    assert_eq!(indexer.len(), 1);
    assert_eq!(indexer.documents()[0].path, "old.rs");
}

#[test]
fn index_repo_refuses_vectors_that_do_not_fit() {
    let mut indexer = SemanticIndexer::new(vec![doc("old", &[1.0])]);
    let chunks = vec![chunk("a", "x", 1), chunk("b", "y", 9)];
    assert!(matches!(indexer.index_repo(&chunks, Ok(vec![vec![1, 2]])), RebuildStatus::Failed(_)));
    assert!(matches!(indexer.index_repo(&chunks, Ok(vec![vec![1, 2], vec![3]])), RebuildStatus::Failed(_)));
    assert_eq!(indexer.documents()[0].path, "old.rs");
}

#[test]
fn new_keeps_only_entries_of_one_dimension() {
    assert_eq!(SemanticIndexer::new(vec![doc("a", &[1.0, 0.0]), doc("b", &[0.0, 1.0])]).len(), 2);
    assert_eq!(SemanticIndexer::new(vec![doc("a", &[1.0, 0.0]), doc("b", &[1.0])]).len(), 0);
    assert!(SemanticIndexer::new(vec![]).is_empty());
}

#[test]
fn search_on_an_empty_index_says_so() {
    let indexer = SemanticIndexer::new(vec![]);
    assert_eq!(indexer.search(Ok(vec![]), 3), "Index is empty. Run initialization.");
    assert_eq!(indexer.search(Err("down".to_string()), 3), "Index is empty. Run initialization.");
    assert_eq!(indexer.search(Ok(vec![score(1)]), 3), "Index is empty. Run initialization.");
}

#[test]
fn search_reports_a_query_that_could_not_be_embedded() {
    let indexer = SemanticIndexer::new(vec![doc("a", &[1.0, 0.0])]);
    assert_eq!(indexer.search(Err("backend down".to_string()), 3), "Failed to embed query: backend down");
}

#[test]
fn search_ranks_equal_scores_in_the_order_of_the_index() {
    let indexer = SemanticIndexer::new(vec![doc("a", &[1.0, 0.0]), doc("b", &[1.0, 0.0]), doc("c", &[0.0, 1.0])]);
    let scores = scores_for(&indexer, &[1.0, 0.0]);
    let out = indexer.search(Ok(scores), 3);
    assert_eq!(
        out,
        "--- Match (Score: 1.00) ---\nFile: a.rs:1\n\nfn a() {}\n\n--- Match (Score: 1.00) ---\nFile: b.rs:1\n\nfn b() {}\n\n--- Match (Score: 0.00) ---\nFile: c.rs:1\n\nfn c() {}\n"
    );
}

#[test]
fn search_puts_the_best_match_first() {
    let indexer = SemanticIndexer::new(vec![doc("c", &[0.0, 1.0]), doc("n", &[-1.0, 0.0]), doc("a", &[1.0, 0.0])]);
    let scores = scores_for(&indexer, &[1.0, 0.0]);
    let out = indexer.search(Ok(scores), 2);
    assert_eq!(
        out,
        "--- Match (Score: 1.00) ---\nFile: a.rs:1\n\nfn a() {}\n\n--- Match (Score: 0.00) ---\nFile: c.rs:1\n\nfn c() {}\n"
    );
}

#[test]
fn search_scores_a_zero_vector_as_zero() {
    let indexer = SemanticIndexer::new(vec![doc("z", &[0.0, 0.0]), doc("a", &[1.0, 0.0])]);
    let scores = scores_for(&indexer, &[1.0, 0.0]);
    assert_eq!(scores[0].shown, "0.00");
    let out = indexer.search(Ok(scores), 5);
    assert!(out.starts_with("--- Match (Score: 1.00) ---\nFile: a.rs:1"));
    assert!(out.ends_with("--- Match (Score: 0.00) ---\nFile: z.rs:1\n\nfn z() {}\n"));
}

#[test]
fn search_shows_all_entries_when_more_are_asked_for() {
    let indexer = SemanticIndexer::new(vec![doc("a", &[1.0]), doc("b", &[1.0])]);
    let out = indexer.search(Ok(vec![score(1), score(2)]), 10);
    assert_eq!(out.matches("--- Match").count(), 2);
    assert!(out.starts_with("--- Match (Score: 2) ---\nFile: b.rs:1"));
}

#[test]
fn search_without_a_match_to_show_says_so() {
    let indexer = SemanticIndexer::new(vec![doc("a", &[1.0])]);
    assert_eq!(indexer.search(Ok(vec![score(1)]), 0), "No relevant code found.");
    assert_eq!(indexer.search(Ok(vec![]), 3), "No relevant code found.");
}

#[test]
fn rank_orders_by_rank_and_then_by_position() {
    let scores: Vec<Score> = [5, 9, 5, 0, 9, u32::MAX].iter().map(|r| score(*r)).collect();
    let order: Vec<usize> = rank(&scores, 6).iter().map(|r| r.index).collect();
    assert_eq!(order, vec![5, 1, 4, 0, 2, 3]);
    let fewer: Vec<usize> = rank(&scores, 3).iter().map(|r| r.index).collect();
    assert_eq!(fewer, vec![1, 0, 2]);
    assert!(rank(&vec![], 4).is_empty());
}

#[test]
fn collect_of_lists_in_parts_gives_the_same_chunks() {
    let file = |path: &str| SourceFile { path: path.to_string(), content: Some(LONG_FUNCTION.to_string()) };
    let all = vec![file("a.rs"), file("b.rs"), file("c.rs")];
    let whole: Vec<String> = SemanticIndexer::collect(&all).unwrap().iter().map(|c| c.path.clone()).collect();
    let mut parts: Vec<String> = Vec::new();
    for group in [vec![file("a.rs")], vec![file("b.rs"), file("c.rs")]] {
        parts.extend(SemanticIndexer::collect(&group).unwrap().iter().map(|c| c.path.clone()));
    }
    assert_eq!(whole, parts);
    assert_eq!(whole, vec!["a.rs", "b.rs", "c.rs"]);
}
