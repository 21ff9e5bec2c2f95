use katsvg_engine::retrieval::{candidate_features, query_features, tag_overlap, term_counts, vocabulary, word_tokens};
use katsvg_engine::{EmbeddingRetriever, LayoutType};

fn s(v: &[&str]) -> Vec<String> {
    v.iter().map(|x| x.to_string()).collect()
}

#[test]
fn tokens_are_lowered_alphanumeric_runs_without_stop_words() {
    assert_eq!(word_tokens("The Quick-Brown fox, AND 42!"), s(&["quick", "brown", "fox", "42"]));
    assert_eq!(word_tokens("an"), Vec::<String>::new());
    assert_eq!(word_tokens("ไทย Report"), s(&["ไทย", "report"]));
    assert_eq!(query_features("KPI of the year"), s(&["kpi", "year"]));
}

#[test]
fn candidate_features_join_tags_type_and_description() {
    let f = candidate_features(&s(&["Timeline", "the steps"]), LayoutType::ProcessTimeline, Some("A roadmap of phases"));
    assert_eq!(f, s(&["timeline", "steps", "processtimeline", "roadmap", "phases"]));
    let g = candidate_features(&s(&[]), LayoutType::ComparisonGrid, None);
    assert_eq!(g, s(&["comparisongrid"]));
}

#[test]
fn vocabulary_keeps_first_occurrences_in_order() {
    let v = vocabulary(&vec![s(&["a1", "b2", "a1"]), s(&["c3", "b2"])]);
    assert_eq!(v, s(&["a1", "b2", "c3"]));
    assert_eq!(term_counts(&s(&["b2", "a1", "b2", "zz"]), &v), vec![1, 2, 0]);
}

#[test]
fn tag_overlap_counts_distinct_tags() {
    assert_eq!(tag_overlap("Quarterly KPI dashboard", &s(&["kpi", "dashboard", "kpi", "timeline"])), (2, 3));
    assert_eq!(tag_overlap("nothing", &s(&[])), (0, 0));
    let _ = EmbeddingRetriever::new();
}
