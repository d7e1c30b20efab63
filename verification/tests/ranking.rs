use fuzzy_matcher::skim::SkimMatcherV2;
use fuzzy_matcher::FuzzyMatcher;
use fuzzypicker::matcher::score_text;
use fuzzypicker::rank::{arrange, filter, rank, score_all};

fn languages() -> Vec<String> {
    vec!["rust", "python", "javascript", "java", "c++", "go", "swift"]
        .into_iter()
        .map(String::from)
        .collect()
}

fn skim(choice: &str, pattern: &str) -> i64 {
    SkimMatcherV2::default()
        .fuzzy_match(&choice.to_lowercase(), &pattern.to_lowercase())
        .unwrap_or(0)
}

#[test]
fn empty_prompt_keeps_every_candidate_in_order() {
    let labels = languages();
    assert_eq!(filter(&labels, ""), labels);
    assert_eq!(rank(&labels, ""), vec![0usize, 1, 2, 3, 4, 5, 6]);
}

#[test]
fn empty_candidate_list_filters_to_nothing() {
    let labels: Vec<String> = Vec::new();
    assert!(filter(&labels, "").is_empty());
    assert!(filter(&labels, "ja").is_empty());
    assert!(rank(&labels, "ja").is_empty());
}

#[test]
fn prompt_ja_keeps_java_and_javascript() {
    let labels = languages();
    let shown = filter(&labels, "ja");
    let mut sorted = shown.clone();
    sorted.sort();
    assert_eq!(sorted, vec!["java".to_string(), "javascript".to_string()]);
    assert!(skim(&shown[0], "ja") >= skim(&shown[1], "ja"));
}

#[test]
fn prompt_without_match_filters_to_nothing() {
    let labels = languages();
    assert!(filter(&labels, "xyz").is_empty());
    assert!(rank(&labels, "xyz").is_empty());
}

#[test]
fn kept_exactly_when_score_is_not_zero() {
    let labels = languages();
    for prompt in ["j", "ja", "s", "t", "py", "+", "o", "rust", "zz"] {
        let order = rank(&labels, prompt);
        for i in 0..labels.len() {
            let kept = skim(&labels[i], prompt) != 0;
            assert_eq!(order.contains(&i), kept, "prompt {prompt}, candidate {i}");
        }
        let shown = filter(&labels, prompt);
        assert_eq!(shown.len(), order.len());
        for k in 0..order.len() {
            assert_eq!(shown[k], labels[order[k]]);
        }
    }
}

#[test]
fn ranking_descends_by_score_and_keeps_ties_in_candidate_order() {
    let labels: Vec<String> = vec![
        "go", "golang", "gopher", "cargo", "Go", "algol", "go", "ergo", "good", "g-o",
    ]
    .into_iter()
    .map(String::from)
    .collect();
    for prompt in ["g", "go", "o", "GO", "gol"] {
        let order = rank(&labels, prompt);
        for k in 1..order.len() {
            let upper = skim(&labels[order[k - 1]], prompt);
            let lower = skim(&labels[order[k]], prompt);
            assert!(
                upper > lower || (upper == lower && order[k - 1] < order[k]),
                "prompt {prompt}, places {} and {k}",
                k - 1
            );
        }
    }
}

#[test]
fn equal_texts_stay_in_candidate_order() {
    let labels: Vec<String> = vec!["same", "same", "other", "same"]
        .into_iter()
        .map(String::from)
        .collect();
    assert_eq!(rank(&labels, "sa"), vec![0usize, 1, 3]);
}

#[test]
fn ranking_is_the_same_on_every_call() {
    let labels = languages();
    assert_eq!(rank(&labels, "a"), rank(&labels, "a"));
    assert_eq!(filter(&labels, "t"), filter(&labels, "t"));
}

#[test]
fn better_match_comes_first() {
    let labels: Vec<String> = vec!["a-b-c", "abc", "axxbxxc"]
        .into_iter()
        .map(String::from)
        .collect();
    let order = rank(&labels, "abc");
    assert_eq!(order.len(), 3);
    assert_eq!(order[0], 1);
    assert_eq!(filter(&labels, "abc")[0], "abc");
}

#[test]
fn score_is_that_of_the_skim_matcher() {
    let expected = SkimMatcherV2::default().fuzzy_match("axbycz", "abc");
    assert!(expected.is_some());
    assert_eq!(Some(score_text("axbycz", "abc")), expected);
    assert!(score_text("axbycz", "abc") > 0);
}

#[test]
fn score_of_a_prefix_match() {
    assert_eq!(score_text("java", "ja"), 51);
    assert_eq!(score_text("Java", "ja"), 51);
}

#[test]
fn score_without_match_is_zero() {
    assert_eq!(score_text("rust", "xyz"), 0);
    assert_eq!(score_text("", "a"), 0);
}

#[test]
fn score_lowers_the_text_first() {
    let matcher = SkimMatcherV2::default();
    let lowered = matcher.fuzzy_match("java", "ja").unwrap();
    let raw = matcher.fuzzy_match("JAVA", "ja").unwrap();
    assert_eq!(score_text("JAVA", "ja"), lowered);
    assert_ne!(lowered, raw);
}

#[test]
fn prompt_is_matched_without_regard_to_case() {
    let labels = languages();
    assert_eq!(filter(&labels, "JA"), filter(&labels, "ja"));
    assert_eq!(filter(&labels, "JA").len(), 2);
}

#[test]
fn arrange_lists_by_key_then_place() {
    assert_eq!(arrange(&vec![0, 5, 3, 5], false), vec![1usize, 3, 2]);
    assert_eq!(arrange(&vec![0, 5, 3, 5], true), vec![1usize, 3, 2, 0]);
    assert_eq!(arrange(&vec![-1, 0, 4, -7, 4], false), vec![2usize, 4, 0, 3]);
    assert_eq!(arrange(&vec![-1, 0, 4, -7, 4], true), vec![2usize, 4, 1, 0, 3]);
    assert_eq!(arrange(&vec![i64::MIN, i64::MAX, 0], false), vec![1usize, 0]);
}

#[test]
fn arrange_keeps_equal_keys_in_place_order() {
    assert_eq!(arrange(&vec![0, 0, 0], true), vec![0usize, 1, 2]);
    assert_eq!(arrange(&vec![7, 7, 7, 7], false), vec![0usize, 1, 2, 3]);
}

#[test]
fn arrange_of_nothing_is_empty() {
    assert!(arrange(&Vec::new(), true).is_empty());
    assert!(arrange(&Vec::new(), false).is_empty());
    assert!(arrange(&vec![0, 0], false).is_empty());
}

#[test]
fn score_all_scores_each_candidate() {
    let labels = languages();
    let keys = score_all(&labels, "Ja");
    assert_eq!(keys.len(), labels.len());
    for i in 0..labels.len() {
        assert_eq!(keys[i], skim(&labels[i], "ja"));
    }
    assert_eq!(keys, vec![0i64, 0, 51, 51, 0, 0, 0]);
}

#[test]
fn score_all_under_an_empty_prompt_is_zero() {
    assert_eq!(score_all(&languages(), ""), vec![0i64; 7]);
}
