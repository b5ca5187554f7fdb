use yofi::filtered_lines::{continuous_matches, ContinuousMatch, FilteredLines};

fn strings(v: &[&str]) -> Vec<String> {
    v.iter().map(|s| s.to_string()).collect()
}

fn order(entries: &[&str], query: &str) -> Vec<String> {
    let texts = strings(entries);
    let f = FilteredLines::filter(&texts, query);
    (0..f.len())
        .map(|i| texts[f.index(i).unwrap()].clone())
        .collect()
}

#[test]
fn empty_query_keeps_every_candidate_in_place() {
    let texts = strings(&["Firefox", "Chromium", "Terminal"]);
    let f = FilteredLines::filter(&texts, "");
    assert_eq!(f.len(), 3);
    for i in 0..3 {
        assert_eq!(f.index(i), Some(i));
    }
    assert!(matches!(f, FilteredLines::Unfiltered(3)));
}

#[test]
fn unmatched_candidates_are_excluded() {
    let texts = strings(&["abc", "xyz", "", "bca"]);
    let f = FilteredLines::filter(&texts, "ab");
    let got: Vec<usize> = (0..f.len()).map(|i| f.index(i).unwrap()).collect();
    assert_eq!(got, vec![0]);
    let none = FilteredLines::filter(&texts, "q");
    assert_eq!(none.len(), 0);
    assert_eq!(none.index(0), None);
}

#[test]
fn filtering_is_deterministic() {
    let texts = strings(&["alpha", "alphabet", "alp", "lap", "pal", "alpine"]);
    let a = FilteredLines::filter(&texts, "al");
    let b = FilteredLines::filter(&texts, "al");
    let ia: Vec<usize> = (0..a.len()).map(|i| a.index(i).unwrap()).collect();
    let ib: Vec<usize> = (0..b.len()).map(|i| b.index(i).unwrap()).collect();
    assert_eq!(ia, ib);
    assert!(!ia.is_empty());
}

#[test]
fn prefix_beats_scatter() {
    let texts = strings(&["xylophone", "x_y_l_o"]);
    match FilteredLines::searched(&texts, "xyl") {
        FilteredLines::Searched(v) => {
            assert_eq!(v.len(), 2);
            let score = |i: usize| v.iter().find(|e| e.index == i).unwrap().score;
            assert!(score(0) >= score(1));
        }
        FilteredLines::Unfiltered(_) => panic!("expected a search result"),
    }
}

#[test]
fn order_items_exact() {
    assert_eq!(order(&["asd"], "asd"), vec!["asd"]);
    assert_eq!(order(&["xy", "yx"], "xy"), vec!["xy"]);
    assert_eq!(order(&["xy", "yx"], "x"), vec!["xy", "yx"]);
    assert_eq!(order(&["xy", "yx"], "y"), vec!["yx", "xy"]);
    assert_eq!(order(&["ab-cd", "ac-bd"], "cd"), vec!["ab-cd", "ac-bd"]);
    assert_eq!(order(&["ab-cd", "cd-ab"], "ab"), vec!["ab-cd", "cd-ab"]);
}

#[test]
fn equal_candidates_keep_their_order() {
    let texts = strings(&["same", "same", "same"]);
    let f = FilteredLines::filter(&texts, "sa");
    let got: Vec<usize> = (0..f.len()).map(|i| f.index(i).unwrap()).collect();
    assert_eq!(got, vec![0, 1, 2]);
}

#[test]
fn continuous_runs() {
    let runs = continuous_matches(&vec![0, 1, 2, 5, 6, 10]);
    assert_eq!(
        runs,
        vec![
            ContinuousMatch { start: 0, len: 3 },
            ContinuousMatch { start: 5, len: 2 },
            ContinuousMatch { start: 10, len: 1 },
        ]
    );
    assert!(continuous_matches(&vec![]).is_empty());
}

#[test]
fn list_items_window_and_masks() {
    let texts = strings(&["Firefox", "Chromium", "Terminal"]);
    let f = FilteredLines::filter(&texts, "");
    let rows = f.list_items(1, 5, 1, 0);
    assert_eq!(rows.len(), 2);
    assert_eq!(rows[0].index, 1);
    assert_eq!(rows[1].index, 2);
    assert!(rows[0].match_mask.is_none());
    assert!(f.list_items(3, 2, 0, 0).is_empty());

    let s = FilteredLines::filter(&texts, "fire");
    let rows = s.list_items(0, 10, 0, 0);
    assert_eq!(rows.len(), 1);
    assert_eq!(rows[0].index, 0);
    assert_eq!(
        rows[0].match_mask,
        Some(vec![ContinuousMatch { start: 0, len: 4 }])
    );
}
