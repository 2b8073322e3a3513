use interview_notes::ranker::{rank_recent, RecencyRanker, RECENT_LIMIT};

fn paths(items: &[&str]) -> Vec<String> {
    items.iter().map(|s| s.to_string()).collect()
}

#[test]
fn fewer_than_ten_are_all_returned_sorted() {
    let input = paths(&["c", "a", "b"]);
    assert_eq!(rank_recent(&input), paths(&["a", "b", "c"]));
}

#[test]
fn empty_input_ranks_to_nothing() {
    assert!(rank_recent(&Vec::new()).is_empty());
}

#[test]
fn ten_greatest_of_many_in_ascending_order() {
    let mut input = Vec::new();
    for i in [7, 3, 19, 0, 12, 5, 18, 1, 9, 14, 2, 16, 11, 4, 17, 6, 13, 8, 15, 10] {
        input.push(format!("/r/2024/202401{:02}T000000-acme.eml", i + 1));
    }
    let mut expected = input.clone();
    expected.sort();
    let expected: Vec<String> = expected[10..].to_vec();
    let got = rank_recent(&input);
    assert_eq!(got.len(), RECENT_LIMIT);
    assert_eq!(got, expected);
    assert_eq!(got[0], "/r/2024/20240111T000000-acme.eml");
    assert_eq!(got[9], "/r/2024/20240120T000000-acme.eml");
}

#[test]
fn duplicates_are_kept_as_a_multiset() {
    let input = paths(&["b", "a", "b", "b", "a", "c", "b", "a", "b", "c", "a", "b"]);
    let got = rank_recent(&input);
    assert_eq!(got, paths(&["a", "a", "b", "b", "b", "b", "b", "b", "c", "c"]));
}

#[test]
fn order_is_by_code_point_as_for_strings() {
    let input = paths(&["é", "z", "Z", "a", "日", "ab", "a!", ""]);
    let mut expected = input.clone();
    expected.sort();
    assert_eq!(rank_recent(&input), expected);
}

#[test]
fn ranker_never_holds_more_than_ten() {
    let mut ranker = RecencyRanker::new();
    for i in 0..50 {
        ranker.offer(format!("{:03}", (i * 37) % 50));
        assert!(ranker.len() <= RECENT_LIMIT);
        assert_eq!(ranker.len(), std::cmp::min(i + 1, 10));
    }
    let got = ranker.into_sorted();
    let expected: Vec<String> = (40..50).map(|i| format!("{:03}", i)).collect();
    assert_eq!(got, expected);
}
