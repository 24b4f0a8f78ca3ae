use stat_engine::pairs::{variable_pairs, DuplicateName};

fn names(items: &[&str]) -> Vec<String> {
    items.iter().map(|s| s.to_string()).collect()
}

fn listed(items: &[&str]) -> Vec<(usize, usize, String)> {
    variable_pairs(&names(items))
        .unwrap()
        .into_iter()
        .map(|p| (p.first, p.second, p.label))
        .collect()
}

fn labels(items: &[&str]) -> Vec<String> {
    let mut all: Vec<String> = listed(items).into_iter().map(|(_, _, label)| label).collect();
    all.sort();
    all
}

#[test]
fn three_variables_give_three_pairs() {
    assert_eq!(
        listed(&["a", "b", "c"]),
        vec![
            (0, 1, "a_b".to_string()),
            (0, 2, "a_c".to_string()),
            (1, 2, "b_c".to_string())
        ]
    );
}

#[test]
fn the_lesser_name_comes_first_in_a_pair() {
    assert_eq!(
        listed(&["c", "b", "a"]),
        vec![
            (1, 0, "b_c".to_string()),
            (2, 0, "a_c".to_string()),
            (2, 1, "a_b".to_string())
        ]
    );
    assert_eq!(listed(&["b", "a"]), vec![(1, 0, "a_b".to_string())]);
    assert_eq!(listed(&["ab", "a"]), vec![(1, 0, "a_ab".to_string())]);
    assert_eq!(listed(&["a", "B"]), vec![(1, 0, "B_a".to_string())]);
    assert_eq!(listed(&["", "x"]), vec![(0, 1, "_x".to_string())]);
    assert_eq!(listed(&["é", "z"]), vec![(1, 0, "z_é".to_string())]);
}

#[test]
fn names_are_ordered_as_texts_are() {
    let items = ["", "a", "A", "aa", "ab", "b", "é", "日本", "z", "a b", "a_b", "10", "9"];
    for x in items {
        for y in items {
            if x != y {
                let pairs = listed(&[x, y]);
                let expected = if x < y { format!("{}_{}", x, y) } else { format!("{}_{}", y, x) };
                assert_eq!(pairs.len(), 1);
                assert_eq!(pairs[0].2, expected, "{:?} and {:?}", x, y);
            }
        }
    }
}

#[test]
fn fewer_than_two_variables_give_no_pair() {
    assert!(listed(&[]).is_empty());
    assert!(listed(&["alone"]).is_empty());
}

#[test]
fn every_pair_once_and_none_with_itself() {
    for n in 0usize..12 {
        let items: Vec<String> = (0..n).map(|i| format!("v{}", i)).collect();
        let pairs = variable_pairs(&items).unwrap();
        assert_eq!(pairs.len(), n * n.saturating_sub(1) / 2);
        let mut seen = std::collections::BTreeSet::new();
        for pair in &pairs {
            assert!(pair.first != pair.second && pair.first < n && pair.second < n);
            assert!(items[pair.first] < items[pair.second]);
            let low = pair.first.min(pair.second);
            let high = pair.first.max(pair.second);
            assert!(seen.insert((low, high)));
            assert_eq!(pair.label, format!("{}_{}", items[pair.first], items[pair.second]));
        }
        for i in 0..n {
            for j in (i + 1)..n {
                assert!(seen.contains(&(i, j)));
            }
        }
    }
}

#[test]
fn any_order_of_the_names_gives_the_same_labels() {
    let orders: [[&str; 3]; 6] = [
        ["a", "b", "c"],
        ["a", "c", "b"],
        ["b", "a", "c"],
        ["b", "c", "a"],
        ["c", "a", "b"],
        ["c", "b", "a"],
    ];
    let expected = vec!["a_b".to_string(), "a_c".to_string(), "b_c".to_string()];
    for order in orders {
        assert_eq!(labels(&order), expected, "{:?}", order);
        let items = names(&order);
        for pair in variable_pairs(&items).unwrap() {
            assert_eq!(pair.label, format!("{}_{}", items[pair.first], items[pair.second]));
            assert!(items[pair.first] < items[pair.second]);
        }
    }
}

#[test]
fn any_order_gives_the_same_value_under_each_label() {
    let samples = [("gamma", 3.0), ("alpha", 1.0), ("beta", 2.0), ("delta", 4.0)];
    let value_of = |order: &[usize]| -> Vec<(String, f64)> {
        let items: Vec<String> = order.iter().map(|at| samples[*at].0.to_string()).collect();
        let mut filed: Vec<(String, f64)> = variable_pairs(&items)
            .unwrap()
            .into_iter()
            .map(|pair| {
                let x = samples[order[pair.first]].1;
                let y = samples[order[pair.second]].1;
                (pair.label, x * 10.0 + y)
            })
            .collect();
        filed.sort_by(|a, b| a.0.cmp(&b.0));
        filed
    };
    let reference = value_of(&[0, 1, 2, 3]);
    assert_eq!(reference.len(), 6);
    assert_eq!(reference[0], ("alpha_beta".to_string(), 12.0));
    for order in [[3, 2, 1, 0], [1, 0, 3, 2], [2, 3, 0, 1], [1, 2, 3, 0]] {
        assert_eq!(value_of(&order), reference);
    }
}

#[test]
fn labels_join_the_names_as_they_are() {
    assert_eq!(listed(&["x_1", ""]), vec![(1, 0, "_x_1".to_string())]);
    assert_eq!(listed(&["é", "日本"]), vec![(0, 1, "é_日本".to_string())]);
}

#[test]
fn a_name_that_occurs_twice_is_turned_away() {
    assert_eq!(
        variable_pairs(&names(&["same", "same"])).err(),
        Some(DuplicateName { first: 0, second: 1 })
    );
    assert_eq!(
        variable_pairs(&names(&["a", "b", "c", "b", "a"])).err(),
        Some(DuplicateName { first: 0, second: 4 })
    );
    assert_eq!(
        variable_pairs(&names(&["a", "b", "b", "c", "c"])).err(),
        Some(DuplicateName { first: 1, second: 2 })
    );
    assert_eq!(
        variable_pairs(&names(&["", "x", ""])).err(),
        Some(DuplicateName { first: 0, second: 2 })
    );
}
