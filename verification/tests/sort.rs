use vivid::output::{Assignment, Sample};
use vivid::sort::sorted_positions;

fn strings(items: &[&str]) -> Vec<String> {
    items.iter().map(|s| s.to_string()).collect()
}

#[test]
fn positions_of_sorted_strings() {
    let items = strings(&["pear", "apple", "fig", "apple", "banana"]);
    assert_eq!(vec![1, 3, 4, 2, 0], sorted_positions(&items));
    assert!(sorted_positions(&strings(&[])).is_empty());
    assert_eq!(vec![0], sorted_positions(&strings(&["x"])));
    assert_eq!(vec![0, 1, 2], sorted_positions(&strings(&["a", "b", "c"])));
    assert_eq!(vec![2, 1, 0], sorted_positions(&strings(&["c", "b", "a"])));
}

#[test]
fn equal_ranks_keep_their_order() {
    let sample = |category: &[&str], pattern: &str| Sample {
        category: strings(category),
        pattern: pattern.to_string(),
        style: "0".to_string(),
    };
    let items = vec![
        sample(&["b"], "1"),
        sample(&["a"], "2"),
        sample(&["b"], "3"),
        sample(&["a"], "4"),
        sample(&["a", "a"], "5"),
        sample(&["b"], "6"),
    ];
    assert_eq!(vec![1, 3, 4, 0, 2, 5], sorted_positions(&items));
}

#[test]
fn assignments_are_ranked_by_pattern_only() {
    let assignment = |pattern: &str, style: &str| Assignment {
        pattern: pattern.to_string(),
        style: style.to_string(),
    };
    let items = vec![
        assignment("*.tar.gz", "1"),
        assignment("*.gz", "9"),
        assignment("*.c", "5"),
        assignment("*.gz", "0"),
        assignment("*.a", "7"),
    ];
    assert_eq!(vec![4, 2, 1, 3, 0], sorted_positions(&items));
}
