use blogpub::select::{is_post_file, select_latest};

fn names(v: &[&str]) -> Vec<String> {
    v.iter().map(|s| s.to_string()).collect()
}

#[test]
fn post_file_names_need_four_digits_and_md() {
    assert!(is_post_file("0001_first.md"));
    assert!(is_post_file("1234.md"));
    assert!(is_post_file("12345_long.md"));
    assert!(!is_post_file("123_short.md"));
    assert!(!is_post_file("0001_first.txt"));
    assert!(!is_post_file("0001_first.md~"));
    assert!(!is_post_file("0001_a\nb.md"));
    assert!(!is_post_file("abcd_x.md"));
}

#[test]
fn fewer_than_recent_returns_all_sorted() {
    let r = select_latest(&names(&["0002_b.md", "notes.txt", "0001_a.md"]), 10);
    assert_eq!(r, names(&["0001_a.md", "0002_b.md"]));
}

#[test]
fn more_than_recent_returns_the_largest() {
    let r = select_latest(&names(&["0003_c.md", "0001_a.md", "0004_d.md", "0002_b.md"]), 2);
    assert_eq!(r, names(&["0003_c.md", "0004_d.md"]));
}

#[test]
fn exactly_recent_returns_all() {
    let r = select_latest(&names(&["0002_b.md", "0001_a.md"]), 2);
    assert_eq!(r, names(&["0001_a.md", "0002_b.md"]));
}

#[test]
fn recent_zero_returns_nothing() {
    assert!(select_latest(&names(&["0002_b.md", "0001_a.md"]), 0).is_empty());
    assert!(select_latest(&Vec::new(), 3).is_empty());
}

#[test]
fn order_is_lexical_not_numeric() {
    let r = select_latest(&names(&["10000_z.md", "9999_y.md", "0999_x.md"]), 3);
    assert_eq!(r, names(&["0999_x.md", "10000_z.md", "9999_y.md"]));
}
