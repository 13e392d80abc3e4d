use yammer_tools::args::parse_excludes;

fn sorted(s: &str) -> Vec<u64> {
    let mut v: Vec<u64> = parse_excludes(s).ok().unwrap().into_iter().collect();
    v.sort();
    v
}

#[test]
fn excludes_split_trim_and_skip_blanks() {
    assert_eq!(sorted("12, 34,,56"), vec![12, 34, 56]);
    assert_eq!(sorted(" 7 ,\t8\n"), vec![7, 8]);
    assert_eq!(sorted("+5,5"), vec![5]);
    assert_eq!(sorted("\u{3000}9\u{a0}"), vec![9]);
}

#[test]
fn empty_excludes() {
    assert!(sorted("").is_empty());
    assert!(sorted(" , ,").is_empty());
}

#[test]
fn largest_id_and_overflow() {
    assert_eq!(sorted("18446744073709551615"), vec![u64::MAX]);
    assert!(parse_excludes("18446744073709551616").is_err());
}

#[test]
fn bad_excludes_are_rejected() {
    let e = parse_excludes("1,x2").err().unwrap();
    assert_eq!(e.0, "1,x2");
    assert!(parse_excludes("-3").is_err());
    assert!(parse_excludes("+").is_err());
    assert!(parse_excludes("1 2").is_err());
}
