use mini_regex::parse::regex;

#[test]
fn t() {
    let regi = regex("a").unwrap();
    assert_eq!(regi.exact("a"), Some(""));
}

#[test]
fn t1() {
    let regi = regex("\\d").unwrap();
    assert_eq!(regi.exact("2a"), Some("a"));
}

#[test]
fn t2() {
    let regi = regex("\\t").unwrap();
    assert_eq!(regi.exact(" a"), Some("a"));
}

#[test]
fn t3() {
    let regi = regex("\\w").unwrap();
    assert_eq!(regi.exact("b a"), Some(" a"));
}

#[test]
fn t4() {
    let regi = regex("ab").unwrap();
    assert!(regi.exact("abcde").is_some());
}

#[test]
fn t5() {
    let regi = regex(r"[abcd]").unwrap();
    assert!(regi.exact("a").is_some());
}

#[test]
fn t6() {
    let regi = regex(r"(abcd|\w+1)+").unwrap();
    println!("{regi:?}");
    assert_eq!(regi.exact("abcdabcdwwwwwww1"), Some(""));
}
