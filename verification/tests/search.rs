use spc_warnings::search::{find, matches_at};

#[test]
fn find_at_the_beginning() {
    assert_eq!(find(b"<pre>abc", b"<pre>"), Some(0));
}

#[test]
fn find_in_the_middle() {
    assert_eq!(find(b"ab<pre>cd", b"<pre>"), Some(2));
}

#[test]
fn find_at_the_end() {
    assert_eq!(find(b"abcd</pre>", b"</pre>"), Some(4));
}

#[test]
fn find_gives_the_first_of_several() {
    assert_eq!(find(b"x<pre>y<pre>z", b"<pre>"), Some(1));
}

#[test]
fn find_overlapping_occurrences() {
    assert_eq!(find(b"aaaa", b"aa"), Some(0));
    assert_eq!(find(b"abababc", b"ababc"), Some(2));
}

#[test]
fn find_nothing() {
    assert_eq!(find(b"no markers here", b"<pre>"), None);
    assert_eq!(find(b"<pr e><pre", b"<pre>"), None);
}

#[test]
fn find_needle_longer_than_hay() {
    assert_eq!(find(b"<pr", b"<pre>"), None);
    assert_eq!(find(b"", b"<pre>"), None);
}

#[test]
fn find_whole_hay() {
    assert_eq!(find(b"<pre>", b"<pre>"), Some(0));
}

#[test]
fn find_empty_needle() {
    assert_eq!(find(b"abc", b""), Some(0));
    assert_eq!(find(b"", b""), Some(0));
}

#[test]
fn find_agrees_with_str_find() {
    let hays = ["", "<", "<pre>", "a<pre>", "</pre><pre>", "<<pre>>", "<p<pr<pre<pre>", "é<pre>é</pre>"];
    let needles = ["<pre>", "</pre>", "<", "é", ""];
    for hay in hays {
        for needle in needles {
            assert_eq!(find(hay.as_bytes(), needle.as_bytes()), hay.find(needle));
        }
    }
}

#[test]
fn matches_at_each_offset() {
    let hay = b"a<pre>b";
    assert!(!matches_at(hay, b"<pre>", 0));
    assert!(matches_at(hay, b"<pre>", 1));
    assert!(!matches_at(hay, b"<pre>", 2));
    assert!(matches_at(hay, b"", 7));
    assert!(matches_at(hay, b"b", 6));
}
