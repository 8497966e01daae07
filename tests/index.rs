use script_gen::almanac::write_index;

#[test]
fn index_page_lists_entries() {
    let entries = vec![("a.txt".to_string(), "First".to_string()), ("b".to_string(), "Second".to_string())];
    let page = write_index(&entries, "body{}");
    let expected = "<!DOCTYPE html><html lang=\"en\"><head><meta charset=\"UTF-8\"><meta name=\"viewport\" content=\"width=device-width, initial-scale=1.0\"><title>Toto's Script Index</title><style>body{}</style></head><body>\
<div class=\"entry\"><a class=\"almanac\" href=\"/a.txt.html\">First</a><a class=\"json\" href=\"/a.txt.official.json\">Json</a></div>\
<div class=\"entry\"><a class=\"almanac\" href=\"/b.html\">Second</a><a class=\"json\" href=\"/b.official.json\">Json</a></div>\
</body>";
    assert_eq!(page, expected);
}

#[test]
fn empty_index_page() {
    let page = write_index(&vec![], "");
    assert!(page.ends_with("<style></style></head><body></body>"));
}
