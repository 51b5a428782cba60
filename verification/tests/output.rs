use musicum::table::DetailItem::{Field, Section};
use musicum::table::{boxed, detail_listing, result_listing, section_header};
use musicum::text::lines_of;

#[test]
fn lines_follow_std() {
    for text in ["", "a", "a\n", "a\n\nb", "foo\r\nbar\n\nbaz\r", "\n", "x\r\n"] {
        let ours = lines_of(text);
        let std: Vec<String> = text.lines().map(|l| l.to_string()).collect();
        assert_eq!(ours, std, "{text:?}");
    }
}

#[test]
fn box_around_short_and_long_lines() {
    let out = boxed("{\n  \"a\": 1\n}", 12);
    let expected = "┌──────────┐\n\
                    │ {        │\n\
                    │   \"a\": 1 │\n\
                    │ }        │\n\
                    └──────────┘\n";
    assert_eq!(out, expected);
    let out = boxed("abcdefghij", 8);
    assert_eq!(out, "┌──────┐\n│ abc… │\n└──────┘\n");
}

#[test]
fn box_on_tiny_terminal() {
    assert_eq!(boxed("ab", 2), "┌┐\n│ … │\n└┘\n");
}

#[test]
fn section_headers_fill_the_line() {
    assert_eq!(section_header("file", 12), "\n── file ────\n");
    assert_eq!(section_header("a very long title", 5), "\n── a very long title \n");
}

#[test]
fn detail_keys_are_right_aligned() {
    let items = vec![Field("slug", "my-clip".into()), Section("file"), Field("id", "7".into())];
    let out = detail_listing(&items, 10);
    assert_eq!(out, "slug: my-clip\n\n── file ──\n  id: 7\n");
}

#[test]
fn results_list_details_only_when_present() {
    assert_eq!(result_listing("Removed preset 'x'", &[], 40), "Removed preset 'x'\n");
    let items = vec![Field("preset", "warm".into())];
    assert_eq!(result_listing("Set parameter", &items, 40), "Set parameter\npreset: warm\n");
}
