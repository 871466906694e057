use spc_warnings::extract::{extract_content, CLOSE_MARKER, OPEN_MARKER, PLACEHOLDER};

#[test]
fn constants_of_extraction() {
    assert_eq!(OPEN_MARKER, "<pre>");
    assert_eq!(CLOSE_MARKER, "</pre>");
    assert_eq!(PLACEHOLDER, "(failed to parse description)");
    assert_eq!(PLACEHOLDER.len(), 29);
}

#[test]
fn block_is_cut_out_with_its_opening_marker() {
    assert_eq!(extract_content("a<pre>b</pre>"), "<pre>b");
    assert_eq!(
        extract_content("<p>Tornado Watch</p><pre>WW 123 TORNADO</pre><br/>"),
        "<pre>WW 123 TORNADO"
    );
}

#[test]
fn inner_tags_are_kept() {
    assert_eq!(
        extract_content("x<pre>a <b>bold</b> &amp; <i>it</i>\nline</pre>y"),
        "<pre>a <b>bold</b> &amp; <i>it</i>\nline"
    );
}

#[test]
fn empty_block() {
    assert_eq!(extract_content("x<pre></pre>"), "<pre>");
}

#[test]
fn first_markers_bound_the_block() {
    assert_eq!(extract_content("x<pre>a</pre>b<pre>c</pre>"), "<pre>a");
    assert_eq!(extract_content("x<pre>a<pre>b</pre>c</pre>"), "<pre>a<pre>b");
}

#[test]
fn no_markers_gives_the_placeholder() {
    assert_eq!(extract_content("nothing to see"), PLACEHOLDER);
    assert_eq!(extract_content(""), PLACEHOLDER);
    // A text without markers as long as the placeholder, and a longer one.
    assert_eq!(extract_content("12345678901234567890123456789"), PLACEHOLDER);
    assert_eq!(extract_content("1234567890123456789012345678901234567890"), PLACEHOLDER);
}

#[test]
fn closing_marker_alone_at_the_beginning_gives_the_placeholder() {
    assert_eq!(extract_content("</pre>"), PLACEHOLDER);
    assert_eq!(extract_content("</pre>and more text"), PLACEHOLDER);
}

#[test]
fn closing_marker_alone_anywhere_gives_the_placeholder() {
    assert_eq!(extract_content("text</pre>"), PLACEHOLDER);
    assert_eq!(extract_content("12345678901234567890123456789</pre>"), PLACEHOLDER);
}

#[test]
fn opening_marker_at_the_beginning_gives_the_placeholder() {
    assert_eq!(extract_content("<pre>body</pre>"), PLACEHOLDER);
    assert_eq!(extract_content("<pre>body</pre>x<pre>again</pre>"), PLACEHOLDER);
}

#[test]
fn opening_marker_alone_gives_the_placeholder() {
    assert_eq!(extract_content("x<pre>body"), PLACEHOLDER);
    // Longer than the placeholder, so that offset 29 lies inside the text.
    assert_eq!(extract_content("x<pre>body that goes on and on and on and on"), PLACEHOLDER);
}

#[test]
fn closing_marker_before_opening_marker_gives_the_placeholder() {
    assert_eq!(extract_content("a</pre>b<pre>c"), PLACEHOLDER);
    assert_eq!(extract_content("a</pre>b<pre>c</pre>"), PLACEHOLDER);
}

#[test]
fn closing_marker_at_the_default_offset_gives_the_placeholder() {
    // 1 + 5 + 23 = 29 bytes stand before the closing marker.
    let description = "x<pre>12345678901234567890123</pre>";
    assert_eq!(description.find("</pre>"), Some(29));
    assert_eq!(extract_content(description), PLACEHOLDER);
}

#[test]
fn closing_marker_next_to_the_default_offset() {
    let shorter = "x<pre>1234567890123456789012</pre>";
    assert_eq!(shorter.find("</pre>"), Some(28));
    assert_eq!(extract_content(shorter), "<pre>1234567890123456789012");
    let longer = "x<pre>123456789012345678901234</pre>";
    assert_eq!(longer.find("</pre>"), Some(30));
    assert_eq!(extract_content(longer), "<pre>123456789012345678901234");
}

#[test]
fn offsets_count_bytes_not_characters() {
    // 28 characters before the closing marker, which take 29 bytes.
    let at_default = "é<pre>1234567890123456789012</pre>";
    assert_eq!(at_default.find("</pre>"), Some(29));
    assert_eq!(at_default[..29].chars().count(), 28);
    assert_eq!(extract_content(at_default), PLACEHOLDER);
    // 29 characters before the closing marker, which take 30 bytes.
    let past_default = "é<pre>12345678901234567890123</pre>";
    assert_eq!(past_default.find("</pre>"), Some(30));
    assert_eq!(past_default[..30].chars().count(), 29);
    assert_eq!(extract_content(past_default), "<pre>12345678901234567890123");
}

#[test]
fn text_of_several_bytes_a_character_is_kept() {
    assert_eq!(
        extract_content("Météo — “alerte”<pre>vent à 90 km/h ⚠ 🌪 fin</pre>…"),
        "<pre>vent à 90 km/h ⚠ 🌪 fin"
    );
}

#[test]
fn content_agrees_with_slicing_between_the_offsets() {
    let descriptions = [
        "a<pre>b</pre>",
        "</pre>",
        "<pre></pre>",
        "x</pre><pre>",
        "plain",
        "é<pre>é</pre>é",
        "x<pre>12345678901234567890123</pre>",
        "<<pre><</pre>>",
    ];
    for description in descriptions {
        let start = description.find("<pre>").unwrap_or(0);
        let finish = description.find("</pre>").unwrap_or(PLACEHOLDER.len());
        let expected = if start != 0 && finish != PLACEHOLDER.len() && start <= finish {
            &description[start..finish]
        } else {
            PLACEHOLDER
        };
        assert_eq!(extract_content(description), expected);
    }
}
