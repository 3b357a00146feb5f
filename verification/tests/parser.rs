use snapdown::parser::{
    parse_memories_history_html, parse_stream, SdParseState, TableParser, BUFFER_SIZE,
};

const URL_0: &str = "https://us-east1-aws.api.snapchat.com/dmd/mm?uid=bogus-1&sid=bogus-2&mid=bogus-3&ts=1768335041137&sig=bogus-4";

fn snippet() -> String {
    let mut html = String::new();
    html.push_str("<!DOCTYPE html>\n<html>\n<body>\n<h1>Memories</h1>\n");
    html.push_str("<table><tbody>\n");
    html.push_str("<tr><th><b>Date</b></th><th><b>Media Type</b></th>");
    html.push_str("<th><b>Location</b></th><th><b></b></th></tr>\n");
    html.push_str("<tr><td>2026-01-13 01:55:38 UTC</td><td>Image</td>");
    html.push_str("<td>Latitude, Longitude: 40.25548, -111.645325</td>");
    html.push_str("<td><a href=\"#\" onclick=\"downloadMemories('");
    html.push_str(URL_0);
    html.push_str("', this, true); return false;\">Download</a></td></tr>\n");
    html.push_str("<tr><td>2026-01-12 23:10:02 UTC</td><td>Video</td>");
    html.push_str("<td>Latitude, Longitude: 0.0, 0.0</td>");
    html.push_str("<td><a href=\"#\" onclick=\"downloadMemories('https://example.invalid/b', this, true); return false;\">Download</a></td></tr>\n");
    html.push_str("<tr><td> 2026-01-11 08:00:00 UTC </td><td>\n  Image\n</td>");
    html.push_str("<td>Latitude, Longitude: -33.5, 151.25</td>");
    html.push_str("<td><a href=\"#\" onclick=\"downloadMemories('https://example.invalid/c', this, true); return false;\">Download</a></td></tr>\n");
    html.push_str("</tbody></table>\n</body>\n</html>\n");
    html
}

#[test]
fn test_parse_html_snippet() {
    let html = snippet();
    let records = parse_memories_history_html(html.as_bytes());

    // Assert the header record
    assert_eq!(records[0].len(), 4, "Expected 4 fields in header row");
    assert_eq!(
        records[0].get(0).unwrap(),
        "<b>Date</b>",
        "Expected header row field 0 to be (right)"
    );
    assert_eq!(
        records[0].get(1).unwrap(),
        "<b>Media Type</b>",
        "Expected header row field 1 to be (right)"
    );
    assert_eq!(
        records[0].get(2).unwrap(),
        "<b>Location</b>",
        "Expected header row field 2 to be (right)"
    );
    assert_eq!(
        records[0].get(3).unwrap(),
        "<b></b>",
        "Expected header row field 3 to be (right)"
    );

    println!("Header Row 0: {:?}", records[0]);
    println!("Row 0: {:?}", records[1]);

    // Assert the first record of data
    assert_eq!(records[1].len(), 4, "Expected 4 fields in record 0");
    assert_eq!(
        records[1].get(0).unwrap(),
        "2026-01-13 01:55:38 UTC",
        "Expected record 0 field 0 to be (right)"
    );
    assert_eq!(
        records[1].get(1).unwrap(),
        "Image",
        "Expected record 0 field 1 to be (right)"
    );
    assert_eq!(
        records[1].get(2).unwrap(),
        "Latitude, Longitude: 40.25548, -111.645325",
        "Expected record 0 field 2 to be (right)"
    );
    assert_eq!(
        records[1].get(3).unwrap(),
        URL_0,
        "Expected record 0 field 3 to be (right)"
    );

    assert_eq!(records.len(), 4, "Expected (right) total records");
}

#[test]
fn header_and_one_row_give_two_records() {
    let html = "<table><tbody><tr><th><b>Date</b></th><th><b>Media Type</b></th>\
<th><b>Location</b></th><th><b></b></th></tr>\
<tr><td>2026-01-13 01:55:38 UTC</td><td>Image</td>\
<td>Latitude, Longitude: 40.25548, -111.645325</td>\
<td><a onclick=\"downloadMemories('<url>', this, true);\">Download</a></td></tr></tbody></table>";
    let records = parse_memories_history_html(html.as_bytes());
    assert_eq!(records.len(), 2);
    assert_eq!(
        records[0],
        vec!["<b>Date</b>", "<b>Media Type</b>", "<b>Location</b>", "<b></b>"]
    );
    assert_eq!(
        records[1],
        vec![
            "2026-01-13 01:55:38 UTC",
            "Image",
            "Latitude, Longitude: 40.25548, -111.645325",
            "<url>"
        ]
    );
}

#[test]
fn cells_are_trimmed() {
    let records = parse_memories_history_html(snippet().as_bytes());
    assert_eq!(records[3].get(0).unwrap(), "2026-01-11 08:00:00 UTC");
    assert_eq!(records[3].get(1).unwrap(), "Image");
}

#[test]
fn empty_input_gives_no_records() {
    assert_eq!(parse_memories_history_html(b"").len(), 0);
}

#[test]
fn input_without_a_table_gives_no_records() {
    assert_eq!(parse_memories_history_html(b"<html><body>nothing</body></html>").len(), 0);
}

#[test]
fn truncated_document_gives_the_rows_that_were_finished() {
    let html = snippet();
    let cut = html.find("2026-01-12").unwrap() + 30;
    let records = parse_memories_history_html(&html.as_bytes()[..cut]);
    assert_eq!(records.len(), 2);
    assert_eq!(records[1].get(1).unwrap(), "Image");
}

#[test]
fn invalid_utf8_in_a_cell_is_replaced() {
    let mut html: Vec<u8> = Vec::new();
    html.extend_from_slice(b"<table><tbody><tr><th>a</th><th>b</th><th>c</th><th>d");
    html.push(0xff);
    html.extend_from_slice(b"e</th></tr>");
    let records = parse_memories_history_html(&html);
    assert_eq!(records.len(), 1);
    assert_eq!(records[0].get(3).unwrap(), "d\u{fffd}e");
}

#[test]
fn small_buffers_find_tags_across_chunk_ends() {
    let html = snippet();
    let whole = parse_stream(html.as_bytes(), html.len() + 1);
    assert_eq!(whole.len(), 4);
    for capacity in 120..200 {
        let records = parse_stream(html.as_bytes(), capacity);
        assert_eq!(records.len(), 4, "capacity {}", capacity);
        assert_eq!(records[1].get(3).unwrap(), URL_0, "capacity {}", capacity);
        assert_eq!(records[2].get(1).unwrap(), "Video", "capacity {}", capacity);
    }
}

#[test]
fn a_cell_longer_than_the_buffer_keeps_its_tail() {
    let html = "<table><tbody><tr><th>0123456789012345678901234567890123456789</th>\
<th>b</th><th>c</th><th>d</th></tr>";
    let records = parse_stream(html.as_bytes(), 24);
    assert_eq!(records.len(), 1);
    // The first window ends inside the cell; all but the last four bytes of
    // it are done with before the closing tag comes into view.
    let field = records[0].get(0).unwrap();
    assert!("0123456789012345678901234567890123456789".ends_with(field));
    assert!(field.len() < 40);
    assert_eq!(records[0].get(1).unwrap(), "b");
}

#[test]
fn a_document_larger_than_the_buffer_is_read_in_chunks() {
    let mut html = String::new();
    html.push_str("<table><tbody><tr><th>Date</th><th>Media Type</th><th>Location</th><th></th></tr>");
    let rows = 400;
    for i in 0..rows {
        html.push_str(&format!(
            "<tr><td>2026-01-13 01:55:{:02} UTC</td><td>Image</td><td>Latitude, Longitude: {}.5, -1.25</td>\
<td><a onclick=\"downloadMemories('https://example.invalid/item/{}', this, true);\">Download</a></td></tr>\n",
            i % 60,
            i,
            i
        ));
    }
    assert!(html.len() > 3 * BUFFER_SIZE);
    let records = parse_memories_history_html(html.as_bytes());
    assert_eq!(records.len(), rows + 1);
    for (i, record) in records.iter().skip(1).enumerate() {
        assert_eq!(record.len(), 4);
        assert_eq!(record.get(3).unwrap(), format!("https://example.invalid/item/{}", i));
    }
}

#[test]
fn feeding_by_hand_moves_through_the_states() {
    let mut parser = TableParser::new();
    assert_eq!(parser.state(), SdParseState::SearchingForTable);
    let consumed = parser.feed(b"xx<table>yy", true);
    assert_eq!(consumed, 9);
    assert_eq!(parser.state(), SdParseState::SearchingForTbody);
    // Shorter than the tag and not the last: all of it has to come again.
    let consumed = parser.feed(b"yy", false);
    assert_eq!(consumed, 0);
    assert_eq!(parser.state(), SdParseState::SearchingForTbody);
    let consumed = parser.feed(b"0123456789<tbo", false);
    assert_eq!(consumed, 8);
    let consumed = parser.feed(b"89<tbody><tr><th", false);
    assert_eq!(consumed, 9);
    assert_eq!(parser.state(), SdParseState::SearchingForTr);
    assert_eq!(parser.records().len(), 0);
}
