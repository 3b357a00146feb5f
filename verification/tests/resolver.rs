use csv::StringRecord;
use snapdown::resolver::{extension, resolve, sanitize_timestamp};

fn name_of(fields: Vec<&str>) -> String {
    resolve(&StringRecord::from(fields)).unwrap().file_name
}

#[test]
fn sanitize_timestamp_replaces_spaces_and_colons() {
    assert_eq!(sanitize_timestamp("2026-01-13 01:55:38 UTC"), "2026-01-13_01-55-38_UTC");
    assert_eq!(sanitize_timestamp(""), "");
    assert_eq!(sanitize_timestamp(": :"), "-_-");
}

#[test]
fn extension_follows_the_media_kind() {
    assert_eq!(extension("Image"), "jpg");
    assert_eq!(extension("Video"), "mp4");
    assert_eq!(extension("PNG"), "png");
    assert_eq!(extension("SVG"), "svg");
}

#[test]
fn extension_of_an_unknown_kind_is_bin() {
    assert_eq!(extension("Audio"), "bin");
    assert_eq!(extension("image"), "bin");
    assert_eq!(extension(""), "bin");
    assert_eq!(extension("<b>Media Type</b>"), "bin");
}

#[test]
fn four_fields_give_a_name_with_the_combined_location() {
    let job = resolve(&StringRecord::from(vec![
        "2026-01-13 01:55:38 UTC",
        "Image",
        "Latitude, Longitude: 40.25548, -111.645325",
        "https://example.invalid/a",
    ]))
    .unwrap();
    assert_eq!(job.file_name, "2026-01-13_01-55-38_UTC_40.25548_-111.645325.jpg");
    assert_eq!(job.url, "https://example.invalid/a");
}

#[test]
fn five_fields_give_a_name_with_latitude_and_longitude() {
    let job = resolve(&StringRecord::from(vec![
        "2026-01-13 01:55:38 UTC",
        "Video",
        "40.25548",
        "-111.645325",
        "https://example.invalid/b",
    ]))
    .unwrap();
    assert_eq!(job.file_name, "2026-01-13_01-55-38_UTC_40.25548_-111.645325.mp4");
    assert_eq!(job.url, "https://example.invalid/b");
}

#[test]
fn five_fields_keep_latitude_and_longitude_as_they_are() {
    assert_eq!(name_of(vec!["t", "PNG", "a, b", "c: d", "u"]), "t_a, b_c: d.png");
}

#[test]
fn a_location_without_the_prefix_is_kept() {
    assert_eq!(name_of(vec!["t", "SVG", "somewhere", "u"]), "t_somewhere.svg");
    assert_eq!(name_of(vec!["t", "SVG", "", "u"]), "t_.svg");
}

#[test]
fn the_header_row_resolves_like_any_row() {
    let job = resolve(&StringRecord::from(vec![
        "<b>Date</b>",
        "<b>Media Type</b>",
        "<b>Location</b>",
        "<b></b>",
    ]))
    .unwrap();
    assert_eq!(job.file_name, "<b>Date</b>_<b>Location</b>.bin");
    assert_eq!(job.url, "<b></b>");
}

#[test]
fn records_of_the_wrong_shape_have_no_job() {
    assert_eq!(resolve(&StringRecord::new()), None);
    assert_eq!(resolve(&StringRecord::from(vec!["a", "b", "c"])), None);
    assert_eq!(resolve(&StringRecord::from(vec!["a", "b", "c", "d", "e", "f"])), None);
}

#[test]
fn the_same_record_always_gets_the_same_name() {
    let fields = vec![
        "2026-01-13 01:55:38 UTC",
        "Image",
        "Latitude, Longitude: 40.25548, -111.645325",
        "u",
    ];
    let first = resolve(&StringRecord::from(fields.clone()));
    let second = resolve(&StringRecord::from(fields));
    assert_eq!(first, second);
}

#[test]
fn distinct_samples_get_distinct_names() {
    let samples = vec![
        vec!["2026-01-13 01:55:38 UTC", "Image", "Latitude, Longitude: 40.25548, -111.645325", "u"],
        vec!["2026-01-13 01:55:38 UTC", "Video", "Latitude, Longitude: 40.25548, -111.645325", "u"],
        vec!["2026-01-13 01:55:38 UTC", "Audio", "Latitude, Longitude: 40.25548, -111.645325", "u"],
        vec!["2026-01-13 01:55:39 UTC", "Image", "Latitude, Longitude: 40.25548, -111.645325", "u"],
        vec!["2026-01-13 01:55:38 UTC", "Image", "Latitude, Longitude: 40.25549, -111.645325", "u"],
        vec!["2026-01-13 01:55:38 UTC", "Image", "Latitude, Longitude: 40.25548, -111.645326", "u"],
    ];
    let names: Vec<String> = samples.into_iter().map(name_of).collect();
    for i in 0..names.len() {
        for j in 0..i {
            assert_ne!(names[i], names[j]);
        }
    }
    assert!(names[0].ends_with(".jpg"));
    assert!(names[1].ends_with(".mp4"));
    assert!(names[2].ends_with(".bin"));
}
