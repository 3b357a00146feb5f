//! From a record to the name of the file that its download is written to.
//!
//! The name is a function of the record alone: the same record always gets
//! the same name, which is what lets a later run skip what an earlier run
//! has fetched.

use vstd::prelude::*;
use vstd::string::*;
use crate::record::{field_at, record_fields};
use crate::text::{replace_all, replaced, same_text};

verus! {

/// A record that a download can be made from has four fields (time stamp,
/// media kind, location, URL) or five (time stamp, media kind, latitude,
/// longitude, URL).
pub open spec fn well_shaped(fields: Seq<Seq<char>>) -> bool {
    fields.len() == 4 || fields.len() == 5
}

/// The character that stands for `c` in a file name: an underscore for a
/// space, a hyphen for a colon, `c` itself otherwise.
pub open spec fn safe_char(c: char) -> char {
    if c == ' ' {
        '_'
    } else if c == ':' {
        '-'
    } else {
        c
    }
}

/// A time stamp with each space and colon replaced.
pub open spec fn sanitized(timestamp: Seq<char>) -> Seq<char> {
    timestamp.map_values(|c: char| safe_char(c))
}

/// The file extension for a media kind.
pub open spec fn extension_for(kind: Seq<char>) -> Seq<char> {
    if kind == "Image"@ {
        "jpg"@
    } else if kind == "Video"@ {
        "mp4"@
    } else if kind == "PNG"@ {
        "png"@
    } else if kind == "SVG"@ {
        "svg"@
    } else {
        "bin"@
    }
}

/// A combined location field without its prefix, and with an underscore
/// between the two coordinates.
pub open spec fn short_location(location: Seq<char>) -> Seq<char> {
    replaced(replaced(location, "Latitude, Longitude: "@, ""@), ", "@, "_"@)
}

/// The file name for a record with these fields.
pub open spec fn file_name(fields: Seq<Seq<char>>) -> Seq<char>
    recommends
        well_shaped(fields),
{
    if fields.len() == 5 {
        sanitized(fields[0]) + "_"@ + fields[2] + "_"@ + fields[3] + "."@ + extension_for(
            fields[1],
        )
    } else {
        sanitized(fields[0]) + "_"@ + short_location(fields[2]) + "."@ + extension_for(fields[1])
    }
}

/// The URL of a record with these fields: its last field.
pub open spec fn url_of(fields: Seq<Seq<char>>) -> Seq<char>
    recommends
        well_shaped(fields),
{
    fields[fields.len() - 1]
}

/// What is to be fetched for one record, and the name of the file it goes to.
#[derive(Debug, PartialEq, Eq)]
pub struct DownloadJob {
    pub file_name: String,
    pub url: String,
}

/// A sanitized time stamp is as long as the time stamp and holds neither a
/// space nor a colon.
pub proof fn lemma_sanitized_is_safe(timestamp: Seq<char>)
    ensures
        sanitized(timestamp).len() == timestamp.len(),
        forall|i: int|
            0 <= i < timestamp.len() ==> sanitized(timestamp)[i] != ' ' && sanitized(
                timestamp,
            )[i] != ':',
{
}

/// The extensions of the four media kinds that are known, and `bin` for
/// every other kind.
pub proof fn lemma_extensions(kind: Seq<char>)
    ensures
        extension_for("Image"@) == "jpg"@,
        extension_for("Video"@) == "mp4"@,
        extension_for("PNG"@) == "png"@,
        extension_for("SVG"@) == "svg"@,
        kind != "Image"@ && kind != "Video"@ && kind != "PNG"@ && kind != "SVG"@
            ==> extension_for(kind) == "bin"@,
{
    reveal_strlit("Image");
    reveal_strlit("Video");
    reveal_strlit("PNG");
    reveal_strlit("SVG");
    assert("Video"@[0] != "Image"@[0]);
    assert("PNG"@.len() != "Image"@.len());
    assert("SVG"@[0] != "PNG"@[0]);
}

/// The file name depends on the fields alone: records with the same fields
/// get the same name and the same URL.
pub proof fn lemma_same_fields_same_job(first: csv::StringRecord, second: csv::StringRecord)
    requires
        record_fields(first) == record_fields(second),
    ensures
        well_shaped(record_fields(first)) == well_shaped(record_fields(second)),
        file_name(record_fields(first)) == file_name(record_fields(second)),
        url_of(record_fields(first)) == url_of(record_fields(second)),
{
}

/// Replaces each space of a time stamp by an underscore and each colon by a
/// hyphen.
pub fn sanitize_timestamp(timestamp: &str) -> (result: String)
    ensures
        result@ == sanitized(timestamp@),
{
    let mut result = String::new();
    for c in it: timestamp.chars()
        invariant
            result@ == sanitized(it.seq().take(it.index() as int)),
    {
        let ghost before = it.seq().take(it.index() as int);
        let safe = if c == ' ' {
            '_'
        } else if c == ':' {
            '-'
        } else {
            c
        };
        result.push(safe);
        assert(sanitized(before.push(c)) =~= sanitized(before).push(safe_char(c)));
        assert(it.seq().take(it.index() + 1) =~= before.push(c));
    }
    result
}

/// The file extension for a media kind: `jpg` for `Image`, `mp4` for
/// `Video`, `png` for `PNG`, `svg` for `SVG`, and `bin` for anything else.
pub fn extension(kind: &str) -> (ext: &'static str)
    ensures
        ext@ == extension_for(kind@),
{
    if same_text(kind, "Image") {
        "jpg"
    } else if same_text(kind, "Video") {
        "mp4"
    } else if same_text(kind, "PNG") {
        "png"
    } else if same_text(kind, "SVG") {
        "svg"
    } else {
        "bin"
    }
}

/// The download for a record: the file name made of its time stamp, its
/// location and the extension for its media kind, and its URL. A record
/// with fewer than four or more than five fields has none.
pub fn resolve(record: &csv::StringRecord) -> (job: Option<DownloadJob>)
    ensures
        job is Some <==> well_shaped(record_fields(*record)),
        job is Some ==> job.unwrap().file_name@ == file_name(record_fields(*record)),
        job is Some ==> job.unwrap().url@ == url_of(record_fields(*record)),
{
    let row_len = record.len();
    if row_len < 4 || row_len > 5 {
        return None;
    }
    let mut name = sanitize_timestamp(field_at(record, 0));
    let ext = extension(field_at(record, 1));
    name.append("_");
    if row_len == 5 {
        name.append(field_at(record, 2));
        name.append("_");
        name.append(field_at(record, 3));
    } else {
        let without_prefix = replace_all(field_at(record, 2), "Latitude, Longitude: ", "");
        let lat_long = replace_all(without_prefix.as_str(), ", ", "_");
        name.append(lat_long.as_str());
    }
    name.append(".");
    name.append(ext);
    let url = field_at(record, row_len - 1).to_owned();
    Some(DownloadJob { file_name: name, url })
}

} // verus!
