//! Extraction of a video's audio by the download tool: the page address, the
//! unique temporary file name, the tool's arguments, and how the written file
//! is recognised afterwards.
//!
//! Running the tool and listing the directory are done by the caller.
use crate::search::texts;
use crate::text::{file_stem, file_stem_spec, join_path, join_spec};
use vstd::prelude::*;

verus! {

/// Whether `c` is a lower-case hexadecimal digit.
pub open spec fn lower_hex(c: char) -> bool {
    ('0' <= c <= '9') || ('a' <= c <= 'f')
}

/// Whether `s` is a random (version 4) UUID written in lower-case hexadecimal
/// with hyphens, such as `67e55044-10b1-426f-9247-bb680e5fe0c8`.
pub open spec fn is_uuid_v4_text(s: Seq<char>) -> bool {
    &&& s.len() == 36
    &&& forall|i: int|
        0 <= i < 36 ==> if i == 8 || i == 13 || i == 18 || i == 23 {
            #[trigger] s[i] == '-'
        } else {
            lower_hex(s[i])
        }
    &&& s[14] == '4'
    &&& s[19] == '8' || s[19] == '9' || s[19] == 'a' || s[19] == 'b'
}

/// A fresh random UUID as text, from `uuid::Uuid::new_v4` and its `Display`
/// (`to_string`).
///
/// Trusted, not proved. The contract states the form of the text that the crate's source gives
/// (lower-case hyphenated, version nibble 4, variant bits `10`); which UUID
/// comes out is chance, and nothing is said of it.
#[verifier::external_body]
fn new_uuid_text() -> (s: String)
    ensures
        is_uuid_v4_text(s@),
{
    uuid::Uuid::new_v4().to_string()
}

/// The address of a video's page.
pub fn watch_url(video_id: &str) -> (r: String)
    ensures
        r@ == "https://www.youtube.com/watch?v="@ + video_id@,
{
    let mut r = String::from_str("https://www.youtube.com/watch?v=");
    r.append(video_id);
    r
}

/// The file name stem for a download whose random id is `uuid`: `automix_`
/// and the id.
pub fn stem_for(uuid: &str) -> (r: String)
    ensures
        r@ == "automix_"@ + uuid@,
{
    let mut r = String::from_str("automix_");
    r.append(uuid);
    r
}

/// A file name stem that no other extraction uses: `automix_` and a fresh
/// random UUID.
pub fn temp_file_stem() -> (r: String)
    ensures
        r@.len() == 44,
        r@.take(8) == "automix_"@,
        is_uuid_v4_text(r@.skip(8)),
{
    let id = new_uuid_text();
    let r = stem_for(id.as_str());
    proof {
        reveal_strlit("automix_");
        assert(r@.take(8) =~= "automix_"@);
        assert(r@.skip(8) =~= id@);
    }
    r
}

/// The output template handed to the tool: `<temp_dir>/<stem>.%(ext)s`; the
/// tool puts the real extension in place of `%(ext)s`.
pub fn output_template(temp_dir: &str, stem: &str) -> (r: String)
    ensures
        r@ == join_spec(temp_dir@, stem@ + ".%(ext)s"@),
{
    let mut name = String::from_str(stem);
    name.append(".%(ext)s");
    join_path(temp_dir, name.as_str())
}

/// The arguments of the download tool: best audio, preferring an m4a stream,
/// written to `output_template`, without playlists and warnings.
pub fn extract_args(output_template: &str, url: &str) -> (r: Vec<String>)
    ensures
        texts(r@) == seq![
            "-f"@,
            "bestaudio[ext=m4a]/bestaudio"@,
            "-o"@,
            output_template@,
            "--no-playlist"@,
            "--no-warnings"@,
            url@,
        ],
{
    let mut r: Vec<String> = Vec::new();
    r.push(String::from_str("-f"));
    r.push(String::from_str("bestaudio[ext=m4a]/bestaudio"));
    r.push(String::from_str("-o"));
    r.push(String::from_str(output_template));
    r.push(String::from_str("--no-playlist"));
    r.push(String::from_str("--no-warnings"));
    r.push(String::from_str(url));
    assert(texts(r@) =~= seq![
        "-f"@,
        "bestaudio[ext=m4a]/bestaudio"@,
        "-o"@,
        output_template@,
        "--no-playlist"@,
        "--no-warnings"@,
        url@,
    ]);
    r
}

/// Whether a file in the temporary directory is the one the tool wrote for
/// `stem`: its file stem is `stem`.
pub fn is_output_file(file_name: &str, stem: &str) -> (r: bool)
    ensures
        r == (file_stem_spec(file_name@) == Some(stem@)),
{
    match file_stem(file_name) {
        Some(s) => {
            let want = String::from_str(stem);
            s == want
        },
        None => false,
    }
}

} // verus!
