//! Search: the argument handed to the search tool, the lines of its output
//! that make up a page, and the fields read from each JSON result and from
//! the suggestion service's JSON answer.
//!
//! Search results come as JSON text, one value a line; they are parsed by
//! `serde_json` into [`JsonValue`].
use crate::decimal::{append_decimal, decimal_chars};
use crate::text::{is_blank, lines, lines_spec, trim, trim_spec, all_white};
use vstd::prelude::*;

verus! {

/// Results on one page of a search.
pub const PAGE_SIZE: usize = 10;

/// Suggestions kept from the suggestion service.
pub const MAX_SUGGESTIONS: usize = 8;

/// A JSON value. Numbers keep their text; objects keep their entries in order.
pub enum JsonValue {
    Null,
    Bool(bool),
    Number(String),
    Str(String),
    Array(Vec<JsonValue>),
    Object(Vec<(String, JsonValue)>),
}

/// The fields of one search result. `duration` keeps the text of the JSON
/// number under `duration`, where there is one.
pub struct SearchEntry {
    pub id: String,
    pub title: String,
    pub channel: String,
    pub duration: Option<String>,
    pub thumbnail_url: String,
}

#[verifier::external_type_specification]
#[verifier::external_body]
pub struct ExJsonTree(serde_json::Value);

/// What `serde_json::from_str::<serde_json::Value>` makes of `text`, in the
/// library's form: `None` where the text is not one JSON value.
pub uninterp spec fn json_parse(text: Seq<char>) -> Option<JsonValue>;

/// A `serde_json::Value` in the library's form, variant by variant: numbers
/// by their text (`Number`'s `Display`), objects by their entries in the
/// order the map walks them.
///
/// Trusted, not proved; nothing is stated of it: it only serves
/// [`parse_json`], whose contract covers the conversion.
#[verifier::external_body]
fn json_value_from(v: serde_json::Value) -> JsonValue {
    match v {
        serde_json::Value::Null => JsonValue::Null,
        serde_json::Value::Bool(b) => JsonValue::Bool(b),
        serde_json::Value::Number(n) => JsonValue::Number(n.to_string()),
        serde_json::Value::String(s) => JsonValue::Str(s),
        serde_json::Value::Array(xs) => JsonValue::Array(xs.into_iter().map(json_value_from).collect()),
        serde_json::Value::Object(m) => JsonValue::Object(
            m.into_iter().map(|(k, x)| (k, json_value_from(x))).collect(),
        ),
    }
}

/// Parses one JSON value with `serde_json::from_str::<serde_json::Value>`.
///
/// Trusted, not proved. The contract claims only that the outcome is a
/// function of the text alone, named [`json_parse`]: `serde_json` parses
/// deterministically, and its default map keeps keys in sorted order. What
/// the grammar accepts is left to `serde_json`.
#[verifier::external_body]
pub fn parse_json(text: &str) -> (r: Option<JsonValue>)
    ensures
        r == json_parse(text@),
{
    serde_json::from_str::<serde_json::Value>(text).ok().map(json_value_from)
}

/// Element `i` of an array, as `Value::get(i)` gives it.
pub open spec fn json_at(v: JsonValue, i: int) -> Option<JsonValue> {
    match v {
        JsonValue::Array(xs) => if 0 <= i < xs@.len() {
            Some(xs@[i])
        } else {
            None
        },
        _ => None,
    }
}

/// The value under the first entry named `key` among `entries`, or `Null`.
pub open spec fn entry_value(entries: Seq<(String, JsonValue)>, key: Seq<char>) -> JsonValue
    decreases entries.len(),
{
    if entries.len() == 0 {
        JsonValue::Null
    } else if entries[0].0@ == key {
        entries[0].1
    } else {
        entry_value(entries.drop_first(), key)
    }
}

/// The value under `key` of an object, `Null` where there is none or `v` is
/// not an object, as `value[key]` gives it.
pub open spec fn json_field(v: JsonValue, key: Seq<char>) -> JsonValue {
    match v {
        JsonValue::Object(entries) => entry_value(entries@, key),
        _ => JsonValue::Null,
    }
}

/// The text of a JSON number.
pub open spec fn json_number(v: JsonValue) -> Option<Seq<char>> {
    match v {
        JsonValue::Number(t) => Some(t@),
        _ => None,
    }
}

/// The text of a JSON string, as `Value::as_str` gives it.
pub open spec fn json_text(v: JsonValue) -> Option<Seq<char>> {
    match v {
        JsonValue::Str(s) => Some(s@),
        _ => None,
    }
}

/// The texts of the strings among `xs`, in order.
pub open spec fn string_items(xs: Seq<JsonValue>) -> Seq<Seq<char>>
    decreases xs.len(),
{
    if xs.len() == 0 {
        Seq::empty()
    } else {
        match json_text(xs.last()) {
            Some(s) => string_items(xs.drop_last()).push(s),
            None => string_items(xs.drop_last()),
        }
    }
}

/// At most the first `n` elements of `s`.
pub open spec fn first_n<A>(s: Seq<A>, n: nat) -> Seq<A> {
    if s.len() <= n {
        s
    } else {
        s.take(n as int)
    }
}

/// The suggestions in an answer of the suggestion service: the first eight
/// strings of the array at index 1, or none where there is no such array.
pub open spec fn suggestions_spec(v: JsonValue) -> Seq<Seq<char>> {
    match json_at(v, 1) {
        Some(JsonValue::Array(xs)) => first_n(string_items(xs@), MAX_SUGGESTIONS as nat),
        _ => Seq::empty(),
    }
}

/// The texts of a list of strings.
pub open spec fn texts(v: Seq<String>) -> Seq<Seq<char>> {
    v.map_values(|s: String| s@)
}

/// The query sent to the suggestion service: `None` where it is blank, else trimmed.
pub fn suggestion_query(query: &str) -> (r: Option<String>)
    ensures
        all_white(query@) ==> r is None,
        !all_white(query@) ==> (r matches Some(q) && q@ == trim_spec(query@)),
{
    if is_blank(query) {
        None
    } else {
        Some(trim(query))
    }
}

/// The suggestions in an answer of the suggestion service.
pub fn suggestions_from_response(v: &JsonValue) -> (r: Vec<String>)
    ensures
        texts(r@) == suggestions_spec(*v),
{
    let mut out: Vec<String> = Vec::new();
    let items = match v {
        JsonValue::Array(top) => {
            if top.len() > 1 {
                match &top[1] {
                    JsonValue::Array(xs) => xs,
                    _ => {
                        return out;
                    },
                }
            } else {
                return out;
            }
        },
        _ => {
            return out;
        },
    };
    let n = items.len();
    let mut i: usize = 0;
    while i < n && out.len() < MAX_SUGGESTIONS
        invariant
            i <= n,
            n == items@.len(),
            texts(out@) == string_items(items@.take(i as int)),
            out@.len() <= MAX_SUGGESTIONS,
        decreases n - i,
    {
        let ghost before = texts(out@);
        assert(items@.take(i + 1).drop_last() =~= items@.take(i as int));
        match &items[i] {
            JsonValue::Str(s) => {
                out.push(s.clone());
                assert(texts(out@) =~= before.push(s@));
            },
            _ => {},
        }
        i = i + 1;
    }
    proof {
        if out@.len() < MAX_SUGGESTIONS {
            assert(items@.take(n as int) =~= items@);
        } else {
            lemma_string_items_prefix(items@, i as int);
        }
    }
    out
}

/// The strings among a prefix of `xs` are a prefix of the strings among `xs`.
proof fn lemma_string_items_prefix(xs: Seq<JsonValue>, k: int)
    requires
        0 <= k <= xs.len(),
    ensures
        string_items(xs.take(k)).len() <= string_items(xs).len(),
        string_items(xs.take(k)) == string_items(xs).take(string_items(xs.take(k)).len() as int),
    decreases xs.len() - k,
{
    if k < xs.len() {
        lemma_string_items_prefix(xs.drop_last(), k);
        assert(xs.drop_last().take(k) =~= xs.take(k));
        let a = string_items(xs.take(k));
        let b = string_items(xs.drop_last());
        assert(b.take(a.len() as int) == a);
        match json_text(xs.last()) {
            Some(s) => {
                assert(b.push(s).take(a.len() as int) =~= b.take(a.len() as int));
            },
            None => {},
        }
    } else {
        assert(xs.take(k) =~= xs);
        assert(string_items(xs).take(string_items(xs).len() as int) =~= string_items(xs));
    }
}

/// The argument that asks the search tool for the results up to the end of
/// the page at `offset`: `ytsearch<offset + 10>:<query>`.
pub fn search_arg(query: &str, offset: usize) -> (r: String)
    ensures
        r@ == "ytsearch"@ + decimal_chars(
            if offset + PAGE_SIZE <= usize::MAX {
                (offset + PAGE_SIZE) as nat
            } else {
                usize::MAX as nat
            },
        ) + ":"@ + query@,
{
    let requested = offset.saturating_add(PAGE_SIZE);
    let mut r = String::new();
    r.append("ytsearch");
    append_decimal(&mut r, requested as u64);
    r.append(":");
    r.append(query);
    r
}

/// The lines of the page at `offset`: lines `offset` to `offset + 9` of the
/// search tool's output.
pub open spec fn page_lines_spec(out: Seq<char>, offset: nat) -> Seq<Seq<char>> {
    let ls = lines_spec(out);
    if offset >= ls.len() {
        Seq::empty()
    } else {
        first_n(ls.skip(offset as int), PAGE_SIZE as nat)
    }
}

/// A page is the run of lines that starts at line `offset` of the output:
/// page line `i` is output line `offset + i`, and the page holds ten lines, or
/// the lines left after `offset` where fewer are, or none past the end.
pub proof fn lemma_page_lines(out: Seq<char>, offset: nat)
    ensures
        page_lines_spec(out, offset).len() == if offset >= lines_spec(out).len() {
            0
        } else if lines_spec(out).len() - offset <= PAGE_SIZE {
            (lines_spec(out).len() - offset) as nat
        } else {
            PAGE_SIZE as nat
        },
        forall|i: int|
            0 <= i < page_lines_spec(out, offset).len() ==> #[trigger] page_lines_spec(out, offset)[i]
                == lines_spec(out)[offset + i],
{
}

/// The lines of the page at `offset` in the search tool's output.
pub fn page_lines(out: &str, offset: usize) -> (r: Vec<String>)
    ensures
        texts(r@) == page_lines_spec(out@, offset as nat),
        r@.len() == if offset >= lines_spec(out@).len() {
            0
        } else if lines_spec(out@).len() - offset <= PAGE_SIZE {
            (lines_spec(out@).len() - offset) as nat
        } else {
            PAGE_SIZE as nat
        },
        forall|i: int| 0 <= i < r@.len() ==> (#[trigger] r@[i])@ == lines_spec(out@)[offset + i],
{
    proof {
        lemma_page_lines(out@, offset as nat);
    }
    let all = lines(out);
    let n = all.len();
    let mut r: Vec<String> = Vec::new();
    if offset >= n {
        return r;
    }
    let end = if n - offset <= PAGE_SIZE {
        n
    } else {
        offset + PAGE_SIZE
    };
    let mut i = offset;
    while i < end
        invariant
            offset <= i <= end <= n,
            n == all@.len(),
            texts(r@) == texts(all@).subrange(offset as int, i as int),
        decreases end - i,
    {
        let ghost old_r = r@;
        let line = all[i].clone();
        r.push(line);
        assert(r@ == old_r.push(all@[i as int]));
        assert(texts(r@) =~= texts(old_r).push(all@[i as int]@));
        i = i + 1;
        assert(texts(r@) =~= texts(all@).subrange(offset as int, i as int));
    }
    assert(texts(r@) =~= page_lines_spec(out@, offset as nat));
    assert forall|j: int| 0 <= j < r@.len() implies (#[trigger] r@[j])@ == lines_spec(out@)[offset
        + j] by {
        assert(texts(r@)[j] == r@[j]@);
        assert(page_lines_spec(out@, offset as nat)[j] == lines_spec(out@)[offset + j]);
    }
    r
}

/// The value under `key` of an object.
fn field<'a>(v: &'a JsonValue, key: &str) -> (r: &'a JsonValue)
    ensures
        *r == json_field(*v, key@),
{
    match v {
        JsonValue::Object(entries) => {
            let key_string = String::from_str(key);
            let n = entries.len();
            let mut i: usize = 0;
            assert(entries@.skip(0) =~= entries@);
            while i < n
                invariant
                    i <= n,
                    n == entries@.len(),
                    key_string@ == key@,
                    json_field(*v, key@) == entry_value(entries@.skip(i as int), key@),
                decreases n - i,
            {
                assert(entries@.skip(i as int).drop_first() =~= entries@.skip(i + 1));
                if entries[i].0 == key_string {
                    return &entries[i].1;
                }
                i = i + 1;
            }
            &JsonValue::Null
        },
        _ => &JsonValue::Null,
    }
}

/// The text of the string under `key`, or `default` where there is no string.
fn text_or(v: &JsonValue, key: &str, default: &str) -> (r: String)
    ensures
        r@ == match json_text(json_field(*v, key@)) {
            Some(s) => s,
            None => default@,
        },
{
    match field(v, key) {
        JsonValue::Str(s) => s.clone(),
        _ => String::from_str(default),
    }
}

/// The address of a video's thumbnail picture.
pub fn thumbnail_url(id: &str) -> (r: String)
    ensures
        r@ == "https://i.ytimg.com/vi/"@ + id@ + "/hqdefault.jpg"@,
{
    let mut r = String::from_str("https://i.ytimg.com/vi/");
    r.append(id);
    r.append("/hqdefault.jpg");
    r
}

/// Whether `e` holds the fields of the search result `v`: `id` (empty where
/// missing), `title` and `uploader` ("Unknown" where missing), the text of
/// the number under `duration`, and the thumbnail of the id.
pub open spec fn entry_of(v: JsonValue, e: SearchEntry) -> bool {
    &&& e.id@ == match json_text(json_field(v, "id"@)) {
        Some(s) => s,
        None => Seq::empty(),
    }
    &&& e.title@ == match json_text(json_field(v, "title"@)) {
        Some(s) => s,
        None => "Unknown"@,
    }
    &&& e.channel@ == match json_text(json_field(v, "uploader"@)) {
        Some(s) => s,
        None => "Unknown"@,
    }
    &&& match e.duration {
        Some(t) => json_number(json_field(v, "duration"@)) == Some(t@),
        None => json_number(json_field(v, "duration"@)) is None,
    }
    &&& e.thumbnail_url@ == "https://i.ytimg.com/vi/"@ + e.id@ + "/hqdefault.jpg"@
}

/// The fields of a search result.
pub fn entry_from_json(v: &JsonValue) -> (e: SearchEntry)
    ensures
        entry_of(*v, e),
{
    let id = text_or(v, "id", "");
    proof {
        reveal_strlit("");
    }
    let title = text_or(v, "title", "Unknown");
    let channel = text_or(v, "uploader", "Unknown");
    let d = field(v, "duration");
    let duration = match d {
        JsonValue::Number(t) => Some(t.clone()),
        _ => None,
    };
    let thumbnail_url = thumbnail_url(id.as_str());
    let e = SearchEntry { id, title, channel, duration, thumbnail_url };
    assert(e.id@ == match json_text(json_field(*v, "id"@)) {
        Some(s) => s,
        None => Seq::empty(),
    });
    assert(e.title@ == match json_text(json_field(*v, "title"@)) {
        Some(s) => s,
        None => "Unknown"@,
    });
    assert(match e.duration {
        Some(t) => json_number(json_field(*v, "duration"@)) == Some(t@),
        None => json_number(json_field(*v, "duration"@)) is None,
    });
    assert(e.thumbnail_url@ == "https://i.ytimg.com/vi/"@ + e.id@ + "/hqdefault.jpg"@);
    e
}

/// The values that parse among `ls`, in order.
pub open spec fn parsed_lines(ls: Seq<Seq<char>>) -> Seq<JsonValue>
    decreases ls.len(),
{
    if ls.len() == 0 {
        Seq::empty()
    } else {
        match json_parse(ls.last()) {
            Some(v) => parsed_lines(ls.drop_last()).push(v),
            None => parsed_lines(ls.drop_last()),
        }
    }
}

/// The results on the page at `offset` of the search tool's output: one for
/// each line of the page that parses as JSON, in order; lines that do not
/// parse are skipped.
pub fn search_page(out: &str, offset: usize) -> (r: Vec<SearchEntry>)
    ensures
        r@.len() == parsed_lines(page_lines_spec(out@, offset as nat)).len(),
        forall|i: int|
            0 <= i < r@.len() ==> entry_of(
                parsed_lines(page_lines_spec(out@, offset as nat))[i],
                #[trigger] r@[i],
            ),
{
    let page = page_lines(out, offset);
    let ghost ls = texts(page@);
    let mut r: Vec<SearchEntry> = Vec::new();
    let mut i: usize = 0;
    while i < page.len()
        invariant
            i <= page@.len(),
            ls == texts(page@),
            r@.len() == parsed_lines(ls.take(i as int)).len(),
            forall|j: int|
                0 <= j < r@.len() ==> entry_of(parsed_lines(ls.take(i as int))[j], #[trigger] r@[j]),
        decreases page@.len() - i,
    {
        let ghost before = ls.take(i as int);
        assert(ls.take(i + 1).drop_last() =~= before);
        assert(ls.take(i + 1).last() == page@[i as int]@);
        match parse_json(page[i].as_str()) {
            Some(v) => {
                let e = entry_from_json(&v);
                r.push(e);
            },
            None => {},
        }
        i = i + 1;
    }
    assert(ls.take(page@.len() as int) =~= ls);
    r
}

} // verus!
