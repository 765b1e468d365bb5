//! Post headers: the optional metadata block at the start of a document,
//! set off by delimiter lines and written in TOML.

use crate::text::{chars_of, find_from, find_from_exec, occurs_at, occurs_at_exec, same_text, slice_chars};
use vstd::prelude::*;

verus! {

/// Metadata written at the start of a markdown post.
#[derive(Debug, Clone)]
pub struct PostHeader {
    pub title: Option<String>,
    pub date: Option<String>,
    pub category: Option<String>,
}

/// Why a metadata block could not be read.
#[derive(Debug, Clone)]
pub enum DecodeError {
    /// The block is no TOML document; the decoder's message.
    Syntax(String),
    /// A field that holds text in a header holds another kind of value; the
    /// field's name.
    NotText(String),
}

/// The view of an optional text.
pub open spec fn opt_view(o: Option<String>) -> Option<Seq<char>> {
    match o {
        Some(s) => Some(s@),
        None => None,
    }
}

/// The view of decoded entries: each key with its text, where the value is one.
pub open spec fn entries_view(entries: Seq<(String, Option<String>)>) -> Seq<(Seq<char>, Option<Seq<char>>)> {
    entries.map_values(|e: (String, Option<String>)| (e.0@, opt_view(e.1)))
}

/// The entries that the TOML decoder makes of `text`: each key, with its value
/// where that is a string; nothing where `text` is no TOML document.
pub uninterp spec fn toml_entries_of(text: Seq<char>) -> Option<Seq<(Seq<char>, Option<Seq<char>>)>>;

/// Relies on `toml::from_str` decoding a document into a `toml::value::Table`:
/// the outcome depends on the text alone. Each entry is handed on as its key
/// and, where its value is a string, that string; an error as its message.
#[verifier::external_body]
fn decode_toml_entries(text: &str) -> (r: Result<Vec<(String, Option<String>)>, String>)
    ensures
        r matches Ok(v) ==> toml_entries_of(text@) == Some(entries_view(v@)),
        r is Err ==> toml_entries_of(text@) is None,
{
    match toml::from_str::<toml::value::Table>(text) {
        Ok(table) => {
            let mut entries = Vec::new();
            for (key, value) in table {
                entries.push((key, match value { toml::Value::String(s) => Some(s), _ => None }));
            }
            Ok(entries)
        },
        Err(e) => Err(e.to_string()),
    }
}

/// The value of the first entry named `key`: `Some(None)` where that value is
/// no text, `None` where there is no such entry.
pub open spec fn entry_value(entries: Seq<(Seq<char>, Option<Seq<char>>)>, key: Seq<char>) -> Option<
    Option<Seq<char>>,
>
    decreases entries.len(),
{
    if entries.len() == 0 {
        None
    } else if entries[0].0 == key {
        Some(entries[0].1)
    } else {
        entry_value(entries.drop_first(), key)
    }
}

/// The field `key` can be read: it is absent or holds text.
pub open spec fn field_readable(entries: Seq<(Seq<char>, Option<Seq<char>>)>, key: Seq<char>) -> bool {
    entry_value(entries, key) != Some(None::<Seq<char>>)
}

/// The text of the field `key`, if present.
pub open spec fn field_text(entries: Seq<(Seq<char>, Option<Seq<char>>)>, key: Seq<char>) -> Option<Seq<char>> {
    match entry_value(entries, key) {
        Some(Some(v)) => Some(v),
        _ => None,
    }
}

/// The entries make a header: each of its fields is absent or text. Other
/// entries are ignored.
pub open spec fn entries_make_header(entries: Seq<(Seq<char>, Option<Seq<char>>)>) -> bool {
    &&& field_readable(entries, "title"@)
    &&& field_readable(entries, "date"@)
    &&& field_readable(entries, "category"@)
}

/// The first of the fields `title`, `date` and `category` that cannot be read.
pub open spec fn first_unreadable_field(entries: Seq<(Seq<char>, Option<Seq<char>>)>) -> Seq<char> {
    if !field_readable(entries, "title"@) {
        "title"@
    } else if !field_readable(entries, "date"@) {
        "date"@
    } else {
        "category"@
    }
}

/// `h` holds the fields that the entries give.
pub open spec fn header_from(h: PostHeader, entries: Seq<(Seq<char>, Option<Seq<char>>)>) -> bool {
    &&& opt_view(h.title) == field_text(entries, "title"@)
    &&& opt_view(h.date) == field_text(entries, "date"@)
    &&& opt_view(h.category) == field_text(entries, "category"@)
}

/// The index of the first entry named `key`.
fn find_entry(entries: &Vec<(String, Option<String>)>, key: &str) -> (r: Option<usize>)
    ensures
        r matches Some(i) ==> i < entries@.len() && entry_value(entries_view(entries@), key@) == Some(
            opt_view(entries@[i as int].1),
        ),
        r is None ==> entry_value(entries_view(entries@), key@) is None,
{
    let ghost ev = entries_view(entries@);
    let mut i: usize = 0;
    assert(ev.skip(0) =~= ev);
    while i < entries.len()
        invariant
            ev == entries_view(entries@),
            i <= entries@.len(),
            entry_value(ev, key@) == entry_value(ev.skip(i as int), key@),
        decreases entries@.len() - i,
    {
        assert(ev.skip(i as int)[0] == ev[i as int]);
        assert(ev.skip(i as int).drop_first() =~= ev.skip(i + 1));
        if same_text(entries[i].0.as_str(), key) {
            return Some(i);
        }
        i = i + 1;
    }
    assert(ev.skip(i as int).len() == 0);
    None
}

/// The text of the field `key`: `Ok(None)` where it is absent, an error where
/// it holds another kind of value.
fn text_field(entries: &Vec<(String, Option<String>)>, key: &str) -> (r: Result<Option<String>, DecodeError>)
    ensures
        r is Ok <==> field_readable(entries_view(entries@), key@),
        r matches Ok(v) ==> opt_view(v) == field_text(entries_view(entries@), key@),
        r matches Err(e) ==> e matches DecodeError::NotText(name) && name@ == key@,
{
    match find_entry(entries, key) {
        None => Ok(None),
        Some(i) => match &entries[i].1 {
            Some(v) => Ok(Some(v.clone())),
            None => Err(DecodeError::NotText(key.to_owned())),
        },
    }
}

/// Builds a header from decoded entries: the fields `title`, `date` and
/// `category` are taken where present; each must hold text.
pub fn header_from_entries(entries: &Vec<(String, Option<String>)>) -> (r: Result<PostHeader, DecodeError>)
    ensures
        r is Ok <==> entries_make_header(entries_view(entries@)),
        r matches Ok(h) ==> header_from(h, entries_view(entries@)),
        r matches Err(e) ==> e is NotText && e->NotText_0@ == first_unreadable_field(entries_view(entries@)),
{
    let title = text_field(entries, "title")?;
    let date = text_field(entries, "date")?;
    let category = text_field(entries, "category")?;
    Ok(PostHeader { title, date, category })
}

/// The header that the TOML text `text` describes, or why there is none.
pub open spec fn decoded_header_ok(text: Seq<char>) -> bool {
    toml_entries_of(text) matches Some(entries) && entries_make_header(entries)
}

/// Decodes a metadata block written in TOML into a header.
pub fn decode_header(text: &str) -> (r: Result<PostHeader, DecodeError>)
    ensures
        r is Ok <==> decoded_header_ok(text@),
        r matches Ok(h) ==> header_from(h, toml_entries_of(text@)->Some_0),
        r matches Err(e) ==> (e is Syntax <==> toml_entries_of(text@) is None),
        (r is Err && r->Err_0 is NotText) ==> r->Err_0->NotText_0@ == first_unreadable_field(
            toml_entries_of(text@)->Some_0,
        ),
{
    match decode_toml_entries(text) {
        Ok(entries) => header_from_entries(&entries),
        Err(message) => Err(DecodeError::Syntax(message)),
    }
}

/// The line that opens and closes a metadata block.
pub open spec fn delimiter() -> Seq<char> {
    seq!['-', '-', '-', '\n']
}

/// How a document splits into an optional metadata block and its body. A
/// document that does not start with the delimiter line is all body. Else the
/// block runs up to the next delimiter line and the body follows it; where
/// there is no closing line, or the block reads the same as the body, the
/// document has no block and the body is all that follows the opening line.
pub open spec fn front_matter_split(s: Seq<char>) -> (Option<Seq<char>>, Seq<char>) {
    if !occurs_at(s, delimiter(), 0) {
        (None, s)
    } else {
        match find_from(s, delimiter(), 4) {
            None => (None, s.skip(4)),
            Some(k) => {
                let block = s.subrange(4, k as int);
                let body = s.skip(k + 4int);
                if block == body {
                    (None, body)
                } else {
                    (Some(block), body)
                }
            },
        }
    }
}

/// Splits a document into its optional header and its markdown body. The
/// metadata block, where there is one, is decoded; an error there is returned.
pub fn split_md_and_header(input: &str) -> (r: Result<(Option<PostHeader>, &str), DecodeError>)
    ensures
        !occurs_at(input@, delimiter(), 0) ==> (r matches Ok((None, body)) && body == input),
        r matches Ok((_, body)) ==> body@ == front_matter_split(input@).1,
        front_matter_split(input@).0 is None ==> r matches Ok((None, _)),
        front_matter_split(input@).0 matches Some(block) ==> {
            &&& r is Ok <==> decoded_header_ok(block)
            &&& r matches Ok((h, _)) ==> (h matches Some(h) && header_from(h, toml_entries_of(block)->Some_0))
            &&& r matches Err(e) ==> (e is Syntax <==> toml_entries_of(block) is None)
        },
{
    let chars = chars_of(input);
    let delim: Vec<char> = vec!['-', '-', '-', '\n'];
    assert(delim@ =~= delimiter());
    if !occurs_at_exec(&chars, &delim, 0) {
        return Ok((None, input));
    }
    let n = chars.len();
    match find_from_exec(&chars, &delim, 4) {
        None => Ok((None, slice_chars(input, 4, n))),
        Some(k) => {
            let block = slice_chars(input, 4, k);
            let body = slice_chars(input, k + 4, n);
            if same_text(block, body) {
                Ok((None, body))
            } else {
                let header = decode_header(block)?;
                Ok((Some(header), body))
            }
        },
    }
}

} // verus!
