//! Documents and templates: `nourl`, `toml`, `serde_json`, `regex` and `minify_html`.

use vstd::prelude::*;

use crate::text;

verus! {

/// The scheme, the host and the path that `nourl` finds in a URL, if it can read it.
pub uninterp spec fn url_parts(url: Seq<char>) -> Option<(Seq<char>, Seq<char>, Seq<char>)>;

/// What `toml` finds under `table` and there under `key`: `None` if it cannot read the document, and
/// `Some(None)` if there is no text at that place.
pub uninterp spec fn toml_text(
    document: Seq<char>,
    table: Seq<char>,
    key: Seq<char>,
) -> Option<Option<Seq<char>>>;

/// The members of the object that `serde_json` reads, each with its text if it is one: `None` if it
/// cannot read the document.
pub uninterp spec fn json_members(document: Seq<char>) -> Option<
    Seq<(Seq<char>, Option<Seq<char>>)>,
>;

/// The places where `regex` finds a pattern in a text, each with what its first group matched.
pub uninterp spec fn captures(pattern: Seq<char>, text: Seq<char>) -> Seq<(Seq<char>, Seq<char>)>;

/// What `minify_html` makes of a page in which no script stands.
pub uninterp spec fn minified(page: Seq<u8>, minify_js: bool) -> Seq<u8>;

/// `nourl::Url::parse` reads a URL or refuses it, which depends on the text alone. The scheme is
/// given by its name in lower case.
#[verifier::external_body]
pub(crate) fn parse_url(url: &str) -> (r: Option<(String, String, String)>)
    ensures
        match r {
            Some((scheme, host, path)) => url_parts(url@) == Some((scheme@, host@, path@)),
            None => url_parts(url@) is None,
        },
{
    let url = nourl::Url::parse(url).ok()?;
    Some((url.scheme().as_str().to_string(), url.host().to_string(), url.path().to_string()))
}

/// `toml::from_str` reads a document or refuses it; `get` finds a member of a table, and `as_str`
/// its text, if it is one. All of it depends on the texts alone.
#[verifier::external_body]
pub(crate) fn toml_lookup(document: &str, table: &str, key: &str) -> (r: Option<Option<String>>)
    ensures
        match r {
            Some(Some(text)) => toml_text(document@, table@, key@) == Some(Some(text@)),
            Some(None) => toml_text(document@, table@, key@) == Some(None::<Seq<char>>),
            None => toml_text(document@, table@, key@) is None,
        },
{
    let document: toml::Value = toml::from_str(document).ok()?;
    let value = document.get(table).and_then(|t| t.get(key));
    Some(value.and_then(|v| v.as_str()).map(|v| v.to_string()))
}

/// Members of an object as plain values.
pub open spec fn members_of(v: Seq<(String, Option<String>)>) -> Seq<
    (Seq<char>, Option<Seq<char>>),
> {
    v.map_values(
        |m: (String, Option<String>)|
            {
                let (key, value) = m;
                (
                    key@,
                    match value {
                        Some(text) => Some(text@),
                        None => None::<Seq<char>>,
                    },
                )
            },
    )
}

/// `serde_json::from_str` reads a document or refuses it, which depends on the text alone. A document
/// that is no object has no members.
#[verifier::external_body]
pub(crate) fn parse_json_members(document: &str) -> (r: Option<Vec<(String, Option<String>)>>)
    ensures
        match r {
            Some(members) => json_members(document@) == Some(members_of(members@)),
            None => json_members(document@) is None,
        },
{
    let document: serde_json::Value = serde_json::from_str(document).ok()?;
    let members = document.as_object().into_iter().flatten();
    Some(members.map(|(k, v)| (k.clone(), v.as_str().map(|v| v.to_string()))).collect())
}

/// The pattern of a key between double braces.
pub const KEY_PATTERN: &'static str = "\\{\\{(.*?)\\}\\}";

/// Two texts of each place as plain values.
pub open spec fn captures_of(v: Seq<(String, String)>) -> Seq<(Seq<char>, Seq<char>)> {
    v.map_values(
        |c: (String, String)|
            {
                let (whole, key) = c;
                (whole@, key@)
            },
    )
}

/// `regex::Regex::captures_iter` finds the places of a pattern one after the other, which depend on
/// the pattern and the text alone. Of the pattern of a key, each place is the key between double
/// braces.
#[verifier::external_body]
pub(crate) fn find_keys(pattern: &str, text: &str) -> (r: Vec<(String, String)>)
    requires
        pattern@ == KEY_PATTERN@,
    ensures
        captures_of(r@) == captures(pattern@, text@),
        forall|i: int|
            0 <= i < r@.len() ==> {
                let (whole, key) = #[trigger] r@[i];
                whole@ == "{{"@ + key@ + "}}"@
            },
{
    let pattern = regex::Regex::new(pattern).unwrap();
    pattern.captures_iter(text).map(|c| (c[0].to_string(), c[1].to_string())).collect()
}

/// A byte with a letter in lower case.
pub open spec fn lower(b: u8) -> u8 {
    if 0x41 <= b <= 0x5A {
        (b + 0x20) as u8
    } else {
        b
    }
}

/// Bytes with their letters in lower case.
pub open spec fn lowered(bytes: Seq<u8>) -> Seq<u8> {
    bytes.map_values(|b: u8| lower(b))
}

/// Whether a byte may stand in the name of a tag.
pub open spec fn is_tag_name_byte(b: u8) -> bool {
    0x30 <= b <= 0x39 || 0x41 <= b <= 0x5A || 0x61 <= b <= 0x7A || b == 0x3A || b == 0x2D
}

/// Whether the name of a tag ends wherever `tag` stands in a page, in any letter case.
pub open spec fn tag_ends(page: Seq<u8>, tag: Seq<u8>) -> bool {
    forall|i: int|
        text::is_at(lowered(page), tag, i) ==> i + tag.len() == page.len() || !is_tag_name_byte(
            page[i + tag.len()],
        )
}

/// Whether no script stands in a page, and the tags that end content which is taken as it is are
/// those of that content.
pub open spec fn is_plain_page(page: Seq<u8>) -> bool {
    &&& !text::occurs(lowered(page), vstd::utf8::encode_utf8("<script"@))
    &&& tag_ends(page, vstd::utf8::encode_utf8("</style"@))
    &&& tag_ends(page, vstd::utf8::encode_utf8("</textarea"@))
    &&& tag_ends(page, vstd::utf8::encode_utf8("</title"@))
}

/// `minify_html::minify`, with its default settings but for the one for scripts, makes of a page
/// without scripts one that depends on the page and that setting alone: attributes are put out in the
/// order of their names. Nothing is claimed of a page with a script, and none is handed to it: the
/// order in which the functions of a script come out is that of a hash map which each process seeds,
/// and some scripts make it panic, such as one with an `if` without statements. Neither is a page
/// whose `style`, `textarea` or `title` is followed by the end of a tag with a longer name, which a
/// debug assertion refuses.
#[verifier::external_body]
pub(crate) fn minify(page: &[u8], minify_js: bool) -> (r: Vec<u8>)
    requires
        is_plain_page(page@),
    ensures
        r@ == minified(page@, minify_js),
{
    let cfg = minify_html::Cfg { minify_js, ..Default::default() };
    minify_html::minify(page, &cfg)
}

} // verus!
