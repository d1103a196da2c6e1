//! The pages of the provisioning server: translated and made small.

use vstd::prelude::*;

use crate::outside::documents;
use crate::text;

verus! {

/// The text for a key: the first member with that key. Of a member that is no text, nothing is left.
pub open spec fn translation(
    members: Seq<(Seq<char>, Option<Seq<char>>)>,
    key: Seq<char>,
    k: nat,
) -> Option<Seq<char>>
    decreases members.len() - k,
{
    if k >= members.len() {
        None
    } else {
        let (name, value) = members[k as int];
        if name == key {
            match value {
                Some(s) => Some(s),
                None => Some(Seq::empty()),
            }
        } else {
            translation(members, key, k + 1)
        }
    }
}

fn find_translation(members: &Vec<(String, Option<String>)>, key: &str) -> (r: Option<String>)
    ensures
        match r {
            Some(s) => translation(documents::members_of(members@), key@, 0) == Some(s@),
            None => translation(documents::members_of(members@), key@, 0) is None,
        },
{
    let ghost plain = documents::members_of(members@);
    let mut i: usize = 0;
    while i < members.len()
        invariant
            i <= members@.len(),
            plain == documents::members_of(members@),
            plain.len() == members@.len(),
            translation(plain, key@, i as nat) == translation(plain, key@, 0),
        decreases members@.len() - i,
    {
        let member = &members[i];
        proof {
            let (name, value) = members@[i as int];
            let (plain_name, plain_value) = plain[i as int];
            assert(plain_name == name@);
        }
        if text::same_text(member.0.as_str(), key) {
            return match &member.1 {
                Some(s) => Some(s.clone()),
                None => {
                    let nothing = String::new();
                    assert(nothing@ =~= Seq::<char>::empty());
                    Some(nothing)
                },
            };
        }
        i = i + 1;
    }
    None
}

/// A page with its keys, one after the other, made into their translations; a key without a
/// translation stays.
pub open spec fn translated(
    page: Seq<char>,
    keys: Seq<(Seq<char>, Seq<char>)>,
    members: Seq<(Seq<char>, Option<Seq<char>>)>,
) -> Seq<char>
    decreases keys.len(),
{
    if keys.len() == 0 {
        page
    } else {
        let before = translated(page, keys.drop_last(), members);
        let (whole, key) = keys.last();
        match translation(members, key, 0) {
            Some(value) => text::replaced(before, whole, value),
            None => before,
        }
    }
}

/// The keys without a translation.
pub open spec fn untranslated(
    keys: Seq<(Seq<char>, Seq<char>)>,
    members: Seq<(Seq<char>, Option<Seq<char>>)>,
) -> Seq<Seq<char>>
    decreases keys.len(),
{
    if keys.len() == 0 {
        Seq::empty()
    } else {
        let before = untranslated(keys.drop_last(), members);
        let (_, key) = keys.last();
        match translation(members, key, 0) {
            Some(_) => before,
            None => before.push(key),
        }
    }
}

/// Translates the keys of a page. Gives the page, and the keys without a translation.
pub fn translate_keys(
    page: &str,
    keys: &Vec<(String, String)>,
    members: &Vec<(String, Option<String>)>,
) -> (r: (String, Vec<String>))
    requires
        forall|i: int|
            0 <= i < keys@.len() ==> {
                let (whole, _) = #[trigger] keys@[i];
                whole@.len() > 0
            },
    ensures
        ({
            let (translated_page, missing) = r;
            &&& translated_page@ == translated(
                page@,
                documents::captures_of(keys@),
                documents::members_of(members@),
            )
            &&& text::texts(missing@) == untranslated(
                documents::captures_of(keys@),
                documents::members_of(members@),
            )
        }),
{
    let ghost plain = documents::captures_of(keys@);
    let ghost named = documents::members_of(members@);
    let mut content = page.to_owned();
    let mut missing: Vec<String> = Vec::new();
    let mut i: usize = 0;
    proof {
        assert(plain.take(0) =~= Seq::empty());
        assert(text::texts(missing@) =~= Seq::empty());
    }
    while i < keys.len()
        invariant
            i <= keys@.len(),
            plain == documents::captures_of(keys@),
            plain.len() == keys@.len(),
            named == documents::members_of(members@),
            forall|j: int|
                0 <= j < keys@.len() ==> {
                    let (whole, _) = #[trigger] keys@[j];
                    whole@.len() > 0
                },
            content@ == translated(page@, plain.take(i as int), named),
            text::texts(missing@) == untranslated(plain.take(i as int), named),
        decreases keys@.len() - i,
    {
        let found = &keys[i];
        let ghost before = missing@;
        proof {
            let (whole, key) = keys@[i as int];
            assert(plain[i as int] == (whole@, key@));
            assert(plain.take(i + 1).drop_last() =~= plain.take(i as int));
            assert(plain.take(i + 1).last() == plain[i as int]);
        }
        match find_translation(members, found.1.as_str()) {
            Some(value) => {
                content = text::replace_text(content.as_str(), found.0.as_str(), value.as_str());
            },
            None => {
                let key = found.1.clone();
                missing.push(key);
                assert(text::texts(missing@) =~= text::texts(before).push(key@));
            },
        }
        i = i + 1;
    }
    assert(plain.take(i as int) =~= plain);
    (content, missing)
}

/// Translates a page into the language of a file of translations, if that can be read. Gives the
/// page, and the keys without a translation.
pub fn translate_page(page: &str, language: &str) -> (r: Option<(String, Vec<String>)>)
    ensures
        match documents::json_members(language@) {
            None => r is None,
            Some(members) => {
                let keys = documents::captures(documents::KEY_PATTERN@, page@);
                &&& r matches Some((translated_page, missing))
                &&& translated_page@ == translated(page@, keys, members)
                &&& text::texts(missing@) == untranslated(keys, members)
            },
        },
{
    let members = match documents::parse_json_members(language) {
        Some(members) => members,
        None => {
            return None;
        },
    };
    let keys = documents::find_keys(documents::KEY_PATTERN, page);
    proof {
        reveal_strlit("{{");
        assert forall|i: int| 0 <= i < keys@.len() implies {
            let (whole, _) = #[trigger] keys@[i];
            whole@.len() > 0
        } by {
            let (whole, key) = keys@[i];
            assert(whole@ == "{{"@ + key@ + "}}"@);
        }
    }
    Some(translate_keys(page, &keys, &members))
}

/// Of keys that all have a translation, none is told to be without one.
pub proof fn lemma_nothing_untranslated(
    keys: Seq<(Seq<char>, Seq<char>)>,
    members: Seq<(Seq<char>, Option<Seq<char>>)>,
)
    requires
        forall|i: int|
            0 <= i < keys.len() ==> {
                let (_, key) = #[trigger] keys[i];
                translation(members, key, 0) is Some
            },
    ensures
        untranslated(keys, members) == Seq::<Seq<char>>::empty(),
    decreases keys.len(),
{
    if keys.len() > 0 {
        let (_, key) = keys[keys.len() - 1];
        assert(translation(members, key, 0) is Some);
        lemma_nothing_untranslated(keys.drop_last(), members);
    }
}

/// The language of a file of translations: its name without the directory and the extension.
pub open spec fn locale_of(language_file: Seq<char>) -> Seq<char> {
    text::split(text::split(language_file, '/').last(), '.')[0]
}

/// The language of a file of translations.
pub fn locale_suffix(language_file: &str) -> (s: String)
    ensures
        s@ == locale_of(language_file@),
{
    let parts = text::split_text(language_file, '/');
    let name = parts[parts.len() - 1].clone();
    proof {
        let texts = text::split(language_file@, '/');
        assert(texts.len() == parts@.len());
        assert(texts.last() == parts@[parts@.len() - 1]@);
    }
    let pieces = text::split_text(name.as_str(), '.');
    assert(text::split(name@, '.')[0] == pieces@[0]@);
    pieces[0].clone()
}

/// The path of a page in a language.
pub fn localized_path(path: &str, locale: &str) -> (s: String)
    ensures
        s@ == text::replaced(path@, ".html"@, "+"@ + locale@ + ".html"@),
{
    let mut suffix = "+".to_owned();
    suffix.append(locale);
    suffix.append(".html");
    proof {
        reveal_strlit(".html");
    }
    text::replace_text(path, ".html", suffix.as_str())
}

fn to_lower(bytes: &[u8]) -> (r: Vec<u8>)
    ensures
        r@ == documents::lowered(bytes@),
{
    let mut r: Vec<u8> = Vec::new();
    let mut i: usize = 0;
    while i < bytes.len()
        invariant
            i <= bytes@.len(),
            r@.len() == i,
            forall|j: int| 0 <= j < i ==> #[trigger] r@[j] == documents::lower(bytes@[j]),
        decreases bytes@.len() - i,
    {
        let b: u8 = bytes[i];
        if 0x41 <= b && b <= 0x5A {
            r.push(b + 0x20);
        } else {
            r.push(b);
        }
        i = i + 1;
    }
    assert(r@ =~= documents::lowered(bytes@));
    r
}

fn check_tag_ends(page: &[u8], small: &Vec<u8>, tag: &[u8]) -> (r: bool)
    requires
        small@ == documents::lowered(page@),
    ensures
        r == documents::tag_ends(page@, tag@),
{
    if tag.len() > page.len() {
        return true;
    }
    let n: usize = page.len();
    let last: usize = n - tag.len();
    let mut i: usize = 0;
    loop
        invariant
            i <= last,
            n == page@.len(),
            last == n - tag@.len(),
            small@ == documents::lowered(page@),
            small@.len() == page@.len(),
            forall|j: int|
                0 <= j < i ==> (text::is_at(small@, tag@, j) ==> j + tag@.len() == page@.len()
                    || !documents::is_tag_name_byte(page@[j + tag@.len()])),
        decreases last - i,
    {
        if text::bytes_at(small, tag, i) {
            assert(text::is_at(small@, tag@, i as int));
            if i < last {
                let b: u8 = page[i + tag.len()];
                if (0x30 <= b && b <= 0x39) || (0x41 <= b && b <= 0x5A) || (0x61 <= b && b <= 0x7A)
                    || b == 0x3A || b == 0x2D {
                    return false;
                }
            }
        }
        if i == last {
            return true;
        }
        i = i + 1;
    }
}

/// Whether no script stands in a page, and the tags that end content which is taken as it is are
/// those of that content.
pub fn is_plain(page: &str) -> (r: bool)
    ensures
        r == documents::is_plain_page(vstd::utf8::encode_utf8(page@)),
{
    let bytes = page.as_bytes();
    let small = to_lower(bytes);
    !text::contains_bytes(&small, "<script".as_bytes()) && check_tag_ends(
        bytes,
        &small,
        "</style".as_bytes(),
    ) && check_tag_ends(bytes, &small, "</textarea".as_bytes()) && check_tag_ends(
        bytes,
        &small,
        "</title".as_bytes(),
    )
}

/// Makes a page without scripts small.
pub fn minify_page(page: &str) -> (r: Vec<u8>)
    requires
        documents::is_plain_page(vstd::utf8::encode_utf8(page@)),
    ensures
        r@ == documents::minified(vstd::utf8::encode_utf8(page@), true),
{
    documents::minify(page.as_bytes(), true)
}

/// The translation of a key is the text of the first member with that name, or nothing if that
/// member is no text. A key without a member has none.
pub proof fn lemma_translation(
    members: Seq<(Seq<char>, Option<Seq<char>>)>,
    key: Seq<char>,
    k: nat,
)
    ensures
        match translation(members, key, k) {
            Some(value) => exists|i: int|
                k <= i < members.len() && (#[trigger] members[i]).0 == key && (members[i].1 == Some(
                    value,
                ) || (members[i].1 is None && value.len() == 0)) && forall|j: int|
                    k <= j < i ==> (#[trigger] members[j]).0 != key,
            None => forall|j: int| k <= j < members.len() ==> (#[trigger] members[j]).0 != key,
        },
    decreases members.len() - k,
{
    if k < members.len() {
        if members[k as int].0 != key {
            lemma_translation(members, key, k + 1);
            if let Some(value) = translation(members, key, k + 1) {
                let i = choose|i: int|
                    k + 1 <= i < members.len() && (#[trigger] members[i]).0 == key && (members[i].1
                        == Some(value) || (members[i].1 is None && value.len() == 0)) && forall|
                        j: int,
                    |
                        k + 1 <= j < i ==> (#[trigger] members[j]).0 != key;
                assert(members[i].0 == key);
            }
        } else {
            assert(members[k as int].0 == key);
        }
    }
}

/// Keys are translated one after the other: each key with a translation is replaced by it wherever
/// it stands in the page; one without stays, and is named.
pub proof fn lemma_keys_translated(
    page: Seq<char>,
    keys: Seq<(Seq<char>, Seq<char>)>,
    members: Seq<(Seq<char>, Option<Seq<char>>)>,
    whole: Seq<char>,
    key: Seq<char>,
)
    ensures
        translated(page, Seq::empty(), members) == page,
        untranslated(Seq::empty(), members).len() == 0,
        ({
            let more = keys.push((whole, key));
            let before = translated(page, keys, members);
            &&& translation(members, key, 0) matches Some(value) ==> {
                &&& translated(page, more, members) == text::replaced(before, whole, value)
                &&& untranslated(more, members) == untranslated(keys, members)
            }
            &&& translation(members, key, 0) is None ==> {
                &&& translated(page, more, members) == before
                &&& untranslated(more, members) == untranslated(keys, members).push(key)
            }
        }),
{
    assert(keys.push((whole, key)).drop_last() =~= keys);
}

/// The language of a file of translations is its name up to the first point, whatever directory it
/// is in.
pub proof fn lemma_locale_of(directory: Seq<char>, name: Seq<char>, extension: Seq<char>)
    requires
        !name.contains('/'),
        !name.contains('.'),
        !extension.contains('/'),
    ensures
        locale_of(name + seq!['.'] + extension) == name,
        locale_of(directory + seq!['/'] + (name + seq!['.'] + extension)) == name,
{
    let file = name + seq!['.'] + extension;
    assert(!file.contains('/')) by {
        if file.contains('/') {
            let i = file.index_of('/');
            if i < name.len() {
                assert(name[i] == '/');
            } else {
                assert(extension[i - name.len() - 1] == '/');
            }
        }
    }
    text::lemma_split_at_first(name, extension, '.');
    text::lemma_split_at_first(file, Seq::empty(), '/');
    lemma_last_part(directory, file);
}

proof fn lemma_last_part(directory: Seq<char>, file: Seq<char>)
    requires
        !file.contains('/'),
    ensures
        text::split(directory + seq!['/'] + file, '/').last() == file,
    decreases directory.len(),
{
    text::lemma_position(directory, '/', 0);
    let p = text::position(directory, '/', 0) as int;
    text::lemma_split_at_first(file, Seq::empty(), '/');
    if p >= directory.len() {
        text::lemma_split_at_first(directory, file, '/');
        assert(text::split(directory + seq!['/'] + file, '/') =~= seq![directory, file]);
    } else {
        let (head, rest) = (directory.take(p), directory.skip(p + 1));
        let tail = rest + seq!['/'] + file;
        assert(directory + seq!['/'] + file =~= head + seq!['/'] + tail);
        assert(!head.contains('/'));
        text::lemma_split_at_first(head, tail, '/');
        lemma_last_part(rest, file);
        text::lemma_join_of_split(tail, '/');
        assert((seq![head] + text::split(tail, '/')).last() == text::split(tail, '/').last());
    }
}

} // verus!
