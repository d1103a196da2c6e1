//! The web server by which a device gets its credentials.

use vstd::prelude::*;

use crate::display::leds;
use crate::display::leds::{LedPixels, LedStatus};
use crate::effects::{Effect, Effects};
use crate::net::wifi_net;
use crate::net::wifi_net::WifiNetEvent;
use crate::outside::bounded;
use crate::outside::http;
use crate::store::app_settings::persist;
use crate::store::app_settings::persist::PersistSettings;
use crate::text;
use crate::util::RGB8;

verus! {

// ---------------------------------------------------------------------------------------------
// Requests
// ---------------------------------------------------------------------------------------------

/// Most values that the query of a request may hold.
pub const MAX_QUERY_PAIRS: usize = 16;

/// A key and a value, if there are both: what is before the first equals sign, and what is behind it.
pub open spec fn pair_of(part: Seq<char>) -> Option<(Seq<char>, Seq<char>)> {
    let p = text::position(part, '=', 0);
    if p < part.len() {
        Some((part.take(p as int), part.skip((p + 1) as int)))
    } else {
        None
    }
}

/// The keys and values among parts of a query.
pub open spec fn pairs_of(parts: Seq<Seq<char>>) -> Seq<(Seq<char>, Seq<char>)>
    decreases parts.len(),
{
    if parts.len() == 0 {
        Seq::empty()
    } else {
        let before = pairs_of(parts.drop_last());
        match pair_of(parts.last()) {
            Some(pair) => before.push(pair),
            None => before,
        }
    }
}

/// The path of a request target: what is before the question mark.
pub open spec fn path_of(target: Seq<char>) -> Seq<char> {
    text::split(target, '?')[0]
}

/// The query of a request target: what is between the first question mark and the second.
pub open spec fn query_of(target: Seq<char>) -> Seq<char> {
    if text::split(target, '?').len() > 1 {
        text::split(target, '?')[1]
    } else {
        Seq::empty()
    }
}

/// The keys and values in the query of a request target.
pub open spec fn query_pairs_of(target: Seq<char>) -> Seq<(Seq<char>, Seq<char>)> {
    pairs_of(text::split(query_of(target), '&'))
}

/// Keys and values as plain values.
pub open spec fn pair_texts(v: Seq<(String, String)>) -> Seq<(Seq<char>, Seq<char>)> {
    v.map_values(
        |p: (String, String)|
            {
                let (key, value) = p;
                (key@, value@)
            },
    )
}

fn split_pair(part: &str) -> (r: Option<(String, String)>)
    ensures
        match r {
            Some((key, value)) => pair_of(part@) == Some((key@, value@)),
            None => pair_of(part@) is None,
        },
{
    let v = text::to_chars(part);
    let p: usize = text::find(&v, '=', 0);
    if p < v.len() {
        let key = text::from_chars(&v, 0, p);
        let value = text::from_chars(&v, p + 1, v.len());
        assert(key@ =~= part@.take(p as int));
        assert(value@ =~= part@.skip(p + 1));
        Some((key, value))
    } else {
        None
    }
}

/// A request target taken apart.
#[derive(Debug)]
pub struct Target {
    pub path: String,
    pub query_pairs: Vec<(String, String)>,
}

/// Takes a request target apart.
pub fn parse_target(target: &str) -> (t: Target)
    ensures
        t.path@ == path_of(target@),
        pair_texts(t.query_pairs@) == query_pairs_of(target@),
{
    let parts = text::split_text(target, '?');
    let path = parts[0].clone();
    assert(texts_at(parts@, 0));
    let query = if parts.len() > 1 {
        assert(texts_at(parts@, 1));
        parts[1].clone()
    } else {
        String::new()
    };
    assert(text::texts(parts@).len() == parts@.len());
    assert(query@ =~= query_of(target@));
    let pieces = text::split_text(query.as_str(), '&');
    let ghost texts = text::split(query@, '&');
    let mut query_pairs: Vec<(String, String)> = Vec::new();
    let mut i: usize = 0;
    assert(texts.take(0) =~= Seq::empty());
    assert(pair_texts(query_pairs@) =~= Seq::empty());
    while i < pieces.len()
        invariant
            i <= pieces@.len(),
            texts == text::texts(pieces@),
            texts.len() == pieces@.len(),
            pair_texts(query_pairs@) == pairs_of(texts.take(i as int)),
        decreases pieces@.len() - i,
    {
        let pair = split_pair(pieces[i].as_str());
        let ghost before = query_pairs@;
        proof {
            assert(texts_at(pieces@, i as int));
            assert(texts.take(i + 1).drop_last() =~= texts.take(i as int));
        }
        if let Some((key, value)) = pair {
            query_pairs.push((key, value));
            assert(pair_texts(query_pairs@) =~= pair_texts(before).push((key@, value@)));
        }
        i = i + 1;
    }
    assert(texts.take(i as int) =~= texts);
    Target { path, query_pairs }
}

/// The text at a place is the text of the string at that place.
spec fn texts_at(v: Seq<String>, i: int) -> bool {
    0 <= i < v.len() ==> text::texts(v)[i] == v[i]@
}

/// The value of the first pair with a key, from `k` on.
pub open spec fn value_of(pairs: Seq<(Seq<char>, Seq<char>)>, key: Seq<char>, k: nat) -> Option<
    Seq<char>,
>
    decreases pairs.len() - k,
{
    if k >= pairs.len() {
        None
    } else {
        let (name, value) = pairs[k as int];
        if name == key {
            Some(value)
        } else {
            value_of(pairs, key, k + 1)
        }
    }
}

/// The value of the first pair with a key.
pub fn find_value(pairs: &Vec<(String, String)>, key: &str) -> (r: Option<String>)
    ensures
        persist::text(r) == value_of(pair_texts(pairs@), key@, 0),
{
    let ghost plain = pair_texts(pairs@);
    let mut i: usize = 0;
    while i < pairs.len()
        invariant
            i <= pairs@.len(),
            plain == pair_texts(pairs@),
            plain.len() == pairs@.len(),
            value_of(plain, key@, i as nat) == value_of(plain, key@, 0),
        decreases pairs@.len() - i,
    {
        let pair = &pairs[i];
        proof {
            let (name, value) = pairs@[i as int];
            assert(plain[i as int] == (name@, value@));
        }
        if text::same_text(pair.0.as_str(), key) {
            return Some(pair.1.clone());
        }
        i = i + 1;
    }
    None
}

/// The token of a request: of a value that is too long, nothing is left.
pub open spec fn token_of(pairs: Seq<(Seq<char>, Seq<char>)>) -> Option<Seq<char>> {
    match value_of(pairs, "tok"@, 0) {
        Some(value) => if vstd::utf8::encode_utf8(value).len() <= persist::SECRET_MAX_LEN {
            Some(value)
        } else {
            Some(Seq::empty())
        },
        None => None,
    }
}

/// The token of a request.
pub fn find_token(pairs: &Vec<(String, String)>) -> (r: Option<String>)
    ensures
        persist::text(r) == token_of(pair_texts(pairs@)),
        persist::fits(r, persist::SECRET_MAX_LEN as int),
{
    match find_value(pairs, "tok") {
        Some(value) => match bounded::string_of_capacity::<64>(value.as_str()) {
            Some(token) => Some(token),
            None => {
                let nothing = String::new();
                assert(nothing@ =~= Seq::<char>::empty());
                Some(nothing)
            },
        },
        None => None,
    }
}

// ---------------------------------------------------------------------------------------------
// Files
// ---------------------------------------------------------------------------------------------

/// The locale of files that there is one version of, and of requests that name none.
pub const DEFAULT_LOCALE: &'static str = "en";

/// The files that are served.
#[derive(Debug, Copy, Clone, PartialEq, Eq, Structural)]
pub enum StaticFile {
    SetupWifiEn,
    SetupWifiDe,
    Styles,
    Favicon,
    Background,
}

impl StaticFile {
    /// Where a file is found.
    pub open spec fn path(self) -> Seq<char> {
        match self {
            StaticFile::SetupWifiEn => "/setup-wifi"@,
            StaticFile::SetupWifiDe => "/setup-wifi"@,
            StaticFile::Styles => "/styles.css"@,
            StaticFile::Favicon => "/favicon.ico"@,
            StaticFile::Background => "/background.webp"@,
        }
    }

    /// The language of a file.
    pub open spec fn locale(self) -> Seq<char> {
        match self {
            StaticFile::SetupWifiDe => "de"@,
            _ => DEFAULT_LOCALE@,
        }
    }

    /// The kind of a file.
    pub open spec fn kind(self) -> Seq<char> {
        match self {
            StaticFile::SetupWifiEn => "text/html"@,
            StaticFile::SetupWifiDe => "text/html"@,
            StaticFile::Styles => "text/css"@,
            StaticFile::Favicon => "image/x-icon"@,
            StaticFile::Background => "image/webp"@,
        }
    }

    fn path_str(&self) -> (s: &'static str)
        ensures
            s@ == self.path(),
    {
        match self {
            StaticFile::SetupWifiEn => "/setup-wifi",
            StaticFile::SetupWifiDe => "/setup-wifi",
            StaticFile::Styles => "/styles.css",
            StaticFile::Favicon => "/favicon.ico",
            StaticFile::Background => "/background.webp",
        }
    }

    fn locale_str(&self) -> (s: &'static str)
        ensures
            s@ == self.locale(),
    {
        match self {
            StaticFile::SetupWifiDe => "de",
            _ => DEFAULT_LOCALE,
        }
    }

    pub fn mime_type(&self) -> (s: &'static str)
        ensures
            s@ == self.kind(),
    {
        match self {
            StaticFile::SetupWifiEn => "text/html",
            StaticFile::SetupWifiDe => "text/html",
            StaticFile::Styles => "text/css",
            StaticFile::Favicon => "image/x-icon",
            StaticFile::Background => "image/webp",
        }
    }
}

/// The files that are served, in the order in which they are looked at.
pub open spec fn static_files() -> Seq<StaticFile> {
    seq![
        StaticFile::SetupWifiEn,
        StaticFile::SetupWifiDe,
        StaticFile::Styles,
        StaticFile::Favicon,
        StaticFile::Background,
    ]
}

/// The first file with a path and a locale, from `k` on.
pub open spec fn first_file(path: Seq<char>, locale: Seq<char>, k: nat) -> Option<StaticFile>
    decreases static_files().len() - k,
{
    if k >= static_files().len() {
        None
    } else if static_files()[k as int].path() == path && static_files()[k as int].locale()
        == locale {
        Some(static_files()[k as int])
    } else {
        first_file(path, locale, k + 1)
    }
}

/// The file with a path, in a language if there is one in that language, else in the default one.
pub open spec fn file_for(path: Seq<char>, locale: Option<Seq<char>>) -> Option<StaticFile> {
    let wanted = match locale {
        Some(l) => l,
        None => DEFAULT_LOCALE@,
    };
    match first_file(path, wanted, 0) {
        Some(f) => Some(f),
        None => first_file(path, DEFAULT_LOCALE@, 0),
    }
}

fn find_file(path: &str, locale: &str) -> (r: Option<StaticFile>)
    ensures
        r == first_file(path@, locale@, 0),
{
    let files = [
        StaticFile::SetupWifiEn,
        StaticFile::SetupWifiDe,
        StaticFile::Styles,
        StaticFile::Favicon,
        StaticFile::Background,
    ];
    assert(files@ =~= static_files());
    let mut i: usize = 0;
    while i < 5
        invariant
            i <= 5,
            files@ == static_files(),
            first_file(path@, locale@, i as nat) == first_file(path@, locale@, 0),
        decreases 5 - i,
    {
        let file = files[i];
        if text::same_text(file.path_str(), path) && text::same_text(file.locale_str(), locale) {
            return Some(file);
        }
        i = i + 1;
    }
    None
}

/// The file with a path, in a language if there is one in that language, else in the default one.
pub fn get_static_file_with_locale(path: &str, locale: Option<&str>) -> (r: Option<StaticFile>)
    ensures
        r == file_for(
            path@,
            match locale {
                Some(l) => Some(l@),
                None => None,
            },
        ),
{
    let wanted = match locale {
        Some(l) => l,
        None => DEFAULT_LOCALE,
    };
    match find_file(path, wanted) {
        Some(file) => Some(file),
        None => find_file(path, DEFAULT_LOCALE),
    }
}

/// Every file is found whatever language is asked for; what is found is a file of that path, in the
/// language that was asked for or in the default one.
pub proof fn lemma_files_in_every_language(path: Seq<char>, locale: Option<Seq<char>>)
    ensures
        file_for(path, locale) is Some <==> exists|k: int|
            0 <= k < static_files().len() && path == (#[trigger] static_files()[k]).path(),
        file_for(path, locale) matches Some(f) ==> f.path() == path && (Some(f.locale()) == locale
            || f.locale() == DEFAULT_LOCALE@),
{
    reveal_with_fuel(first_file, 6);
    let files = static_files();
    assert(files[0].path() == files[1].path());
    if let Some(f) = file_for(path, locale) {
        assert(exists|k: int| 0 <= k < files.len() && path == (#[trigger] files[k]).path());
    }
}

// ---------------------------------------------------------------------------------------------
// Responses
// ---------------------------------------------------------------------------------------------

/// What is sent to the client.
#[derive(Debug, Copy, Clone, PartialEq, Eq, Structural)]
pub enum Content {
    Empty,
    File(StaticFile),
    /// That a token is missing.
    MissingToken,
    /// The networks that were found.
    Networks,
}

/// A response.
#[derive(Debug, Copy, Clone, PartialEq, Eq, Structural)]
pub struct Response {
    pub status_code: u16,
    pub content: Content,
    /// The file whose kind is announced, if one is.
    pub announced: Option<StaticFile>,
}

/// A response without content.
pub open spec fn spec_status(status_code: u16) -> Response {
    Response { status_code, content: Content::Empty, announced: None }
}

fn status(status_code: u16) -> (r: Response)
    ensures
        r == spec_status(status_code),
{
    Response { status_code, content: Content::Empty, announced: None }
}

/// The words that go with a status code that is sent.
pub open spec fn words_of(status_code: u16) -> Seq<char> {
    if status_code == 200 {
        "OK"@
    } else if status_code == 401 {
        "Unauthorized"@
    } else if status_code == 404 {
        "Not Found"@
    } else if status_code == 405 {
        "Method Not Allowed"@
    } else {
        "Internal Server Error"@
    }
}

impl Response {
    /// The words that go with the status code.
    pub fn status_message(&self) -> (s: &'static str)
        ensures
            s@ == words_of(self.status_code),
    {
        if self.status_code == 200 {
            "OK"
        } else if self.status_code == 401 {
            "Unauthorized"
        } else if self.status_code == 404 {
            "Not Found"
        } else if self.status_code == 405 {
            "Method Not Allowed"
        } else {
            "Internal Server Error"
        }
    }

    /// The kind of content that is announced, if any.
    pub open spec fn announced_kind(self) -> Option<Seq<char>> {
        match self.content {
            Content::Networks => Some("application/json"@),
            _ => match self.announced {
                Some(file) => Some(file.kind()),
                None => None,
            },
        }
    }

    pub fn mime_type(&self) -> (r: Option<&'static str>)
        ensures
            match r {
                Some(s) => self.announced_kind() == Some(s@),
                None => self.announced_kind() is None,
            },
    {
        match self.content {
            Content::Networks => Some("application/json"),
            _ => match self.announced {
                Some(file) => Some(file.mime_type()),
                None => None,
            },
        }
    }
}

/// What is sent if a token is missing.
pub const MISSING_TOKEN: &'static str = "Unauthorized: Missing token";

/// The headers of a response.
pub fn response_headers(content_length: usize, mime_type: Option<&str>) -> (r: Vec<(String, String)>)
    ensures
        r@.len() == if mime_type is Some { 2int } else { 1 },
        http::is_header(r@[0], "Content-Length"@, text::decimal_text(content_length as nat)),
        mime_type matches Some(mime) ==> http::is_header(r@[1], "Content-Type"@, mime@),
{
    let mut length = String::new();
    text::append_number(&mut length, content_length as u64);
    assert(length@ =~= text::decimal_text(content_length as nat));
    let mut r: Vec<(String, String)> = Vec::new();
    r.push(("Content-Length".to_owned(), length));
    if let Some(mime) = mime_type {
        r.push(("Content-Type".to_owned(), mime.to_owned()));
    }
    r
}

// ---------------------------------------------------------------------------------------------
// Routes
// ---------------------------------------------------------------------------------------------

/// How a client asks.
#[derive(Debug, Copy, Clone, PartialEq, Eq, Structural)]
pub enum Method {
    Get,
    Head,
    Post,
    Other,
}

/// What is to be done for a request.
#[derive(Debug, Copy, Clone, PartialEq, Eq, Structural)]
pub enum Action {
    /// Nothing is sent.
    Ignore,
    Respond(Response),
    /// Show which device it is.
    Identify,
    /// Look for networks.
    Scan,
    /// Connect to a network.
    Connect,
}

/// What is to be done for a request.
pub open spec fn action_for(method: Method, path: Seq<char>, locale: Option<Seq<char>>) -> Action {
    match method {
        Method::Get => match file_for(path, locale) {
            Some(file) => Action::Respond(
                Response { status_code: 200, content: Content::File(file), announced: Some(file) },
            ),
            None => Action::Ignore,
        },
        Method::Head => match file_for(path, locale) {
            Some(file) => Action::Respond(
                Response { status_code: 200, content: Content::Empty, announced: Some(file) },
            ),
            None => Action::Ignore,
        },
        Method::Post => if path == "/api/identify"@ {
            Action::Identify
        } else if path == "/api/scan-wifi"@ {
            Action::Scan
        } else if path == "/api/connect-wifi"@ {
            Action::Connect
        } else {
            Action::Respond(spec_status(404))
        },
        Method::Other => Action::Respond(spec_status(405)),
    }
}

/// Decides what is to be done for a request.
pub fn handle(method: Method, target: &Target) -> (a: Action)
    requires
        target.query_pairs@.len() <= MAX_QUERY_PAIRS,
    ensures
        a == action_for(
            method,
            target.path@,
            value_of(pair_texts(target.query_pairs@), "lang"@, 0),
        ),
{
    let locale = find_value(&target.query_pairs, "lang");
    let path = target.path.as_str();
    let wanted = match &locale {
        Some(l) => Some(l.as_str()),
        None => None,
    };
    match method {
        Method::Get => match get_static_file_with_locale(path, wanted) {
            Some(file) => Action::Respond(
                Response { status_code: 200, content: Content::File(file), announced: Some(file) },
            ),
            None => Action::Ignore,
        },
        Method::Head => match get_static_file_with_locale(path, wanted) {
            Some(file) => Action::Respond(
                Response { status_code: 200, content: Content::Empty, announced: Some(file) },
            ),
            None => Action::Ignore,
        },
        Method::Post => if text::same_text(path, "/api/identify") {
            Action::Identify
        } else if text::same_text(path, "/api/scan-wifi") {
            Action::Scan
        } else if text::same_text(path, "/api/connect-wifi") {
            Action::Connect
        } else {
            Action::Respond(status(404))
        },
        Method::Other => Action::Respond(status(405)),
    }
}

/// Shows which device it is.
pub fn handle_api_route_identify(leds: &mut Vec<RGB8>, fx: &mut Effects) -> (r: Response)
    ensures
        r == spec_status(200),
        final(leds)@ == old(leds)@,
        final(fx)@ == old(fx)@ + leds::pixels_effects(LedPixels::Identify),
{
    leds::set_pixels(LedPixels::Identify, leds, fx);
    status(200)
}

// ---------------------------------------------------------------------------------------------
// Looking for networks
// ---------------------------------------------------------------------------------------------

/// Most networks that are told to the client.
pub const MAX_NETWORKS: usize = 16;

/// A network that was found.
#[derive(Debug)]
pub struct AccessPoint {
    pub ssid: String,
    pub signal_strength: i8,
    /// Whether it can be joined without a password, if that is known.
    pub is_open: Option<bool>,
}

/// A network as it is told to the client.
#[derive(Debug)]
pub struct AccessPointInfoApi {
    pub ssid: String,
    pub rssi: i8,
    pub open: u8,
}

/// What is told of a network: its name, unless that is too long, its strength, and whether it is
/// known to be open.
pub open spec fn told(ap: AccessPoint) -> (Seq<char>, i8, u8) {
    (
        if vstd::utf8::encode_utf8(ap.ssid@).len() <= persist::WIFI_SSID_MAX_LEN {
            ap.ssid@
        } else {
            Seq::empty()
        },
        ap.signal_strength,
        if ap.is_open == Some(true) {
            1
        } else {
            0
        },
    )
}

/// The networks that were found, as they are told.
pub open spec fn all_told(list: Seq<AccessPoint>) -> Seq<(Seq<char>, i8, u8)> {
    list.map_values(|ap: AccessPoint| told(ap))
}

/// Networks as they are told.
pub open spec fn api_view(list: Seq<AccessPointInfoApi>) -> Seq<(Seq<char>, i8, u8)> {
    list.map_values(|ap: AccessPointInfoApi| (ap.ssid@, ap.rssi, ap.open))
}

/// The strength of a network.
pub open spec fn strength(ap: (Seq<char>, i8, u8)) -> i8 {
    let (_, rssi, _) = ap;
    rssi
}

/// How many networks at the begin of a list are at least as strong as `rssi`.
pub open spec fn stronger(list: Seq<(Seq<char>, i8, u8)>, rssi: i8, k: nat) -> nat
    decreases list.len() - k,
{
    if k >= list.len() || strength(list[k as int]) < rssi {
        k
    } else {
        stronger(list, rssi, k + 1)
    }
}

/// A list with a network put behind those that are at least as strong.
pub open spec fn put(list: Seq<(Seq<char>, i8, u8)>, ap: (Seq<char>, i8, u8)) -> Seq<
    (Seq<char>, i8, u8),
> {
    list.insert(stronger(list, strength(ap), 0) as int, ap)
}

/// Networks, the strongest first; of equally strong ones, those that were found first.
pub open spec fn by_signal(list: Seq<(Seq<char>, i8, u8)>) -> Seq<(Seq<char>, i8, u8)>
    decreases list.len(),
{
    if list.len() == 0 {
        Seq::empty()
    } else {
        put(by_signal(list.drop_last()), list.last())
    }
}

/// The networks that are told to the client: the strongest ones.
pub open spec fn networks_told(list: Seq<AccessPoint>) -> Seq<(Seq<char>, i8, u8)> {
    let sorted = by_signal(all_told(list));
    if sorted.len() > MAX_NETWORKS {
        sorted.take(MAX_NETWORKS as int)
    } else {
        sorted
    }
}

/// The networks of a list that have a strength.
pub open spec fn of_strength(list: Seq<(Seq<char>, i8, u8)>, rssi: i8) -> Seq<(Seq<char>, i8, u8)> {
    list.filter(|ap: (Seq<char>, i8, u8)| strength(ap) == rssi)
}

proof fn lemma_stronger(list: Seq<(Seq<char>, i8, u8)>, rssi: i8, k: nat)
    requires
        k <= list.len(),
    ensures
        k <= stronger(list, rssi, k) <= list.len(),
        forall|i: int| k <= i < stronger(list, rssi, k) ==> strength(#[trigger] list[i]) >= rssi,
        stronger(list, rssi, k) < list.len() ==> strength(list[stronger(list, rssi, k) as int])
            < rssi,
    decreases list.len() - k,
{
    if k < list.len() && strength(list[k as int]) >= rssi {
        lemma_stronger(list, rssi, k + 1);
    }
}

/// Networks are told the strongest first, none is lost or made up, and of equally strong ones those
/// come first that were found first.
pub proof fn lemma_networks_by_signal(list: Seq<(Seq<char>, i8, u8)>)
    ensures
        by_signal(list).len() == list.len(),
        forall|i: int, j: int|
            0 <= i <= j < list.len() ==> strength(#[trigger] by_signal(list)[i]) >= strength(
                #[trigger] by_signal(list)[j],
            ),
        by_signal(list).to_multiset() == list.to_multiset(),
        forall|rssi: i8| #[trigger] of_strength(by_signal(list), rssi) == of_strength(list, rssi),
    decreases list.len(),
{
    if list.len() == 0 {
        assert(list =~= Seq::empty());
    } else {
        let before = by_signal(list.drop_last());
        let ap = list.last();
        let p = stronger(before, strength(ap), 0) as int;
        lemma_networks_by_signal(list.drop_last());
        lemma_stronger(before, strength(ap), 0);
        before.insert_ensures(p, ap);
        let after = by_signal(list);
        assert(after == before.insert(p, ap));
        assert forall|i: int, j: int| 0 <= i <= j < list.len() implies strength(
            #[trigger] after[i],
        ) >= strength(#[trigger] after[j]) by {
            let bi = if i < p { i } else { i - 1 };
            let bj = if j < p { j } else { j - 1 };
            if i != p && j != p {
                assert(after[i] == before[bi]);
                assert(after[j] == before[bj]);
            } else if i == p && j > p {
                assert(after[j] == before[bj]);
                assert(strength(before[p]) >= strength(before[bj]));
            } else if i < p && j == p {
                assert(after[i] == before[i]);
            }
        }
        assert(list =~= list.drop_last().push(ap));
        list.drop_last().to_multiset_ensures();
        assert(list.to_multiset() == list.drop_last().to_multiset().insert(ap));
        let (front, back) = (before.take(p), before.skip(p));
        assert(after =~= front.push(ap) + back);
        assert(before =~= front + back);
        front.to_multiset_ensures();
        vstd::seq_lib::lemma_multiset_commutative(front, back);
        vstd::seq_lib::lemma_multiset_commutative(front.push(ap), back);
        assert(after.to_multiset() =~= list.to_multiset());
        assert forall|rssi: i8| #[trigger] of_strength(after, rssi) == of_strength(list, rssi) by {
            lemma_strength_kept(before, ap, p, rssi);
            let f = |a: (Seq<char>, i8, u8)| strength(a) == rssi;
            assert(of_strength(before, rssi) == of_strength(list.drop_last(), rssi));
            lemma_filter_push(list.drop_last(), ap, f);
        }
    }
}

proof fn lemma_filter_push(
    list: Seq<(Seq<char>, i8, u8)>,
    ap: (Seq<char>, i8, u8),
    f: spec_fn((Seq<char>, i8, u8)) -> bool,
)
    ensures
        list.push(ap).filter(f) == if f(ap) {
            list.filter(f).push(ap)
        } else {
            list.filter(f)
        },
{
    reveal(Seq::filter);
    assert(list.push(ap).drop_last() =~= list);
}

/// Behind those that are at least as strong there is none of the same strength.
proof fn lemma_strength_kept(
    before: Seq<(Seq<char>, i8, u8)>,
    ap: (Seq<char>, i8, u8),
    p: int,
    rssi: i8,
)
    requires
        p == stronger(before, strength(ap), 0),
        forall|i: int, j: int|
            0 <= i <= j < before.len() ==> strength(#[trigger] before[i]) >= strength(
                #[trigger] before[j],
            ),
    ensures
        of_strength(before.insert(p, ap), rssi) == if strength(ap) == rssi {
            of_strength(before, rssi).push(ap)
        } else {
            of_strength(before, rssi)
        },
{
    lemma_stronger(before, strength(ap), 0);
    let f = |a: (Seq<char>, i8, u8)| strength(a) == rssi;
    let (front, back) = (before.take(p), before.skip(p));
    assert(before.insert(p, ap) =~= front.push(ap) + back);
    assert(before =~= front + back);
    Seq::filter_distributes_over_add(front.push(ap), back, f);
    Seq::filter_distributes_over_add(front, back, f);
    lemma_filter_push(front, ap, f);
    if strength(ap) == rssi {
        assert forall|i: int| 0 <= i < back.len() implies !f(#[trigger] back[i]) by {
            assert(back[i] == before[p + i]);
            assert(strength(before[p]) >= strength(before[p + i]));
        }
        lemma_filter_none(back, f);
        assert(front.filter(f).push(ap) + back.filter(f) =~= (front.filter(f) + back.filter(
            f,
        )).push(ap));
    }
}

proof fn lemma_filter_none(
    list: Seq<(Seq<char>, i8, u8)>,
    f: spec_fn((Seq<char>, i8, u8)) -> bool,
)
    requires
        forall|i: int| 0 <= i < list.len() ==> !f(#[trigger] list[i]),
    ensures
        list.filter(f) == Seq::<(Seq<char>, i8, u8)>::empty(),
    decreases list.len(),
{
    reveal(Seq::filter);
    if list.len() > 0 {
        assert(!f(list[list.len() - 1]));
        lemma_filter_none(list.drop_last(), f);
    }
}

fn tell(ap: &AccessPoint) -> (r: AccessPointInfoApi)
    ensures
        (r.ssid@, r.rssi, r.open) == told(*ap),
{
    let ssid = match bounded::string_of_capacity::<32>(ap.ssid.as_str()) {
        Some(s) => s,
        None => String::new(),
    };
    assert(vstd::utf8::encode_utf8(ap.ssid@).len() > 32 ==> ssid@ =~= Seq::<char>::empty());
    let open: u8 = match ap.is_open {
        Some(true) => 1,
        _ => 0,
    };
    AccessPointInfoApi { ssid, rssi: ap.signal_strength, open }
}

/// The networks that are told to the client.
pub fn list_networks(list: &Vec<AccessPoint>) -> (r: Vec<AccessPointInfoApi>)
    ensures
        api_view(r@) == networks_told(list@),
        r@.len() <= MAX_NETWORKS,
{
    let ghost all = all_told(list@);
    let mut r: Vec<AccessPointInfoApi> = Vec::new();
    let mut i: usize = 0;
    assert(all.take(0) =~= Seq::empty());
    assert(api_view(r@) =~= Seq::empty());
    while i < list.len()
        invariant
            i <= list@.len(),
            all == all_told(list@),
            all.len() == list@.len(),
            api_view(r@) == by_signal(all.take(i as int)),
        decreases list@.len() - i,
    {
        let ap = tell(&list[i]);
        let ghost plain = api_view(r@);
        let ghost item = told(list@[i as int]);
        proof {
            lemma_stronger(plain, ap.rssi, 0);
        }
        let mut k: usize = 0;
        while k < r.len() && r[k].rssi >= ap.rssi
            invariant
                k <= r@.len(),
                plain == api_view(r@),
                plain.len() == r@.len(),
                stronger(plain, ap.rssi, k as nat) == stronger(plain, ap.rssi, 0),
            decreases r@.len() - k,
        {
            assert(strength(plain[k as int]) == r@[k as int].rssi);
            k = k + 1;
        }
        proof {
            if k < r@.len() {
                assert(strength(plain[k as int]) == r@[k as int].rssi);
            }
        }
        r.insert(k, ap);
        proof {
            assert(all[i as int] == item);
            assert(api_view(r@) =~= plain.insert(k as int, item));
            assert(all.take(i + 1).drop_last() =~= all.take(i as int));
        }
        i = i + 1;
    }
    assert(all.take(i as int) =~= all);
    let ghost sorted = api_view(r@);
    if r.len() > MAX_NETWORKS {
        r.truncate(MAX_NETWORKS);
        assert(api_view(r@) =~= sorted.take(MAX_NETWORKS as int));
    }
    r
}

/// The response to a request for the networks.
pub fn scan_response(found: bool) -> (r: Response)
    ensures
        r == (if found {
            Response { status_code: 200, content: Content::Networks, announced: None }
        } else {
            spec_status(500)
        }),
{
    if found {
        Response { status_code: 200, content: Content::Networks, announced: None }
    } else {
        status(500)
    }
}

// ---------------------------------------------------------------------------------------------
// Connecting to a network
// ---------------------------------------------------------------------------------------------

/// Credentials for a network.
#[derive(Debug)]
pub struct ConnectWifiRequestApi {
    pub ssid: String,
    pub password: String,
}

/// Refuses a request to connect without a token.
pub fn check_token(token: &Option<String>) -> (r: Option<Response>)
    ensures
        r == (if token is Some {
            None::<Response>
        } else {
            Some(
                Response { status_code: 401, content: Content::MissingToken, announced: None },
            )
        }),
{
    if token.is_none() {
        Some(Response { status_code: 401, content: Content::MissingToken, announced: None })
    } else {
        None
    }
}

/// Starts to connect to a network, unless the device is connected to one: then it is done.
pub fn begin_connect(is_connected: bool, fx: &mut Effects) -> (r: Option<Response>)
    ensures
        r == (if is_connected {
            Some(spec_status(200))
        } else {
            None::<Response>
        }),
        final(fx)@ == (if is_connected {
            old(fx)@.push(Effect::WifiSignal(WifiNetEvent::FinishProvisioning))
        } else {
            old(fx)@ + leds::status_effects(LedStatus::ConnectingWifi)
        }),
{
    if is_connected {
        wifi_net::finish_provisioning(fx);
        Some(status(200))
    } else {
        leds::set_status(LedStatus::ConnectingWifi, fx);
        None
    }
}

/// The response if the network hardware does not take the credentials.
pub fn configure_failed() -> (r: Response)
    ensures
        r == spec_status(500),
{
    status(500)
}

/// Whether settings hold other credentials than those of a request.
pub open spec fn has_other_credentials(
    s: PersistSettings,
    request: ConnectWifiRequestApi,
    token: Option<String>,
) -> bool {
    persist::text(s.wifi_ssid) != Some(request.ssid@) || persist::text(s.wifi_password) != Some(
        request.password@,
    ) || persist::text(s.prov_token) != persist::text(token)
}

/// Settings with the credentials of a request.
pub open spec fn with_credentials(
    s: PersistSettings,
    request: ConnectWifiRequestApi,
    token: Option<String>,
) -> PersistSettings {
    PersistSettings {
        wifi_ssid: Some(request.ssid),
        wifi_password: Some(request.password),
        prov_token: token,
        ..s
    }
}

/// Ends an attempt to connect: after a success the device keeps the credentials.
pub fn end_connect(
    connected: bool,
    request: ConnectWifiRequestApi,
    token: Option<String>,
    settings: &mut PersistSettings,
    fx: &mut Effects,
) -> (r: Response)
    requires
        vstd::utf8::encode_utf8(request.ssid@).len() <= persist::WIFI_SSID_MAX_LEN,
        vstd::utf8::encode_utf8(request.password@).len() <= persist::SECRET_MAX_LEN,
        persist::fits(token, persist::SECRET_MAX_LEN as int),
    ensures
        if connected {
            &&& r == spec_status(200)
            &&& *final(settings) == with_credentials(*old(settings), request, token)
            &&& final(fx)@ == persist::stored_if(
                old(fx)@,
                has_other_credentials(*old(settings), request, token),
            ).push(Effect::WifiSignal(WifiNetEvent::FinishProvisioning))
        } else {
            &&& r == spec_status(500)
            &&& *final(settings) == *old(settings)
            &&& final(fx)@ == old(fx)@ + leds::status_effects(LedStatus::WifiError)
        },
        old(settings).wf() ==> final(settings).wf(),
{
    if !connected {
        leds::set_status(LedStatus::WifiError, fx);
        return status(500);
    }
    let ssid = Some(request.ssid);
    let password = Some(request.password);
    let changed = !persist::same_text(&settings.wifi_ssid, &ssid) || !persist::same_text(
        &settings.wifi_password,
        &password,
    ) || !persist::same_text(&settings.prov_token, &token);
    settings.wifi_ssid = ssid;
    settings.wifi_password = password;
    settings.prov_token = token;
    let _ = persist::note_update(changed, fx);
    wifi_net::finish_provisioning(fx);
    status(200)
}

// ---------------------------------------------------------------------------------------------
// Laws
// ---------------------------------------------------------------------------------------------

/// A key and a value are what stands before and behind the first equals sign: put together again
/// they are the part, and the key has no equals sign in it. A part without one is no pair.
pub proof fn lemma_pair(part: Seq<char>)
    ensures
        match pair_of(part) {
            Some((key, value)) => part == key + seq!['='] + value && !key.contains('='),
            None => !part.contains('='),
        },
{
    text::lemma_position(part, '=', 0);
    let p = text::position(part, '=', 0) as int;
    if p < part.len() {
        assert(part =~= part.take(p) + seq!['='] + part.skip(p + 1));
    }
}

/// Pairs come in the order of the parts that they are in, and parts that are none are left out.
pub proof fn lemma_pairs_in_order(parts: Seq<Seq<char>>, part: Seq<char>)
    ensures
        pairs_of(Seq::empty()).len() == 0,
        pair_of(part) matches Some(pair) ==> pairs_of(parts.push(part)) == pairs_of(parts).push(
            pair,
        ),
        pair_of(part) is None ==> pairs_of(parts.push(part)) == pairs_of(parts),
{
    assert(parts.push(part).drop_last() =~= parts);
}

/// The path of a request is what stands before the first question mark, and its query what stands
/// between that and the next. Without a question mark all is the path.
pub proof fn lemma_path_and_query(path: Seq<char>, query: Seq<char>, rest: Seq<char>)
    requires
        !path.contains('?'),
        !query.contains('?'),
    ensures
        path_of(path) == path,
        query_of(path).len() == 0,
        path_of(path + seq!['?'] + query) == path,
        query_of(path + seq!['?'] + query) == query,
        path_of(path + seq!['?'] + (query + seq!['?'] + rest)) == path,
        query_of(path + seq!['?'] + (query + seq!['?'] + rest)) == query,
{
    text::lemma_split_at_first(path, query, '?');
    text::lemma_split_at_first(query, rest, '?');
    text::lemma_split_at_first(path, query + seq!['?'] + rest, '?');
}

/// The value of a key is that of the first pair with it. There is none exactly if no pair has it.
pub proof fn lemma_value_of_key(pairs: Seq<(Seq<char>, Seq<char>)>, key: Seq<char>, k: nat)
    ensures
        match value_of(pairs, key, k) {
            Some(value) => exists|i: int|
                k <= i < pairs.len() && (#[trigger] pairs[i]) == (key, value) && forall|j: int|
                    k <= j < i ==> (#[trigger] pairs[j]).0 != key,
            None => forall|j: int| k <= j < pairs.len() ==> (#[trigger] pairs[j]).0 != key,
        },
    decreases pairs.len() - k,
{
    if k < pairs.len() {
        if pairs[k as int].0 != key {
            lemma_value_of_key(pairs, key, k + 1);
            if let Some(value) = value_of(pairs, key, k + 1) {
                let i = choose|i: int|
                    k + 1 <= i < pairs.len() && (#[trigger] pairs[i]) == (key, value) && forall|
                        j: int,
                    |
                        k + 1 <= j < i ==> (#[trigger] pairs[j]).0 != key;
                assert(pairs[i] == (key, value));
            }
        } else {
            assert(pairs[k as int] == (key, pairs[k as int].1));
        }
    }
}

/// The token of a request is the value of its key, unless that takes more than 64 bytes: then it is
/// empty. A request without the key has none.
pub proof fn lemma_token(pairs: Seq<(Seq<char>, Seq<char>)>)
    ensures
        ({
            let given = value_of(pairs, seq!['t', 'o', 'k'], 0);
            &&& given is None ==> token_of(pairs) is None
            &&& given matches Some(value) ==> {
                &&& vstd::utf8::encode_utf8(value).len() <= 64 ==> token_of(pairs) == Some(value)
                &&& vstd::utf8::encode_utf8(value).len() > 64 ==> token_of(pairs) == Some(
                    Seq::<char>::empty(),
                )
            }
        }),
{
    reveal_strlit("tok");
    assert("tok"@ =~= seq!['t', 'o', 'k']);
}

/// The page for the setup comes in German to those who ask for it, and in English to all others.
/// The other files come whatever language is asked for, and nothing else comes.
pub proof fn lemma_files_served(path: Seq<char>, locale: Option<Seq<char>>)
    ensures
        file_for(path, locale) == (if path == "/setup-wifi"@ {
            if locale == Some("de"@) {
                Some(StaticFile::SetupWifiDe)
            } else {
                Some(StaticFile::SetupWifiEn)
            }
        } else if path == "/styles.css"@ {
            Some(StaticFile::Styles)
        } else if path == "/favicon.ico"@ {
            Some(StaticFile::Favicon)
        } else if path == "/background.webp"@ {
            Some(StaticFile::Background)
        } else {
            None
        }),
{
    reveal_with_fuel(first_file, 6);
    reveal_strlit("/setup-wifi");
    reveal_strlit("/styles.css");
    reveal_strlit("/favicon.ico");
    reveal_strlit("/background.webp");
    reveal_strlit("en");
    reveal_strlit("de");
    assert("/setup-wifi"@[2] == 'e' && "/styles.css"@[2] == 't');
    assert("/favicon.ico"@[1] == 'f' && "/favicon.ico"@.len() == 12);
    assert("/setup-wifi"@.len() == 11 && "/styles.css"@.len() == 11);
    assert("/background.webp"@.len() == 16);
    assert("en"@[0] == 'e' && "de"@[0] == 'd');
}

/// A request for a file is answered with it, and one for its head with the same, but for the
/// content; one for a file that there is not is passed over. What is posted goes by its path, and
/// to another path it is not found. No other method is allowed.
pub proof fn lemma_requests(path: Seq<char>, locale: Option<Seq<char>>)
    ensures
        file_for(path, locale) is None ==> action_for(Method::Get, path, locale) == Action::Ignore
            && action_for(Method::Head, path, locale) == Action::Ignore,
        file_for(path, locale) matches Some(file) ==> {
            &&& action_for(Method::Get, path, locale) matches Action::Respond(r) && r.status_code
                == 200 && r.content == Content::File(file) && r.announced == Some(file)
            &&& action_for(Method::Head, path, locale) matches Action::Respond(r) && r.status_code
                == 200 && r.content == Content::Empty && r.announced == Some(file)
        },
        action_for(Method::Post, "/api/identify"@, locale) == Action::Identify,
        action_for(Method::Post, "/api/scan-wifi"@, locale) == Action::Scan,
        action_for(Method::Post, "/api/connect-wifi"@, locale) == Action::Connect,
        path != "/api/identify"@ && path != "/api/scan-wifi"@ && path != "/api/connect-wifi"@ ==> (
        action_for(Method::Post, path, locale) matches Action::Respond(r) && r.status_code == 404
            && r.content == Content::Empty),
        action_for(Method::Other, path, locale) matches Action::Respond(r) && r.status_code == 405
            && r.content == Content::Empty,
{
    reveal_strlit("/api/identify");
    reveal_strlit("/api/scan-wifi");
    reveal_strlit("/api/connect-wifi");
    assert("/api/identify"@.len() == 13 && "/api/scan-wifi"@.len() == 14);
    assert("/api/connect-wifi"@.len() == 17);
}

/// The networks told to the client are sixteen at most, all that there are if these are fewer, and
/// come the strongest first. Each is one that was found, with its name, if that fits, its strength
/// and whether it is known to be open; and none that is left out is stronger than one that is told.
pub proof fn lemma_networks_told(list: Seq<AccessPoint>)
    ensures
        ({
            let t = networks_told(list);
            &&& t.len() == (if list.len() <= 16 {
                list.len()
            } else {
                16
            })
            &&& forall|i: int, j: int|
                0 <= i <= j < t.len() ==> (#[trigger] t[i]).1 >= (#[trigger] t[j]).1
            &&& forall|i: int|
                0 <= i < t.len() ==> exists|k: int|
                    0 <= k < list.len() && is_told(#[trigger] list[k], #[trigger] t[i])
            &&& forall|k: int|
                0 <= k < list.len() ==> {
                    ||| exists|i: int| 0 <= i < t.len() && is_told(list[k], #[trigger] t[i])
                    ||| t.len() == 16 && (#[trigger] list[k]).signal_strength <= t[15].1
                }
        }),
{
    let all = all_told(list);
    let sorted = by_signal(all);
    let t = networks_told(list);
    lemma_networks_by_signal(all);
    sorted.to_multiset_ensures();
    all.to_multiset_ensures();
    assert forall|i: int, j: int| 0 <= i <= j < t.len() implies (#[trigger] t[i]).1 >= (
    #[trigger] t[j]).1 by {
        assert(t[i] == sorted[i] && t[j] == sorted[j]);
        assert(strength(sorted[i]) >= strength(sorted[j]));
    }
    assert forall|i: int| 0 <= i < t.len() implies exists|k: int|
        0 <= k < list.len() && is_told(#[trigger] list[k], #[trigger] t[i]) by {
        assert(t[i] == sorted[i]);
        assert(sorted.contains(sorted[i]));
        assert(sorted.to_multiset().count(sorted[i]) > 0);
        assert(all.contains(sorted[i]));
        let k = all.index_of(sorted[i]);
        assert(all[k] == told(list[k]));
        assert(is_told(list[k], t[i]));
    }
    assert forall|k: int| 0 <= k < list.len() implies ((exists|i: int|
        0 <= i < t.len() && is_told(list[k], #[trigger] t[i])) || (t.len() == 16 && (
    #[trigger] list[k]).signal_strength <= t[15].1)) by {
        assert(all[k] == told(list[k]));
        assert(all.contains(all[k]));
        assert(all.to_multiset().count(all[k]) > 0);
        assert(sorted.contains(all[k]));
        let i = sorted.index_of(all[k]);
        if i < t.len() {
            assert(t[i] == sorted[i]);
            assert(is_told(list[k], t[i]));
        } else {
            assert(strength(sorted[15]) >= strength(sorted[i]));
            assert(t[15] == sorted[15]);
        }
    }
}

/// Whether `t` is what is told of a network.
pub open spec fn is_told(ap: AccessPoint, t: (Seq<char>, i8, u8)) -> bool {
    let (ssid, rssi, open) = t;
    &&& vstd::utf8::encode_utf8(ap.ssid@).len() <= 32 ==> ssid == ap.ssid@
    &&& vstd::utf8::encode_utf8(ap.ssid@).len() > 32 ==> ssid.len() == 0
    &&& rssi == ap.signal_strength
    &&& ap.is_open == Some(true) ==> open == 1
    &&& ap.is_open != Some(true) ==> open == 0
}

/// The credentials of a request take the place of those in the settings, and nothing else changes.
/// They are others exactly if one of the three texts changes.
pub proof fn lemma_credentials_taken(
    s: PersistSettings,
    request: ConnectWifiRequestApi,
    token: Option<String>,
)
    ensures
        ({
            let after = with_credentials(s, request, token);
            &&& persist::text(after.wifi_ssid) == Some(request.ssid@)
            &&& persist::text(after.wifi_password) == Some(request.password@)
            &&& persist::text(after.prov_token) == persist::text(token)
            &&& after == (PersistSettings {
                wifi_ssid: after.wifi_ssid,
                wifi_password: after.wifi_password,
                prov_token: after.prov_token,
                ..s
            })
            &&& has_other_credentials(s, request, token) <==> !(persist::text(s.wifi_ssid)
                == persist::text(after.wifi_ssid) && persist::text(s.wifi_password)
                == persist::text(after.wifi_password) && persist::text(s.prov_token)
                == persist::text(after.prov_token))
        }),
{
}

/// Each status code that is sent has its words, a file is announced as of its kind and the networks
/// as data, and a response without content announces nothing.
pub proof fn lemma_responses(r: Response, file: StaticFile)
    ensures
        words_of(200) == "OK"@,
        words_of(401) == "Unauthorized"@,
        words_of(404) == "Not Found"@,
        words_of(405) == "Method Not Allowed"@,
        words_of(500) == "Internal Server Error"@,
        r.content == Content::Networks ==> r.announced_kind() == Some("application/json"@),
        r.content != Content::Networks && r.announced == Some(file) ==> r.announced_kind() == Some(
            match file {
                StaticFile::SetupWifiEn | StaticFile::SetupWifiDe => "text/html"@,
                StaticFile::Styles => "text/css"@,
                StaticFile::Favicon => "image/x-icon"@,
                StaticFile::Background => "image/webp"@,
            },
        ),
        r.content != Content::Networks && r.announced is None ==> r.announced_kind() is None,
        spec_status(r.status_code).status_code == r.status_code,
        spec_status(r.status_code).content == Content::Empty,
        spec_status(r.status_code).announced is None,
{
}

} // verus!
