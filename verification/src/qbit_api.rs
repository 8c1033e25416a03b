//! What the library knows of qBittorrent's Web API: torrents and trackers
//! as it reports them, the limits it accepts, and how its replies read.
use vstd::prelude::*;
use vstd::string::*;
use crate::text::{trim, trimmed};
use reqwest::Url;

verus! {

/// A torrent as qBittorrent reports it. The download progress, a
/// floating-point number, is held as whether it has reached 1.
pub struct Torrent {
    pub added_on: Option<i64>,
    pub auto_tmm: Option<bool>,
    pub category: Option<String>,
    pub hash: Option<String>,
    pub name: Option<String>,
    pub num_complete: Option<i64>,
    pub fully_downloaded: bool,
    pub seeding_time: Option<i64>,
    pub seeding_time_limit: Option<i64>,
    pub state: Option<String>,
    pub tags: Option<String>,
    pub tracker: Option<String>,
    pub up_limit: Option<i64>,
}

/// A tracker of a torrent; `status` 2 is working, 4 is not working.
pub struct Tracker {
    pub url: String,
    pub status: i8,
    pub msg: String,
}

/// A limit in minutes: qBittorrent's global one, none, or a number.
#[derive(Clone, Copy, Debug, PartialEq, Eq, Structural)]
pub enum MinuteLimit {
    Global,
    NoLimit,
    Limited(u64),
}

/// The number that the Web API writes for a minute limit.
pub open spec fn minute_limit_value(l: MinuteLimit) -> int {
    match l {
        MinuteLimit::Global => -2,
        MinuteLimit::NoLimit => -1,
        MinuteLimit::Limited(n) => n as int,
    }
}

/// The base URL of the Web API as configured: `http://` put in front when
/// no scheme is given, and a `/` put at the end when missing.
pub open spec fn base_url_text(url: Seq<char>) -> Seq<char> {
    let with_scheme = if has_prefix(url, "http://"@) || has_prefix(url, "https://"@) {
        url
    } else {
        "http://"@ + url
    };
    if with_scheme.len() > 0 && with_scheme.last() == '/' {
        with_scheme
    } else {
        with_scheme.push('/')
    }
}

/// `s` starts with `prefix`.
pub open spec fn has_prefix(s: Seq<char>, prefix: Seq<char>) -> bool {
    s.len() >= prefix.len() && s.take(prefix.len() as int) == prefix
}

/// Whether `s` starts with `prefix`.
pub fn starts_with(s: &str, prefix: &str) -> (b: bool)
    ensures
        b == has_prefix(s@, prefix@),
{
    let n = s.unicode_len();
    let m = prefix.unicode_len();
    if n < m {
        return false;
    }
    let mut i: usize = 0;
    while i < m
        invariant
            i <= m <= n,
            n == s@.len(),
            m == prefix@.len(),
            forall|k: int| 0 <= k < i ==> s@[k] == prefix@[k],
        decreases m - i,
    {
        if s.get_char(i) != prefix.get_char(i) {
            assert(s@.take(m as int)[i as int] != prefix@[i as int]);
            return false;
        }
        i = i + 1;
    }
    assert(s@.take(m as int) =~= prefix@);
    true
}

/// The base URL of the Web API for a configured address.
pub fn normalize_base_url(url: &str) -> (r: String)
    ensures
        r@ == base_url_text(url@),
{
    proof {
        reveal_strlit("http://");
        reveal_strlit("https://");
    }
    let mut r = if starts_with(url, "http://") || starts_with(url, "https://") {
        url.to_owned()
    } else {
        let mut s = "http://".to_owned();
        s.append(url);
        s
    };
    let n = r.as_str().unicode_len();
    if n == 0 || r.as_str().get_char(n - 1) != '/' {
        r.append("/");
        proof {
            reveal_strlit("/");
        }
    }
    r
}

/// Whether a login reply accepts the login: status 200 and the body `Ok.`
/// once trimmed.
pub fn login_succeeded(status: u16, body: &str) -> (b: bool)
    ensures
        b == (status == 200 && trim(body@) == "Ok."@),
{
    if status != 200 {
        return false;
    }
    let t = trimmed(body);
    let ok = "Ok.".to_owned();
    t == ok
}


#[verifier::external_type_specification]
#[verifier::external_body]
pub struct ExUrl(Url);

/// The text of the URL that `Url::parse` makes of `text` (what `as_str`
/// gives of it), or none when it refuses the text.
pub uninterp spec fn parsed_url(text: Seq<char>) -> Option<Seq<char>>;

/// The text of the URL that `Url::join` makes of the URL whose text is
/// `base` and of `input`, or none when it refuses them.
pub uninterp spec fn joined_url(base: Seq<char>, input: Seq<char>) -> Option<Seq<char>>;

/// A URL of the Web API, with its text.
#[derive(Debug)]
pub struct ApiUrl {
    url: Url,
    text: String,
}

impl View for ApiUrl {
    type V = Seq<char>;

    closed spec fn view(&self) -> Seq<char> {
        self.text@
    }
}

impl ApiUrl {
    /// The URL, for the HTTP client.
    pub fn url(&self) -> &Url {
        &self.url
    }

    /// The URL's text.
    pub fn as_text(&self) -> (r: &str)
        ensures
            r@ == self@,
    {
        self.text.as_str()
    }
}

/// `Url::parse`: the URL that `text` denotes, with the text it serialises
/// to, or none when the text is refused.
#[verifier::external_body]
fn parse_url(text: &str) -> (r: Option<ApiUrl>)
    ensures
        match r {
            Some(u) => parsed_url(text@) == Some(u@),
            None => parsed_url(text@) is None,
        },
{
    match Url::parse(text) {
        Ok(url) => {
            let text = url.as_str().to_owned();
            Some(ApiUrl { url, text })
        },
        Err(_) => None,
    }
}

/// `Url::join`: the URL that `input` denotes relative to `base`, or none
/// when it is refused.
#[verifier::external_body]
fn join_url(base: &ApiUrl, input: &str) -> (r: Option<ApiUrl>)
    ensures
        match r {
            Some(u) => joined_url(base@, input@) == Some(u@),
            None => joined_url(base@, input@) is None,
        },
{
    match base.url.join(input) {
        Ok(url) => {
            let text = url.as_str().to_owned();
            Some(ApiUrl { url, text })
        },
        Err(_) => None,
    }
}

/// The base URL of the Web API for a configured address: the address
/// normalised, then parsed; none when the parse refuses it.
pub fn qbit_base_url(url: &str) -> (r: Option<ApiUrl>)
    ensures
        match r {
            Some(u) => parsed_url(base_url_text(url@)) == Some(u@),
            None => parsed_url(base_url_text(url@)) is None,
        },
{
    let text = normalize_base_url(url);
    parse_url(text.as_str())
}

/// The URL of an API method: `api/v2/` and the method's path, joined to
/// the base URL.
pub fn api_url(base: &ApiUrl, path: &str) -> (r: Option<ApiUrl>)
    ensures
        match r {
            Some(u) => joined_url(base@, "api/v2/"@ + path@) == Some(u@),
            None => joined_url(base@, "api/v2/"@ + path@) is None,
        },
{
    let mut input = "api/v2/".to_owned();
    input.append(path);
    join_url(base, input.as_str())
}

} // verus!
