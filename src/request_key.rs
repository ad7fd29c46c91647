//! The upstream request URL, which doubles as the cache key.

use crate::normalize::{normalize_url, normalized};
use vstd::prelude::*;

verus! {

/// The upstream endpoint; the encoded URL follows it directly.
pub const API_BASE: &'static str = "https://api.song.link/v1-alpha.1/links?url=";

/// Query parameters of a link lookup.
pub struct ProxyQuery {
    pub url: String,
    pub user_country: Option<String>,
    pub song_if_single: Option<bool>,
    pub platform: Option<String>,
    pub entity_type: Option<String>,
    pub id: Option<String>,
    pub key: Option<String>,
}

/// Characters that percent-encoding leaves as they are.
pub open spec fn is_unreserved(c: char) -> bool {
    ('0' <= c && c <= '9') || ('A' <= c && c <= 'Z') || ('a' <= c && c <= 'z') || c == '-'
        || c == '.' || c == '_' || c == '~'
}

pub open spec fn hex_digit(d: int) -> char {
    seq!['0', '1', '2', '3', '4', '5', '6', '7', '8', '9', 'A', 'B', 'C', 'D', 'E', 'F'][d]
}

/// The encoding of one ASCII character.
pub open spec fn encode_ascii_char(c: char) -> Seq<char> {
    if is_unreserved(c) {
        seq![c]
    } else {
        seq!['%', hex_digit(c as int / 16), hex_digit(c as int % 16)]
    }
}

/// Percent-encoding of an all-ASCII text, one character at a time.
pub open spec fn encode_ascii(s: Seq<char>) -> Seq<char>
    decreases s.len(),
{
    if s.len() == 0 {
        Seq::empty()
    } else {
        encode_ascii_char(s[0]) + encode_ascii(s.drop_first())
    }
}

pub open spec fn all_ascii(s: Seq<char>) -> bool {
    forall|i: int| 0 <= i < s.len() ==> (#[trigger] s[i] as int) < 128
}

/// The percent-encoding of a text's UTF-8 bytes.
pub uninterp spec fn url_encoded(s: Seq<char>) -> Seq<char>;

/// Relies on urlencoding::encode: every byte of the UTF-8 text but ASCII
/// alphanumerics and `-` `.` `_` `~` becomes `%` and two upper-case hex digits.
#[verifier::external_body]
fn percent_encode(s: &str) -> (r: String)
    ensures
        r@ == url_encoded(s@),
        all_ascii(s@) ==> r@ == encode_ascii(s@),
{
    urlencoding::encode(s).into_owned()
}

pub open spec fn opt_text(o: Option<String>) -> Option<Seq<char>> {
    match o {
        Some(s) => Some(s@),
        None => None,
    }
}

pub open spec fn bool_text(b: bool) -> Seq<char> {
    if b {
        "true"@
    } else {
        "false"@
    }
}

pub open spec fn song_text(o: Option<bool>) -> Option<Seq<char>> {
    match o {
        Some(b) => Some(bool_text(b)),
        None => None,
    }
}

/// The optional parameters in key order: each with its `&name=` prefix and
/// its value text, if supplied.
pub open spec fn param_fields(q: ProxyQuery) -> Seq<(Seq<char>, Option<Seq<char>>)> {
    seq![
        ("&userCountry="@, opt_text(q.user_country)),
        ("&songIfSingle="@, song_text(q.song_if_single)),
        ("&platform="@, opt_text(q.platform)),
        ("&type="@, opt_text(q.entity_type)),
        ("&id="@, opt_text(q.id)),
        ("&key="@, opt_text(q.key)),
    ]
}

/// A supplied parameter contributes `&name=value`; an omitted one nothing.
pub open spec fn segment(f: (Seq<char>, Option<Seq<char>>)) -> Seq<char> {
    match f.1 {
        Some(v) => f.0 + v,
        None => Seq::empty(),
    }
}

pub open spec fn segments(fs: Seq<(Seq<char>, Option<Seq<char>>)>) -> Seq<char>
    decreases fs.len(),
{
    if fs.len() == 0 {
        Seq::empty()
    } else {
        segments(fs.drop_last()) + segment(fs.last())
    }
}

/// The key for `q` once its URL has been encoded as `enc`.
pub open spec fn key_with_encoded(enc: Seq<char>, q: ProxyQuery) -> Seq<char> {
    API_BASE@ + enc + segments(param_fields(q))
}

/// The key that `build_api_url` produces.
pub open spec fn api_url(q: ProxyQuery) -> Seq<char> {
    key_with_encoded(url_encoded(q.url@), q)
}

/// The key of a lookup after its URL is normalized.
pub open spec fn request_key(q: ProxyQuery) -> Seq<char> {
    key_with_encoded(url_encoded(normalized(q.url@)), q)
}

fn push_param(s: &mut String, name: &str, value: &Option<String>)
    ensures
        final(s)@ == old(s)@ + segment((name@, opt_text(*value))),
{
    match value {
        Some(v) => {
            s.append(name);
            s.append(v.as_str());
        },
        None => {},
    }
}

proof fn lemma_segments_in_order(q: ProxyQuery)
    ensures
        segments(param_fields(q)) == segment(("&userCountry="@, opt_text(q.user_country)))
            + segment(("&songIfSingle="@, song_text(q.song_if_single))) + segment(
            ("&platform="@, opt_text(q.platform)),
        ) + segment(("&type="@, opt_text(q.entity_type))) + segment(("&id="@, opt_text(q.id)))
            + segment(("&key="@, opt_text(q.key))),
{
    let fs = param_fields(q);
    assert(fs.take(6) =~= fs);
    assert(fs.take(1).drop_last() =~= fs.take(0));
    assert(segments(fs.take(1)) == segments(fs.take(0)) + segment(fs[0]));
    assert(fs.take(2).drop_last() =~= fs.take(1));
    assert(segments(fs.take(2)) == segments(fs.take(1)) + segment(fs[1]));
    assert(fs.take(3).drop_last() =~= fs.take(2));
    assert(segments(fs.take(3)) == segments(fs.take(2)) + segment(fs[2]));
    assert(fs.take(4).drop_last() =~= fs.take(3));
    assert(segments(fs.take(4)) == segments(fs.take(3)) + segment(fs[3]));
    assert(fs.take(5).drop_last() =~= fs.take(4));
    assert(segments(fs.take(5)) == segments(fs.take(4)) + segment(fs[4]));
    assert(fs.take(6).drop_last() =~= fs.take(5));
    assert(segments(fs.take(6)) == segments(fs.take(5)) + segment(fs[5]));
    assert(segments(fs.take(0)) =~= Seq::<char>::empty());
    assert(segments(fs) =~= segment(fs[0]) + segment(fs[1]) + segment(fs[2]) + segment(fs[3])
        + segment(fs[4]) + segment(fs[5]));
}

/// Builds the key from an already encoded URL: the endpoint, the encoded
/// URL, then each supplied parameter in fixed order, values as given.
pub fn build_api_url_encoded(encoded: &str, params: &ProxyQuery) -> (r: String)
    ensures
        r@ == key_with_encoded(encoded@, *params),
{
    let mut s = String::new();
    s.append(API_BASE);
    s.append(encoded);
    push_param(&mut s, "&userCountry=", &params.user_country);
    let ghost before_song = s@;
    match params.song_if_single {
        Some(b) => {
            s.append("&songIfSingle=");
            s.append(if b { "true" } else { "false" });
        },
        None => {},
    }
    assert(s@ == before_song + segment(("&songIfSingle="@, song_text(params.song_if_single))));
    push_param(&mut s, "&platform=", &params.platform);
    push_param(&mut s, "&type=", &params.entity_type);
    push_param(&mut s, "&id=", &params.id);
    push_param(&mut s, "&key=", &params.key);
    proof {
        lemma_segments_in_order(*params);
    }
    s
}

/// Builds the upstream request URL for `params`, percent-encoding the URL.
pub fn build_api_url(params: &ProxyQuery) -> (r: String)
    ensures
        r@ == api_url(*params),
{
    let encoded = percent_encode(params.url.as_str());
    build_api_url_encoded(encoded.as_str(), params)
}

/// The cache key of a lookup: its URL normalized, then built into the
/// upstream request URL.
pub fn request_key_of(params: &ProxyQuery) -> (r: String)
    ensures
        r@ == request_key(*params),
{
    let url = normalize_url(params.url.as_str());
    let encoded = percent_encode(url.as_str());
    build_api_url_encoded(encoded.as_str(), params)
}

proof fn lemma_segments_concat(a: Seq<(Seq<char>, Option<Seq<char>>)>, b: Seq<(Seq<char>, Option<Seq<char>>)>)
    ensures
        segments(a + b) == segments(a) + segments(b),
    decreases b.len(),
{
    if b.len() == 0 {
        assert(a + b =~= a);
    } else {
        lemma_segments_concat(a, b.drop_last());
        assert((a + b).drop_last() =~= a + b.drop_last());
        assert(segments(a) + (segments(b.drop_last()) + segment(b.last())) =~= segments(a)
            + segments(b.drop_last()) + segment(b.last()));
    }
}

/// Each optional parameter contributes one segment at its fixed place in
/// the key: `&name=value` when it is supplied, nothing at all when omitted.
pub proof fn lemma_parameter_segment(enc: Seq<char>, q: ProxyQuery, i: int)
    requires
        0 <= i < 6,
    ensures
        ({
            let fs = param_fields(q);
            &&& key_with_encoded(enc, q) == API_BASE@ + enc + segments(fs.take(i)) + segment(fs[i])
                + segments(fs.skip(i + 1))
            &&& fs[i].1 is None ==> key_with_encoded(enc, q) == API_BASE@ + enc + segments(
                fs.take(i),
            ) + segments(fs.skip(i + 1))
            &&& fs[i].1 matches Some(v) ==> segment(fs[i]) == fs[i].0 + v
        }),
{
    let fs = param_fields(q);
    assert(fs =~= fs.take(i) + (seq![fs[i]] + fs.skip(i + 1)));
    lemma_segments_concat(fs.take(i), seq![fs[i]] + fs.skip(i + 1));
    lemma_segments_concat(seq![fs[i]], fs.skip(i + 1));
    let one = seq![fs[i]];
    assert(one.drop_last() =~= Seq::<(Seq<char>, Option<Seq<char>>)>::empty());
    assert(segments(one.drop_last()) =~= Seq::<char>::empty());
    assert(one.last() == fs[i]);
    assert(segments(one) =~= segment(fs[i]));
    assert(segments(fs.take(i)) + segment(fs[i]) + segments(fs.skip(i + 1)) =~= segments(
        fs.take(i),
    ) + (segment(fs[i]) + segments(fs.skip(i + 1))));
    if fs[i].1 is None {
        assert(segments(fs.take(i)) + segment(fs[i]) =~= segments(fs.take(i)));
    }
    assert(API_BASE@ + enc + segments(fs) =~= API_BASE@ + enc + segments(fs.take(i)) + segment(fs[i])
        + segments(fs.skip(i + 1)));
}

/// The key depends on the lookup's values alone: lookups with equal values
/// give byte-identical keys, however and whenever they were supplied.
pub proof fn lemma_key_deterministic(q1: ProxyQuery, q2: ProxyQuery)
    requires
        q1.url@ == q2.url@,
        opt_text(q1.user_country) == opt_text(q2.user_country),
        q1.song_if_single == q2.song_if_single,
        opt_text(q1.platform) == opt_text(q2.platform),
        opt_text(q1.entity_type) == opt_text(q2.entity_type),
        opt_text(q1.id) == opt_text(q2.id),
        opt_text(q1.key) == opt_text(q2.key),
    ensures
        api_url(q1) == api_url(q2),
        request_key(q1) == request_key(q2),
{
    assert(param_fields(q1) =~= param_fields(q2));
}

} // verus!
