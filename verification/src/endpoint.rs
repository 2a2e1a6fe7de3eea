//! The URL a model request goes to, from the configured base URL, the
//! provider's default base and the endpoint path.
//!
//! A gateway base URL that lacks the provider's version path (`/v1`) gets it
//! added; a base that already ends with the endpoint is used as it is.
use vstd::prelude::*;

use crate::assistant::{append_chars, append_str, join_strings, joined};
use crate::text::{chars_of, string_from_chars, string_views, trim_str, trimmed};

verus! {

/// What parsing `s` with `reqwest::Url::parse` and asking for
/// `Url::path_segments` gives: none when `s` is not an absolute URL; else
/// the path segments, none for a URL that cannot be a base.
pub uninterp spec fn url_path_segments(s: Seq<char>) -> Option<Option<Seq<Seq<char>>>>;

pub open spec fn segments_view(r: Option<Option<Vec<String>>>) -> Option<Option<Seq<Seq<char>>>> {
    match r {
        Some(Some(v)) => Some(Some(string_views(v@))),
        Some(None) => Some(None),
        None => None,
    }
}

/// Calls `reqwest::Url::parse` and `Url::path_segments`; the result is
/// named `url_path_segments` of the text.
#[verifier::external_body]
fn parse_url_path(s: &str) -> (r: Option<Option<Vec<String>>>)
    ensures
        segments_view(r) == url_path_segments(s@),
{
    reqwest::Url::parse(s).ok().map(
        |url| url.path_segments().map(|segments| segments.map(|segment| segment.to_string()).collect()),
    )
}

/// `s` without the slashes at its end.
pub open spec fn without_trailing_slashes(s: Seq<char>) -> Seq<char>
    decreases s.len(),
{
    if s.len() > 0 && s.last() == '/' {
        without_trailing_slashes(s.drop_last())
    } else {
        s
    }
}

/// The segments that are not empty, in order.
pub open spec fn non_empty_segments(v: Seq<Seq<char>>) -> Seq<Seq<char>>
    decreases v.len(),
{
    if v.len() == 0 {
        v
    } else if v.last().len() == 0 {
        non_empty_segments(v.drop_last())
    } else {
        non_empty_segments(v.drop_last()).push(v.last())
    }
}

/// `str::ends_with` with a string pattern.
pub open spec fn has_suffix(s: Seq<char>, p: Seq<char>) -> bool {
    p.len() <= s.len() && s.skip(s.len() - p.len()) == p
}

/// The non-empty path segments out of what URL parsing gave; none when the
/// text was no URL or no base.
pub open spec fn segments_path(segments: Option<Option<Seq<Seq<char>>>>) -> Seq<Seq<char>> {
    match segments {
        Some(Some(v)) => non_empty_segments(v),
        _ => Seq::empty(),
    }
}

/// The base an endpoint is put after: the configured base trimmed, or the
/// default when it is blank, without trailing slashes.
pub open spec fn chosen_base(base_url: Seq<char>, default_base: Seq<char>) -> Seq<char> {
    if trimmed(base_url).len() == 0 {
        without_trailing_slashes(default_base)
    } else {
        without_trailing_slashes(trimmed(base_url))
    }
}

/// The endpoint URL, given what URL parsing gave for the default base
/// (`default_segments`) and for the chosen base (`base_segments`): the base
/// is kept when it already ends with the endpoint; otherwise it is followed
/// by the default's path, when a configured base parsed as a URL whose path
/// does not already end with it, and then by the endpoint.
pub open spec fn endpoint_url_from(
    base_url: Seq<char>,
    default_base: Seq<char>,
    endpoint: Seq<char>,
    default_segments: Option<Option<Seq<Seq<char>>>>,
    base_segments: Option<Option<Seq<Seq<char>>>>,
) -> Seq<char> {
    let blank = trimmed(base_url).len() == 0;
    let base = chosen_base(base_url, default_base);
    let default_path = segments_path(default_segments);
    if has_suffix(base, endpoint) {
        base
    } else if blank {
        base + "/"@ + endpoint
    } else if base_segments is Some {
        let bp = segments_path(base_segments);
        let has_default = default_path.len() > 0 && bp.len() >= default_path.len()
            && bp.skip(bp.len() - default_path.len()) == default_path;
        if default_path.len() == 0 || has_default {
            base + "/"@ + endpoint
        } else {
            base + "/"@ + joined(default_path, "/"@) + "/"@ + endpoint
        }
    } else {
        base + "/"@ + endpoint
    }
}

/// The endpoint URL, with the default base and the chosen base parsed by
/// `reqwest::Url`.
pub open spec fn endpoint_url_spec(base_url: Seq<char>, default_base: Seq<char>, endpoint: Seq<char>) -> Seq<char> {
    endpoint_url_from(
        base_url,
        default_base,
        endpoint,
        url_path_segments(default_base),
        url_path_segments(chosen_base(base_url, default_base)),
    )
}

fn trim_trailing_slashes(s: &[char]) -> (r: Vec<char>)
    ensures
        r@ == without_trailing_slashes(s@),
{
    let mut n = s.len();
    assert(s@.take(n as int) =~= s@);
    while n > 0 && s[n - 1] == '/'
        invariant
            n <= s.len(),
            without_trailing_slashes(s@) == without_trailing_slashes(s@.take(n as int)),
        decreases n,
    {
        assert(s@.take(n as int).drop_last() =~= s@.take(n - 1));
        n -= 1;
    }
    assert(n > 0 ==> s@.take(n as int).last() == s@[n - 1]);
    crate::numbers::slice_range(s, 0, n)
}

fn keep_non_empty(v: &Vec<String>) -> (r: Vec<String>)
    ensures
        string_views(r@) == non_empty_segments(string_views(v@)),
{
    let ghost vv = string_views(v@);
    let mut out: Vec<String> = Vec::new();
    let mut i: usize = 0;
    while i < v.len()
        invariant
            i <= v.len(),
            vv == string_views(v@),
            string_views(out@) == non_empty_segments(vv.take(i as int)),
        decreases v.len() - i,
    {
        proof {
            assert(vv.take(i + 1).drop_last() =~= vv.take(i as int));
            assert(vv.take(i + 1).last() == v@[i as int]@);
        }
        if chars_of(v[i].as_str()).len() != 0 {
            let ghost before = string_views(out@);
            out.push(v[i].clone());
            assert(string_views(out@) =~= before.push(v@[i as int]@));
        }
        i += 1;
    }
    assert(vv.take(v.len() as int) =~= vv);
    out
}

fn segments_path_exec(segments: &Option<Option<Vec<String>>>) -> (r: Vec<String>)
    ensures
        string_views(r@) == segments_path(segments_view(*segments)),
{
    match segments {
        Some(Some(v)) => keep_non_empty(v),
        _ => {
            let r: Vec<String> = Vec::new();
            assert(string_views(r@) =~= Seq::<Seq<char>>::empty());
            r
        },
    }
}

fn ends_with_chars(s: &[char], p: &[char]) -> (r: bool)
    ensures
        r == has_suffix(s@, p@),
{
    if p.len() > s.len() {
        return false;
    }
    let off = s.len() - p.len();
    let mut i: usize = 0;
    while i < p.len()
        invariant
            off == s.len() - p.len(),
            i <= p.len(),
            forall|j: int| 0 <= j < i ==> s@[off + j] == p@[j],
        decreases p.len() - i,
    {
        if s[off + i] != p[i] {
            assert(s@.skip(off as int)[i as int] != p@[i as int]);
            return false;
        }
        i += 1;
    }
    assert(s@.skip(off as int) =~= p@);
    true
}

fn same_strings(a: &Vec<String>, b: &Vec<String>) -> (r: bool)
    ensures
        r == (string_views(a@) == string_views(b@)),
{
    if a.len() != b.len() {
        assert(string_views(a@).len() != string_views(b@).len());
        return false;
    }
    let mut i: usize = 0;
    while i < a.len()
        invariant
            a.len() == b.len(),
            i <= a.len(),
            forall|j: int| 0 <= j < i ==> string_views(a@)[j] == string_views(b@)[j],
        decreases a.len() - i,
    {
        if !crate::text::chars_eq(&chars_of(a[i].as_str()), &chars_of(b[i].as_str())) {
            assert(string_views(a@)[i as int] != string_views(b@)[i as int]);
            return false;
        }
        i += 1;
    }
    assert(string_views(a@) =~= string_views(b@));
    true
}

fn last_strings(v: &Vec<String>, n: usize) -> (r: Vec<String>)
    requires
        n <= v.len(),
    ensures
        string_views(r@) == string_views(v@).skip(v.len() - n),
{
    let mut out: Vec<String> = Vec::new();
    let start = v.len() - n;
    let mut i = start;
    while i < v.len()
        invariant
            start == v.len() - n,
            start <= i <= v.len(),
            string_views(out@) == string_views(v@).subrange(start as int, i as int),
        decreases v.len() - i,
    {
        let ghost before = string_views(out@);
        out.push(v[i].clone());
        assert(string_views(out@) =~= before.push(v@[i as int]@));
        assert(string_views(v@).subrange(start as int, i + 1) =~= string_views(v@).subrange(start as int, i as int).push(v@[i as int]@));
        i += 1;
    }
    assert(string_views(v@).subrange(start as int, v.len() as int) =~= string_views(v@).skip(start as int));
    out
}

fn with_endpoint(base: &[char], middle: Option<&[char]>, endpoint: &str) -> (r: String)
    ensures
        r@ == match middle {
            Some(m) => base@ + "/"@ + m@ + "/"@ + endpoint@,
            None => base@ + "/"@ + endpoint@,
        },
{
    let mut out: Vec<char> = Vec::new();
    append_chars(&mut out, base);
    append_str(&mut out, "/");
    match middle {
        Some(m) => {
            append_chars(&mut out, m);
            append_str(&mut out, "/");
        },
        None => {},
    }
    append_str(&mut out, endpoint);
    string_from_chars(&out)
}

fn chosen_base_exec(base_url: &str, default_base: &str) -> (r: (Vec<char>, bool))
    ensures
        r.0@ == chosen_base(base_url@, default_base@),
        r.1 == (trimmed(base_url@).len() == 0),
{
    let configured = trim_str(base_url);
    let blank = chars_of(configured.as_str()).len() == 0;
    if blank {
        (trim_trailing_slashes(&chars_of(default_base)), blank)
    } else {
        (trim_trailing_slashes(&chars_of(configured.as_str())), blank)
    }
}

/// The URL of `endpoint` for a provider whose default base URL is
/// `default_base`, given what URL parsing gave for the default base and for
/// the chosen base.
pub fn endpoint_url_from_segments(
    base_url: &str,
    default_base: &str,
    endpoint: &str,
    default_segments: Option<Option<Vec<String>>>,
    base_segments: Option<Option<Vec<String>>>,
) -> (r: String)
    ensures
        r@ == endpoint_url_from(
            base_url@,
            default_base@,
            endpoint@,
            segments_view(default_segments),
            segments_view(base_segments),
        ),
{
    let (base, blank) = chosen_base_exec(base_url, default_base);
    let default_path = segments_path_exec(&default_segments);
    if ends_with_chars(&base, &chars_of(endpoint)) {
        return string_from_chars(&base);
    }
    if blank {
        return with_endpoint(&base, None, endpoint);
    }
    match base_segments {
        Some(segments) => {
            let bp = segments_path_exec(&Some(segments));
            let has_default = default_path.len() > 0 && bp.len() >= default_path.len()
                && same_strings(&last_strings(&bp, default_path.len()), &default_path);
            if default_path.len() == 0 || has_default {
                with_endpoint(&base, None, endpoint)
            } else {
                let middle = join_strings(&default_path, "/");
                with_endpoint(&base, Some(&middle), endpoint)
            }
        },
        None => with_endpoint(&base, None, endpoint),
    }
}

/// The URL of `endpoint` for a provider whose default base URL is `default_base`.
pub fn endpoint_url(base_url: &str, default_base: &str, endpoint: &str) -> (r: String)
    ensures
        r@ == endpoint_url_spec(base_url@, default_base@, endpoint@),
{
    let (base, _) = chosen_base_exec(base_url, default_base);
    let base_text = string_from_chars(&base);
    let default_segments = parse_url_path(default_base);
    let base_segments = parse_url_path(base_text.as_str());
    endpoint_url_from_segments(base_url, default_base, endpoint, default_segments, base_segments)
}

} // verus!
