//! Address-bar parsing: turning what the user typed into a navigable URL,
//! and guessing a resource-type label from a request URL.
//!
//! Everything here is local string work; the only outside help is the URL
//! parser behind `crate::urlinfo`. No name resolution, no prefetch, no data
//! sent anywhere.

use vstd::prelude::*;
use crate::settings::{SearchEngine, Settings, spec_query_url};
use crate::text::{chars_of, contains_char, contains_exec, spec_trim, starts_with,
    starts_with_exec, string_from_chars, trim_chars};
use crate::urlinfo::{normal_form, parse_url, scheme_of, url_has_host, url_ok};

verus! {

pub open spec fn is_digit(c: char) -> bool {
    48 <= c as u32 <= 57
}

fn is_digit_exec(c: char) -> (r: bool)
    ensures
        r == is_digit(c),
{
    let u = c as u32;
    48 <= u && u <= 57
}

/// The numeric value of a digit character.
pub open spec fn digit_of(c: char) -> int {
    c as u32 - 48
}

/// The number the digit run `s` denotes, most significant digit first.
pub open spec fn digits_value(s: Seq<char>) -> int
    decreases s.len(),
{
    if s.len() == 0 {
        0
    } else {
        digits_value(s.drop_last()) * 10 + digit_of(s.last())
    }
}

/// How many digit characters stand at `pos` and after in `s`.
pub open spec fn leading_digits_from(s: Seq<char>, pos: int) -> int
    decreases s.len() - pos,
{
    if pos < 0 || pos >= s.len() || !is_digit(s[pos]) {
        0
    } else {
        1 + leading_digits_from(s, pos + 1)
    }
}

/// A run of digits is one textual IPv4 octet when it has no leading zero
/// and denotes at most 255.
pub open spec fn octet_ok(o: Seq<char>) -> bool {
    &&& (o.len() > 1 ==> o[0] != '0')
    &&& digits_value(o) <= 255
}

/// Whether `parts_left` dot-separated octets stand at `pos` and reach the
/// end of `s`.
pub open spec fn ipv4_from(s: Seq<char>, pos: int, parts_left: nat) -> bool
    decreases parts_left,
{
    if parts_left == 0 {
        false
    } else {
        let d = leading_digits_from(s, pos);
        &&& 1 <= d <= 3
        &&& octet_ok(s.subrange(pos, pos + d))
        &&& if parts_left == 1 {
            pos + d == s.len()
        } else {
            pos + d < s.len() && s[pos + d] == '.' && ipv4_from(s, pos + d + 1, (parts_left
                - 1) as nat)
        }
    }
}

/// Whether `s` is a textual IPv4 address: four dot-separated decimal
/// octets, no leading zeros, each at most 255.
pub open spec fn is_ipv4_text(s: Seq<char>) -> bool {
    ipv4_from(s, 0, 4)
}

proof fn lemma_leading_digits_from(s: Seq<char>, pos: int)
    requires
        0 <= pos <= s.len(),
    ensures
        0 <= leading_digits_from(s, pos) <= s.len() - pos,
        forall|k: int| pos <= k < pos + leading_digits_from(s, pos) ==> is_digit(s[k]),
        pos + leading_digits_from(s, pos) < s.len() ==> !is_digit(
            s[pos + leading_digits_from(s, pos)],
        ),
    decreases s.len() - pos,
{
    if pos < s.len() && is_digit(s[pos]) {
        lemma_leading_digits_from(s, pos + 1);
    }
}

fn leading_digits_exec(s: &[char], pos: usize) -> (d: usize)
    requires
        pos <= s@.len(),
    ensures
        d as int == leading_digits_from(s@, pos as int),
        pos + d <= s@.len(),
    decreases s@.len() - pos,
{
    if pos < s.len() && is_digit_exec(s[pos]) {
        let rest = leading_digits_exec(s, pos + 1);
        proof {
            lemma_leading_digits_from(s@, pos + 1);
        }
        1 + rest
    } else {
        0
    }
}

/// Whether `parts_left` dot-separated octets stand at `pos` and reach the
/// end of `s`.
fn ipv4_from_exec(s: &[char], pos: usize, parts_left: u8) -> (r: bool)
    requires
        pos <= s@.len(),
        1 <= parts_left,
    ensures
        r == ipv4_from(s@, pos as int, parts_left as nat),
    decreases parts_left,
{
    let d = leading_digits_exec(s, pos);
    proof {
        lemma_leading_digits_from(s@, pos as int);
    }
    if d < 1 || d > 3 {
        return false;
    }
    if d > 1 && s[pos] == '0' {
        assert(s@.subrange(pos as int, pos + d)[0] == s@[pos as int]);
        return false;
    }
    let n: usize = s.len();
    let mut value: u32 = 0;
    let mut k: usize = 0;
    while k < d
        invariant
            k <= d,
            d <= 3,
            n == s@.len(),
            pos + d <= n,
            forall|j: int| pos <= j < pos + d ==> is_digit(s@[j]),
            value as int == digits_value(s@.subrange(pos as int, pos + k)),
        decreases d - k,
    {
        let c = s[pos + k];
        assert(is_digit(c));
        let dv: u32 = (c as u32) - 48;
        proof {
            let pre = s@.subrange(pos as int, pos + k);
            let post = s@.subrange(pos as int, pos + k + 1);
            assert(forall|j: int| 0 <= j < pre.len() ==> is_digit(#[trigger] pre[j]));
            lemma_digits_value_bound(pre);
            assert(post.drop_last() =~= pre);
            assert(post.last() == c);
        }
        value = value * 10 + dv;
        k += 1;
    }
    assert(s@.subrange(pos as int, pos + d as int) =~= s@.subrange(pos as int, pos + d));
    if value > 255 {
        return false;
    }
    if parts_left == 1 {
        return pos + d == s.len();
    }
    if pos + d < s.len() && s[pos + d] == '.' {
        ipv4_from_exec(s, pos + d + 1, parts_left - 1)
    } else {
        false
    }
}

proof fn lemma_digits_value_bound(o: Seq<char>)
    requires
        forall|j: int| 0 <= j < o.len() ==> is_digit(#[trigger] o[j]),
    ensures
        0 <= digits_value(o),
        o.len() <= 1 ==> digits_value(o) <= 9,
        o.len() <= 2 ==> digits_value(o) <= 99,
        o.len() <= 3 ==> digits_value(o) <= 999,
    decreases o.len(),
{
    if o.len() > 0 {
        assert(forall|j: int|
            0 <= j < o.drop_last().len() ==> is_digit(#[trigger] o.drop_last()[j]));
        lemma_digits_value_bound(o.drop_last());
        assert(is_digit(o.last()));
    }
}

/// Whether the characters form a textual IPv4 address.
pub fn is_ipv4_exec(s: &[char]) -> (r: bool)
    ensures
        r == is_ipv4_text(s@),
{
    ipv4_from_exec(s, 0, 4)
}

/// The scheme prefix the dot heuristic tries: HTTPS unless the user turned
/// HTTPS-only off.
pub open spec fn heuristic_scheme(https_only: bool) -> Seq<char> {
    if https_only {
        "https://"@
    } else {
        "http://"@
    }
}

/// Whether the parsed scheme is one a webview can navigate to directly.
/// The check keeps `google.com` from being read as a URL of scheme
/// `google`.
pub open spec fn web_scheme(s: Seq<char>) -> bool {
    ||| s == "http"@
    ||| s == "https"@
    ||| s == "file"@
    ||| s == "about"@
    ||| s == "data"@
}

/// What the address bar navigates to for the input: in order, an empty
/// input goes to `about:blank`; implicit localhost or a bare IPv4 address
/// gets `http://`; input that already parses with a navigable scheme is
/// kept (normalized); input with a dot and no space is tried as a domain
/// under the heuristic scheme; anything else becomes a search query.
pub open spec fn spec_smart_parse(
    input: Seq<char>,
    https_only: bool,
    engine: SearchEngine,
) -> Seq<char> {
    let t = spec_trim(input);
    if t.len() == 0 {
        "about:blank"@
    } else if (starts_with(t, "localhost"@) || starts_with(t, "127.0.0.1"@) || is_ipv4_text(t))
        && !crate::text::contains_seq(t, "://"@) && url_ok("http://"@ + t) {
        normal_form("http://"@ + t)
    } else if url_ok(t) && web_scheme(scheme_of(t)) {
        normal_form(t)
    } else if !t.contains(' ') && t.contains('.') && t.last() != '.' && url_ok(
        heuristic_scheme(https_only) + t,
    ) && url_has_host(heuristic_scheme(https_only) + t) {
        normal_form(heuristic_scheme(https_only) + t)
    } else {
        spec_query_url(engine, t)
    }
}

/// Turns address-bar input into a navigable URL. Purely local string work:
/// no name resolution, no prefetching, nothing sent anywhere.
pub fn smart_parse_url(input: &str, settings: &Settings) -> (r: String)
    ensures
        r@ == spec_smart_parse(input@, settings.https_only, settings.search_engine),
{
    let raw = chars_of(input);
    let tv = trim_chars(raw.as_slice());
    if tv.len() == 0 {
        return String::from_str("about:blank");
    }
    let t = string_from_chars(tv.as_slice());

    let localhost_pat = chars_of("localhost");
    let loop_ip_pat = chars_of("127.0.0.1");
    let sep_pat = chars_of("://");
    let is_localhost = starts_with_exec(tv.as_slice(), localhost_pat.as_slice())
        || starts_with_exec(tv.as_slice(), loop_ip_pat.as_slice());
    let is_ip = is_ipv4_exec(tv.as_slice());
    let has_sep = contains_exec(tv.as_slice(), sep_pat.as_slice());

    if (is_localhost || is_ip) && !has_sep {
        let candidate = String::from_str("http://").concat(t.as_str());
        match parse_url(candidate.as_str()) {
            Some(p) => {
                return p.normalized;
            },
            None => {},
        }
    }

    match parse_url(t.as_str()) {
        Some(p) => {
            let s = p.scheme.as_str();
            if crate::text::str_eq(s, "http") || crate::text::str_eq(s, "https")
                || crate::text::str_eq(s, "file") || crate::text::str_eq(s, "about")
                || crate::text::str_eq(s, "data") {
                return p.normalized;
            }
        },
        None => {},
    }

    if !contains_char(tv.as_slice(), ' ') && contains_char(tv.as_slice(), '.') && tv[tv.len()
        - 1] != '.' {
        let scheme = if settings.https_only {
            "https://"
        } else {
            "http://"
        };
        let candidate = String::from_str(scheme).concat(t.as_str());
        match parse_url(candidate.as_str()) {
            Some(p) => {
                if p.has_host {
                    return p.normalized;
                }
            },
            None => {},
        }
    }

    settings.search_engine.query_url(t.as_str())
}

/// Whether `a` is `b` up to ASCII case, where `b` is a lower-case pattern
/// character.
pub open spec fn ci_eq(a: char, b: char) -> bool {
    a == b || ('a' <= b <= 'z' && a as u32 + 32 == b as u32)
}

fn ci_eq_exec(a: char, b: char) -> (r: bool)
    ensures
        r == ci_eq(a, b),
{
    a == b || ('a' <= b && b <= 'z' && (a as u32) + 32 == (b as u32))
}

/// Whether `s` matches the lower-case pattern `pat` at `i`, up to ASCII
/// case.
pub open spec fn ci_match_at(s: Seq<char>, pat: Seq<char>, i: int) -> bool {
    0 <= i && i + pat.len() <= s.len() && forall|j: int|
        0 <= j < pat.len() ==> ci_eq(s[i + j], #[trigger] pat[j])
}

/// Whether `s` contains the lower-case pattern `pat`, up to ASCII case.
pub open spec fn contains_ci(s: Seq<char>, pat: Seq<char>) -> bool {
    exists|i: int| ci_match_at(s, pat, i)
}

fn ci_match_at_exec(s: &[char], pat: &[char], i: usize) -> (r: bool)
    requires
        i + pat@.len() <= s@.len(),
    ensures
        r == ci_match_at(s@, pat@, i as int),
{
    let n: usize = s.len();
    let mut j: usize = 0;
    while j < pat.len()
        invariant
            j <= pat@.len(),
            n == s@.len(),
            i + pat@.len() <= n,
            forall|k: int| 0 <= k < j ==> ci_eq(s@[i + k], #[trigger] pat@[k]),
        decreases pat.len() - j,
    {
        if !ci_eq_exec(s[i + j], pat[j]) {
            return false;
        }
        j += 1;
    }
    true
}

fn contains_ci_exec(s: &[char], pat: &str) -> (r: bool)
    ensures
        r == contains_ci(s@, pat@),
{
    let pv = chars_of(pat);
    if pv.len() > s.len() {
        assert(forall|i: int| !ci_match_at(s@, pat@, i));
        return false;
    }
    if pv.len() == 0 {
        assert(ci_match_at(s@, pat@, 0));
        return true;
    }
    let n: usize = s.len();
    let last: usize = n - pv.len();
    let mut i: usize = 0;
    while i <= last
        invariant
            i <= last + 1,
            n == s@.len(),
            pat@.len() >= 1,
            pv@ == pat@,
            last + pat@.len() == s@.len(),
            forall|k: int| 0 <= k < i ==> !ci_match_at(s@, pat@, k),
        decreases last + 1 - i,
    {
        if ci_match_at_exec(s, pv.as_slice(), i) {
            return true;
        }
        i += 1;
    }
    assert(forall|k: int| ci_match_at(s@, pat@, k) ==> 0 <= k <= last);
    false
}

/// The resource-type label guessed from a request URL, by ASCII
/// case-insensitive match on tell-tale fragments: script, stylesheet,
/// image, font or media by extension, XHR by path shape, otherwise
/// `other`.
pub open spec fn spec_guess_request_type(url: Seq<char>) -> Seq<char> {
    if contains_ci(url, ".js"@) || contains_ci(url, "javascript"@) {
        "script"@
    } else if contains_ci(url, ".css"@) {
        "stylesheet"@
    } else if contains_ci(url, ".png"@) || contains_ci(url, ".jpg"@) || contains_ci(
        url,
        ".jpeg"@,
    ) || contains_ci(url, ".gif"@) || contains_ci(url, ".webp"@) || contains_ci(url, ".svg"@)
        || contains_ci(url, ".ico"@) {
        "image"@
    } else if contains_ci(url, ".woff"@) || contains_ci(url, ".ttf"@) || contains_ci(
        url,
        ".otf"@,
    ) {
        "font"@
    } else if contains_ci(url, ".mp4"@) || contains_ci(url, ".webm"@) || contains_ci(
        url,
        ".m3u8"@,
    ) {
        "media"@
    } else if contains_ci(url, "xmlhttprequest"@) || contains_ci(url, "/api/"@) || contains_ci(
        url,
        "/ajax/"@,
    ) {
        "xmlhttprequest"@
    } else {
        "other"@
    }
}

/// Guesses the resource-type label the filter engine should see for a
/// request URL.
pub fn guess_request_type(url: &str) -> (r: String)
    ensures
        r@ == spec_guess_request_type(url@),
{
    let uv = chars_of(url);
    let u = uv.as_slice();
    if contains_ci_exec(u, ".js") || contains_ci_exec(u, "javascript") {
        String::from_str("script")
    } else if contains_ci_exec(u, ".css") {
        String::from_str("stylesheet")
    } else if contains_ci_exec(u, ".png") || contains_ci_exec(u, ".jpg") || contains_ci_exec(
        u,
        ".jpeg",
    ) || contains_ci_exec(u, ".gif") || contains_ci_exec(u, ".webp") || contains_ci_exec(
        u,
        ".svg",
    ) || contains_ci_exec(u, ".ico") {
        String::from_str("image")
    } else if contains_ci_exec(u, ".woff") || contains_ci_exec(u, ".ttf") || contains_ci_exec(
        u,
        ".otf",
    ) {
        String::from_str("font")
    } else if contains_ci_exec(u, ".mp4") || contains_ci_exec(u, ".webm") || contains_ci_exec(
        u,
        ".m3u8",
    ) {
        String::from_str("media")
    } else if contains_ci_exec(u, "xmlhttprequest") || contains_ci_exec(u, "/api/")
        || contains_ci_exec(u, "/ajax/") {
        String::from_str("xmlhttprequest")
    } else {
        String::from_str("other")
    }
}

} // verus!
