//! Synthesis of declarative content-blocker exception rules.
//!
//! The declarative conversion of filter lists is lossy: list rules with
//! context-scoped exception syntax (`$domain=...`) do not survive it. For
//! each domain the product exempts on the webmail pages, an explicit allow
//! rule is appended to the converted document, keyed by an anchored URL
//! pattern — `^https?://([^/]*\.)?domain(/|$)` — so that it matches the
//! domain and its subdomains but not a URL that merely mentions the domain,
//! and constrained by `if-domain` to the granting webmail context.

use vstd::prelude::*;
use crate::text::{chars_of, contains_char, contains_seq, json_escaped, matches_at,
    push_json_escaped, push_str_chars, string_from_chars};

verus! {

/// The domain with every `.` escaped for use inside a regular expression.
pub open spec fn regex_escaped(d: Seq<char>) -> Seq<char>
    decreases d.len(),
{
    if d.len() == 0 {
        Seq::empty()
    } else if d[0] == '.' {
        seq!['\\', '.'] + regex_escaped(d.drop_first())
    } else {
        seq![d[0]] + regex_escaped(d.drop_first())
    }
}

proof fn lemma_regex_escaped_push(d: Seq<char>, c: char)
    ensures
        regex_escaped(d.push(c)) == regex_escaped(d) + (if c == '.' {
            seq!['\\', '.']
        } else {
            seq![c]
        }),
    decreases d.len(),
{
    reveal_with_fuel(regex_escaped, 2);
    assert(d.push(c)[0] == if d.len() == 0 {
        c
    } else {
        d[0]
    });
    if d.len() == 0 {
        assert(d.push(c).drop_first() =~= Seq::<char>::empty());
        assert(regex_escaped(d.push(c)) =~= regex_escaped(d) + (if c == '.' {
            seq!['\\', '.']
        } else {
            seq![c]
        }));
    } else {
        assert(d.push(c).drop_first() =~= d.drop_first().push(c));
        lemma_regex_escaped_push(d.drop_first(), c);
        assert(regex_escaped(d.push(c)) =~= regex_escaped(d) + (if c == '.' {
            seq!['\\', '.']
        } else {
            seq![c]
        }));
    }
}

/// The URL pattern that matches `scheme://(subdomain.)?domain(/|end)` and
/// nothing else. A domain without a dot is matched exactly, without the
/// subdomain group.
pub open spec fn anchored_pattern(d: Seq<char>) -> Seq<char> {
    if d.contains('.') {
        "^https?://([^/]*\\.)?"@ + regex_escaped(d) + "(/|$)"@
    } else {
        "^https?://"@ + d + "(/|$)"@
    }
}

/// Appends the anchored URL pattern for `domain`.
fn push_anchored_pattern(out: &mut Vec<char>, domain: &[char])
    ensures
        final(out)@ == old(out)@ + anchored_pattern(domain@),
{
    if contains_char(domain, '.') {
        push_str_chars(out, "^https?://([^/]*\\.)?");
        let mut i: usize = 0;
        let ghost mid: Seq<char> = out@;
        while i < domain.len()
            invariant
                i <= domain@.len(),
                out@ == mid + regex_escaped(domain@.subrange(0, i as int)),
            decreases domain.len() - i,
        {
            let c = domain[i];
            if c == '.' {
                out.push('\\');
                out.push('.');
            } else {
                out.push(c);
            }
            proof {
                lemma_regex_escaped_push(domain@.subrange(0, i as int), c);
                assert(domain@.subrange(0, i as int).push(c) =~= domain@.subrange(0, i + 1));
                assert(out@ =~= mid + regex_escaped(domain@.subrange(0, i + 1)));
            }
            i += 1;
        }
        assert(domain@.subrange(0, domain@.len() as int) =~= domain@);
        push_str_chars(out, "(/|$)");
        assert(out@ =~= old(out)@ + anchored_pattern(domain@));
    } else {
        push_str_chars(out, "^https?://");
        let mut i: usize = 0;
        let ghost mid: Seq<char> = out@;
        while i < domain.len()
            invariant
                i <= domain@.len(),
                out@ == mid + domain@.subrange(0, i as int),
            decreases domain.len() - i,
        {
            out.push(domain[i]);
            assert(out@ =~= mid + domain@.subrange(0, i + 1));
            i += 1;
        }
        assert(domain@.subrange(0, domain@.len() as int) =~= domain@);
        push_str_chars(out, "(/|$)");
        assert(out@ =~= old(out)@ + anchored_pattern(domain@));
    }
}

/// The anchored URL pattern for `domain`, as a string.
pub fn build_anchored_pattern(domain: &str) -> (r: String)
    ensures
        r@ == anchored_pattern(domain@),
{
    let dom = chars_of(domain);
    let mut out: Vec<char> = Vec::new();
    push_anchored_pattern(&mut out, dom.as_slice());
    string_from_chars(out.as_slice())
}

/// One synthesized allow-rule object: its trigger carries the anchored
/// pattern for the exempted domain (JSON-escaped) and an `if-domain`
/// constraint naming the webmail context.
pub open spec fn exception_rule_json(d: Seq<char>) -> Seq<char> {
    "{\"trigger\":{\"url-filter\":\""@ + json_escaped(anchored_pattern(d))
        + "\",\"if-domain\":[\"*mail.google.com\",\"*gmail.com\"]},\"action\":{\"type\":\"allow\"}}"@
}

/// Appends the synthesized allow-rule object for `domain`.
fn push_exception_rule(out: &mut Vec<char>, domain: &str)
    ensures
        final(out)@ == old(out)@ + exception_rule_json(domain@),
{
    push_str_chars(out, "{\"trigger\":{\"url-filter\":\"");
    let dom = chars_of(domain);
    let mut pat: Vec<char> = Vec::new();
    push_anchored_pattern(&mut pat, dom.as_slice());
    push_json_escaped(out, pat.as_slice());
    push_str_chars(
        out,
        "\",\"if-domain\":[\"*mail.google.com\",\"*gmail.com\"]},\"action\":{\"type\":\"allow\"}}",
    );
    assert(out@ =~= old(out)@ + exception_rule_json(domain@));
}

/// The one synthesized allow-rule, as a string.
pub fn build_exception_rule(domain: &str) -> (r: String)
    ensures
        r@ == exception_rule_json(domain@),
{
    let mut out: Vec<char> = Vec::new();
    push_exception_rule(&mut out, domain);
    string_from_chars(out.as_slice())
}

/// The domains whose requests the webmail pages need: Google's own
/// infrastructure, not third-party trackers.
pub open spec fn whitelist_domains() -> Seq<Seq<char>> {
    seq![
        "google.com"@,
        "gstatic.com"@,
        "googleusercontent.com"@,
        "googleapis.com"@,
        "ggpht.com"@,
    ]
}

/// The synthesized allow-rule objects for the given domains, comma-joined,
/// in order.
pub open spec fn joined_rules(domains: Seq<Seq<char>>) -> Seq<char>
    decreases domains.len(),
{
    if domains.len() == 0 {
        Seq::empty()
    } else if domains.len() == 1 {
        exception_rule_json(domains[0])
    } else {
        joined_rules(domains.drop_last()) + seq![','] + exception_rule_json(domains.last())
    }
}

/// The whole declarative document after the synthesized rules are appended
/// to the base JSON array: always regenerated as one document, never by
/// editing a published one.
pub open spec fn spec_with_exceptions(base: Seq<char>, domains: Seq<Seq<char>>) -> Seq<char> {
    if domains.len() == 0 {
        base
    } else if base.len() == 2 {
        seq!['['] + joined_rules(domains) + seq![']']
    } else {
        base.drop_last() + seq![','] + joined_rules(domains) + seq![']']
    }
}

/// Appending the synthesized rules loses nothing of the base array's
/// content: a fragment that ends in a double quote and occurs in the base
/// still occurs in the spliced document. The splice drops only the base's
/// closing bracket, which such a fragment cannot cover.
pub proof fn lemma_with_exceptions_keeps_quoted(
    base: Seq<char>,
    domains: Seq<Seq<char>>,
    pat: Seq<char>,
)
    requires
        base.len() >= 2,
        base[0] == '[',
        base[base.len() - 1] == ']',
        pat.len() > 0,
        pat.last() == '"',
        contains_seq(base, pat),
    ensures
        contains_seq(spec_with_exceptions(base, domains), pat),
{
    let i = choose|i: int| matches_at(base, pat, i);
    assert(matches_at(base, pat, i));
    if domains.len() > 0 {
        if i + pat.len() == base.len() {
            assert(base.subrange(i, i + pat.len()).last() == base[i + pat.len() - 1]);
            assert(pat.last() == base[base.len() - 1]);
            assert(false);
        }
        assert(i + pat.len() <= base.len() - 1);
        if base.len() == 2 {
            assert(i == 0 && pat.len() == 1);
            assert(base.subrange(0, 1)[0] == base[0]);
            assert(pat[0] == base[0]);
            assert(false);
        } else {
            let spliced = spec_with_exceptions(base, domains);
            assert forall|k: int| 0 <= k < pat.len() implies #[trigger] spliced[i + k] == base[i
                + k] by {
                assert(i + k < base.len() - 1);
                assert(spliced[i + k] == base.drop_last()[i + k]);
            }
            assert(spliced.subrange(i, i + pat.len()) =~= base.subrange(i, i + pat.len()));
            assert(matches_at(spliced, pat, i));
        }
    }
}

/// Appends the product's fixed webmail allow-rules to a converted rule
/// document. `base` must be a JSON array (as the declarative conversion
/// yields).
#[verifier::rlimit(80)]
pub fn augment_cb_document(base: &str) -> (r: String)
    requires
        base@.len() >= 2,
        base@[0] == '[',
        base@[base@.len() - 1] == ']',
    ensures
        r@ == spec_with_exceptions(base@, whitelist_domains()),
{
    let base_chars = chars_of(base);
    let n: usize = base_chars.len();
    let mut out: Vec<char> = Vec::new();
    let mut i: usize = 0;
    while i < n - 1
        invariant
            i <= n - 1,
            n == base@.len(),
            n >= 2,
            out@ == base@.subrange(0, i as int),
            base_chars@ == base@,
        decreases n - 1 - i,
    {
        out.push(base_chars[i]);
        assert(out@ =~= base@.subrange(0, i + 1));
        i += 1;
    }
    assert(out@ =~= base@.drop_last());
    if n > 2 {
        out.push(',');
    }
    let ghost mid: Seq<char> = out@;
    push_exception_rule(&mut out, "google.com");
    out.push(',');
    push_exception_rule(&mut out, "gstatic.com");
    out.push(',');
    push_exception_rule(&mut out, "googleusercontent.com");
    out.push(',');
    push_exception_rule(&mut out, "googleapis.com");
    out.push(',');
    push_exception_rule(&mut out, "ggpht.com");
    proof {
        reveal_with_fuel(joined_rules, 6);
        assert(whitelist_domains().drop_last() =~= seq![
            "google.com"@,
            "gstatic.com"@,
            "googleusercontent.com"@,
            "googleapis.com"@,
        ]);
        assert(whitelist_domains().drop_last().drop_last() =~= seq![
            "google.com"@,
            "gstatic.com"@,
            "googleusercontent.com"@,
        ]);
        assert(whitelist_domains().drop_last().drop_last().drop_last() =~= seq![
            "google.com"@,
            "gstatic.com"@,
        ]);
        assert(whitelist_domains().drop_last().drop_last().drop_last().drop_last() =~= seq![
            "google.com"@,
        ]);
        assert(out@ =~= mid + joined_rules(whitelist_domains()));
    }
    out.push(']');
    assert(out@ =~= spec_with_exceptions(base@, whitelist_domains()));
    string_from_chars(out.as_slice())
}

} // verus!
