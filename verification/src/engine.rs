//! Trusted view of the `adblock` crate: filter-list compilation and the
//! compiled engine's two query surfaces (network blocking and cosmetic
//! hiding), plus the binary cache format and the declarative
//! (content-blocker) conversion.
//!
//! A `FilterSet` and an `Engine` are modelled by the sequence of filter-list
//! texts they were built from; every query result below is named as a
//! function of that sequence and of the query's plain arguments.

use vstd::prelude::*;
use crate::text::json_escaped;

verus! {

#[verifier::external_type_specification]
#[verifier::external_body]
pub struct ExEngine(adblock::Engine);

#[verifier::external_type_specification]
#[verifier::external_body]
pub struct ExFilterSet(adblock::lists::FilterSet);

/// The filter-list texts added to the set, in order.
pub uninterp spec fn filter_texts(fs: adblock::lists::FilterSet) -> Seq<Seq<char>>;

/// Whether the set was created in debug mode (required for the declarative
/// conversion).
pub uninterp spec fn filter_set_debug(fs: adblock::lists::FilterSet) -> bool;

/// The filter-list texts the engine was compiled from, in order.
pub uninterp spec fn engine_texts(e: adblock::Engine) -> Seq<Seq<char>>;

/// Whether an engine compiled from `texts` blocks the request
/// `(url, source_url, request_type, method)`.
pub uninterp spec fn engine_blocks(
    texts: Seq<Seq<char>>,
    url: Seq<char>,
    source_url: Seq<char>,
    request_type: Seq<char>,
    method: Seq<char>,
) -> bool;

/// Whether `adblock::request::Request::new` accepts the request URL.
pub uninterp spec fn request_ok(url: Seq<char>) -> bool;

/// The CSS selectors an engine compiled from `texts` hides on the page `url`.
pub uninterp spec fn hide_selectors(texts: Seq<Seq<char>>, url: Seq<char>) -> Set<Seq<char>>;

/// Whether `Engine::deserialize` accepts the bytes.
pub uninterp spec fn bytes_loadable(data: Seq<u8>) -> bool;

/// The text model of the engine that `data` restores. The bytes pin that
/// engine's behavior (see `engine_serialize`), not the list texts
/// themselves.
pub uninterp spec fn texts_of_bytes(data: Seq<u8>) -> Seq<Seq<char>>;

/// Relies on `adblock::lists::FilterSet::new`: a fresh set holds no list
/// text; the flag selects debug mode.
#[verifier::external_body]
pub(crate) fn filter_set_new(debug: bool) -> (r: adblock::lists::FilterSet)
    ensures
        filter_texts(r) == Seq::<Seq<char>>::empty(),
        filter_set_debug(r) == debug,
{
    adblock::lists::FilterSet::new(debug)
}

/// Relies on `FilterSet::add_filter_list`: appends one whole list text to the
/// set (individual rules that cannot be parsed are skipped at compile time,
/// never an error).
#[verifier::external_body]
pub(crate) fn filter_set_add(fs: &mut adblock::lists::FilterSet, text: &str)
    ensures
        filter_texts(*final(fs)) == filter_texts(*old(fs)).push(text@),
        filter_set_debug(*final(fs)) == filter_set_debug(*old(fs)),
{
    fs.add_filter_list(text.to_string(), adblock::lists::ParseOptions::default());
}

/// Relies on `FilterSet`'s `Clone`: the copy holds the same list sources and
/// mode.
#[verifier::external_body]
pub(crate) fn filter_set_clone(fs: &adblock::lists::FilterSet) -> (r: adblock::lists::FilterSet)
    ensures
        filter_texts(r) == filter_texts(*fs),
        filter_set_debug(r) == filter_set_debug(*fs),
{
    fs.clone()
}

/// Relies on `adblock::Engine::new_with_filter_set`: compiles exactly the
/// rules of the given set.
#[verifier::external_body]
pub(crate) fn engine_from_filter_set(fs: adblock::lists::FilterSet) -> (e: adblock::Engine)
    ensures
        engine_texts(e) == filter_texts(fs),
{
    adblock::Engine::new_with_filter_set(fs)
}

/// Relies on `adblock::Engine::default`: an empty engine, one compiled from
/// no filter text at all.
#[verifier::external_body]
pub(crate) fn engine_empty() -> (e: adblock::Engine)
    ensures
        engine_texts(e) == Seq::<Seq<char>>::empty(),
{
    adblock::Engine::default()
}

/// Relies on `adblock::Engine::serialize` and the documented round trip
/// with `Engine::deserialize`: the bytes load back, within the same build
/// of the crate, into an engine with the serialized engine's compiled
/// state, so every query answers alike. No more is claimed: the bytes hold
/// the compiled form, which does not determine the list texts themselves
/// (texts that differ only in line endings or unparseable lines compile
/// alike).
#[verifier::external_body]
pub(crate) fn engine_serialize(e: &adblock::Engine) -> (r: Vec<u8>)
    ensures
        bytes_loadable(r@),
        forall|u: Seq<char>, s: Seq<char>, t: Seq<char>, m: Seq<char>|
            #[trigger] engine_blocks(texts_of_bytes(r@), u, s, t, m) == engine_blocks(
                engine_texts(*e),
                u,
                s,
                t,
                m,
            ),
        forall|u: Seq<char>|
            #[trigger] hide_selectors(texts_of_bytes(r@), u) == hide_selectors(
                engine_texts(*e),
                u,
            ),
{
    e.serialize()
}

/// Relies on `adblock::Engine::default` and `Engine::deserialize`: restoring
/// from bytes produced by `Engine::serialize` yields the engine that was
/// serialized; bytes in any other or outdated format are rejected.
#[verifier::external_body]
pub(crate) fn engine_load_bytes(data: &[u8]) -> (r: Option<adblock::Engine>)
    ensures
        r is Some <==> bytes_loadable(data@),
        r matches Some(e) ==> engine_texts(e) == texts_of_bytes(data@),
{
    let mut e = adblock::Engine::default();
    match e.deserialize(data) {
        Ok(()) => Some(e),
        Err(_) => None,
    }
}

/// Relies on `adblock::request::Request::new` (which fails exactly when the
/// request URL's hostname cannot be parsed) and
/// `Engine::check_network_request` / `BlockerResult::should_block`: the
/// verdict is a function of the compiled rules and the request alone.
#[verifier::external_body]
pub(crate) fn engine_check_request(
    e: &adblock::Engine,
    url: &str,
    source_url: &str,
    request_type: &str,
    method: &str,
) -> (r: Option<bool>)
    ensures
        r is Some <==> request_ok(url@),
        r matches Some(b) ==> b == engine_blocks(
            engine_texts(*e),
            url@,
            source_url@,
            request_type@,
            method@,
        ),
{
    match adblock::request::Request::new(url, source_url, request_type, method) {
        Ok(req) => Some(e.check_network_request(&req).should_block()),
        Err(_) => None,
    }
}

/// Relies on `adblock::Engine::url_cosmetic_resources`: `hide_selectors` is
/// a set of CSS selectors (so the vector below is duplicate-free and its
/// order is not specified), a function of the compiled rules and the page
/// URL alone.
#[verifier::external_body]
pub(crate) fn engine_hide_selectors(e: &adblock::Engine, url: &str) -> (r: Vec<String>)
    ensures
        r@.map_values(|s: String| s@).to_set() == hide_selectors(engine_texts(*e), url@),
        forall|i: int, j: int| 0 <= i < j < r@.len() ==> r@[i]@ != r@[j]@,
{
    e.url_cosmetic_resources(url).hide_selectors.into_iter().collect()
}

/// The `url-filter` patterns of the rules the declarative conversion
/// derives from `texts`, in document order. The conversion's rules and
/// their order are functions of the list texts alone; only the order
/// inside a rule's resource-type set varies between runs.
pub uninterp spec fn cb_url_filters(texts: Seq<Seq<char>>) -> Seq<Seq<char>>;

/// Whether the text holds no control character, so that its JSON string
/// escaping is the plain quote-and-backslash one.
pub open spec fn control_free(t: Seq<char>) -> bool {
    forall|j: int| 0 <= j < t.len() ==> (#[trigger] t[j]) as u32 >= 0x20
}

/// How one rule's `url-filter` member reads in the serialized document:
/// the field name, then the pattern as a JSON string literal.
pub open spec fn url_filter_fragment(t: Seq<char>) -> Seq<char> {
    "\"url-filter\":\""@ + json_escaped(t) + "\""@
}

/// Relies on `FilterSet::into_content_blocking` (which fails exactly when
/// the set was not created in debug mode) and `serde_json::to_string`
/// (which serializes a vector of plain rule structs as a JSON array,
/// infallibly). `url_filter` is the first member of each rule's trigger
/// and is renamed `url-filter`, so each rule contributes the fragment
/// `"url-filter":"<escaped pattern>"`; for a control-free pattern the
/// escaping is the plain quote-and-backslash one stated here. A rule's
/// resource types sit in a set whose serialization order is not fixed, so
/// nothing more is stated of the document's text.
#[verifier::external_body]
pub(crate) fn filter_set_to_cb_json(fs: adblock::lists::FilterSet) -> (r: Option<String>)
    ensures
        r is Some <==> filter_set_debug(fs),
        r matches Some(s) ==> s@.len() >= 2 && s@[0] == '[' && s@[s@.len() - 1] == ']',
        r matches Some(s) ==> forall|i: int|
            0 <= i < cb_url_filters(filter_texts(fs)).len() && control_free(
                #[trigger] cb_url_filters(filter_texts(fs))[i],
            ) ==> crate::text::contains_seq(
                s@,
                url_filter_fragment(cb_url_filters(filter_texts(fs))[i]),
            ),
{
    match fs.into_content_blocking() {
        Ok((rules, _)) => serde_json::to_string(&rules).ok(),
        Err(()) => None,
    }
}

} // verus!
