//! The content-filtering core: one compiled rule set behind an atomically
//! swappable handle, a concurrent time-bounded allowlist layered over it,
//! the hot-path queries (`should_block_request`, `get_cosmetic_css`), and
//! the compute stage of the background update pipeline.
//!
//! Time enters every time-sensitive operation as a plain `now` argument
//! (seconds since the Unix epoch); the shell reads the clock. Likewise the
//! shell fetches list texts and persists the artifacts this module hands
//! back; nothing here touches the disk or the network.

use vstd::prelude::*;
use crate::allowlist::{AllowMap, RuleExpiry, allow_entries, expiry_active, no_entries,
    render_allowlist_json, allowlist_json_spec, entry_views};
use crate::engine::{engine_blocks, engine_check_request, engine_empty, engine_from_filter_set,
    engine_load_bytes, engine_serialize, filter_set_add, filter_set_clone, filter_set_new,
    filter_set_to_cb_json, hide_selectors, request_ok, bytes_loadable, texts_of_bytes,
    cb_url_filters, control_free, url_filter_fragment};
use crate::safari::{augment_cb_document, lemma_with_exceptions_keeps_quoted,
    spec_with_exceptions, whitelist_domains};
use crate::store::{EngineStore, RuleDocCache, doc_text, store_texts};
use crate::text::{chars_of, ends_with, ends_with_exec, str_eq};
use crate::urlinfo::{extract_domain, spec_extract_domain};

verus! {

/// Whether the allowlist holds an entry for `domain` that is in force at
/// `now`.
pub open spec fn allow_active(
    allow: Map<Seq<char>, Option<u64>>,
    domain: Seq<char>,
    now: u64,
) -> bool {
    allow.dom().contains(domain) && expiry_active(allow[domain], now)
}

/// Whether the page or initiator behind `url` is allowlisted at `now`: its
/// domain has an entry in force. A URL whose host is no
/// domain is never allowlisted.
pub open spec fn initiator_allowlisted(
    allow: Map<Seq<char>, Option<u64>>,
    url: Seq<char>,
    now: u64,
) -> bool {
    match spec_extract_domain(url) {
        Some(d) => allow_active(allow, d, now),
        None => false,
    }
}

/// The blocking decision: an allowlisted initiator is a hard override; a
/// request URL the engine cannot parse fails open; otherwise the compiled
/// rules decide.
pub open spec fn spec_should_block(
    allow: Map<Seq<char>, Option<u64>>,
    texts: Seq<Seq<char>>,
    url: Seq<char>,
    source_url: Seq<char>,
    request_type: Seq<char>,
    now: u64,
) -> bool {
    if initiator_allowlisted(allow, source_url, now) {
        false
    } else if !request_ok(url) {
        false
    } else {
        engine_blocks(texts, url, source_url, request_type, "GET"@)
    }
}

/// The domains of the webmail context that cosmetic filtering always skips.
pub open spec fn webmail_domain(d: Seq<char>) -> bool {
    ||| d == "mail.google.com"@
    ||| ends_with(d, ".mail.google.com"@)
    ||| d == "gmail.com"@
    ||| ends_with(d, ".gmail.com"@)
}

/// Whether `url`'s domain is part of the webmail context.
pub open spec fn webmail_url(url: Seq<char>) -> bool {
    match spec_extract_domain(url) {
        Some(d) => webmail_domain(d),
        None => false,
    }
}

/// Whether a page is exempt from cosmetic hiding: allowlisted, or in the
/// product's fixed webmail exemption set.
pub open spec fn spec_cosmetic_exempt(
    allow: Map<Seq<char>, Option<u64>>,
    url: Seq<char>,
    now: u64,
) -> bool {
    initiator_allowlisted(allow, url, now) || webmail_url(url)
}

/// One rendered hiding rule.
pub open spec fn css_rule(sel: Seq<char>) -> Seq<char> {
    sel + " { display: none !important; }\n"@
}

/// The hiding rules for the given selectors, in order.
pub open spec fn css_of_selectors(sels: Seq<Seq<char>>) -> Seq<char>
    decreases sels.len(),
{
    if sels.len() == 0 {
        Seq::empty()
    } else {
        css_of_selectors(sels.drop_last()) + css_rule(sels.last())
    }
}

/// The fixed exception filter lines injected into every compiled engine:
/// when on the webmail pages, requests to Google's own infrastructure are
/// allowed. Independent of fetch success.
pub open spec fn webmail_rules_text() -> Seq<char> {
    "@@||google.com^$domain=mail.google.com|gmail.com\n@@||gstatic.com^$domain=mail.google.com|gmail.com\n@@||googleusercontent.com^$domain=mail.google.com|gmail.com\n@@||googleapis.com^$domain=mail.google.com|gmail.com\n@@||ggpht.com^$domain=mail.google.com|gmail.com"@
}

/// The fixed exception filter lines, as list text.
pub fn webmail_filter_rules() -> (r: &'static str)
    ensures
        r@ == webmail_rules_text(),
{
    "@@||google.com^$domain=mail.google.com|gmail.com\n@@||gstatic.com^$domain=mail.google.com|gmail.com\n@@||googleusercontent.com^$domain=mail.google.com|gmail.com\n@@||googleapis.com^$domain=mail.google.com|gmail.com\n@@||ggpht.com^$domain=mail.google.com|gmail.com"
}

/// What one pipeline run compiles: the fetched list texts, in order, plus
/// the fixed webmail exception lines.
pub open spec fn pipeline_texts(tv: Seq<Seq<char>>) -> Seq<Seq<char>> {
    tv.push(webmail_rules_text())
}

/// Whether every fetched text is empty — the outage case, in which the run
/// is abandoned.
pub open spec fn all_texts_empty(tv: Seq<Seq<char>>) -> bool {
    forall|i: int| 0 <= i < tv.len() ==> #[trigger] tv[i].len() == 0
}

/// The shape the declarative conversion yields: one JSON array.
pub open spec fn cb_array_shape(base: Seq<char>) -> bool {
    base.len() >= 2 && base[0] == '[' && base[base.len() - 1] == ']'
}

/// Whether `doc` is a converted rule array with the synthesized webmail
/// allow-rules appended — regenerated as one whole document.
pub open spec fn is_augmented_doc(doc: Seq<char>) -> bool {
    exists|base: Seq<char>|
        cb_array_shape(base) && doc == #[trigger] spec_with_exceptions(base, whitelist_domains())
}

/// The expiry instant `now + d`, saturating at the largest representable
/// time.
pub open spec fn expiry_deadline(now: u64, d: u64) -> u64 {
    if now + d <= u64::MAX {
        (now + d) as u64
    } else {
        u64::MAX
    }
}

/// The allowlist value an exception with the given duration gets: `None`
/// (permanent) without a duration, otherwise in force until `now + d`.
pub open spec fn spec_new_expiry(duration_secs: Option<u64>, now: u64) -> Option<u64> {
    match duration_secs {
        None => None,
        Some(d) => Some(expiry_deadline(now, d)),
    }
}

/// How a user command changes the allowlist: `1hour` and `24hours` insert a
/// bounded entry, `forever` a permanent one, `off` removes the entry; any
/// other word, or a URL whose host is no domain name, changes nothing.
pub open spec fn spec_allow_after_command(
    allow: Map<Seq<char>, Option<u64>>,
    url: Seq<char>,
    kind: Seq<char>,
    now: u64,
) -> Map<Seq<char>, Option<u64>> {
    match spec_extract_domain(url) {
        None => allow,
        Some(d) => {
            if kind == "1hour"@ {
                allow.insert(d, Some(expiry_deadline(now, 3600)))
            } else if kind == "24hours"@ {
                allow.insert(d, Some(expiry_deadline(now, 86400)))
            } else if kind == "forever"@ {
                allow.insert(d, None)
            } else if kind == "off"@ {
                allow.remove(d)
            } else {
                allow
            }
        },
    }
}

/// A map built by binding every pair of `l` in order over `m`.
pub open spec fn inserted_all(
    m: Map<Seq<char>, Option<u64>>,
    l: Seq<(Seq<char>, Option<u64>)>,
) -> Map<Seq<char>, Option<u64>>
    decreases l.len(),
{
    if l.len() == 0 {
        m
    } else {
        inserted_all(m, l.drop_last()).insert(l.last().0, l.last().1)
    }
}

/// Whether `l` lists exactly the entries of `m`, each once, in some order.
pub open spec fn lists_entries(
    l: Seq<(Seq<char>, Option<u64>)>,
    m: Map<Seq<char>, Option<u64>>,
) -> bool {
    &&& forall|i: int| 0 <= i < l.len() ==> m.contains_pair(#[trigger] l[i].0, l[i].1)
    &&& forall|i: int, j: int| 0 <= i < j < l.len() ==> l[i].0 != l[j].0
    &&& forall|k: Seq<char>|
        m.dom().contains(k) ==> exists|i: int| 0 <= i < l.len() && #[trigger] l[i].0 == k
}

/// What a successful pipeline run hands back for the shell to persist.
pub struct UpdateArtifacts {
    /// The new engine's binary cache form.
    pub engine_bytes: Vec<u8>,
    /// The new declarative rule document, on the platform that needs one.
    pub safari_json: Option<String>,
}

/// The filtering core. One value of it serves every tab: wait-free reads of
/// the compiled rules, concurrent allowlist updates, and wholesale
/// replacement of the rules by the update pipeline.
pub struct AdBlockManager {
    engine: EngineStore,
    allowlist: AllowMap,
    safari_rules: RuleDocCache,
}

impl AdBlockManager {
    /// The filter-list texts of the currently active engine.
    pub closed spec fn engine_view(&self) -> Seq<Seq<char>> {
        store_texts(self.engine)
    }

    /// The allowlist contents: domain to expiry.
    pub closed spec fn allow_view(&self) -> Map<Seq<char>, Option<u64>> {
        allow_entries(self.allowlist)
    }

    /// The currently active declarative rule document.
    pub closed spec fn safari_view(&self) -> Seq<char> {
        doc_text(self.safari_rules)
    }

    /// A fresh manager: empty engine, empty allowlist, empty rule document.
    /// The shell then installs whatever caches survive on disk.
    pub fn new() -> (m: AdBlockManager)
        ensures
            m.engine_view() == Seq::<Seq<char>>::empty(),
            m.allow_view() == no_entries(),
            m.safari_view() == "[]"@,
    {
        AdBlockManager {
            engine: EngineStore::new(engine_empty()),
            allowlist: AllowMap::new(),
            safari_rules: RuleDocCache::new(String::from_str("[]")),
        }
    }

    /// Installs the engine serialized by an earlier run, if the bytes still
    /// deserialize; on failure the engine in place stays, so startup never
    /// fails, it only degrades to whatever was active. The restored engine
    /// carries the bytes' text model; for bytes that came from
    /// `apply_update` that model classifies every request and page exactly
    /// as the engine that was serialized did (the serializer's round-trip
    /// contract), not necessarily under the same list texts.
    pub fn install_engine_cache(&mut self, data: &[u8]) -> (ok: bool)
        ensures
            ok == bytes_loadable(data@),
            ok ==> final(self).engine_view() == texts_of_bytes(data@),
            !ok ==> final(self).engine_view() == old(self).engine_view(),
            final(self).allow_view() == old(self).allow_view(),
            final(self).safari_view() == old(self).safari_view(),
    {
        match engine_load_bytes(data) {
            Some(e) => {
                self.engine.store(e);
                true
            },
            None => false,
        }
    }

    /// Installs a declarative rule document read back from cache.
    pub fn install_safari_cache(&mut self, doc: String)
        ensures
            final(self).safari_view() == doc@,
            final(self).engine_view() == old(self).engine_view(),
            final(self).allow_view() == old(self).allow_view(),
    {
        self.safari_rules.store(doc);
    }

    /// Installs allowlist entries read back from disk, in order; a later
    /// entry for the same domain wins.
    pub fn install_allowlist(&mut self, entries: Vec<(String, RuleExpiry)>)
        ensures
            final(self).allow_view() == inserted_all(old(self).allow_view(), entry_views(entries@)),
            final(self).engine_view() == old(self).engine_view(),
            final(self).safari_view() == old(self).safari_view(),
    {
        let ghost l = entry_views(entries@);
        let n: usize = entries.len();
        let mut i: usize = 0;
        while i < n
            invariant
                i <= n,
                n == entries@.len(),
                l == entry_views(entries@),
                l.len() == n,
                allow_entries(self.allowlist) == inserted_all(
                    allow_entries(old(self).allowlist),
                    l.subrange(0, i as int),
                ),
                self.engine == old(self).engine,
                self.safari_rules == old(self).safari_rules,
            decreases n - i,
        {
            let domain = entries[i].0.clone();
            let expiry = entries[i].1;
            self.allowlist.insert(domain, expiry);
            proof {
                assert(l.subrange(0, i + 1).drop_last() =~= l.subrange(0, i as int));
                assert(l[i as int] == (entries@[i as int].0@, entries@[i as int].1@));
            }
            i += 1;
        }
        proof {
            assert(l.subrange(0, n as int) =~= l);
        }
    }

    /// Whether a request should be blocked, decided in this order: an
    /// initiator whose domain is allowlisted at `now` is never blocked; a
    /// request URL the engine cannot parse fails open (not blocked);
    /// otherwise the active engine's verdict stands.
    pub fn should_block_request(
        &self,
        url: &str,
        source_url: &str,
        request_type: &str,
        now: u64,
    ) -> (r: bool)
        ensures
            r == spec_should_block(
                self.allow_view(),
                self.engine_view(),
                url@,
                source_url@,
                request_type@,
                now,
            ),
    {
        match extract_domain(source_url) {
            Some(domain) => {
                match self.allowlist.get(domain.as_str()) {
                    Some(expiry) => {
                        if expiry.is_active(now) {
                            return false;
                        }
                    },
                    None => {},
                }
            },
            None => {},
        }
        let engine = self.engine.load();
        match engine_check_request(&*engine, url, source_url, request_type, "GET") {
            Some(blocked) => blocked,
            None => false,
        }
    }

    /// Whether `url`'s domain has an allowlist entry in force at `now`.
    pub fn is_exception(&self, url: &str, now: u64) -> (r: bool)
        ensures
            r == initiator_allowlisted(self.allow_view(), url@, now),
    {
        match extract_domain(url) {
            Some(domain) => {
                match self.allowlist.get(domain.as_str()) {
                    Some(expiry) => expiry.is_active(now),
                    None => false,
                }
            },
            None => false,
        }
    }

    /// Whether the URL belongs to the webmail context that cosmetic
    /// filtering always skips.
    pub fn is_webmail_domain(url: &str) -> (r: bool)
        ensures
            r == webmail_url(url@),
    {
        match extract_domain(url) {
            Some(domain) => {
                let d = chars_of(domain.as_str());
                let m1 = chars_of("mail.google.com");
                let m2 = chars_of(".mail.google.com");
                let m3 = chars_of("gmail.com");
                let m4 = chars_of(".gmail.com");
                crate::text::chars_eq(d.as_slice(), m1.as_slice()) || ends_with_exec(
                    d.as_slice(),
                    m2.as_slice(),
                ) || crate::text::chars_eq(d.as_slice(), m3.as_slice()) || ends_with_exec(
                    d.as_slice(),
                    m4.as_slice(),
                )
            },
            None => false,
        }
    }

    /// The hiding rules for a page: empty when the page is allowlisted or
    /// in the webmail exemption set, otherwise one `display: none` rule per
    /// selector the active engine hides there.
    pub fn get_cosmetic_css(&self, url: &str, now: u64) -> (r: String)
        ensures
            spec_cosmetic_exempt(self.allow_view(), url@, now) ==> r@ == Seq::<char>::empty(),
            !spec_cosmetic_exempt(self.allow_view(), url@, now) ==> exists|sels: Seq<Seq<char>>|
                {
                    &&& #[trigger] sels.to_set() == hide_selectors(self.engine_view(), url@)
                    &&& sels.no_duplicates()
                    &&& r@ == css_of_selectors(sels)
                },
    {
        if self.is_exception(url, now) || Self::is_webmail_domain(url) {
            return String::new();
        }
        let engine = self.engine.load();
        let selectors = crate::engine::engine_hide_selectors(&*engine, url);
        let ghost sv: Seq<Seq<char>> = selectors@.map_values(|s: String| s@);
        let mut out: Vec<char> = Vec::new();
        let mut i: usize = 0;
        while i < selectors.len()
            invariant
                i <= selectors@.len(),
                sv == selectors@.map_values(|s: String| s@),
                sv.len() == selectors@.len(),
                out@ == css_of_selectors(sv.subrange(0, i as int)),
            decreases selectors.len() - i,
        {
            crate::text::push_str_chars(&mut out, selectors[i].as_str());
            crate::text::push_str_chars(&mut out, " { display: none !important; }\n");
            proof {
                assert(sv.subrange(0, i + 1).drop_last() =~= sv.subrange(0, i as int));
                assert(sv.subrange(0, i + 1).last() == sv[i as int]);
                assert(sv[i as int] == selectors@[i as int]@);
                assert(out@ =~= css_of_selectors(sv.subrange(0, i + 1)));
            }
            i += 1;
        }
        proof {
            assert(sv.subrange(0, sv.len() as int) =~= sv);
            assert forall|i1: int, j1: int|
                0 <= i1 < sv.len() && 0 <= j1 < sv.len() && i1 != j1 implies sv[i1] != sv[j1] by {
                if i1 < j1 {
                    assert(selectors@[i1]@ != selectors@[j1]@);
                } else {
                    assert(selectors@[j1]@ != selectors@[i1]@);
                }
            }
            assert(sv.to_set() == hide_selectors(self.engine_view(), url@));
            assert(sv.no_duplicates());
        }
        crate::text::string_from_chars(out.as_slice())
    }

    /// Grants an exception for `domain`: permanent without a duration,
    /// otherwise in force for `duration_secs` seconds from `now`.
    pub fn add_exception(&mut self, domain: String, duration_secs: Option<u64>, now: u64)
        ensures
            final(self).allow_view() == old(self).allow_view().insert(
                domain@,
                spec_new_expiry(duration_secs, now),
            ),
            final(self).engine_view() == old(self).engine_view(),
            final(self).safari_view() == old(self).safari_view(),
    {
        let expiry = match duration_secs {
            Some(d) => {
                let deadline = match now.checked_add(d) {
                    Some(t) => t,
                    None => u64::MAX,
                };
                RuleExpiry::Until(deadline)
            },
            None => RuleExpiry::Forever,
        };
        self.allowlist.insert(domain, expiry);
    }

    /// Withdraws any exception for `domain`.
    pub fn remove_exception(&mut self, domain: &str)
        ensures
            final(self).allow_view() == old(self).allow_view().remove(domain@),
            final(self).engine_view() == old(self).engine_view(),
            final(self).safari_view() == old(self).safari_view(),
    {
        self.allowlist.remove(domain);
    }

    /// Applies a user command on a page URL: grant for an hour, a day or
    /// permanently, or switch the exception off.
    pub fn set_site_exception(&mut self, url: &str, duration_type: &str, now: u64)
        ensures
            final(self).allow_view() == spec_allow_after_command(
                old(self).allow_view(),
                url@,
                duration_type@,
                now,
            ),
            final(self).engine_view() == old(self).engine_view(),
            final(self).safari_view() == old(self).safari_view(),
    {
        match extract_domain(url) {
            Some(domain) => {
                if str_eq(duration_type, "1hour") {
                    self.add_exception(domain, Some(3600), now);
                } else if str_eq(duration_type, "24hours") {
                    self.add_exception(domain, Some(86400), now);
                } else if str_eq(duration_type, "forever") {
                    self.add_exception(domain, None, now);
                } else if str_eq(duration_type, "off") {
                    self.remove_exception(domain.as_str());
                }
            },
            None => {},
        }
    }

    /// Every allowlist entry, in no fixed order.
    pub fn get_exceptions(&self) -> (r: Vec<(String, RuleExpiry)>)
        ensures
            lists_entries(entry_views(r@), self.allow_view()),
    {
        let r = self.allowlist.entries();
        proof {
            let l = entry_views(r@);
            assert forall|i: int| 0 <= i < l.len() implies self.allow_view().contains_pair(
                #[trigger] l[i].0,
                l[i].1,
            ) by {
                assert(allow_entries(self.allowlist).contains_pair(r@[i].0@, r@[i].1@));
            }
            assert forall|k: Seq<char>| self.allow_view().dom().contains(k) implies exists|i: int|
                0 <= i < l.len() && #[trigger] l[i].0 == k by {
                let i = choose|i: int| 0 <= i < r@.len() && #[trigger] r@[i].0@ == k;
                assert(l[i].0 == k);
            }
        }
        r
    }

    /// The allowlist as the JSON document in which it is persisted: an
    /// object mapping each domain to `"Forever"` or `{"Until":t}`, entries
    /// in no fixed order.
    pub fn allowlist_json(&self) -> (r: String)
        ensures
            exists|l: Seq<(Seq<char>, Option<u64>)>|
                #[trigger] lists_entries(l, self.allow_view()) && r@ == allowlist_json_spec(l),
    {
        let entries = self.get_exceptions();
        let r = render_allowlist_json(&entries);
        proof {
            let l = entry_views(entries@);
            assert(lists_entries(l, self.allow_view()) && r@ == allowlist_json_spec(l));
        }
        r
    }

    /// The currently active declarative rule document.
    pub fn get_safari_rules(&self) -> (r: String)
        ensures
            r@ == self.safari_view(),
    {
        self.safari_rules.load()
    }

    /// The compute stage of one pipeline run, on the list texts the shell
    /// fetched. If every text is empty — the outage case — nothing changes
    /// and no artifacts come back: a network outage never degrades to an
    /// unfiltered state. Otherwise the texts plus the fixed webmail
    /// exception lines are compiled; the new engine is published wholesale
    /// and its cache form handed back — bytes that restore an engine
    /// classifying every request and page as the new one does — and, when
    /// `build_declarative` is set, the declarative document is
    /// regenerated, published and handed back too.
    pub fn apply_update(
        &mut self,
        texts: &Vec<String>,
        build_declarative: bool,
    ) -> (r: Option<UpdateArtifacts>)
        ensures
            ({
                let tv = texts@.map_values(|t: String| t@);
                &&& (r is None <==> all_texts_empty(tv))
                &&& (r is None ==> final(self).engine_view() == old(self).engine_view()
                    && final(self).safari_view() == old(self).safari_view())
                &&& (r matches Some(a) ==> {
                    &&& final(self).engine_view() == pipeline_texts(tv)
                    &&& bytes_loadable(a.engine_bytes@)
                    &&& (forall|u: Seq<char>, s: Seq<char>, t: Seq<char>, m: Seq<char>|
                        #[trigger] engine_blocks(texts_of_bytes(a.engine_bytes@), u, s, t, m)
                            == engine_blocks(pipeline_texts(tv), u, s, t, m))
                    &&& (forall|u: Seq<char>|
                        #[trigger] hide_selectors(texts_of_bytes(a.engine_bytes@), u)
                            == hide_selectors(pipeline_texts(tv), u))
                    &&& (a.safari_json is Some <==> build_declarative)
                    &&& (a.safari_json matches Some(doc) ==> is_augmented_doc(doc@)
                        && final(self).safari_view() == doc@)
                    &&& (a.safari_json matches Some(doc) ==> forall|i: int|
                        0 <= i < cb_url_filters(pipeline_texts(tv)).len() && control_free(
                            #[trigger] cb_url_filters(pipeline_texts(tv))[i],
                        ) ==> crate::text::contains_seq(
                            doc@,
                            url_filter_fragment(cb_url_filters(pipeline_texts(tv))[i]),
                        ))
                    &&& (!build_declarative ==> final(self).safari_view() == old(self).safari_view())
                })
                &&& final(self).allow_view() == old(self).allow_view()
            }),
    {
        let ghost tv: Seq<Seq<char>> = texts@.map_values(|t: String| t@);
        let n: usize = texts.len();
        let mut any_content = false;
        let mut i: usize = 0;
        while i < n
            invariant
                i <= n,
                n == texts@.len(),
                tv == texts@.map_values(|t: String| t@),
                tv.len() == n,
                any_content == !all_texts_empty(tv.subrange(0, i as int)),
            decreases n - i,
        {
            let empty_text = texts[i].as_str().is_empty();
            proof {
                let pre = tv.subrange(0, i as int);
                let post = tv.subrange(0, i + 1);
                assert(post[i as int] == tv[i as int]);
                assert(forall|k: int| 0 <= k < i ==> post[k] == #[trigger] pre[k]);
                if !empty_text {
                    assert(post[i as int].len() != 0);
                    assert(!all_texts_empty(post));
                } else if any_content {
                    let k = choose|k: int| 0 <= k < pre.len() && #[trigger] pre[k].len() != 0;
                    assert(post[k].len() != 0);
                    assert(!all_texts_empty(post));
                } else {
                    assert forall|k: int| 0 <= k < post.len() implies #[trigger] post[k].len()
                        == 0 by {
                        if k < i {
                            assert(pre[k].len() == 0);
                        } else {
                            assert(post[k] == tv[i as int]);
                        }
                    }
                    assert(all_texts_empty(post));
                }
            }
            if !empty_text {
                any_content = true;
            }
            i += 1;
        }
        proof {
            assert(tv.subrange(0, n as int) =~= tv);
        }
        if !any_content {
            return None;
        }
        let mut fs = filter_set_new(true);
        let mut j: usize = 0;
        while j < n
            invariant
                j <= n,
                n == texts@.len(),
                tv == texts@.map_values(|t: String| t@),
                tv.len() == n,
                crate::engine::filter_texts(fs) == tv.subrange(0, j as int),
                crate::engine::filter_set_debug(fs),
            decreases n - j,
        {
            filter_set_add(&mut fs, texts[j].as_str());
            proof {
                assert(tv.subrange(0, j as int).push(tv[j as int]) =~= tv.subrange(0, j + 1));
            }
            j += 1;
        }
        proof {
            assert(tv.subrange(0, n as int) =~= tv);
        }
        filter_set_add(&mut fs, webmail_filter_rules());
        let declarative_set = if build_declarative {
            Some(filter_set_clone(&fs))
        } else {
            None
        };
        let new_engine = engine_from_filter_set(fs);
        let cache_bytes = engine_serialize(&new_engine);
        self.engine.store(new_engine);
        let safari_json = match declarative_set {
            Some(ds) => {
                let ghost compiled = crate::engine::filter_texts(ds);
                match filter_set_to_cb_json(ds) {
                    Some(base) => {
                        let doc = augment_cb_document(base.as_str());
                        proof {
                            reveal_strlit("\"");
                            assert forall|k: int|
                                0 <= k < cb_url_filters(compiled).len() && control_free(
                                    #[trigger] cb_url_filters(compiled)[k],
                                ) implies crate::text::contains_seq(
                                doc@,
                                url_filter_fragment(cb_url_filters(compiled)[k]),
                            ) by {
                                let frag = url_filter_fragment(cb_url_filters(compiled)[k]);
                                assert(crate::text::contains_seq(base@, frag));
                                assert("\""@.len() == 1 && "\""@[0] == '"');
                                assert(frag.last() == '"');
                                lemma_with_exceptions_keeps_quoted(
                                    base@,
                                    whitelist_domains(),
                                    frag,
                                );
                            }
                        }
                        self.safari_rules.store(doc.clone());
                        Some(doc)
                    },
                    None => None,
                }
            },
            None => None,
        };
        Some(UpdateArtifacts { engine_bytes: cache_bytes, safari_json })
    }
}

/// An allowlist entry in force is a hard override: whatever rules are
/// compiled and whatever the request, a request whose initiator's domain
/// has an active entry is never blocked.
pub proof fn lemma_allowlisted_never_blocked(
    allow: Map<Seq<char>, Option<u64>>,
    texts: Seq<Seq<char>>,
    url: Seq<char>,
    source_url: Seq<char>,
    request_type: Seq<char>,
    now: u64,
)
    requires
        initiator_allowlisted(allow, source_url, now),
    ensures
        !spec_should_block(allow, texts, url, source_url, request_type, now),
{
}

/// A page whose domain has an allowlist entry in force gets no cosmetic
/// hiding, whatever rules are compiled.
pub proof fn lemma_allowlisted_css_exempt(
    allow: Map<Seq<char>, Option<u64>>,
    url: Seq<char>,
    now: u64,
)
    requires
        initiator_allowlisted(allow, url, now),
    ensures
        spec_cosmetic_exempt(allow, url, now),
{
}

/// Granting a permanent exception for a page is enough to unblock every
/// request it initiates: after the `forever` command on a URL with a
/// domain, no request with that URL as initiator is blocked, whatever
/// rules are compiled.
pub proof fn lemma_forever_command_unblocks(
    allow: Map<Seq<char>, Option<u64>>,
    texts: Seq<Seq<char>>,
    page_url: Seq<char>,
    url: Seq<char>,
    request_type: Seq<char>,
    now: u64,
)
    requires
        spec_extract_domain(page_url) is Some,
    ensures
        !spec_should_block(
            spec_allow_after_command(allow, page_url, "forever"@, now),
            texts,
            url,
            page_url,
            request_type,
            now,
        ),
{
    reveal_strlit("1hour");
    reveal_strlit("24hours");
    reveal_strlit("forever");
    let d = spec_extract_domain(page_url)->Some_0;
    let granted = spec_allow_after_command(allow, page_url, "forever"@, now);
    assert("forever"@.len() == 7);
    assert("1hour"@.len() == 5);
    assert("24hours"@.len() == 7);
    assert("forever"@ != "1hour"@);
    assert("forever"@[0] == 'f' && "24hours"@[0] == '2');
    assert("forever"@ != "24hours"@);
    assert(granted == allow.insert(d, None));
    assert(allow_active(granted, d, now));
}

/// An entry whose deadline has passed is as if absent: with `t <= now`,
/// every decision under `allow.insert(d, Some(t))` equals the decision
/// under `allow.remove(d)`.
pub proof fn lemma_expired_entry_is_absent(
    allow: Map<Seq<char>, Option<u64>>,
    texts: Seq<Seq<char>>,
    d: Seq<char>,
    t: u64,
    url: Seq<char>,
    source_url: Seq<char>,
    request_type: Seq<char>,
    now: u64,
)
    requires
        t <= now,
    ensures
        spec_should_block(allow.insert(d, Some(t)), texts, url, source_url, request_type, now)
            == spec_should_block(allow.remove(d), texts, url, source_url, request_type, now),
        spec_cosmetic_exempt(allow.insert(d, Some(t)), url, now) == spec_cosmetic_exempt(
            allow.remove(d),
            url,
            now,
        ),
        forall|u: Seq<char>|
            #[trigger] initiator_allowlisted(allow.insert(d, Some(t)), u, now)
                == initiator_allowlisted(allow.remove(d), u, now),
{
    let with_entry = allow.insert(d, Some(t));
    let without = allow.remove(d);
    assert forall|u: Seq<char>| true implies initiator_allowlisted(with_entry, u, now)
        == initiator_allowlisted(without, u, now) by {
        match spec_extract_domain(u) {
            Some(dom) => {
                if dom == d {
                    assert(!expiry_active(with_entry[dom], now));
                    assert(!without.dom().contains(dom));
                } else {
                    assert(with_entry.dom().contains(dom) == allow.dom().contains(dom));
                    assert(without.dom().contains(dom) == allow.dom().contains(dom));
                    if allow.dom().contains(dom) {
                        assert(with_entry[dom] == allow[dom]);
                        assert(without[dom] == allow[dom]);
                    }
                }
            },
            None => {},
        }
    }
}

/// Compiling the same filter text twice yields engines that classify every
/// request and every page identically: each verdict is a function of the
/// filter text alone.
pub proof fn lemma_same_texts_same_verdicts(
    t1: Seq<Seq<char>>,
    t2: Seq<Seq<char>>,
    allow: Map<Seq<char>, Option<u64>>,
    url: Seq<char>,
    source_url: Seq<char>,
    request_type: Seq<char>,
    now: u64,
)
    requires
        t1 == t2,
    ensures
        spec_should_block(allow, t1, url, source_url, request_type, now) == spec_should_block(
            allow,
            t2,
            url,
            source_url,
            request_type,
            now,
        ),
        hide_selectors(t1, url) == hide_selectors(t2, url),
{
}

} // verus!
