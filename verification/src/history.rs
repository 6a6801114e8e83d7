//! Visit history: an in-memory index of visited URLs and the scored search
//! behind the address-bar dropdown.
//!
//! The append-only log the index is replayed from, and every write to it,
//! belong to the shell; this module holds the index itself and the scoring.
//! Matching is ASCII-case-insensitive.

use vstd::prelude::*;
use crate::text::{chars_of, spec_trim, trim_chars};
use crate::urlinfo::{host_of, normal_form, parse_url, url_has_host, url_ok};

verus! {

/// One remembered URL.
#[derive(Debug)]
pub struct HistoryEntry {
    pub url: String,
    pub title: String,
    /// Epoch second of the most recent visit.
    pub last_visit: u64,
    pub visit_count: u64,
    pub typed_count: u64,
}

impl Clone for HistoryEntry {
    /// An exact copy, field for field.
    fn clone(&self) -> (r: Self)
        ensures
            r == *self,
    {
        HistoryEntry {
            url: self.url.clone(),
            title: self.title.clone(),
            last_visit: self.last_visit,
            visit_count: self.visit_count,
            typed_count: self.typed_count,
        }
    }
}

/// One search result: an entry with its score, and whether it is a strong
/// enough prefix match to complete inline.
#[derive(Debug)]
pub struct HistoryEntryScoped {
    pub url: String,
    pub title: String,
    pub score: u64,
    pub is_ghost_candidate: bool,
}

impl Clone for HistoryEntryScoped {
    /// An exact copy, field for field.
    fn clone(&self) -> (r: Self)
        ensures
            r == *self,
    {
        HistoryEntryScoped {
            url: self.url.clone(),
            title: self.title.clone(),
            score: self.score,
            is_ghost_candidate: self.is_ghost_candidate,
        }
    }
}

/// A character's code point with an upper-case ASCII letter folded to its
/// lower-case one.
pub open spec fn fold_code(c: char) -> u32 {
    if 65 <= c as u32 <= 90 {
        (c as u32 + 32) as u32
    } else {
        c as u32
    }
}

fn fold_code_exec(c: char) -> (r: u32)
    ensures
        r == fold_code(c),
{
    let u = c as u32;
    if 65 <= u && u <= 90 {
        u + 32
    } else {
        u
    }
}

/// Whether `pat` stands at `pos` in `s`, up to ASCII case.
pub open spec fn fold_prefix_at(s: Seq<char>, pos: int, pat: Seq<char>) -> bool {
    0 <= pos && pos + pat.len() <= s.len() && forall|j: int|
        0 <= j < pat.len() ==> fold_code(s[pos + j]) == fold_code(#[trigger] pat[j])
}

/// Whether `pat` stands anywhere in `s`, up to ASCII case.
pub open spec fn fold_contains(s: Seq<char>, pat: Seq<char>) -> bool {
    exists|i: int| fold_prefix_at(s, i, pat)
}

fn fold_prefix_at_exec(s: &[char], pos: usize, pat: &[char]) -> (r: bool)
    requires
        pos <= s@.len(),
    ensures
        r == fold_prefix_at(s@, pos as int, pat@),
{
    let n: usize = s.len();
    if pat.len() > n - pos {
        return false;
    }
    let mut j: usize = 0;
    while j < pat.len()
        invariant
            j <= pat@.len(),
            n == s@.len(),
            pos + pat@.len() <= n,
            forall|k: int| 0 <= k < j ==> fold_code(s@[pos + k]) == fold_code(#[trigger] pat@[k]),
        decreases pat.len() - j,
    {
        if fold_code_exec(s[pos + j]) != fold_code_exec(pat[j]) {
            return false;
        }
        j += 1;
    }
    true
}

fn fold_contains_exec(s: &[char], pat: &[char]) -> (r: bool)
    ensures
        r == fold_contains(s@, pat@),
{
    if pat.len() > s.len() {
        assert(forall|i: int| !fold_prefix_at(s@, i, pat@));
        return false;
    }
    if pat.len() == 0 {
        assert(fold_prefix_at(s@, 0, pat@));
        return true;
    }
    let n: usize = s.len();
    let last: usize = n - pat.len();
    let mut i: usize = 0;
    while i <= last
        invariant
            i <= last + 1,
            n == s@.len(),
            pat@.len() >= 1,
            last + pat@.len() == s@.len(),
            forall|k: int| 0 <= k < i ==> !fold_prefix_at(s@, k, pat@),
        decreases last + 1 - i,
    {
        if fold_prefix_at_exec(s, i, pat) {
            return true;
        }
        i += 1;
    }
    assert(forall|k: int| fold_prefix_at(s@, k, pat@) ==> 0 <= k <= last);
    false
}

/// Where `s` continues after every leading repetition of `pat` (compared up
/// to ASCII case) from `pos` on.
pub open spec fn strip_offset(s: Seq<char>, pos: int, pat: Seq<char>) -> int
    decreases s.len() - pos,
{
    if pat.len() > 0 && 0 <= pos && pos + pat.len() <= s.len() && fold_prefix_at(s, pos, pat) {
        strip_offset(s, pos + pat.len(), pat)
    } else {
        pos
    }
}

proof fn lemma_strip_offset_bounds(s: Seq<char>, pos: int, pat: Seq<char>)
    requires
        0 <= pos <= s.len(),
        pat.len() > 0,
    ensures
        pos <= strip_offset(s, pos, pat) <= s.len(),
    decreases s.len() - pos,
{
    if pos + pat.len() <= s.len() && fold_prefix_at(s, pos, pat) {
        lemma_strip_offset_bounds(s, pos + pat.len(), pat);
    }
}

fn strip_offset_exec(s: &[char], pos: usize, pat: &[char]) -> (r: usize)
    requires
        pos <= s@.len(),
        pat@.len() > 0,
    ensures
        r as int == strip_offset(s@, pos as int, pat@),
        pos <= r <= s@.len(),
    decreases s@.len() - pos,
{
    proof {
        lemma_strip_offset_bounds(s@, pos as int, pat@);
    }
    if pat.len() <= s.len() - pos && fold_prefix_at_exec(s, pos, pat) {
        strip_offset_exec(s, pos + pat.len(), pat)
    } else {
        pos
    }
}

/// Where the scheme-less part of a URL's text begins: leading `https://`
/// repetitions stripped, then leading `http://` repetitions.
pub open spec fn schemeless_start(url: Seq<char>) -> int {
    strip_offset(url, strip_offset(url, 0, "https://"@), "http://"@)
}

/// The host of the URL's text, or empty when it does not parse or has no
/// host.
pub open spec fn host_text(url: Seq<char>) -> Seq<char> {
    if url_ok(url) && url_has_host(url) {
        host_of(url)
    } else {
        Seq::empty()
    }
}

/// `a + b`, saturating.
pub open spec fn s_add(a: u64, b: u64) -> u64 {
    if a + b <= u64::MAX {
        (a + b) as u64
    } else {
        u64::MAX
    }
}

/// `a * b`, saturating.
pub open spec fn s_mul(a: u64, b: u64) -> u64 {
    if a * b <= u64::MAX {
        (a * b) as u64
    } else {
        u64::MAX
    }
}

fn s_mul_exec(a: u64, b: u64) -> (r: u64)
    ensures
        r == s_mul(a, b),
{
    match a.checked_mul(b) {
        Some(v) => v,
        None => u64::MAX,
    }
}

/// How many whole days ago the last visit was, never negative.
pub open spec fn spec_age_days(last_visit: u64, now: u64) -> int {
    if now >= last_visit {
        (now - last_visit) / 86400
    } else {
        0
    }
}

/// The recency boost: a thousand points, minus ten per day of age, floored
/// at zero.
pub open spec fn spec_recency(last_visit: u64, now: u64) -> u64 {
    let age_days = spec_age_days(last_visit, now);
    if 10 * age_days >= 1000 {
        0
    } else {
        (1000 - 10 * age_days) as u64
    }
}

/// Whether and how the query matches the entry: a prefix of the
/// scheme-less URL or of the host is a strong match (and an inline
/// completion candidate), an occurrence anywhere in the URL or title a
/// weak one, anything else no match. The score combines match strength,
/// how often the entry was typed and visited, and how recently it was
/// visited; the unbounded contributions saturate.
pub open spec fn spec_entry_score(e: HistoryEntry, q: Seq<char>, now: u64) -> Option<(u64, bool)> {
    let url = e.url@;
    let is_prefix = fold_prefix_at(url, schemeless_start(url), q);
    let host = host_text(url);
    let is_host_prefix = host.len() > 0 && fold_prefix_at(host, 0, q);
    let strong = is_prefix || is_host_prefix;
    if !strong && !fold_contains(url, q) && !fold_contains(e.title@, q) {
        None
    } else {
        let base: u64 = if strong {
            5000
        } else {
            100
        };
        let with_typed = s_add(base, s_mul(e.typed_count, 500));
        let with_recency = s_add(with_typed, spec_recency(e.last_visit, now));
        Some((s_add(with_recency, s_mul(e.visit_count, 10)), strong))
    }
}

/// The score and completion flag for one entry, or nothing when the query
/// does not match it.
fn entry_score(e: &HistoryEntry, q: &[char], now: u64) -> (r: Option<(u64, bool)>)
    ensures
        r == spec_entry_score(*e, q@, now),
{
    let url = chars_of(e.url.as_str());
    let https_pat = chars_of("https://");
    let http_pat = chars_of("http://");
    proof {
        reveal_strlit("https://");
        reveal_strlit("http://");
    }
    let after_https = strip_offset_exec(url.as_slice(), 0, https_pat.as_slice());
    let sl = strip_offset_exec(url.as_slice(), after_https, http_pat.as_slice());
    let is_prefix = fold_prefix_at_exec(url.as_slice(), sl, q);

    let host: Vec<char> = match parse_url(e.url.as_str()) {
        Some(p) => match p.host {
            Some(h) => chars_of(h.as_str()),
            None => Vec::new(),
        },
        None => Vec::new(),
    };
    assert(host@ == host_text(e.url@));
    let is_host_prefix = host.len() > 0 && fold_prefix_at_exec(host.as_slice(), 0, q);
    let strong = is_prefix || is_host_prefix;

    if !strong {
        let title = chars_of(e.title.as_str());
        if !fold_contains_exec(url.as_slice(), q) && !fold_contains_exec(title.as_slice(), q) {
            return None;
        }
    }

    let base: u64 = if strong {
        5000
    } else {
        100
    };
    let with_typed = base.saturating_add(s_mul_exec(e.typed_count, 500));
    let age_days: u64 = now.saturating_sub(e.last_visit) / 86400;
    assert(age_days as int == spec_age_days(e.last_visit, now));
    let boost: u64 = 1000u64.saturating_sub(s_mul_exec(age_days, 10));
    assert(boost == spec_recency(e.last_visit, now));
    let with_recency = with_typed.saturating_add(boost);
    Some((with_recency.saturating_add(s_mul_exec(e.visit_count, 10)), strong))
}

/// The form in which a URL is keyed: its parser serialization, or the text
/// itself when it does not parse.
pub open spec fn spec_normalize_url(url: Seq<char>) -> Seq<char> {
    if url_ok(url) {
        normal_form(url)
    } else {
        url
    }
}

/// Normalizes a URL for keying the index. Idempotent: the result is its
/// own normal form, so normalizing twice changes nothing more.
pub fn normalize_url(url: &str) -> (r: String)
    ensures
        r@ == spec_normalize_url(url@),
        spec_normalize_url(r@) == r@,
{
    match parse_url(url) {
        Some(p) => p.normalized,
        None => String::from_str(url),
    }
}

/// The keys of the index entries, in order.
pub open spec fn entry_urls(entries: Seq<HistoryEntry>) -> Seq<Seq<char>> {
    entries.map_values(|e: HistoryEntry| e.url@)
}

/// The entry a repeat visit leaves behind: counts bumped, visit time
/// refreshed, the title replaced only by a non-empty new one.
pub open spec fn spec_updated(
    e: HistoryEntry,
    title: Option<String>,
    is_typed: bool,
    now: u64,
) -> HistoryEntry {
    HistoryEntry {
        url: e.url,
        title: match title {
            Some(t) => if t@.len() > 0 {
                t
            } else {
                e.title
            },
            None => e.title,
        },
        last_visit: now,
        visit_count: s_add(e.visit_count, 1),
        typed_count: if is_typed {
            s_add(e.typed_count, 1)
        } else {
            e.typed_count
        },
    }
}

/// The index after replaying recorded entries over it, in order: a later
/// record for the same URL replaces the earlier state.
pub open spec fn spec_replayed(
    cur: Seq<HistoryEntry>,
    l: Seq<HistoryEntry>,
) -> Seq<HistoryEntry>
    decreases l.len(),
{
    if l.len() == 0 {
        cur
    } else {
        let front = spec_replayed(cur, l.drop_last());
        let e = l.last();
        if entry_urls(front).contains(e.url@) {
            front.update(entry_urls(front).index_of(e.url@), e)
        } else {
            front.push(e)
        }
    }
}

/// The scored result built from one matching entry.
pub open spec fn spec_scoped(e: HistoryEntry, sb: (u64, bool)) -> HistoryEntryScoped {
    HistoryEntryScoped { url: e.url, title: e.title, score: sb.0, is_ghost_candidate: sb.1 }
}

/// Every matching entry of the index, scored, in index order.
pub open spec fn spec_matches(
    entries: Seq<HistoryEntry>,
    q: Seq<char>,
    now: u64,
) -> Seq<HistoryEntryScoped>
    decreases entries.len(),
{
    if entries.len() == 0 {
        Seq::empty()
    } else {
        let front = spec_matches(entries.drop_last(), q, now);
        match spec_entry_score(entries.last(), q, now) {
            Some(sb) => front.push(spec_scoped(entries.last(), sb)),
            None => front,
        }
    }
}

/// Scores never increase along the list.
pub open spec fn sorted_desc(l: Seq<HistoryEntryScoped>) -> bool {
    forall|i: int, j: int| 0 <= i < j < l.len() ==> l[i].score >= l[j].score
}

/// The index of visited URLs. One entry per normalized URL; replaying the
/// shell's append-only log rebuilds it.
pub struct HistoryStore {
    entries: Vec<HistoryEntry>,
}

impl HistoryStore {
    /// The entries, in insertion order.
    pub closed spec fn view(&self) -> Seq<HistoryEntry> {
        self.entries@
    }

    /// No two entries share a URL.
    pub open spec fn well_formed(&self) -> bool {
        forall|i: int, j: int|
            0 <= i < j < self.view().len() ==> entry_urls(self.view())[i] != entry_urls(
                self.view(),
            )[j]
    }

    /// An empty index.
    pub fn new() -> (r: HistoryStore)
        ensures
            r.view().len() == 0,
            r.well_formed(),
    {
        HistoryStore { entries: Vec::new() }
    }

    /// The index of the entry keyed by `url`, if one is.
    fn find_entry(&self, url: &str) -> (r: Option<usize>)
        ensures
            r matches Some(j) ==> 0 <= j < self.view().len() && self.view()[j as int].url@
                == url@,
            r is None ==> forall|k: int|
                0 <= k < self.view().len() ==> self.view()[k].url@ != url@,
    {
        let mut k: usize = 0;
        while k < self.entries.len()
            invariant
                k <= self.entries@.len(),
                forall|j: int| 0 <= j < k ==> self.entries@[j].url@ != url@,
            decreases self.entries.len() - k,
        {
            if crate::text::str_eq(self.entries[k].url.as_str(), url) {
                return Some(k);
            }
            k += 1;
        }
        None
    }

    /// Records one visit: the URL is normalized, its entry bumped (or
    /// created), and the entry's new state returned for the shell to
    /// append to its log.
    pub fn add_visit(
        &mut self,
        url: String,
        title: Option<String>,
        is_typed: bool,
        now: u64,
    ) -> (snapshot: HistoryEntry)
        requires
            old(self).well_formed(),
        ensures
            final(self).well_formed(),
            snapshot.url@ == spec_normalize_url(url@),
            ({
                let urls = entry_urls(old(self).view());
                let n = spec_normalize_url(url@);
                if urls.contains(n) {
                    let i = urls.index_of(n);
                    snapshot == spec_updated(old(self).view()[i], title, is_typed, now)
                        && final(self).view() == old(self).view().update(i, snapshot)
                } else {
                    snapshot.title@ == (match title {
                        Some(t) => t@,
                        None => Seq::<char>::empty(),
                    }) && snapshot.last_visit == now && snapshot.visit_count == 1
                        && snapshot.typed_count == (if is_typed {
                        1u64
                    } else {
                        0u64
                    }) && final(self).view() == old(self).view().push(snapshot)
                }
            }),
    {
        let ghost orig = self.entries@;
        let ghost n = spec_normalize_url(url@);
        let nurl = normalize_url(url.as_str());
        match self.find_entry(nurl.as_str()) {
            Some(i) => {
                proof {
                    assert(entry_urls(orig)[i as int] == orig[i as int].url@);
                    assert(entry_urls(orig).contains(n));
                    let idx = entry_urls(orig).index_of(n);
                    assert(entry_urls(orig)[idx] == n);
                    assert(orig[idx].url@ == orig[i as int].url@);
                    assert(idx == i) by {
                        if idx < i {
                            assert(entry_urls(orig)[idx] != entry_urls(orig)[i as int]);
                        } else if i < idx {
                            assert(entry_urls(orig)[i as int] != entry_urls(orig)[idx]);
                        }
                    }
                }
                let e = &self.entries[i];
                let new_title = match &title {
                    Some(t) => {
                        if t.as_str().is_empty() {
                            e.title.clone()
                        } else {
                            t.clone()
                        }
                    },
                    None => e.title.clone(),
                };
                let snapshot = HistoryEntry {
                    url: e.url.clone(),
                    title: new_title,
                    last_visit: now,
                    visit_count: e.visit_count.saturating_add(1),
                    typed_count: if is_typed {
                        e.typed_count.saturating_add(1)
                    } else {
                        e.typed_count
                    },
                };
                self.entries.set(i, snapshot.clone());
                proof {
                    assert(snapshot == spec_updated(orig[i as int], title, is_typed, now));
                    assert forall|a: int, b: int|
                        0 <= a < b < self.entries@.len() implies entry_urls(self.entries@)[a]
                        != entry_urls(self.entries@)[b] by {
                        assert(entry_urls(self.entries@)[a] == entry_urls(orig)[a]);
                        assert(entry_urls(self.entries@)[b] == entry_urls(orig)[b]);
                    }
                }
                snapshot
            },
            None => {
                let ghost nv = nurl@;
                proof {
                    assert forall|k: int| 0 <= k < orig.len() implies orig[k].url@ != nv by {
                        assert(self.view()[k].url@ != nv);
                        assert(orig[k] == self.view()[k]);
                    }
                    assert forall|k: int|
                        0 <= k < entry_urls(orig).len() implies entry_urls(orig)[k] != n by {
                        assert(entry_urls(orig)[k] == orig[k].url@);
                    }
                    assert(!entry_urls(orig).contains(n));
                }
                let snapshot = HistoryEntry {
                    url: nurl,
                    title: match title {
                        Some(t) => t,
                        None => String::new(),
                    },
                    last_visit: now,
                    visit_count: 1,
                    typed_count: if is_typed {
                        1
                    } else {
                        0
                    },
                };
                self.entries.push(snapshot.clone());
                proof {
                    assert(self.entries@ == orig.push(snapshot));
                    assert(snapshot.url@ == nv);
                    assert forall|a: int, b: int|
                        0 <= a < b < self.entries@.len() implies entry_urls(self.entries@)[a]
                        != entry_urls(self.entries@)[b] by {
                        assert(entry_urls(self.entries@)[a] == self.entries@[a].url@);
                        assert(entry_urls(self.entries@)[b] == self.entries@[b].url@);
                        assert(self.entries@[a] == orig[a]);
                        assert(entry_urls(orig)[a] == orig[a].url@);
                        if b < orig.len() {
                            assert(self.entries@[b] == orig[b]);
                            assert(entry_urls(orig)[b] == orig[b].url@);
                            assert(entry_urls(old(self).view())[a] == orig[a].url@);
                            assert(entry_urls(old(self).view())[b] == orig[b].url@);
                            assert(entry_urls(old(self).view())[a] != entry_urls(
                                old(self).view(),
                            )[b]);
                            assert(orig[a].url@ != orig[b].url@);
                        } else {
                            assert(self.entries@[b] == snapshot);
                            assert(self.entries@[b].url@ == nv);
                            assert(orig[a].url@ != nv);
                        }
                        assert(entry_urls(self.entries@)[a] != entry_urls(self.entries@)[b]);
                    }
                }
                snapshot
            },
        }
    }

    /// Replaces or appends the state of one recorded entry — one step of
    /// replaying the shell's log.
    fn upsert(&mut self, e: HistoryEntry)
        requires
            old(self).well_formed(),
        ensures
            final(self).well_formed(),
            ({
                let urls = entry_urls(old(self).view());
                if urls.contains(e.url@) {
                    final(self).view() == old(self).view().update(urls.index_of(e.url@), e)
                } else {
                    final(self).view() == old(self).view().push(e)
                }
            }),
    {
        let ghost orig = self.entries@;
        match self.find_entry(e.url.as_str()) {
            Some(i) => {
                proof {
                    assert(entry_urls(orig)[i as int] == orig[i as int].url@);
                    assert(entry_urls(orig).contains(e.url@));
                    let idx = entry_urls(orig).index_of(e.url@);
                    assert(entry_urls(orig)[idx] == e.url@);
                    assert(orig[idx].url@ == orig[i as int].url@);
                    assert(idx == i) by {
                        if idx < i {
                            assert(entry_urls(orig)[idx] != entry_urls(orig)[i as int]);
                        } else if i < idx {
                            assert(entry_urls(orig)[i as int] != entry_urls(orig)[idx]);
                        }
                    }
                }
                let ghost ev = e.url@;
                self.entries.set(i, e);
                proof {
                    assert(ev == orig[i as int].url@);
                    assert forall|a: int, b: int|
                        0 <= a < b < self.entries@.len() implies entry_urls(self.entries@)[a]
                        != entry_urls(self.entries@)[b] by {
                        assert(entry_urls(self.entries@)[a] == self.entries@[a].url@);
                        assert(entry_urls(self.entries@)[b] == self.entries@[b].url@);
                        assert(self.entries@[a].url@ == orig[a].url@);
                        assert(self.entries@[b].url@ == orig[b].url@);
                        assert(entry_urls(old(self).view())[a] == orig[a].url@);
                        assert(entry_urls(old(self).view())[b] == orig[b].url@);
                        assert(entry_urls(old(self).view())[a] != entry_urls(
                            old(self).view(),
                        )[b]);
                    }
                }
            },
            None => {
                let ghost ev = e.url@;
                proof {
                    assert forall|k: int| 0 <= k < orig.len() implies orig[k].url@ != ev by {
                        assert(self.view()[k].url@ != ev);
                        assert(orig[k] == self.view()[k]);
                    }
                }
                self.entries.push(e);
                proof {
                    assert forall|a: int, b: int|
                        0 <= a < b < self.entries@.len() implies entry_urls(self.entries@)[a]
                        != entry_urls(self.entries@)[b] by {
                        if b < orig.len() {
                            assert(entry_urls(self.entries@)[a] == entry_urls(orig)[a]);
                            assert(entry_urls(self.entries@)[b] == entry_urls(orig)[b]);
                            assert(entry_urls(old(self).view())[a] == entry_urls(orig)[a]);
                            assert(entry_urls(old(self).view())[b] == entry_urls(orig)[b]);
                            assert(entry_urls(old(self).view())[a] != entry_urls(
                                old(self).view(),
                            )[b]);
                        } else {
                            assert(entry_urls(self.entries@)[a] == orig[a].url@);
                            assert(self.entries@[b].url@ == ev);
                            assert(orig[a].url@ != ev);
                        }
                    }
                }
            },
        }
    }

    /// Replays recorded entries over the index, in order; a later record
    /// for the same URL wins.
    pub fn load_entries(&mut self, entries: Vec<HistoryEntry>)
        requires
            old(self).well_formed(),
        ensures
            final(self).well_formed(),
            final(self).view() == spec_replayed(old(self).view(), entries@),
    {
        let ghost l = entries@;
        let n: usize = entries.len();
        let mut entries = entries;
        let mut i: usize = 0;
        while i < n
            invariant
                i <= n,
                n == l.len(),
                entries@ == l.subrange(i as int, n as int),
                self.well_formed(),
                self.view() == spec_replayed(old(self).view(), l.subrange(0, i as int)),
            decreases n - i,
        {
            let e = entries.remove(0);
            proof {
                assert(e == l[i as int]);
                assert(l.subrange(i as int, n as int).remove(0) =~= l.subrange(i + 1, n as int));
                assert(l.subrange(0, i + 1).drop_last() =~= l.subrange(0, i as int));
                assert(l.subrange(0, i + 1).last() == l[i as int]);
            }
            self.upsert(e);
            i += 1;
        }
        proof {
            assert(l.subrange(0, n as int) =~= l);
        }
    }

    /// Every entry of the index, in order — what a log compaction writes
    /// back out.
    pub fn entries(&self) -> (r: Vec<HistoryEntry>)
        ensures
            r@ == self.view(),
    {
        let mut r: Vec<HistoryEntry> = Vec::new();
        let n: usize = self.entries.len();
        let mut i: usize = 0;
        while i < n
            invariant
                i <= n,
                n == self.view().len(),
                r@ == self.view().subrange(0, i as int),
            decreases n - i,
        {
            r.push(self.entries[i].clone());
            assert(r@ =~= self.view().subrange(0, i + 1));
            i += 1;
        }
        assert(r@ =~= self.view());
        r
    }

    /// The entries whose URL or title the query matches, scored, best
    /// first (ties in no fixed order), at most `limit` of them — the top
    /// scores of the whole index.
    pub fn search(&self, query: String, limit: usize, now: u64) -> (r: Vec<HistoryEntryScoped>)
        ensures
            exists|full: Seq<HistoryEntryScoped>|
                {
                    &&& #[trigger] full.to_multiset() == spec_matches(
                        self.view(),
                        spec_trim(query@),
                        now,
                    ).to_multiset()
                    &&& sorted_desc(full)
                    &&& r@ == full.take(if limit <= full.len() {
                        limit as int
                    } else {
                        full.len() as int
                    })
                },
    {
        let ghost q = spec_trim(query@);
        let qchars = chars_of(query.as_str());
        let qv = trim_chars(qchars.as_slice());
        let mut scored: Vec<HistoryEntryScoped> = Vec::new();
        let n: usize = self.entries.len();
        let mut i: usize = 0;
        while i < n
            invariant
                i <= n,
                n == self.view().len(),
                qv@ == q,
                scored@ == spec_matches(self.view().subrange(0, i as int), q, now),
            decreases n - i,
        {
            proof {
                assert(self.view().subrange(0, i + 1).drop_last() =~= self.view().subrange(
                    0,
                    i as int,
                ));
                assert(self.view().subrange(0, i + 1).last() == self.view()[i as int]);
            }
            match entry_score(&self.entries[i], qv.as_slice(), now) {
                Some((score, ghost_candidate)) => {
                    scored.push(
                        HistoryEntryScoped {
                            url: self.entries[i].url.clone(),
                            title: self.entries[i].title.clone(),
                            score,
                            is_ghost_candidate: ghost_candidate,
                        },
                    );
                },
                None => {},
            }
            i += 1;
        }
        proof {
            assert(self.view().subrange(0, n as int) =~= self.view());
        }
        let mut sorted = sort_scored_desc(scored);
        let ghost full = sorted@;
        sorted.truncate(limit);
        proof {
            if limit <= full.len() {
                assert(sorted@ =~= full.take(limit as int));
            } else {
                assert(sorted@ =~= full.take(full.len() as int));
            }
        }
        sorted
    }
}

/// Sorts the scored results best first; equal scores keep no fixed order.
fn sort_scored_desc(v: Vec<HistoryEntryScoped>) -> (r: Vec<HistoryEntryScoped>)
    ensures
        sorted_desc(r@),
        r@.to_multiset() == v@.to_multiset(),
        r@.len() == v@.len(),
{
    broadcast use vstd::seq_lib::group_to_multiset_ensures;

    let ghost total = v@.to_multiset();
    let mut rest = v;
    let mut out: Vec<HistoryEntryScoped> = Vec::new();
    proof {
        assert(out@.to_multiset().add(rest@.to_multiset()) =~= total);
    }
    while rest.len() > 0
        invariant
            out@.to_multiset().add(rest@.to_multiset()) == total,
            out@.len() + rest@.len() == total.len(),
            sorted_desc(out@),
            forall|a: int, b: int|
                0 <= a < out@.len() && 0 <= b < rest@.len() ==> out@[a].score >= rest@[b].score,
        decreases rest.len(),
    {
        let mut mi: usize = 0;
        let mut k: usize = 1;
        while k < rest.len()
            invariant
                mi < k <= rest@.len(),
                rest@.len() > 0,
                forall|t: int| 0 <= t < k ==> rest@[mi as int].score >= rest@[t].score,
            decreases rest.len() - k,
        {
            if rest[k].score > rest[mi].score {
                mi = k;
            }
            k += 1;
        }
        let ghost rest_old = rest@;
        let ghost out_old = out@;
        let x = rest.remove(mi);
        out.push(x);
        proof {
            rest_old.to_multiset_ensures();
            out_old.to_multiset_ensures();
            assert(rest@ == rest_old.remove(mi as int));
            assert(rest@.to_multiset() =~= rest_old.to_multiset().remove(rest_old[mi as int]));
            assert(out@.to_multiset() =~= out_old.to_multiset().insert(x));
            assert(rest_old.to_multiset().count(x) >= 1) by {
                assert(rest_old.contains(x));
            }
            assert(out@.to_multiset().add(rest@.to_multiset()) =~= total);
            assert forall|a: int, b: int|
                0 <= a < out@.len() && 0 <= b < rest@.len() implies out@[a].score
                >= rest@[b].score by {
                assert(rest@[b] == if b < mi {
                    rest_old[b]
                } else {
                    rest_old[b + 1]
                });
                if a < out_old.len() {
                    assert(out@[a] == out_old[a]);
                } else {
                    assert(out@[a] == x);
                    assert(x == rest_old[mi as int]);
                }
            }
            assert(sorted_desc(out@)) by {
                assert(forall|a: int|
                    0 <= a < out_old.len() ==> out@[a] == #[trigger] out_old[a]);
                assert(out@[out@.len() - 1] == x);
                assert(x == rest_old[mi as int]);
            }
        }
    }
    out
}

} // verus!
