//! The user-controlled exception table: a concurrent map from domain to
//! expiry policy, with the JSON form in which it is persisted.
//!
//! The map is backed by `dashmap::DashMap`, so unrelated-domain operations
//! from different threads do not contend on one global lock. Its contents
//! are modelled as a `Map` from the domain's characters to the expiry
//! (`None` for a permanent entry, `Some(t)` for one that lapses at epoch
//! second `t`).

use vstd::prelude::*;
use crate::text::{dec_digits, json_escaped, push_dec, push_json_escaped, string_from_chars,
    chars_of};

verus! {

/// How long an allowlist entry stays in force.
#[derive(Clone, Copy, Debug, PartialEq, Eq, Structural)]
pub enum RuleExpiry {
    /// Never lapses.
    Forever,
    /// In force strictly before the given epoch second.
    Until(u64),
}

impl View for RuleExpiry {
    type V = Option<u64>;

    open spec fn view(&self) -> Option<u64> {
        match *self {
            RuleExpiry::Forever => None,
            RuleExpiry::Until(t) => Some(t),
        }
    }
}

/// Whether an entry with this expiry is in force at time `now`.
pub open spec fn expiry_active(e: Option<u64>, now: u64) -> bool {
    match e {
        None => true,
        Some(t) => now < t,
    }
}

impl RuleExpiry {
    /// Whether the entry is in force at time `now`: a permanent entry
    /// always, a bounded one strictly before its deadline.
    pub fn is_active(&self, now: u64) -> (r: bool)
        ensures
            r == expiry_active(self@, now),
    {
        match self {
            RuleExpiry::Forever => true,
            RuleExpiry::Until(t) => now < *t,
        }
    }
}

/// A concurrent map from domain to expiry, safe to read and write from many
/// threads at once without a global lock.
#[verifier::external_body]
pub struct AllowMap {
    inner: dashmap::DashMap<String, RuleExpiry>,
}

/// The entries the map holds: domain characters to expiry.
pub uninterp spec fn allow_entries(m: AllowMap) -> Map<Seq<char>, Option<u64>>;

/// The contents of a map with no entries.
pub open spec fn no_entries() -> Map<Seq<char>, Option<u64>> {
    Map::empty()
}

impl AllowMap {
    /// Relies on `dashmap::DashMap::new`: a fresh map is empty.
    #[verifier::external_body]
    pub(crate) fn new() -> (m: AllowMap)
        ensures
            allow_entries(m) == no_entries(),
    {
        AllowMap { inner: dashmap::DashMap::new() }
    }

    /// Relies on `dashmap::DashMap::insert`: binds the key to the new value,
    /// replacing any earlier binding.
    #[verifier::external_body]
    pub(crate) fn insert(&mut self, domain: String, expiry: RuleExpiry)
        ensures
            allow_entries(*final(self)) == allow_entries(*old(self)).insert(domain@, expiry@),
    {
        self.inner.insert(domain, expiry);
    }

    /// Relies on `dashmap::DashMap::remove`: unbinds the key if it was bound.
    #[verifier::external_body]
    pub(crate) fn remove(&mut self, domain: &str)
        ensures
            allow_entries(*final(self)) == allow_entries(*old(self)).remove(domain@),
    {
        self.inner.remove(domain);
    }

    /// Relies on `dashmap::DashMap::get`: returns the value bound to the
    /// key, if any. The guard the map hands out is cloned into a plain
    /// value before it is returned.
    #[verifier::external_body]
    pub(crate) fn get(&self, domain: &str) -> (r: Option<RuleExpiry>)
        ensures
            r is Some <==> allow_entries(*self).dom().contains(domain@),
            r matches Some(e) ==> allow_entries(*self)[domain@] == e@,
    {
        self.inner.get(domain).map(|entry| entry.value().clone())
    }

    /// Relies on `dashmap::DashMap::iter`: visits every entry exactly once.
    /// A hash map fixes no order, so only the set of pairs is specified.
    #[verifier::external_body]
    pub(crate) fn entries(&self) -> (r: Vec<(String, RuleExpiry)>)
        ensures
            forall|i: int|
                0 <= i < r@.len() ==> allow_entries(*self).contains_pair(
                    #[trigger] r@[i].0@,
                    r@[i].1@,
                ),
            forall|i: int, j: int| 0 <= i < j < r@.len() ==> r@[i].0@ != r@[j].0@,
            forall|k: Seq<char>|
                allow_entries(*self).dom().contains(k) ==> exists|i: int|
                    0 <= i < r@.len() && #[trigger] r@[i].0@ == k,
    {
        self.inner.iter().map(|entry| (entry.key().clone(), entry.value().clone())).collect()
    }
}

/// The JSON form of one expiry: `"Forever"`, or an object `{"Until":t}`.
pub open spec fn expiry_json(e: Option<u64>) -> Seq<char> {
    match e {
        None => seq!['"', 'F', 'o', 'r', 'e', 'v', 'e', 'r', '"'],
        Some(t) => seq!['{', '"', 'U', 'n', 't', 'i', 'l', '"', ':'] + dec_digits(t as nat)
            + seq!['}'],
    }
}

/// The JSON form of one allowlist entry: `"domain":expiry`.
pub open spec fn entry_json(domain: Seq<char>, e: Option<u64>) -> Seq<char> {
    seq!['"'] + json_escaped(domain) + seq!['"', ':'] + expiry_json(e)
}

/// The comma-separated members of the allowlist object, in entry order.
pub open spec fn entries_json_body(l: Seq<(Seq<char>, Option<u64>)>) -> Seq<char>
    decreases l.len(),
{
    if l.len() == 0 {
        Seq::empty()
    } else if l.len() == 1 {
        entry_json(l[0].0, l[0].1)
    } else {
        entries_json_body(l.drop_last()) + seq![','] + entry_json(l.last().0, l.last().1)
    }
}

/// The whole persisted allowlist document: a JSON object mapping each domain
/// to its expiry.
pub open spec fn allowlist_json_spec(l: Seq<(Seq<char>, Option<u64>)>) -> Seq<char> {
    seq!['{'] + entries_json_body(l) + seq!['}']
}

/// The pairs of an entry vector, as the specs above see them.
pub open spec fn entry_views(entries: Seq<(String, RuleExpiry)>) -> Seq<(Seq<char>, Option<u64>)> {
    entries.map_values(|p: (String, RuleExpiry)| (p.0@, p.1@))
}

/// Appends the JSON form of one expiry.
fn push_expiry_json(out: &mut Vec<char>, expiry: &RuleExpiry)
    ensures
        final(out)@ == old(out)@ + expiry_json(expiry@),
{
    match expiry {
        RuleExpiry::Forever => {
            out.push('"');
            out.push('F');
            out.push('o');
            out.push('r');
            out.push('e');
            out.push('v');
            out.push('e');
            out.push('r');
            out.push('"');
        },
        RuleExpiry::Until(t) => {
            out.push('{');
            out.push('"');
            out.push('U');
            out.push('n');
            out.push('t');
            out.push('i');
            out.push('l');
            out.push('"');
            out.push(':');
            push_dec(out, *t);
            out.push('}');
        },
    }
    assert(out@ =~= old(out)@ + expiry_json(expiry@));
}

/// Appends the JSON form of one entry.
fn push_entry_json(out: &mut Vec<char>, domain: &str, expiry: &RuleExpiry)
    ensures
        final(out)@ == old(out)@ + entry_json(domain@, expiry@),
{
    out.push('"');
    let dom = chars_of(domain);
    push_json_escaped(out, dom.as_slice());
    out.push('"');
    out.push(':');
    push_expiry_json(out, expiry);
    assert(out@ =~= old(out)@ + entry_json(domain@, expiry@));
}

/// Renders the given entries as the persisted JSON document, in the given
/// order.
pub fn render_allowlist_json(entries: &Vec<(String, RuleExpiry)>) -> (r: String)
    ensures
        r@ == allowlist_json_spec(entry_views(entries@)),
{
    let ghost l: Seq<(Seq<char>, Option<u64>)> = entry_views(entries@);
    let mut out: Vec<char> = Vec::new();
    out.push('{');
    let mut i: usize = 0;
    while i < entries.len()
        invariant
            i <= entries@.len(),
            l == entry_views(entries@),
            l.len() == entries@.len(),
            out@ == seq!['{'] + entries_json_body(l.subrange(0, i as int)),
        decreases entries.len() - i,
    {
        if i > 0 {
            out.push(',');
        }
        push_entry_json(&mut out, entries[i].0.as_str(), &entries[i].1);
        proof {
            assert(l[i as int] == (entries@[i as int].0@, entries@[i as int].1@));
            lemma_entries_json_step(l, i as int);
            assert(out@ =~= seq!['{'] + entries_json_body(l.subrange(0, i + 1)));
        }
        i += 1;
    }
    out.push('}');
    proof {
        assert(l.subrange(0, l.len() as int) =~= l);
        assert(out@ =~= allowlist_json_spec(l));
    }
    string_from_chars(out.as_slice())
}

proof fn lemma_entries_json_step(l: Seq<(Seq<char>, Option<u64>)>, i: int)
    requires
        0 <= i < l.len(),
    ensures
        i == 0 ==> entries_json_body(l.subrange(0, 1)) == entry_json(l[0].0, l[0].1),
        i > 0 ==> entries_json_body(l.subrange(0, i + 1)) == entries_json_body(
            l.subrange(0, i),
        ) + seq![','] + entry_json(l[i].0, l[i].1),
{
    let front = l.subrange(0, i + 1);
    if i == 0 {
        assert(front.len() == 1);
        assert(front[0] == l[0]);
    } else {
        assert(front.len() >= 2);
        assert(front.drop_last() =~= l.subrange(0, i));
        assert(front.last() == l[i]);
    }
}

} // verus!
