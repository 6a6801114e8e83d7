//! Tab bookkeeping: the tab record, identifier generation, and the pure
//! reordering step behind drag-and-drop.

use vstd::prelude::*;
use crate::text::{dec_digits, push_dec, push_str_chars, str_eq, string_from_chars};

verus! {

/// One browser tab, as the shell and the UI see it.
#[derive(Debug)]
pub struct Tab {
    pub id: String,
    pub webview_label: String,
    pub title: String,
    pub url: String,
    pub favicon: Option<String>,
    /// Monotonic milliseconds of the last activation, if any.
    pub last_accessed: Option<u64>,
    pub is_loading: bool,
    pub can_go_back: bool,
    pub can_go_forward: bool,
    pub last_focus_was_content: bool,
    pub screenshot: Option<String>,
}

fn clone_opt_string(o: &Option<String>) -> (r: Option<String>)
    ensures
        r == *o,
{
    match o {
        Some(s) => Some(s.clone()),
        None => None,
    }
}

impl Clone for Tab {
    /// An exact copy, field for field.
    fn clone(&self) -> (r: Self)
        ensures
            r == *self,
    {
        Tab {
            id: self.id.clone(),
            webview_label: self.webview_label.clone(),
            title: self.title.clone(),
            url: self.url.clone(),
            favicon: clone_opt_string(&self.favicon),
            last_accessed: self.last_accessed,
            is_loading: self.is_loading,
            can_go_back: self.can_go_back,
            can_go_forward: self.can_go_forward,
            last_focus_was_content: self.last_focus_was_content,
            screenshot: clone_opt_string(&self.screenshot),
        }
    }
}

/// A fresh tab identifier: `tab-` followed by the given nanosecond
/// timestamp, which the caller takes from a clock that never repeats.
pub fn generate_tab_id(now_nanos: u64) -> (r: String)
    ensures
        r@ == "tab-"@ + dec_digits(now_nanos as nat),
{
    let mut out: Vec<char> = Vec::new();
    push_str_chars(&mut out, "tab-");
    push_dec(&mut out, now_nanos);
    string_from_chars(out.as_slice())
}

/// The identifiers of the tabs, in order.
pub open spec fn tab_ids(tabs: Seq<Tab>) -> Seq<Seq<char>> {
    tabs.map_values(|t: Tab| t.id@)
}

/// The identifiers of an order request, in order.
pub open spec fn order_ids(order: Seq<String>) -> Seq<Seq<char>> {
    order.map_values(|s: String| s@)
}

/// No two tabs share an identifier — the system invariant behind
/// reordering.
pub open spec fn unique_tab_ids(tabs: Seq<Tab>) -> bool {
    forall|i: int, j: int| 0 <= i < j < tabs.len() ==> tab_ids(tabs)[i] != tab_ids(tabs)[j]
}

/// The tabs that the order picks, in order order: each identifier's first
/// occurrence picks the tab bearing it, if there is one.
pub open spec fn spec_picked(tabs: Seq<Tab>, order: Seq<Seq<char>>) -> Seq<Tab>
    decreases order.len(),
{
    if order.len() == 0 {
        Seq::empty()
    } else {
        let front = spec_picked(tabs, order.drop_last());
        let id = order.last();
        if !order.drop_last().contains(id) && tab_ids(tabs).contains(id) {
            front.push(tabs[tab_ids(tabs).index_of(id)])
        } else {
            front
        }
    }
}

/// The tabs the order does not name, in their previous order — appended so
/// that an incomplete order request never loses a tab.
pub open spec fn spec_leftover(tabs: Seq<Tab>, order: Seq<Seq<char>>) -> Seq<Tab>
    decreases tabs.len(),
{
    if tabs.len() == 0 {
        Seq::empty()
    } else {
        let front = spec_leftover(tabs.drop_last(), order);
        if order.contains(tabs.last().id@) {
            front
        } else {
            front.push(tabs.last())
        }
    }
}

/// The tab list after a reorder request: the picked tabs in request order,
/// then the unnamed ones in their old order. An empty list or an empty
/// request changes nothing.
pub open spec fn spec_reorder(tabs: Seq<Tab>, order: Seq<Seq<char>>) -> Seq<Tab> {
    if tabs.len() == 0 || order.len() == 0 {
        tabs
    } else {
        spec_picked(tabs, order) + spec_leftover(tabs, order)
    }
}

proof fn lemma_contains_push(s: Seq<Seq<char>>, x: Seq<char>, y: Seq<char>)
    ensures
        s.push(x).contains(y) == (s.contains(y) || x == y),
{
    if s.contains(y) {
        let w = choose|w: int| 0 <= w < s.len() && s[w] == y;
        assert(s.push(x)[w] == y);
    }
    if x == y {
        assert(s.push(x)[s.len() as int] == y);
    }
    if s.push(x).contains(y) && !s.contains(y) && x != y {
        let w = choose|w: int| 0 <= w < s.push(x).len() && s.push(x)[w] == y;
        if w < s.len() {
            assert(s[w] == y);
        } else {
            assert(s.push(x)[s.len() as int] == x);
        }
        assert(false);
    }
}

/// The index of the tab bearing `id`, if one does.
fn find_tab(tabs: &Vec<Tab>, id: &str) -> (r: Option<usize>)
    ensures
        r matches Some(j) ==> 0 <= j < tabs@.len() && tabs@[j as int].id@ == id@,
        r is None ==> forall|k: int| 0 <= k < tabs@.len() ==> tabs@[k].id@ != id@,
{
    let mut k: usize = 0;
    while k < tabs.len()
        invariant
            k <= tabs@.len(),
            forall|j: int| 0 <= j < k ==> tabs@[j].id@ != id@,
        decreases tabs.len() - k,
    {
        if str_eq(tabs[k].id.as_str(), id) {
            return Some(k);
        }
        k += 1;
    }
    None
}

/// Whether two tab lists carry the same identifiers in the same order.
fn same_ids(a: &Vec<Tab>, b: &Vec<Tab>) -> (r: bool)
    ensures
        r == (tab_ids(a@) == tab_ids(b@)),
{
    if a.len() != b.len() {
        assert(tab_ids(a@).len() != tab_ids(b@).len());
        return false;
    }
    let mut k: usize = 0;
    while k < a.len()
        invariant
            k <= a@.len(),
            a@.len() == b@.len(),
            forall|j: int| 0 <= j < k ==> tab_ids(a@)[j] == tab_ids(b@)[j],
        decreases a.len() - k,
    {
        if !str_eq(a[k].id.as_str(), b[k].id.as_str()) {
            assert(tab_ids(a@)[k as int] != tab_ids(b@)[k as int]);
            return false;
        }
        k += 1;
    }
    assert(tab_ids(a@) =~= tab_ids(b@));
    true
}

/// Reorders `tabs` as `new_order` asks: picked tabs first, in request
/// order, then every unnamed tab in its old place — no tab is ever lost to
/// a racing, incomplete request. Returns whether the order actually
/// changed.
pub fn reorder_logic(tabs: &mut Vec<Tab>, new_order: &[String]) -> (changed: bool)
    requires
        unique_tab_ids(old(tabs)@),
    ensures
        final(tabs)@ == spec_reorder(old(tabs)@, order_ids(new_order@)),
        changed == (tab_ids(final(tabs)@) != tab_ids(old(tabs)@)),
{
    if tabs.len() == 0 || new_order.len() == 0 {
        return false;
    }
    let ghost orig: Seq<Tab> = tabs@;
    let ghost ov: Seq<Seq<char>> = order_ids(new_order@);
    let n: usize = tabs.len();
    let mut used: Vec<bool> = Vec::new();
    let mut z: usize = 0;
    while z < n
        invariant
            z <= n,
            used@.len() == z,
            forall|k: int| 0 <= k < z ==> !used@[k],
        decreases n - z,
    {
        used.push(false);
        z += 1;
    }
    let mut reordered: Vec<Tab> = Vec::new();
    let m: usize = new_order.len();
    let mut oi: usize = 0;
    while oi < m
        invariant
            oi <= m,
            orig == tabs@,
            n == orig.len(),
            unique_tab_ids(orig),
            m == new_order@.len(),
            ov == order_ids(new_order@),
            ov.len() == m,
            used@.len() == n,
            reordered@ == spec_picked(orig, ov.subrange(0, oi as int)),
            forall|k: int|
                0 <= k < n ==> used@[k] == ov.subrange(0, oi as int).contains(
                    #[trigger] orig[k].id@,
                ),
        decreases m - oi,
    {
        let ghost pre = ov.subrange(0, oi as int);
        let ghost post = ov.subrange(0, oi + 1);
        proof {
            assert(post.drop_last() =~= pre);
            assert(post.last() == ov[oi as int]);
            assert(post =~= pre.push(ov[oi as int]));
            assert(ov[oi as int] == new_order@[oi as int]@);
        }
        match find_tab(tabs, new_order[oi].as_str()) {
            Some(j) => {
                proof {
                    assert(tab_ids(orig)[j as int] == orig[j as int].id@);
                    assert(tab_ids(orig).contains(ov[oi as int]));
                }
                if !used[j] {
                    used.set(j, true);
                    reordered.push(tabs[j].clone());
                    proof {
                        let idx = tab_ids(orig).index_of(ov[oi as int]);
                        assert(tab_ids(orig)[idx] == ov[oi as int]);
                        assert(orig[idx].id@ == orig[j as int].id@);
                        assert(idx == j) by {
                            if idx < j {
                                assert(tab_ids(orig)[idx] != tab_ids(orig)[j as int]);
                            } else if j < idx {
                                assert(tab_ids(orig)[j as int] != tab_ids(orig)[idx]);
                            }
                        }
                        assert(!pre.contains(ov[oi as int]));
                        assert(reordered@ =~= spec_picked(orig, post));
                        assert forall|k: int| 0 <= k < n implies used@[k] == post.contains(
                            #[trigger] orig[k].id@,
                        ) by {
                            lemma_contains_push(pre, ov[oi as int], orig[k].id@);
                            assert(tab_ids(orig)[k] == orig[k].id@);
                            if k != j && orig[k].id@ == ov[oi as int] {
                                assert(tab_ids(orig)[k] == tab_ids(orig)[j as int]);
                                assert(false);
                            }
                        }
                    }
                } else {
                    proof {
                        assert(pre.contains(ov[oi as int]));
                        assert(reordered@ =~= spec_picked(orig, post));
                        assert forall|k: int| 0 <= k < n implies used@[k] == post.contains(
                            #[trigger] orig[k].id@,
                        ) by {
                            lemma_contains_push(pre, ov[oi as int], orig[k].id@);
                            assert(tab_ids(orig)[k] == orig[k].id@);
                            if k != j && orig[k].id@ == ov[oi as int] {
                                assert(tab_ids(orig)[k] == tab_ids(orig)[j as int]);
                                assert(false);
                            }
                        }
                    }
                }
            },
            None => {
                proof {
                    assert forall|k: int| 0 <= k < tab_ids(orig).len() implies tab_ids(orig)[k]
                        != ov[oi as int] by {
                        assert(orig[k].id@ != new_order@[oi as int]@);
                    }
                    assert(!tab_ids(orig).contains(ov[oi as int]));
                    assert(reordered@ =~= spec_picked(orig, post));
                    assert forall|k: int| 0 <= k < n implies used@[k] == post.contains(
                        #[trigger] orig[k].id@,
                    ) by {
                        lemma_contains_push(pre, ov[oi as int], orig[k].id@);
                        assert(tab_ids(orig)[k] == orig[k].id@);
                    }
                }
            },
        }
        oi += 1;
    }
    proof {
        assert(ov.subrange(0, m as int) =~= ov);
    }
    let mut k: usize = 0;
    while k < n
        invariant
            k <= n,
            orig == tabs@,
            n == orig.len(),
            ov.len() >= 1,
            used@.len() == n,
            forall|j: int| 0 <= j < n ==> used@[j] == ov.contains(#[trigger] orig[j].id@),
            reordered@ == spec_picked(orig, ov) + spec_leftover(orig.subrange(0, k as int), ov),
        decreases n - k,
    {
        let ghost pre = orig.subrange(0, k as int);
        let ghost post = orig.subrange(0, k + 1);
        proof {
            assert(post.drop_last() =~= pre);
            assert(post.last() == orig[k as int]);
        }
        if !used[k] {
            reordered.push(tabs[k].clone());
        }
        proof {
            assert(reordered@ =~= spec_picked(orig, ov) + spec_leftover(post, ov));
        }
        k += 1;
    }
    proof {
        assert(orig.subrange(0, n as int) =~= orig);
    }
    let changed = !same_ids(&reordered, tabs);
    *tabs = reordered;
    changed
}

} // verus!
