//! Atomically swappable holders for the published rule state, backed by
//! `arc_swap::ArcSwap`.
//!
//! Each holder has exactly one writer (the update pipeline) and any number of
//! concurrent readers. Readers take a point-in-time snapshot and never see a
//! partial value: `ArcSwap::load_full` hands out the whole `Arc` that some
//! `store` published, and `ArcSwap::store` replaces it in one atomic swap
//! without blocking readers.

use std::sync::Arc;
use vstd::prelude::*;
use crate::engine::engine_texts;

verus! {

/// Holds the currently active compiled engine.
#[verifier::external_body]
pub struct EngineStore {
    cell: arc_swap::ArcSwap<adblock::Engine>,
}

/// The filter-list texts of the engine the store currently holds.
pub uninterp spec fn store_texts(s: EngineStore) -> Seq<Seq<char>>;

impl EngineStore {
    /// Relies on `arc_swap::ArcSwap::from_pointee`: the cell starts out
    /// holding exactly the given value.
    #[verifier::external_body]
    pub(crate) fn new(e: adblock::Engine) -> (s: EngineStore)
        ensures
            store_texts(s) == engine_texts(e),
    {
        EngineStore { cell: arc_swap::ArcSwap::from_pointee(e) }
    }

    /// Relies on `arc_swap::ArcSwapAny::load_full`: returns the stored `Arc`
    /// whole — always a fully formed engine that some `store` published,
    /// never a torn value — without blocking and without failing.
    #[verifier::external_body]
    pub(crate) fn load(&self) -> (e: Arc<adblock::Engine>)
        ensures
            engine_texts(*e) == store_texts(*self),
    {
        self.cell.load_full()
    }

    /// Relies on `arc_swap::ArcSwapAny::store`: replaces the held engine
    /// wholesale in one atomic swap; concurrent `load`s see either the old
    /// value or the new one and are never blocked.
    #[verifier::external_body]
    pub(crate) fn store(&mut self, e: adblock::Engine)
        ensures
            store_texts(*final(self)) == engine_texts(e),
    {
        self.cell.store(Arc::new(e));
    }
}

/// Holds the currently active declarative rule document, regenerated and
/// republished as a whole so readers never see a document that mixes an old
/// base with new exceptions.
#[verifier::external_body]
pub struct RuleDocCache {
    cell: arc_swap::ArcSwap<String>,
}

/// The document the cache currently holds.
pub uninterp spec fn doc_text(c: RuleDocCache) -> Seq<char>;

impl RuleDocCache {
    /// Relies on `arc_swap::ArcSwap::from_pointee`: the cell starts out
    /// holding exactly the given document.
    #[verifier::external_body]
    pub(crate) fn new(doc: String) -> (c: RuleDocCache)
        ensures
            doc_text(c) == doc@,
    {
        RuleDocCache { cell: arc_swap::ArcSwap::from_pointee(doc) }
    }

    /// Relies on `arc_swap::ArcSwapAny::load_full` and `String`'s `Clone`:
    /// returns the whole document that some `store` published, without
    /// blocking and without failing.
    #[verifier::external_body]
    pub(crate) fn load(&self) -> (doc: String)
        ensures
            doc@ == doc_text(*self),
    {
        String::clone(&self.cell.load_full())
    }

    /// Relies on `arc_swap::ArcSwapAny::store`: replaces the held document
    /// wholesale in one atomic swap.
    #[verifier::external_body]
    pub(crate) fn store(&mut self, doc: String)
        ensures
            doc_text(*final(self)) == doc@,
    {
        self.cell.store(Arc::new(doc));
    }
}

} // verus!
