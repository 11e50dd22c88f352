//! The registry of pending queries.

use crate::table::Table;
use crate::tl::copy_range;
use vstd::prelude::*;

verus! {

/// The state of a registered query.
#[derive(Debug, Clone, PartialEq, Eq)]
pub enum QueryState {
    /// Sent and not yet answered.
    Sent,
    /// The answer arrived.
    Answered(Vec<u8>),
    /// Given up.
    Dropped,
}

/// The state of a query as plain values.
pub enum QueryStateView {
    Sent,
    Answered(Seq<u8>),
    Dropped,
}

impl View for QueryState {
    type V = QueryStateView;

    open spec fn view(&self) -> QueryStateView {
        match self {
            QueryState::Sent => QueryStateView::Sent,
            QueryState::Answered(bytes) => QueryStateView::Answered(bytes@),
            QueryState::Dropped => QueryStateView::Dropped,
        }
    }
}

/// The state that an update leads to: answered where bytes are given, else
/// dropped.
pub open spec fn outcome_of(answer: Option<Seq<u8>>) -> QueryStateView {
    match answer {
        Some(bytes) => QueryStateView::Answered(bytes),
        None => QueryStateView::Dropped,
    }
}

/// Whether an update of a query takes effect: the query is registered and
/// still waits.
pub open spec fn update_applies(queries: Map<Seq<u8>, QueryStateView>, id: Seq<u8>) -> bool {
    queries.contains_key(id) && queries[id] is Sent
}

/// The registry after an update.
pub open spec fn updated(
    queries: Map<Seq<u8>, QueryStateView>,
    id: Seq<u8>,
    answer: Option<Seq<u8>>,
) -> Map<Seq<u8>, QueryStateView> {
    if update_applies(queries, id) {
        queries.insert(id, outcome_of(answer))
    } else {
        queries
    }
}

/// After an update of a query, whether it took effect or not, a further
/// update of that query takes no effect: the outcome that the waiter sees is
/// fixed by the first update, and it is an answer or a drop, never both.
pub proof fn lemma_second_update_is_noop(
    queries: Map<Seq<u8>, QueryStateView>,
    id: Seq<u8>,
    first: Option<Seq<u8>>,
    second: Option<Seq<u8>>,
)
    ensures
        !update_applies(updated(queries, id, first), id),
        updated(updated(queries, id, first), id, second) == updated(queries, id, first),
        update_applies(queries, id) ==> updated(queries, id, first)[id] == outcome_of(first),
{
}

/// An update of one query leaves every other query as it was.
pub proof fn lemma_update_is_local(
    queries: Map<Seq<u8>, QueryStateView>,
    id: Seq<u8>,
    answer: Option<Seq<u8>>,
    other: Seq<u8>,
)
    requires
        other != id,
    ensures
        updated(queries, id, answer).contains_key(other) == queries.contains_key(other),
        queries.contains_key(other) ==> updated(queries, id, answer)[other] == queries[other],
{
}

/// The pending queries of a node, by query id.
pub struct QueriesCache {
    queries: Table<QueryState>,
}

impl View for QueriesCache {
    type V = Map<Seq<u8>, QueryStateView>;

    closed spec fn view(&self) -> Map<Seq<u8>, QueryStateView> {
        Map::new(|id: Seq<u8>| self.queries@.contains_key(id), |id: Seq<u8>| self.queries@[id]@)
    }
}

impl QueriesCache {
    pub closed spec fn wf(&self) -> bool {
        self.queries.wf()
    }

    /// The number of registered queries.
    pub closed spec fn count(&self) -> nat {
        self.queries.slots()
    }

    pub fn new() -> (cache: Self)
        ensures
            cache.wf(),
            cache.count() == 0,
            forall|id: Seq<u8>| !cache@.contains_key(id),
    {
        Self { queries: Table::new() }
    }

    pub fn len(&self) -> (n: usize)
        requires
            self.wf(),
        ensures
            n == self.count(),
            n == self@.dom().len(),
    {
        assert(self@.dom() =~= self.queries@.dom());
        self.queries.len()
    }

    /// Registers a query as sent.
    pub fn add_query(&mut self, query_id: [u8; 32])
        requires
            old(self).wf(),
        ensures
            final(self).wf(),
            final(self)@ == old(self)@.insert(query_id@, QueryStateView::Sent),
    {
        let _ = self.queries.insert(query_id, QueryState::Sent);
        assert(self@ =~= old(self)@.insert(query_id@, QueryStateView::Sent));
    }

    /// Settles a waiting query: with an answer, or as dropped where none is
    /// given. Tells whether the query was still waiting; a query that is
    /// unknown or already settled is left as it is.
    pub fn update_query(&mut self, query_id: &[u8; 32], answer: Option<&[u8]>) -> (applied: bool)
        requires
            old(self).wf(),
        ensures
            final(self).wf(),
            applied == update_applies(old(self)@, query_id@),
            final(self)@ == updated(
                old(self)@,
                query_id@,
                match answer {
                    Some(bytes) => Some(bytes@),
                    None => None,
                },
            ),
            final(self).count() == old(self).count(),
    {
        let waiting = match self.queries.get(query_id) {
            Some(QueryState::Sent) => true,
            _ => false,
        };
        if waiting {
            let state = match answer {
                Some(bytes) => QueryState::Answered(copy_range(bytes, 0, bytes.len())),
                None => QueryState::Dropped,
            };
            assert(bytes_of(answer) matches Some(b) ==> b =~= b.subrange(0, b.len() as int));
            let _ = self.queries.insert(*query_id, state);
            assert(self@ =~= updated(old(self)@, query_id@, bytes_of(answer)));
        }
        waiting
    }

    /// What the waiter of a query sees: nothing while the query waits or
    /// where it is unknown; else its outcome, with which the query leaves the
    /// registry.
    pub fn take_outcome(&mut self, query_id: &[u8; 32]) -> (outcome: Option<QueryState>)
        requires
            old(self).wf(),
        ensures
            final(self).wf(),
            match outcome {
                Some(state) => old(self)@.contains_key(query_id@) && old(self)@[query_id@]
                    == state@ && !(state@ is Sent) && final(self)@ == old(self)@.remove(query_id@),
                None => !(old(self)@.contains_key(query_id@) && !(old(self)@[query_id@] is Sent))
                    && final(self)@ == old(self)@,
            },
    {
        let settled = match self.queries.get(query_id) {
            Some(QueryState::Sent) => false,
            Some(_) => true,
            None => false,
        };
        if settled {
            let outcome = self.queries.remove(query_id);
            assert(self@ =~= old(self)@.remove(query_id@));
            outcome
        } else {
            None
        }
    }

    /// Forgets a query, whatever its state.
    pub fn remove_query(&mut self, query_id: &[u8; 32])
        requires
            old(self).wf(),
        ensures
            final(self).wf(),
            final(self)@ == old(self)@.remove(query_id@),
    {
        let _ = self.queries.remove(query_id);
        assert(self@ =~= old(self)@.remove(query_id@));
    }
}

/// The bytes of an optional slice.
pub open spec fn bytes_of(answer: Option<&[u8]>) -> Option<Seq<u8>> {
    match answer {
        Some(bytes) => Some(bytes@),
        None => None,
    }
}

} // verus!
