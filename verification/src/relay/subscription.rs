use vstd::prelude::*;

use crate::filter::{Filter, FilterView};

verus! {

/// A subscription: its id and the filters it asks relays for.
#[derive(Debug, Clone)]
pub struct Subscription {
    pub id: String,
    pub filters: Vec<Filter>,
}

/// The mathematical value of a subscription.
pub struct SubscriptionView {
    pub id: Seq<char>,
    pub filters: Seq<FilterView>,
}

impl View for Subscription {
    type V = SubscriptionView;

    open spec fn view(&self) -> SubscriptionView {
        SubscriptionView { id: self.id@, filters: self.filters@.map_values(|f: Filter| f@) }
    }
}

impl Default for Subscription {
    fn default() -> (s: Self)
        ensures
            s@.id.len() == 0,
            s@.filters.len() == 0,
    {
        Subscription { id: String::new(), filters: Vec::new() }
    }
}

} // verus!
