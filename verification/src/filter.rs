use vstd::prelude::*;

use crate::pubkey::Pubkey;

verus! {

/// What a subscription asks a relay for: events with these ids, by these
/// authors, of these kinds; an absent list puts no constraint.
#[derive(Debug, Clone)]
pub struct Filter {
    pub ids: Option<Vec<String>>,
    pub authors: Option<Vec<Pubkey>>,
    pub kinds: Option<Vec<u64>>,
}

/// The mathematical value of a filter.
pub struct FilterView {
    pub ids: Option<Seq<Seq<char>>>,
    pub authors: Option<Seq<Seq<u8>>>,
    pub kinds: Option<Seq<u64>>,
}

impl View for Filter {
    type V = FilterView;

    open spec fn view(&self) -> FilterView {
        FilterView {
            ids: match self.ids {
                Some(v) => Some(v@.map_values(|s: String| s@)),
                None => None,
            },
            authors: match self.authors {
                Some(v) => Some(v@.map_values(|p: Pubkey| p@)),
                None => None,
            },
            kinds: match self.kinds {
                Some(v) => Some(v@),
                None => None,
            },
        }
    }
}

impl Filter {
    /// A filter with no constraint.
    pub fn new() -> (f: Self)
        ensures
            f.ids is None,
            f.authors is None,
            f.kinds is None,
    {
        Filter { ids: None, authors: None, kinds: None }
    }
}

/// Whether two lists of strings hold the same strings in the same order.
fn same_strings(a: &Vec<String>, b: &Vec<String>) -> (same: bool)
    ensures
        same == (a@.map_values(|s: String| s@) == b@.map_values(|s: String| s@)),
{
    if a.len() != b.len() {
        proof {
            assert(a@.map_values(|s: String| s@).len() != b@.map_values(|s: String| s@).len());
        }
        return false;
    }
    let mut i: usize = 0;
    while i < a.len()
        invariant
            0 <= i <= a.len(),
            a.len() == b.len(),
            forall|j: int| 0 <= j < i ==> a@[j]@ == b@[j]@,
        decreases a.len() - i,
    {
        if a[i] != b[i] {
            proof {
                assert(a@.map_values(|s: String| s@)[i as int] != b@.map_values(|s: String| s@)[i as int]);
            }
            return false;
        }
        i = i + 1;
    }
    assert(a@.map_values(|s: String| s@) =~= b@.map_values(|s: String| s@));
    true
}

/// Whether two lists of keys hold the same keys in the same order.
fn same_keys(a: &Vec<Pubkey>, b: &Vec<Pubkey>) -> (same: bool)
    ensures
        same == (a@.map_values(|p: Pubkey| p@) == b@.map_values(|p: Pubkey| p@)),
{
    if a.len() != b.len() {
        proof {
            assert(a@.map_values(|p: Pubkey| p@).len() != b@.map_values(|p: Pubkey| p@).len());
        }
        return false;
    }
    let mut i: usize = 0;
    while i < a.len()
        invariant
            0 <= i <= a.len(),
            a.len() == b.len(),
            forall|j: int| 0 <= j < i ==> a@[j]@ == b@[j]@,
        decreases a.len() - i,
    {
        if a[i] != b[i] {
            proof {
                assert(a@.map_values(|p: Pubkey| p@)[i as int] != b@.map_values(|p: Pubkey| p@)[i as int]);
            }
            return false;
        }
        i = i + 1;
    }
    assert(a@.map_values(|p: Pubkey| p@) =~= b@.map_values(|p: Pubkey| p@));
    true
}

/// Whether two lists of kinds hold the same kinds in the same order.
fn same_kinds(a: &Vec<u64>, b: &Vec<u64>) -> (same: bool)
    ensures
        same == (a@ == b@),
{
    if a.len() != b.len() {
        return false;
    }
    let mut i: usize = 0;
    while i < a.len()
        invariant
            0 <= i <= a.len(),
            a.len() == b.len(),
            forall|j: int| 0 <= j < i ==> a@[j] == b@[j],
        decreases a.len() - i,
    {
        if a[i] != b[i] {
            return false;
        }
        i = i + 1;
    }
    assert(a@ =~= b@);
    true
}

impl PartialEq for Filter {
    /// Filters are equal when they put the same constraints.
    fn eq(&self, other: &Filter) -> (same: bool) {
        let ids = match (&self.ids, &other.ids) {
            (Some(a), Some(b)) => same_strings(a, b),
            (None, None) => true,
            _ => false,
        };
        let authors = match (&self.authors, &other.authors) {
            (Some(a), Some(b)) => same_keys(a, b),
            (None, None) => true,
            _ => false,
        };
        let kinds = match (&self.kinds, &other.kinds) {
            (Some(a), Some(b)) => same_kinds(a, b),
            (None, None) => true,
            _ => false,
        };
        ids && authors && kinds
    }
}

impl vstd::std_specs::cmp::PartialEqSpecImpl for Filter {
    open spec fn obeys_eq_spec() -> bool {
        true
    }

    open spec fn eq_spec(&self, other: &Filter) -> bool {
        self@ == other@
    }
}

} // verus!
