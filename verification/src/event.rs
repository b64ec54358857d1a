use vstd::prelude::*;

verus! {

/// A Nostr event as it travels between clients and relays.
#[derive(Debug, Clone)]
pub struct Event {
    pub id: Option<String>,
    pub sig: Option<String>,
    pub tags: Vec<Vec<String>>,
    pub pubkey: Option<String>,
    pub kind: u32,
    pub created_at: i32,
    pub content: String,
}

impl Event {
    /// The event that `default` gives: a text note (kind 1) created at time
    /// zero, with no id, signature, author, tags or content.
    pub open spec fn is_default(&self) -> bool {
        &&& self.id is None
        &&& self.sig is None
        &&& self.pubkey is None
        &&& self.tags@.len() == 0
        &&& self.created_at == 0
        &&& self.kind == 1
        &&& self.content@.len() == 0
    }
}

impl Default for Event {
    fn default() -> (e: Self)
        ensures
            e.is_default(),
    {
        Event {
            id: None,
            sig: None,
            pubkey: None,
            tags: Vec::new(),
            created_at: 0,
            kind: 1,
            content: String::new(),
        }
    }
}

} // verus!
