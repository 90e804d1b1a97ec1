//! Answers the player waits for from outside (a picked file, typed text):
//! a request is made under an id, the answer arrives later, and the scene
//! that asked takes it; a scene that took an answer that is not its own
//! puts it back.

use vstd::prelude::*;

verus! {

/// The id of the last request, and its answer once there is one.
pub struct RequestSlot {
    id: Option<String>,
    answer: Option<String>,
}

/// What taking from a slot gives: its id and its answer, when there are
/// both.
pub open spec fn taken(id: Option<String>, answer: Option<String>) -> Option<(String, String)> {
    match (id, answer) {
        (Some(i), Some(a)) => Some((i, a)),
        _ => None,
    }
}

impl RequestSlot {
    /// The id of the last request.
    pub closed spec fn id(&self) -> Option<String> {
        self.id
    }

    /// The answer waiting to be taken.
    pub closed spec fn answer(&self) -> Option<String> {
        self.answer
    }

    /// No request yet.
    pub fn new() -> (s: Self)
        ensures
            s.id() is None,
            s.answer() is None,
    {
        RequestSlot { id: None, answer: None }
    }

    /// A new request under `id`; an answer not yet taken is dropped.
    pub fn request(&mut self, id: String)
        ensures
            final(self).id() == Some(id),
            final(self).answer() is None,
    {
        self.id = Some(id);
        self.answer = None;
    }

    /// The answer to the last request arrived.
    pub fn deliver(&mut self, answer: String)
        ensures
            final(self).id() == old(self).id(),
            final(self).answer() == Some(answer),
    {
        self.answer = Some(answer);
    }

    /// Takes the answer with the id it answers, when there is one; the
    /// id stays.
    pub fn take(&mut self) -> (r: Option<(String, String)>)
        ensures
            r == taken(old(self).id(), old(self).answer()),
            final(self).id() == old(self).id(),
            final(self).answer() is None,
    {
        let answer = self.answer.take();
        match (&self.id, answer) {
            (Some(i), Some(a)) => Some((i.clone(), a)),
            _ => None,
        }
    }

    /// Puts an answer back under its id, for the scene it belongs to.
    pub fn put_back(&mut self, id: String, answer: String)
        ensures
            final(self).id() == Some(id),
            final(self).answer() == Some(answer),
    {
        self.id = Some(id);
        self.answer = Some(answer);
    }
}

/// An answer put back is what the next take gives, and a take leaves
/// nothing for the one after it.
pub proof fn lemma_put_back_then_take(id: String, answer: String)
    ensures
        taken(Some(id), Some(answer)) == Some((id, answer)),
        forall|i: Option<String>| #[trigger] taken(i, None) is None,
{
}

} // verus!
