use vstd::prelude::*;

use crate::kvcache::KVCache;

verus! {

/// The cache length recorded when the question `request_id` was taken up.
pub struct Checkpoint {
    pub request_id: String,
    pub length: usize,
}

/// The stack left after rolling back to `id`: entries are popped from the top until one with
/// that id has been popped, or the stack is empty.
pub open spec fn rolled_back_stack(s: Seq<Checkpoint>, id: Seq<char>) -> Seq<Checkpoint>
    decreases s.len(),
{
    if s.len() == 0 {
        s
    } else if s.last().request_id@ == id {
        s.drop_last()
    } else {
        rolled_back_stack(s.drop_last(), id)
    }
}

/// The cache length that a rollback to `id` truncates to: the length recorded by the topmost
/// entry with that id, or 0 when there is none.
pub open spec fn rollback_target(s: Seq<Checkpoint>, id: Seq<char>) -> nat
    decreases s.len(),
{
    if s.len() == 0 {
        0
    } else if s.last().request_id@ == id {
        s.last().length as nat
    } else {
        rollback_target(s.drop_last(), id)
    }
}

/// Pops checkpoints until one for `request_id` has been popped, and returns the length that it
/// recorded (0 when the stack ran out first).
pub fn rollback_checkpoints(stack: &mut Vec<Checkpoint>, request_id: &String) -> (r: usize)
    ensures
        final(stack)@ == rolled_back_stack(old(stack)@, request_id@),
        r == rollback_target(old(stack)@, request_id@),
{
    let ghost initial = stack@;
    loop
        invariant
            initial == old(stack)@,
            rolled_back_stack(stack@, request_id@) == rolled_back_stack(initial, request_id@),
            rollback_target(stack@, request_id@) == rollback_target(initial, request_id@),
        decreases stack@.len(),
    {
        let ghost before = stack@;
        match stack.pop() {
            Some(top) => {
                proof {
                    assert(before.drop_last() == stack@);
                    assert(before.last() == top);
                    assert(rolled_back_stack(before, request_id@) == rolled_back_stack(
                        initial,
                        request_id@,
                    ));
                }
                if top.request_id == *request_id {
                    return top.length;
                }
            },
            None => {
                proof {
                    assert(before.len() == 0);
                    assert(rolled_back_stack(before, request_id@) == before);
                }
                return 0;
            },
        }
    }
}

/// A conversation: its attention cache and the checkpoints of the questions asked so far.
pub struct Session<T> {
    pub cache: KVCache<T>,
    pub checkpoints: Vec<Checkpoint>,
}

/// `after` is `before` rolled back to the request `id`, as `Session::rollback` does it.
pub open spec fn session_rolled_back<T>(before: Session<T>, after: Session<T>, id: Seq<char>) -> bool {
    let t = rollback_target(before.checkpoints@, id);
    &&& after.cache.wf()
    &&& after.checkpoints@ == rolled_back_stack(before.checkpoints@, id)
    &&& t <= before.cache@.length ==> after.cache@ == before.cache@.truncated(t)
    &&& t > before.cache@.length ==> after.cache@ == before.cache@
}

impl<T> Session<T> {
    /// A session over `cache` with no checkpoints.
    pub fn new(cache: KVCache<T>) -> (r: Session<T>)
        ensures
            r.cache == cache,
            r.checkpoints@.len() == 0,
    {
        Session { cache, checkpoints: Vec::new() }
    }

    /// Records the current cache length for the question `request_id`.
    pub fn record(&mut self, request_id: String)
        ensures
            final(self).cache == old(self).cache,
            final(self).checkpoints@ == old(self).checkpoints@.push(
                Checkpoint { request_id, length: old(self).cache@.length as usize },
            ),
    {
        let length = self.cache.len();
        self.checkpoints.push(Checkpoint { request_id, length });
    }

    /// Rolls the conversation back to where it stood when `request_id` was asked: the
    /// checkpoints from the top down to that question's are dropped, and the cache is truncated
    /// to the length it recorded (to 0 when no checkpoint has that id). A recorded length past
    /// the cache's current length leaves the cache as it is. Returns the cache's new length.
    pub fn rollback(&mut self, request_id: &String) -> (r: usize)
        requires
            old(self).cache.wf(),
        ensures
            session_rolled_back(*old(self), *final(self), request_id@),
            r == final(self).cache@.length,
    {
        let target = rollback_checkpoints(&mut self.checkpoints, request_id);
        let _ = self.cache.reset_len(target);
        self.cache.len()
    }
}

/// Rolling back to a request id that stands at index `i`, and nowhere above it, keeps exactly
/// the entries below `i` and truncates to the length recorded at `i`.
pub proof fn lemma_rollback_to_entry(s: Seq<Checkpoint>, i: int)
    requires
        0 <= i < s.len(),
        forall|j: int| i < j < s.len() ==> #[trigger] s[j].request_id@ != s[i].request_id@,
    ensures
        rolled_back_stack(s, s[i].request_id@) == s.subrange(0, i),
        rollback_target(s, s[i].request_id@) == s[i].length,
    decreases s.len(),
{
    if i < s.len() - 1 {
        assert(s.last() == s[s.len() - 1]);
        lemma_rollback_to_entry(s.drop_last(), i);
        assert(s.drop_last().subrange(0, i) =~= s.subrange(0, i));
    } else {
        assert(s.drop_last() =~= s.subrange(0, i));
    }
}

/// Rolling back to a request id that no checkpoint holds empties the stack and truncates to 0.
pub proof fn lemma_rollback_missing(s: Seq<Checkpoint>, id: Seq<char>)
    requires
        forall|j: int| 0 <= j < s.len() ==> #[trigger] s[j].request_id@ != id,
    ensures
        rolled_back_stack(s, id) == Seq::<Checkpoint>::empty(),
        rollback_target(s, id) == 0,
    decreases s.len(),
{
    if s.len() > 0 {
        assert(s.last() == s[s.len() - 1]);
        lemma_rollback_missing(s.drop_last(), id);
    }
}

} // verus!
