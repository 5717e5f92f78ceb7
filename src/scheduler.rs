use vstd::prelude::*;

use crate::kvcache::KVCache;
use crate::session::{session_rolled_back, Checkpoint, Session};
use crate::table::{entries_map, keys_unique, lemma_unique_prefix, Entry, Table};

verus! {

/// A question waiting to be taken up.
pub struct Question {
    pub request_id: String,
    pub text: String,
}

/// Where a session stands: held by the scheduler, or lent to a task that is running on it.
pub enum Slot<T> {
    Idle(Session<T>),
    Busy,
}

/// An inference to run: answer `question` on `session`, then hand the session back.
pub struct Task<T> {
    pub session_id: String,
    pub request_id: String,
    pub question: String,
    pub session: Session<T>,
}

pub open spec fn is_busy<T>(m: Map<Seq<char>, Slot<T>>, k: Seq<char>) -> bool {
    m.contains_key(k) && m[k] is Busy
}

/// No two tasks are for the same session.
pub open spec fn distinct_sessions<T>(tasks: Seq<Task<T>>) -> bool {
    forall|i: int, j: int|
        0 <= i < tasks.len() && 0 <= j < tasks.len() && i != j ==> #[trigger] tasks[i].session_id@
            != #[trigger] tasks[j].session_id@
}

/// `t` is the task for the question `q` on the session `s`: it carries the question's request
/// id and text, and `s` with the question's checkpoint (the current cache length) on top.
pub open spec fn task_on<T>(t: Task<T>, q: Question, s: Session<T>) -> bool {
    &&& t.request_id == q.request_id
    &&& t.question == q.text
    &&& t.session.cache.wf()
    &&& t.session.cache == s.cache
    &&& t.session.checkpoints@ == s.checkpoints@.push(
        Checkpoint { request_id: q.request_id, length: s.cache@.length as usize },
    )
}

/// `t` is the task for the question `q` on a new session: a copy of `template` whose only
/// checkpoint is the question's.
pub open spec fn task_on_template<T>(t: Task<T>, q: Question, template: KVCache<T>) -> bool {
    &&& t.request_id == q.request_id
    &&& t.question == q.text
    &&& t.session.cache.wf()
    &&& t.session.cache@ == template@
    &&& t.session.checkpoints@ == seq![
        Checkpoint { request_id: q.request_id, length: template@.length as usize },
    ]
}

/// `t` is the task made for the question `q` on the session `slots[t.session_id]`, or on a
/// copy of `template` when there is none.
pub open spec fn task_made<T>(
    t: Task<T>,
    q: Question,
    slots: Map<Seq<char>, Slot<T>>,
    template: KVCache<T>,
) -> bool {
    let k = t.session_id@;
    if slots.contains_key(k) {
        task_on(t, q, slots[k]->Idle_0)
    } else {
        task_on_template(t, q, template)
    }
}

/// `s` is the idle session `slots[k]` after the pending reset for `k`, if there is one.
pub open spec fn after_reset<T>(
    slots: Map<Seq<char>, Slot<T>>,
    resets: Map<Seq<char>, String>,
    k: Seq<char>,
    s: Session<T>,
) -> bool {
    if resets.contains_key(k) {
        session_rolled_back(slots[k]->Idle_0, s, resets[k]@)
    } else {
        s == slots[k]->Idle_0
    }
}

/// An answer stored when a task completes is what the next fetch for that session returns, and
/// a fetch after that finds no answer (`complete` inserts into the answers, `fetch_answer`
/// removes from them).
pub proof fn lemma_answer_read_once(answers: Map<Seq<char>, String>, id: Seq<char>, a: String)
    ensures
        answers.insert(id, a).contains_key(id),
        answers.insert(id, a)[id] == a,
        !answers.insert(id, a).remove(id).contains_key(id),
{
}

/// A session lent out by one tick is not handed to any task of a later tick while it is still
/// lent out: `tasks` are those of the earlier tick, `slots` the sessions when the later tick
/// starts (with the earlier tasks not yet completed), `later` the later tick's tasks. With
/// `distinct_sessions`, which `tick` ensures of each tick, no two running tasks share a session;
/// and `tick` carries out a reset only on an idle session and leaves a lent-out one unchanged,
/// so a rollback never overlaps a running inference either.
pub proof fn lemma_one_task_per_session<T>(
    tasks: Seq<Task<T>>,
    slots: Map<Seq<char>, Slot<T>>,
    later: Seq<Task<T>>,
)
    requires
        forall|j: int| 0 <= j < tasks.len() ==> is_busy(slots, #[trigger] tasks[j].session_id@),
        forall|j: int| 0 <= j < later.len() ==> !is_busy(slots, #[trigger] later[j].session_id@),
    ensures
        forall|i: int, j: int|
            0 <= i < tasks.len() && 0 <= j < later.len() ==> #[trigger] tasks[i].session_id@
                != #[trigger] later[j].session_id@,
{
}

/// Owns every session and the pending questions, resets and answers, each keyed by session id.
pub struct Scheduler<T> {
    questions: Table<Question>,
    resets: Table<String>,
    answers: Table<String>,
    sessions: Table<Slot<T>>,
    template: KVCache<T>,
}

impl<T> Scheduler<T> {
    pub closed spec fn pending_questions(&self) -> Map<Seq<char>, Question> {
        self.questions@
    }

    pub closed spec fn pending_resets(&self) -> Map<Seq<char>, String> {
        self.resets@
    }

    pub closed spec fn answers(&self) -> Map<Seq<char>, String> {
        self.answers@
    }

    pub closed spec fn sessions(&self) -> Map<Seq<char>, Slot<T>> {
        self.sessions@
    }

    pub closed spec fn template(&self) -> KVCache<T> {
        self.template
    }

    pub closed spec fn wf(&self) -> bool {
        &&& self.questions.wf()
        &&& self.resets.wf()
        &&& self.answers.wf()
        &&& self.sessions.wf()
        &&& self.template.wf()
        &&& forall|k: Seq<char>|
            #[trigger] self.sessions@.contains_key(k) && self.sessions@[k] is Idle
                ==> self.sessions@[k]->Idle_0.cache.wf()
    }

    /// A scheduler with no sessions; each new session starts from a copy of `template`,
    /// including its length, so that what the template holds is shared context.
    pub fn new(template: KVCache<T>) -> (r: Scheduler<T>)
        requires
            template.wf(),
        ensures
            r.wf(),
            r.template() == template,
            r.pending_questions().is_empty(),
            r.pending_resets().is_empty(),
            r.answers().is_empty(),
            r.sessions().is_empty(),
    {
        Scheduler {
            questions: Table::new(),
            resets: Table::new(),
            answers: Table::new(),
            sessions: Table::new(),
            template,
        }
    }

    /// Records a question for `session_id`, replacing one not yet taken up.
    pub fn submit_question(&mut self, session_id: String, request_id: String, text: String)
        requires
            old(self).wf(),
        ensures
            final(self).wf(),
            final(self).pending_questions() == old(self).pending_questions().insert(
                session_id@,
                Question { request_id, text },
            ),
            final(self).pending_resets() == old(self).pending_resets(),
            final(self).answers() == old(self).answers(),
            final(self).sessions() == old(self).sessions(),
            final(self).template() == old(self).template(),
    {
        self.questions.insert(session_id, Question { request_id, text });
    }

    /// Records a request to roll `session_id` back to the question `request_id`, replacing one
    /// not yet carried out.
    pub fn request_reset(&mut self, session_id: String, request_id: String)
        requires
            old(self).wf(),
        ensures
            final(self).wf(),
            final(self).pending_resets() == old(self).pending_resets().insert(
                session_id@,
                request_id,
            ),
            final(self).pending_questions() == old(self).pending_questions(),
            final(self).answers() == old(self).answers(),
            final(self).sessions() == old(self).sessions(),
            final(self).template() == old(self).template(),
    {
        self.resets.insert(session_id, request_id);
    }

    /// Removes and returns the answer stored for `session_id`; empty when there is none.
    pub fn fetch_answer(&mut self, session_id: &String) -> (r: String)
        requires
            old(self).wf(),
        ensures
            final(self).wf(),
            old(self).answers().contains_key(session_id@) ==> r == old(self).answers()[session_id@],
            !old(self).answers().contains_key(session_id@) ==> r@.len() == 0,
            final(self).answers() == old(self).answers().remove(session_id@),
            final(self).pending_questions() == old(self).pending_questions(),
            final(self).pending_resets() == old(self).pending_resets(),
            final(self).sessions() == old(self).sessions(),
            final(self).template() == old(self).template(),
    {
        match self.answers.remove(session_id) {
            Some(a) => a,
            None => String::new(),
        }
    }

    /// Hands back the session of a finished task together with its answer. Accepted only while
    /// that session is lent out; otherwise nothing changes and `false` is returned.
    pub fn complete(&mut self, session_id: String, session: Session<T>, answer: String) -> (r: bool)
        requires
            old(self).wf(),
            session.cache.wf(),
        ensures
            final(self).wf(),
            r == is_busy(old(self).sessions(), session_id@),
            r ==> final(self).sessions() == old(self).sessions().insert(
                session_id@,
                Slot::Idle(session),
            ),
            r ==> final(self).answers() == old(self).answers().insert(session_id@, answer),
            !r ==> final(self).sessions() == old(self).sessions() && final(self).answers()
                == old(self).answers(),
            final(self).pending_questions() == old(self).pending_questions(),
            final(self).pending_resets() == old(self).pending_resets(),
            final(self).template() == old(self).template(),
    {
        let busy = match self.sessions.get(&session_id) {
            Some(Slot::Busy) => true,
            _ => false,
        };
        if busy {
            self.sessions.insert(session_id.clone(), Slot::Idle(session));
            self.answers.insert(session_id, answer);
        }
        busy
    }
}

impl<T> Scheduler<T> {
    /// Carries out every pending reset whose session is idle (see `Session::rollback`), drops
    /// those for unknown sessions, and keeps those whose session is lent out for a later tick.
    pub fn apply_resets(&mut self)
        requires
            old(self).wf(),
        ensures
            final(self).wf(),
            forall|k: Seq<char>|
                #[trigger] final(self).pending_resets().contains_key(k) <==> old(
                    self,
                ).pending_resets().contains_key(k) && is_busy(old(self).sessions(), k),
            forall|k: Seq<char>|
                #[trigger] final(self).pending_resets().contains_key(k)
                    ==> final(self).pending_resets()[k] == old(self).pending_resets()[k],
            final(self).sessions().dom() == old(self).sessions().dom(),
            forall|k: Seq<char>|
                #[trigger] old(self).sessions().contains_key(k) ==> if old(
                    self,
                ).pending_resets().contains_key(k) && old(self).sessions()[k] is Idle {
                    final(self).sessions()[k] is Idle && session_rolled_back(
                        old(self).sessions()[k]->Idle_0,
                        final(self).sessions()[k]->Idle_0,
                        old(self).pending_resets()[k]@,
                    )
                } else {
                    final(self).sessions()[k] == old(self).sessions()[k]
                },
            final(self).pending_questions() == old(self).pending_questions(),
            final(self).answers() == old(self).answers(),
            final(self).template() == old(self).template(),
    {
        let ghost old_resets = self.resets@;
        let ghost old_sessions = self.sessions@;
        let mut todo = self.resets.take_all();
        loop
            invariant
                self.wf(),
                keys_unique(todo@),
                forall|k: Seq<char>|
                    #[trigger] entries_map(todo@).contains_key(k) ==> old_resets.contains_key(k)
                        && entries_map(todo@)[k] == old_resets[k],
                forall|k: Seq<char>|
                    #[trigger] self.resets@.contains_key(k) <==> old_resets.contains_key(k)
                        && !entries_map(todo@).contains_key(k) && is_busy(old_sessions, k),
                forall|k: Seq<char>|
                    #[trigger] self.resets@.contains_key(k) ==> self.resets@[k] == old_resets[k],
                self.sessions@.dom() == old_sessions.dom(),
                forall|k: Seq<char>|
                    #[trigger] old_sessions.contains_key(k) ==> if old_resets.contains_key(k)
                        && !entries_map(todo@).contains_key(k) && old_sessions[k] is Idle {
                        self.sessions@[k] is Idle && session_rolled_back(
                            old_sessions[k]->Idle_0,
                            self.sessions@[k]->Idle_0,
                            old_resets[k]@,
                        )
                    } else {
                        self.sessions@[k] == old_sessions[k]
                    },
                self.questions@ == old(self).questions@,
                self.answers@ == old(self).answers@,
                self.template == old(self).template,
                old_resets == old(self).resets@,
                old_sessions == old(self).sessions@,
            ensures
                todo@.len() == 0,
            decreases todo@.len(),
        {
            let ghost before = todo@;
            let e = match todo.pop() {
                Some(e) => e,
                None => {
                    break;
                },
            };
            proof {
                assert(before.drop_last() == todo@);
                lemma_unique_prefix(before);
                assert(entries_map(before) == entries_map(todo@).insert(e.key@, e.value));
                assert forall|k: Seq<char>| #[trigger] entries_map(todo@).contains_key(k) implies old_resets.contains_key(k)
                        && entries_map(todo@)[k] == old_resets[k] by {
                    assert(entries_map(before).contains_key(k));
                }
            }
            match self.sessions.remove(&e.key) {
                Some(Slot::Idle(mut s)) => {
                    s.rollback(&e.value);
                    self.sessions.insert(e.key, Slot::Idle(s));
                },
                Some(Slot::Busy) => {
                    self.sessions.insert(e.key.clone(), Slot::Busy);
                    self.resets.insert(e.key, e.value);
                },
                None => {},
            }
            proof {
                assert(self.sessions@.dom() =~= old_sessions.dom());
            }
        }
        proof {
            assert(entries_map(todo@) == Map::<Seq<char>, String>::empty());
        }
    }
}

impl<T: Copy> Scheduler<T> {
    /// Turns every pending question whose session is not lent out into a task, creating the
    /// session from the template when it is new, recording the question's checkpoint, and
    /// lending the session to the task. Questions for sessions that are lent out wait.
    pub fn dispatch_questions(&mut self) -> (r: Vec<Task<T>>)
        requires
            old(self).wf(),
        ensures
            final(self).wf(),
            forall|k: Seq<char>|
                #[trigger] final(self).pending_questions().contains_key(k) <==> old(
                    self,
                ).pending_questions().contains_key(k) && is_busy(old(self).sessions(), k),
            forall|k: Seq<char>|
                #[trigger] final(self).pending_questions().contains_key(k)
                    ==> final(self).pending_questions()[k] == old(self).pending_questions()[k],
            distinct_sessions(r@),
            forall|j: int|
                0 <= j < r@.len() ==> {
                    let k = #[trigger] r@[j].session_id@;
                    &&& old(self).pending_questions().contains_key(k)
                    &&& !is_busy(old(self).sessions(), k)
                    &&& task_made(
                        r@[j],
                        old(self).pending_questions()[k],
                        old(self).sessions(),
                        old(self).template(),
                    )
                },
            forall|k: Seq<char>|
                #[trigger] old(self).pending_questions().contains_key(k) && !is_busy(
                    old(self).sessions(),
                    k,
                ) ==> exists|j: int| 0 <= j < r@.len() && #[trigger] r@[j].session_id@ == k,
            final(self).sessions().dom() == old(self).sessions().dom().union(
                old(self).pending_questions().dom(),
            ),
            forall|k: Seq<char>|
                #[trigger] final(self).sessions().contains_key(k) ==> if old(
                    self,
                ).pending_questions().contains_key(k) {
                    final(self).sessions()[k] is Busy
                } else {
                    final(self).sessions()[k] == old(self).sessions()[k]
                },
            final(self).pending_resets() == old(self).pending_resets(),
            final(self).answers() == old(self).answers(),
            final(self).template() == old(self).template(),
    {
        let ghost old_q = self.questions@;
        let ghost old_sessions = self.sessions@;
        let mut todo = self.questions.take_all();
        let mut tasks: Vec<Task<T>> = Vec::new();
        loop
            invariant
                self.wf(),
                keys_unique(todo@),
                forall|k: Seq<char>|
                    #[trigger] entries_map(todo@).contains_key(k) ==> old_q.contains_key(k)
                        && entries_map(todo@)[k] == old_q[k],
                forall|k: Seq<char>|
                    #[trigger] self.questions@.contains_key(k) <==> old_q.contains_key(k)
                        && !entries_map(todo@).contains_key(k) && is_busy(old_sessions, k),
                forall|k: Seq<char>|
                    #[trigger] self.questions@.contains_key(k) ==> self.questions@[k] == old_q[k],
                distinct_sessions(tasks@),
                forall|j: int|
                    0 <= j < tasks@.len() ==> {
                        let k = #[trigger] tasks@[j].session_id@;
                        &&& old_q.contains_key(k)
                        &&& !entries_map(todo@).contains_key(k)
                        &&& !is_busy(old_sessions, k)
                        &&& task_made(tasks@[j], old_q[k], old_sessions, self.template)
                    },
                forall|k: Seq<char>|
                    #[trigger] old_q.contains_key(k) && !entries_map(todo@).contains_key(k)
                        && !is_busy(old_sessions, k) ==> exists|j: int|
                        0 <= j < tasks@.len() && #[trigger] tasks@[j].session_id@ == k,
                forall|k: Seq<char>|
                    #[trigger] self.sessions@.contains_key(k) <==> old_sessions.contains_key(k)
                        || (old_q.contains_key(k) && !entries_map(todo@).contains_key(k)),
                forall|k: Seq<char>|
                    #[trigger] self.sessions@.contains_key(k) ==> if old_q.contains_key(k)
                        && !entries_map(todo@).contains_key(k) {
                        self.sessions@[k] is Busy
                    } else {
                        self.sessions@[k] == old_sessions[k]
                    },
                self.resets@ == old(self).resets@,
                self.answers@ == old(self).answers@,
                self.template == old(self).template,
                old_q == old(self).questions@,
                old_sessions == old(self).sessions@,
            ensures
                todo@.len() == 0,
            decreases todo@.len(),
        {
            let ghost before = todo@;
            let ghost tasks_before = tasks@;
            let e = match todo.pop() {
                Some(e) => e,
                None => {
                    break;
                },
            };
            proof {
                assert(before.drop_last() == todo@);
                lemma_unique_prefix(before);
                assert(entries_map(before) == entries_map(todo@).insert(e.key@, e.value));
                assert forall|k: Seq<char>| #[trigger] entries_map(todo@).contains_key(k) implies old_q.contains_key(k)
                        && entries_map(todo@)[k] == old_q[k] by {
                    assert(entries_map(before).contains_key(k));
                }
            }
            let slot = self.sessions.remove(&e.key);
            match slot {
                Some(Slot::Busy) => {
                    self.sessions.insert(e.key.clone(), Slot::Busy);
                    self.questions.insert(e.key, e.value);
                },
                _ => {
                    let mut session = match slot {
                        Some(Slot::Idle(s)) => s,
                        _ => Session::new(self.template.deep_copy()),
                    };
                    session.record(e.value.request_id.clone());
                    self.sessions.insert(e.key.clone(), Slot::Busy);
                    tasks.push(
                        Task {
                            session_id: e.key,
                            request_id: e.value.request_id,
                            question: e.value.text,
                            session,
                        },
                    );
                    proof {
                        assert(tasks@.drop_last() == tasks_before);
                        let k = e.key@;
                        let n = tasks@.len() - 1;
                        assert(tasks@[n].session_id@ == k);
                        if old_sessions.contains_key(k) {
                            assert(tasks@[n].session.checkpoints@ =~= old_sessions[k]->Idle_0.checkpoints@.push(
                                Checkpoint { request_id: e.value.request_id, length: old_sessions[k]->Idle_0.cache@.length as usize },
                            ));
                        } else {
                            assert(tasks@[n].session.checkpoints@ =~= seq![
                                Checkpoint { request_id: e.value.request_id, length: self.template@.length as usize },
                            ]);
                        }
                        assert(entries_map(before).contains_key(k));
                        assert(old_q[k] == e.value);
                        assert(task_made(tasks@[n], old_q[k], old_sessions, self.template));
                        assert forall|j: int| 0 <= j < tasks@.len() implies {
                            let k2 = #[trigger] tasks@[j].session_id@;
                            &&& old_q.contains_key(k2)
                            &&& !entries_map(todo@).contains_key(k2)
                            &&& !is_busy(old_sessions, k2)
                            &&& task_made(tasks@[j], old_q[k2], old_sessions, self.template)
                        } by {
                            if j < n {
                                assert(tasks@[j] == tasks_before[j]);
                            }
                        }
                        assert forall|k: Seq<char>| #[trigger] old_q.contains_key(k) && !entries_map(todo@).contains_key(k)
                            && !is_busy(old_sessions, k) implies exists|j: int|
                            0 <= j < tasks@.len() && #[trigger] tasks@[j].session_id@ == k by {
                            if k == e.key@ {
                                assert(tasks@[tasks@.len() - 1].session_id@ == k);
                            } else {
                                let j = choose|j: int| 0 <= j < tasks_before.len() && #[trigger] tasks_before[j].session_id@ == k;
                                assert(tasks@[j].session_id@ == k);
                            }
                        }
                    }
                },
            }
        }
        proof {
            assert(entries_map(todo@) == Map::<Seq<char>, Question>::empty());
            assert(self.sessions@.dom() =~= old_sessions.dom().union(old_q.dom()));
        }
        tasks
    }

    /// One tick of the driver: carries out the pending resets, then hands out the pending
    /// questions as tasks (see `apply_resets` and `dispatch_questions`). A question or reset
    /// whose session is lent out waits for a later tick; a reset for an unknown session is
    /// dropped and creates no session.
    pub fn tick(&mut self) -> (r: Vec<Task<T>>)
        requires
            old(self).wf(),
        ensures
            final(self).wf(),
            forall|k: Seq<char>|
                #[trigger] final(self).pending_questions().contains_key(k) <==> old(
                    self,
                ).pending_questions().contains_key(k) && is_busy(old(self).sessions(), k),
            forall|k: Seq<char>|
                #[trigger] final(self).pending_questions().contains_key(k)
                    ==> final(self).pending_questions()[k] == old(self).pending_questions()[k],
            forall|k: Seq<char>|
                #[trigger] final(self).pending_resets().contains_key(k) <==> old(
                    self,
                ).pending_resets().contains_key(k) && is_busy(old(self).sessions(), k),
            forall|k: Seq<char>|
                #[trigger] final(self).pending_resets().contains_key(k)
                    ==> final(self).pending_resets()[k] == old(self).pending_resets()[k],
            distinct_sessions(r@),
            forall|j: int|
                0 <= j < r@.len() ==> {
                    let k = #[trigger] r@[j].session_id@;
                    let q = old(self).pending_questions()[k];
                    &&& old(self).pending_questions().contains_key(k)
                    &&& !is_busy(old(self).sessions(), k)
                    &&& if old(self).sessions().contains_key(k) {
                        exists|s: Session<T>|
                            after_reset(
                                old(self).sessions(),
                                old(self).pending_resets(),
                                k,
                                s,
                            ) && #[trigger] task_on(r@[j], q, s)
                    } else {
                        task_on_template(r@[j], q, old(self).template())
                    }
                },
            forall|k: Seq<char>|
                #[trigger] old(self).pending_questions().contains_key(k) && !is_busy(
                    old(self).sessions(),
                    k,
                ) ==> exists|j: int| 0 <= j < r@.len() && #[trigger] r@[j].session_id@ == k,
            final(self).sessions().dom() == old(self).sessions().dom().union(
                old(self).pending_questions().dom(),
            ),
            forall|k: Seq<char>|
                #[trigger] final(self).sessions().contains_key(k) ==> if old(
                    self,
                ).pending_questions().contains_key(k) {
                    final(self).sessions()[k] is Busy
                } else if old(self).pending_resets().contains_key(k) && old(
                    self,
                ).sessions()[k] is Idle {
                    final(self).sessions()[k] is Idle && session_rolled_back(
                        old(self).sessions()[k]->Idle_0,
                        final(self).sessions()[k]->Idle_0,
                        old(self).pending_resets()[k]@,
                    )
                } else {
                    final(self).sessions()[k] == old(self).sessions()[k]
                },
            final(self).answers() == old(self).answers(),
            final(self).template() == old(self).template(),
    {
        let ghost s0 = self.sessions();
        let ghost q0 = self.pending_questions();
        let ghost r0 = self.pending_resets();
        self.apply_resets();
        let ghost s1 = self.sessions();
        proof {
            assert forall|k: Seq<char>| is_busy(s1, k) == is_busy(s0, k) by {
                if s0.contains_key(k) {
                    assert(s1.contains_key(k));
                } else {
                    assert(!s1.dom().contains(k));
                }
            }
        }
        let r = self.dispatch_questions();
        proof {
            assert forall|j: int| 0 <= j < r@.len() implies {
                let k = #[trigger] r@[j].session_id@;
                let q = q0[k];
                &&& q0.contains_key(k)
                &&& !is_busy(s0, k)
                &&& if s0.contains_key(k) {
                    exists|s: Session<T>| after_reset(s0, r0, k, s) && #[trigger] task_on(r@[j], q, s)
                } else {
                    task_on_template(r@[j], q, old(self).template())
                }
            } by {
                let k = r@[j].session_id@;
                assert(is_busy(s1, k) == is_busy(s0, k));
                assert(task_made(r@[j], q0[k], s1, old(self).template()));
                if s0.contains_key(k) {
                    assert(s1.contains_key(k));
                    let s = s1[k]->Idle_0;
                    assert(after_reset(s0, r0, k, s));
                    assert(task_on(r@[j], q0[k], s));
                }
            }
            assert forall|k: Seq<char>| #[trigger] q0.contains_key(k) && !is_busy(s0, k)
                implies exists|j: int| 0 <= j < r@.len() && #[trigger] r@[j].session_id@ == k by {
                assert(is_busy(s1, k) == is_busy(s0, k));
            }
            assert forall|k: Seq<char>| #[trigger] q0.contains_key(k) && is_busy(s0, k)
                ==> is_busy(s1, k) by {
                assert(is_busy(s1, k) == is_busy(s0, k));
            }
            assert forall|k: Seq<char>| #[trigger] self.pending_questions().contains_key(k)
                <==> q0.contains_key(k) && is_busy(s0, k) by {
                assert(is_busy(s1, k) == is_busy(s0, k));
            }
            assert(self.sessions().dom() =~= s0.dom().union(q0.dom()));
            assert forall|k: Seq<char>| #[trigger] self.sessions().contains_key(k) && !q0.contains_key(k)
                implies self.sessions()[k] == s1[k] && s0.contains_key(k) by {
                assert(s1.dom().contains(k) || q0.dom().contains(k));
            }
        }
        r
    }
}

} // verus!
