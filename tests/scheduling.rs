use llama_serve::{Generation, KVCache, Scheduler};

fn template() -> KVCache<u8> {
    let mut c = KVCache::new(1, 32, 1, 0u8);
    c.increment(2).unwrap();
    c
}

#[test]
fn answer_is_read_exactly_once() {
    let mut s = Scheduler::new(template());
    s.submit_question("alice".to_string(), "q1".to_string(), "hello".to_string());
    let mut tasks = s.tick();
    assert_eq!(tasks.len(), 1);
    let mut task = tasks.pop().unwrap();
    assert_eq!(task.session_id, "alice");
    assert_eq!(task.request_id, "q1");
    assert_eq!(task.question, "hello");
    assert_eq!(task.session.checkpoints.len(), 1);
    assert_eq!(task.session.checkpoints[0].length, 2);
    task.session.cache.increment(3).unwrap();
    assert!(s.complete(task.session_id, task.session, "hi there".to_string()));
    assert_eq!(s.fetch_answer(&"alice".to_string()), "hi there");
    assert_eq!(s.fetch_answer(&"alice".to_string()), "");
}

#[test]
fn fetch_without_answer_is_empty() {
    let mut s = Scheduler::new(template());
    assert_eq!(s.fetch_answer(&"nobody".to_string()), "");
}

#[test]
fn busy_session_gets_no_second_task() {
    let mut s = Scheduler::new(template());
    s.submit_question("bob".to_string(), "q1".to_string(), "one".to_string());
    let mut first = s.tick();
    assert_eq!(first.len(), 1);
    s.submit_question("bob".to_string(), "q2".to_string(), "two".to_string());
    s.request_reset("bob".to_string(), "q1".to_string());
    assert!(s.tick().is_empty());
    let t = first.pop().unwrap();
    assert!(s.complete(t.session_id, t.session, "a1".to_string()));
    let mut second = s.tick();
    assert_eq!(second.len(), 1);
    let t2 = second.pop().unwrap();
    assert_eq!(t2.request_id, "q2");
    // the reset to q1 ran first and emptied the checkpoint stack
    assert_eq!(t2.session.checkpoints.len(), 1);
    assert_eq!(t2.session.checkpoints[0].request_id, "q2");
}

#[test]
fn complete_refused_when_not_lent_out() {
    let mut s = Scheduler::new(template());
    let session = llama_serve::Session::new(template());
    assert!(!s.complete("carol".to_string(), session, "x".to_string()));
    assert_eq!(s.fetch_answer(&"carol".to_string()), "");
}

#[test]
fn sessions_of_different_ids_run_together() {
    let mut s = Scheduler::new(template());
    s.submit_question("a".to_string(), "1".to_string(), "x".to_string());
    s.submit_question("b".to_string(), "2".to_string(), "y".to_string());
    s.submit_question("a".to_string(), "3".to_string(), "z".to_string());
    let tasks = s.tick();
    assert_eq!(tasks.len(), 2);
    let a = tasks.iter().find(|t| t.session_id == "a").unwrap();
    assert_eq!(a.request_id, "3");
    assert!(tasks.iter().any(|t| t.session_id == "b"));
}

#[test]
fn reset_for_unknown_session_is_dropped() {
    let mut s = Scheduler::new(template());
    s.request_reset("ghost".to_string(), "q".to_string());
    assert!(s.tick().is_empty());
    assert!(s.tick().is_empty());
}

#[test]
fn reset_rolls_back_idle_session() {
    let mut s = Scheduler::new(template());
    s.submit_question("d".to_string(), "q1".to_string(), "x".to_string());
    let mut t = s.tick();
    let mut task = t.pop().unwrap();
    task.session.cache.increment(5).unwrap();
    assert!(s.complete(task.session_id, task.session, "ans".to_string()));
    s.submit_question("d".to_string(), "q2".to_string(), "y".to_string());
    let mut t = s.tick();
    let mut task = t.pop().unwrap();
    assert_eq!(task.session.cache.len(), 7);
    task.session.cache.increment(4).unwrap();
    assert!(s.complete(task.session_id, task.session, "ans2".to_string()));
    s.request_reset("d".to_string(), "q2".to_string());
    assert!(s.tick().is_empty());
    s.submit_question("d".to_string(), "q3".to_string(), "z".to_string());
    let mut t = s.tick();
    let task = t.pop().unwrap();
    assert_eq!(task.session.cache.len(), 7);
    assert_eq!(task.session.checkpoints.len(), 2);
    assert_eq!(task.session.checkpoints[1].request_id, "q3");
}

#[test]
fn generation_stops_at_eos() {
    let mut g = Generation::new(vec![], 10, 2);
    assert!(g.record_token(5, 100));
    assert!(!g.record_token(2, 100));
    assert_eq!(g.tokens(), &vec![5, 2]);
}

#[test]
fn generation_stops_at_max_len() {
    let mut g = Generation::new(vec![1, 1], 4, 0);
    assert!(g.record_token(3, 100));
    assert!(!g.record_token(3, 100));
    assert_eq!(g.into_tokens(), vec![1, 1, 3, 3]);
}

#[test]
fn generation_stops_when_cache_full() {
    let mut g = Generation::new(vec![], 10, 0);
    assert!(!g.record_token(3, 0));
}
