use autocommit::debounce::{absorb_event, coalesce, Debouncer};
use autocommit::event::ChangeEvent;

fn created(path: &str) -> ChangeEvent {
    ChangeEvent::Created(path.to_string())
}

fn modified(path: &str) -> ChangeEvent {
    ChangeEvent::Modified(path.to_string())
}

fn removed(path: &str) -> ChangeEvent {
    ChangeEvent::Removed(path.to_string())
}

fn renamed(from: &str, to: &str) -> ChangeEvent {
    ChangeEvent::Renamed(from.to_string(), to.to_string())
}

fn shown(events: &[ChangeEvent]) -> Vec<String> {
    events.iter().map(|e| format!("{:?}", e)).collect()
}

fn reduced(raw: Vec<ChangeEvent>) -> Vec<String> {
    shown(&coalesce(raw))
}

#[test]
fn create_then_write_is_one_creation() {
    assert_eq!(
        reduced(vec![created("/data/a"), modified("/data/a"), modified("/data/a")]),
        shown(&[created("/data/a")])
    );
}

#[test]
fn create_then_remove_cancel() {
    assert_eq!(reduced(vec![created("/data/a"), removed("/data/a")]), Vec::<String>::new());
}

#[test]
fn create_write_remove_cancel() {
    assert_eq!(
        reduced(vec![created("/data/a"), modified("/data/a"), removed("/data/a")]),
        Vec::<String>::new()
    );
}

#[test]
fn cancelling_leaves_the_rest_of_the_burst() {
    assert_eq!(
        reduced(vec![
            modified("/data/b"),
            created("/data/a"),
            created("/data/c"),
            removed("/data/a"),
        ]),
        shown(&[modified("/data/b"), created("/data/c")])
    );
}

#[test]
fn repeated_writes_are_one_write() {
    assert_eq!(
        reduced(vec![modified("/data/a"), modified("/data/a"), modified("/data/a")]),
        shown(&[modified("/data/a")])
    );
}

#[test]
fn a_removal_after_a_write_is_kept() {
    assert_eq!(
        reduced(vec![modified("/data/a"), modified("/data/b"), removed("/data/a")]),
        shown(&[modified("/data/a"), modified("/data/b"), removed("/data/a")])
    );
}

#[test]
fn repeated_removals_are_one_removal() {
    assert_eq!(
        reduced(vec![removed("/data/a"), removed("/data/a")]),
        shown(&[removed("/data/a")])
    );
}

#[test]
fn remove_then_create_stay_two_events() {
    assert_eq!(
        reduced(vec![removed("/data/a"), created("/data/a")]),
        shown(&[removed("/data/a"), created("/data/a")])
    );
}

#[test]
fn remove_create_remove_is_one_removal() {
    assert_eq!(
        reduced(vec![removed("/data/a"), created("/data/a"), removed("/data/a")]),
        shown(&[removed("/data/a")])
    );
}

#[test]
fn a_write_after_a_removal_is_kept() {
    assert_eq!(
        reduced(vec![removed("/data/a"), modified("/data/a")]),
        shown(&[removed("/data/a"), modified("/data/a")])
    );
}

#[test]
fn a_rename_stands_between_events_of_its_paths() {
    assert_eq!(
        reduced(vec![created("/data/a"), renamed("/data/a", "/data/b"), removed("/data/a")]),
        shown(&[created("/data/a"), renamed("/data/a", "/data/b"), removed("/data/a")])
    );
    assert_eq!(
        reduced(vec![created("/data/b"), renamed("/data/a", "/data/b"), modified("/data/b")]),
        shown(&[created("/data/b"), renamed("/data/a", "/data/b"), modified("/data/b")])
    );
}

#[test]
fn events_of_other_paths_do_not_coalesce() {
    assert_eq!(
        reduced(vec![created("/data/a"), modified("/data/ab"), removed("/data/b")]),
        shown(&[created("/data/a"), modified("/data/ab"), removed("/data/b")])
    );
}

#[test]
fn an_empty_burst_gives_an_empty_batch() {
    assert_eq!(reduced(Vec::new()), Vec::<String>::new());
}

#[test]
fn absorbing_one_event_at_a_time() {
    let mut pending = Vec::new();
    absorb_event(&mut pending, created("/data/a"));
    absorb_event(&mut pending, created("/data/a"));
    assert_eq!(shown(&pending), shown(&[created("/data/a"), created("/data/a")]));
    absorb_event(&mut pending, removed("/data/a"));
    assert_eq!(shown(&pending), shown(&[created("/data/a")]));
    absorb_event(&mut pending, removed("/data/a"));
    assert_eq!(shown(&pending), Vec::<String>::new());
    absorb_event(&mut pending, removed("/data/a"));
    assert_eq!(shown(&pending), shown(&[removed("/data/a")]));
}

#[test]
fn the_window_opens_with_the_first_event() {
    let mut debouncer = Debouncer::new(2000);
    assert_eq!(debouncer.deadline(), None);
    assert!(debouncer.release(1_000_000).is_none());
    debouncer.offer(modified("/data/a"), 500);
    assert_eq!(debouncer.deadline(), Some(2500));
    debouncer.offer(modified("/data/b"), 1700);
    assert_eq!(debouncer.deadline(), Some(2500));
}

#[test]
fn the_batch_is_held_until_the_window_has_passed() {
    let mut debouncer = Debouncer::new(2000);
    debouncer.offer(created("/data/a"), 500);
    debouncer.offer(modified("/data/a"), 900);
    debouncer.offer(modified("/data/b"), 1000);
    assert!(debouncer.release(500).is_none());
    assert!(debouncer.release(2499).is_none());
    assert!(debouncer.release(100).is_none());
    let batch = debouncer.release(2500).unwrap();
    assert_eq!(shown(&batch), shown(&[created("/data/a"), modified("/data/b")]));
    assert_eq!(debouncer.deadline(), None);
    assert!(debouncer.release(9000).is_none());
}

#[test]
fn a_burst_that_cancels_is_not_forwarded() {
    let mut debouncer = Debouncer::new(2000);
    debouncer.offer(created("/data/a"), 10);
    debouncer.offer(removed("/data/a"), 20);
    assert_eq!(debouncer.deadline(), Some(2010));
    assert!(debouncer.release(2010).is_none());
    assert_eq!(debouncer.deadline(), None);
    debouncer.offer(created("/data/b"), 5000);
    assert_eq!(debouncer.deadline(), Some(7000));
    assert_eq!(shown(&debouncer.release(7000).unwrap()), shown(&[created("/data/b")]));
}

#[test]
fn a_window_of_no_length_is_due_at_once() {
    let mut debouncer = Debouncer::new(0);
    debouncer.offer(created("/data/a"), 42);
    assert_eq!(debouncer.deadline(), Some(42));
    assert_eq!(shown(&debouncer.release(42).unwrap()), shown(&[created("/data/a")]));
}

#[test]
fn the_deadline_stops_at_the_end_of_time() {
    let mut debouncer = Debouncer::new(2000);
    debouncer.offer(created("/data/a"), u64::MAX - 5);
    assert_eq!(debouncer.deadline(), Some(u64::MAX));
    assert!(debouncer.release(u64::MAX).is_none());
    let mut debouncer = Debouncer::new(u64::MAX);
    debouncer.offer(created("/data/a"), 0);
    assert_eq!(debouncer.deadline(), Some(u64::MAX));
    assert!(debouncer.release(u64::MAX - 1).is_none());
    assert!(debouncer.release(u64::MAX).is_some());
}
