use stacker_engine::event_timer::Timer;

#[test]
fn timer_preserves_fifo_order() {
    let mut timer = Timer::new();

    timer.add(0, "testing");
    timer.add(0, "one two three");

    assert_eq!(timer.poll(), Some("testing"));
    assert_eq!(timer.poll(), Some("one two three"));
    assert_eq!(timer.poll(), None);
}

#[test]
fn timer_fires_in_order() {
    let mut timer = Timer::new();

    timer.add(4, "test");
    timer.add(3, "a");
    timer.add(2, "is");
    timer.add(1, "this");

    timer.update(4);

    assert_eq!(timer.poll(), Some("this"));
    assert_eq!(timer.poll(), Some("is"));
    assert_eq!(timer.poll(), Some("a"));
    assert_eq!(timer.poll(), Some("test"));
    assert_eq!(timer.poll(), None);
}

#[test]
fn timer_fires_in_time() {
    let mut timer = Timer::new();

    timer.add(40, 40);
    timer.add(20, 20);
    timer.add(0, 0);
    timer.add(30, 30);
    timer.add(10, 10);

    for i in 0..=41 {
        if let Some(value) = timer.poll() {
            assert_eq!(value, i);
        }
        timer.update(1);
    }
}

#[test]
fn timer_next_in() {
    let mut timer = Timer::new();

    timer.add(0, "hi");
    timer.add(20, "!");
    timer.add(10, "there");

    assert_eq!(timer.next_in(), Some(0));
    assert_eq!(timer.poll(), Some("hi"));

    assert_eq!(timer.next_in(), Some(10));

    timer.update(10);
    assert_eq!(timer.next_in(), Some(0));
    assert_eq!(timer.poll(), Some("there"));

    timer.update(3);
    assert_eq!(timer.next_in(), Some(7));
}

#[test]
fn timer_remove() {
    let mut timer = Timer::new();

    timer.add(100, "boom!");
    timer.update(50);
    assert_eq!(timer.remove("boom!"), Some(50));
    assert_eq!(timer.next_in(), None);
}

#[test]
fn timer_fires_after_remove() {
    let mut timer = Timer::new();

    timer.add(30, 30);
    timer.add(20, 20);
    timer.add(40, 40);
    timer.add(10, 10);
    timer.add(50, 50);

    assert_eq!(timer.remove(50), Some(50));
    assert_eq!(timer.remove(10), Some(10));

    for i in 0..=41 {
        if let Some(value) = timer.poll() {
            assert_eq!(value, i);
        }
        timer.update(1);
    }
}

#[test]
fn timer_update_past_several_entries_lowers_each_by_elapsed() {
    // Deltas [1, 5]: every delay passed over loses the whole elapsed time.
    let mut timer = Timer::new();
    timer.add(1, 'a');
    timer.add(6, 'b');
    timer.update(3);
    assert_eq!(timer.poll(), Some('a'));
    assert_eq!(timer.next_in(), Some(2));
}

#[test]
fn timer_add_keeps_later_deadline() {
    let mut timer = Timer::new();
    timer.add(10, 'x');
    timer.add(4, 'y');
    assert_eq!(timer.next_in(), Some(4));
    assert_eq!(timer.remove('x'), Some(10));
    assert_eq!(timer.remove('z'), None);
}

#[test]
fn timer_remove_undoes_add() {
    let mut timer = Timer::new();
    timer.add(5, 'a');
    timer.add(12, 'c');
    timer.add(8, 'b');
    assert_eq!(timer.remove('b'), Some(8));
    // 'c' keeps its deadline: 7 frames after 'a'
    timer.update(5);
    assert_eq!(timer.poll(), Some('a'));
    assert_eq!(timer.next_in(), Some(7));
    timer.update(7);
    assert_eq!(timer.poll(), Some('c'));
    assert_eq!(timer.next_in(), None);
}
