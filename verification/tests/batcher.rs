use backend::batch_maker::{
    create_batches, create_batches_of, enqueue_all, is_array_source, make_batches,
    make_batches_of, raw_lines, raw_lines_given, Batch, BatchError, Batcher, BATCH_MAX,
};
use backend::message_queue::{MessageQueue, DEFAULT_CAPACITY};

fn numbered(n: usize) -> Vec<String> {
    (0..n).map(|i| format!("line {}", i)).collect()
}

fn flatten(batches: &[Batch]) -> Vec<String> {
    batches.iter().flat_map(|b| b.lines.iter().cloned()).collect()
}

#[test]
fn batch_basics() {
    let mut batch = Batch::new();
    assert_eq!(batch.len(), 0);
    assert!(!batch.is_full());
    for i in 0..BATCH_MAX - 1 {
        batch.add_line(format!("{}", i));
        assert!(!batch.is_full());
    }
    batch.add_line(String::from("last"));
    assert!(batch.is_full());
    assert_eq!(batch.len(), 50);
    assert_eq!(batch.lines[49], "last");
    let copy = batch.clone();
    assert_eq!(copy.lines, batch.lines);
    batch.clear();
    assert_eq!(batch.len(), 0);
    assert!(!batch.is_full());
}

#[test]
fn batches_put_end_to_end_are_the_lines() {
    for n in [0usize, 1, 2, 49, 50, 51, 99, 100, 101, 137] {
        let lines = numbered(n);
        let batches = make_batches(lines.clone());
        assert_eq!(flatten(&batches), lines, "{} lines", n);
        for (k, b) in batches.iter().enumerate() {
            assert!(b.len() >= 1 && b.len() <= BATCH_MAX);
            if k + 1 < batches.len() {
                assert_eq!(b.len(), BATCH_MAX);
            }
        }
        assert_eq!(batches.len(), (n + BATCH_MAX - 1) / BATCH_MAX);
    }
}

#[test]
fn exactly_batch_max_lines_make_one_batch() {
    let batches = make_batches(numbered(BATCH_MAX));
    assert_eq!(batches.len(), 1);
    assert_eq!(batches[0].len(), BATCH_MAX);
}

#[test]
fn one_line_more_makes_a_full_batch_and_a_single_line() {
    let batches = make_batches(numbered(BATCH_MAX + 1));
    assert_eq!(batches.len(), 2);
    assert_eq!(batches[0].len(), BATCH_MAX);
    assert_eq!(batches[1].lines, vec![String::from("line 50")]);
}

#[test]
fn the_batcher_hands_out_a_batch_when_it_is_full_and_keeps_nothing() {
    let mut batcher = Batcher::new();
    for i in 0..BATCH_MAX - 1 {
        assert!(batcher.feed(format!("{}", i)).is_none());
    }
    let full = batcher.feed(String::from("fiftieth")).expect("a full batch");
    assert_eq!(full.len(), BATCH_MAX);
    assert_eq!(full.lines[0], "0");
    assert_eq!(full.lines[49], "fiftieth");
    assert!(batcher.finish().is_none());
}

#[test]
fn the_batcher_hands_out_what_is_left_at_the_end() {
    let mut batcher = Batcher::with_limit(3);
    assert!(batcher.feed(String::from("a")).is_none());
    assert!(batcher.feed(String::from("b")).is_none());
    let first = batcher.feed(String::from("c")).expect("a full batch");
    assert_eq!(first.lines, vec!["a", "b", "c"]);
    assert!(batcher.feed(String::from("d")).is_none());
    let last = batcher.finish().expect("a trailing batch");
    assert_eq!(last.lines, vec!["d"]);
}

#[test]
fn a_limit_below_one_counts_as_one() {
    let batches = make_batches_of(numbered(3), 0);
    assert_eq!(batches.len(), 3);
    assert!(batches.iter().all(|b| b.len() == 1));
}

#[test]
fn json_array_is_taken_apart() {
    let lines = vec![String::from("[{\"event\":\"a\"},{\"event\":\"b\"},{\"event\":\"c\"}]")];
    assert!(is_array_source(&lines));
    let raw = raw_lines(lines).expect("a JSON array");
    assert_eq!(raw, vec!["{\"event\":\"a\"}", "{\"event\":\"b\"}", "{\"event\":\"c\"}"]);
    let batches = make_batches_of(raw, 2);
    assert_eq!(batches.len(), 2);
    assert_eq!(batches[0].lines, vec!["{\"event\":\"a\"}", "{\"event\":\"b\"}"]);
    assert_eq!(batches[1].lines, vec!["{\"event\":\"c\"}"]);
}

#[test]
fn json_array_over_several_lines_is_written_compactly() {
    let lines = vec![
        String::from("  ["),
        String::from("  { \"event\" : \"a\", \"n\": [1, 2] },"),
        String::from("  5, \"x\", null"),
        String::from("]"),
    ];
    assert!(is_array_source(&lines));
    let raw = raw_lines(lines).expect("a JSON array");
    assert_eq!(raw, vec!["{\"event\":\"a\",\"n\":[1,2]}", "5", "\"x\"", "null"]);
}

#[test]
fn broken_json_array_is_refused() {
    match raw_lines(vec![String::from("[1, 2"), String::from("oops")]) {
        Err(BatchError::InvalidData(m)) => {
            assert!(m.starts_with("Failed to parse JSON array: "), "{}", m);
            assert!(m.len() > "Failed to parse JSON array: ".len());
        }
        other => panic!("unexpected {:?}", other),
    }
}

#[test]
fn other_sources_keep_their_lines() {
    let lines = vec![String::from("a"), String::from(""), String::from("[not first")];
    assert!(!is_array_source(&lines));
    assert_eq!(raw_lines(lines.clone()).expect("plain lines"), lines);
    assert!(!is_array_source(&Vec::new()));
    assert_eq!(raw_lines(Vec::new()).expect("no lines"), Vec::<String>::new());
}

#[test]
fn raw_lines_follow_what_the_parser_gave() {
    let array = vec![String::from("[whatever")];
    let given = raw_lines_given(array.clone(), Ok(vec![String::from("x")])).expect("parsed");
    assert_eq!(given, vec!["x"]);
    match raw_lines_given(array, Err(String::from("bad"))) {
        Err(BatchError::InvalidData(m)) => assert_eq!(m, "Failed to parse JSON array: bad"),
        other => panic!("unexpected {:?}", other),
    }
    let plain = vec![String::from("plain")];
    assert_eq!(raw_lines_given(plain.clone(), Err(String::from("bad"))).expect("plain"), plain);
}

#[test]
fn batches_go_into_the_queue_in_order() {
    let mut queue = MessageQueue::new();
    create_batches(numbered(120), &mut queue).expect("room enough");
    assert_eq!(queue.len(), 3);
    let first = queue.dequeue().expect("a batch");
    assert_eq!(first.lines[0], "line 0");
    assert_eq!(first.len(), 50);
    let second = queue.dequeue().expect("a batch");
    assert_eq!(second.lines[0], "line 50");
    let third = queue.dequeue().expect("a batch");
    assert_eq!(third.lines, numbered(120)[100..].to_vec());
    assert!(queue.is_empty());
}

#[test]
fn a_full_queue_keeps_what_went_in_and_the_rest_waits() {
    let mut queue = MessageQueue::with_capacity(2);
    let mut rest = create_batches(numbered(120), &mut queue).expect("a plain source");
    assert_eq!(queue.len(), 2);
    assert_eq!(rest.len(), 1);
    assert!(!rest.is_empty());
    assert_eq!(rest.push_on(&mut queue), 0);
    assert_eq!(queue.dequeue().expect("a batch").lines[0], "line 0");
    assert_eq!(rest.push_on(&mut queue), 1);
    assert!(rest.is_empty());
    assert_eq!(rest.len(), 0);
    assert_eq!(queue.dequeue().expect("a batch").lines[0], "line 50");
    assert_eq!(queue.dequeue().expect("a batch").lines, numbered(120)[100..].to_vec());
    assert_eq!(rest.push_on(&mut queue), 0);
    assert!(queue.is_empty());
}

#[test]
fn a_json_array_with_a_limit_of_two_makes_batches_of_two_and_one() {
    let mut queue = MessageQueue::new();
    let source = vec![String::from("[{\"event\":\"a\"},{\"event\":\"b\"},{\"event\":\"c\"}]")];
    let rest = create_batches_of(source, 2, &mut queue).expect("a JSON array");
    assert!(rest.is_empty());
    assert_eq!(queue.len(), 2);
    assert_eq!(
        queue.dequeue().expect("a batch").lines,
        vec!["{\"event\":\"a\"}", "{\"event\":\"b\"}"]
    );
    assert_eq!(queue.dequeue().expect("a batch").lines, vec!["{\"event\":\"c\"}"]);
}

#[test]
fn one_batch_more_than_the_queue_takes_waits_until_one_is_taken_out() {
    let capacity = 3;
    let mut queue = MessageQueue::with_capacity(capacity);
    let mut rest = create_batches_of(numbered(capacity + 1), 1, &mut queue).expect("a plain source");
    assert!(queue.is_full());
    assert_eq!(rest.len(), 1);
    assert_eq!(rest.push_on(&mut queue), 0);
    assert_eq!(rest.len(), 1);
    assert_eq!(queue.dequeue().expect("a batch").lines, vec!["line 0"]);
    assert_eq!(rest.push_on(&mut queue), 1);
    assert!(rest.is_empty());
    for expected in ["line 1", "line 2", "line 3"] {
        assert_eq!(queue.dequeue().expect("a batch").lines, vec![expected]);
    }
}

#[test]
fn a_source_is_an_array_by_its_first_line_that_is_not_blank() {
    let lines = |v: &[&str]| v.iter().map(|l| String::from(*l)).collect::<Vec<String>>();
    assert!(is_array_source(&lines(&["", "   ", "  [1,", "2]"])));
    assert!(!is_array_source(&lines(&["", "x", "[1,2]"])));
    assert!(!is_array_source(&lines(&["", " \t "])));
    assert!(!is_array_source(&lines(&[])));
    assert_eq!(raw_lines(lines(&["", "[1,2]"])).expect("a JSON array"), vec!["1", "2"]);
}

#[test]
fn a_broken_source_leaves_the_queue_alone() {
    let mut queue = MessageQueue::with_capacity(2);
    assert!(matches!(
        create_batches(vec![String::from("[")], &mut queue),
        Err(BatchError::InvalidData(_))
    ));
    assert!(queue.is_empty());
}

#[test]
fn enqueue_all_with_no_room() {
    let mut queue = MessageQueue::with_capacity(0);
    let rest = enqueue_all(&mut queue, make_batches(numbered(1)));
    assert_eq!(rest.len(), 1);
    assert!(enqueue_all(&mut queue, Vec::new()).is_empty());
    assert!(queue.is_empty());
}

#[test]
fn queue_is_first_in_first_out() {
    let mut queue = MessageQueue::new();
    assert!(queue.is_empty());
    assert_eq!(DEFAULT_CAPACITY, 1024);
    for name in ["a", "b", "c"] {
        let mut batch = Batch::new();
        batch.add_line(String::from(name));
        queue.enqueue(batch).expect("room");
    }
    assert!(!queue.is_empty());
    assert_eq!(queue.len(), 3);
    for name in ["a", "b", "c"] {
        assert_eq!(queue.dequeue().expect("a batch").lines, vec![String::from(name)]);
    }
    assert_eq!(queue.dequeue().map(|b| b.lines), Err(String::from("Queue is empty")));
}

#[test]
fn a_full_queue_makes_the_producer_wait_until_a_consumer_took_one() {
    let capacity = 4;
    let mut queue = MessageQueue::with_capacity(capacity);
    for i in 0..capacity {
        let mut batch = Batch::new();
        batch.add_line(format!("{}", i));
        assert!(queue.enqueue(batch).is_ok());
    }
    assert!(queue.is_full());
    let mut extra = Batch::new();
    extra.add_line(String::from("extra"));
    assert_eq!(queue.enqueue(extra.clone()), Err(String::from("Queue is full")));
    assert_eq!(queue.len(), capacity);
    assert_eq!(queue.dequeue().expect("a batch").lines, vec!["0"]);
    assert!(!queue.is_full());
    assert!(queue.enqueue(extra).is_ok());
    assert_eq!(queue.len(), capacity);
    for expected in ["1", "2", "3", "extra"] {
        assert_eq!(queue.dequeue().expect("a batch").lines, vec![expected]);
    }
}
