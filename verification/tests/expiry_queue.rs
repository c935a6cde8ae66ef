use gfp::expiry_queue::ExpiryQueue;

#[test]
fn empty_queue_has_nothing_to_give() {
    let mut queue: ExpiryQueue<String> = ExpiryQueue::new();
    assert_eq!(queue.len(), 0);
    assert_eq!(queue.earliest(), None);
    assert!(queue.pop().is_none());
    assert_eq!(queue.len(), 0);
}

#[test]
fn records_come_out_earliest_first() {
    let stamps: [u128; 12] = [50, 10, 40, 30, 20, 60, 5, 70, 15, 25, 35, 45];
    let mut queue: ExpiryQueue<String> = ExpiryQueue::new();
    for stamp in stamps {
        queue.push(stamp, format!("k{stamp}"));
    }
    assert_eq!(queue.len(), 12);
    let mut sorted = stamps.to_vec();
    sorted.sort();
    for expected in sorted {
        assert_eq!(queue.earliest(), Some(expected));
        let record = queue.pop().unwrap();
        assert_eq!(record.stamp, expected);
        assert_eq!(record.key, format!("k{expected}"));
    }
    assert_eq!(queue.len(), 0);
    assert!(queue.pop().is_none());
}

#[test]
fn equal_stamps_all_come_out() {
    let mut queue: ExpiryQueue<u64> = ExpiryQueue::new();
    for key in 0..5u64 {
        queue.push(7, key);
    }
    queue.push(3, 100);
    queue.push(9, 200);
    assert_eq!(queue.pop().unwrap().key, 100);
    let mut keys = Vec::new();
    for _ in 0..5 {
        let record = queue.pop().unwrap();
        assert_eq!(record.stamp, 7);
        keys.push(record.key);
    }
    keys.sort();
    assert_eq!(keys, vec![0, 1, 2, 3, 4]);
    let last = queue.pop().unwrap();
    assert_eq!(last.stamp, 9);
    assert_eq!(last.key, 200);
    assert!(queue.pop().is_none());
}

#[test]
fn pushes_and_pops_may_alternate() {
    let mut queue: ExpiryQueue<u64> = ExpiryQueue::new();
    let mut state: u128 = 12345;
    let mut held: Vec<u128> = Vec::new();
    for round in 0..2000u64 {
        state = (state * 6364136223846793005 + 1442695040888963407) % (1u128 << 64);
        let stamp = state % 1000;
        if state % 3 == 0 && !held.is_empty() {
            held.sort();
            let expected = held.remove(0);
            assert_eq!(queue.earliest(), Some(expected));
            assert_eq!(queue.pop().unwrap().stamp, expected);
        } else {
            queue.push(stamp, round);
            held.push(stamp);
        }
        assert_eq!(queue.len(), held.len());
    }
    held.sort();
    for expected in held {
        assert_eq!(queue.pop().unwrap().stamp, expected);
    }
    assert!(queue.pop().is_none());
}

#[test]
fn a_single_record_goes_in_and_out() {
    let mut queue: ExpiryQueue<String> = ExpiryQueue::new();
    queue.push(u128::MAX, "only".to_string());
    assert_eq!(queue.len(), 1);
    assert_eq!(queue.earliest(), Some(u128::MAX));
    let record = queue.pop().unwrap();
    assert_eq!(record.stamp, u128::MAX);
    assert_eq!(record.key, "only");
    assert_eq!(queue.earliest(), None);
}
