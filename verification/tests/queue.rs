use autotask::layout::padding_at;
use autotask::layout::RecordLayout;
use autotask::queue::ClaimedTask;
use autotask::queue::TaskQueue;
use autotask::record::CAN_FREE;
use autotask::record::CLAIMED;
use autotask::record::FINISHED;
use autotask::record::NOT_CLAIMED;

fn word(x: usize) -> Vec<u8> {
    x.to_ne_bytes().to_vec()
}

#[test]
fn padding_reaches_the_next_multiple() {
    assert_eq!(padding_at(0, 8), 0);
    assert_eq!(padding_at(1, 8), 7);
    assert_eq!(padding_at(16, 8), 0);
    assert_eq!(padding_at(17, 16), 15);
    assert_eq!(padding_at(5, 1), 0);
}

#[test]
fn layout_of_an_aligned_word() {
    let parts = RecordLayout::new(64, 0, 8, 8);
    assert_eq!(parts, RecordLayout { value_padding: 0, ptr_padding: 7, size: 56 });
}

#[test]
fn layout_of_a_value_off_its_alignment() {
    // (12 + 8) % 8 == 4, so 4 bytes of padding; 4 + 8 + 3 + 1 is a multiple of 8.
    let parts = RecordLayout::new(12, 0, 3, 8);
    assert_eq!(parts, RecordLayout { value_padding: 4, ptr_padding: 0, size: 48 });
}

#[test]
fn layout_counts_what_is_filled() {
    let parts = RecordLayout::new(4096, 56, 8, 16);
    assert_eq!(parts, RecordLayout { value_padding: 0, ptr_padding: 7, size: 56 });
    let parts = RecordLayout::new(4096, 112, 8, 16);
    assert_eq!(parts, RecordLayout { value_padding: 8, ptr_padding: 7, size: 64 });
    let parts = RecordLayout::new(usize::MAX, 1, 1, 16);
    assert_eq!(parts, RecordLayout { value_padding: 8, ptr_padding: 6, size: 56 });
}

#[test]
fn a_new_queue_is_empty() {
    let queue = TaskQueue::new();
    assert!(queue.is_empty());
    assert_eq!(queue.item_count(), 0);
    assert!(!queue.finished());
    assert_eq!(queue.bytes().len(), 0);
}

#[test]
fn a_record_is_written_part_by_part() {
    let mut queue = TaskQueue::new();
    let (state, value) = queue.push_at(12, &[7, 8, 9, 10], 8, 0xABCD);
    let mut expected = vec![0u8; 4];
    expected.extend(word(0xABCD));
    expected.extend([7, 8, 9, 10]);
    expected.push(NOT_CLAIMED);
    expected.extend(vec![0u8; 7]);
    expected.extend(word(7));
    expected.extend(word(8));
    expected.extend(word(4));
    expected.extend(word(4 + 4 + 7 + 41));
    assert_eq!(queue.bytes(), &expected[..]);
    assert_eq!((state, value), (16, 12));
    assert_eq!(queue.item_count(), 1);
    assert!(!queue.is_empty());
}

#[test]
fn records_follow_one_another() {
    let mut queue = TaskQueue::new();
    let first = queue.push_at(0, &[1], 1, 11);
    let len = queue.bytes().len();
    let before = queue.bytes().to_vec();
    let second = queue.push_at(0, &[2, 3], 1, 22);
    assert_eq!(first, (9, 8));
    assert_eq!(second, (len + 10, len + 8));
    assert_eq!(&queue.bytes()[..len], &before[..]);
    assert_eq!(queue.item_count(), 2);
}

#[test]
fn the_last_unclaimed_task_is_claimed() {
    let mut queue = TaskQueue::new();
    let first = queue.push_at(0, &[1], 1, 11);
    let second = queue.push_at(0, &[2, 3], 2, 22);
    let claimed = queue.claim().unwrap();
    assert_eq!(
        claimed,
        ClaimedTask { state: second.0, value: second.1, size: 2, align: 2, vtable: 22 }
    );
    assert_eq!(queue.value(&claimed), &[2, 3]);
    assert_eq!(queue.state(second.0), CLAIMED);
    assert_eq!(queue.state(first.0), NOT_CLAIMED);
    assert_eq!(queue.item_count(), 2);
}

#[test]
fn a_task_is_claimed_once() {
    let mut queue = TaskQueue::new();
    let first = queue.push_at(0, &[1], 1, 11);
    let second = queue.push_at(0, &[2], 1, 22);
    assert_eq!(queue.claim().unwrap().state, second.0);
    assert_eq!(queue.claim().unwrap().state, first.0);
    assert_eq!(queue.item_count(), 1);
    assert_eq!(queue.claim(), None);
}

#[test]
fn the_item_count_wraps_around() {
    let mut queue = TaskQueue::new();
    queue.push_at(0, &[1], 1, 11);
    assert!(queue.claim().is_some());
    assert_eq!(queue.claim(), None);
    assert_eq!(queue.item_count(), 0);
    assert_eq!(queue.claim(), None);
    assert_eq!(queue.item_count(), usize::MAX);
    queue.push_at(0, &[1], 1, 11);
    assert_eq!(queue.item_count(), 0);
}

#[test]
fn states_are_found_and_stored() {
    let mut queue = TaskQueue::new();
    let first = queue.push_at(0, &[1], 1, 11);
    let second = queue.push_at(0, &[2], 1, 22);
    assert!(queue.has_state_at(first.0));
    assert!(queue.has_state_at(second.0));
    assert!(!queue.has_state_at(first.1));
    assert!(!queue.has_state_at(10_000));
    queue.finish(first.0);
    assert_eq!(queue.state(first.0), FINISHED);
    assert_eq!(queue.state(second.0), NOT_CLAIMED);
    queue.set_state(second.0, CAN_FREE);
    assert_eq!(queue.state(second.0), CAN_FREE);
}

#[test]
fn a_state_is_one_byte() {
    let mut queue = TaskQueue::new();
    queue.push_at(0, &[1, 1], 1, 11);
    let second = queue.push_at(4, &[2, 2], 8, 22);
    queue.push_at(0, &[3, 3], 1, 33);
    let mut expected = queue.bytes().to_vec();
    queue.set_state(second.0, FINISHED);
    expected[second.0] = FINISHED;
    assert_eq!(queue.bytes(), &expected[..]);
}

#[test]
fn cleanup_takes_free_records_off_the_end() {
    let mut queue = TaskQueue::new();
    let first = queue.push_at(0, &[1], 1, 11);
    let len = queue.bytes().len();
    let second = queue.push_at(0, &[2], 1, 22);
    let third = queue.push_at(0, &[3], 1, 33);
    let all = queue.bytes().len();
    queue.set_state(first.0, FINISHED);
    queue.set_state(second.0, CAN_FREE);
    assert_eq!(queue.cleanup_len(), 0);
    assert_eq!(queue.cleanup(), 0);
    assert_eq!(queue.bytes().len(), all);
    queue.set_state(third.0, CAN_FREE);
    assert_eq!(queue.cleanup_len(), all - len);
    assert_eq!(queue.cleanup(), all - len);
    assert_eq!(queue.bytes().len(), len);
    assert!(queue.has_state_at(first.0));
    assert!(!queue.has_state_at(second.0));
    assert_eq!(queue.cleanup(), 0);
    queue.set_state(first.0, CAN_FREE);
    assert_eq!(queue.cleanup(), len);
    assert!(queue.is_empty());
}

#[test]
fn finished_is_kept() {
    let mut queue = TaskQueue::new();
    queue.set_finished();
    assert!(queue.finished());
    queue.push_at(0, &[1], 1, 11);
    assert!(queue.finished());
}

#[test]
fn a_value_lies_at_a_multiple_of_its_alignment() {
    for base in [0usize, 1, 7, 20, 4096, 4101] {
        let mut queue = TaskQueue::new();
        for (i, align) in [16usize, 1, 64, 8, 2, 128, 4].into_iter().enumerate() {
            let (state, value) = queue.push_at(base, &[1, 2, 3][..i % 4], align, 22);
            assert_eq!((base + value) % align, 0);
            assert_eq!(state, value + i % 4);
            assert_eq!(&queue.bytes()[value - 8..value], &word(22)[..]);
            assert_eq!(queue.bytes().len() % 8, 0);
        }
    }
    let mut queue = TaskQueue::new();
    queue.push_at(4096, &[0; 8], 8, 11);
    assert_eq!(queue.bytes().len(), 56);
    assert_eq!(queue.push_at(4096, &[0; 8], 16, 22).1, 64);
}

#[test]
fn a_mark_does_not_make_a_task_claimable() {
    let mut queue = TaskQueue::new();
    let first = queue.push_at(0, &[1], 1, 11);
    assert_eq!(queue.claim().unwrap().state, first.0);
    let second = queue.push_at(0, &[2], 1, 22);
    queue.finish(first.0);
    assert_eq!(queue.claim().unwrap().state, second.0);
    queue.set_state(second.0, CAN_FREE);
    queue.cleanup();
    assert_eq!(queue.claim(), None);
    let third = queue.push_at(0, &[3], 1, 33);
    assert_eq!(queue.claim().unwrap().state, third.0);
    assert_eq!(queue.claim(), None);
    assert_eq!(queue.state(first.0), FINISHED);
}

#[test]
fn places_are_kept() {
    let mut queue = TaskQueue::new();
    let first = queue.push_at(5, &[1], 4, 11);
    let second = queue.push_at(9, &[2, 2], 8, 22);
    queue.push_at(0, &[3], 1, 33);
    queue.set_state(second.0, FINISHED);
    let third = queue.claim().unwrap();
    queue.set_state(third.state, CAN_FREE);
    queue.cleanup();
    assert_eq!(queue.state(first.0), NOT_CLAIMED);
    assert_eq!(queue.state(second.0), FINISHED);
    assert!(!queue.has_state_at(third.state));
    assert_eq!(queue.claim().unwrap().state, first.0);
}

#[test]
fn different_records_have_different_bytes() {
    let mut seen: Vec<Vec<u8>> = Vec::new();
    for (base, data, align, vtable) in [
        (0usize, vec![1u8], 1usize, 7usize),
        (0, vec![2], 1, 7),
        (0, vec![1, 0], 1, 7),
        (0, vec![1], 2, 7),
        (1, vec![1], 2, 7),
        (0, vec![1], 1, 8),
        (0, vec![], 1, 7),
    ] {
        let mut queue = TaskQueue::new();
        queue.push_at(base, &data, align, vtable);
        assert!(!seen.contains(&queue.bytes().to_vec()));
        seen.push(queue.bytes().to_vec());
    }
}
