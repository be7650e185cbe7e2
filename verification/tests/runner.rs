use autotask::dummy::DummyTask;
use autotask::handle::Handle;
use autotask::handle::HandleAction;
use autotask::queue::ClaimedTask;
use autotask::queue::TaskQueue;
use autotask::record::CAN_FREE;
use autotask::record::CLAIMED;
use autotask::record::FINISHED;
use autotask::record::NOT_CLAIMED;
use autotask::runner::Phase;
use autotask::runner::Runner;
use autotask::Task;
use autotask::TaskStatus;
use autotask::Tasker;

/// Drives a finite runner and returns the vtables of the tasks in the order in which they
/// ran.
fn drive(queue: &mut TaskQueue) -> Vec<usize> {
    let mut runner = Runner::new(true);
    let mut ran = Vec::new();
    loop {
        match runner.phase {
            Phase::Poll => runner.poll(queue),
            Phase::Claim => runner.claim(queue),
            Phase::Run { state, vtable, data, size } => {
                assert_eq!(queue.state(state), CLAIMED);
                assert_eq!(runner.current_data.len(), data + size);
                ran.push(vtable);
                runner.complete(queue);
                assert_eq!(queue.state(state), FINISHED);
            }
            Phase::Clean => runner.clean(queue),
            Phase::Done => return ran,
        }
    }
}

fn filled(n: usize) -> (TaskQueue, Vec<usize>) {
    let mut queue = TaskQueue::new();
    let mut states = Vec::new();
    for i in 0..n {
        states.push(queue.push_at(0, &[i as u8], 1, i).0);
    }
    (queue, states)
}

#[test]
fn three_tasks_are_run_from_the_last() {
    let (mut queue, states) = filled(3);
    assert_eq!(drive(&mut queue), vec![2, 1, 0]);
    for state in states {
        assert_eq!(queue.state(state), FINISHED);
    }
}

#[test]
fn a_zero_item_count_stops_a_finite_runner() {
    // 6 - 1 - 2 - 3 is zero, so the runner stops after four claims.
    let (mut queue, states) = filled(6);
    assert_eq!(drive(&mut queue), vec![5, 4, 3, 2]);
    assert_eq!(queue.item_count(), 0);
    assert_eq!(queue.state(states[0]), NOT_CLAIMED);
    assert_eq!(queue.state(states[1]), NOT_CLAIMED);
}

#[test]
fn an_empty_queue_stops_a_finite_runner() {
    let queue = TaskQueue::new();
    let mut runner = Tasker::exhaust();
    runner.poll(&queue);
    assert_eq!(runner.phase, Phase::Done);
}

#[test]
fn a_worker_waits_until_finished() {
    let mut queue = TaskQueue::new();
    let mut runner = Tasker::worker();
    assert!(!runner.finite);
    runner.poll(&queue);
    assert_eq!(runner.phase, Phase::Poll);
    queue.set_finished();
    runner.poll(&queue);
    assert_eq!(runner.phase, Phase::Done);
}

#[test]
fn a_worker_with_nothing_to_claim_looks_again() {
    let (mut queue, states) = filled(2);
    queue.set_state(states[0], FINISHED);
    queue.set_state(states[1], CLAIMED);
    let mut runner = Tasker::worker();
    runner.poll(&queue);
    assert_eq!(runner.phase, Phase::Claim);
    runner.claim(&mut queue);
    assert_eq!(runner.phase, Phase::Poll);
    assert_eq!(queue.item_count(), 0);
    runner.poll(&queue);
    assert_eq!(runner.phase, Phase::Poll);
    queue.set_finished();
    runner.poll(&queue);
    assert_eq!(runner.phase, Phase::Done);
}

#[test]
fn a_finite_runner_with_nothing_to_claim_stops() {
    let (mut queue, states) = filled(1);
    queue.set_state(states[0], CLAIMED);
    let mut runner = Tasker::exhaust();
    runner.poll(&queue);
    runner.claim(&mut queue);
    assert_eq!(runner.phase, Phase::Done);
}

#[test]
fn free_records_are_cleaned_up() {
    let (mut queue, states) = filled(3);
    queue.set_state(states[2], CAN_FREE);
    queue.set_state(states[1], CAN_FREE);
    assert_eq!(drive(&mut queue), vec![0]);
    assert!(queue.has_state_at(states[0]));
    assert!(!queue.has_state_at(states[1]));
    assert!(!queue.has_state_at(states[2]));
}

#[test]
fn a_staged_value_is_aligned() {
    let task = ClaimedTask { state: 3, value: 0, size: 2, align: 8, vtable: 5 };
    let mut runner = Runner::new(false);
    runner.stage(task, &[1, 2], 13);
    assert_eq!(runner.phase, Phase::Run { state: 3, vtable: 5, data: 3, size: 2 });
    assert_eq!(runner.current_data, vec![0, 0, 0, 1, 2]);
    let mut runner = Runner::new(false);
    runner.stage(task, &[1, 2], 16);
    assert_eq!(runner.phase, Phase::Run { state: 3, vtable: 5, data: 8, size: 2 });
    assert_eq!(runner.current_data, vec![0, 0, 0, 0, 0, 0, 0, 0, 1, 2]);
}

#[test]
fn a_claimed_value_is_copied_to_an_aligned_address() {
    for align in [1usize, 2, 8, 64, 256] {
        let mut queue = TaskQueue::new();
        queue.push_at(0, &[1, 2, 3], align, 9);
        let mut runner = Tasker::worker();
        runner.poll(&queue);
        runner.claim(&mut queue);
        match runner.phase {
            Phase::Run { data, size, vtable, .. } => {
                assert_eq!(vtable, 9);
                assert_eq!(&runner.current_data[data..data + size], &[1, 2, 3]);
                assert_eq!((runner.current_data.as_ptr() as usize + data) % align, 0);
                assert!(data >= 1 && data <= align);
            }
            phase => panic!("{:?}", phase),
        }
    }
}

#[test]
fn a_task_is_claimed_while_it_runs() {
    let (mut queue, states) = filled(2);
    let mut runner = Tasker::worker();
    runner.poll(&queue);
    assert_eq!(queue.state(states[1]), NOT_CLAIMED);
    runner.claim(&mut queue);
    let state = match runner.phase {
        Phase::Run { state, .. } => state,
        phase => panic!("{:?}", phase),
    };
    assert_eq!(state, states[1]);
    assert_eq!(queue.state(state), CLAIMED);
    let added = queue.push_at(0, &[9], 1, 99).0;
    assert_eq!(queue.state(state), CLAIMED);
    assert_eq!(queue.claim().unwrap().state, added);
    assert_eq!(queue.claim().unwrap().state, states[0]);
    queue.set_state(added, CAN_FREE);
    assert!(queue.cleanup() > 0);
    assert!(queue.has_state_at(state));
    assert_eq!(queue.state(state), CLAIMED);
    runner.complete(&mut queue);
    assert_eq!(queue.state(state), FINISHED);
    assert_eq!(queue.state(states[0]), CLAIMED);
}

#[test]
fn threads_are_bounded() {
    assert_eq!(Tasker::new(4, Some(8)).threads, 4);
    assert_eq!(Tasker::new(4, Some(3)).threads, 2);
    assert_eq!(Tasker::new(4, Some(1)).threads, 0);
    assert_eq!(Tasker::new(4, None).threads, 0);
}

#[test]
fn a_tasker_adds_tasks_at_their_alignment() {
    let mut tasker = Tasker::new(4, Some(2));
    assert!(tasker.is_drained());
    for (vtable, align) in [4096usize, 1, 64, 8, 2048, 2].into_iter().enumerate() {
        let (state, value) = tasker.add_task(&[1, 2, 3, 4], align, vtable);
        let base = tasker.tasks.bytes().as_ptr() as usize;
        assert_eq!((base + value) % align, 0);
        assert_eq!(state, value + 4);
        assert_eq!(&tasker.tasks.bytes()[value..state], &[1, 2, 3, 4]);
        assert_eq!(tasker.tasks.claim().unwrap().vtable, vtable);
    }
    assert!(!tasker.is_drained());
}

#[test]
fn a_closed_tasker_is_finished() {
    let mut tasker = Tasker::new(1, None);
    tasker.close();
    assert!(tasker.tasks.finished());
    assert_eq!(tasker.threads, 0);
}

#[test]
fn a_handle_helps_once_and_waits() {
    let mut handle = Handle::new(5, 6);
    assert_eq!((handle.state, handle.value), (5, 6));
    assert_eq!(handle.look(NOT_CLAIMED), HandleAction::Exhaust);
    assert_eq!(handle.look(CLAIMED), HandleAction::Wait);
    assert_eq!(handle.look(CLAIMED), HandleAction::Wait);
    assert_eq!(handle.look(FINISHED), HandleAction::Read);
}

#[test]
fn a_handle_of_a_claimed_task_only_waits() {
    let mut handle = Handle::new(5, 6);
    assert_eq!(handle.look(CLAIMED), HandleAction::Wait);
    assert_eq!(handle.look(FINISHED), HandleAction::Read);
    let mut handle = Handle::new(5, 6);
    assert_eq!(handle.look(NOT_CLAIMED), HandleAction::Exhaust);
    assert_eq!(handle.look(NOT_CLAIMED), HandleAction::Read);
}

#[test]
fn a_count_ends_at_its_goal() {
    for goal in [0usize, 1, 30, 69, 420] {
        let mut task = DummyTask::new(goal);
        let mut steps = 0;
        let result = loop {
            if let Some(result) = task.step() {
                break result;
            }
            steps += 1;
        };
        assert_eq!(result, goal);
        assert_eq!(steps, goal);
    }
}

struct Add {
    value: usize,
}

impl Task for Add {
    fn run(&mut self) {
        self.value += 1;
    }
}

#[test]
fn a_task_is_run_through_its_trait() {
    let mut add = Add { value: 1 };
    {
        let task: &mut dyn Task = &mut add;
        task.run();
    }
    assert_eq!(add.value, 2);
    assert_ne!(TaskStatus::Complete, TaskStatus::Processing);
    assert_ne!(TaskStatus::Errored, TaskStatus::Processing);
}
