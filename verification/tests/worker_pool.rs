use http_client::pool::{Dispatch, PoolError, ThreadPool};
use http_client::handler::{Action, Event, Stage};
use http_client::routes::{App, ScannedFile, ScannedFolder};

fn pool(size: usize) -> ThreadPool<u32> {
    ThreadPool::new(size).expect("the size is positive")
}

#[test]
fn size_zero_is_refused() {
    let made: Result<ThreadPool<u32>, PoolError> = ThreadPool::new(0);
    assert_eq!(made.err(), Some(PoolError::InvalidPoolSize));
}

#[test]
fn positive_sizes_are_accepted() {
    for size in [1usize, 2, 4, 64] {
        let made: ThreadPool<u32> = ThreadPool::new(size).expect("the size is positive");
        assert_eq!(made.size(), size);
        assert_eq!(made.pending(), 0);
        assert!(!made.is_drained());
    }
}

#[test]
fn a_fresh_pool_has_no_work() {
    let mut p = pool(3);
    for worker in 0..3 {
        assert_eq!(p.next_job(worker), Dispatch::Wait);
    }
    assert_eq!(p.pending(), 0);
}

#[test]
fn jobs_are_handed_out_in_submission_order() {
    let mut p = pool(2);
    for job in [10, 20, 30] {
        assert_eq!(p.execute(job), Ok(()));
    }
    assert_eq!(p.pending(), 3);
    assert_eq!(p.next_job(1), Dispatch::Run(10));
    assert_eq!(p.next_job(0), Dispatch::Run(20));
    assert_eq!(p.next_job(1), Dispatch::Run(30));
    assert_eq!(p.pending(), 0);
    assert_eq!(p.next_job(0), Dispatch::Wait);
    assert_eq!(p.next_job(1), Dispatch::Wait);
}

#[test]
fn more_jobs_than_workers_all_run_once() {
    let size = 3;
    let jobs = 10u32;
    let mut p = pool(size);
    for job in 0..jobs {
        assert_eq!(p.execute(job), Ok(()));
    }
    let mut ran = Vec::new();
    let mut waiting = 0;
    let mut worker = 0;
    while waiting < size {
        match p.next_job(worker) {
            Dispatch::Run(job) => {
                ran.push(job);
                waiting = 0;
            }
            Dispatch::Wait => waiting += 1,
            Dispatch::Exit => panic!("the pool is open"),
        }
        worker = (worker + 1) % size;
    }
    assert_eq!(ran, (0..jobs).collect::<Vec<u32>>());
    assert_eq!(p.pending(), 0);
}

#[test]
fn interleaved_submissions_all_run_once() {
    let mut p = pool(2);
    let mut ran = Vec::new();
    let mut submitted = Vec::new();
    let script: [u8; 14] = [0, 0, 1, 0, 2, 1, 1, 0, 0, 0, 2, 1, 2, 1];
    let mut next = 100u32;
    for step in script {
        match step {
            0 => {
                assert_eq!(p.execute(next), Ok(()));
                submitted.push(next);
                next += 1;
            }
            worker => {
                if let Dispatch::Run(job) = p.next_job(worker as usize - 1) {
                    ran.push(job);
                }
            }
        }
    }
    for worker in [0usize, 1, 0, 1, 0, 1, 0, 1] {
        if let Dispatch::Run(job) = p.next_job(worker) {
            ran.push(job);
        }
    }
    assert_eq!(submitted.len(), 6);
    assert_eq!(ran, submitted);
    assert_eq!(p.pending(), 0);
}

#[test]
fn equal_jobs_run_as_often_as_submitted() {
    let mut p = pool(1);
    for _ in 0..3 {
        assert_eq!(p.execute(7), Ok(()));
    }
    assert_eq!(p.next_job(0), Dispatch::Run(7));
    assert_eq!(p.next_job(0), Dispatch::Run(7));
    assert_eq!(p.next_job(0), Dispatch::Run(7));
    assert_eq!(p.next_job(0), Dispatch::Wait);
}

#[test]
fn a_stranger_is_told_to_stop() {
    let mut p = pool(2);
    assert_eq!(p.execute(1), Ok(()));
    assert_eq!(p.next_job(2), Dispatch::Exit);
    assert_eq!(p.next_job(usize::MAX), Dispatch::Exit);
    assert_eq!(p.pending(), 1);
    assert_eq!(p.next_job(1), Dispatch::Run(1));
}

#[test]
fn shutdown_hands_later_jobs_back() {
    let mut p = pool(2);
    assert_eq!(p.execute(1), Ok(()));
    p.shutdown();
    assert_eq!(p.execute(2), Err(2));
    assert_eq!(p.pending(), 1);
    assert_eq!(p.execute(3), Err(3));
    assert_eq!(p.pending(), 1);
}

#[test]
fn shutdown_lets_workers_drain_the_queue() {
    let mut p = pool(2);
    for job in [1, 2, 3] {
        assert_eq!(p.execute(job), Ok(()));
    }
    p.shutdown();
    assert!(!p.is_drained());
    assert_eq!(p.next_job(0), Dispatch::Run(1));
    assert_eq!(p.next_job(1), Dispatch::Run(2));
    assert_eq!(p.next_job(0), Dispatch::Run(3));
    assert_eq!(p.pending(), 0);
    assert!(!p.is_drained());
    assert_eq!(p.next_job(1), Dispatch::Exit);
    assert!(!p.is_drained());
    assert_eq!(p.next_job(0), Dispatch::Exit);
    assert!(p.is_drained());
}

#[test]
fn shutdown_is_idempotent() {
    let mut p = pool(1);
    p.shutdown();
    p.shutdown();
    assert!(p.is_drained());
    assert_eq!(p.next_job(0), Dispatch::Exit);
    assert_eq!(p.size(), 1);
}

#[test]
fn an_open_pool_is_never_drained() {
    let mut p = pool(1);
    assert!(!p.is_drained());
    assert_eq!(p.execute(1), Ok(()));
    assert_eq!(p.next_job(0), Dispatch::Run(1));
    assert_eq!(p.next_job(0), Dispatch::Wait);
    assert!(!p.is_drained());
}

#[test]
fn a_worker_holds_its_job_until_it_asks_again() {
    let mut p = pool(2);
    assert_eq!(p.execute(1), Ok(()));
    p.shutdown();
    assert_eq!(p.next_job(0), Dispatch::Run(1));
    assert_eq!(p.next_job(1), Dispatch::Exit);
    assert!(!p.is_drained());
    assert_eq!(p.next_job(0), Dispatch::Exit);
    assert!(p.is_drained());
}

#[test]
fn jobs_need_not_be_comparable() {
    struct Job {
        run: Box<dyn FnOnce() -> u32>,
    }
    let mut p: ThreadPool<Job> = ThreadPool::new(1).ok().expect("the size is positive");
    assert!(p.execute(Job { run: Box::new(|| 41 + 1) }).is_ok());
    match p.next_job(0) {
        Dispatch::Run(job) => assert_eq!((job.run)(), 42),
        _ => panic!("a job is pending"),
    }
}

#[test]
fn fifty_requests_on_four_workers_keep_their_bodies() {
    let app = App::new(&vec![ScannedFolder {
        name: "pages".to_string(),
        files: (0..50)
            .map(|i| ScannedFile { name: format!("{}.html", i), path: format!("pages/{}.html", i) })
            .collect(),
    }]);
    let mut p: ThreadPool<usize> = ThreadPool::new(4).ok().expect("the size is positive");
    let mut answers: Vec<Option<String>> = (0..50).map(|_| None).collect();
    let mut submitted = 0;
    let mut turn = 0usize;
    let mut idle_turns = 0;
    while idle_turns < 4 {
        // Submissions arrive in bursts between the workers' turns.
        if submitted < 50 && turn % 3 != 2 {
            assert_eq!(p.execute(submitted), Ok(()));
            submitted += 1;
        }
        let worker = (turn * 7 + turn / 5) % 4;
        match p.next_job(worker) {
            Dispatch::Run(request) => {
                idle_turns = 0;
                assert!(answers[request].is_none(), "request {} ran twice", request);
                let line = format!("GET /{}.html HTTP/1.1", request);
                let (stage, action) = app.handle_request(Stage::AwaitingLine, Event::Line(line));
                assert_eq!(action, Action::ReadFile(format!("pages/{}.html", request)));
                let body = format!("body of {}", request);
                let (_, action) = app.handle_request(stage, Event::Contents(body));
                match action {
                    Action::Respond(response) => answers[request] = Some(response),
                    _ => panic!("request {} was not answered", request),
                }
            }
            Dispatch::Wait => {
                if submitted == 50 {
                    idle_turns += 1;
                }
            }
            Dispatch::Exit => panic!("the pool is open"),
        }
        turn += 1;
        assert!(turn < 10_000);
    }
    p.shutdown();
    for worker in 0..4 {
        assert_eq!(p.next_job(worker), Dispatch::Exit);
    }
    assert!(p.is_drained());
    for (request, answer) in answers.iter().enumerate() {
        let body = format!("body of {}", request);
        assert_eq!(
            answer.as_deref(),
            Some(
                format!("HTTP/1.1 200 OK\r\nContent-Length: {}\r\n\r\n{}", body.len(), body)
                    .as_str()
            )
        );
    }
}
