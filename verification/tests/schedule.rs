use raytracer::schedule::{Job, Schedule, PASSES};

fn drain(rows: usize) -> Vec<Job> {
    let mut schedule = Schedule::new(rows);
    let mut jobs = Vec::new();
    while let Some(job) = schedule.next() {
        jobs.push(job);
    }
    jobs
}

#[test]
fn schedule_starts_with_the_first_row_at_one_sample() {
    let mut schedule = Schedule::new(2);
    assert_eq!(schedule.next(), Some(Job { row: 0, samples: 1 }));
    assert_eq!(schedule.next(), Some(Job { row: 1, samples: 1 }));
    assert_eq!(schedule.next(), Some(Job { row: 0, samples: 2 }));
    assert_eq!(schedule.next(), Some(Job { row: 1, samples: 2 }));
    assert_eq!(schedule.next(), Some(Job { row: 0, samples: 4 }));
}

#[test]
fn schedule_holds_eleven_jobs_per_row() {
    assert_eq!(PASSES, 11);
    assert_eq!(drain(1).len(), 11);
    assert_eq!(drain(4).len(), 44);
    assert_eq!(drain(1024).len(), 11 * 1024);
}

#[test]
fn schedule_doubles_the_samples_from_pass_to_pass() {
    let jobs = drain(3);
    let expected: [u32; 11] = [1, 2, 4, 8, 16, 32, 64, 128, 256, 512, 1024];
    for (pass, samples) in expected.iter().enumerate() {
        for row in 0..3 {
            assert_eq!(jobs[pass * 3 + row].samples, *samples);
        }
    }
}

#[test]
fn schedule_covers_each_row_once_per_pass_in_order() {
    let rows = 5;
    let jobs = drain(rows);
    for pass in 0..11 {
        let block: Vec<usize> = jobs[pass * rows..(pass + 1) * rows].iter().map(|job| job.row).collect();
        assert_eq!(block, vec![0, 1, 2, 3, 4]);
    }
}

#[test]
fn schedule_ends_with_the_last_row_at_1024_samples() {
    let jobs = drain(7);
    assert_eq!(jobs[jobs.len() - 1], Job { row: 6, samples: 1024 });
}

#[test]
fn schedule_stays_exhausted() {
    let mut schedule = Schedule::new(1);
    for _ in 0..11 {
        assert!(!schedule.is_exhausted());
        assert!(schedule.next().is_some());
    }
    assert!(schedule.is_exhausted());
    assert_eq!(schedule.next(), None);
    assert_eq!(schedule.next(), None);
    assert!(schedule.is_exhausted());
}

#[test]
fn schedule_of_no_rows_is_empty() {
    let mut schedule = Schedule::new(0);
    assert!(schedule.is_exhausted());
    assert_eq!(schedule.next(), None);
    assert_eq!(schedule.rows(), 0);
}

#[test]
fn schedule_remembers_its_rows() {
    let mut schedule = Schedule::new(9);
    assert_eq!(schedule.rows(), 9);
    schedule.next();
    assert_eq!(schedule.rows(), 9);
}
