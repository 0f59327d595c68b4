use query_server::parser::parse_query;
use query_server::sched::{
    admission_status, estimate_cost, plan_for_enqueue, JobIds, SchedCore, WORKER_LIMIT,
};

#[test]
fn six_jobs_four_run_two_queue() {
    let mut core: SchedCore<u64> = SchedCore::new();
    let mut statuses: Vec<&str> = Vec::new();
    let mut running: Vec<u64> = Vec::new();
    for id in 1u64..=6 {
        statuses.push(admission_status(core.active));
        if let Some(job) = core.on_arrival(id) {
            running.push(job);
        }
    }
    assert_eq!(
        statuses,
        vec!["running", "running", "running", "running", "queued", "queued"]
    );
    assert_eq!(running, vec![1, 2, 3, 4]);
    assert_eq!(core.active, WORKER_LIMIT);

    // every completion frees a slot and promotes a waiting job, until all
    // six jobs have run exactly once
    let mut finished: Vec<u64> = Vec::new();
    while let Some(job) = running.pop() {
        finished.push(job);
        if let Some(next) = core.on_completion() {
            running.push(next);
        }
    }
    finished.sort();
    assert_eq!(finished, vec![1, 2, 3, 4, 5, 6]);
    assert_eq!(core.active, 0);
}

#[test]
fn queued_jobs_are_served_in_arrival_order() {
    let mut core: SchedCore<u64> = SchedCore::new();
    for id in 1u64..=6 {
        core.on_arrival(id);
    }
    assert_eq!(core.on_completion(), Some(5));
    assert_eq!(core.on_completion(), Some(6));
    assert_eq!(core.on_completion(), None);
    assert_eq!(core.active, 3);
}

#[test]
fn active_count_never_exceeds_the_limit() {
    let mut core: SchedCore<u64> = SchedCore::new();
    for id in 1u64..=20 {
        core.on_arrival(id);
        assert!(core.active <= WORKER_LIMIT);
    }
    for _ in 0..20 {
        core.on_completion();
        assert!(core.active <= WORKER_LIMIT);
    }
}

#[test]
fn job_ids_are_strictly_increasing() {
    let mut ids = JobIds::new();
    let a = ids.take_next();
    let b = ids.take_next();
    let c = ids.take_next();
    assert_eq!(a, 1);
    assert!(b > a);
    assert!(c > b);
}

#[test]
fn cost_is_ten_per_step() {
    let plan = parse_query(
        "df = pl.read_parquet(\"p.parquet\")\ndf = df.sort(\"a\")\ndf = df.agg(pl.col(\"a\").sum())",
    )
    .unwrap();
    assert_eq!(estimate_cost(&plan), 30);
    assert_eq!(estimate_cost(&[]), 0);
}

#[test]
fn unparseable_query_enqueues_an_empty_plan() {
    let plan = plan_for_enqueue("not a statement");
    assert!(plan.is_empty());
    assert_eq!(estimate_cost(&plan), 0);

    let good = plan_for_enqueue("df = pl.read_parquet(\"p.parquet\")");
    assert_eq!(good.len(), 1);
}
