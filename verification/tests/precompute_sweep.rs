use juggling_tools::precompute::precompute_jobs;
use juggling_tools::util::combinations;

#[test]
fn sweep_starts_at_smallest_pair() {
    let (jobs, _) = precompute_jobs();
    assert!(!jobs.is_empty());
    assert_eq!(jobs[0].num_props, 1);
    assert_eq!(jobs[0].max_height, 1);
    assert!(!jobs[0].compact);
    assert!(!jobs[0].reversed);
}

#[test]
fn sweep_emits_three_variants_per_included_pair() {
    let (jobs, _) = precompute_jobs();
    assert_eq!(jobs.len() % 3, 0);
    for chunk in jobs.chunks(3) {
        let np = chunk[0].num_props;
        let mh = chunk[0].max_height;
        assert!(chunk.iter().all(|j| j.num_props == np && j.max_height == mh));
        assert!(!chunk[0].compact && !chunk[0].reversed);
        assert!(!chunk[1].compact && chunk[1].reversed);
        assert!(chunk[2].compact && !chunk[2].reversed);
    }
}

#[test]
fn sweep_respects_the_state_ceiling() {
    let (jobs, skipped) = precompute_jobs();
    for job in &jobs {
        assert!(1 <= job.num_props);
        assert!(job.num_props <= job.max_height);
        assert!(job.max_height <= 32);
        assert!(combinations(job.max_height as u64, job.num_props as u64) <= 10000);
    }

    let mut expected_included = 0u32;
    let mut expected_skipped = 0u32;
    for np in 1u64..=32 {
        for mh in np..=32 {
            if combinations(mh, np) > 10000 {
                expected_skipped += 1;
            } else {
                expected_included += 1;
            }
        }
    }
    assert_eq!(jobs.len() as u32, 3 * expected_included);
    assert_eq!(skipped, expected_skipped);
}

#[test]
fn job_parameters_validate() {
    let (jobs, _) = precompute_jobs();
    for job in &jobs {
        let params = job.to_params();
        assert!(params.validate().is_ok());
        assert_eq!(params.compact, job.compact);
        assert_eq!(params.reversed, job.reversed);
    }
}
