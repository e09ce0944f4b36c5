use pixy_terrain::mesh_worker::{
    batch_size_for, current_batch_size, thread_count_for, worker_thread_count, MIN_BATCH_SIZE,
    MIN_WORKER_THREADS, threads_for_cpus,
};

#[test]
fn explicit_thread_count_is_kept() {
    assert_eq!(thread_count_for(5, 64), 5);
    assert_eq!(worker_thread_count(3), Some(3));
}

#[test]
fn automatic_thread_count_is_three_quarters_of_cpus() {
    assert_eq!(thread_count_for(0, 8), 6);
    assert_eq!(thread_count_for(0, 1), MIN_WORKER_THREADS);
    assert_eq!(thread_count_for(0, 3), MIN_WORKER_THREADS);
    assert_eq!(thread_count_for(0, 16), 12);
    let n = worker_thread_count(0).unwrap();
    assert!(n >= MIN_WORKER_THREADS);
}

#[test]
fn batch_size_has_a_floor() {
    assert_eq!(batch_size_for(4), MIN_BATCH_SIZE);
    assert_eq!(batch_size_for(40), 40);
    assert!(current_batch_size() >= MIN_BATCH_SIZE);
}

#[test]
fn threads_for_cpus_covers_every_count() {
    assert_eq!(threads_for_cpus(5, 64), Some(5));
    assert_eq!(threads_for_cpus(0, 8), Some(6));
    assert_eq!(threads_for_cpus(0, 1), Some(2));
    assert_eq!(threads_for_cpus(0, usize::MAX), None);
}
