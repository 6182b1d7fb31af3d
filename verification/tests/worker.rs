use query_worker::dispatcher::{Dispatcher, System, TaskMessage};
use query_worker::errors::{ErrorCodes, QueryError};
use query_worker::operators::knn::brute_force_knn;
use query_worker::operators::log::compact_log;
use query_worker::operators::merge::merge_knn_results;
use query_worker::operators::projection::{count_records, get_vectors_op};
use query_worker::operators::spann::{spann_brute_force_posting_list, spann_centers_search, spann_fetch_posting_list, spann_knn_merge};
use query_worker::orchestrator::{execute_plan, Orchestrator, Phase, QueryParams, SegmentInfo};
use query_worker::server::{QueryServiceConfig, WorkerServer};
use query_worker::storage::{
    create_bucket_result, s3_bucket_for_config, CreateBucketOutcome, LocalStorageConfig,
    S3StorageConfig, StorageConfig, StorageConfigError,
};
use query_worker::types::{CandidateResult, LogRecord, OutputResult};

const SEGMENT: &str = "550e8400-e29b-41d4-a716-446655440000";

fn cand(id: u64, distance: u64) -> CandidateResult {
    CandidateResult { id, distance }
}

fn params(k: usize, with_emb: bool, segment_id: &str, allowed: Option<Vec<u64>>) -> QueryParams {
    QueryParams {
        vectors: vec![vec![0, 0]],
        k,
        include_embeddings: with_emb,
        segment_id: String::from(segment_id),
        allowed_ids: allowed,
    }
}

fn store_abc() -> Vec<(u64, Vec<i32>)> {
    vec![(1, vec![10, 0]), (2, vec![14, 2]), (3, vec![17, 3])]
}

fn index_abc() -> Vec<CandidateResult> {
    vec![cand(1, 100), cand(2, 200), cand(3, 300)]
}

fn run_query(
    p: QueryParams,
    records: Vec<LogRecord>,
    watermark: u64,
    index: Vec<Vec<CandidateResult>>,
    store: Vec<(u64, Vec<i32>)>,
) -> Orchestrator {
    let mut o = Orchestrator::new(p);
    let a = o.start();
    assert!(a.is_some());
    let acts = o.on_resolved(Ok(SegmentInfo { watermark, store }));
    assert_eq!(acts.len(), 2);
    assert!(!o.on_log_done(Ok(records)));
    assert!(!o.on_index_done(Ok(index)));
    assert!(o.ready_to_merge());
    o.finish();
    o
}

fn done_results(o: &Orchestrator) -> &Vec<Vec<OutputResult>> {
    assert!(matches!(o.phase, Phase::Done));
    o.result.as_ref().unwrap()
}

#[test]
fn scenario_empty_log_full_index() {
    let o = run_query(
        params(2, false, SEGMENT, None),
        vec![],
        0,
        vec![index_abc()],
        store_abc(),
    );
    let r = done_results(&o);
    assert_eq!(r.len(), 1);
    assert_eq!(r[0].len(), 2);
    assert_eq!(r[0][0].id, 1);
    assert_eq!(r[0][0].distance, 100);
    assert_eq!(r[0][1].id, 2);
    assert_eq!(r[0][1].distance, 200);
}

#[test]
fn scenario_newer_log_record_supersedes_index() {
    // The log holds a newer record for id 2 whose embedding puts it at
    // distance 50 from the query; the index still carries it at 200.
    let records = vec![LogRecord { id: 2, seq: 5, embedding: Some(vec![7, 1]) }];
    let o = run_query(
        params(2, true, SEGMENT, None),
        records,
        3,
        vec![index_abc()],
        store_abc(),
    );
    let r = done_results(&o);
    assert_eq!(r[0].len(), 2);
    assert_eq!(r[0][0].id, 2);
    assert_eq!(r[0][0].distance, 50);
    assert_eq!(r[0][0].embedding, Some(vec![7, 1]));
    assert_eq!(r[0][1].id, 1);
    assert_eq!(r[0][1].distance, 100);
    assert_eq!(r[0][1].embedding, Some(vec![10, 0]));
}

#[test]
fn scenario_allow_list_excludes_better_candidate() {
    let o = run_query(
        params(2, false, SEGMENT, Some(vec![1, 3])),
        vec![],
        0,
        vec![index_abc()],
        store_abc(),
    );
    let r = done_results(&o);
    assert_eq!(r[0].len(), 2);
    assert_eq!(r[0][0].id, 1);
    assert_eq!(r[0][1].id, 3);
    assert_eq!(r[0][1].distance, 300);
}

#[test]
fn scenario_index_failure_fails_whole_query() {
    let mut o = Orchestrator::new(params(2, false, SEGMENT, None));
    o.start();
    o.on_resolved(Ok(SegmentInfo { watermark: 0, store: store_abc() }));
    assert!(!o.on_log_done(Ok(vec![])));
    assert!(o.on_index_done(Err(QueryError::IndexUnavailable)));
    assert!(matches!(o.phase, Phase::Failed));
    assert_eq!(o.error, Some(QueryError::IndexUnavailable));
    assert!(o.result.is_none());
}

#[test]
fn scenario_invalid_segment_id_fails_synchronously() {
    let dispatcher = Dispatcher::new(4);
    let config = QueryServiceConfig { my_port: 50051 };
    let mut server = WorkerServer::try_from_config(&config);
    server.set_system(System::new());
    let r = server.begin_query(params(2, false, "not-a-uuid", None));
    // Checked before the wiring: the dispatcher is not even attached yet.
    assert!(matches!(r, Err(QueryError::ValidationError)));
    server.set_dispatcher(Dispatcher::new(4));
    let r2 = server.begin_query(params(2, false, "not-a-uuid", None));
    assert!(matches!(r2, Err(QueryError::ValidationError)));
    // A standalone orchestrator refuses the same request without
    // emitting any action, so nothing is ever submitted.
    let mut o = Orchestrator::new(params(2, false, "not-a-uuid", None));
    let action = o.start();
    assert!(action.is_none());
    assert!(matches!(o.phase, Phase::Failed));
    assert_eq!(o.error, Some(QueryError::ValidationError));
    assert_eq!(dispatcher.submitted, 0);
}

#[test]
fn valid_segment_id_passes_validation() {
    let config = QueryServiceConfig { my_port: 50051 };
    let mut server = WorkerServer::try_from_config(&config);
    assert!(matches!(
        server.begin_query(params(2, false, SEGMENT, None)),
        Err(QueryError::DispatcherUnavailable)
    ));
    server.set_dispatcher(Dispatcher::new(4));
    server.set_system(System::new());
    let o = server.begin_query(params(2, false, SEGMENT, None)).unwrap();
    assert!(matches!(o.phase, Phase::Init));
}

#[test]
fn deleted_id_is_excluded_from_index_results() {
    // The newest log record for id 2 is a delete; the stale index entry
    // for it must not surface.
    let records = vec![LogRecord { id: 2, seq: 5, embedding: None }];
    let o = run_query(
        params(3, false, SEGMENT, None),
        records,
        3,
        vec![index_abc()],
        store_abc(),
    );
    let r = done_results(&o);
    assert_eq!(r[0].len(), 2);
    assert_eq!(r[0][0].id, 1);
    assert_eq!(r[0][1].id, 3);
}

#[test]
fn brute_force_is_deterministic_with_ties() {
    // Two candidates at the same distance: ascending id breaks the tie,
    // and a second invocation returns the same ordered output.
    let queries = vec![vec![0, 0]];
    let candidates: Vec<(u64, Vec<i32>)> = vec![(5, vec![3, 4]), (3, vec![4, 3]), (9, vec![1, 1])];
    let first = brute_force_knn(&queries, &candidates, 3);
    let second = brute_force_knn(&queries, &candidates, 3);
    assert_eq!(first, second);
    assert_eq!(first[0], vec![cand(9, 2), cand(3, 25), cand(5, 25)]);
}

#[test]
fn merge_prefers_log_entry_for_shared_id() {
    let log = vec![cand(2, 50)];
    let index = vec![cand(1, 100), cand(2, 200), cand(3, 300)];
    let merged = merge_knn_results(&log, &index, 3);
    assert_eq!(merged, vec![cand(2, 50), cand(1, 100), cand(3, 300)]);
}

#[test]
fn merge_truncates_and_orders() {
    let log = vec![cand(7, 40)];
    let index = vec![cand(1, 10), cand(2, 20)];
    let merged = merge_knn_results(&log, &index, 2);
    assert_eq!(merged, vec![cand(1, 10), cand(2, 20)]);
    let merged_all = merge_knn_results(&log, &index, 10);
    assert_eq!(merged_all.len(), 3);
}

#[test]
fn compact_log_keeps_newest_at_or_past_bound() {
    let records = vec![
        LogRecord { id: 1, seq: 1, embedding: Some(vec![1, 1]) },
        LogRecord { id: 2, seq: 2, embedding: Some(vec![2, 2]) },
        LogRecord { id: 1, seq: 3, embedding: Some(vec![9, 9]) },
    ];
    let compacted = compact_log(&records, 2);
    assert_eq!(compacted.len(), 2);
    let one = compacted.iter().find(|r| r.id == 1).unwrap();
    assert_eq!(one.seq, 3);
    assert_eq!(one.embedding, Some(vec![9, 9]));
    let two = compacted.iter().find(|r| r.id == 2).unwrap();
    assert_eq!(two.seq, 2);
    // With a higher bound the older ids fall away entirely.
    let later = compact_log(&records, 3);
    assert_eq!(later.len(), 1);
    assert_eq!(later[0].id, 1);
}

#[test]
fn pipeline_without_embeddings_attaches_none() {
    let r = execute_plan(
        &vec![vec![0, 0]],
        2,
        false,
        &None,
        &vec![],
        0,
        &vec![index_abc()],
        &store_abc(),
    );
    assert_eq!(r[0][0].embedding, None);
    assert_eq!(r[0][1].embedding, None);
}

#[test]
fn dispatcher_runs_oldest_task_first() {
    let mut d = Dispatcher::new(1);
    let t1 = TaskMessage { task_id: 1, reply_to: 10 };
    let t2 = TaskMessage { task_id: 2, reply_to: 20 };
    d.submit(t1);
    d.submit(t2);
    assert_eq!(d.submitted, 2);
    assert_eq!(d.try_start(), Some(t1));
    // The single slot is taken: nothing else starts.
    assert_eq!(d.try_start(), None);
    assert_eq!(d.complete(1), Some(t1));
    assert_eq!(d.complete(1), None);
    assert_eq!(d.try_start(), Some(t2));
}

#[test]
fn system_lifecycle() {
    let mut s = System::new();
    assert!(s.running);
    assert_eq!(s.register_actor(), 0);
    assert_eq!(s.register_actor(), 1);
    s.shutdown();
    assert!(!s.running);
}

#[test]
fn deadline_fails_pending_query() {
    let mut o = Orchestrator::new(params(2, false, SEGMENT, None));
    o.start();
    o.on_deadline();
    assert!(matches!(o.phase, Phase::Failed));
    assert_eq!(o.error, Some(QueryError::DeadlineExceeded));
}

#[test]
fn resolution_failure_fails_query() {
    let mut o = Orchestrator::new(params(2, false, SEGMENT, None));
    o.start();
    let acts = o.on_resolved(Err(QueryError::SegmentNotFound));
    assert!(acts.is_empty());
    assert!(matches!(o.phase, Phase::Failed));
    assert_eq!(o.error, Some(QueryError::SegmentNotFound));
}

#[test]
fn error_codes_distinguish_causes() {
    assert_eq!(QueryError::ValidationError.code(), ErrorCodes::InvalidArgument);
    assert_eq!(QueryError::SegmentNotFound.code(), ErrorCodes::NotFound);
    assert_eq!(QueryError::SegmentCorrupt.code(), ErrorCodes::Internal);
    assert_eq!(QueryError::LogUnavailable.code(), ErrorCodes::Unavailable);
    assert_eq!(QueryError::IndexUnavailable.code(), ErrorCodes::Unavailable);
    assert_eq!(
        QueryError::OperatorError(String::from("boom")).code(),
        ErrorCodes::Internal
    );
    assert_eq!(QueryError::DeadlineExceeded.code(), ErrorCodes::DeadlineExceeded);
    assert_eq!(QueryError::DispatcherUnavailable.code(), ErrorCodes::Internal);
}

#[test]
fn storage_config_decisions() {
    assert_eq!(
        StorageConfigError::InvalidStorageConfig.code(),
        ErrorCodes::InvalidArgument
    );
    let s3 = StorageConfig::S3(S3StorageConfig { bucket: String::from("test") });
    assert_eq!(s3_bucket_for_config(&s3), Ok(String::from("test")));
    let local = StorageConfig::Local(LocalStorageConfig { root: String::from("/tmp/x") });
    assert_eq!(
        s3_bucket_for_config(&local),
        Err(StorageConfigError::InvalidStorageConfig)
    );
    assert!(create_bucket_result(CreateBucketOutcome::Created).is_ok());
    assert!(create_bucket_result(CreateBucketOutcome::AlreadyExists).is_ok());
    assert!(create_bucket_result(CreateBucketOutcome::AlreadyOwnedByYou).is_ok());
    assert_eq!(
        create_bucket_result(CreateBucketOutcome::Failed(String::from("denied"))),
        Err(String::from("denied"))
    );
}

#[test]
fn fanout_completion_order_is_immaterial() {
    // The same branch outputs, delivered in the opposite order, resolve
    // to the same final answer.
    let records = vec![LogRecord { id: 2, seq: 5, embedding: Some(vec![7, 1]) }];
    let o1 = run_query(
        params(2, false, SEGMENT, None),
        records.clone(),
        3,
        vec![index_abc()],
        store_abc(),
    );
    let mut o2 = Orchestrator::new(params(2, false, SEGMENT, None));
    o2.start();
    o2.on_resolved(Ok(SegmentInfo { watermark: 3, store: store_abc() }));
    assert!(!o2.on_index_done(Ok(vec![index_abc()])));
    assert!(!o2.on_log_done(Ok(records)));
    assert!(o2.ready_to_merge());
    o2.finish();
    assert_eq!(done_results(&o1), done_results(&o2));
}

#[test]
fn spann_merge_reconciles_partition_lists() {
    let lists = vec![
        vec![cand(4, 10), cand(6, 30)],
        vec![cand(5, 20), cand(6, 30)],
    ];
    let merged = spann_knn_merge(&lists, 2);
    assert_eq!(merged, vec![cand(4, 10), cand(5, 20)]);
    let merged_all = spann_knn_merge(&lists, 10);
    assert_eq!(merged_all, vec![cand(4, 10), cand(5, 20), cand(6, 30)]);
}

#[test]
fn spann_centers_route_to_nearest() {
    let queries = vec![vec![0, 0]];
    let centers: Vec<(u64, Vec<i32>)> = vec![(11, vec![10, 0]), (12, vec![1, 0]), (13, vec![5, 0])];
    let routed = spann_centers_search(&queries, &centers, 2);
    assert_eq!(routed, vec![vec![12, 13]]);
}

#[test]
fn spann_posting_list_lookup() {
    let posting: Vec<(u64, Vec<u64>)> = vec![(11, vec![1, 2]), (12, vec![3])];
    assert_eq!(spann_fetch_posting_list(&posting, 12), Some(vec![3]));
    assert_eq!(spann_fetch_posting_list(&posting, 99), None);
}

#[test]
fn get_vectors_returns_stored_embeddings() {
    let store = store_abc();
    let fetched = get_vectors_op(&store, &vec![2, 99, 1]);
    assert_eq!(fetched.len(), 3);
    assert_eq!(fetched[0], (2, Some(vec![14, 2])));
    assert_eq!(fetched[1], (99, None));
    assert_eq!(fetched[2], (1, Some(vec![10, 0])));
    assert_eq!(count_records(&store), 3);
}

#[test]
fn server_get_vectors_validates_then_reads() {
    let config = QueryServiceConfig { my_port: 50051 };
    let server = WorkerServer::try_from_config(&config);
    let store = store_abc();
    let bad = server.get_vectors(&String::from("not-a-uuid"), &vec![1], &store);
    assert_eq!(bad, Err(QueryError::ValidationError));
    let good = server
        .get_vectors(&String::from(SEGMENT), &vec![3, 7], &store)
        .unwrap();
    assert_eq!(good, vec![(3, Some(vec![17, 3])), (7, None)]);
}

#[test]
fn spann_posting_list_scoring_is_restricted_to_members() {
    let store = store_abc();
    // Only ids 2 and 3 belong to the partition; id 1, though closest in
    // the store, must not be scored.
    let top = spann_brute_force_posting_list(&vec![0, 0], &vec![3, 2], &store, 2);
    assert_eq!(top, vec![cand(2, 200), cand(3, 298)]);
}

#[test]
fn plan_is_deterministic_end_to_end() {
    let records = vec![LogRecord { id: 2, seq: 5, embedding: Some(vec![7, 1]) }];
    let first = execute_plan(
        &vec![vec![0, 0]],
        2,
        true,
        &None,
        &records,
        3,
        &vec![index_abc()],
        &store_abc(),
    );
    let second = execute_plan(
        &vec![vec![0, 0]],
        2,
        true,
        &None,
        &records,
        3,
        &vec![index_abc()],
        &store_abc(),
    );
    assert_eq!(first, second);
}
