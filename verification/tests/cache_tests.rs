use comet::cache::{CacheEvent, QueryCache};

fn s(x: &str) -> String {
    x.to_string()
}

#[test]
fn unknown_queries_give_nothing() {
    let cache: QueryCache<String> = QueryCache::new();
    assert_eq!(cache.query(1, 7), None);
    assert!(!cache.knows(1, 7));
    assert_eq!(cache.request(3), None);
}

#[test]
fn registered_query_has_no_table_until_updated() {
    let mut cache: QueryCache<String> = QueryCache::new();
    cache.register_request(10, 1, 7);
    assert!(cache.knows(1, 7));
    assert_eq!(cache.request(10), Some((1, 7)));
    assert_eq!(cache.query(1, 7), None);
    cache.update(1, 7, 5, vec![]);
    assert_eq!(cache.query(1, 7), Some(vec![]));
}

#[test]
fn a_known_query_is_not_registered_again() {
    let mut cache: QueryCache<String> = QueryCache::new();
    cache.register_request(10, 1, 7);
    cache.register_request(11, 1, 7);
    assert_eq!(cache.request(11), None);
    assert_eq!(cache.request(10), Some((1, 7)));
}

#[test]
fn rows_come_in_ascending_id_order_and_the_last_wins() {
    let mut cache: QueryCache<String> = QueryCache::new();
    cache.register_request(0, 1, 7);
    cache.update(1, 7, 5, vec![(3, s("c")), (1, s("a")), (3, s("c2")), (2, s("b"))]);
    assert_eq!(cache.query(1, 7), Some(vec![s("a"), s("b"), s("c2")]));
    cache.update(1, 7, 9, vec![(2, s("elsewhere"))]);
    assert_eq!(cache.query(1, 7), Some(vec![s("a"), s("b"), s("c2")]));
    cache.update(1, 7, 5, vec![(2, s("b2"))]);
    assert_eq!(cache.query(1, 7), Some(vec![s("a"), s("b2"), s("c2")]));
}

#[test]
fn queries_see_only_their_own_ids_and_model() {
    let mut cache: QueryCache<String> = QueryCache::new();
    cache.register_request(0, 1, 7);
    cache.register_request(1, 2, 7);
    cache.update(1, 7, 5, vec![(1, s("a")), (2, s("b"))]);
    cache.update(2, 7, 6, vec![(2, s("other"))]);
    assert_eq!(cache.query(1, 7), Some(vec![s("a"), s("b")]));
    assert_eq!(cache.query(2, 7), Some(vec![s("other")]));
}

#[test]
fn deleted_rows_leave_the_results() {
    let mut cache: QueryCache<String> = QueryCache::new();
    cache.register_request(0, 1, 7);
    cache.update(1, 7, 5, vec![(1, s("a")), (2, s("b")), (3, s("c"))]);
    cache.delete(5, &vec![2, 9]);
    assert_eq!(cache.query(1, 7), Some(vec![s("a"), s("c")]));
    cache.delete(6, &vec![1]);
    assert_eq!(cache.query(1, 7), Some(vec![s("a"), s("c")]));
}

#[test]
fn a_delete_gives_the_model_a_table() {
    let mut cache: QueryCache<String> = QueryCache::new();
    cache.register_request(0, 1, 7);
    assert_eq!(cache.query(1, 7), None);
    cache.delete(0, &vec![4]);
    assert_eq!(cache.query(1, 7), Some(vec![]));
}

#[test]
fn events_answer_their_request() {
    let mut cache: QueryCache<String> = QueryCache::new();
    cache.register_request(4, 1, 7);
    cache.update(1, 7, 5, vec![(1, s("a")), (2, s("b"))]);
    cache.update_for_request_id(
        4,
        vec![
            CacheEvent::Update(5, 2, s("b2")),
            CacheEvent::Delete(1),
            CacheEvent::Insert(5, 3, s("c")),
        ],
    );
    assert_eq!(cache.query(1, 7), Some(vec![s("b2"), s("c")]));
    cache.update_for_request_id(9, vec![CacheEvent::Insert(5, 8, s("x"))]);
    assert_eq!(cache.query(1, 7), Some(vec![s("b2"), s("c")]));
    cache.update_for_request_id(4, vec![CacheEvent::Delete(2)]);
    assert_eq!(cache.query(1, 7), Some(vec![s("b2"), s("c")]));
}
