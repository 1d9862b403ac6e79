use hn_videos::counter::Counter;
use hn_videos::fetch::{batch_end, FetchError, HackerNews, ItemStep, BATCH_SIZE};
use hn_videos::store::Cache;
use hn_videos::urls::item_url;

fn remote_with(items: &[(i32, &str)]) -> Cache {
    let mut remote = Cache::new();
    for (id, payload) in items {
        remote.set(item_url(*id).as_str(), payload);
    }
    remote
}

#[test]
fn end_to_end_three_items() {
    let p1 = "{\"url\":\"https://youtu.be/x\",\"title\":\"A\",\"id\":1}";
    let p2 = "{\"title\":\"no url\",\"id\":2}";
    let p3 = "{\"url\":\"[video] test\",\"title\":\"C\",\"id\":3}";
    let remote = remote_with(&[(1, p1), (2, p2), (3, p3)]);
    let mut hn = HackerNews::new(Cache::new());
    let mut counter = Counter::new();
    let ids = vec![1, 2, 3];

    let result = hn.get_top_videos(&mut counter, &ids, &remote);

    assert_eq!(result, Ok(vec![p1.to_string(), p3.to_string()]));
    assert_eq!(counter.counter(), (3, 3, 3));
    assert_eq!(hn.cache().get(item_url(1).as_str()), Some(p1.to_string()));
    assert_eq!(hn.cache().get(item_url(3).as_str()), Some(p3.to_string()));
    assert_eq!(hn.cache().get(item_url(2).as_str()), Some(p2.to_string()));
}

#[test]
fn cache_hit_skips_the_remote() {
    let p = "{\"url\":\"https://youtu.be/q\"}";
    let mut seeded = Cache::new();
    seeded.set(item_url(9).as_str(), p);
    let mut hn = HackerNews::new(seeded);
    let mut counter = Counter::new();
    let ids = vec![9];

    let result = hn.get_top_videos(&mut counter, &ids, &Cache::new());

    assert_eq!(result, Ok(vec![p.to_string()]));
    assert_eq!(counter.counter(), (1, 1, 1));
}

#[test]
fn missing_remote_item_is_a_network_error() {
    let mut hn = HackerNews::new(Cache::new());
    let mut counter = Counter::new();
    let ids = vec![1];

    let result = hn.get_top_videos(&mut counter, &ids, &Cache::new());

    assert_eq!(result, Err(FetchError::Network));
    assert_eq!(counter.counter(), (1, 0, 1));
}

#[test]
fn malformed_payload_is_a_payload_error_but_still_cached() {
    let remote = remote_with(&[(4, "not json")]);
    let mut hn = HackerNews::new(Cache::new());
    let mut counter = Counter::new();
    let ids = vec![4];

    let result = hn.get_top_videos(&mut counter, &ids, &remote);

    assert_eq!(result, Err(FetchError::Payload));
    assert_eq!(hn.cache().get(item_url(4).as_str()), Some("not json".to_string()));
    assert_eq!(counter.counter(), (1, 0, 1));
}

#[test]
fn non_matching_payloads_yield_empty_result() {
    let remote = remote_with(&[(1, "{\"title\":\"plain\"}")]);
    let mut hn = HackerNews::new(Cache::new());
    let mut counter = Counter::new();
    let ids = vec![1];

    let result = hn.get_top_videos(&mut counter, &ids, &remote);

    assert_eq!(result, Ok(vec![]));
    assert_eq!(counter.counter(), (1, 1, 1));
}

#[test]
fn run_aborts_at_first_failing_item() {
    let p1 = "{\"url\":\"https://youtu.be/a\"}";
    let remote = remote_with(&[(1, p1)]);
    let mut hn = HackerNews::new(Cache::new());
    let mut counter = Counter::new();
    let ids = vec![1, 2];

    let result = hn.get_top_videos(&mut counter, &ids, &remote);

    assert_eq!(result, Err(FetchError::Network));
    assert_eq!(counter.counter(), (2, 1, 2));
    assert_eq!(hn.cache().get(item_url(1).as_str()), Some(p1.to_string()));
}

#[test]
fn duplicate_identifier_hits_the_cache_second_time() {
    let p = "{\"url\":\"https://youtu.be/d\"}";
    let remote = remote_with(&[(7, p)]);
    let mut hn = HackerNews::new(Cache::new());
    let mut counter = Counter::new();
    let ids = vec![7, 7];

    let result = hn.get_top_videos(&mut counter, &ids, &remote);

    assert_eq!(result, Ok(vec![p.to_string(), p.to_string()]));
    assert_eq!(counter.counter(), (2, 2, 2));
}

#[test]
fn batches_bound_the_work_in_flight() {
    let mut start: usize = 0;
    let n: usize = 45;
    let mut bounds = Vec::new();
    while start < n {
        let end = batch_end(start, n);
        assert!(end - start <= BATCH_SIZE);
        bounds.push((start, end));
        start = end;
    }
    assert_eq!(bounds, vec![(0, 20), (20, 40), (40, 45)]);
}

#[test]
fn run_longer_than_one_batch() {
    let mut remote = Cache::new();
    let mut ids = Vec::new();
    for id in 0..45 {
        remote.set(item_url(id).as_str(), "{\"url\":\"https://youtu.be/v\"}");
        ids.push(id);
    }
    let mut hn = HackerNews::new(Cache::new());
    let mut counter = Counter::new();

    let result = hn.get_top_videos(&mut counter, &ids, &remote);

    assert_eq!(result.map(|v| v.len()), Ok(45));
    assert_eq!(counter.counter(), (45, 45, 45));
}

#[test]
fn two_phase_item_steps() {
    let p = "{\"url\":\"https://youtu.be/t\"}";
    let mut hn = HackerNews::new(Cache::new());
    let mut counter = Counter::new();

    let url = match hn.check_item(&mut counter, 11) {
        ItemStep::NeedFetch(url) => url,
        ItemStep::Done(_) => panic!("fresh cache cannot resolve the item"),
    };
    assert_eq!(url, item_url(11));
    assert_eq!(counter.counter(), (1, 0, 0));

    let resolved = hn.resolve_fetched(&mut counter, 11, p);
    assert_eq!(resolved, Ok(Some(p.to_string())));
    assert_eq!(counter.counter(), (1, 1, 0));

    match hn.check_item(&mut counter, 11) {
        ItemStep::Done(res) => assert_eq!(res, Ok(Some(p.to_string()))),
        ItemStep::NeedFetch(_) => panic!("the payload is cached now"),
    }
    assert_eq!(counter.counter(), (2, 2, 0));
}
