use falcon_tagger::filter::build_filter;
use falcon_tagger::flow::{
    after_query, after_update, alive_report, begin_resolution, plan_tags, resolve_ids,
    transport_error, ApiError, DetailsResponse, FlowError, QueryResponse, TagAction, TagResult,
    TagStep, UpdateResponse,
};
use falcon_tagger::hostnames::{dedup_hostnames, load_hostnames, normalize_hostnames};
use falcon_tagger::reconcile::{reconcile, DeviceRecord};

fn strings(v: &[&str]) -> Vec<String> {
    v.iter().map(|s| s.to_string()).collect()
}

fn record(id: &str, hostname: Option<&str>) -> DeviceRecord {
    DeviceRecord { device_id: id.to_string(), hostname: hostname.map(|h| h.to_string()) }
}

fn tag_result(id: &str) -> TagResult {
    TagResult { device_id: id.to_string(), code: Some(200), updated: true, error: None }
}

fn api_error(code: i32, message: &str) -> ApiError {
    ApiError { code, id: None, message: message.to_string() }
}

#[test]
fn duplicate_and_blank_lines_give_ordered_set() {
    let hosts = load_hostnames("host-a\nhost-b\nhost-b\n\n");
    assert_eq!(hosts, strings(&["host-a", "host-b"]));
    let filter = build_filter(&hosts);
    assert_eq!(filter, "hostname:['host-a','host-b']");
    assert_eq!(filter.matches("'host-a'").count(), 1);
    assert_eq!(filter.matches("'host-b'").count(), 1);
}

#[test]
fn load_trims_whitespace_and_crlf() {
    let hosts = load_hostnames("  web-1  \r\n\t\r\nweb-2\r\n web-1\n   \ndb-1");
    assert_eq!(hosts, strings(&["web-1", "web-2", "db-1"]));
}

#[test]
fn load_keeps_first_seen_order() {
    let hosts = load_hostnames("c\nb\nc\na\nb\n");
    assert_eq!(hosts, strings(&["c", "b", "a"]));
}

#[test]
fn load_of_empty_text_is_empty() {
    assert!(load_hostnames("").is_empty());
    assert!(load_hostnames("\n \n\t\n").is_empty());
}

#[test]
fn hostnames_are_case_sensitive() {
    let hosts = load_hostnames("Host\nhost\nHOST\nhost");
    assert_eq!(hosts, strings(&["Host", "host", "HOST"]));
}

#[test]
fn normalize_trims_each_line() {
    let hosts = normalize_hostnames(&strings(&[" a ", "b", "  ", "a", "\tb\t"]));
    assert_eq!(hosts, strings(&["a", "b"]));
}

#[test]
fn dedup_drops_empty_and_repeated() {
    let hosts = dedup_hostnames(&strings(&["x", "", "y", "x", "", "z", "y"]));
    assert_eq!(hosts, strings(&["x", "y", "z"]));
}

#[test]
fn filter_of_one_and_none() {
    assert_eq!(build_filter(&strings(&["solo"])), "hostname:['solo']");
    assert_eq!(build_filter(&Vec::new()), "hostname:[]");
}

#[test]
fn filter_keeps_values_verbatim() {
    let filter = build_filter(&strings(&["a,b", "c d"]));
    assert_eq!(filter, "hostname:['a,b','c d']");
}

#[test]
fn filter_round_trip_by_reading_back() {
    let hosts = strings(&["h1", "h2", "h3"]);
    let filter = build_filter(&hosts);
    let inner = filter.strip_prefix("hostname:[").unwrap().strip_suffix(']').unwrap();
    let back: Vec<String> =
        inner.split(',').map(|q| q.trim_matches('\'').to_string()).collect();
    assert_eq!(back, hosts);
}

#[test]
fn empty_hostnames_give_no_hosts_provided() {
    assert_eq!(begin_resolution(&Vec::new()), Err(FlowError::NoHostsProvided));
    assert_eq!(begin_resolution(&strings(&["a"])), Ok("hostname:['a']".to_string()));
}

#[test]
fn resolver_success_then_tag_both_devices() {
    let query = QueryResponse { resources: strings(&["id1", "id2"]), errors: vec![] };
    let step = after_query(Ok(query), strings(&["quarantine"]), TagAction::Add);
    let request = match step {
        TagStep::Update(r) => r,
        TagStep::Finished(_) => panic!("expected a mutation"),
    };
    assert_eq!(request.action, TagAction::Add);
    assert_eq!(request.device_ids, strings(&["id1", "id2"]));
    assert_eq!(request.tags, strings(&["quarantine"]));
    assert_eq!(request.action.action_name(), "add");
    let update = UpdateResponse { resources: vec![tag_result("id1"), tag_result("id2")], errors: vec![] };
    let done = after_update(Ok(update)).unwrap();
    assert_eq!(done.len(), 2);
    assert_eq!(done[0].device_id, "id1");
    assert_eq!(done[1].device_id, "id2");
}

#[test]
fn resolver_errors_without_ids_abort_before_mutation() {
    let query = QueryResponse { resources: vec![], errors: vec![api_error(500, "timeout")] };
    let step = after_query(Ok(query), strings(&["quarantine"]), TagAction::Add);
    match step {
        TagStep::Finished(Err(FlowError::ResolutionFailed(errs))) => {
            assert_eq!(errs, vec![api_error(500, "timeout")]);
        }
        TagStep::Finished(_) => panic!("expected ResolutionFailed"),
        TagStep::Update(_) => panic!("the mutator must not be called"),
    }
}

#[test]
fn resolver_errors_beside_ids_fail_the_batch() {
    let query = QueryResponse { resources: strings(&["id1"]), errors: vec![api_error(404, "gone")] };
    assert_eq!(resolve_ids(Ok(query)), Err(FlowError::ApiBatchError(vec![api_error(404, "gone")])));
}

#[test]
fn resolver_transport_failure() {
    let r = resolve_ids(Err("connection refused".to_string()));
    assert_eq!(r, Err(FlowError::TransportError(api_error(500, "connection refused"))));
}

#[test]
fn resolver_without_errors_or_ids_gives_empty_list() {
    let query = QueryResponse { resources: vec![], errors: vec![] };
    assert_eq!(resolve_ids(Ok(query)), Ok(vec![]));
}

#[test]
fn empty_device_list_short_circuits() {
    match plan_tags(vec![], strings(&["t"]), TagAction::Remove) {
        TagStep::Finished(Ok(v)) => assert!(v.is_empty()),
        _ => panic!("expected an explicit empty result"),
    }
    let query = QueryResponse { resources: vec![], errors: vec![] };
    match after_query(Ok(query), strings(&["t"]), TagAction::Add) {
        TagStep::Finished(Ok(v)) => assert!(v.is_empty()),
        _ => panic!("expected an explicit empty result"),
    }
}

#[test]
fn mutation_errors_fail_the_whole_call() {
    let update = UpdateResponse { resources: vec![tag_result("id1")], errors: vec![api_error(400, "bad tag")] };
    assert_eq!(after_update(Ok(update)), Err(FlowError::ApiBatchError(vec![api_error(400, "bad tag")])));
    let update = UpdateResponse { resources: vec![], errors: vec![api_error(400, "bad tag")] };
    assert_eq!(after_update(Ok(update)), Err(FlowError::ApiBatchError(vec![api_error(400, "bad tag")])));
}

#[test]
fn mutation_transport_failure() {
    assert_eq!(
        after_update(Err("reset".to_string())),
        Err(FlowError::TransportError(api_error(500, "reset")))
    );
}

#[test]
fn transport_error_shape() {
    let e = transport_error("down".to_string());
    assert_eq!(e.code, 500);
    assert_eq!(e.id, None);
    assert_eq!(e.message, "down");
}

#[test]
fn action_words() {
    assert_eq!(TagAction::Add.action_name(), "add");
    assert_eq!(TagAction::Remove.action_name(), "remove");
    assert_eq!(TagAction::parse("add"), Some(TagAction::Add));
    assert_eq!(TagAction::parse("remove"), Some(TagAction::Remove));
    assert_eq!(TagAction::parse("Add"), None);
    assert_eq!(TagAction::parse(""), None);
}

#[test]
fn alive_hosts_counts_matches() {
    let input = strings(&["a", "b", "c"]);
    let recs = vec![record("d1", Some("a")), record("d3", Some("c"))];
    let r = reconcile(&input, &recs);
    assert_eq!(r.matched_count, 2);
    assert_eq!(r.total_count, 3);
    assert_eq!(r.matched_hostnames, strings(&["a", "c"]));
    assert_eq!(r.unmatched_hostnames, strings(&["b"]));
}

#[test]
fn reconcile_ignores_nameless_records() {
    let input = strings(&["a", "b"]);
    let recs = vec![record("d0", None), record("d1", Some("b")), record("d2", Some("zzz"))];
    let r = reconcile(&input, &recs);
    assert_eq!(r.matched_hostnames, strings(&["b"]));
    assert_eq!(r.unmatched_hostnames, strings(&["a"]));
    assert_eq!(r.matched_count + r.unmatched_hostnames.len(), r.total_count);
}

#[test]
fn reconcile_duplicate_records_count_once() {
    let input = strings(&["a", "b"]);
    let recs = vec![record("d1", Some("a")), record("d2", Some("a"))];
    let r = reconcile(&input, &recs);
    assert_eq!(r.matched_count, 1);
    assert_eq!(r.unmatched_hostnames, strings(&["b"]));
}

#[test]
fn reconcile_of_empty_input() {
    let r = reconcile(&vec![], &vec![record("d1", Some("a"))]);
    assert_eq!(r.matched_count, 0);
    assert_eq!(r.total_count, 0);
    assert!(r.unmatched_hostnames.is_empty());
}

#[test]
fn alive_report_through_details() {
    let input = strings(&["a", "b", "c"]);
    let details = DetailsResponse {
        resources: vec![record("d1", Some("a")), record("d3", Some("c"))],
        errors: vec![],
    };
    let r = alive_report(&input, Ok(details)).unwrap();
    assert_eq!(r.matched_count, 2);
    assert_eq!(r.unmatched_hostnames, strings(&["b"]));
    let details = DetailsResponse { resources: vec![], errors: vec![api_error(403, "denied")] };
    assert!(matches!(alive_report(&input, Ok(details)), Err(FlowError::ApiBatchError(_))));
    assert!(matches!(alive_report(&input, Err("x".to_string())), Err(FlowError::TransportError(_))));
}

#[test]
fn load_keeps_bare_carriage_return_inside_a_line() {
    let hosts = load_hostnames("a\rb\r\nc\n");
    assert_eq!(hosts, strings(&["a\rb", "c"]));
}

#[test]
fn load_trims_unicode_white_space() {
    let hosts = load_hostnames("\u{3000}host-a\u{a0}\n\u{2003}\u{2028}\nhost-b\u{85}");
    assert_eq!(hosts, strings(&["host-a", "host-b"]));
}

#[test]
fn loaded_hostnames_are_already_trimmed() {
    let hosts = load_hostnames(" x \n\ty\t\n");
    for h in &hosts {
        assert!(!h.is_empty());
        assert_eq!(h.trim(), h.as_str());
    }
}

#[test]
fn non_empty_hostnames_always_give_the_filter() {
    let hosts = load_hostnames("  alpha\nbeta  \n");
    assert_eq!(begin_resolution(&hosts), Ok("hostname:['alpha','beta']".to_string()));
}
