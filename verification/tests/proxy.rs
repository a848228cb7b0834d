use vampire::cache::{CacheStore, InflightOutcome, StoredResponseMeta, MIB};
use vampire::config::{BindFaults, Config};
use vampire::error::{ErrorKind, ProxyError};
use vampire::failure_log::{
    artifact_failure, format_failure, startup_failure, stream_failure, Failure,
};
use vampire::fetch::{cancelled, failed, ArtifactFetch, FetchAction, FetchEvent, Stage};
use vampire::http::{Header, RequestTarget};
use vampire::meta::{
    conditional_headers, header_text, meta_for_bytes, meta_from_upstream, strip_header,
};
use vampire::metadata::{MetadataFetch, MetadataStage, MetadataStep, StoredMetadata};
use vampire::proxy::{
    error_status, finish_metadata, limited_initial_capacity, metadata_initial_capacity,
    missing_artifact, not_found, request_failed_response, response_from_meta,
    response_without_body, serve_inflight, serve_metadata_inflight, simple_response,
    stats_response, unread_body_response, LimitedBody, MetadataBody, MetadataRewrite, Served,
    MAX_ERROR_BODY_LEN,
};
use vampire::rewrite::{rewrite_pypi_html, MAX_METADATA_BODY_LEN};
use vampire::routes::RegistryOrigins;
use vampire::AppStats;

fn store() -> CacheStore {
    let config = Config::from_vars(
        &vec![
            ("VAMPIRE_MAX_CACHE_SIZE_MB".to_owned(), "1".to_owned()),
            ("VAMPIRE_PUBLIC_BASE_URL".to_owned(), "http://127.0.0.1:8080".to_owned()),
        ],
        &BindFaults {
            pkg: None,
            git: None,
            management: None,
        },
    )
    .unwrap();
    CacheStore::new(&config).unwrap()
}

fn pair(name: &str, value: &str) -> (String, String) {
    (name.to_owned(), value.to_owned())
}

fn sample_meta() -> StoredResponseMeta {
    StoredResponseMeta {
        headers: vec![pair("content-type", "text/html")],
        last_modified: Some("yesterday".to_owned()),
        etag: Some("\"v1\"".to_owned()),
        status: 200,
    }
}

#[test]
fn metadata_content_length_over_limit_is_rejected_before_allocation() {
    let error = metadata_initial_capacity(Some(MAX_METADATA_BODY_LEN as u64 + 1)).unwrap_err();
    assert_eq!(error.kind, ErrorKind::InvalidData);
}

#[test]
fn artifact_error_content_length_is_bounded() {
    let error = limited_initial_capacity(
        Some(MAX_ERROR_BODY_LEN as u64 + 1),
        MAX_ERROR_BODY_LEN,
        "limit",
    )
    .unwrap_err();
    assert_eq!(error.kind, ErrorKind::InvalidData);
}

#[test]
fn admission_failure_maps_to_service_unavailable() {
    let error = ProxyError::new(ErrorKind::WouldBlock, "upstream capacity exhausted");
    let (response, failure) =
        request_failed_response("GET", &RequestTarget::origin_form("/a", None), &error);
    assert_eq!(response.status, 503);
    assert_eq!(response.body, "upstream capacity exhausted");
    assert_eq!(
        format_failure(0, &failure),
        r#"{"data":{"error":"upstream capacity exhausted","method":"GET","path":"/a","query":null},"event":"request_failed","level":"error","ts_ms":0}"#
    );
}

#[test]
fn rewrite_bound_covers_short_pypi_index_links() {
    let origin = format!("https://{}.example", "a".repeat(200));
    let body = "href='/simple/' ".repeat(100);
    let rewrite = MetadataRewrite::Pypi(origin.clone());
    let output = rewrite_pypi_html(
        body.as_bytes(),
        &RegistryOrigins::default(),
        &origin,
        MAX_METADATA_BODY_LEN,
    )
    .unwrap();
    assert!(output.len() <= rewrite.output_bound(body.len()));
    assert!(output.len() > body.len());
}

#[test]
fn joined_failures_are_answered() {
    let outcome: InflightOutcome<(), ()> = InflightOutcome::Failed(
        ErrorKind::WouldBlock,
        "metadata memory capacity exhausted".to_owned(),
    );
    match serve_metadata_inflight(&outcome).unwrap() {
        Served::Failed(response) => {
            assert_eq!(response.status, 503);
            assert_eq!(response.body, "metadata memory capacity exhausted");
        }
        Served::FromCache | Served::Stored(_, _) => panic!("expected a failure"),
    }
    let outcome: InflightOutcome<(), u8> = InflightOutcome::Cached(());
    assert!(matches!(serve_inflight(&outcome), Served::FromCache));
    let error = serve_metadata_inflight(&outcome).unwrap_err();
    assert_eq!(error.kind, ErrorKind::InvalidData);
    assert_eq!(error.message, "metadata inflight produced artifact");
    let outcome: InflightOutcome<(), u8> = InflightOutcome::Response(sample_meta(), 9);
    match serve_inflight(&outcome) {
        Served::Stored(meta, body) => {
            assert_eq!(meta.status, 200);
            assert_eq!(*body, 9);
        }
        Served::FromCache | Served::Failed(_) => panic!("expected a response"),
    }
    assert_eq!(missing_artifact().kind, ErrorKind::NotFound);
    assert_eq!(missing_artifact().message, "artifact missing after inflight completion");
}

#[test]
fn representations_have_their_own_identity_and_bounds() {
    let raw = MetadataRewrite::Raw;
    let npm = MetadataRewrite::Npm("http://o".to_owned());
    let pypi = MetadataRewrite::Pypi("http://o".to_owned());
    assert_eq!(raw.cache_identity(), "raw:v1");
    assert_eq!(npm.cache_identity(), "npm:v2:http://o");
    assert_eq!(pypi.cache_identity(), "pypi:v2:http://o");
    assert_eq!(raw.output_bound(usize::MAX), usize::MAX);
    assert_eq!(npm.output_bound(0), 0);
    assert_eq!(npm.output_bound(41), 41 + 3 * (8 + 16));
    assert_eq!(pypi.output_bound(41), 41 + 6 * (8 + 16));
    assert_eq!(pypi.output_bound(MAX_METADATA_BODY_LEN), MAX_METADATA_BODY_LEN);
    assert_eq!(pypi.output_bound(usize::MAX), MAX_METADATA_BODY_LEN);
    assert_eq!(npm.output_bound(usize::MAX), MAX_METADATA_BODY_LEN);
    assert_eq!(raw.working_set(10, 20), 10);
    assert_eq!(pypi.working_set(10, 20), 30);
    assert_eq!(npm.working_set(10, 20), 140);
    assert_eq!(npm.working_set(usize::MAX, 1), usize::MAX);
    assert_eq!(pypi.working_set(usize::MAX, 1), usize::MAX);
}

#[test]
fn initial_capacity_is_small() {
    assert_eq!(metadata_initial_capacity(None).unwrap(), 0);
    assert_eq!(metadata_initial_capacity(Some(100)).unwrap(), 100);
    assert_eq!(metadata_initial_capacity(Some(65_537)).unwrap(), 65_536);
    assert_eq!(limited_initial_capacity(Some(4), 4, "limit").unwrap(), 4);
    assert_eq!(
        limited_initial_capacity(Some(5), 4, "limit").unwrap_err().message,
        "limit"
    );
}

#[test]
fn limited_bodies_stop_at_their_limit() {
    let mut body = LimitedBody::start(Some(2), 4, "too long").unwrap();
    body.push(b"abc").unwrap();
    let error = body.push(b"de").unwrap_err();
    assert_eq!(error.kind, ErrorKind::InvalidData);
    assert_eq!(error.message, "too long");
    body.push(b"d").unwrap();
    assert_eq!(body.finish(), b"abcd".to_vec());
    assert!(LimitedBody::start(Some(5), 4, "too long").is_err());
}

#[test]
fn metadata_bodies_reserve_memory() {
    let mut store = store();
    let mut most = CacheStore::metadata_memory_reservation();
    most.reserve(&mut store, 1022 * MIB).unwrap();
    let mut body = MetadataBody::start(&mut store, None).unwrap();
    body.push(&mut store, &vec![b'a'; MIB]).unwrap();
    body.push(&mut store, b"b").unwrap();
    body.push(&mut store, &vec![b'c'; MIB - 1]).unwrap();
    let error = body.push(&mut store, b"d").unwrap_err();
    assert_eq!(error.kind, ErrorKind::WouldBlock);
    assert!(MetadataBody::start(&mut store, Some(1)).is_err());
    let (bytes, reservation) = body.finish();
    assert_eq!(bytes.len(), 2 * MIB);
    reservation.release(&mut store);
    let body = MetadataBody::start(&mut store, Some(2 * MIB as u64)).unwrap();
    body.finish().1.release(&mut store);
    assert!(MetadataBody::start(&mut store, Some(2 * MIB as u64 + 1)).is_err());
    let error = MetadataBody::start(&mut store, Some(MAX_METADATA_BODY_LEN as u64 + 1)).unwrap_err();
    assert_eq!(error.kind, ErrorKind::InvalidData);
    assert_eq!(error.message, "metadata body exceeds 128 MiB limit");
}

#[test]
fn errors_have_a_status() {
    assert_eq!(error_status(ErrorKind::WouldBlock), 503);
    for kind in [
        ErrorKind::AlreadyExists,
        ErrorKind::Interrupted,
        ErrorKind::InvalidData,
        ErrorKind::InvalidInput,
        ErrorKind::NotFound,
        ErrorKind::Other,
    ] {
        assert_eq!(error_status(kind), 502);
    }
}

#[test]
fn short_answers_announce_their_length() {
    let response = simple_response(418, "text/x", "é!");
    assert_eq!(response.status, 418);
    assert_eq!(
        response.headers,
        vec![pair("content-type", "text/x"), pair("content-length", "3")]
    );
    assert_eq!(not_found().status, 404);
    assert_eq!(not_found().body, "not found");
    let (response, failure) = unread_body_response(
        "npm_audit_body_read_failed",
        "POST",
        &RequestTarget::origin_form("/npm/x", None),
        "length limit exceeded",
    );
    assert_eq!(response.status, 400);
    assert_eq!(response.body, "length limit exceeded");
    assert_eq!(
        format_failure(1, &failure),
        r#"{"data":{"error":"length limit exceeded","method":"POST","path":"/npm/x"},"event":"npm_audit_body_read_failed","level":"error","ts_ms":1}"#
    );
    let page = stats_response(&AppStats::new());
    assert_eq!(page.status, 200);
    assert_eq!(
        page.headers[0],
        pair("content-type", "text/plain; version=0.0.4; charset=utf-8")
    );
}

#[test]
fn stored_responses_keep_their_header() {
    let mut meta = sample_meta();
    let response = response_from_meta(&meta, 5);
    assert_eq!(response.status, 200);
    assert_eq!(response.headers, meta.headers);
    let head = response_without_body(response);
    assert_eq!(head.headers, meta.headers);
    for (status, expected) in [(99, 200), (100, 100), (999, 999), (1000, 200), (404, 404)] {
        meta.status = status;
        assert_eq!(response_from_meta(&meta, ()).status, expected);
    }
}

#[test]
fn upstream_headers_are_filtered() {
    let headers = vec![
        Header::new("connection", "close"),
        Header::new("content-length", "7"),
        Header::new("etag", "\"v1\""),
        Header::new("x-a", "1"),
        Header {
            name: "x-b".to_owned(),
            value: vec![0xff],
        },
        Header::new("x-a", "2"),
        Header::new("etag", "\"v2\""),
    ];
    let meta = meta_from_upstream(200, &headers, None);
    assert_eq!(
        meta.headers,
        vec![
            pair("content-length", "7"),
            pair("etag", "\"v1\""),
            pair("x-a", "1"),
            pair("x-a", "2"),
            pair("etag", "\"v2\""),
        ]
    );
    assert_eq!(meta.etag.as_deref(), Some("\"v1\""));
    assert_eq!(meta.last_modified, None);
    let meta = meta_from_upstream(200, &headers, Some(12));
    assert_eq!(meta.headers.last(), Some(&pair("content-length", "12")));
    assert_eq!(
        meta.headers.iter().filter(|(name, _)| name == "content-length").count(),
        1
    );
    assert_eq!(header_text(&vec![9, 32, 126]).as_deref(), Some("\t ~"));
    assert_eq!(header_text(&vec![127]), None);
    assert_eq!(header_text(&vec![10]), None);
}

#[test]
fn rewritten_bodies_hide_validators() {
    let headers = vec![
        Header::new("etag", "\"v1\""),
        Header::new("last-modified", "yesterday"),
    ];
    let shown = meta_for_bytes(200, &headers, 3, true);
    assert_eq!(
        shown.headers,
        vec![
            pair("etag", "\"v1\""),
            pair("last-modified", "yesterday"),
            pair("content-length", "3"),
            pair("content-type", "application/octet-stream"),
        ]
    );
    let hidden = meta_for_bytes(200, &headers, 3, false);
    assert_eq!(
        hidden.headers,
        vec![
            pair("content-length", "3"),
            pair("content-type", "application/octet-stream"),
        ]
    );
    assert_eq!(hidden.etag.as_deref(), Some("\"v1\""));
    assert_eq!(hidden.last_modified.as_deref(), Some("yesterday"));
    let mut headers = vec![pair("ETag", "x"), pair("a", "b")];
    strip_header(&mut headers, "etag");
    assert_eq!(headers, vec![pair("a", "b")]);
}

#[test]
fn conditions_come_from_validators() {
    assert_eq!(
        conditional_headers(&sample_meta()),
        vec![pair("if-none-match", "\"v1\""), pair("if-modified-since", "yesterday")]
    );
    let meta = StoredResponseMeta {
        etag: None,
        ..sample_meta()
    };
    assert_eq!(
        conditional_headers(&meta),
        vec![pair("if-modified-since", "yesterday")]
    );
}

#[test]
fn metadata_is_stored_only_with_a_validator() {
    let upstreams = RegistryOrigins::default();
    let finish = |rewrite: MetadataRewrite, status: u16, headers: &Vec<Header>| {
        finish_metadata(&rewrite, status, headers, b"href='/simple/a/'".to_vec(), &upstreams)
            .unwrap()
    };
    let etag = vec![Header::new("etag", "\"v1\"")];
    let pypi = || MetadataRewrite::Pypi("http://o".to_owned());
    let finished = finish(pypi(), 200, &etag);
    assert!(finished.publish);
    assert_eq!(finished.body, b"href='http://o/pypi/simple/a/'".to_vec());
    assert_eq!(
        finished.meta.headers,
        vec![
            pair("content-length", "30"),
            pair("content-type", "application/octet-stream"),
        ]
    );
    assert!(!finish(pypi(), 404, &etag).publish);
    assert!(!finish(pypi(), 200, &Vec::new()).publish);
    let raw = finish(MetadataRewrite::Raw, 200, &etag);
    assert_eq!(raw.body, b"href='/simple/a/'".to_vec());
    assert_eq!(raw.meta.headers[0], pair("etag", "\"v1\""));
    let error = finish_metadata(
        &MetadataRewrite::Npm("http://o".to_owned()),
        200,
        &etag,
        b"{".to_vec(),
        &upstreams,
    )
    .unwrap_err();
    assert_eq!(error.kind, ErrorKind::Other);
}

fn fetch_to(events: Vec<FetchEvent>) -> (ArtifactFetch, FetchAction) {
    let mut fetch = ArtifactFetch::new();
    let mut action = FetchAction::HandOut;
    for event in events {
        assert!(fetch.awaits(&event));
        action = fetch.step(event);
    }
    (fetch, action)
}

#[test]
fn artifacts_are_published_with_the_length_that_came() {
    let headers = || vec![Header::new("content-length", "99"), Header::new("x", "y")];
    let (mut fetch, action) = fetch_to(vec![
        FetchEvent::Response(200, headers()),
        FetchEvent::Created,
        FetchEvent::Chunk(3),
        FetchEvent::Written,
        FetchEvent::Chunk(4),
        FetchEvent::Written,
        FetchEvent::End,
        FetchEvent::Flushed,
    ]);
    match action {
        FetchAction::Commit(meta) => {
            assert_eq!(meta.status, 200);
            assert_eq!(meta.headers, vec![pair("x", "y"), pair("content-length", "7")]);
        }
        _ => panic!("expected a commit"),
    }
    assert!(matches!(fetch.step(FetchEvent::Committed), FetchAction::HandOut));
    assert!(!fetch.awaits(&FetchEvent::Failed("late".to_owned())));
}

#[test]
fn upstream_errors_are_handed_out() {
    let (_, action) = fetch_to(vec![
        FetchEvent::Response(404, Vec::new()),
        FetchEvent::ErrorBody(9),
    ]);
    match action {
        FetchAction::Respond(meta) => {
            assert_eq!(meta.status, 404);
            assert_eq!(
                meta.headers,
                vec![
                    pair("content-length", "9"),
                    pair("content-type", "application/octet-stream"),
                ]
            );
        }
        _ => panic!("expected a response"),
    }
}

#[test]
fn failures_name_their_stage() {
    let ok = || FetchEvent::Response(200, Vec::new());
    let failing = || FetchEvent::Failed("x".to_owned());
    for (events, stage) in [
        (vec![failing()], "fetch_upstream"),
        (
            vec![FetchEvent::Response(500, Vec::new()), failing()],
            "read_error_response",
        ),
        (vec![ok(), failing()], "create_temp_file"),
        (vec![ok(), FetchEvent::Created, failing()], "read_upstream_stream"),
        (
            vec![ok(), FetchEvent::Created, FetchEvent::Chunk(1), failing()],
            "write_temp_file",
        ),
        (
            vec![ok(), FetchEvent::Created, FetchEvent::End, failing()],
            "flush_temp_file",
        ),
        (
            vec![
                ok(),
                FetchEvent::Created,
                FetchEvent::End,
                FetchEvent::Flushed,
                failing(),
            ],
            "commit_cache_entry",
        ),
    ] {
        match fetch_to(events).1 {
            FetchAction::Abort(at, error) => {
                assert_eq!(at.name(), stage);
                assert_eq!(error, "x");
            }
            _ => panic!("expected an abort"),
        }
    }
    assert_eq!(Stage::Over.name(), "over");
}

#[test]
fn the_count_of_bytes_cannot_overflow() {
    let (fetch, _) = fetch_to(vec![
        FetchEvent::Response(200, Vec::new()),
        FetchEvent::Created,
        FetchEvent::Chunk(u64::MAX),
        FetchEvent::Written,
    ]);
    assert!(fetch.awaits(&FetchEvent::Chunk(0)));
    assert!(!fetch.awaits(&FetchEvent::Chunk(1)));
}

#[test]
fn cancelled_fetches_fail() {
    for (artifact, message) in [
        (true, "artifact fetch cancelled"),
        (false, "metadata fetch cancelled"),
    ] {
        match cancelled::<(), ()>(artifact) {
            InflightOutcome::Failed(kind, error) => {
                assert_eq!(kind, ErrorKind::Interrupted);
                assert_eq!(error, message);
            }
            InflightOutcome::Cached(()) | InflightOutcome::Response(_, ()) => {
                panic!("expected Failed outcome")
            }
        }
    }
}

#[test]
fn failed_fetches_are_logged() {
    let (outcome, failure) =
        failed::<(), ()>(Stage::WriteTempFile, "https://e/", "k", "disk full".to_owned());
    assert!(matches!(
        outcome,
        InflightOutcome::Failed(ErrorKind::Other, error) if error == "disk full"
    ));
    assert_eq!(
        format_failure(7, &failure),
        r#"{"data":{"cache_key":"k","error":"disk full","stage":"write_temp_file","upstream":"https://e/"},"event":"artifact_fetch_failed","level":"error","ts_ms":7}"#
    );
}

#[test]
fn fresh_metadata_replaces_what_is_stored() {
    let mut store = store();
    let mut fetch = MetadataFetch::new(MetadataRewrite::Pypi("http://o".to_owned()));
    let asked = fetch.loaded(Some(StoredMetadata {
        meta: sample_meta(),
        body_len: 5,
    }));
    assert_eq!(asked.len(), 2);
    let step = fetch
        .answered(&mut store, 200, vec![Header::new("etag", "\"v2\"")], Some(17))
        .unwrap();
    assert_eq!(step, MetadataStep::ReadBody);
    fetch.chunk(&mut store, b"href='/si").unwrap();
    fetch.chunk(&mut store, b"mple/a/'").unwrap();
    fetch.ended(&mut store).unwrap();
    let finished = fetch.finished(&RegistryOrigins::default()).unwrap();
    assert!(finished.publish);
    assert_eq!(finished.body, b"href='http://o/pypi/simple/a/'".to_vec());
    assert_eq!(finished.meta.etag.as_deref(), Some("\"v2\""));
    assert_eq!(fetch.stage(), MetadataStage::Over);
    fetch.into_reservation().release(&mut store);
}

#[test]
fn unchanged_metadata_is_reused() {
    let mut store = store();
    let mut fetch = MetadataFetch::new(MetadataRewrite::Raw);
    fetch.loaded(Some(StoredMetadata {
        meta: sample_meta(),
        body_len: 3 * MIB as u64,
    }));
    let step = fetch.answered(&mut store, 304, Vec::new(), None).unwrap();
    assert_eq!(step, MetadataStep::ReadEntry);
    let finished = fetch.reused(b"old".to_vec());
    assert_eq!(finished.body, b"old".to_vec());
    assert_eq!(finished.meta.headers, sample_meta().headers);
    assert!(!finished.publish);
}

#[test]
fn oversized_entries_are_fetched_anew() {
    let mut store = store();
    let mut fetch = MetadataFetch::new(MetadataRewrite::Raw);
    let asked = fetch.loaded(Some(StoredMetadata {
        meta: sample_meta(),
        body_len: MAX_METADATA_BODY_LEN as u64 + 1,
    }));
    assert!(asked.is_empty());
    let step = fetch.answered(&mut store, 304, Vec::new(), None).unwrap();
    assert_eq!(step, MetadataStep::ReadBody);
}

#[test]
fn metadata_fetches_need_memory() {
    let mut store = store();
    let mut most = CacheStore::metadata_memory_reservation();
    most.reserve(&mut store, 1023 * MIB).unwrap();
    let mut fetch = MetadataFetch::new(MetadataRewrite::Npm("http://o".to_owned()));
    fetch.loaded(None);
    fetch.answered(&mut store, 200, Vec::new(), Some(MIB as u64)).unwrap();
    fetch.chunk(&mut store, &vec![b' '; MIB]).unwrap();
    let error = fetch.ended(&mut store).unwrap_err();
    assert_eq!(error.kind, ErrorKind::WouldBlock);
    assert_eq!(error.message, "metadata memory capacity exhausted");
    fetch.into_reservation().release(&mut store);
    let mut fetch = MetadataFetch::new(MetadataRewrite::Raw);
    fetch.loaded(None);
    let error = fetch
        .answered(&mut store, 200, Vec::new(), Some(MAX_METADATA_BODY_LEN as u64 + 1))
        .unwrap_err();
    assert_eq!(error.kind, ErrorKind::InvalidData);
}

#[test]
fn formats_json_line() {
    let mut failure = Failure::new("request_failed");
    failure.text("path", "/npm/pkg");
    let line = format_failure(1_700_000_000_000, &failure);
    let value: serde_json::Value = serde_json::from_str(&line).unwrap();
    assert_eq!(value["level"], "error");
    assert_eq!(value["event"], "request_failed");
    assert_eq!(value["data"]["path"], "/npm/pkg");
    assert!(value["ts_ms"].as_u64().is_some());
}

#[test]
fn failures_of_streams_and_of_the_start_are_logged() {
    assert_eq!(
        format_failure(1, &stream_failure("GET", "https://github.com/", "reset")),
        r#"{"data":{"error":"reset","method":"GET","upstream":"https://github.com/"},"event":"git_stream_failed","level":"error","ts_ms":1}"#
    );
    assert_eq!(
        format_failure(1, &startup_failure("bind_listener", Some("[::1]:1"), "in use")),
        r#"{"data":{"bind":"[::1]:1","error":"in use","stage":"bind_listener"},"event":"startup_failed","level":"error","ts_ms":1}"#
    );
    assert_eq!(
        format_failure(1, &startup_failure("load_config", None, "x")),
        r#"{"data":{"error":"x","stage":"load_config"},"event":"startup_failed","level":"error","ts_ms":1}"#
    );
}

#[test]
fn failure_lines_are_sorted_and_escaped() {
    let failure = artifact_failure("fetch_upstream", "https://e/\"", "k", "a\nb");
    assert_eq!(
        format_failure(7, &failure),
        r#"{"data":{"cache_key":"k","error":"a\nb","stage":"fetch_upstream","upstream":"https://e/\""},"event":"artifact_fetch_failed","level":"error","ts_ms":7}"#
    );
    assert_eq!(
        format_failure(u128::MAX, &Failure::new("startup_failed")),
        r#"{"data":{},"event":"startup_failed","level":"error","ts_ms":340282366920938463463374607431768211455}"#
    );
    let mut failure = Failure::new("e");
    failure.text("a", "1");
    failure.number("a", 2);
    failure.optional_text("b", None);
    assert_eq!(
        format_failure(0, &failure),
        r#"{"data":{"a":2,"b":null},"event":"e","level":"error","ts_ms":0}"#
    );
}
