use vampire::cache::{
    ArtifactLookup, CacheStore, HeadLookup, Inflight, InflightOutcome, LookupStep, MetadataLookup,
    StoredResponseMeta, MIB,
};
use vampire::config::{BindFaults, Config};
use vampire::directory::{ClaimAction, ClaimEvent, ClaimStage};
use vampire::error::ErrorKind;
use vampire::eviction::{CompletedEntry, EvictionScan, Removal};
use vampire::footer::{
    footer_geometry, footer_offset, is_miss, meta_footer, pack_footer, short_footer_err,
    MAX_META_LEN,
};
use vampire::keys::{
    check_marker, claims_entry, hash_key, is_completed_entry, is_shard, is_stale_entry,
    key_of_digest, legacy_key, marker_contents, temp_key, unowned_cache_directory, valid_hex,
    valid_key, CACHE_MARKER,
};
use vampire::ordered::TextMap;

fn config_for(max_cache_size_mb: &str, max_upstream_fetches: &str) -> Config {
    Config::from_vars(
        &vec![
            ("VAMPIRE_MAX_CACHE_SIZE_MB".to_owned(), max_cache_size_mb.to_owned()),
            ("VAMPIRE_MAX_UPSTREAM_FETCHES".to_owned(), max_upstream_fetches.to_owned()),
            ("VAMPIRE_PUBLIC_BASE_URL".to_owned(), "http://127.0.0.1:8080".to_owned()),
        ],
        &BindFaults {
            pkg: None,
            git: None,
            management: None,
        },
    )
    .unwrap()
}

fn store() -> CacheStore {
    CacheStore::new(&config_for("1", "4")).unwrap()
}

fn sample_meta() -> StoredResponseMeta {
    StoredResponseMeta {
        headers: vec![("content-length".to_owned(), "5".to_owned())],
        last_modified: Some("yesterday".to_owned()),
        etag: Some("\"v1\"".to_owned()),
        status: 200,
    }
}

#[test]
fn metadata_key_includes_representation() {
    let upstream = "https://example.com/a";
    let raw = CacheStore::metadata_key(upstream, "raw:v1");
    let npm_a = CacheStore::metadata_key(upstream, "npm:v2:https://a.example");
    let npm_b = CacheStore::metadata_key(upstream, "npm:v2:https://b.example");
    assert_ne!(raw, npm_a);
    assert_ne!(npm_a, npm_b);
}

#[test]
fn unique_work_is_admitted_before_leader_creation() {
    let mut store = CacheStore::new(&config_for("1", "1")).unwrap();
    let first_key = CacheStore::artifact_key("https://example.com/a");
    let first = match store.lookup_or_start_artifact::<()>(&first_key, None).unwrap() {
        ArtifactLookup::Leader(leader) => leader,
        ArtifactLookup::Hit(_) | ArtifactLookup::Join(_) => panic!("expected leader"),
    };
    assert!(matches!(
        store.lookup_or_start_artifact::<()>(&first_key, None).unwrap(),
        ArtifactLookup::Join(lead) if lead == first.lead
    ));
    let metadata_key = CacheStore::metadata_key("https://example.com/b", "raw:v1");
    let Err(error) = store.lookup_or_start_metadata(&metadata_key) else {
        panic!("expected admission failure");
    };
    assert_eq!(error.kind, ErrorKind::WouldBlock);
    assert_eq!(error.message, "upstream capacity exhausted");
    assert_eq!(store.begin_lookup(&metadata_key), LookupStep::Load);
    store.finish_inflight(&first.key);
    store.release_upstream_permit();
    let second = match store.lookup_or_start_metadata(&metadata_key).unwrap() {
        MetadataLookup::Leader(leader) => leader,
        MetadataLookup::Join(_) => panic!("expected leader"),
    };
    assert_ne!(second.lead, first.lead);
    assert!(matches!(
        store.lookup_or_start_metadata(&metadata_key).unwrap(),
        MetadataLookup::Join(lead) if lead == second.lead
    ));
}

#[test]
fn buffered_metadata_has_a_separate_memory_budget() {
    let mut store = store();
    let mut first = CacheStore::metadata_memory_reservation();
    first.reserve(&mut store, 512 * MIB).unwrap();
    let mut second = CacheStore::metadata_memory_reservation();
    second.reserve(&mut store, 512 * MIB).unwrap();
    let mut third = CacheStore::metadata_memory_reservation();
    let error = third.reserve(&mut store, 1).unwrap_err();
    assert_eq!(error.kind, ErrorKind::WouldBlock);
    assert!(error.message.contains("memory"));
    first.release(&mut store);
    third.reserve(&mut store, 1).unwrap();
}

#[test]
fn reservations_grow_by_whole_units() {
    let mut store = store();
    let mut all = CacheStore::metadata_memory_reservation();
    all.reserve(&mut store, 1023 * MIB).unwrap();
    let mut last = CacheStore::metadata_memory_reservation();
    last.reserve(&mut store, 0).unwrap();
    last.reserve(&mut store, MIB).unwrap();
    assert!(last.reserve(&mut store, MIB + 1).is_err());
    all.reserve(&mut store, 1).unwrap();
    assert!(all.reserve(&mut store, usize::MAX).is_err());
    last.release(&mut store);
    all.reserve(&mut store, 1023 * MIB + 1).unwrap();
}

#[test]
fn inflight_completion_is_first_writer_wins() {
    let mut inflight: Inflight<(), &'static [u8]> = Inflight::new();
    assert!(inflight.outcome().is_none());
    inflight.finish_response(sample_meta(), b"success");
    inflight.fail(ErrorKind::Other, "late failure".to_owned());
    inflight.finish_cached(());
    match inflight.outcome().unwrap() {
        InflightOutcome::Response(_, body) => {
            assert_eq!(*body, b"success");
        }
        InflightOutcome::Cached(()) | InflightOutcome::Failed(_, _) => {
            panic!("completed inflight was overwritten")
        }
    }
}

#[test]
fn stored_artifacts_are_hits_unless_they_are_being_fetched() {
    let mut store = store();
    let key = CacheStore::artifact_key("https://example.com/a");
    assert!(matches!(
        store.lookup_or_start_artifact(&key, Some(7)).unwrap(),
        ArtifactLookup::Hit(7)
    ));
    assert_eq!(store.begin_lookup(&key), LookupStep::Load);
    let lead = match store.lookup_or_start_artifact::<u8>(&key, None).unwrap() {
        ArtifactLookup::Leader(leader) => {
            assert_eq!(leader.key, key);
            assert_eq!(leader.paths.body, format!("{}/{key}", &key[..2]));
            assert_eq!(leader.paths.temp, format!("{}/{key}.part", &key[..2]));
            leader.lead
        }
        ArtifactLookup::Hit(_) | ArtifactLookup::Join(_) => panic!("expected leader"),
    };
    assert_eq!(store.begin_lookup(&key), LookupStep::Join(lead));
    assert!(matches!(
        store.lookup_or_start_artifact(&key, Some(7)).unwrap(),
        ArtifactLookup::Join(n) if n == lead
    ));
    assert!(matches!(
        store.lookup_or_start_artifact::<u8>(&key, None).unwrap(),
        ArtifactLookup::Join(n) if n == lead
    ));
    store.finish_inflight(&key);
    assert!(matches!(
        store.lookup_or_start_artifact(&key, Some(7)).unwrap(),
        ArtifactLookup::Hit(7)
    ));
}

#[test]
fn a_request_that_had_its_entry_looked_up_goes_on_with_it() {
    let mut store = CacheStore::new(&config_for("1", "1")).unwrap();
    let key = CacheStore::artifact_key("https://example.com/a");
    let other = CacheStore::artifact_key("https://example.com/b");
    assert_eq!(store.begin_lookup(&key), LookupStep::Load);
    assert!(matches!(
        store.end_lookup::<u8>(&key, None).unwrap(),
        ArtifactLookup::Leader(_)
    ));
    assert!(matches!(store.end_lookup(&key, Some(7)).unwrap(), ArtifactLookup::Hit(7)));
    assert!(matches!(
        store.end_lookup::<u8>(&key, None).unwrap(),
        ArtifactLookup::Join(0)
    ));
    let error = store.end_lookup::<u8>(&other, None).unwrap_err();
    assert_eq!(error.kind, ErrorKind::WouldBlock);
    assert_eq!(error.message, "upstream capacity exhausted");
    let error = store.lookup_or_start_artifact::<u8>(&other, None).unwrap_err();
    assert_eq!(error.kind, ErrorKind::WouldBlock);
    assert!(matches!(
        store.lookup_or_start_artifact(&other, Some(7)).unwrap(),
        ArtifactLookup::Hit(7)
    ));
}

#[test]
fn headers_of_artifacts_come_from_the_cache_or_take_a_permit() {
    let mut store = CacheStore::new(&config_for("1", "1")).unwrap();
    assert!(matches!(
        store.lookup_artifact_head::<u8>(None).unwrap(),
        HeadLookup::Forward
    ));
    assert!(matches!(store.lookup_artifact_head(Some(7)).unwrap(), HeadLookup::Hit(7)));
    let error = store.lookup_artifact_head::<u8>(None).unwrap_err();
    assert_eq!(error.kind, ErrorKind::WouldBlock);
    assert_eq!(error.message, "upstream capacity exhausted");
    store.release_upstream_permit();
    assert!(matches!(
        store.lookup_artifact_head::<u8>(None).unwrap(),
        HeadLookup::Forward
    ));
}

#[test]
fn keys_are_digests_of_their_identity() {
    use_digest("artifact\0https://example.com/a\0", &CacheStore::artifact_key("https://example.com/a"));
    use_digest(
        "metadata\0https://example.com/a\0raw:v1\0",
        &CacheStore::metadata_key("https://example.com/a", "raw:v1"),
    );
    assert_eq!(
        hash_key("", "", None),
        "96a296d224f285c67bee93c30f8a309157f0daa35dc5b87e410b78630a09cfc7"
    );
    assert_eq!(key_of_digest(&vec![0x00, 0x9f, 0xff]), "009fff");
}

fn use_digest(message: &str, key: &str) {
    let digest = <sha2::Sha256 as sha2::Digest>::digest(message.as_bytes());
    assert_eq!(key, hex::encode(digest));
    assert!(valid_hex(key, 64));
    assert!(valid_key(key, &key[..2]));
}

#[test]
fn temporary_files_are_numbered() {
    let mut store = store();
    let key = CacheStore::metadata_key("https://example.com/a", "raw:v1");
    let shard = &key[..2];
    let first = store.unique_temp_path(&key);
    let second = store.unique_temp_path(&key);
    assert_eq!(first, format!("{shard}/{key}.part.0.part"));
    assert_eq!(second, format!("{shard}/{key}.part.1.part"));
    assert_eq!(temp_key(&format!("{key}.part.0.part"), shard), Some(key.as_str()));
}

#[test]
fn file_names_tell_what_they_hold() {
    let key = "ab".to_owned() + &"0".repeat(62);
    assert!(valid_key(&key, "ab"));
    assert!(!valid_key(&key, "ac"));
    assert!(!valid_key(&key[..63], "ab"));
    assert!(!valid_hex("aB", 2));
    assert!(!valid_hex("é", 2));
    assert_eq!(legacy_key(&format!("{key}.json"), "ab"), Some(key.as_str()));
    assert_eq!(legacy_key(&format!("{key}.body"), "ab"), Some(key.as_str()));
    assert_eq!(legacy_key(&format!("{key}.part"), "ab"), None);
    assert_eq!(legacy_key("notes.json", "ab"), None);
    assert_eq!(temp_key(&format!("{key}.part"), "ab"), Some(key.as_str()));
    assert_eq!(temp_key(&format!("{key}.part.12.part"), "ab"), Some(key.as_str()));
    for name in [
        format!("{key}"),
        format!("{key}.part."),
        format!("{key}.part..part"),
        format!("{key}.part.1x.part"),
        format!("{key}.part.1"),
        format!("{key}.part.part"),
        format!("{key}x.part"),
        "important".to_owned(),
        format!("{}x", "a".repeat(63)),
    ] {
        assert_eq!(temp_key(&name, "ab"), None, "{name}");
    }
    assert_eq!(temp_key(&format!("{key}.part"), "cd"), None);
}

#[test]
fn directories_are_claimed_only_when_everything_is_known() {
    let key = "ab".to_owned() + &"0".repeat(62);
    assert_eq!(check_marker(None).unwrap(), false);
    assert_eq!(check_marker(Some(b"v1\n")).unwrap(), true);
    assert_eq!(check_marker(Some(&marker_contents())).unwrap(), true);
    assert_eq!(check_marker(Some(b"v2\n")).unwrap_err().kind, ErrorKind::InvalidInput);
    assert_eq!(
        unowned_cache_directory().message,
        "cache directory is nonempty and not owned by vampire"
    );
    assert!(is_shard(Some("0f"), true));
    assert!(!is_shard(Some("0f"), false));
    assert!(!is_shard(Some("notes"), true));
    assert!(!is_shard(None, true));
    for name in [
        key.clone(),
        format!("{key}.json"),
        format!("{key}.body"),
        format!("{key}.part"),
        format!("{key}.part.3.part"),
    ] {
        assert!(claims_entry(Some(&name), true, "ab"), "{name}");
        assert!(!claims_entry(Some(&name), false, "ab"));
        assert!(!claims_entry(Some(&name), true, "cd"));
        assert_eq!(is_stale_entry(Some(&name), true, "ab"), name != key);
        assert_eq!(is_completed_entry(Some(&name), true, "ab"), name == key);
    }
    assert!(!claims_entry(Some("notes.json"), true, "ab"));
    assert!(!claims_entry(None, true, "ab"));
    assert!(!is_stale_entry(Some("notes.json"), true, "ab"));
    assert!(!is_completed_entry(None, true, "ab"));
    assert_eq!(CACHE_MARKER, ".vampire-cache-v1");
}

#[test]
fn packed_entries_read_back() {
    let packed = pack_footer(b"hello", b"{}").unwrap();
    assert_eq!(packed, b"hello{}\0\0\0\x02".to_vec());
    let size = packed.len() as u64;
    let offset = footer_offset(size).unwrap();
    assert_eq!(offset, 7);
    let (body_len, meta_len) = footer_geometry(size, [0, 0, 0, 2]).unwrap();
    assert_eq!(&packed[..body_len as usize], b"hello");
    assert_eq!(&packed[body_len as usize..body_len as usize + meta_len], b"{}");
    assert_eq!(meta_footer(&vec![0; 0x01_02_03]).unwrap(), vec![0, 1, 2, 3]);
}

#[test]
fn corrupt_footers_are_refused() {
    let error = footer_geometry(128, [0x55; 4]).unwrap_err();
    assert_eq!(error.kind, ErrorKind::InvalidData);
    assert_eq!(error.message, "cache entry metadata length exceeds sanity cap");
    let error = footer_offset(2).unwrap_err();
    assert_eq!(error.kind, ErrorKind::InvalidData);
    assert_eq!(error.message, short_footer_err().message);
    assert_eq!(error.message, "cache entry shorter than footer");
    let error = footer_geometry(20, 100u32.to_be_bytes()).unwrap_err();
    assert_eq!(error.message, "cache entry metadata length exceeds file size");
    let oversize = u32::try_from(MAX_META_LEN).unwrap() + 1;
    assert!(footer_geometry(u64::MAX, oversize.to_be_bytes()).is_err());
    assert_eq!(
        footer_geometry(u64::MAX, (oversize - 1).to_be_bytes()).unwrap(),
        (u64::MAX - 4 - MAX_META_LEN as u64, MAX_META_LEN)
    );
    assert!(pack_footer(b"body", &vec![b'a'; MAX_META_LEN]).is_ok());
    let error = pack_footer(b"body", &vec![b'a'; MAX_META_LEN + 1]).unwrap_err();
    assert_eq!(error.kind, ErrorKind::InvalidData);
    assert_eq!(error.message, "metadata too large");
}

#[test]
fn missing_and_corrupt_entries_are_misses() {
    assert!(is_miss(false, ErrorKind::NotFound));
    assert!(!is_miss(true, ErrorKind::NotFound));
    assert!(is_miss(true, ErrorKind::InvalidData));
    assert!(!is_miss(false, ErrorKind::InvalidData));
    assert!(!is_miss(true, ErrorKind::Other));
}

#[test]
fn pins_belong_to_the_last_publication() {
    let mut store = store();
    let first = store.pin("a");
    assert!(store.is_pinned("a"));
    let second = store.pin("a");
    assert!(!store.unpin(&first));
    assert!(store.is_pinned("a"));
    assert!(store.unpin(&second));
    assert!(!store.is_pinned("a"));
    assert!(!store.unpin(&second));
}

fn entry(key: &str, modified: i128, size: u64) -> CompletedEntry {
    CompletedEntry {
        key: key.to_owned(),
        modified,
        size,
    }
}

fn evict(entries: Vec<CompletedEntry>, bound: u64, pins: &TextMap<u64>, failing: &[&str]) -> Vec<String> {
    let mut scan = EvictionScan::new(entries, bound);
    let mut gone = Vec::new();
    while let Some(index) = scan.next_victim(pins) {
        let key = scan.entry(index).key.clone();
        if failing.contains(&key.as_str()) {
            scan.record(index, Removal::Failed);
        } else {
            scan.record(index, Removal::Removed);
            gone.push(key);
        }
    }
    gone
}

#[test]
fn the_oldest_entries_leave_first() {
    let none = TextMap::new();
    let entries = || {
        vec![
            entry("d", 4, 10),
            entry("b", 2, 10),
            entry("a", 1, 10),
            entry("c", 2, 10),
        ]
    };
    assert_eq!(evict(entries(), 40, &none, &[]), Vec::<String>::new());
    assert_eq!(evict(entries(), 39, &none, &[]), ["a"]);
    assert_eq!(evict(entries(), 20, &none, &[]), ["a", "b"]);
    assert_eq!(evict(entries(), 0, &none, &[]), ["a", "b", "c", "d"]);
    assert_eq!(evict(entries(), 20, &none, &["a"]), ["b", "c"]);
    let mut store = store();
    let _pin = store.pin("b");
    assert_eq!(evict(entries(), 20, store.pins(), &[]), ["a", "c"]);
    assert_eq!(evict(entries(), 0, store.pins(), &[]), ["a", "c", "d"]);
    assert_eq!(store.max_cache_size(), 1_000_000);
}

#[test]
fn sizes_past_one_word_are_counted() {
    let none = TextMap::new();
    let entries = vec![entry("a", 1, u64::MAX), entry("b", 2, u64::MAX), entry("c", 3, 1)];
    assert_eq!(evict(entries, u64::MAX, &none, &[]), ["a", "b"]);
    let mut scan = EvictionScan::new(vec![entry("a", 1, 5), entry("b", 2, 5)], 4);
    let index = scan.next_victim(&none).unwrap();
    scan.record(index, Removal::Missing);
    assert!(scan.next_victim(&none).is_some());
    assert!(scan.next_victim(&none).is_none());
}

#[test]
fn many_entries_are_ordered_by_age() {
    let mut state: u64 = 42;
    let mut entries = Vec::new();
    let mut expected: Vec<(i128, usize, String)> = Vec::new();
    for index in 0..200 {
        state = state.wrapping_mul(6_364_136_223_846_793_005).wrapping_add(1);
        let modified = i128::from(state >> 60);
        expected.push((modified, index, format!("k{index}")));
        entries.push(entry(&format!("k{index}"), modified, 1));
    }
    expected.sort();
    let names: Vec<String> = expected.into_iter().map(|entry| entry.2).collect();
    assert_eq!(evict(entries, 0, &TextMap::new(), &[]), names);
}

#[test]
fn an_invalid_configuration_opens_no_cache() {
    let mut config = config_for("1", "1");
    config.max_cache_size = 0;
    let error = CacheStore::new(&config).unwrap_err();
    assert_eq!(error.kind, ErrorKind::InvalidInput);
    assert_eq!(error.message, "max_cache_size must be positive");
}

#[test]
fn permits_are_given_back() {
    let mut store = CacheStore::new(&config_for("1", "2")).unwrap();
    store.try_acquire_upstream_permit().unwrap();
    store.try_acquire_upstream_permit().unwrap();
    assert_eq!(
        store.try_acquire_upstream_permit().unwrap_err().kind,
        ErrorKind::WouldBlock
    );
    store.release_upstream_permit();
    store.try_acquire_upstream_permit().unwrap();
}

#[test]
fn text_maps_stay_in_order() {
    let mut map: TextMap<usize> = TextMap::new();
    for (index, key) in ["b", "a", "", "é", "ab", "b"].iter().enumerate() {
        map.insert((*key).to_owned(), index);
    }
    let keys: Vec<&str> = map.entries().iter().map(|entry| entry.0.as_str()).collect();
    assert_eq!(keys, ["", "a", "ab", "b", "é"]);
    assert_eq!(map.get("b"), Some(&5));
    map.remove("a");
    map.remove("a");
    assert_eq!(map.get("a"), None);
    assert!(map.contains_key("é"));
    assert_eq!(map.copy().entries().len(), 4);
}

fn claim(events: Vec<ClaimEvent>) -> ClaimAction {
    let mut stage = ClaimStage::Marker;
    let mut action = ClaimAction::Keep;
    for event in events {
        assert!(stage.awaits(&event));
        action = stage.step(event);
    }
    action
}

#[test]
fn claims_go_through_the_whole_directory() {
    let key = "ab".to_owned() + &"0".repeat(62);
    let root = |name: &str| ClaimEvent::RootEntry(Some(name.to_owned()), true);
    let file = |name: &str| ClaimEvent::ShardEntry(Some(name.to_owned()), true);
    let empty = || ClaimEvent::Marker(None);
    assert!(matches!(
        claim(vec![ClaimEvent::Marker(Some(b"v1\n".to_vec()))]),
        ClaimAction::Keep
    ));
    assert!(matches!(claim(vec![empty()]), ClaimAction::ReadRoot));
    assert!(matches!(
        claim(vec![empty(), ClaimEvent::RootEnd]),
        ClaimAction::WriteMarker
    ));
    assert!(matches!(
        claim(vec![
            empty(),
            root("ab"),
            file(&key),
            file(&format!("{key}.part.0.part")),
            ClaimEvent::ShardEnd,
            root("cd"),
            ClaimEvent::ShardEnd,
            ClaimEvent::RootEnd,
        ]),
        ClaimAction::WriteMarker
    ));
    for events in [
        vec![ClaimEvent::Marker(Some(b"v2\n".to_vec()))],
        vec![empty(), root("notes.json")],
        vec![empty(), ClaimEvent::RootEntry(None, true)],
        vec![empty(), ClaimEvent::RootEntry(Some("ab".to_owned()), false)],
        vec![empty(), root("ab"), file("notes.json")],
        vec![empty(), root("ab"), ClaimEvent::ShardEntry(None, true)],
        vec![empty(), root("ab"), ClaimEvent::ShardEntry(Some(key.clone()), false)],
        vec![empty(), root("cd"), file(&key)],
    ] {
        match claim(events) {
            ClaimAction::Refuse(error) => assert_eq!(error.kind, ErrorKind::InvalidInput),
            _ => panic!("expected a refusal"),
        }
    }
}
