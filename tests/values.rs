use taskchampion::access_mode::AccessMode;
use taskchampion::dependency_map::DependencyMap;
use taskchampion::error::{classify, map_taskchampion_error, ErrorKind};
use taskchampion::config::{ServerConfig, StorageConfig};
use taskchampion::status::Status;
use taskchampion::tag::Tag;
use taskchampion::text::{i64_to_text, parse_i64, str_contains};
use taskchampion::thread_guard::{ThreadBound, ThreadToken};
use taskchampion::timestamp::{from_timestamp, iso_to_datetime, ruby_to_datetime, Timestamp, MAX_SECONDS, MIN_SECONDS};
use taskchampion::uuid::uuid2tc;

#[test]
fn classification_follows_keyword_order() {
    assert_eq!(classify("database is locked"), ErrorKind::Storage);
    assert_eq!(classify("Permission denied (os error 13)"), ErrorKind::Storage);
    assert_eq!(classify("server returned 500"), ErrorKind::Sync);
    assert_eq!(classify("invalid config value"), ErrorKind::Config);
    assert_eq!(classify("could not parse date"), ErrorKind::Validation);
    assert_eq!(classify("storage sync failed"), ErrorKind::Storage);
    assert_eq!(classify("something odd"), ErrorKind::Generic);
    assert_eq!(classify(""), ErrorKind::Generic);
}

#[test]
fn mapped_messages_name_the_category() {
    let e = map_taskchampion_error("network unreachable");
    assert_eq!(e.kind, ErrorKind::Sync);
    assert_eq!(e.message, "Synchronization error: network unreachable");
    let e = map_taskchampion_error("bad format");
    assert_eq!(e.kind, ErrorKind::Validation);
    assert_eq!(e.message, "Validation error: bad format");
    assert_eq!(map_taskchampion_error("No such file").message, "Storage error: No such file");
    assert_eq!(map_taskchampion_error("config missing").message, "Configuration error: config missing");
}

#[test]
fn substring_search() {
    assert!(str_contains("abcabd", "abd"));
    assert!(!str_contains("abcab", "abd"));
    assert!(str_contains("x", ""));
    assert!(!str_contains("", "x"));
}

#[test]
fn uuid_parsing() {
    let u = uuid2tc("ABCDEF01-2345-6789-ABCD-EF0123456789").unwrap();
    assert_eq!(u.to_string(), "abcdef01-2345-6789-abcd-ef0123456789");
    assert_eq!(uuid2tc("abcdef01-2345-6789-abcd-ef012345678").err().unwrap().kind, ErrorKind::Validation);
    assert_eq!(uuid2tc("abcdef01x2345-6789-abcd-ef0123456789").err().unwrap().kind, ErrorKind::Validation);
    assert_eq!(uuid2tc("gbcdef01-2345-6789-abcd-ef0123456789").err().unwrap().kind, ErrorKind::Validation);
    assert_eq!(u, uuid2tc("abcdef01-2345-6789-abcd-ef0123456789").unwrap());
}

#[test]
fn status_symbols() {
    assert_eq!(Status::from_symbol("completed").unwrap(), Status::Completed);
    assert_eq!(Status::from_symbol("done").err().unwrap().kind, ErrorKind::Validation);
    assert_eq!(Status::Recurring.to_s(), "recurring");
    assert_eq!(Status::Unknown.to_taskmap(), "unknown status");
    assert_eq!(Status::from_taskmap("waiting"), Status::Unknown);
    assert_eq!(Status::from_taskmap("pending"), Status::Pending);
    assert_eq!(Status::Pending.inspect(), "#<Taskchampion::Status:pending>");
    assert!(Status::pending().is_pending());
    assert!(!Status::deleted().is_completed());
}

#[test]
fn access_mode_symbols() {
    assert_eq!(AccessMode::from_symbol("read_only").unwrap(), AccessMode::ReadOnly);
    assert_eq!(AccessMode::from_symbol("write").err().unwrap().kind, ErrorKind::Config);
    assert_eq!(AccessMode::read_write().to_symbol(), "read_write");
    assert!(AccessMode::read_only().is_read_only());
    assert_eq!(AccessMode::ReadWrite.inspect(), "#<Taskchampion::AccessMode:read_write>");
}

#[test]
fn tag_rules() {
    assert!(Tag::new("work").unwrap().user());
    assert!(Tag::new("PENDING").unwrap().synthetic());
    assert!(Tag::new("NOTATAG").is_err());
    assert!(Tag::new("").is_err());
    assert!(Tag::new("1abc").is_err());
    assert!(Tag::new("a b").is_err());
    assert!(Tag::new("a+b").is_err());
    assert!(Tag::new("a1").is_ok());
}

#[test]
fn datetime_strings() {
    assert_eq!(ruby_to_datetime("2023-01-01T12:00:00Z").unwrap(), Timestamp { seconds: 1_672_574_400 });
    assert_eq!(ruby_to_datetime("2023-01-01 12:00:00 +0000").unwrap(), Timestamp { seconds: 1_672_574_400 });
    assert_eq!(ruby_to_datetime("2023-01-01T13:00:00+01:00").unwrap(), Timestamp { seconds: 1_672_574_400 });
    assert_eq!(ruby_to_datetime("yesterday").err().unwrap().kind, ErrorKind::Validation);
    assert_eq!(iso_to_datetime("2023-01-01T12:00:00+0000").unwrap(), Timestamp { seconds: 1_672_574_400 });
    assert_eq!(iso_to_datetime("2023-01-01 12:00:00 +0000").err().unwrap().kind, ErrorKind::Validation);
    assert_eq!(from_timestamp(0), Some(Timestamp { seconds: 0 }));
    assert_eq!(from_timestamp(i64::MAX), None);
}

#[test]
fn decimal_text() {
    assert_eq!(i64_to_text(0), "0");
    assert_eq!(i64_to_text(-120), "-120");
    assert_eq!(i64_to_text(i64::MIN), "-9223372036854775808");
    assert_eq!(parse_i64("-9223372036854775808"), Some(i64::MIN));
    assert_eq!(parse_i64("9223372036854775808"), None);
    assert_eq!(parse_i64("+17"), Some(17));
    assert_eq!(parse_i64("-"), None);
    assert_eq!(parse_i64("12a"), None);
    assert_eq!(parse_i64("99999999999999999999999"), None);
}

#[test]
fn guard_refuses_a_foreign_thread_then_serves_its_own() {
    let a = ThreadToken { id: 1 };
    let b = ThreadToken { id: 2 };
    let mut guard = ThreadBound::new(5u32, a);
    assert_eq!(guard.get(b).err().unwrap().kind, ErrorKind::Thread);
    assert_eq!(guard.get_mut(b).err().unwrap().kind, ErrorKind::Thread);
    assert_eq!(*guard.get(a).unwrap(), 5);
    *guard.get_mut(a).unwrap() = 6;
    assert_eq!(*guard.get(a).unwrap(), 6);
    let guard2 = ThreadBound::new(1u8, a);
    assert_eq!(guard2.into_inner(b).err().unwrap().kind, ErrorKind::Thread);
    assert_eq!(guard.into_inner(a).unwrap(), 6);
}

#[test]
fn server_configs_need_their_parameters() {
    assert!(ServerConfig::remote(Some("https://x".into()), Some("bad".into()), Some("s".into())).is_err());
    assert_eq!(
        ServerConfig::remote(None, Some("aaaaaaaa-0000-0000-0000-000000000001".into()), Some("s".into()))
            .err()
            .unwrap()
            .kind,
        ErrorKind::Validation
    );
    assert!(ServerConfig::remote(
        Some("https://x".into()),
        Some("AAAAAAAA-0000-0000-0000-000000000001".into()),
        Some("s".into())
    )
    .is_ok());
    assert!(ServerConfig::gcp(Some("b".into()), None, Some("s".into())).is_err());
    assert!(ServerConfig::gcp(Some("b".into()), Some("/c".into()), Some("s".into())).is_ok());
    let _ = ServerConfig::local("/tmp/server");
}

#[test]
fn dependency_map_lookup() {
    let a = "aaaaaaaa-0000-0000-0000-000000000001";
    let b = "bbbbbbbb-0000-0000-0000-000000000002";
    let t = ThreadToken { id: 3 };
    let map = DependencyMap::from_tc_dependency_map(vec![(uuid2tc(a).unwrap(), uuid2tc(b).unwrap())], t);
    assert_eq!(map.dependencies(a, t).unwrap(), vec![b.to_string()]);
    assert_eq!(map.dependents(a, t).unwrap(), Vec::<String>::new());
    assert_eq!(map.inspect(), "#<Taskchampion::DependencyMap>");
}

#[test]
fn storage_config_defaults_to_read_write() {
    match StorageConfig::on_disk("/tmp/db", true, None).unwrap() {
        StorageConfig::OnDisk { taskdb_dir, create_if_missing, access_mode } => {
            assert_eq!(taskdb_dir, "/tmp/db");
            assert!(create_if_missing);
            assert_eq!(access_mode, AccessMode::ReadWrite);
        }
        StorageConfig::InMemory => panic!("expected an on-disk configuration"),
    }
    assert_eq!(StorageConfig::on_disk("/tmp/db", false, Some("bogus")).err().unwrap().kind, ErrorKind::Config);
    assert!(matches!(StorageConfig::in_memory(), StorageConfig::InMemory));
}

#[test]
fn uuid_forms() {
    let canonical = "550e8400-e29b-41d4-a716-446655440000";
    assert_eq!(uuid2tc("550e8400e29b41d4a716446655440000").unwrap().to_string(), canonical);
    assert_eq!(uuid2tc("550E8400E29B41D4A716446655440000").unwrap().to_string(), canonical);
    assert_eq!(uuid2tc("{550e8400-e29b-41d4-a716-446655440000}").unwrap().to_string(), canonical);
    assert_eq!(uuid2tc("urn:uuid:550e8400-e29b-41d4-a716-446655440000").unwrap().to_string(), canonical);
    assert!(uuid2tc("550e8400e29b41d4a71644665544000g").is_err());
    assert!(uuid2tc("{550e8400-e29b-41d4-a716-446655440000]").is_err());
    assert!(uuid2tc("urn:uuix:550e8400-e29b-41d4-a716-446655440000").is_err());
    let err = uuid2tc("nope").err().unwrap();
    assert_eq!(err.kind, ErrorKind::Validation);
    assert!(err.message.contains("'nope'"));
}

#[test]
fn chrono_range_bounds() {
    assert_eq!(from_timestamp(MIN_SECONDS), Some(Timestamp { seconds: MIN_SECONDS }));
    assert_eq!(from_timestamp(MIN_SECONDS - 1), None);
    assert_eq!(from_timestamp(MAX_SECONDS), Some(Timestamp { seconds: MAX_SECONDS }));
    assert_eq!(from_timestamp(MAX_SECONDS + 1), None);
}
