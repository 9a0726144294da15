use csv_partial_cache::is_cache_expired;
use csv_partial_cache::CsvPartialCache;
use csv_partial_cache::Error;
use csv_partial_cache::FromLineOffset;
use csv_partial_cache::IdRecord;
use csv_partial_cache::OffsetType;
use csv_partial_cache::SnapshotSource;

const TABLE: &str = "id,name\n1,ana\n2,bob\n4,eve";

fn table_index() -> CsvPartialCache<IdRecord<u32>> {
    CsvPartialCache::new("people.csv".to_string(), TABLE.to_string()).unwrap()
}

#[test]
fn new_decodes_every_data_line_with_its_offset() {
    let cache = table_index();
    assert_eq!(cache.path, "people.csv");
    assert_eq!(
        cache.items,
        vec![
            IdRecord { id: 1, offset: 8 },
            IdRecord { id: 2, offset: 14 },
            IdRecord { id: 4, offset: 20 },
        ]
    );
}

#[test]
fn header_line_never_appears_as_a_record() {
    // the header would decode fine as a record; it must still be skipped
    let cache: CsvPartialCache<IdRecord<u32>> =
        CsvPartialCache::new("t.csv".to_string(), "0,header\n1,ana".to_string()).unwrap();
    assert_eq!(cache.items.len(), 1);
    assert_eq!(cache.items[0].id, 1);
    assert!(cache.items.iter().all(|r| r.offset != 0));
}

#[test]
fn header_only_table_builds_an_empty_index() {
    let cache: CsvPartialCache<IdRecord<u32>> =
        CsvPartialCache::new("t.csv".to_string(), "id,name".to_string()).unwrap();
    assert!(cache.items.is_empty());
    let cache: CsvPartialCache<IdRecord<u32>> =
        CsvPartialCache::new("t.csv".to_string(), String::new()).unwrap();
    assert!(cache.items.is_empty());
}

#[test]
fn one_bad_line_aborts_the_whole_build() {
    let r: Result<CsvPartialCache<IdRecord<u32>>, Error> = CsvPartialCache::new(
        "t.csv".to_string(),
        "id,name\n1,ana\nnot-a-number,x\n2,bob".to_string(),
    );
    match r {
        Err(Error::DeserializeLine(_, line)) => assert_eq!(line, "not-a-number,x"),
        other => panic!("expected a decode failure, got {other:?}"),
    }
}

#[test]
fn empty_id_column_is_rejected() {
    let r: Result<CsvPartialCache<IdRecord<u32>>, Error> =
        CsvPartialCache::new("t.csv".to_string(), "id,name\n,ana".to_string());
    assert!(matches!(r, Err(Error::DeserializeLine(..))));
}

#[test]
fn id_past_sixty_four_bits_is_rejected() {
    let r: Result<CsvPartialCache<IdRecord<u32>>, Error> =
        CsvPartialCache::new("t.csv".to_string(), "id,name\n18446744073709551616,x".to_string());
    assert!(matches!(r, Err(Error::DeserializeLine(..))));
    let ok: CsvPartialCache<IdRecord<u32>> =
        CsvPartialCache::new("t.csv".to_string(), "id,name\n18446744073709551615,x".to_string())
            .unwrap();
    assert_eq!(ok.items[0].id, u64::MAX);
}

#[test]
fn data_line_past_the_offset_range_aborts_the_build() {
    let header = "h".repeat(300);
    let r: Result<CsvPartialCache<IdRecord<u8>>, Error> =
        CsvPartialCache::new("t.csv".to_string(), format!("{header}\n17"));
    match r {
        Err(Error::IntoOffset(position, line_index, name)) => {
            assert_eq!(position, 301);
            assert_eq!(line_index, 1);
            assert_eq!(name, "t.csv");
        }
        other => panic!("expected an offset conversion error, got {other:?}"),
    }
}

#[test]
fn find_returns_the_exact_match() {
    let cache = table_index();
    let hit = cache.find(&2, |r: &IdRecord<u32>| r.id).unwrap();
    assert_eq!(hit.id, 2);
    assert_eq!(hit.offset, 14);
    let first = cache.find(&1, |r: &IdRecord<u32>| r.id).unwrap();
    assert_eq!(first.offset, 8);
    let last = cache.find(&4, |r: &IdRecord<u32>| r.id).unwrap();
    assert_eq!(last.offset, 20);
}

#[test]
fn find_misses_keys_outside_and_inside_the_range() {
    let cache = table_index();
    assert!(cache.find(&0, |r: &IdRecord<u32>| r.id).is_none());
    assert!(cache.find(&3, |r: &IdRecord<u32>| r.id).is_none());
    assert!(cache.find(&5, |r: &IdRecord<u32>| r.id).is_none());
}

#[test]
fn find_with_equal_keys_returns_one_of_the_matches() {
    let table = ["id,name", "1,a", "2,b", "2,c", "3,d"].join("\n");
    let cache: CsvPartialCache<IdRecord<u32>> =
        CsvPartialCache::new("t.csv".to_string(), table).unwrap();
    let hit = cache.find(&2, |r: &IdRecord<u32>| r.id).unwrap();
    assert_eq!(hit.id, 2);
    assert!(hit.offset == 12 || hit.offset == 16);
}

#[test]
fn find_on_an_empty_index_misses() {
    let cache: CsvPartialCache<IdRecord<u32>> =
        CsvPartialCache::new("t.csv".to_string(), "id,name".to_string()).unwrap();
    assert!(cache.find(&1, |r: &IdRecord<u32>| r.id).is_none());
}

#[test]
fn fresh_snapshot_is_reused_without_decoding() {
    // these records cannot come from any table text: there is no text in a
    // reuse, so the decode path has nothing to run on
    let restored = vec![IdRecord { id: 99, offset: 9u64 }, IdRecord { id: 7, offset: 21u64 }];
    let cache = CsvPartialCache::from_cache(
        "people.csv".to_string(),
        SnapshotSource::Reuse(vec![
            IdRecord { id: 99, offset: 9u64 },
            IdRecord { id: 7, offset: 21u64 },
        ]),
    )
    .unwrap();
    // the records come back element for element, and the path still names the
    // source table, so later full-record fetches read the original file
    assert_eq!(cache.items, restored);
    assert_eq!(cache.path, "people.csv");
}

#[test]
fn expired_snapshot_forces_a_full_rebuild() {
    let rebuilt: CsvPartialCache<IdRecord<u32>> = CsvPartialCache::from_cache(
        "people.csv".to_string(),
        SnapshotSource::Rebuild(TABLE.to_string()),
    )
    .unwrap();
    let direct = table_index();
    assert_eq!(rebuilt.path, direct.path);
    assert_eq!(rebuilt.items, direct.items);
}

#[test]
fn snapshot_staleness_rule() {
    // missing snapshot: expired, whatever the times say
    assert!(is_cache_expired(false, 5, 100));
    // snapshot older than the source: expired
    assert!(is_cache_expired(true, 10, 9));
    // same modification time: still expired (not strictly newer)
    assert!(is_cache_expired(true, 10, 10));
    // snapshot strictly newer than the source: fresh
    assert!(!is_cache_expired(true, 10, 11));
}

#[test]
fn touching_the_source_expires_a_written_snapshot() {
    let written_at: u64 = 50;
    assert!(!is_cache_expired(true, 40, written_at));
    // the source is touched at or after the moment the snapshot was written
    let touched_at: u64 = 50;
    assert!(is_cache_expired(true, touched_at, written_at));
    let touched_later: u64 = 60;
    assert!(is_cache_expired(true, touched_later, written_at));
}

#[test]
fn stored_offsets_point_at_the_records_own_lines() {
    let cache = table_index();
    let expected = ["1,ana", "2,bob", "4,eve"];
    for (rec, want) in cache.items.iter().zip(expected) {
        let at = rec.offset().to_u64() as usize;
        let tail = &TABLE[at..];
        let line = tail.split('\n').next().unwrap();
        assert_eq!(line, want);
    }
}

#[test]
fn offset_types_narrow_without_truncating() {
    assert_eq!(<u8 as OffsetType>::try_from_u64(255), Some(255));
    assert_eq!(<u8 as OffsetType>::try_from_u64(256), None);
    assert_eq!(<u16 as OffsetType>::try_from_u64(65536), None);
    assert_eq!(<u32 as OffsetType>::try_from_u64(1 << 32), None);
    assert_eq!(<u64 as OffsetType>::try_from_u64(u64::MAX), Some(u64::MAX));
    assert_eq!(OffsetType::to_u64(77u8), 77);
}
