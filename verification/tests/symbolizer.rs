use kinetrace::symbolizer::{symbolize, InternedCache, ProcessConfig, Symbolizer, SymbolizerError};

#[test]
fn test_frame_caching() {
    let mut cache = InternedCache::new();

    assert_eq!(cache.cached_frame(1234, 0x1000), None);

    let id1 = cache.reserve_frame(1234, 0x1000);
    assert_eq!(id1, 0);

    assert_eq!(cache.cached_frame(1234, 0x1000), Some(0));

    let id2 = cache.reserve_frame(1234, 0x1000);
    assert_eq!(id2, 0);

    let id3 = cache.reserve_frame(1234, 0x2000);
    assert_eq!(id3, 1);

    let id4 = cache.reserve_frame(5678, 0x1000);
    assert_eq!(id4, 2);
}

#[test]
fn test_callstack_caching() {
    let mut cache = InternedCache::new();

    let callstack1 = vec![1, 2, 3];
    assert_eq!(cache.cached_callstack(1234, &callstack1), None);

    let id1 = cache.reserve_callstack(&callstack1);
    assert_eq!(id1, 0);

    assert_eq!(cache.cached_callstack(1234, &callstack1), Some(0));

    let id2 = cache.reserve_callstack(&callstack1);
    assert_eq!(id2, 0);

    let callstack2 = vec![4, 5, 6];
    let id3 = cache.reserve_callstack(&callstack2);
    assert_eq!(id3, 1);

    assert_eq!(cache.cached_callstack(5678, &callstack2), Some(1));
}

#[test]
fn test_callstack_hash_collision() {
    let mut cache = InternedCache::new();

    let callstack1 = vec![1, 2, 3];
    let callstack2 = vec![1, 2, 3];
    let callstack3 = vec![3, 2, 1];

    let id1 = cache.reserve_callstack(&callstack1);
    let id2 = cache.reserve_callstack(&callstack2);
    let id3 = cache.reserve_callstack(&callstack3);

    assert_eq!(id1, id2);
    assert_ne!(id1, id3);
}

#[test]
fn ids_of_functions_and_mappings() {
    let mut cache = InternedCache::default();
    assert_eq!(cache.reserve_function_id(), 0);
    assert_eq!(cache.get_or_create_unknown_function_id(), 1);
    assert_eq!(cache.get_or_create_unknown_function_id(), 1);
    assert_eq!(cache.reserve_function_id(), 2);
    assert_eq!(cache.get_or_create_fake_mapping_id(), 1);
    assert!(cache.take_is_first_interned_data());
    assert!(!cache.take_is_first_interned_data());
}

#[test]
fn samples_are_interned() {
    let mut symbolizer = Symbolizer::new(ProcessConfig::default());
    assert!(symbolizer.cfg.debug_syms && !symbolizer.cfg.perf_map);
    let interned = symbolize(
        9,
        vec![0xa, 0xb],
        vec![0xc],
        Ok(vec![Some("inner".to_string()), Some("outer".to_string())]),
        Ok(vec![None]),
    )
    .unwrap();
    let (id, data) = interned.data(&mut symbolizer.cache);
    assert_eq!(id, 0);
    let data = data.unwrap();
    let names: Vec<&str> = data.function_names.iter().map(|n| n.str.as_str()).collect();
    assert_eq!(names, vec!["<unknown>", "outer", "inner"]);
    let pcs: Vec<u64> = data.frames.iter().map(|f| f.rel_pc).collect();
    assert_eq!(pcs, vec![0xb, 0xa, 0xc]);
    assert_eq!(data.frames[2].function_name_id, data.function_names[0].iid);
    assert_eq!(data.callstacks[0].frame_ids, vec![0, 1, 2]);
    assert_eq!(data.mappings[0].end, 0x7fffffffffffffff);
    assert_eq!(data.build_ids[0].str, "unknown");
    assert!(!data.continuation);
    let (again, nothing) = interned.data(&mut symbolizer.cache);
    assert_eq!(again, 0);
    assert!(nothing.is_none());
    let other = symbolize(9, vec![0xa], vec![], Ok(vec![None]), Ok(vec![])).unwrap();
    let (id, data) = other.data(&mut symbolizer.cache);
    assert_eq!(id, 1);
    let data = data.unwrap();
    assert!(data.frames.is_empty() && data.continuation);
}

#[test]
fn symbolizer_errors() {
    let empty = symbolize(1, vec![], vec![], Ok(vec![]), Ok(vec![]));
    assert_eq!(
        empty.unwrap_err().to_text(),
        "empty symbols - both user and kernel addresses are empty"
    );
    let none_found = symbolize(1, vec![1], vec![], Ok(vec![]), Ok(vec![]));
    assert!(matches!(none_found, Err(SymbolizerError::EmptySymbols)));
    let failed = symbolize(1, vec![1], vec![2], Err("a".to_string()), Err("b".to_string()));
    assert_eq!(failed.unwrap_err().to_text(), "blazesym error: a");
    let failed = symbolize(1, vec![], vec![2], Err("a".to_string()), Err("b".to_string()));
    assert_eq!(failed.unwrap_err().to_text(), "blazesym error: b");
}

#[test]
fn a_sample_is_described_once() {
    let mut cache = InternedCache::new();
    let named = |name: &str| Ok(vec![Some(name.to_string())]);
    let sample = |addr: u64, name: &str| {
        symbolize(7, vec![addr], vec![], named(name), Ok(vec![])).unwrap()
    };
    let (first, data) = sample(0x10, "main").data(&mut cache);
    assert!(data.is_some());
    let (other, data) = sample(0x20, "work").data(&mut cache);
    assert!(data.is_some());
    assert_ne!(first, other);
    let (again, data) = sample(0x10, "renamed").data(&mut cache);
    assert_eq!(again, first);
    assert!(data.is_none());
}
