use reactive_multimap::message_listeners::MessageListenersInterface;
use reactive_multimap::multi_set::MultiSetModifyMessage;
use reactive_multimap::queryable_streaming_multi_map::{
    group_step, FilterQuerableStreamingMultiMap, JoinQuerableStreamingMultiMap,
    QuerableStreamingMultiMap, QuerableStreamingMultiMapGetter, StreamingHashMultiMapWithCount,
};

#[test]
fn test_get() {
    let mut map = StreamingHashMultiMapWithCount::new();
    let key = "key";
    let value = "value";
    map.insert(key, value);
    assert_eq!(map.get(&key), vec![value]);
}

#[test]
fn test_get_one() {
    let mut map = StreamingHashMultiMapWithCount::new();
    map.insert("key", "value");
    assert_eq!(map.get_one(&"key"), Some("value"));
}

#[test]
fn test_get_one_none() {
    let map: StreamingHashMultiMapWithCount<&str, &str> = StreamingHashMultiMapWithCount::new();
    assert_eq!(map.get_one(&"key"), None);
}

#[test]
fn test_join() {
    let map1 = StreamingHashMultiMapWithCount::new();
    let map2 = StreamingHashMultiMapWithCount::new();
    let mut joined_map = JoinQuerableStreamingMultiMap::new(map1, map2);
    joined_map.insert_first("key", "value");
    joined_map.insert_second("key", "value2");
    assert_eq!(joined_map.get_one(&"key"), Some(("value", "value2")));
}

#[test]
fn test_filter() {
    let mut map = StreamingHashMultiMapWithCount::new();
    map.insert("key", "value");
    map.insert("key2", "value2");
    let filter_map = FilterQuerableStreamingMultiMap::new(map, |k: &str, _: &str| k == "key");
    assert_eq!(filter_map.get_one(&"key"), Some("value"));
    assert_eq!(filter_map.get_one(&"key2"), None);
}

#[test]
fn test_filter2() {
    let mut map = StreamingHashMultiMapWithCount::new();
    map.insert("key", "value");
    map.insert("key2", "value2");
    let filter_map = FilterQuerableStreamingMultiMap::new(map, |k: &str, _: &str| k == "key");
    let filter_map2 =
        FilterQuerableStreamingMultiMap::new(filter_map, |k: &str, _: &str| k == "key");
    assert_eq!(filter_map2.get_one(&"key"), Some("value"));
    assert_eq!(filter_map2.get_one(&"key2"), None);
}

#[test]
fn test_filter_join() {
    let map1 = StreamingHashMultiMapWithCount::new();
    let map2 = StreamingHashMultiMapWithCount::new();
    let filter_map = FilterQuerableStreamingMultiMap::new(map1, |k: &str, _: &str| k == "key");
    let mut joined_map = JoinQuerableStreamingMultiMap::new(filter_map, map2);
    joined_map.insert_first("key", "value");
    joined_map.insert_first("key2", "value3");
    joined_map.insert_second("key", "value2");
    joined_map.insert_second("key2", "value4");
    assert_eq!(joined_map.get_one(&"key"), Some(("value", "value2")));
    assert_eq!(joined_map.get_one(&"key2"), None);
}

#[test]
fn test_group_by() {
    let mut map1 = StreamingHashMultiMapWithCount::new();
    let feed = map1.listen();
    let mut group_map: StreamingHashMultiMapWithCount<&str, &str> =
        StreamingHashMultiMapWithCount::new();
    map1.insert("key", "value");
    map1.insert("key", "value2");
    map1.insert("key2", "value3");
    let pending = map1.drain(feed);
    group_step(&mut group_map, &pending, &(|k: &str, v: &str| (v, k)));
    assert_eq!(group_map.get_one(&"value"), Some("key"));
}

#[test]
fn test_reversed() {
    let mut map1 = StreamingHashMultiMapWithCount::new();
    map1.insert("key", "value");
    map1.insert("key", "value2");
    map1.insert("key2", "value3");
    let _l = map1.listeners();
}

#[test]
fn reversed_swaps_keys_and_values() {
    // The grouped map from the key/value swap answers by former value.
    let mut source: reactive_multimap::multi_set::MultiSetMessageListeners<(&str, &str)> =
        reactive_multimap::message_listeners::MessageListeners::new();
    let (mut rev, feed) = source.reversed();
    source.send(MultiSetModifyMessage::InsertOne(("key", "value")));
    source.send(MultiSetModifyMessage::InsertOne(("key", "value2")));
    let pending = source.drain(feed);
    group_step(&mut rev, &pending, &(|k: &str, v: &str| (v, k)));
    assert_eq!(rev.get_one(&"value"), Some("key"));
    assert_eq!(rev.get_one(&"value2"), Some("key"));
}

#[test]
fn double_insert_needs_two_removes() {
    // Two inserts of the same pair followed by one remove leave it present;
    // a second remove makes it absent; exactly one presence and one absence
    // notification are ever sent for the pair.
    let mut map = StreamingHashMultiMapWithCount::new();
    let sub = map.listen();
    map.insert("key", "value");
    map.insert("key", "value");
    let first = map.remove("key", "value");
    assert_eq!(first, (true, false));
    assert_eq!(map.get(&"key"), vec!["value"]);
    let second = map.remove("key", "value");
    assert_eq!(second, (true, true));
    assert_eq!(map.get(&"key"), Vec::<&str>::new());
    assert_eq!(
        map.drain(sub),
        vec![
            MultiSetModifyMessage::InsertOne(("key", "value")),
            MultiSetModifyMessage::RemoveOne(("key", "value"))
        ]
    );
}

#[test]
fn interior_count_changes_are_silent() {
    let mut map = StreamingHashMultiMapWithCount::new();
    let sub = map.listen();
    map.insert("key", "value");
    map.insert("key", "value");
    map.insert("key", "value");
    let _ = map.remove("key", "value");
    assert_eq!(
        map.drain(sub),
        vec![MultiSetModifyMessage::InsertOne(("key", "value"))]
    );
}

#[test]
fn remove_of_absent_pair_reports_nothing() {
    let mut map: StreamingHashMultiMapWithCount<&str, &str> = StreamingHashMultiMapWithCount::new();
    let sub = map.listen();
    assert_eq!(map.remove("key", "value"), (false, false));
    assert_eq!(map.drain(sub), Vec::<MultiSetModifyMessage<(&str, &str)>>::new());
}

#[test]
fn get_of_missing_key_is_empty() {
    let mut map = StreamingHashMultiMapWithCount::new();
    map.insert("key", "value");
    assert_eq!(map.get(&"other"), Vec::<&str>::new());
}

#[test]
fn get_one_of_two_values_is_none() {
    let mut map = StreamingHashMultiMapWithCount::new();
    map.insert("key", "value");
    map.insert("key", "value2");
    assert_eq!(map.get_one(&"key"), None);
}

#[test]
fn set_replaces_all_values_of_a_key() {
    let mut map = StreamingHashMultiMapWithCount::new();
    let sub = map.listen();
    map.insert("key", "value");
    map.insert("key2", "other");
    map.set("key", "value2");
    assert_eq!(map.get(&"key"), vec!["value2"]);
    assert_eq!(map.get_one(&"key"), Some("value2"));
    assert_eq!(map.get(&"key2"), vec!["other"]);
    assert_eq!(
        map.drain(sub),
        vec![
            MultiSetModifyMessage::InsertOne(("key", "value")),
            MultiSetModifyMessage::InsertOne(("key2", "other")),
            MultiSetModifyMessage::RemoveOne(("key", "value")),
            MultiSetModifyMessage::InsertOne(("key", "value2"))
        ]
    );
}

#[test]
fn set_wipes_values_held_more_than_once() {
    // A value inserted twice is fully dissociated by one set: afterwards the
    // key maps to exactly the new value, with one absence notification for
    // the wiped value and exactly one presence for the new one.
    let mut map = StreamingHashMultiMapWithCount::new();
    let sub = map.listen();
    map.insert("key", "value");
    map.insert("key", "value");
    map.set("key", "value2");
    assert_eq!(map.get(&"key"), vec!["value2"]);
    assert_eq!(map.get_one(&"key"), Some("value2"));
    // One more remove of the wiped value finds nothing: its count is zero.
    assert_eq!(map.remove("key", "value"), (false, false));
    assert_eq!(
        map.drain(sub),
        vec![
            MultiSetModifyMessage::InsertOne(("key", "value")),
            MultiSetModifyMessage::RemoveOne(("key", "value")),
            MultiSetModifyMessage::InsertOne(("key", "value2"))
        ]
    );
}

#[test]
fn set_of_the_held_value_reaffirms_it() {
    // Setting a key to a value it already holds at count two first drives
    // the count to zero (one absence) and then re-inserts it (one presence).
    let mut map = StreamingHashMultiMapWithCount::new();
    let sub = map.listen();
    map.insert("key", "value");
    map.insert("key", "value");
    map.set("key", "value");
    assert_eq!(map.get(&"key"), vec!["value"]);
    assert_eq!(
        map.drain(sub),
        vec![
            MultiSetModifyMessage::InsertOne(("key", "value")),
            MultiSetModifyMessage::RemoveOne(("key", "value")),
            MultiSetModifyMessage::InsertOne(("key", "value"))
        ]
    );
}

#[test]
fn get_shows_exactly_positive_net_counts() {
    // Values whose inserts outnumber their removes are the ones shown.
    let mut map = StreamingHashMultiMapWithCount::new();
    map.insert("key", "a");
    map.insert("key", "a");
    map.insert("key", "b");
    map.insert("key", "c");
    let _ = map.remove("key", "a");
    let _ = map.remove("key", "b");
    let mut shown = map.get(&"key");
    shown.sort();
    assert_eq!(shown, vec!["a", "c"]);
}

#[test]
fn scenario_single_insert() {
    let mut map = StreamingHashMultiMapWithCount::new();
    map.insert("key", "value");
    assert_eq!(map.get(&"key"), vec!["value"]);
    assert_eq!(map.get_one(&"key"), Some("value"));
}

#[test]
fn filter_forwards_only_accepted_pairs() {
    let map = StreamingHashMultiMapWithCount::new();
    let mut filtered = FilterQuerableStreamingMultiMap::new(map, |k: &str, _: &str| k == "key");
    let sub = filtered.listen();
    filtered.insert("key", "value");
    filtered.insert("key2", "value2");
    filtered.insert("key", "value");
    assert_eq!(
        filtered.drain(sub),
        vec![MultiSetModifyMessage::InsertOne(("key", "value"))]
    );
}

#[test]
fn join_notifies_cross_products() {
    let map1 = StreamingHashMultiMapWithCount::new();
    let map2 = StreamingHashMultiMapWithCount::new();
    let mut joined = JoinQuerableStreamingMultiMap::new(map1, map2);
    let sub = joined.listen();
    joined.insert_second("key", "value2");
    joined.insert_first("key", "value");
    joined.insert_second("key", "value3");
    let mut notifications = joined.drain(sub);
    notifications.sort_by(|a, b| format!("{:?}", a).cmp(&format!("{:?}", b)));
    assert_eq!(
        notifications,
        vec![
            MultiSetModifyMessage::InsertOne(("key", ("value", "value2"))),
            MultiSetModifyMessage::InsertOne(("key", ("value", "value3")))
        ]
    );
    assert_eq!(joined.get(&"key").len(), 2);
}

#[test]
fn join_reflects_every_mutation_immediately() {
    let map1 = StreamingHashMultiMapWithCount::new();
    let map2 = StreamingHashMultiMapWithCount::new();
    let mut joined = JoinQuerableStreamingMultiMap::new(map1, map2);
    assert_eq!(joined.get(&"key"), Vec::<(&str, &str)>::new());
    joined.insert_first("key", "a");
    assert_eq!(joined.get(&"key"), Vec::<(&str, &str)>::new());
    joined.insert_second("key", "b");
    assert_eq!(joined.get(&"key"), vec![("a", "b")]);
    let _ = joined.remove_first("key", "a");
    assert_eq!(joined.get(&"key"), Vec::<(&str, &str)>::new());
    let (source1, source2) = joined.into_sources();
    assert_eq!(source1.get(&"key"), Vec::<&str>::new());
    assert_eq!(source2.get(&"key"), vec!["b"]);
}

#[test]
fn group_by_survives_many_to_one_collisions() {
    // Two distinct source pairs map onto one destination pair; the grouped
    // map keeps it present until both are gone.
    let mut map = StreamingHashMultiMapWithCount::new();
    let feed = map.listen();
    let mut grouped: StreamingHashMultiMapWithCount<&str, u32> =
        StreamingHashMultiMapWithCount::new();
    let collapse = |_k: &str, _v: &str| ("all", 0u32);
    map.insert("key", "value");
    map.insert("key2", "value2");
    let pending = map.drain(feed);
    group_step(&mut grouped, &pending, &collapse);
    assert_eq!(grouped.get_one(&"all"), Some(0));
    let _ = map.remove("key", "value");
    let pending = map.drain(feed);
    group_step(&mut grouped, &pending, &collapse);
    assert_eq!(grouped.get_one(&"all"), Some(0));
    let _ = map.remove("key2", "value2");
    let pending = map.drain(feed);
    group_step(&mut grouped, &pending, &collapse);
    assert_eq!(grouped.get_one(&"all"), None);
}

#[test]
fn scenario_group_by_swap() {
    let mut source = StreamingHashMultiMapWithCount::new();
    let feed = source.listen();
    let mut grouped: StreamingHashMultiMapWithCount<&str, &str> =
        StreamingHashMultiMapWithCount::new();
    source.insert("key", "value");
    source.insert("key", "value2");
    let pending = source.drain(feed);
    group_step(&mut grouped, &pending, &(|k: &str, v: &str| (v, k)));
    assert_eq!(grouped.get_one(&"value"), Some("key"));
    assert_eq!(grouped.get_one(&"value2"), Some("key"));
}

#[test]
fn filter_join_composition_by_notifications() {
    let map1 = StreamingHashMultiMapWithCount::new();
    let map2 = StreamingHashMultiMapWithCount::new();
    let filter_map = FilterQuerableStreamingMultiMap::new(map1, |k: &str, _: &str| k == "key");
    let mut joined = JoinQuerableStreamingMultiMap::new(filter_map, map2);
    let sub = joined.listen();
    joined.insert_second("key", "value2");
    joined.insert_second("key2", "value4");
    joined.insert_first("key", "value");
    joined.insert_first("key2", "value3");
    assert_eq!(
        joined.drain(sub),
        vec![MultiSetModifyMessage::InsertOne(("key", ("value", "value2")))]
    );
}
