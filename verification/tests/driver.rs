//! Room listings, queries and the filters of requests.

use colyseus::driver::{LocalDriver, RoomListing};
use colyseus::filter::parse_filter;
use colyseus::json::Json;
use colyseus::query::{
    compare_values, matches_condition, parse_condition, parse_sort, parse_value, resolve_path,
    value_eq, Condition, Op, RoomQuery,
};
use colyseus::value::{parse_json, Order};

fn j(text: &str) -> Json {
    parse_json(text).expect("valid JSON")
}

fn params(pairs: &[(&str, &str)]) -> Vec<(String, String)> {
    pairs.iter().map(|(k, v)| (k.to_string(), v.to_string())).collect()
}

fn listing(id: &str, name: &str, clients: u32, locked: bool) -> RoomListing {
    RoomListing {
        room_id: id.into(),
        name: name.into(),
        process_id: "p1".into(),
        clients,
        max_clients: Some(4),
        locked,
        is_private: false,
        metadata: Some(j(r#"{"region": "eu"}"#)),
        created_at: id.len() as u64,
        extra: vec![("slug".to_string(), Json::Str(format!("slug-{id}")))],
    }
}

fn driver() -> LocalDriver {
    let mut d = LocalDriver::new();
    d.insert(listing("a", "game", 3, false));
    d.insert(listing("b", "game", 1, false));
    d.insert(listing("c", "game", 2, true));
    d.insert(listing("d", "chat", 1, false));
    d
}

#[test]
fn legacy_query_filters_and_sorts() {
    let d = driver();
    let cond = vec![
        ("name".to_string(), j("\"game\"")),
        ("locked".to_string(), j("false")),
    ];
    let res = d.query(&cond, Some(&vec![("clients".to_string(), 1)]));
    assert_eq!(res.len(), 2);
    assert_eq!(res[0].room_id, "b");
}

#[test]
fn query_rooms_equality_and_range() {
    let d = driver();
    let q = RoomQuery::builder()
        .name("game".to_string())
        .filter("clients".to_string(), j("1"))
        .build();
    let r = d.query_rooms(&q);
    assert_eq!(r.total, 1);
    assert_eq!(r.items[0].room_id, "b");

    let q = RoomQuery::builder()
        .name("game".to_string())
        .condition("clients".to_string(), Condition { op: Op::Gte, value: Some(j("2")) })
        .build();
    let r = d.query_rooms(&q);
    assert_eq!(r.total, 2);
    let mut ids: Vec<&str> = r.items.iter().map(|l| l.room_id.as_str()).collect();
    ids.sort_unstable();
    assert_eq!(ids, vec!["a", "c"]);
}

#[test]
fn query_rooms_ops_in_exists_not_exists() {
    let d = driver();
    let with = |field: &str, condition: Condition| {
        RoomQuery::builder()
            .name("game".to_string())
            .condition(field.to_string(), condition)
            .build()
    };
    let q = with("clients", Condition { op: Op::In(vec![j("1"), j("3")]), value: None });
    assert_eq!(d.query_rooms(&q).total, 2);

    let q = with("metadata.region", Condition { op: Op::Exists, value: None });
    assert_eq!(d.query_rooms(&q).total, 3);

    let q = with("metadata.rank", Condition { op: Op::NotExists, value: None });
    assert_eq!(d.query_rooms(&q).total, 3);

    let q = with("locked", Condition { op: Op::Ne, value: Some(j("true")) });
    assert_eq!(d.query_rooms(&q).total, 2);
}

#[test]
fn query_rooms_string_number_coercion() {
    let mut d = LocalDriver::new();
    d.insert(listing("a", "game", 1, false));
    let q = RoomQuery::builder()
        .name("game".to_string())
        .filter("clients".to_string(), j("1.0"))
        .build();
    assert_eq!(d.query_rooms(&q).total, 1);
}

#[test]
fn query_rooms_pagination_and_sort() {
    let d = driver();
    let q = RoomQuery::builder()
        .name("game".to_string())
        .sort("createdAt".to_string(), true)
        .limit(2)
        .build();
    let r = d.query_rooms(&q);
    assert_eq!(r.total, 3);
    assert_eq!(r.items.len(), 2);
    assert_eq!(r.next_offset, Some(2));

    let q2 = RoomQuery { offset: 2, ..q };
    let r2 = d.query_rooms(&q2);
    assert_eq!(r2.items.len(), 1);
    assert_eq!(r2.next_offset, None);
}

#[test]
fn query_rooms_count_only() {
    let d = driver();
    let q = RoomQuery::builder().name("game".to_string()).count_only().build();
    let r = d.query_rooms(&q);
    assert_eq!(r.total, 3);
    assert!(r.items.is_empty());
}

#[test]
fn from_params_parses_operators() {
    let p = params(&[
        ("name", "game"),
        ("clients.gte", "2"),
        ("slug.in", "slug-a,slug-b"),
        ("locked.exists", "false"),
        ("sort", "createdAt:desc,clients:asc"),
        ("limit", "5"),
    ]);
    let q = RoomQuery::from_params(&p).unwrap();
    assert_eq!(q.name.as_deref(), Some("game"));
    assert_eq!(q.conditions.len(), 3);
    assert_eq!(q.sort, vec![("createdAt".to_string(), -1), ("clients".to_string(), 1)]);
    assert_eq!(q.limit, Some(5));
    let ops = [
        q.conditions[0].1.op.clone(),
        q.conditions[1].1.op.clone(),
        q.conditions[2].1.op.clone(),
    ];
    assert!(ops.iter().any(|op| matches!(op, Op::Gte)));
    assert!(ops.iter().any(|op| matches!(op, Op::In(_))));
    assert!(ops.iter().any(|op| matches!(op, Op::NotExists)));
}

#[test]
fn from_params_rejects_bad_values() {
    assert!(RoomQuery::from_params(&params(&[("limit", "abc")])).is_err());
    assert!(RoomQuery::from_params(&params(&[("locked.exists", "nope")])).is_err());
}

#[test]
fn from_params_reads_paging_and_counting() {
    let q = RoomQuery::from_params(&params(&[("offset", "7"), ("count", "true")])).unwrap();
    assert_eq!(q.offset, 7);
    assert!(q.count);
    assert_eq!(q.limit, None);
    assert!(RoomQuery::from_params(&params(&[("offset", "-1")])).is_err());
    assert!(RoomQuery::from_params(&params(&[("count", "maybe")])).is_err());
    assert!(RoomQuery::from_params(&params(&[("sort", ":desc")])).is_err());
}

#[test]
fn sort_keys_read_directions() {
    assert_eq!(
        parse_sort("a,b:asc,c:desc").unwrap(),
        vec![("a".to_string(), 1), ("b".to_string(), 1), ("c".to_string(), -1)]
    );
    // an unknown direction belongs to the field, blank parts are passed over
    assert_eq!(parse_sort("a:up, ,b:-1").unwrap(), vec![("a:up".to_string(), 1), ("b".to_string(), -1)]);
    assert_eq!(parse_sort(":desc").unwrap_err(), "invalid sort key \":desc\"");
}

#[test]
fn conditions_are_read_by_operator() {
    let (field, c) = parse_condition("metadata.level.lt", "3").unwrap();
    assert_eq!(field, "metadata.level");
    assert!(matches!(c.op, Op::Lt));
    assert_eq!(c.value, Some(j("3")));
    // a last segment that is no operator belongs to the field
    let (field, c) = parse_condition("metadata.level", "\"x\"").unwrap();
    assert_eq!(field, "metadata.level");
    assert!(matches!(c.op, Op::Eq));
    assert!(parse_condition("a.exists", "2").is_err());
}

#[test]
fn raw_values_are_read_as_json_scalars() {
    assert_eq!(parse_value("true"), j("true"));
    assert_eq!(parse_value("12"), j("12"));
    assert_eq!(parse_value("-3"), j("-3"));
    assert_eq!(parse_value("1.5"), j("1.5"));
    assert_eq!(parse_value("eu-west"), j("\"eu-west\""));
}

#[test]
fn values_are_compared_across_number_kinds() {
    assert!(value_eq(&j("1"), &j("1.0")));
    assert!(!value_eq(&j("1"), &j("1.5")));
    assert!(matches!(compare_values(&j("2"), &j("10")), Some(Order::Less)));
    assert!(matches!(compare_values(&j("-1"), &j("-1.5")), Some(Order::Greater)));
    assert!(matches!(compare_values(&j("\"a\""), &j("\"b\"")), Some(Order::Less)));
    assert!(matches!(compare_values(&j("true"), &j("true")), Some(Order::Equal)));
    assert!(compare_values(&j("[]"), &j("1")).is_none());
}

#[test]
fn operators_come_in_opposite_pairs() {
    let value = j("5");
    let with = |op: Op| Condition { op, value: Some(j("3")) };
    assert!(matches_condition(Some(&value), &with(Op::Gt)));
    assert!(!matches_condition(Some(&value), &with(Op::Lte)));
    assert!(matches_condition(Some(&value), &with(Op::Ne)));
    assert!(!matches_condition(Some(&value), &with(Op::Eq)));
    assert!(!matches_condition(None, &Condition { op: Op::Exists, value: None }));
    assert!(matches_condition(None, &Condition { op: Op::NotExists, value: None }));
}

#[test]
fn paths_lead_into_nested_objects() {
    let root = j(r#"{"metadata": {"a": {"b": 7}}, "x.y": 1}"#);
    assert_eq!(resolve_path(&root, "metadata.a.b"), Some(&j("7")));
    assert_eq!(resolve_path(&root, "metadata.a.c"), None);
    assert_eq!(resolve_path(&root, "metadata.a.b.c"), None);
}

#[test]
fn filters_of_requests_become_conditions() {
    let cs = parse_filter(&j(r#"{"mode": "ranked", "metadata.level": {"gte": 3}}"#)).unwrap();
    assert_eq!(cs.len(), 2);
    assert_eq!(cs[0].0, "metadata.level");
    assert!(matches!(cs[0].1.op, Op::Gte));
    assert_eq!(cs[1].0, "mode");
    assert!(matches!(cs[1].1.op, Op::Eq));
    assert!(parse_filter(&j("[]")).is_err());
    assert!(parse_filter(&j(r#"{"a": {"near": 1}}"#)).is_err());
}

#[test]
fn listings_are_stored_updated_and_removed() {
    let mut d = driver();
    assert_eq!(d.len(), 4);
    assert_eq!(d.get("a").unwrap().clients, 3);
    assert!(d.get("z").is_none());
    assert!(d.update_by_id("a", listing("a", "game", 4, false)));
    assert_eq!(d.get("a").unwrap().clients, 4);
    assert!(!d.update_by_id("z", listing("z", "game", 4, false)));
    assert!(d.get("z").is_none());
    assert!(d.remove("a"));
    assert!(!d.remove("a"));
    assert_eq!(d.all().len(), 3);
    d.clear();
    assert!(d.is_empty());
}

#[test]
fn a_listing_is_flat() {
    let flat = listing("a", "game", 3, false).to_flat_value();
    assert_eq!(resolve_path(&flat, "roomId"), Some(&j("\"a\"")));
    assert_eq!(resolve_path(&flat, "slug"), Some(&j("\"slug-a\"")));
    assert_eq!(resolve_path(&flat, "maxClients"), Some(&j("4")));
    assert_eq!(resolve_path(&flat, "private"), Some(&j("false")));
}

#[test]
fn pages_follow_each_other() {
    let mut d = LocalDriver::new();
    for (i, id) in ["a", "bb", "ccc", "dddd", "eeeee"].iter().enumerate() {
        d.insert(listing(id, "game", i as u32, false));
    }
    let mut seen: Vec<String> = Vec::new();
    let mut offset: Option<usize> = Some(0);
    while let Some(at) = offset {
        let q = RoomQuery::builder().sort("createdAt".to_string(), false).limit(2).offset(at).build();
        let page = d.query_rooms(&q);
        assert_eq!(page.total, 5);
        seen.extend(page.items.into_iter().map(|l| l.room_id));
        offset = page.next_offset;
    }
    assert_eq!(seen, vec!["a", "bb", "ccc", "dddd", "eeeee"]);
}

#[test]
fn find_one_is_the_first_of_the_query() {
    let d = driver();
    let cond = vec![("name".to_string(), j("\"game\""))];
    let sort = vec![("clients".to_string(), -1)];
    assert_eq!(d.find_one(&cond, Some(&sort)).unwrap().room_id, "a");
    assert!(d.find_one(&vec![("name".to_string(), j("\"none\""))], None).is_none());
}

#[test]
fn not_exists_asks_for_an_absent_field() {
    let (field, c) = parse_condition("locked.notExists", "true").unwrap();
    assert_eq!(field, "locked");
    assert!(matches!(c.op, Op::NotExists) && c.value.is_none());
    assert!(matches!(parse_condition("a.notExists", "false").unwrap().1.op, Op::Exists));
    assert!(matches!(parse_condition("a.exists", "true").unwrap().1.op, Op::Exists));
    assert!(matches!(parse_condition("a.exists", "false").unwrap().1.op, Op::NotExists));
    assert!(parse_condition("a.notExists", "nope").is_err());
}

#[test]
fn following_the_pages_gives_every_room_once() {
    let mut driver = LocalDriver::new();
    for i in 0..7u32 {
        driver.insert(listing(&format!("r{i}"), "game", i, false));
    }
    let mut found = Vec::new();
    let mut offset = Some(0);
    while let Some(o) = offset {
        let query = RoomQuery::builder()
            .name("game".to_string())
            .sort("clients".to_string(), false)
            .limit(3)
            .offset(o)
            .build();
        let page = driver.query_rooms(&query);
        assert_eq!(page.total, 7);
        found.extend(page.items.iter().map(|l| l.room_id.clone()));
        offset = page.next_offset;
    }
    assert_eq!(found, ["r0", "r1", "r2", "r3", "r4", "r5", "r6"]);
}

#[test]
fn pages_hold_rooms_that_no_key_tells_apart() {
    let mut driver = LocalDriver::new();
    for i in 0..7u32 {
        driver.insert(listing(&format!("r{i}"), "game", 1, false));
    }
    for keyed in [false, true] {
        let mut found = Vec::new();
        let mut offset = Some(0);
        while let Some(o) = offset {
            let mut query = RoomQuery::builder().limit(2).offset(o);
            if keyed {
                query = query.sort("clients".to_string(), true);
            }
            let page = driver.query_rooms(&query.build());
            found.extend(page.items.iter().map(|l| l.room_id.clone()));
            offset = page.next_offset;
        }
        found.sort();
        assert_eq!(found, ["r0", "r1", "r2", "r3", "r4", "r5", "r6"]);
    }
}
