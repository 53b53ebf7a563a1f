use updoc::{Integral, Json, Number, Object, Upsert};

#[test]
fn round_trip_i32() {
    let v = (-5i32).to_json_int();
    assert_eq!(v.as_i32(), Some(-5));
    assert!(v.as_i64().is_none());
    assert!(v.as_u32().is_none());
}

#[test]
fn round_trip_i64() {
    let v = (1i64 << 40).to_json_int();
    assert_eq!(v.as_i64(), Some(1i64 << 40));
    assert!(v.as_i32().is_none());
}

#[test]
fn round_trip_u32() {
    let v = 4000000000u32.to_json_int();
    assert_eq!(v.as_u32(), Some(4000000000));
    assert!(v.as_u64().is_none());
}

#[test]
fn round_trip_u64() {
    let v = 18000000000000000000u64.to_json_int();
    assert_eq!(v.as_u64(), Some(18000000000000000000));
    assert!(v.as_u32().is_none());
}

#[test]
fn round_trip_num_integers_keep_their_kind() {
    assert_eq!(3i32.to_json_num().as_i32(), Some(3));
    assert_eq!(3i64.to_json_num().as_i64(), Some(3));
    assert_eq!(3u32.to_json_num().as_u32(), Some(3));
    assert_eq!(3u64.to_json_num().as_u64(), Some(3));
}

#[test]
fn round_trip_f64_bits() {
    let x: f64 = -1.5;
    let v = Json::F64Bits(x.to_bits());
    let bits = v.as_f64_bits().expect("float kind expected");
    assert_eq!(f64::from_bits(bits), -1.5);
    assert!(v.as_u64().is_none());
}

#[test]
fn round_trip_bool_and_str_and_null() {
    let v = Json::Bool(true);
    assert_eq!(v.as_bool(), Some(true));
    assert!(!v.is_null());

    let v = Json::Str(String::from("hello"));
    assert_eq!(v.as_str(), Some("hello"));
    assert!(v.as_bool().is_none());

    let v = Json::Null;
    assert!(v.is_null());
    assert!(v.as_str().is_none());
}

#[test]
fn object_insert_get_and_overwrite() {
    let mut o = Object::new();
    assert_eq!(o.len(), 0);
    assert!(o.get("a").is_none());
    o.insert("a", Json::I32(1));
    o.insert("a", Json::I32(2));
    assert_eq!(o.len(), 1);
    assert_eq!(o.get("a").unwrap().as_i32(), Some(2));
}

#[test]
fn object_keys_iterate_in_lexicographic_order() {
    let mut o = Object::new();
    o.insert("beta", Json::I32(2));
    o.insert("alpha", Json::I32(1));
    o.insert("gamma", Json::I32(3));
    assert_eq!(o.len(), 3);
    assert_eq!(o.key_at(0).as_str(), "alpha");
    assert_eq!(o.key_at(1).as_str(), "beta");
    assert_eq!(o.key_at(2).as_str(), "gamma");
    assert_eq!(o.value_at(0).as_i32(), Some(1));
    assert_eq!(o.value_at(1).as_i32(), Some(2));
    assert_eq!(o.value_at(2).as_i32(), Some(3));
}

#[test]
fn object_remove_drops_the_key() {
    let mut o = Object::new();
    o.insert("a", Json::I32(1));
    o.insert("b", Json::I32(2));
    o.remove("a");
    assert_eq!(o.len(), 1);
    assert!(o.get("a").is_none());
    assert_eq!(o.get("b").unwrap().as_i32(), Some(2));
    o.remove("missing");
    assert_eq!(o.len(), 1);
}

#[test]
fn get_or_create_object_is_idempotent() {
    let mut doc = Object::new();
    doc.object("a");
    let mut inner = doc.take_object("a");
    inner.insert("x", Json::I32(1));
    doc.insert("a", Json::Object(inner));

    doc.object("a");
    let a = doc.get("a").unwrap().as_object().unwrap();
    assert_eq!(a.len(), 1);
    assert_eq!(a.get("x").unwrap().as_i32(), Some(1));
}

#[test]
fn get_or_create_object_discards_scalar() {
    let mut doc = Object::new();
    doc.insert("$inc", Json::I32(5));
    doc.object("$inc");
    let inc = doc.get("$inc").unwrap().as_object().unwrap();
    assert_eq!(inc.len(), 0);
}

#[test]
fn deep_object_builds_two_levels() {
    let mut doc = Object::new();
    doc.deep_object("$push", "tags");
    let push = doc.get("$push").unwrap().as_object().unwrap();
    let tags = push.get("tags").unwrap().as_object().unwrap();
    assert_eq!(tags.len(), 0);
}

#[test]
fn take_object_returns_nested_and_removes_binding() {
    let mut doc = Object::new();
    doc.deep_object("outer", "inner");
    let outer = doc.take_object("outer");
    assert!(doc.get("outer").is_none());
    assert_eq!(outer.len(), 1);
    assert!(outer.get("inner").unwrap().as_object().is_some());

    let fresh = doc.take_object("absent");
    assert_eq!(fresh.len(), 0);
}

#[test]
fn nested_arrays_and_objects_read_back() {
    let mut inner = Object::new();
    inner.insert("k", Json::Str(String::from("v")));
    let arr = vec![Json::I32(1), Json::Object(inner), Json::Null];
    let v = Json::Array(arr);
    let read = v.as_array().unwrap();
    assert_eq!(read.len(), 3);
    assert_eq!(read[0].as_i32(), Some(1));
    let o = read[1].as_object().unwrap();
    assert_eq!(o.get("k").unwrap().as_str(), Some("v"));
    assert!(read[2].is_null());
}
