use updoc::{Json, Object, Update};

fn get_object<'a>(doc: &'a Object, key: &str) -> &'a Object {
    doc.get(key)
        .expect("key should be present")
        .as_object()
        .expect("value should be an object")
}

#[test]
fn it_works() {
}

#[test]
fn field_chain_last_write_wins() {
    let u = Update::new()
        .field("x")
        .increment(5i32)
        .field("x")
        .increment(3i32)
        .done();
    let doc = u.document();
    assert_eq!(doc.len(), 1);
    let inc = get_object(doc, "$inc");
    assert_eq!(inc.len(), 1);
    assert_eq!(inc.get("x").unwrap().as_i32(), Some(3));
}

#[test]
fn increment_aliases_and_kinds() {
    let u = Update::new().field("a").inc(7i64).done();
    let inc = get_object(u.document(), "$inc");
    assert_eq!(inc.get("a").unwrap().as_i64(), Some(7));

    let u = Update::new().field("b").multiply(2u32).done();
    let mul = get_object(u.document(), "$mul");
    assert_eq!(mul.get("b").unwrap().as_u32(), Some(2));

    let u = Update::new().field("c").mul(9u64).done();
    let mul = get_object(u.document(), "$mul");
    assert_eq!(mul.get("c").unwrap().as_u64(), Some(9));
}

#[test]
fn min_max_set_set_on_insert() {
    let u = Update::new()
        .field("age")
        .min(Json::I32(1))
        .field("age")
        .max(Json::I32(99))
        .field("name")
        .set(Json::Str(String::from("ada")))
        .field("count")
        .set_on_insert(Json::I32(0))
        .done();
    let doc = u.document();
    assert_eq!(get_object(doc, "$min").get("age").unwrap().as_i32(), Some(1));
    assert_eq!(get_object(doc, "$max").get("age").unwrap().as_i32(), Some(99));
    assert_eq!(
        get_object(doc, "$set").get("name").unwrap().as_str(),
        Some("ada")
    );
    assert_eq!(
        get_object(doc, "$setOnInsert").get("count").unwrap().as_i32(),
        Some(0)
    );
}

#[test]
fn unset_writes_empty_string_sentinel() {
    let u = Update::new().field("gone").unset().done();
    let unset = get_object(u.document(), "$unset");
    assert_eq!(unset.get("gone").unwrap().as_str(), Some(""));
}

#[test]
fn rename_writes_new_name() {
    let u = Update::new().field("old").rename("new").done();
    let ren = get_object(u.document(), "$rename");
    assert_eq!(ren.get("old").unwrap().as_str(), Some("new"));
}

#[test]
fn current_date_sentinels_are_exact() {
    let u = Update::new().field("when").set_date_now().done();
    let cd = get_object(u.document(), "$currentDate");
    assert_eq!(cd.get("when").unwrap().as_str(), Some("{$type:\"date\"}"));

    let u = Update::new().field("when").set_timestamp_now().done();
    let cd = get_object(u.document(), "$currentDate");
    assert_eq!(
        cd.get("when").unwrap().as_str(),
        Some("{$type:\"timestamp\"}")
    );
}

#[test]
fn bitwise_ops_nest_two_levels() {
    let u = Update::new().field("flags").and(6i32).field("flags").or(1i32).done();
    let bit = get_object(u.document(), "$bit");
    let flags = bit.get("flags").unwrap().as_object().unwrap();
    assert_eq!(flags.len(), 2);
    assert_eq!(flags.get("and").unwrap().as_i32(), Some(6));
    assert_eq!(flags.get("or").unwrap().as_i32(), Some(1));

    let u = Update::new().field("mask").xor(255u32).done();
    let bit = get_object(u.document(), "$bit");
    let mask = bit.get("mask").unwrap().as_object().unwrap();
    assert_eq!(mask.get("xor").unwrap().as_u32(), Some(255));
}

#[test]
fn push_bare_value() {
    let u = Update::new().array("tags").push(Json::Str(String::from("new"))).done();
    let push = get_object(u.document(), "$push");
    assert_eq!(push.get("tags").unwrap().as_str(), Some("new"));
}

#[test]
fn push_all_keeps_order_exactly() {
    let values = vec![Json::I32(1), Json::I32(2), Json::I32(3)];
    let u = Update::new().array("nums").push_all(values).done();
    let slot = get_object(u.document(), "$push").get("nums").unwrap().as_object().unwrap();
    let each = slot.get("$each").unwrap().as_array().unwrap();
    assert_eq!(each.len(), 3);
    assert_eq!(each[0].as_i32(), Some(1));
    assert_eq!(each[1].as_i32(), Some(2));
    assert_eq!(each[2].as_i32(), Some(3));
}

#[test]
fn slice_evicts_bare_push_value() {
    let u = Update::new()
        .array("tags")
        .push(Json::I32(7))
        .slice(10)
        .done();
    let doc = u.document();
    assert_eq!(doc.len(), 1);
    let push = get_object(doc, "$push");
    assert_eq!(push.len(), 1);
    let slot = push.get("tags").unwrap().as_object().unwrap();
    assert_eq!(slot.len(), 2);
    let each = slot.get("$each").unwrap().as_array().unwrap();
    assert_eq!(each.len(), 0);
    assert_eq!(slot.get("$slice").unwrap().as_u32(), Some(10));
}

#[test]
fn slice_keeps_existing_each_entries() {
    let u = Update::new()
        .array("tags")
        .push_all(vec![Json::I32(4)])
        .slice(2)
        .done();
    let slot = get_object(u.document(), "$push").get("tags").unwrap().as_object().unwrap();
    let each = slot.get("$each").unwrap().as_array().unwrap();
    assert_eq!(each.len(), 1);
    assert_eq!(each[0].as_i32(), Some(4));
    assert_eq!(slot.get("$slice").unwrap().as_u32(), Some(2));
}

#[test]
fn sort_by_creates_empty_each() {
    let u = Update::new().array("items").sort_by("age").done();
    let doc = u.document();
    let push = get_object(doc, "$push");
    let slot = push.get("items").unwrap().as_object().unwrap();
    assert_eq!(slot.len(), 2);
    assert_eq!(slot.get("$each").unwrap().as_array().unwrap().len(), 0);
    let sort = slot.get("$sort").unwrap().as_object().unwrap();
    assert_eq!(sort.len(), 1);
    assert_eq!(sort.get("age").unwrap().as_i32(), Some(1));
}

#[test]
fn sort_directions() {
    let u = Update::new().array("a").sort().done();
    let slot = get_object(u.document(), "$push").get("a").unwrap().as_object().unwrap();
    assert_eq!(slot.get("$sort").unwrap().as_i32(), Some(1));

    let u = Update::new().array("a").rev_sort().done();
    let slot = get_object(u.document(), "$push").get("a").unwrap().as_object().unwrap();
    assert_eq!(slot.get("$sort").unwrap().as_i32(), Some(-1));

    let u = Update::new().array("a").rev_sort_by("age").done();
    let slot = get_object(u.document(), "$push").get("a").unwrap().as_object().unwrap();
    let sort = slot.get("$sort").unwrap().as_object().unwrap();
    assert_eq!(sort.get("age").unwrap().as_i32(), Some(-1));
}

#[test]
fn push_at_forces_wrapped_form() {
    let u = Update::new().array("q").push_at(Json::I32(5), 0).done();
    let slot = get_object(u.document(), "$push").get("q").unwrap().as_object().unwrap();
    let each = slot.get("$each").unwrap().as_array().unwrap();
    assert_eq!(each.len(), 1);
    assert_eq!(each[0].as_i32(), Some(5));
    assert_eq!(slot.get("$position").unwrap().as_u32(), Some(0));
}

#[test]
fn push_all_at_wraps_with_position() {
    let u = Update::new()
        .array("q")
        .push_all_at(vec![Json::I32(8), Json::I32(9)], 3)
        .done();
    let slot = get_object(u.document(), "$push").get("q").unwrap().as_object().unwrap();
    let each = slot.get("$each").unwrap().as_array().unwrap();
    assert_eq!(each.len(), 2);
    assert_eq!(each[0].as_i32(), Some(8));
    assert_eq!(each[1].as_i32(), Some(9));
    assert_eq!(slot.get("$position").unwrap().as_u32(), Some(3));
}

#[test]
fn pull_and_pull_all() {
    let u = Update::new().array("xs").pull(Json::I32(4)).done();
    let pull = get_object(u.document(), "$pull");
    assert_eq!(pull.get("xs").unwrap().as_i32(), Some(4));

    let u = Update::new().array("xs").pull_all(vec![Json::I32(1), Json::I32(2)]).done();
    let pull_all = get_object(u.document(), "$pullAll");
    let arr = pull_all.get("xs").unwrap().as_array().unwrap();
    assert_eq!(arr.len(), 2);
    assert_eq!(arr[0].as_i32(), Some(1));
    assert_eq!(arr[1].as_i32(), Some(2));
}

#[test]
fn pop_front_and_back() {
    let u = Update::new().array("xs").pop_front().done();
    let pop = get_object(u.document(), "$pop");
    assert_eq!(pop.get("xs").unwrap().as_i32(), Some(-1));

    let u = Update::new().array("xs").pop_back().done();
    let pop = get_object(u.document(), "$pop");
    assert_eq!(pop.get("xs").unwrap().as_i32(), Some(1));
}

#[test]
fn add_to_set_bare_and_wrapped() {
    let u = Update::new().array("s").add_to_set(Json::I32(3)).done();
    let ats = get_object(u.document(), "$addToSet");
    assert_eq!(ats.get("s").unwrap().as_i32(), Some(3));

    let u = Update::new()
        .array("s")
        .add_all_to_set(vec![Json::I32(1), Json::I32(2)])
        .done();
    let ats = get_object(u.document(), "$addToSet");
    let slot = ats.get("s").unwrap().as_object().unwrap();
    let each = slot.get("$each").unwrap().as_array().unwrap();
    assert_eq!(each.len(), 2);
    assert_eq!(each[0].as_i32(), Some(1));
    assert_eq!(each[1].as_i32(), Some(2));
}

#[test]
fn isolate_sets_marker_and_unisolate_removes_it() {
    let u = Update::new().isolate();
    let doc = u.document();
    assert_eq!(doc.len(), 1);
    assert_eq!(doc.get("$isolated").unwrap().as_i32(), Some(1));

    let u = u.unisolate();
    let doc = u.document();
    assert_eq!(doc.len(), 0);
    assert!(doc.get("$isolated").is_none());
}

#[test]
fn unisolate_without_isolate_is_absent() {
    let u = Update::new().field("x").set(Json::I32(1)).done().unisolate();
    let doc = u.document();
    assert!(doc.get("$isolated").is_none());
    assert_eq!(doc.len(), 1);
}

#[test]
fn mixed_categories_share_one_document() {
    let u = Update::new()
        .field("a")
        .increment(1i32)
        .field("b")
        .set(Json::Bool(true))
        .array("c")
        .push(Json::Null)
        .done();
    let doc = u.document();
    assert_eq!(doc.len(), 3);
    assert_eq!(get_object(doc, "$inc").get("a").unwrap().as_i32(), Some(1));
    assert_eq!(get_object(doc, "$set").get("b").unwrap().as_bool(), Some(true));
    assert!(get_object(doc, "$push").get("c").unwrap().is_null());
}
