use regf::error::{DecodeError, OpenError, RegfError, RootError};
use regf::field::{answered, closed, lookups, opened, succeeded, NativeField, Reply};
use regf::file::RegfFile;
use regf::hive::{Hive, HiveIterator, Phase};
use regf::key::{found_index, RegfKey};
use regf::kv::Key;
use regf::time::{timestamp_from_civil, timestamp_from_raw, Civil};
use regf::value::RegfValue;
use regf::{epoch_to_timestamp, handle_err_and_option};

fn text_field(text: &str) -> NativeField {
    NativeField::present(text.as_bytes().to_vec())
}

fn named_value(name: &str, data: &[u8]) -> RegfValue {
    RegfValue {
        name: text_field(name),
        value_type: Some(3),
        data: NativeField::present(data.to_vec()),
        text: NativeField::absent(),
        strings: None,
    }
}

fn key(name: &str, sub_keys: Vec<RegfKey>, values: Vec<RegfValue>) -> RegfKey {
    RegfKey {
        name: text_field(name),
        class_name: NativeField::absent(),
        security_descriptor: NativeField::absent(),
        last_written: Some(1431648000),
        number_of_sub_keys: Some(sub_keys.len() as i32),
        sub_keys: sub_keys.into_iter().map(Some).collect(),
        number_of_values: Some(values.len() as i32),
        values: values.into_iter().map(Some).collect(),
    }
}

fn leaf(name: &str) -> RegfKey {
    key(name, vec![], vec![])
}

fn file(root: Option<RegfKey>) -> RegfFile {
    RegfFile { path: "hive".to_string(), signature: true, initialized: true, opened: true, root }
}

#[test]
fn a_key_without_values_has_none_to_open() {
    let raw = leaf("empty");
    let k = Key::new(&raw);
    assert_eq!(k.value_count(), Ok(0));
    assert_eq!(k.value(0).err(), Some(DecodeError::NativeCallFailed));
    assert_eq!(k.value(usize::MAX).err(), Some(DecodeError::NativeCallFailed));
    assert_eq!(raw.get_number_of_values().map_err(|e| e.kind), Ok(0));
    assert_eq!(raw.get_value_by_index(0).err().map(|e| e.kind), Some(DecodeError::NativeCallFailed));
}

#[test]
fn values_are_opened_by_index() {
    let mut raw = key(
        "k",
        vec![],
        vec![named_value("", b"d"), named_value("Path", b"p"), named_value("Path", b"q")],
    );
    let k = Key::new(&raw);
    assert_eq!(k.value_count(), Ok(3));
    assert_eq!(k.value(0).unwrap().name(), Ok("(default)".to_string()));
    assert_eq!(k.value(1).unwrap().as_binary(), Ok(b"p".to_vec()));
    assert_eq!(k.value(3).err(), Some(DecodeError::NativeCallFailed));
    assert_eq!(RegfValue::value_by_index(&raw, 2).unwrap().get_binary().map_err(|e| e.kind), Ok(b"q".to_vec()));
    assert_eq!(RegfValue::count(&raw).map_err(|e| e.kind), Ok(3));
    raw.values[1] = None;
    let k = Key::new(&raw);
    assert_eq!(k.value(1).err(), Some(DecodeError::NativeCallFailed));
    assert_eq!(k.value(2).unwrap().as_binary(), Ok(b"q".to_vec()));
}

#[test]
fn a_value_by_name_is_the_one_the_engine_found() {
    let raw = key(
        "k",
        vec![],
        vec![named_value("", b"d"), named_value("Path", b"p"), named_value("Path", b"q")],
    );
    let k = Key::new(&raw);
    assert_eq!(k.value_by_name("path", &Reply::Done(1)).unwrap().as_binary(), Ok(b"p".to_vec()));
    assert_eq!(k.value_by_name("PATH", &Reply::Done(2)).unwrap().as_binary(), Ok(b"q".to_vec()));
    assert_eq!(k.value_by_name("", &Reply::Done(0)).unwrap().name(), Ok("(default)".to_string()));
    assert_eq!(k.value_by_name("Missing", &Reply::Absent).err(), Some(DecodeError::NativeCallFailed));
    assert_eq!(k.value_by_name("Path", &Reply::Failed).err(), Some(DecodeError::NativeCallFailed));
    assert_eq!(k.value_by_name("Path", &Reply::Done(3)).err(), Some(DecodeError::NativeCallFailed));
    let found = raw.get_value_by_name("Path", &Reply::Done(1)).unwrap();
    assert_eq!(found.get_binary().map_err(|e| e.kind), Ok(b"p".to_vec()));
    let err = raw.get_value_by_name("Path", &Reply::Absent).unwrap_err();
    assert_eq!(err.err, "engine call 'key value by name' failed.");
}

#[test]
fn a_value_count_that_failed_or_is_negative_is_an_error() {
    let mut raw = leaf("k");
    raw.number_of_values = None;
    assert_eq!(Key::new(&raw).value_count(), Err(DecodeError::NativeCallFailed));
    raw.number_of_values = Some(-1);
    assert_eq!(Key::new(&raw).value_count(), Err(DecodeError::NativeCallFailed));
    raw.number_of_values = Some(7);
    assert_eq!(Key::new(&raw).value_count(), Ok(7));
}

#[test]
fn all_sub_keys_are_as_many_as_reported() {
    let raw = key("p", vec![leaf("a"), leaf("b"), leaf("c")], vec![]);
    let k = Key::new(&raw);
    let children = k.sub_keys().unwrap();
    assert_eq!(Ok(children.len()), k.sub_keys_len());
    let names: Vec<String> = children.iter().map(|c| c.name().unwrap()).collect();
    assert_eq!(names, vec!["a", "b", "c"]);
    for (i, child) in children.iter().enumerate() {
        assert!(std::ptr::eq(child.inner, raw.sub_keys[i].as_ref().unwrap()));
        assert!(child.path_parts.is_empty());
    }
    assert_eq!(raw.get_sub_keys().unwrap().len(), 3);
    assert_eq!(Key::new(&leaf("l")).sub_keys().unwrap().len(), 0);
}

#[test]
fn sub_keys_fail_as_a_whole() {
    let mut raw = key("p", vec![leaf("a"), leaf("b")], vec![]);
    raw.number_of_sub_keys = Some(3);
    assert_eq!(Key::new(&raw).sub_keys().err(), Some(DecodeError::NativeCallFailed));
    raw.number_of_sub_keys = None;
    assert_eq!(Key::new(&raw).sub_keys().err(), Some(DecodeError::NativeCallFailed));
    assert_eq!(Key::new(&raw).sub_keys_len(), Err(DecodeError::NativeCallFailed));
    raw.number_of_sub_keys = Some(-2);
    assert_eq!(Key::new(&raw).sub_keys_len(), Err(DecodeError::NativeCallFailed));
    assert_eq!(Key::new(&raw).sub_keys().err(), Some(DecodeError::NativeCallFailed));
    assert_eq!(Key::new(&raw).sub_key(0).err(), Some(DecodeError::NativeCallFailed));
    raw.number_of_sub_keys = Some(1);
    assert_eq!(Key::new(&raw).sub_keys().unwrap().len(), 1);
}

#[test]
fn a_sub_key_is_bounds_checked_before_the_lookup() {
    let mut raw = key("p", vec![leaf("a"), leaf("b")], vec![]);
    let k = Key::new(&raw);
    assert_eq!(k.sub_key(1).unwrap().unwrap().name(), Ok("b".to_string()));
    assert!(k.sub_key(2).unwrap().is_none());
    assert!(k.sub_key(usize::MAX).unwrap().is_none());
    assert_eq!(raw.get_sub_key(2).err().map(|e| e.kind), Some(DecodeError::NativeCallFailed));
    raw.number_of_sub_keys = Some(5);
    let k = Key::new(&raw);
    assert_eq!(k.sub_key(4).err(), Some(DecodeError::NativeCallFailed));
    assert!(k.sub_key(5).unwrap().is_none());
    raw.number_of_sub_keys = Some(1);
    assert!(Key::new(&raw).sub_key(1).unwrap().is_none());
    raw.number_of_sub_keys = None;
    assert_eq!(Key::new(&raw).sub_key(0).err(), Some(DecodeError::NativeCallFailed));
}

#[test]
fn optional_texts_tell_absent_from_empty() {
    let mut raw = leaf("k");
    let k = Key::new(&raw);
    assert_eq!(k.class_name(), Ok(None));
    assert_eq!(k.security_descriptor(), Ok(None));
    raw.class_name = text_field("");
    raw.security_descriptor = text_field("O:BAG:SY");
    let k = Key::new(&raw);
    assert_eq!(k.class_name(), Ok(Some(String::new())));
    assert_eq!(k.security_descriptor(), Ok(Some("O:BAG:SY".to_string())));
    raw.class_name = NativeField { size: Reply::Failed, data: Reply::Absent };
    raw.security_descriptor = NativeField::present(vec![0xff]);
    let k = Key::new(&raw);
    assert_eq!(k.class_name(), Err(DecodeError::SizeQueryFailed));
    assert_eq!(k.security_descriptor(), Err(DecodeError::InvalidEncoding));
    assert_eq!(raw.get_class_name().err().map(|e| e.kind), Some(DecodeError::SizeQueryFailed));
}

#[test]
fn a_key_name_follows_the_read_protocol() {
    let mut raw = leaf("Software");
    assert_eq!(Key::new(&raw).name(), Ok("Software".to_string()));
    raw.name = text_field("");
    assert_eq!(Key::new(&raw).name(), Ok(String::new()));
    raw.name = NativeField { size: Reply::Done(3), data: Reply::Failed };
    assert_eq!(Key::new(&raw).name(), Err(DecodeError::ReadFailed));
    raw.name = NativeField { size: Reply::Done(3), data: Reply::Done(b"toolong".to_vec()) };
    assert_eq!(Key::new(&raw).name(), Err(DecodeError::BufferTooSmall));
    raw.name = NativeField::absent();
    assert_eq!(Key::new(&raw).name(), Err(DecodeError::NativeCallFailed));
    let err = raw.get_name().unwrap_err();
    assert_eq!(err.kind, DecodeError::NativeCallFailed);
    assert_eq!(err.err, "engine call 'key name' failed.");
}

#[test]
fn the_last_write_becomes_a_calendar_timestamp() {
    let raw = leaf("k");
    let t = Key::new(&raw).last_modified().unwrap();
    assert_eq!(t.secs, 1431648000);
    assert_eq!(t.civil, Civil { year: 2015, month: 5, day: 15, hour: 0, minute: 0, second: 0 });
    let mut late = leaf("k");
    late.last_written = Some(u64::MAX);
    assert_eq!(Key::new(&late).last_modified(), Err(DecodeError::InvalidTimestamp));
    late.last_written = Some(i64::MAX as u64);
    assert_eq!(Key::new(&late).last_modified(), Err(DecodeError::InvalidTimestamp));
    late.last_written = None;
    assert_eq!(Key::new(&late).last_modified(), Err(DecodeError::NativeCallFailed));
    assert_eq!(late.get_last_written().err().map(|e| e.kind), Some(DecodeError::NativeCallFailed));
}

#[test]
fn epoch_seconds_fall_on_the_right_day() {
    let zero = epoch_to_timestamp(0).unwrap();
    assert_eq!(zero.civil, Civil { year: 1970, month: 1, day: 1, hour: 0, minute: 0, second: 0 });
    let t = epoch_to_timestamp(951782399).unwrap();
    assert_eq!(t.civil, Civil { year: 2000, month: 2, day: 28, hour: 23, minute: 59, second: 59 });
    let before = epoch_to_timestamp(-1).unwrap();
    assert_eq!(before.civil, Civil { year: 1969, month: 12, day: 31, hour: 23, minute: 59, second: 59 });
    assert_eq!(before.secs, -1);
    assert_eq!(epoch_to_timestamp(i64::MIN), Err(DecodeError::InvalidTimestamp));
    assert_eq!(timestamp_from_raw(86400).unwrap().civil.day, 2);
    assert_eq!(timestamp_from_civil(5, None), Err(DecodeError::InvalidTimestamp));
    let c = Civil { year: 1970, month: 1, day: 1, hour: 0, minute: 0, second: 5 };
    assert_eq!(timestamp_from_civil(5, Some(c)).map(|t| (t.secs, t.civil)), Ok((5, c)));
}

#[test]
fn parents_give_the_path() {
    let inner = leaf("x");
    let parents = vec![leaf("ROOT"), leaf("Software")];
    let k = Key::from_parents(&inner, &parents).unwrap();
    assert_eq!(k.path_parts, vec!["ROOT", "Software", "x"]);
    assert_eq!(k.name(), Ok("x".to_string()));
    assert!(std::ptr::eq(k.inner, &inner));
    assert_eq!(Key::from_parents(&inner, &[]).unwrap().path_parts, vec!["x"]);
    let mut bad = leaf("bad");
    bad.name = NativeField { size: Reply::Failed, data: Reply::Failed };
    let mut worse = leaf("worse");
    worse.name = NativeField::present(vec![0xff]);
    let parents = vec![leaf("ROOT"), bad, worse];
    assert_eq!(Key::from_parents(&inner, &parents).err(), Some(DecodeError::SizeQueryFailed));
    let mut nameless = leaf("x");
    nameless.name = NativeField::present(vec![0xff]);
    let parents = vec![leaf("ROOT")];
    assert_eq!(Key::from_parents(&nameless, &parents).err(), Some(DecodeError::InvalidEncoding));
}

#[test]
fn the_engine_s_find_becomes_an_index() {
    let marks = [Some(4096), None, Some(8192), Some(4096)];
    assert!(matches!(found_index(1, Some(8192), &marks), Reply::Done(2)));
    assert!(matches!(found_index(1, Some(4096), &marks), Reply::Done(0)));
    assert!(matches!(found_index(1, Some(1), &marks), Reply::Failed));
    assert!(matches!(found_index(1, None, &marks), Reply::Failed));
    assert!(matches!(found_index(0, Some(8192), &marks), Reply::Absent));
    assert!(matches!(found_index(0, None, &marks), Reply::Absent));
    assert!(matches!(found_index(-1, Some(8192), &marks), Reply::Failed));
    assert!(matches!(found_index(1, Some(0), &[]), Reply::Failed));
}

#[test]
fn a_status_is_read_as_the_engine_means_it() {
    assert!(succeeded(1));
    assert!(!succeeded(0));
    assert!(!succeeded(-1));
    assert!(closed(0));
    assert!(!closed(-1));
    assert!(!closed(1));
    assert!(opened(1, true));
    assert!(!opened(1, false));
    assert!(!opened(0, true));
    assert_eq!(answered(1, 7u32), Some(7));
    assert_eq!(answered(0, 7u32), None);
    assert_eq!(answered(-1, 7u32), None);
    assert!(matches!(Reply::from_status(1, 5usize), Reply::Done(5)));
    assert!(matches!(Reply::from_status(0, 5usize), Reply::Absent));
    assert!(matches!(Reply::from_status(-1, 5usize), Reply::Failed));
    assert!(matches!(Reply::from_status(2, 5usize), Reply::Failed));
    assert_eq!(lookups(&Some(3)), 3);
    assert_eq!(lookups(&Some(0)), 0);
    assert_eq!(lookups(&Some(-4)), 0);
    assert_eq!(lookups(&None), 0);
}

#[test]
fn an_error_wins_over_a_value() {
    assert_eq!(handle_err_and_option(Some(1), Some("e"), "o"), Err("e"));
    assert_eq!(handle_err_and_option(None::<i32>, Some("e"), "o"), Err("e"));
    assert_eq!(handle_err_and_option(Some(1), None, "o"), Ok(1));
    assert_eq!(handle_err_and_option(None::<i32>, None, "o"), Err("o"));
}

#[test]
fn engine_errors_carry_a_message() {
    let none = RegfError::function_returned_none("_key_name");
    assert_eq!(none.kind, DecodeError::InvalidEncoding);
    assert_eq!(none.err, "unsafe function '_key_name' failed, name string returned is None.");
    assert_eq!(
        none.message(),
        "RegfError: unsafe function '_key_name' failed, name string returned is None."
    );
    let failed = RegfError::call_failed(DecodeError::ReadFailed, "read");
    assert_eq!(failed.kind, DecodeError::ReadFailed);
    assert_eq!(failed.err, "engine call 'read' failed.");
    assert_eq!(failed.message(), "RegfError: engine call 'read' failed.");
}

#[test]
fn opening_fails_at_the_first_step_that_fails() {
    let mut f = file(Some(leaf("ROOT")));
    f.opened = false;
    assert_eq!(Hive::from_path("hive", f).err(), Some(OpenError::OpenFailure));
    let mut f = file(Some(leaf("ROOT")));
    f.initialized = false;
    f.opened = false;
    assert_eq!(Hive::from_path("hive", f).err(), Some(OpenError::NativeInitFailure));
    let mut f = file(Some(leaf("ROOT")));
    f.signature = false;
    f.initialized = false;
    assert_eq!(Hive::from_path("hive", f).err(), Some(OpenError::InvalidSignature));
    assert_eq!(RegfFile::open("elsewhere", file(None)).err(), Some(OpenError::InvalidSignature));
    assert!(RegfFile::open("hive", file(None)).is_ok());
}

#[test]
fn a_hive_without_a_root_has_none_to_offer() {
    let hive = Hive::from_path("hive", file(None)).unwrap();
    assert_eq!(hive.root().err(), Some(RootError::RootUnavailable));
    assert_eq!(hive.into_iter().err(), Some(RootError::RootUnavailable));
    let unopened = Hive { file: RegfFile { opened: false, ..file(Some(leaf("ROOT"))) } };
    assert_eq!(unopened.root().err(), Some(RootError::RootUnavailable));
    assert_eq!(unopened.file.root_node().err(), Some(RootError::RootUnavailable));
    let hive = Hive::from_path("hive", file(Some(leaf("ROOT")))).unwrap();
    assert_eq!(hive.root().unwrap().name(), Ok("ROOT".to_string()));
}

#[test]
fn collecting_visits_every_key_once() {
    let tree = key(
        "ROOT",
        vec![
            key("a", vec![leaf("x"), leaf("y")], vec![]),
            key("b", vec![key("x", vec![leaf("z")], vec![])], vec![]),
        ],
        vec![],
    );
    let hive = Hive::from_path("hive", file(Some(tree))).unwrap();
    let mut iter = hive.into_iter().unwrap();
    let keys = iter.collect_keys().unwrap();
    assert_eq!(keys.len(), 7);
    let paths: Vec<String> = keys.iter().map(|k| k.path_parts.join("/")).collect();
    assert_eq!(
        paths,
        vec!["ROOT/a/x", "ROOT/a/y", "ROOT/a", "ROOT/b/x/z", "ROOT/b/x", "ROOT/b", "ROOT"]
    );
    for (i, p) in paths.iter().enumerate() {
        assert!(!paths[..i].contains(p));
    }
    for k in keys.iter() {
        assert_eq!(k.name().ok().as_ref(), k.path_parts.last());
    }
    assert_eq!(iter.phase, Phase::Done);
    assert!(iter.next_key().is_none());
    assert!(iter.collect_keys().unwrap().is_empty());
}

#[test]
fn collecting_stops_at_the_first_failure() {
    let mut b = leaf("b");
    b.number_of_sub_keys = None;
    let tree = key("ROOT", vec![leaf("a"), b], vec![]);
    let hive = Hive::from_path("hive", file(Some(tree))).unwrap();
    let mut iter = HiveIterator::from_hive(&hive).unwrap();
    assert_eq!(iter.collect_keys().err().map(|e| e.cause), Some(DecodeError::NativeCallFailed));
    assert!(iter.next_key().is_none());
}

#[test]
fn the_stack_follows_the_descent() {
    let tree = key("ROOT", vec![key("a", vec![key("a0", vec![leaf("a00")], vec![])], vec![]), leaf("b")], vec![]);
    let hive = Hive::from_path("hive", file(Some(tree))).unwrap();
    let mut iter = hive.into_iter().unwrap();
    let root = hive.root().unwrap();
    assert!(iter.seek_lowest(&root).is_ok());
    assert_eq!(iter.state, vec![0, 0, 0]);
    assert_eq!(iter.generate_path_parts().unwrap(), vec!["ROOT", "a", "a0", "a00"]);
    assert!(std::ptr::eq(
        iter.node(1),
        hive.file.root.as_ref().unwrap().sub_keys[0].as_ref().unwrap()
    ));
    let mut other = hive.into_iter().unwrap();
    let first = root.sub_key(0).unwrap().unwrap();
    assert!(other.set_lowest(&first).is_ok());
    assert_eq!(other.state, vec![0, 0, 0]);
    let lone = Hive::from_path("hive", file(Some(leaf("ROOT")))).unwrap();
    let mut at_leaf = lone.into_iter().unwrap();
    assert!(at_leaf.state.is_empty());
    assert_eq!(at_leaf.phase, Phase::Fresh);
    assert!(at_leaf.seek_lowest(&lone.root().unwrap()).is_ok());
    assert!(at_leaf.state.is_empty());
    assert_eq!(at_leaf.generate_path_parts().unwrap(), vec!["ROOT"]);
}
