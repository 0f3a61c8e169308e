use regf::error::{DecodeError, OpenError, TraversalError};
use regf::field::{NativeField, Reply};
use regf::file::RegfFile;
use regf::hive::Hive;
use regf::key::RegfKey;
use regf::value::{RegfType, RegfValue};

fn text_field(text: &str) -> NativeField {
    NativeField::present(text.as_bytes().to_vec())
}

fn key(name: &str, sub_keys: Vec<RegfKey>) -> RegfKey {
    RegfKey {
        name: text_field(name),
        class_name: NativeField::absent(),
        security_descriptor: NativeField::absent(),
        last_written: Some(0),
        number_of_sub_keys: Some(sub_keys.len() as i32),
        sub_keys: sub_keys.into_iter().map(Some).collect(),
        number_of_values: Some(0),
        values: Vec::new(),
    }
}

fn file(path: &str, root: Option<RegfKey>) -> RegfFile {
    RegfFile { path: path.to_string(), signature: true, initialized: true, opened: true, root }
}

fn missing(path: &str) -> RegfFile {
    RegfFile { path: path.to_string(), signature: false, initialized: false, opened: false, root: None }
}

fn walk(hive: &Hive) -> Vec<Result<Vec<String>, TraversalError>> {
    let mut iter = hive.into_iter().unwrap();
    let mut seen = Vec::new();
    while let Some(item) = iter.next_key() {
        seen.push(item.map(|k| k.path_parts));
    }
    assert!(iter.next_key().is_none());
    seen
}

fn parts(names: &[&str]) -> Result<Vec<String>, TraversalError> {
    Ok(names.iter().map(|s| s.to_string()).collect())
}

fn value(name: &str, tag: u32, data: &[u8]) -> RegfValue {
    RegfValue {
        name: text_field(name),
        value_type: Some(tag),
        data: NativeField::present(data.to_vec()),
        text: NativeField::present(data.to_vec()),
        strings: None,
    }
}

fn recurse(keys: &[&RegfKey], lines: &mut Vec<String>) {
    for key in keys {
        println!("name: {:?}", key.get_name());
        println!("ts: {:?}", key.get_last_written());
        lines.push(format!("{} @{}", key.get_name().unwrap(), key.get_last_written().unwrap()));
        for i in 0..key.get_number_of_values().unwrap() {
            if let Ok(value) = key.get_value_by_index(i) {
                println!("\tname: {:?}", value.get_name());
                println!("\ttype: {:?}", value.get_type());
                match value.get_type() {
                    Ok(RegfType::String) => {
                        println!("\tvalue: {:?}", value.get_string());
                        lines.push(format!("  {} = {}", value.get_name().unwrap(), value.get_string().unwrap()));
                    }
                    Ok(RegfType::ExpandableString) => {
                        println!("\t\tvalue: {:?}", value.get_string());
                        lines.push(format!("  {} = {}", value.get_name().unwrap(), value.get_string().unwrap()));
                    }
                    Ok(RegfType::Binary) => {
                        println!("\t\tvalue: {:?}", value.get_binary());
                        lines.push(format!("  {} = {:?}", value.get_name().unwrap(), value.get_binary().unwrap()));
                    }
                    _ => (),
                }
            }
        }
        if let Ok(ref v) = key.get_sub_keys() {
            recurse(v, lines);
        }
    }
}

#[test]
fn it_works() {
    let path = ".test_data/config/DEFAULT";
    let mut software = key("Software", vec![key("Classes", vec![])]);
    software.values = vec![
        Some(value("", 1, b"C:\\Windows")),
        Some(value("Path", 2, b"%SystemRoot%")),
        Some(value("Blob", 3, &[1, 2, 3])),
        Some(value("Count", 4, &[0x2A, 0, 0, 0])),
    ];
    software.number_of_values = Some(4);
    software.last_written = Some(1431648000);
    let tree = key("ROOT", vec![software, key("System", vec![])]);
    let reg_f = RegfFile::open(path, file(path, Some(tree)));
    let mut lines = Vec::new();
    if let Ok(f) = reg_f {
        if let Ok(ref keys) = f.root_node().unwrap().get_sub_keys() {
            recurse(keys, &mut lines);
        }
    }
    assert_eq!(
        lines,
        vec![
            "Software @1431648000",
            "  (default) = C:\\Windows",
            "  Path = %SystemRoot%",
            "  Blob = [1, 2, 3]",
            "Classes @0",
            "System @0",
        ]
    );
}

#[test]
fn it_works2() {
    let path = ".test_data/config/DEFAULT";
    let tree = key(
        "ROOT",
        vec![key("Software", vec![key("Classes", vec![])]), key("System", vec![])],
    );
    let hive = Hive::from_path(path, file(path, Some(tree))).unwrap();
    let mut iter = hive.into_iter().unwrap();
    let mut seen = Vec::new();
    while let Some(key) = iter.next_key() {
        println!("{:?}", key);
        seen.push(key.unwrap().path_parts.join("\\"));
    }
    assert_eq!(
        seen,
        vec!["ROOT\\Software\\Classes", "ROOT\\Software", "ROOT\\System", "ROOT"]
    );
}

#[test]
fn missing_path_is_an_invalid_signature() {
    let opened = Hive::from_path("no/such/hive", missing("no/such/hive"));
    assert_eq!(opened.err(), Some(OpenError::InvalidSignature));
    let other = Hive::from_path("no/such/hive", file("some/other/hive", Some(key("ROOT", vec![]))));
    assert_eq!(other.err(), Some(OpenError::InvalidSignature));
}

#[test]
fn lone_root_is_visited_once() {
    let hive = Hive::from_path("h", file("h", Some(key("ROOT", vec![])))).unwrap();
    assert_eq!(walk(&hive), vec![parts(&["ROOT"])]);
}

#[test]
fn keys_come_in_post_order_with_the_root_last() {
    let tree = key(
        "ROOT",
        vec![
            key("a", vec![key("a0", vec![]), key("a1", vec![key("a10", vec![])])]),
            key("b", vec![]),
            key("c", vec![key("c0", vec![])]),
        ],
    );
    let hive = Hive::from_path("h", file("h", Some(tree))).unwrap();
    assert_eq!(
        walk(&hive),
        vec![
            parts(&["ROOT", "a", "a0"]),
            parts(&["ROOT", "a", "a1", "a10"]),
            parts(&["ROOT", "a", "a1"]),
            parts(&["ROOT", "a"]),
            parts(&["ROOT", "b"]),
            parts(&["ROOT", "c", "c0"]),
            parts(&["ROOT", "c"]),
            parts(&["ROOT"]),
        ]
    );
}

#[test]
fn a_failed_lookup_ends_the_walk() {
    let mut broken = key("b", vec![]);
    broken.number_of_sub_keys = Some(2);
    let tree = key("ROOT", vec![key("a", vec![]), broken]);
    let hive = Hive::from_path("h", file("h", Some(tree))).unwrap();
    assert_eq!(
        walk(&hive),
        vec![parts(&["ROOT", "a"]), Err(TraversalError { cause: DecodeError::NativeCallFailed })]
    );
}

#[test]
fn a_lookup_that_fails_in_the_middle_ends_the_walk_there() {
    let mut tree = key("ROOT", vec![key("a", vec![]), key("b", vec![]), key("c", vec![])]);
    tree.sub_keys[1] = None;
    let hive = Hive::from_path("h", file("h", Some(tree))).unwrap();
    assert_eq!(
        walk(&hive),
        vec![parts(&["ROOT", "a"]), Err(TraversalError { cause: DecodeError::NativeCallFailed })]
    );
    let root = hive.root().unwrap();
    assert_eq!(root.sub_key(1).err(), Some(DecodeError::NativeCallFailed));
    assert_eq!(root.sub_key(2).unwrap().unwrap().name(), Ok("c".to_string()));
    assert_eq!(root.sub_keys().err(), Some(DecodeError::NativeCallFailed));
}

#[test]
fn an_undecodable_name_ends_the_walk() {
    let mut bad = key("x", vec![]);
    bad.name = NativeField { size: Reply::Done(2), data: Reply::Done(vec![0xff, 0xfe]) };
    let tree = key("ROOT", vec![key("a", vec![]), bad, key("c", vec![])]);
    assert_eq!(tree.sub_keys.len(), 3);
    let hive = Hive::from_path("h", file("h", Some(tree))).unwrap();
    assert_eq!(
        walk(&hive),
        vec![parts(&["ROOT", "a"]), Err(TraversalError { cause: DecodeError::InvalidEncoding })]
    );
}
