use rtoml::datetime::parse;
use rtoml::de::{parse_failure, PyDeserializer, DATETIME_MAPPING_KEY};
use rtoml::document::{from_toml, parse_datetime_literal, to_toml};
use rtoml::error::{ParseError, SerializeError};
use rtoml::host::{HostDateTime, HostKey, HostTime, HostValue, TzInfo};
use rtoml::nesting::nesting_within;
use rtoml::py_type::{classify, Kind, PyTypeLookup};
use rtoml::ser::{any_repr, table_key, SerializePyObject};
use rtoml::toml_io::Float;
use rtoml::value::{Date, DateTimeValue, Offset, Time, TomlValue, MAX_DEPTH};
use rtoml::{
    deserialize, dump, get_version, load, normalize_version, printed, serialize, serialize_pretty,
};

fn s(text: &str) -> HostValue {
    HostValue::Str(text.to_string())
}

fn key(text: &str) -> HostKey {
    HostKey::Str(text.to_string())
}

fn dict(entries: Vec<(HostValue, HostValue)>) -> HostValue {
    HostValue::Dict(
        entries
            .into_iter()
            .map(|(k, v)| {
                let k = match k {
                    HostValue::Str(text) => HostKey::Str(text),
                    HostValue::Bool(b) => HostKey::Bool(b),
                    HostValue::Null => HostKey::Null,
                    HostValue::Int(i) => HostKey::Other { class_name: "int".to_string(), repr: Some(i.to_string()) },
                    other => panic!("no key: {:?}", other),
                };
                (k, v)
            })
            .collect(),
    )
}

fn repeated(name: &str, place: &str) -> ParseError {
    ParseError::DuplicateKey { key: name.to_string(), place: place.to_string() }
}

fn float(x: f64) -> Float {
    Float::new(toml::Value::Float(x)).unwrap()
}

fn entry<'a>(value: &'a HostValue, key: &str) -> &'a HostValue {
    match value {
        HostValue::Dict(entries) => {
            for (k, v) in entries {
                if *k == HostKey::Str(key.to_string()) {
                    return v;
                }
            }
            panic!("no key {}", key)
        }
        _ => panic!("not a mapping"),
    }
}

fn equivalent(a: &HostValue, b: &HostValue) -> bool {
    match (a, b) {
        (HostValue::Dict(x), HostValue::Dict(y)) => {
            x.len() == y.len()
                && x.iter().all(|(k, v)| {
                    y.iter().filter(|(k2, _)| k2 == k).count() == 1
                        && y.iter().any(|(k2, v2)| k2 == k && equivalent(v, v2))
                })
        }
        (HostValue::List(x), HostValue::List(y)) => {
            x.len() == y.len() && x.iter().zip(y.iter()).all(|(v, w)| equivalent(v, w))
        }
        _ => a == b,
    }
}

fn keys(value: &HostValue) -> Vec<String> {
    match value {
        HostValue::Dict(entries) => entries
            .iter()
            .map(|(k, _)| match k {
                HostKey::Str(text) => text.clone(),
                _ => panic!("key is not a string"),
            })
            .collect(),
        _ => panic!("not a mapping"),
    }
}

#[test]
fn round_trip_of_a_representative_document() {
    let text = "title = \"example\"\ncount = 3\nratio = 1.5\nenabled = true\nports = [8001, 8002]\n\n[owner]\nname = \"Lisa\"\n\n[[servers]]\nhost = \"alpha\"\n\n[[servers]]\nhost = \"beta\"\n";
    let first = deserialize(text, None).unwrap();
    let written = serialize(&first, None).unwrap();
    let second = deserialize(&written, None).unwrap();
    assert!(equivalent(&first, &second));
    assert_eq!(keys(&first), vec!["title", "count", "ratio", "enabled", "ports", "owner", "servers"]);
    assert_eq!(keys(&second), vec!["title", "count", "ratio", "enabled", "ports", "servers", "owner"]);
    let third = deserialize(&serialize(&second, None).unwrap(), None).unwrap();
    assert_eq!(second, third);
    assert_eq!(entry(&first, "title"), &s("example"));
    assert_eq!(entry(&first, "count"), &HostValue::Int(3));
    assert_eq!(entry(&first, "ratio"), &HostValue::Float(float(1.5)));
    assert_eq!(entry(&first, "enabled"), &HostValue::Bool(true));
    assert_eq!(
        entry(&first, "ports"),
        &HostValue::List(vec![HostValue::Int(8001), HostValue::Int(8002)])
    );
    assert_eq!(entry(entry(&first, "owner"), "name"), &s("Lisa"));
    match entry(&first, "servers") {
        HostValue::List(servers) => {
            assert_eq!(servers.len(), 2);
            assert_eq!(entry(&servers[1], "host"), &s("beta"));
        }
        _ => panic!("servers is not a list"),
    }
}

#[test]
fn round_trip_in_the_pretty_form() {
    let text = "name = \"x\"\nitems = [1, 2, 3]\n\n[inner]\nflag = false\n";
    let first = deserialize(text, None).unwrap();
    let written = serialize_pretty(&first, None).unwrap();
    let second = deserialize(&written, None).unwrap();
    assert_eq!(first, second);
}

#[test]
fn pretty_and_compact_forms_differ_in_layout_only() {
    let value = dict(vec![(
        s("items"),
        HostValue::List(vec![HostValue::Int(1), HostValue::Int(2)]),
    )]);
    let compact = serialize(&value, None).unwrap();
    let pretty = serialize_pretty(&value, None).unwrap();
    assert_eq!(compact, "items = [1, 2]\n");
    assert_eq!(pretty, "items = [\n    1,\n    2,\n]\n");
}

#[test]
fn duplicate_key_in_text_is_rejected() {
    let r = deserialize("a = 1\na = 2", None);
    assert_eq!(r, Err(repeated("a", " at line 1 column 1")));
    assert_eq!(r.unwrap_err().message(), "duplicate key: `a` at line 1 column 1");
}

#[test]
fn duplicate_key_in_a_nested_table_is_rejected() {
    match deserialize("[t]\nx = 1\ny = 2\nx = 3\n", None) {
        Err(ParseError::DuplicateKey { key, place }) => {
            assert_eq!(key, "x");
            assert!(place.starts_with(" for key `t`") || place.starts_with(" at line "), "{}", place);
        }
        other => panic!("unexpected {:?}", other),
    }
}

#[test]
fn duplicate_key_in_a_document_tree_is_rejected() {
    let document = TomlValue::Table(vec![
        ("a".to_string(), TomlValue::Integer(1)),
        ("b".to_string(), TomlValue::Integer(2)),
        ("a".to_string(), TomlValue::Integer(3)),
    ]);
    let r = PyDeserializer::new(None).deserialize(&document);
    assert_eq!(r, Err(repeated("a", "")));
}

#[test]
fn first_failure_in_document_order_wins() {
    let bad_date = DateTimeValue { date: None, time: None, offset: None };
    let document = TomlValue::Table(vec![
        ("a".to_string(), TomlValue::Integer(1)),
        ("d".to_string(), TomlValue::Datetime(bad_date)),
        ("a".to_string(), TomlValue::Integer(3)),
    ]);
    let r = PyDeserializer::new(None).deserialize(&document);
    assert_eq!(r, Err(ParseError::InvalidDatetime));
}

#[test]
fn syntax_error_carries_the_message_of_the_parser() {
    match deserialize("a = ", None) {
        Err(ParseError::Syntax(message)) => assert!(message.contains("line 1")),
        other => panic!("unexpected {:?}", other),
    }
}

#[test]
fn failure_kind_is_read_off_the_message() {
    assert_eq!(
        parse_failure("duplicate key: `name` for key `a.b` at line 3 column 1".to_string()),
        repeated("name", " for key `a.b` at line 3 column 1")
    );
    assert_eq!(
        parse_failure("duplicate key: `a`b` at line 1 column 1".to_string()),
        repeated("a`b", " at line 1 column 1")
    );
    assert_eq!(parse_failure("duplicate key: `a`b`".to_string()), repeated("a`b", ""));
    assert_eq!(
        parse_failure("duplicate key: `a` b` for key `t` at line 9 column 1".to_string()),
        repeated("a` b", " for key `t` at line 9 column 1")
    );
    assert_eq!(
        parse_failure("duplicate key: `a` and more".to_string()),
        ParseError::Syntax("duplicate key: `a` and more".to_string())
    );
    for message in ["duplicate key: `k` at line 2 column 1", "duplicate key: `a`b`", "boom", "duplicate key: `"] {
        assert_eq!(parse_failure(message.to_string()).message(), message);
    }
    assert_eq!(
        parse_failure("duplicate key: `".to_string()),
        ParseError::Syntax("duplicate key: `".to_string())
    );
    assert_eq!(
        parse_failure("expected an equals, found eof at line 1 column 2".to_string()),
        ParseError::Syntax("expected an equals, found eof at line 1 column 2".to_string())
    );
    assert_eq!(parse_failure("duplicate key: ``".to_string()), repeated("", ""));
}

#[test]
fn load_takes_what_the_parser_made() {
    let mut table = toml::map::Map::new();
    table.insert("k".to_string(), toml::Value::String("v".to_string()));
    assert_eq!(load(Ok(toml::Value::Table(table)), None), Ok(dict(vec![(s("k"), s("v"))])));
    assert_eq!(
        load(Err("duplicate key: `k` at line 2 column 1".to_string()), None),
        Err(repeated("k", " at line 2 column 1"))
    );
    let mut deep = toml::Value::Integer(0);
    for _ in 0..MAX_DEPTH {
        deep = toml::Value::Array(vec![deep]);
    }
    assert!(load(Ok(deep.clone()), None).is_ok());
    assert_eq!(load(Ok(toml::Value::Array(vec![deep])), None), Err(ParseError::TooDeep));
    assert_eq!(load(Err("boom".to_string()), None), Err(ParseError::Syntax("boom".to_string())));
}

#[test]
fn key_grouping_puts_scalars_then_arrays_then_tables() {
    let value = dict(vec![
        (s("scalar"), HostValue::Int(1)),
        (s("table"), dict(vec![(s("x"), HostValue::Int(2))])),
        (s("array"), HostValue::List(vec![HostValue::Int(3), HostValue::Int(4)])),
    ]);
    let document = dump(&value, None).unwrap();
    match &document {
        TomlValue::Table(entries) => {
            let order: Vec<&str> = entries.iter().map(|(k, _)| k.as_str()).collect();
            assert_eq!(order, vec!["scalar", "array", "table"]);
        }
        _ => panic!("not a table"),
    }
    let text = serialize(&value, None).unwrap();
    assert_eq!(text, "scalar = 1\narray = [3, 4]\n\n[table]\nx = 2\n");
    let back = deserialize(&text, None).unwrap();
    assert_eq!(keys(&back), vec!["scalar", "array", "table"]);
    assert_eq!(entry(&back, "scalar"), entry(&value, "scalar"));
    assert_eq!(entry(&back, "array"), entry(&value, "array"));
    assert_eq!(entry(&back, "table"), entry(&value, "table"));
}

#[test]
fn key_grouping_keeps_the_order_within_a_group() {
    let value = dict(vec![
        (s("t2"), dict(vec![])),
        (s("z"), HostValue::Int(1)),
        (s("l2"), HostValue::Tuple(vec![HostValue::Int(1)])),
        (s("t1"), dict(vec![])),
        (s("a"), s("x")),
        (s("bytes"), HostValue::Bytes(vec![1, 2])),
        (s("l1"), HostValue::List(vec![])),
    ]);
    match dump(&value, None).unwrap() {
        TomlValue::Table(entries) => {
            let order: Vec<&str> = entries.iter().map(|(k, _)| k.as_str()).collect();
            assert_eq!(order, vec!["z", "a", "bytes", "l2", "l1", "t2", "t1"]);
        }
        _ => panic!("not a table"),
    }
}

#[test]
fn datetime_with_offset_round_trips() {
    let value = deserialize("dt = 2024-03-01T10:00:00+02:30", None).unwrap();
    let dt = match entry(&value, "dt") {
        HostValue::DateTime(dt) => *dt,
        other => panic!("unexpected {:?}", other),
    };
    assert_eq!(dt.date, Date { year: 2024, month: 3, day: 1 });
    assert_eq!(dt.time, HostTime { hour: 10, minute: 0, second: 0, microsecond: 0 });
    let tz = dt.tzinfo.unwrap();
    assert_eq!(tz, TzInfo { hours: 2, minutes: 30 });
    assert_eq!(tz.tzname(), "UTC+02:30");
    let text = serialize(&value, None).unwrap();
    assert_eq!(text, "dt = 2024-03-01T10:00:00+02:30\n");
    let again = deserialize(&text, None).unwrap();
    assert_eq!(again, value);
}

#[test]
fn datetime_with_zulu_round_trips() {
    let value = deserialize("dt = 2024-03-01T10:00:00Z", None).unwrap();
    let dt = match entry(&value, "dt") {
        HostValue::DateTime(dt) => *dt,
        other => panic!("unexpected {:?}", other),
    };
    let tz = dt.tzinfo.unwrap();
    assert_eq!(tz, TzInfo { hours: 0, minutes: 0 });
    assert_eq!(tz.tzname(), "UTC");
    assert_eq!(serialize(&value, None).unwrap(), "dt = 2024-03-01T10:00:00Z\n");
}

#[test]
fn the_four_shapes_of_a_datetime() {
    let value = deserialize(
        "a = 1979-05-27T07:32:00-08:00\nb = 1979-05-27T07:32:00\nc = 1979-05-27\nd = 07:32:00\n",
        None,
    )
    .unwrap();
    match entry(&value, "a") {
        HostValue::DateTime(dt) => assert_eq!(dt.tzinfo, Some(TzInfo { hours: -8, minutes: 0 })),
        other => panic!("unexpected {:?}", other),
    }
    match entry(&value, "b") {
        HostValue::DateTime(dt) => assert_eq!(dt.tzinfo, None),
        other => panic!("unexpected {:?}", other),
    }
    assert_eq!(entry(&value, "c"), &HostValue::Date(Date { year: 1979, month: 5, day: 27 }));
    assert_eq!(
        entry(&value, "d"),
        &HostValue::Time(HostTime { hour: 7, minute: 32, second: 0, microsecond: 0 })
    );
    let text = serialize(&value, None).unwrap();
    assert_eq!(
        text,
        "a = 1979-05-27T07:32:00-08:00\nb = 1979-05-27T07:32:00\nc = 1979-05-27\nd = 07:32:00\n"
    );
}

#[test]
fn fractional_seconds_are_truncated() {
    let value = deserialize("t = 10:00:00.123456789", None).unwrap();
    assert_eq!(
        entry(&value, "t"),
        &HostValue::Time(HostTime { hour: 10, minute: 0, second: 0, microsecond: 123456 })
    );
    let d = DateTimeValue {
        date: None,
        time: Some(Time { hour: 1, minute: 2, second: 3, nanosecond: 999_999_999 }),
        offset: None,
    };
    assert_eq!(
        parse(&d),
        Ok(HostValue::Time(HostTime { hour: 1, minute: 2, second: 3, microsecond: 999_999 }))
    );
    assert_eq!(serialize(&value, None).unwrap(), "t = 10:00:00.123456\n");
}

#[test]
fn datetime_bridge_rejects_what_does_not_exist() {
    let nothing = DateTimeValue { date: None, time: None, offset: None };
    assert_eq!(parse(&nothing), Err(ParseError::InvalidDatetime));
    let february = DateTimeValue {
        date: Some(Date { year: 2023, month: 2, day: 29 }),
        time: None,
        offset: None,
    };
    assert_eq!(parse(&february), Err(ParseError::InvalidDatetime));
    let leap = DateTimeValue {
        date: Some(Date { year: 2024, month: 2, day: 29 }),
        time: None,
        offset: None,
    };
    assert_eq!(parse(&leap), Ok(HostValue::Date(Date { year: 2024, month: 2, day: 29 })));
    let century = DateTimeValue {
        date: Some(Date { year: 1900, month: 2, day: 29 }),
        time: None,
        offset: None,
    };
    assert_eq!(parse(&century), Err(ParseError::InvalidDatetime));
    let year_zero = DateTimeValue {
        date: Some(Date { year: 0, month: 1, day: 1 }),
        time: None,
        offset: None,
    };
    assert_eq!(parse(&year_zero), Err(ParseError::InvalidDatetime));
    let wide_offset = DateTimeValue {
        date: Some(Date { year: 2024, month: 1, day: 1 }),
        time: Some(Time { hour: 0, minute: 0, second: 0, nanosecond: 0 }),
        offset: Some(Offset::Custom { hours: 1, minutes: 60 }),
    };
    assert_eq!(parse(&wide_offset), Err(ParseError::InvalidDatetime));
    let date_with_offset = DateTimeValue {
        date: Some(Date { year: 2024, month: 1, day: 1 }),
        time: None,
        offset: Some(Offset::Z),
    };
    assert_eq!(parse(&date_with_offset), Ok(HostValue::Date(Date { year: 2024, month: 1, day: 1 })));
}

#[test]
fn encoding_rejects_a_date_that_does_not_exist() {
    let value = dict(vec![(s("d"), HostValue::Date(Date { year: 2024, month: 13, day: 1 }))]);
    assert_eq!(serialize(&value, None), Err(SerializeError::InvalidDatetime));
    let t = HostValue::Time(HostTime { hour: 24, minute: 0, second: 0, microsecond: 0 });
    assert_eq!(dump(&t, None), Err(SerializeError::InvalidDatetime));
    let dt = HostValue::DateTime(HostDateTime {
        date: Date { year: 2024, month: 1, day: 1 },
        time: HostTime { hour: 1, minute: 0, second: 0, microsecond: 1_000_000 },
        tzinfo: None,
    });
    assert_eq!(dump(&dt, None), Err(SerializeError::InvalidDatetime));
}

#[test]
fn encoding_turns_microseconds_into_nanoseconds() {
    let dt = HostValue::DateTime(HostDateTime {
        date: Date { year: 2024, month: 1, day: 2 },
        time: HostTime { hour: 3, minute: 4, second: 5, microsecond: 123456 },
        tzinfo: Some(TzInfo { hours: 0, minutes: 0 }),
    });
    let expected = DateTimeValue {
        date: Some(Date { year: 2024, month: 1, day: 2 }),
        time: Some(Time { hour: 3, minute: 4, second: 5, nanosecond: 123_456_000 }),
        offset: Some(Offset::Z),
    };
    assert_eq!(dump(&dt, None), Ok(TomlValue::Datetime(expected)));
}

#[test]
fn timezone_names() {
    assert_eq!(TzInfo::new(0, 0).tzname(), "UTC");
    assert_eq!(TzInfo::new(2, 30).tzname(), "UTC+02:30");
    assert_eq!(TzInfo::new(-5, 0).tzname(), "UTC-05:00");
    assert_eq!(TzInfo::new(12, 5).tzname(), "UTC+12:05");
    assert_eq!(TzInfo::new(0, 30).tzname(), "UTC+00:30");
    assert_eq!(TzInfo::new(-128, 255).tzname(), "UTC-128:255");
    assert_eq!(TzInfo::new(127, 100).tzname(), "UTC+127:100");
    assert_eq!(TzInfo::new(2, 30).repr(), "TzInfo(UTC+02:30)");
    assert_eq!(TzInfo::new(0, 0).repr(), "TzInfo(UTC)");
}

#[test]
fn timezone_offsets() {
    assert_eq!(TzInfo::new(2, 30).seconds(), 9000);
    assert_eq!(TzInfo::new(-8, 0).seconds(), -28800);
    assert_eq!(TzInfo::new(-2, 30).utcoffset(), -9000);
    assert_eq!(TzInfo::new(-2, 30).seconds(), -9000);
    assert_eq!(TzInfo::from_seconds(-9000), Some(TzInfo::new(-2, 30)));
    assert_eq!(TzInfo::new(0, 0).utcoffset(), 0);
    assert_eq!(TzInfo::new(5, 45).dst(), None);
}

#[test]
fn null_is_dropped_without_a_surrogate() {
    let value = dict(vec![(s("a"), HostValue::Null), (s("b"), HostValue::Int(1))]);
    assert_eq!(serialize(&value, None).unwrap(), "b = 1\n");
    let list = dict(vec![(
        s("l"),
        HostValue::List(vec![HostValue::Int(1), HostValue::Null, HostValue::Int(2)]),
    )]);
    assert_eq!(serialize(&list, None).unwrap(), "l = [1, 2]\n");
}

#[test]
fn null_is_written_as_the_surrogate() {
    let value = dict(vec![(s("a"), HostValue::Null), (s("b"), HostValue::Int(1))]);
    assert_eq!(serialize(&value, Some("None")).unwrap(), "a = \"None\"\nb = 1\n");
    let list = dict(vec![(
        s("l"),
        HostValue::List(vec![s("x"), HostValue::Null]),
    )]);
    assert_eq!(serialize(&list, Some("None")).unwrap(), "l = [\"x\", \"None\"]\n");
}

#[test]
fn surrogate_is_read_as_null() {
    let value = deserialize("a = \"None\"\nb = \"none\"", Some("None")).unwrap();
    assert_eq!(entry(&value, "a"), &HostValue::Null);
    assert_eq!(entry(&value, "b"), &s("none"));
    let plain = deserialize("a = \"None\"", None).unwrap();
    assert_eq!(entry(&plain, "a"), &s("None"));
    let walker = PyDeserializer::new(Some("nil"));
    assert_eq!(walker.visit_str("nil"), HostValue::Null);
    assert_eq!(walker.visit_str("nil "), s("nil "));
    assert_eq!(walker.visit_unit(), HostValue::Null);
    assert_eq!(walker.visit_bool(true), HostValue::Bool(true));
    assert_eq!(walker.visit_i64(-7), HostValue::Int(-7));
    assert_eq!(walker.visit_f64(float(0.25)), HostValue::Float(float(0.25)));
}

#[test]
fn null_at_the_top_is_a_string() {
    assert_eq!(dump(&HostValue::Null, None), Ok(TomlValue::String("null".to_string())));
    assert_eq!(dump(&HostValue::Null, Some("nil")), Ok(TomlValue::String("nil".to_string())));
}

#[test]
fn unknown_type_is_not_serializable() {
    let value = dict(vec![(
        s("x"),
        HostValue::Other { class_name: "Decimal".to_string(), repr: Some("Decimal('1')".to_string()) },
    )]);
    let e = serialize(&value, None).unwrap_err();
    assert_eq!(
        e,
        SerializeError::UnserializableType {
            class_name: "Decimal".to_string(),
            repr: Some("Decimal('1')".to_string()),
        }
    );
    assert_eq!(e.message(), "Decimal('1') (Decimal) is not serializable to TOML");
    let bare = HostValue::Other { class_name: "Thing".to_string(), repr: None };
    let e = dump(&bare, None).unwrap_err();
    assert_eq!(e.message(), "Thing is not serializable to TOML");
    assert_eq!(classify(&bare), Kind::Unknown);
}

#[test]
fn keys_of_a_mapping() {
    assert_eq!(table_key(&key("k"), None), Ok("k".to_string()));
    assert_eq!(table_key(&HostKey::Bool(true), None), Ok("true".to_string()));
    assert_eq!(table_key(&HostKey::Bool(false), None), Ok("false".to_string()));
    assert_eq!(table_key(&HostKey::Null, Some("nil")), Ok("nil".to_string()));
    assert_eq!(
        table_key(&HostKey::Null, None),
        Err(SerializeError::UnserializableKey("None (NoneType)".to_string()))
    );
    let one = HostKey::Other { class_name: "int".to_string(), repr: Some("1".to_string()) };
    let e = table_key(&one, Some("None")).unwrap_err();
    assert_eq!(e, SerializeError::UnserializableKey("1 (int)".to_string()));
    assert_eq!(e.message(), "1 (int) is not serializable as a TOML key");
    let odd = HostKey::Other { class_name: "Path".to_string(), repr: Some("Path('a')".to_string()) };
    assert_eq!(
        table_key(&odd, None),
        Err(SerializeError::UnserializableKey("Path('a') (Path)".to_string()))
    );
    assert_eq!(any_repr(&odd), "Path('a') (Path)");
    let bare = HostKey::Other { class_name: "Thing".to_string(), repr: None };
    assert_eq!(any_repr(&bare), "Thing");
    assert_eq!(any_repr(&HostKey::Bool(true)), "True (bool)");
    assert_eq!(any_repr(&key("k")), "k (str)");
}

#[test]
fn null_key_needs_a_surrogate() {
    let value = dict(vec![(HostValue::Null, HostValue::Int(1))]);
    assert_eq!(
        serialize(&value, None),
        Err(SerializeError::UnserializableKey("None (NoneType)".to_string()))
    );
    assert_eq!(serialize(&value, Some("nil")).unwrap(), "nil = 1\n");
    let dropped = dict(vec![(HostValue::Null, HostValue::Null)]);
    assert_eq!(dump(&dropped, None), Ok(TomlValue::Table(vec![])));
}

#[test]
fn keys_that_collide_are_rejected() {
    let value = dict(vec![
        (HostValue::Bool(true), HostValue::Int(1)),
        (s("true"), HostValue::Int(2)),
    ]);
    let e = serialize(&value, None).unwrap_err();
    assert_eq!(e, SerializeError::DuplicateKey("true".to_string()));
    assert_eq!(e.message(), "duplicate key: `true`");
    let across = dict(vec![
        (s("k"), dict(vec![])),
        (s("k"), HostValue::Int(2)),
    ]);
    assert_eq!(dump(&across, None), Err(SerializeError::DuplicateKey("k".to_string())));
}

#[test]
fn bytes_are_an_array_of_integers() {
    let value = dict(vec![(s("b"), HostValue::Bytes(vec![0, 127, 255]))]);
    assert_eq!(serialize(&value, None).unwrap(), "b = [0, 127, 255]\n");
}

#[test]
fn tuples_are_arrays() {
    let value = dict(vec![(
        s("t"),
        HostValue::Tuple(vec![HostValue::Int(1), HostValue::Int(2)]),
    )]);
    let text = serialize(&value, None).unwrap();
    assert_eq!(text, "t = [1, 2]\n");
    let back = deserialize(&text, None).unwrap();
    assert_eq!(entry(&back, "t"), &HostValue::List(vec![HostValue::Int(1), HostValue::Int(2)]));
}

#[test]
fn writer_writes_one_node() {
    let value = HostValue::List(vec![HostValue::Bool(true), HostValue::Null, s("x")]);
    let writer = SerializePyObject::new(&value, None);
    assert_eq!(
        writer.serialize(),
        Ok(TomlValue::Array(vec![TomlValue::Boolean(true), TomlValue::String("x".to_string())]))
    );
    let writer = SerializePyObject::new(&value, Some("~"));
    assert_eq!(
        writer.serialize(),
        Ok(TomlValue::Array(vec![
            TomlValue::Boolean(true),
            TomlValue::String("~".to_string()),
            TomlValue::String("x".to_string()),
        ]))
    );
}

#[test]
fn first_failure_in_the_order_of_writing_wins() {
    let unknown = HostValue::Other { class_name: "X".to_string(), repr: None };
    let value = dict(vec![
        (s("t"), dict(vec![(HostValue::Int(1), HostValue::Int(1))])),
        (s("s"), unknown),
    ]);
    assert_eq!(
        dump(&value, None),
        Err(SerializeError::UnserializableType { class_name: "X".to_string(), repr: None })
    );
    let key_first = dict(vec![(
        HostValue::Int(1),
        HostValue::Other { class_name: "X".to_string(), repr: None },
    )]);
    assert_eq!(dump(&key_first, None), Err(SerializeError::UnserializableKey("1 (int)".to_string())));
}

fn nested_lists(depth: usize) -> HostValue {
    let mut value = HostValue::List(vec![]);
    for _ in 1..depth {
        value = HostValue::List(vec![value]);
    }
    value
}

fn nested_arrays(depth: usize) -> TomlValue {
    let mut value = TomlValue::Array(vec![]);
    for _ in 1..depth {
        value = TomlValue::Array(vec![value]);
    }
    value
}

#[test]
fn nesting_is_limited_when_writing() {
    assert!(dump(&nested_lists(MAX_DEPTH), None).is_ok());
    let e = dump(&nested_lists(MAX_DEPTH + 1), None).unwrap_err();
    assert_eq!(e, SerializeError::TooDeep);
    assert_eq!(e.message(), "value is nested too deeply");
    let inside = dict(vec![(s("k"), nested_lists(MAX_DEPTH))]);
    assert_eq!(serialize(&inside, None), Err(SerializeError::TooDeep));
    let fits = dict(vec![(s("k"), nested_lists(MAX_DEPTH - 1))]);
    assert!(serialize(&fits, None).is_ok());
}

#[test]
fn nesting_is_limited_when_reading() {
    let walker = PyDeserializer::new(None);
    assert!(walker.deserialize(&nested_arrays(MAX_DEPTH)).is_ok());
    let e = walker.deserialize(&nested_arrays(MAX_DEPTH + 1)).unwrap_err();
    assert_eq!(e, ParseError::TooDeep);
    assert_eq!(e.message(), "document is nested too deeply");
    let mut text = String::from("a = ");
    for _ in 0..MAX_DEPTH {
        text.push('[');
    }
    for _ in 0..MAX_DEPTH {
        text.push(']');
    }
    assert_eq!(deserialize(&text, None), Err(ParseError::TooDeep));
}

#[test]
fn reserved_key_stands_for_a_datetime() {
    let walker = PyDeserializer::new(None);
    let table = TomlValue::Table(vec![(
        DATETIME_MAPPING_KEY.to_string(),
        TomlValue::String("2024-03-01T10:00:00.5+02:30".to_string()),
    )]);
    assert_eq!(
        walker.deserialize(&table),
        Ok(HostValue::DateTime(HostDateTime {
            date: Date { year: 2024, month: 3, day: 1 },
            time: HostTime { hour: 10, minute: 0, second: 0, microsecond: 500_000 },
            tzinfo: Some(TzInfo { hours: 2, minutes: 30 }),
        }))
    );
    let date_only = TomlValue::Table(vec![
        (DATETIME_MAPPING_KEY.to_string(), TomlValue::String("1979-05-27".to_string())),
        ("other".to_string(), TomlValue::Integer(1)),
    ]);
    assert_eq!(
        walker.deserialize(&date_only),
        Ok(HostValue::Date(Date { year: 1979, month: 5, day: 27 }))
    );
    let garbage = TomlValue::Table(vec![(
        DATETIME_MAPPING_KEY.to_string(),
        TomlValue::String("yesterday".to_string()),
    )]);
    assert_eq!(walker.deserialize(&garbage), Err(ParseError::InvalidDatetime));
    let not_text = TomlValue::Table(vec![(DATETIME_MAPPING_KEY.to_string(), TomlValue::Integer(5))]);
    assert_eq!(walker.deserialize(&not_text), Err(ParseError::InvalidDatetime));
    let later = TomlValue::Table(vec![
        ("first".to_string(), TomlValue::Integer(1)),
        (DATETIME_MAPPING_KEY.to_string(), TomlValue::String("1979-05-27".to_string())),
    ]);
    assert_eq!(
        walker.deserialize(&later),
        Ok(dict(vec![(s("first"), HostValue::Int(1)), (s(DATETIME_MAPPING_KEY), s("1979-05-27"))]))
    );
}

#[test]
fn reserved_key_payload_equal_to_the_surrogate_is_no_datetime() {
    let walker = PyDeserializer::new(Some("1979-05-27"));
    let table = TomlValue::Table(vec![(
        DATETIME_MAPPING_KEY.to_string(),
        TomlValue::String("1979-05-27".to_string()),
    )]);
    assert_eq!(walker.deserialize(&table), Err(ParseError::InvalidDatetime));
}

#[test]
fn empty_containers() {
    assert_eq!(deserialize("", None), Ok(dict(vec![])));
    assert_eq!(serialize(&dict(vec![]), None).unwrap(), "");
    let value = deserialize("a = []\n[t]\n", None).unwrap();
    assert_eq!(entry(&value, "a"), &HostValue::List(vec![]));
    assert_eq!(entry(&value, "t"), &dict(vec![]));
}

#[test]
fn floats_pass_through_unchanged() {
    let value = deserialize("x = 0.1\ny = -2.5e10\nz = inf\n", None).unwrap();
    match entry(&value, "x") {
        HostValue::Float(f) => assert_eq!(f.to_toml().as_float(), Some(0.1)),
        other => panic!("unexpected {:?}", other),
    }
    match entry(&value, "z") {
        HostValue::Float(f) => assert_eq!(f.to_toml().as_float(), Some(f64::INFINITY)),
        other => panic!("unexpected {:?}", other),
    }
    let text = serialize(&value, None).unwrap();
    assert_eq!(deserialize(&text, None).unwrap(), value);
    assert!(Float::new(toml::Value::Integer(1)).is_none());
    assert!(Float::new(toml::Value::String("1.0".to_string())).is_none());
    let one = float(1.0);
    assert_eq!(one.duplicate(), one);
    assert_eq!(serialize(&dict(vec![(s("f"), HostValue::Float(float(1.0)))]), None).unwrap(), "f = 1.0\n");
}

#[test]
fn lookup_tells_the_kind_by_identity() {
    let lookup = PyTypeLookup {
        none: 10,
        int: 11,
        bool: 12,
        float: 13,
        string: 14,
        bytes: 15,
        bytearray: 16,
        list: 17,
        tuple: 18,
        dict: 19,
        datetime: 20,
        date: 21,
        time: 22,
    };
    assert_eq!(lookup.kind_of(10), Kind::Null);
    assert_eq!(lookup.kind_of(11), Kind::Int);
    assert_eq!(lookup.kind_of(12), Kind::Bool);
    assert_eq!(lookup.kind_of(13), Kind::Float);
    assert_eq!(lookup.kind_of(14), Kind::Str);
    assert_eq!(lookup.kind_of(15), Kind::Bytes);
    assert_eq!(lookup.kind_of(16), Kind::Bytes);
    assert_eq!(lookup.kind_of(17), Kind::List);
    assert_eq!(lookup.kind_of(18), Kind::Tuple);
    assert_eq!(lookup.kind_of(19), Kind::Dict);
    assert_eq!(lookup.kind_of(20), Kind::DateTime);
    assert_eq!(lookup.kind_of(21), Kind::Date);
    assert_eq!(lookup.kind_of(22), Kind::Time);
    assert_eq!(lookup.kind_of(23), Kind::Unknown);
    let shared = PyTypeLookup { bool: 11, ..lookup };
    assert_eq!(shared.kind_of(11), Kind::Int);
}

#[test]
fn classify_reads_the_kind_of_a_value() {
    assert_eq!(classify(&HostValue::Null), Kind::Null);
    assert_eq!(classify(&HostValue::Bool(true)), Kind::Bool);
    assert_eq!(classify(&HostValue::Int(1)), Kind::Int);
    assert_eq!(classify(&HostValue::Float(float(1.0))), Kind::Float);
    assert_eq!(classify(&s("x")), Kind::Str);
    assert_eq!(classify(&HostValue::Bytes(vec![])), Kind::Bytes);
    assert_eq!(classify(&HostValue::List(vec![])), Kind::List);
    assert_eq!(classify(&HostValue::Tuple(vec![])), Kind::Tuple);
    assert_eq!(classify(&dict(vec![])), Kind::Dict);
    assert_eq!(classify(&HostValue::Date(Date { year: 1, month: 1, day: 1 })), Kind::Date);
}

#[test]
fn version_is_spelled_for_the_host() {
    assert_eq!(normalize_version("1.0.0-alpha1"), "1.0.0a1");
    assert_eq!(normalize_version("1.0.0-beta.2"), "1.0.0b.2");
    assert_eq!(normalize_version("0.12.0"), "0.12.0");
    assert_eq!(normalize_version("1-alpha-beta-alpha"), "1aba");
    assert_eq!(normalize_version("-alph-alpha"), "-alpha");
    assert_eq!(normalize_version(""), "");
    assert_eq!(get_version(), "0.12.0");
}

#[test]
fn messages_of_parse_errors() {
    assert_eq!(repeated("a", "").message(), "duplicate key: `a`");
    assert_eq!(repeated("a", " at line 1 column 1").message(), "duplicate key: `a` at line 1 column 1");
    assert_eq!(ParseError::InvalidDatetime.message(), "invalid datetime");
    assert_eq!(ParseError::Syntax("oops".to_string()).message(), "oops");
    assert_eq!(SerializeError::Printer("no".to_string()).message(), "no");
    assert_eq!(
        SerializeError::InvalidDatetime.message(),
        "unable to convert datetime to a TOML datetime"
    );
}

#[test]
fn printer_refusal_is_reported() {
    assert_eq!(
        printed(Err("values must be emitted before tables".to_string())),
        Err(SerializeError::Printer("values must be emitted before tables".to_string()))
    );
    assert_eq!(printed(Ok("a = 1\n".to_string())), Ok("a = 1\n".to_string()));
}

#[test]
fn scalars_at_the_top_are_written_bare() {
    assert_eq!(serialize(&HostValue::Int(1), None).unwrap(), "1");
    assert_eq!(serialize(&HostValue::List(vec![]), None).unwrap(), "[]");
    assert_eq!(serialize(&HostValue::Null, None).unwrap(), "\"null\"");
}

#[test]
fn keys_are_quoted_where_they_must_be() {
    let value = dict(vec![(s("a\nb"), HostValue::Int(1)), (s(""), HostValue::Int(2))]);
    let text = serialize(&value, None).unwrap();
    assert_eq!(text, "\"a\\nb\" = 1\n\"\" = 2\n");
    assert_eq!(deserialize(&text, None).unwrap(), value);
}

#[test]
fn lookup_is_made_once() {
    let first = PyTypeLookup {
        none: 1,
        int: 2,
        bool: 3,
        float: 4,
        string: 5,
        bytes: 6,
        bytearray: 7,
        list: 8,
        tuple: 9,
        dict: 10,
        datetime: 11,
        date: 12,
        time: 13,
    };
    let second = PyTypeLookup { none: 100, ..first };
    let mut slot: Option<PyTypeLookup> = None;
    assert_eq!(PyTypeLookup::cached(&mut slot, first), first);
    assert_eq!(slot, Some(first));
    assert_eq!(PyTypeLookup::cached(&mut slot, second), first);
    assert_eq!(slot, Some(first));
}

#[test]
fn document_tree_reads_back_regrouped() {
    let value = dict(vec![
        (s("table"), dict(vec![(s("inner"), HostValue::List(vec![])), (s("a"), HostValue::Int(1))])),
        (s("list"), HostValue::List(vec![HostValue::Int(1), HostValue::Int(2)])),
        (s("x"), HostValue::Bool(true)),
        (s("y"), s("text")),
    ]);
    let tree = dump(&value, None).unwrap();
    let back = PyDeserializer::new(None).deserialize(&tree).unwrap();
    let expected = dict(vec![
        (s("x"), HostValue::Bool(true)),
        (s("y"), s("text")),
        (s("list"), HostValue::List(vec![HostValue::Int(1), HostValue::Int(2)])),
        (s("table"), dict(vec![(s("a"), HostValue::Int(1)), (s("inner"), HostValue::List(vec![]))])),
    ]);
    assert_eq!(back, expected);
    let again = dump(&back, None).unwrap();
    assert_eq!(again, tree);
    assert_eq!(PyDeserializer::new(None).deserialize(&again).unwrap(), expected);
}

fn sample_value() -> toml::Value {
    let mut inner = toml::map::Map::new();
    inner.insert("z".to_string(), toml::Value::Boolean(true));
    inner.insert("a".to_string(), toml::Value::Float(2.5));
    let mut root = toml::map::Map::new();
    root.insert("name".to_string(), toml::Value::String("x".to_string()));
    root.insert(
        "list".to_string(),
        toml::Value::Array(vec![toml::Value::Integer(3), toml::Value::Integer(1), toml::Value::Integer(2)]),
    );
    root.insert("inner".to_string(), toml::Value::Table(inner));
    root.insert(
        "when".to_string(),
        toml::Value::Datetime(toml::value::Datetime {
            date: Some(toml::value::Date { year: 2020, month: 2, day: 29 }),
            time: None,
            offset: None,
        }),
    );
    toml::Value::Table(root)
}

fn sample_tree() -> TomlValue {
    TomlValue::Table(vec![
        ("name".to_string(), TomlValue::String("x".to_string())),
        (
            "list".to_string(),
            TomlValue::Array(vec![TomlValue::Integer(3), TomlValue::Integer(1), TomlValue::Integer(2)]),
        ),
        (
            "inner".to_string(),
            TomlValue::Table(vec![
                ("z".to_string(), TomlValue::Boolean(true)),
                ("a".to_string(), TomlValue::Float(float(2.5))),
            ]),
        ),
        (
            "when".to_string(),
            TomlValue::Datetime(DateTimeValue {
                date: Some(Date { year: 2020, month: 2, day: 29 }),
                time: None,
                offset: None,
            }),
        ),
    ])
}

#[test]
fn parsed_value_is_copied_node_by_node() {
    assert_eq!(from_toml(sample_value(), MAX_DEPTH), Some(sample_tree()));
    assert_eq!(from_toml(toml::Value::Integer(-7), 0), Some(TomlValue::Integer(-7)));
    assert_eq!(from_toml(toml::Value::Array(vec![]), 1), Some(TomlValue::Array(vec![])));
    assert_eq!(from_toml(toml::Value::Array(vec![]), 0), None);
    assert_eq!(from_toml(sample_value(), 1), None);
    assert_eq!(from_toml(sample_value(), 2), Some(sample_tree()));
    assert_eq!(from_toml(toml::Value::Table(toml::map::Map::new()), 1), Some(TomlValue::Table(vec![])));
}

#[test]
fn document_tree_is_built_node_by_node() {
    let built = to_toml(&sample_tree());
    assert_eq!(built, sample_value());
    let names: Vec<&String> = built.as_table().unwrap().keys().collect();
    assert_eq!(names, vec!["name", "list", "inner", "when"]);
    let inner: Vec<&String> = built["inner"].as_table().unwrap().keys().collect();
    assert_eq!(inner, vec!["z", "a"]);
    assert_eq!(from_toml(built, MAX_DEPTH), Some(sample_tree()));
}

#[test]
fn text_is_read_in_document_order() {
    let read = deserialize("b = 1\na = \"two\"\n\n[t]\ny = [1.5]\nx = 1979-05-27\n", None).unwrap();
    let expected = dict(vec![
        (s("b"), HostValue::Int(1)),
        (s("a"), s("two")),
        (
            s("t"),
            dict(vec![
                (s("y"), HostValue::List(vec![HostValue::Float(float(1.5))])),
                (s("x"), HostValue::Date(Date { year: 1979, month: 5, day: 27 })),
            ]),
        ),
    ]);
    assert_eq!(read, expected);
}

#[test]
fn nesting_of_a_text() {
    assert!(nesting_within("", 0));
    assert!(nesting_within("a = 1\n", 0));
    assert!(!nesting_within("a = [1]\n", 0));
    assert!(nesting_within("a = [1]\n", 1));
    assert!(nesting_within("a = [[1], [2], [3]]\n", 2));
    assert!(!nesting_within("a = [[1], [2], [3]]\n", 1));
    assert!(nesting_within("a = { b = { c = 1 } }\n", 2));
    assert!(!nesting_within("a = { b = { c = 1 } }\n", 1));
    // periods of a dotted key and of a header count, one level each
    assert!(nesting_within("a.b.c = 1\n", 2));
    assert!(!nesting_within("a.b.c = 1\n", 1));
    assert!(nesting_within("[a.b]\nx = 1\n", 2));
    assert!(!nesting_within("[a.b]\nx = 1\n", 1));
    // a comma and the end of a line end the count of periods
    assert!(nesting_within("a = [1.5, 2.5, 3.5, 4.5]\n", 2));
    assert!(nesting_within("a = 1.5\nb = 2.5\nc = 3.5\n", 1));
    // what stands in a string or a comment does not count
    assert!(nesting_within("a = \"[[[[[[\"\n", 0));
    assert!(nesting_within("a = '[[[[[['\n", 0));
    assert!(nesting_within("a = \"\\\"[[[[\"\n", 0));
    assert!(nesting_within("a = \"\"\"\n[[[\"\"[[[\n\"\"\"\n", 0));
    assert!(nesting_within("a = '''\n[[[''[[[\n'''\n", 0));
    assert!(nesting_within("# [[[[ {{{{ ....\na = 1\n", 0));
    assert!(nesting_within("\"a.b\" = 1\n", 0));
    // a bracket that closes in a string closes nothing
    assert!(!nesting_within("a = [\"]\", [\"]\", [1]]]\n", 2));
    assert!(nesting_within("a = [\"]\", [\"]\", [1]]]\n", 3));
    // after a string the count goes on
    assert!(!nesting_within("a = \"\"\nb = [[1]]\n", 1));
    assert!(!nesting_within("a = \"\"\"x\"\"\"\nb = [[1]]\n", 1));
}

#[test]
fn text_that_nests_too_deep_is_refused_before_it_is_parsed() {
    let fits = format!("a = {}1{}\n", "[".repeat(MAX_DEPTH - 1), "]".repeat(MAX_DEPTH - 1));
    assert!(deserialize(&fits, None).is_ok());
    let deep = format!("a = {}1{}\n", "[".repeat(MAX_DEPTH + 1), "]".repeat(MAX_DEPTH + 1));
    assert_eq!(deserialize(&deep, None), Err(ParseError::TooDeep));
    let huge = format!("a = {}", "[".repeat(200_000));
    assert_eq!(deserialize(&huge, None), Err(ParseError::TooDeep));
    let braces = format!("a = {}", "{ a = ".repeat(200_000));
    assert_eq!(deserialize(&braces, None), Err(ParseError::TooDeep));
    let dotted = format!("{}a = 1\n", "a.".repeat(200_000));
    assert_eq!(deserialize(&dotted, None), Err(ParseError::TooDeep));
    let header = format!("[{}a]\n", "a.".repeat(200_000));
    assert_eq!(deserialize(&header, None), Err(ParseError::TooDeep));
    let text = format!("a = \"{}\"\n", "[".repeat(200_000));
    assert!(deserialize(&text, None).is_ok());
}

#[test]
fn an_error_of_the_parser_comes_before_an_invalid_datetime() {
    // a date is held against the calendar only once the whole text has
    // been parsed
    let text = "d = 2023-02-30\na = 1\na = 2\n";
    match deserialize(text, None) {
        Err(ParseError::DuplicateKey { key, .. }) => assert_eq!(key, "a"),
        other => panic!("unexpected {:?}", other),
    }
    let alone = "d = 2023-02-30\n";
    assert_eq!(deserialize(alone, None), Err(ParseError::InvalidDatetime));
}

#[test]
fn datetime_literal_is_read_part_by_part() {
    assert_eq!(
        parse_datetime_literal("1979-05-27T07:32:00.5-08:00"),
        Some(DateTimeValue {
            date: Some(Date { year: 1979, month: 5, day: 27 }),
            time: Some(Time { hour: 7, minute: 32, second: 0, nanosecond: 500_000_000 }),
            offset: Some(Offset::Custom { hours: -8, minutes: 0 }),
        })
    );
    assert_eq!(
        parse_datetime_literal("07:32:00"),
        Some(DateTimeValue {
            date: None,
            time: Some(Time { hour: 7, minute: 32, second: 0, nanosecond: 0 }),
            offset: None,
        })
    );
    assert_eq!(
        parse_datetime_literal("2001-01-01T00:00:00Z").unwrap().offset,
        Some(Offset::Z)
    );
    assert_eq!(parse_datetime_literal("not a date"), None);
    assert_eq!(parse_datetime_literal(""), None);
}

#[test]
fn timezone_from_seconds() {
    assert_eq!(TzInfo::from_seconds(0), Some(TzInfo::new(0, 0)));
    assert_eq!(TzInfo::from_seconds(19800), Some(TzInfo::new(5, 30)));
    assert_eq!(TzInfo::from_seconds(-28800), Some(TzInfo::new(-8, 0)));
    assert_eq!(TzInfo::from_seconds(-30600), Some(TzInfo::new(-8, 30)));
    assert_eq!(TzInfo::from_seconds(86340), Some(TzInfo::new(23, 59)));
    assert_eq!(TzInfo::from_seconds(-86340), Some(TzInfo::new(-23, 59)));
    assert_eq!(TzInfo::from_seconds(86400), None);
    assert_eq!(TzInfo::from_seconds(-86400), None);
    assert_eq!(TzInfo::from_seconds(61), None);
    assert_eq!(TzInfo::from_seconds(-1), None);
    assert_eq!(TzInfo::from_seconds(-1800), None);
    assert_eq!(TzInfo::from_seconds(-3600), Some(TzInfo::new(-1, 0)));
    assert_eq!(TzInfo::from_seconds(1800), Some(TzInfo::new(0, 30)));
    for zone in [TzInfo::new(-2, 30), TzInfo::new(-23, 59), TzInfo::new(0, 59), TzInfo::new(14, 0)] {
        assert_eq!(TzInfo::from_seconds(zone.seconds() as i64), Some(zone));
    }
    assert_eq!(TzInfo::from_seconds(i64::MIN), None);
    assert_eq!(TzInfo::from_seconds(i64::MAX), None);
    let zone = TzInfo::new(5, 30);
    assert_eq!(TzInfo::from_seconds(zone.seconds() as i64), Some(zone));
}

#[test]
fn a_long_flat_text_is_not_deep() {
    let mut text = String::new();
    for i in 0..300 {
        text.push_str(&format!("[section{}.part]\n", i));
        text.push_str("# a comment with [brackets] and {braces} and version 1.2.3\n");
        text.push_str("ratios = [0.5, 1.5, 2.5, 3.5]\n");
        text.push_str("point = { x.a = 1.0, y.b = 2.0 }\n");
        text.push_str("note = \"see [[1]] or {2}..\"\n");
        text.push_str("when = 1979-05-27T07:32:00.999999-07:00\n\n");
    }
    assert!(nesting_within(&text, 3));
    assert!(!nesting_within(&text, 2));
    let value = deserialize(&text, None).unwrap();
    assert_eq!(keys(&value).len(), 300);
    let written = serialize(&value, None).unwrap();
    assert!(equivalent(&deserialize(&written, None).unwrap(), &value));
}
