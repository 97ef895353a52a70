use person_store::value::{
    check_nesting, to_top_level_item, to_wire, DocValue, ShapeError, WireValue, MAX_DEPTH,
};

fn s(text: &str) -> String {
    text.to_string()
}

#[test]
fn null_becomes_null_flag() {
    assert_eq!(to_wire(&DocValue::Null), WireValue::NullFlag(true));
}

#[test]
fn bool_keeps_its_value() {
    assert_eq!(to_wire(&DocValue::Bool(true)), WireValue::Bool(true));
    assert_eq!(to_wire(&DocValue::Bool(false)), WireValue::Bool(false));
}

#[test]
fn number_keeps_exact_text() {
    assert_eq!(to_wire(&DocValue::Number(s("3.14"))), WireValue::NumberText(s("3.14")));
    assert_eq!(
        to_wire(&DocValue::Number(s("12345678901234567890.000001"))),
        WireValue::NumberText(s("12345678901234567890.000001"))
    );
}

#[test]
fn string_becomes_string_text() {
    assert_eq!(to_wire(&DocValue::Str(s("x"))), WireValue::StringText(s("x")));
    assert_eq!(to_wire(&DocValue::Str(s(""))), WireValue::StringText(s("")));
}

#[test]
fn sequence_keeps_element_order() {
    let d = DocValue::Sequence(vec![
        DocValue::Number(s("3")),
        DocValue::Null,
        DocValue::Str(s("b")),
    ]);
    assert_eq!(
        to_wire(&d),
        WireValue::ListOf(vec![
            WireValue::NumberText(s("3")),
            WireValue::NullFlag(true),
            WireValue::StringText(s("b")),
        ])
    );
}

#[test]
fn record_keeps_every_key() {
    let d = DocValue::Record(vec![
        (s("a"), DocValue::Bool(true)),
        (s("b"), DocValue::Number(s("2"))),
        (s("c"), DocValue::Sequence(vec![])),
    ]);
    assert_eq!(
        to_wire(&d),
        WireValue::MapOf(vec![
            (s("a"), WireValue::Bool(true)),
            (s("b"), WireValue::NumberText(s("2"))),
            (s("c"), WireValue::ListOf(vec![])),
        ])
    );
}

#[test]
fn nested_arrays_and_objects() {
    let d = DocValue::Record(vec![
        (s("tags"), DocValue::Sequence(vec![DocValue::Str(s("a")), DocValue::Str(s("b"))])),
        (s("meta"), DocValue::Record(vec![(s("x"), DocValue::Number(s("1")))])),
    ]);
    let expected = || vec![
        (
            s("tags"),
            WireValue::ListOf(vec![WireValue::StringText(s("a")), WireValue::StringText(s("b"))]),
        ),
        (s("meta"), WireValue::MapOf(vec![(s("x"), WireValue::NumberText(s("1")))])),
    ];
    assert_eq!(to_wire(&d), WireValue::MapOf(expected()));
    assert_eq!(to_top_level_item(&d), Ok(expected()));
}

#[test]
fn deep_nesting_converts() {
    let mut d = DocValue::Null;
    let mut w = WireValue::NullFlag(true);
    for _ in 0..50 {
        d = DocValue::Sequence(vec![d]);
        w = WireValue::ListOf(vec![w]);
    }
    assert_eq!(to_wire(&d), w);
}

#[test]
fn top_level_string_is_rejected() {
    assert_eq!(
        to_top_level_item(&DocValue::Str(s("x"))),
        Err(ShapeError::NotARecord(WireValue::StringText(s("x"))))
    );
}

#[test]
fn top_level_scalars_and_lists_are_rejected() {
    assert_eq!(
        to_top_level_item(&DocValue::Null),
        Err(ShapeError::NotARecord(WireValue::NullFlag(true)))
    );
    assert_eq!(
        to_top_level_item(&DocValue::Number(s("1"))),
        Err(ShapeError::NotARecord(WireValue::NumberText(s("1"))))
    );
    assert_eq!(
        to_top_level_item(&DocValue::Sequence(vec![DocValue::Bool(false)])),
        Err(ShapeError::NotARecord(WireValue::ListOf(vec![WireValue::Bool(false)])))
    );
}

#[test]
fn top_level_empty_record_is_empty_item() {
    assert_eq!(to_top_level_item(&DocValue::Record(vec![])), Ok(vec![]));
}

fn record_of_depth(depth: usize) -> DocValue {
    let mut d = DocValue::Null;
    for _ in 1..depth {
        d = DocValue::Sequence(vec![d]);
    }
    DocValue::Record(vec![("inner".to_string(), d)])
}

#[test]
fn nesting_depth_is_measured() {
    assert!(check_nesting(&DocValue::Str(s("x")), 0));
    assert!(!check_nesting(&DocValue::Record(vec![]), 0));
    assert!(check_nesting(&DocValue::Record(vec![]), 1));
    let two = DocValue::Sequence(vec![DocValue::Null, DocValue::Sequence(vec![])]);
    assert!(!check_nesting(&two, 1));
    assert!(check_nesting(&two, 2));
}

#[test]
fn item_at_the_depth_limit_is_accepted() {
    assert_eq!(MAX_DEPTH, 128);
    let r = to_top_level_item(&record_of_depth(MAX_DEPTH));
    assert!(r.is_ok());
}

#[test]
fn item_beyond_the_depth_limit_is_rejected() {
    assert_eq!(to_top_level_item(&record_of_depth(MAX_DEPTH + 1)), Err(ShapeError::DepthExceeded));
    let mut deep = DocValue::Null;
    for _ in 0..200 {
        deep = DocValue::Sequence(vec![deep]);
    }
    assert_eq!(to_top_level_item(&deep), Err(ShapeError::DepthExceeded));
}
