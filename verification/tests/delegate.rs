use supervisor::datum::Datum;
use supervisor::delegate::{config_child, start_result, CHILD};

fn text(s: &str) -> Datum {
    Datum::Text(s.to_string())
}

#[test]
fn the_child_is_named_in_the_configuration() {
    let deep = Datum::Tuple(vec![Datum::Tuple(vec![Datum::Opt(Some(Box::new(text("m.toml"))))])]);
    assert_eq!(config_child(&deep), "m.toml");
    let bytes = Datum::List(vec![Datum::U8(b'm')]);
    assert_eq!(config_child(&bytes), "m");
}

#[test]
fn the_default_child() {
    for v in [text(""), Datum::Other, Datum::Tuple(vec![]), Datum::Opt(None), Datum::List(vec![Datum::U8(0xff)])] {
        assert_eq!(config_child(&v), CHILD);
    }
}

#[test]
fn starting_depends_on_the_child() {
    let variant = |case: &str, tag: usize, payload: Vec<Datum>| Datum::Variant {
        case_name: case.to_string(),
        tag,
        payload,
    };
    assert_eq!(start_result(&Datum::Res(Ok(Box::new(Datum::Other)))), Ok(()));
    assert_eq!(start_result(&variant("ok", 0, vec![])), Ok(()));
    assert_eq!(start_result(&text("id")), Ok(()));
    let denied = variant("permission-denied", 0, vec![text("runtime")]);
    assert_eq!(
        start_result(&Datum::Res(Err(Box::new(denied)))),
        Err("delegation failed: permission-denied: runtime".to_string())
    );
    assert_eq!(start_result(&variant("err", 1, vec![])), Err("delegation failed: unknown".to_string()));
    assert_eq!(start_result(&Datum::Other), Err("unexpected spawn result".to_string()));
}
