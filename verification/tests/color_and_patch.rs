use weasel_vision::rime::color::RimeColor;
use weasel_vision::rime::patch::{remove_value, set_value, split_path, value_at};
use weasel_vision::rime::yaml::{YamlMap, YamlNumber, YamlValue};

#[test]
fn test_parse_hex_6() {
    let c = RimeColor::from_hex("0xFF0000").unwrap();
    assert_eq!(c.r, 0);
    assert_eq!(c.g, 0);
    assert_eq!(c.b, 255);
    assert_eq!(c.a, 255);
}

#[test]
fn test_parse_hex_8() {
    let c = RimeColor::from_hex("0x80FF0000").unwrap();
    assert_eq!(c.r, 0);
    assert_eq!(c.g, 0);
    assert_eq!(c.b, 255);
    assert_eq!(c.a, 128);
}

#[test]
fn test_to_hex_no_alpha() {
    let c = RimeColor::new(255, 128, 0, 255);
    assert_eq!(c.to_hex(), "0x0080FF");
}

#[test]
fn test_to_hex_with_alpha() {
    let c = RimeColor::new(255, 128, 0, 128);
    assert_eq!(c.to_hex(), "0x800080FF");
}

#[test]
fn test_split_path() {
    assert_eq!(split_path("style/font_face"), vec!["style", "font_face"]);
    assert_eq!(split_path("simple"), vec!["simple"]);
    assert_eq!(split_path("key_binder/bindings"), vec!["key_binder", "bindings"]);
}

#[test]
fn test_set_and_get() {
    let mut dict = YamlMap::new();
    set_value(
        &mut dict,
        &["style".to_string(), "font_face".to_string()],
        YamlValue::Str("Arial".into()),
    );
    let val = value_at(&dict, &["style".to_string(), "font_face".to_string()]);
    match val {
        Some(YamlValue::Str(s)) => assert_eq!(s, "Arial"),
        _ => panic!("expected the string Arial"),
    }
}

#[test]
fn test_remove() {
    let mut dict = YamlMap::new();
    set_value(
        &mut dict,
        &["a".to_string(), "b".to_string()],
        YamlValue::Number(YamlNumber::PosInt(1)),
    );
    remove_value(&mut dict, &["a".to_string(), "b".to_string()]);
    assert!(dict.get(&"a".to_string()).is_none());
}
