use shellymon::ctl::{
    find_named, generate_safe_filename, output_filename, parse_device_type, parse_pair,
    plan_upload, rpc_url, should_enable, PairError, UploadAction,
};
use shellymon::json::JsonDoc;
use shellymon::ctl::{classify_scalar, find_method, ScalarKind};
use shellymon::text::{ascii_lowercase, parse_i64, split_once_char};

#[test]
fn safe_filename_replaces_odd_characters() {
    assert_eq!(generate_safe_filename("my script"), "my_script.js");
    assert_eq!(generate_safe_filename("solar-log v2!"), "solar_log_v2_.js");
    assert_eq!(generate_safe_filename("plain42"), "plain42.js");
    assert_eq!(generate_safe_filename(""), ".js");
}

#[test]
fn output_filename_prefers_the_chosen_name() {
    assert_eq!(output_filename(Some("given.js".to_string()), "a b"), "given.js");
    assert_eq!(output_filename(None, "a b"), "a_b.js");
}

#[test]
fn rpc_urls_are_exact() {
    assert_eq!(
        rpc_url(&"192.168.1.20".to_string(), "Shelly.GetStatus"),
        "http://192.168.1.20/rpc/Shelly.GetStatus"
    );
    assert_eq!(rpc_url(&"host.local".to_string(), "Script.List"), "http://host.local/rpc/Script.List");
}

#[test]
fn device_type_comes_from_the_identifier() {
    assert_eq!(parse_device_type("shellypro3em-08f9e0e4d444"), "pro3em");
    assert_eq!(parse_device_type("shellyplus1pm-a8032ab12345"), "plus1pm");
    assert_eq!(parse_device_type("shellynodash"), "unknown");
    assert_eq!(parse_device_type("otherpro3em-abc"), "unknown");
    assert_eq!(parse_device_type("-"), "unknown");
    assert_eq!(parse_device_type(""), "unknown");
    assert_eq!(parse_device_type("shelly-abc"), "");
}

#[test]
fn find_named_picks_the_first_matching_script() {
    let scripts = vec![
        JsonDoc::Obj(vec![
            ("id".to_string(), JsonDoc::Num(1.0f64.to_bits())),
            ("name".to_string(), JsonDoc::Text("solar".to_string())),
        ]),
        JsonDoc::Obj(vec![
            ("id".to_string(), JsonDoc::Num(2.0f64.to_bits())),
            ("name".to_string(), JsonDoc::Text("heater".to_string())),
        ]),
    ];
    let hit = find_named(&scripts, &"heater".to_string()).expect("should find the script");
    match hit {
        JsonDoc::Obj(entries) => match &entries[0].1 {
            JsonDoc::Num(bits) => assert_eq!(*bits, 2.0f64.to_bits()),
            _ => panic!("script id should be a number"),
        },
        _ => panic!("script entry should be an object"),
    }
    assert!(find_named(&scripts, &"fan".to_string()).is_none());
    assert!(find_named(&vec![], &"solar".to_string()).is_none());
}

#[test]
fn upload_plan_covers_every_case() {
    assert_eq!(plan_upload(None, false), UploadAction::CreateThenPut);
    assert_eq!(plan_upload(None, true), UploadAction::CreateThenPut);
    assert_eq!(plan_upload(Some(false), false), UploadAction::Put);
    assert_eq!(plan_upload(Some(false), true), UploadAction::Put);
    assert_eq!(plan_upload(Some(true), false), UploadAction::RefuseRunning);
    assert_eq!(plan_upload(Some(true), true), UploadAction::StopThenPut);
}

#[test]
fn enable_only_when_asked_and_not_running() {
    assert!(should_enable(true, false));
    assert!(!should_enable(true, true));
    assert!(!should_enable(false, false));
    assert!(!should_enable(false, true));
}

#[test]
fn pair_parsing_splits_component_key_and_value() {
    let (rpc, key, value) = parse_pair("Sys.device.name=klima").expect("pair should parse");
    assert_eq!(rpc, "sys");
    assert_eq!(key, "device.name");
    assert_eq!(value, "klima");

    let (rpc, key, value) = parse_pair("WiFi.ap.enable=true").expect("pair should parse");
    assert_eq!(rpc, "wifi");
    assert_eq!(key, "ap.enable");
    assert_eq!(value, "true");
}

#[test]
fn pair_parsing_reports_each_error() {
    assert_eq!(parse_pair("Sys.device.name"), Err(PairError::MissingEquals));
    assert_eq!(parse_pair("nodot=5"), Err(PairError::MissingDot));
    assert_eq!(parse_pair(""), Err(PairError::MissingEquals));
}

#[test]
fn split_once_finds_the_first_separator() {
    let (a, b) = split_once_char("k=v=w", '=').expect("split should succeed");
    assert_eq!(a, "k");
    assert_eq!(b, "v=w");
    assert!(split_once_char("kvw", '=').is_none());
    let (a, b) = split_once_char("=v", '=').expect("split should succeed");
    assert_eq!(a, "");
    assert_eq!(b, "v");
}

#[test]
fn method_lookup_ignores_the_devices_case() {
    let methods = vec![
        "Shelly.GetStatus".to_string(),
        "Sys.SetConfig".to_string(),
        "Sys.GetConfig".to_string(),
        "WiFi.SetConfig".to_string(),
    ];
    assert_eq!(
        find_method(&methods, &"sys".to_string(), ".setconfig"),
        Some("Sys.SetConfig".to_string())
    );
    assert_eq!(
        find_method(&methods, &"wifi".to_string(), ".setconfig"),
        Some("WiFi.SetConfig".to_string())
    );
    assert_eq!(find_method(&methods, &"cloud".to_string(), ".setconfig"), None);
}

#[test]
fn integer_parsing_matches_the_standard_parse() {
    for s in [
        "0", "1", "42", "-7", "+7", "007", "9223372036854775807", "-9223372036854775808",
        "9223372036854775808", "-9223372036854775809", "99999999999999999999", "", "-", "+",
        "12a", " 12", "12 ", "1.5", "--1", "+-1", "1_000",
    ] {
        assert_eq!(parse_i64(s), s.parse::<i64>().ok(), "mismatch on {:?}", s);
    }
}

#[test]
fn scalar_classification_orders_bool_then_int() {
    assert_eq!(classify_scalar("true"), ScalarKind::True);
    assert_eq!(classify_scalar("TRUE"), ScalarKind::True);
    assert_eq!(classify_scalar("False"), ScalarKind::False);
    assert_eq!(classify_scalar("42"), ScalarKind::Int(42));
    assert_eq!(classify_scalar("-3"), ScalarKind::Int(-3));
    assert_eq!(classify_scalar("2.5"), ScalarKind::Other);
    assert_eq!(classify_scalar("klima"), ScalarKind::Other);
    assert_eq!(classify_scalar(""), ScalarKind::Other);
}

#[test]
fn ascii_lowercase_touches_only_letters() {
    assert_eq!(ascii_lowercase("WiFi-2G"), "wifi-2g");
    assert_eq!(ascii_lowercase("sys"), "sys");
    assert_eq!(ascii_lowercase(""), "");
}
