use shibei::codegen::{Kind, ScalarType};
use shibei::napi_parse::parse_commands;

fn parse(src: &str) -> Result<Vec<shibei::codegen::Command>, String> {
    parse_commands(src)
}

#[test]
fn parses_sync_fn() {
    let src = r#"
        #[shibei_napi]
        pub fn hello() -> String { String::new() }
    "#;
    let cmds = parse(src).unwrap();
    assert_eq!(cmds.len(), 1);
    assert_eq!(cmds[0].rust_ident, "hello");
    assert_eq!(cmds[0].js_name, "hello");
    assert_eq!(cmds[0].kind, Kind::Sync);
    assert!(cmds[0].args.is_empty());
    assert_eq!(cmds[0].ret, ScalarType::String);
}

#[test]
fn parses_async_fn_with_args() {
    let src = r#"
        #[shibei_napi(async)]
        pub async fn echo_async(text: String) -> Result<String, String> { Ok(text) }
    "#;
    let cmds = parse(src).unwrap();
    assert_eq!(cmds[0].kind, Kind::Async);
    assert_eq!(cmds[0].args.len(), 1);
    assert_eq!(cmds[0].args[0].rust_name, "text");
    assert_eq!(cmds[0].args[0].js_name, "text");
    assert_eq!(cmds[0].args[0].ty, ScalarType::String);
    assert_eq!(cmds[0].ret, ScalarType::String);
}

#[test]
fn parses_event_fn() {
    let src = r#"
        #[shibei_napi(event)]
        pub fn on_tick(interval_ms: i64, cb: ThreadsafeCallback<i64>) -> Subscription {
            Subscription::new()
        }
    "#;
    let cmds = parse(src).unwrap();
    assert_eq!(cmds[0].kind, Kind::Event);
    assert_eq!(cmds[0].args.len(), 1);
    assert_eq!(cmds[0].args[0].rust_name, "interval_ms");
    assert_eq!(cmds[0].args[0].js_name, "intervalMs");
    assert_eq!(cmds[0].ret, ScalarType::I64);
}

#[test]
fn ignores_unannotated_fn() {
    let src = r#"
        pub fn helper() -> i32 { 0 }
    "#;
    assert_eq!(parse(src).unwrap().len(), 0);
}

#[test]
fn reports_the_first_unsupported_signature() {
    let src = r#"
        #[shibei_napi]
        pub fn ok_one(flag: bool, name: &str) {}
        #[shibei_napi]
        pub fn bad(list: Vec<String>) -> String { String::new() }
        #[shibei_napi]
        pub fn worse() -> Vec<u8> { Vec::new() }
    "#;
    assert_eq!(parse(src).unwrap_err(), "bad: unsupported argument type for `list`");
    let src = r#"
        #[shibei_napi]
        pub fn ret() -> Vec<u8> { Vec::new() }
    "#;
    assert_eq!(parse(src).unwrap_err(), "ret: unsupported return type");
    let src = r#"
        #[shibei_napi(event)]
        pub fn ev(n: i32) -> Subscription { Subscription::new() }
    "#;
    assert_eq!(parse(src).unwrap_err(), "ev: expected a `cb: ThreadsafeCallback<T>` parameter");
    let src = r#"
        #[shibei_napi]
        pub fn unit(flag: bool, name: &str) {}
    "#;
    let c = parse(src).unwrap();
    assert_eq!(c[0].ret, ScalarType::VoidReturn);
    assert_eq!(c[0].args[1].ty, ScalarType::String);
}

#[test]
fn parse_error_is_reported() {
    let r = parse("pub fn (");
    assert!(r.unwrap_err().starts_with("syn parse: "));
}
