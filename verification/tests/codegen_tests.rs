use shibei::codegen::{snake_to_camel, Arg, Command, Kind, ScalarType};

#[test]
fn snake_to_camel_works() {
    assert_eq!(snake_to_camel("hello"), "hello");
    assert_eq!(snake_to_camel("echo_async"), "echoAsync");
    assert_eq!(snake_to_camel("s3_smoke_test"), "s3SmokeTest");
    assert_eq!(snake_to_camel("on_tick"), "onTick");
}

fn arg(name: &str, ty: ScalarType) -> Arg {
    Arg { rust_name: name.to_string(), js_name: snake_to_camel(name), ty }
}

fn commands() -> Vec<Command> {
    vec![
        Command { rust_ident: "hello".to_string(), js_name: "hello".to_string(), kind: Kind::Sync, args: vec![], ret: ScalarType::String },
        Command {
            rust_ident: "add".to_string(),
            js_name: "add".to_string(),
            kind: Kind::Sync,
            args: vec![arg("a", ScalarType::I32), arg("b", ScalarType::I32)],
            ret: ScalarType::I32,
        },
        Command {
            rust_ident: "echo_async".to_string(),
            js_name: "echoAsync".to_string(),
            kind: Kind::Async,
            args: vec![arg("text", ScalarType::String)],
            ret: ScalarType::String,
        },
        Command {
            rust_ident: "on_tick".to_string(),
            js_name: "onTick".to_string(),
            kind: Kind::Event,
            args: vec![arg("interval_ms", ScalarType::I64)],
            ret: ScalarType::I64,
        },
    ]
}

#[test]
fn dts_declares_each_command() {
    let out = shibei::render_dts::render(&commands());
    let expected = "// GENERATED — do not edit by hand.\n// Run `cargo run -p shibei-napi-codegen` after editing commands.rs.\n\n\
export const hello: () => string;\n\
export const add: (a: number, b: number) => number;\n\
export const echoAsync: (text: string) => Promise<string>;\n\
export const onTick: (intervalMs: number, cb: (payload: number) => void) => () => void;\n";
    assert_eq!(out, expected);
}

#[test]
fn bindings_marshal_strings_and_spawn_async() {
    let out = shibei::render_bindings::render(&commands());
    assert!(out.contains("pub unsafe extern \"C\" fn shibei_ffi_hello() -> *mut c_char {\n    let s = crate::commands::hello();\n    leak_cstring(s)\n}\n\n"));
    assert!(out.contains("pub unsafe extern \"C\" fn shibei_ffi_add(a: i32, b: i32) -> i32 {\n    crate::commands::add(a, b)\n}\n\n"));
    assert!(out.contains("pub unsafe extern \"C\" fn shibei_ffi_echo_async(text: *const c_char, ctx: *mut c_void) {\n    let text = cstr_to_string(text);\n    let ctx_addr = ctx as usize;\n"));
    assert!(out.contains("crate::runtime::ThreadsafeCallback::<i64>::new"));
    assert!(out.contains("pub unsafe extern \"C\" fn shibei_ffi_on_tick_unsubscribe(token: *mut c_void) {\n"));
    assert!(out.contains("use std::sync::atomic::{AtomicBool, Ordering};\n"));
}

#[test]
fn shim_wraps_and_registers_every_command() {
    let out = shibei::render_shim::render(&commands());
    assert!(out.contains("extern char* shibei_ffi_hello(void);\n"));
    assert!(out.contains("extern int32_t shibei_ffi_add(int32_t a, int32_t b);\n"));
    assert!(out.contains("extern void shibei_ffi_echo_async(const char* text, void* ctx);\n"));
    assert!(out.contains("extern void* shibei_ffi_on_tick(int64_t interval_ms, void* ctx);\n"));
    assert!(out.contains("    int32_t v_b = 0; if (1 < argc) napi_get_value_int32(env, args[1], &v_b);\n"));
    assert!(out.contains("    size_t argc = 2;\n"));
    assert!(out.contains("napi_create_threadsafe_function(env, args[1], NULL, res_name"));
    assert!(out.contains("        {\"echoAsync\", NULL, echo_async_wrap, NULL, NULL, NULL, napi_default, NULL},\n"));
    assert!(out.contains("static napi_value on_tick_unsubscribe_wrap(napi_env env, napi_callback_info info);\n"));
    assert!(out.ends_with("    napi_module_register(&shibei_module);\n}\n"));
}
