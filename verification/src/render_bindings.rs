//! Rust FFI bindings (`bindings.rs`): one `extern "C"` entry point per
//! command, marshalling C strings and scheduling async and event commands.

use vstd::prelude::*;
use vstd::string::StringExecFns;
use crate::codegen::{
    arg_list, arg_list_then, push_arg_list, push_arg_list_then, ArgForm, Arg, Command, Kind,
    ScalarType,
};
use crate::render_dts::{file_banner, push_file_banner};

verus! {

broadcast use crate::text::group_concat;

/// Rust type of an FFI parameter.
pub open spec fn ffi_param_type(t: ScalarType) -> Seq<char> {
    match t {
        ScalarType::I32 => "i32"@,
        ScalarType::I64 => "i64"@,
        ScalarType::Bool => "bool"@,
        ScalarType::String => "*const c_char"@,
        ScalarType::VoidReturn => "()"@,
    }
}

pub fn ffi_param_ty(t: ScalarType) -> (r: &'static str)
    ensures
        r@ == ffi_param_type(t),
        t is I32 ==> r@ == "i32"@,
        t is I64 ==> r@ == "i64"@,
        t is Bool ==> r@ == "bool"@,
        t is String ==> r@ == "*const c_char"@,
        t is VoidReturn ==> r@ == "()"@,
{
    match t {
        ScalarType::I32 => "i32",
        ScalarType::I64 => "i64",
        ScalarType::Bool => "bool",
        ScalarType::String => "*const c_char",
        ScalarType::VoidReturn => "()",
    }
}

/// Rust type of an FFI return value.
pub open spec fn ffi_ret_type(t: ScalarType) -> Seq<char> {
    match t {
        ScalarType::I32 => "i32"@,
        ScalarType::I64 => "i64"@,
        ScalarType::Bool => "bool"@,
        ScalarType::String => "*mut c_char"@,
        ScalarType::VoidReturn => "()"@,
    }
}

pub fn ffi_ret_ty(t: ScalarType) -> (r: &'static str)
    ensures
        r@ == ffi_ret_type(t),
        t is I32 ==> r@ == "i32"@,
        t is I64 ==> r@ == "i64"@,
        t is Bool ==> r@ == "bool"@,
        t is String ==> r@ == "*mut c_char"@,
        t is VoidReturn ==> r@ == "()"@,
{
    match t {
        ScalarType::I32 => "i32",
        ScalarType::I64 => "i64",
        ScalarType::Bool => "bool",
        ScalarType::String => "*mut c_char",
        ScalarType::VoidReturn => "()",
    }
}

/// Rust spelling of a scalar (the event callback's payload type).
pub open spec fn rust_scalar(t: ScalarType) -> Seq<char> {
    match t {
        ScalarType::I32 => "i32"@,
        ScalarType::I64 => "i64"@,
        ScalarType::Bool => "bool"@,
        ScalarType::String => "String"@,
        ScalarType::VoidReturn => "()"@,
    }
}

pub fn rust_scalar_ty(t: ScalarType) -> (r: &'static str)
    ensures
        r@ == rust_scalar(t),
        t is I32 ==> r@ == "i32"@,
        t is I64 ==> r@ == "i64"@,
        t is Bool ==> r@ == "bool"@,
        t is String ==> r@ == "String"@,
        t is VoidReturn ==> r@ == "()"@,
{
    match t {
        ScalarType::I32 => "i32",
        ScalarType::I64 => "i64",
        ScalarType::Bool => "bool",
        ScalarType::String => "String",
        ScalarType::VoidReturn => "()",
    }
}

/// Law: the Rust FFI spells each integer by its width (`i32`, `i64`) and a
/// boolean `bool`, the same as parameter, result and callback payload; a
/// string crosses as a borrowed `*const c_char` going in, an owned
/// `*mut c_char` coming out, and an owned `String` in a callback payload.
pub proof fn lemma_ffi_spellings(t: ScalarType)
    ensures
        t is I32 ==> ffi_param_type(t) == "i32"@,
        t is I64 ==> ffi_param_type(t) == "i64"@,
        t is Bool ==> ffi_param_type(t) == "bool"@,
        !(t is String) ==> ffi_param_type(t) == ffi_ret_type(t) && ffi_ret_type(t) == rust_scalar(t),
        ffi_param_type(ScalarType::String) == "*const c_char"@,
        ffi_ret_type(ScalarType::String) == "*mut c_char"@,
        rust_scalar(ScalarType::String) == "String"@,
        ffi_param_type(ScalarType::I32) != ffi_param_type(ScalarType::I64),
        ffi_param_type(ScalarType::Bool) != ffi_param_type(ScalarType::I32),
        ffi_param_type(ScalarType::Bool) != ffi_param_type(ScalarType::I64),
{
    reveal_strlit("i32");
    reveal_strlit("i64");
    reveal_strlit("bool");
    assert("i32"@[1] != "i64"@[1]);
    assert("bool"@.len() != "i32"@.len());
    assert("bool"@.len() != "i64"@.len());
}

// ───────────────────────── fixed text ─────────────────────────

pub open spec fn prelude_head() -> Seq<char> {
    "// Note: this file is `include!`d directly into src-harmony-napi/src/lib.rs,\n// which already has `pub mod commands; pub mod runtime;`. Avoid `use\n// crate::commands` here — that would shadow the submodule and cause E0255.\n// Fully-qualified paths throughout instead.\n\nuse std::ffi::{CStr, CString};\nuse std::os::raw::{c_char, c_int, c_void};\nuse std::sync::OnceLock;\n"@
}

fn prelude_head_str() -> (r: &'static str)
    ensures
        r@ == prelude_head(),
{
    "// Note: this file is `include!`d directly into src-harmony-napi/src/lib.rs,\n// which already has `pub mod commands; pub mod runtime;`. Avoid `use\n// crate::commands` here — that would shadow the submodule and cause E0255.\n// Fully-qualified paths throughout instead.\n\nuse std::ffi::{CStr, CString};\nuse std::os::raw::{c_char, c_int, c_void};\nuse std::sync::OnceLock;\n"
}

pub open spec fn prelude_atomic_import() -> Seq<char> {
    "use std::sync::atomic::{AtomicBool, Ordering};\n"@
}

fn prelude_atomic_import_str() -> (r: &'static str)
    ensures
        r@ == prelude_atomic_import(),
{
    "use std::sync::atomic::{AtomicBool, Ordering};\n"
}

pub open spec fn prelude_tail() -> Seq<char> {
    "use std::sync::Arc;\n\n/// Global tokio runtime used by every `#[shibei_napi(async)]` command.\n/// 4 worker threads is plenty for Phase 2 / Phase 3 workloads; revisit if\n/// sync throughput (first-time bulk apply_entries) becomes a bottleneck.\nfn runtime() -> &'static tokio::runtime::Runtime {\n    static RT: OnceLock<tokio::runtime::Runtime> = OnceLock::new();\n    RT.get_or_init(|| {\n        tokio::runtime::Builder::new_multi_thread()\n            .worker_threads(4)\n            .enable_all()\n            .build()\n            .expect(\"tokio runtime build\")\n    })\n}\n\nextern \"C\" {\n    fn shibei_async_resolve(ctx: *mut c_void, ok: c_int, payload: *const c_char);\n    fn shibei_event_emit_i64(ctx: *mut c_void, payload: i64);\n}\n\n#[no_mangle]\npub unsafe extern \"C\" fn shibei_ffi_free_cstring(p: *mut c_char) {\n    if !p.is_null() {\n        drop(CString::from_raw(p));\n    }\n}\n\nfn cstr_to_string(p: *const c_char) -> String {\n    if p.is_null() { return String::new() }\n    unsafe { CStr::from_ptr(p) }.to_str().unwrap_or(\"\").to_owned()\n}\n\nfn leak_cstring(s: String) -> *mut c_char {\n    CString::new(s).unwrap_or_default().into_raw()\n}\n\n"@
}

fn prelude_tail_str() -> (r: &'static str)
    ensures
        r@ == prelude_tail(),
{
    "use std::sync::Arc;\n\n/// Global tokio runtime used by every `#[shibei_napi(async)]` command.\n/// 4 worker threads is plenty for Phase 2 / Phase 3 workloads; revisit if\n/// sync throughput (first-time bulk apply_entries) becomes a bottleneck.\nfn runtime() -> &'static tokio::runtime::Runtime {\n    static RT: OnceLock<tokio::runtime::Runtime> = OnceLock::new();\n    RT.get_or_init(|| {\n        tokio::runtime::Builder::new_multi_thread()\n            .worker_threads(4)\n            .enable_all()\n            .build()\n            .expect(\"tokio runtime build\")\n    })\n}\n\nextern \"C\" {\n    fn shibei_async_resolve(ctx: *mut c_void, ok: c_int, payload: *const c_char);\n    fn shibei_event_emit_i64(ctx: *mut c_void, payload: i64);\n}\n\n#[no_mangle]\npub unsafe extern \"C\" fn shibei_ffi_free_cstring(p: *mut c_char) {\n    if !p.is_null() {\n        drop(CString::from_raw(p));\n    }\n}\n\nfn cstr_to_string(p: *const c_char) -> String {\n    if p.is_null() { return String::new() }\n    unsafe { CStr::from_ptr(p) }.to_str().unwrap_or(\"\").to_owned()\n}\n\nfn leak_cstring(s: String) -> *mut c_char {\n    CString::new(s).unwrap_or_default().into_raw()\n}\n\n"
}

/// Imports, the tokio runtime and the C-string helpers shared by all entries.
pub open spec fn bindings_prelude() -> Seq<char> {
    prelude_head() + prelude_atomic_import() + prelude_tail()
}

pub open spec fn cancel_store_line() -> Seq<char> {
    "    cancel.store(true, Ordering::SeqCst);\n"@
}

fn cancel_store_line_str() -> (r: &'static str)
    ensures
        r@ == cancel_store_line(),
{
    "    cancel.store(true, Ordering::SeqCst);\n"
}

// ───────────────────────── per command ─────────────────────────

pub open spec fn entry_head(c: Command) -> Seq<char> {
    "#[no_mangle]\n"@ + "pub unsafe extern \"C\" fn shibei_ffi_"@ + c.rust_ident@
}

pub open spec fn sync_entry(c: Command) -> Seq<char> {
    let call = "crate::commands::"@ + c.rust_ident@ + "("@ + arg_list(c.args@, ArgForm::SyncUserArg) + ")"@;
    let body = match c.ret {
        ScalarType::String => "    let s = "@ + call + ";\n"@ + "    leak_cstring(s)\n"@,
        ScalarType::VoidReturn => "    "@ + call + ";\n"@,
        _ => "    "@ + call + "\n"@,
    };
    entry_head(c) + "("@ + arg_list(c.args@, ArgForm::FfiParam) + ") -> "@ + ffi_ret_type(c.ret)
        + " {\n"@ + body + "}\n\n"@
}

/// `let x = cstr_to_string(x);` for a string argument, nothing otherwise.
pub open spec fn owned_let(a: Arg) -> Seq<char> {
    if a.ty == ScalarType::String {
        "    let "@ + a.rust_name@ + " = cstr_to_string("@ + a.rust_name@ + ");\n"@
    } else {
        seq![]
    }
}

pub open spec fn owned_lets(args: Seq<Arg>) -> Seq<char>
    decreases args.len(),
{
    if args.len() == 0 {
        seq![]
    } else {
        owned_lets(args.drop_last()) + owned_let(args.last())
    }
}

pub open spec fn async_resolve_string() -> Seq<char> {
    "        match result {\n            Ok(s) => {\n                let c = CString::new(s).unwrap_or_default();\n                unsafe { shibei_async_resolve(ctx, 1, c.as_ptr()); }\n            }\n            Err(e) => {\n                let c = CString::new(e.to_string()).unwrap_or_default();\n                unsafe { shibei_async_resolve(ctx, 0, c.as_ptr()); }\n            }\n        }\n"@
}

pub open spec fn async_resolve_other() -> Seq<char> {
    "        // Async codegen for non-String returns not implemented yet.\n        let _ = result;\n        unsafe { shibei_async_resolve(ctx, 0, std::ptr::null()); }\n"@
}

pub open spec fn async_entry(c: Command) -> Seq<char> {
    entry_head(c) + "("@ + arg_list_then(c.args@, ArgForm::FfiParam, "ctx: *mut c_void"@) + ") {\n"@
        + owned_lets(c.args@) + "    let ctx_addr = ctx as usize;\n"@
        + "    runtime().spawn(async move {\n"@ + "        let result = crate::commands::"@
        + c.rust_ident@ + "("@ + arg_list(c.args@, ArgForm::RustName) + ").await;\n"@
        + "        let ctx = ctx_addr as *mut c_void;\n"@ + (if c.ret == ScalarType::String {
        async_resolve_string()
    } else {
        async_resolve_other()
    }) + "    });\n"@ + "}\n\n"@
}

pub open spec fn event_subscribe(c: Command) -> Seq<char> {
    entry_head(c) + "("@ + arg_list_then(c.args@, ArgForm::FfiParam, "ctx: *mut c_void"@)
        + ") -> *mut c_void {\n"@ + "    let cancel = Arc::new(AtomicBool::new(false));\n"@
        + "    let cb = crate::runtime::ThreadsafeCallback::<"@ + rust_scalar(c.ret)
        + ">::new(ctx, cancel.clone(), |ctx, v| { shibei_event_emit_i64(ctx, v); });\n"@
        + "    let _sub: crate::runtime::Subscription = crate::commands::"@ + c.rust_ident@ + "("@
        + arg_list_then(c.args@, ArgForm::RustName, "cb"@) + ");\n"@
        + "    // Ownership: cancel flag's Arc is returned as the C token.\n"@
        + "    Arc::into_raw(cancel) as *mut c_void\n"@ + "}\n\n"@
}

pub open spec fn event_unsubscribe(c: Command) -> Seq<char> {
    entry_head(c) + "_unsubscribe(token: *mut c_void) {\n"@ + "    if token.is_null() { return; }\n"@
        + "    let cancel = unsafe { Arc::from_raw(token as *const AtomicBool) };\n"@
        + cancel_store_line() + "}\n\n"@
}

pub open spec fn event_entry(c: Command) -> Seq<char> {
    event_subscribe(c) + event_unsubscribe(c)
}

#[verifier::opaque]
pub open spec fn binding_entry(c: Command) -> Seq<char> {
    match c.kind {
        Kind::Sync => sync_entry(c),
        Kind::Async => async_entry(c),
        Kind::Event => event_entry(c),
    }
}

pub open spec fn binding_entries(cmds: Seq<Command>) -> Seq<char>
    decreases cmds.len(),
{
    if cmds.len() == 0 {
        seq![]
    } else {
        binding_entries(cmds.drop_last()) + binding_entry(cmds.last())
    }
}

/// The whole `bindings.rs`.
pub open spec fn bindings_text(cmds: Seq<Command>) -> Seq<char> {
    file_banner() + bindings_prelude() + binding_entries(cmds)
}

fn push_entry_head(out: &mut String, c: &Command)
    ensures
        final(out)@ == old(out)@ + entry_head(*c),
{
    let ghost start = out@;
    out.append("#[no_mangle]\n");
    out.append("pub unsafe extern \"C\" fn shibei_ffi_");
    out.append(c.rust_ident.as_str());
    assert(out@ == start + entry_head(*c));
}

fn push_sync_entry(out: &mut String, c: &Command)
    requires
        c.kind == Kind::Sync,
    ensures
        final(out)@ == old(out)@ + binding_entry(*c),
{
    reveal(binding_entry);
    let ghost start = out@;
    push_entry_head(out, c);
    out.append("(");
    push_arg_list(out, &c.args, ArgForm::FfiParam);
    out.append(") -> ");
    out.append(ffi_ret_ty(c.ret));
    out.append(" {\n");
    let ghost mid = out@;
    match c.ret {
        ScalarType::String => {
            out.append("    let s = ");
        },
        _ => {
            out.append("    ");
        },
    }
    out.append("crate::commands::");
    out.append(c.rust_ident.as_str());
    out.append("(");
    push_arg_list(out, &c.args, ArgForm::SyncUserArg);
    out.append(")");
    match c.ret {
        ScalarType::String => {
            out.append(";\n");
            out.append("    leak_cstring(s)\n");
        },
        ScalarType::VoidReturn => {
            out.append(";\n");
        },
        _ => {
            out.append("\n");
        },
    }
    out.append("}\n\n");
    assert(out@ == start + binding_entry(*c));
}

fn push_owned_lets(out: &mut String, args: &Vec<Arg>)
    ensures
        final(out)@ == old(out)@ + owned_lets(args@),
{
    let ghost start = out@;
    let mut i: usize = 0;
    while i < args.len()
        invariant
            0 <= i <= args.len(),
            out@ == start + owned_lets(args@.take(i as int)),
        decreases args.len() - i,
    {
        let a = &args[i];
        let ghost before = out@;
        if a.ty == ScalarType::String {
            out.append("    let ");
            out.append(a.rust_name.as_str());
            out.append(" = cstr_to_string(");
            out.append(a.rust_name.as_str());
            out.append(");\n");
        }
        proof {
            let t = args@.take(i + 1);
            assert(t.drop_last() =~= args@.take(i as int));
            assert(out@ == before + owned_let(*a));
        }
        i = i + 1;
        assert(out@ == start + owned_lets(args@.take(i as int)));
    }
    assert(args@.take(i as int) =~= args@);
}

fn push_async_entry(out: &mut String, c: &Command)
    requires
        c.kind == Kind::Async,
    ensures
        final(out)@ == old(out)@ + binding_entry(*c),
{
    reveal(binding_entry);
    let ghost start = out@;
    push_entry_head(out, c);
    out.append("(");
    push_arg_list_then(out, &c.args, ArgForm::FfiParam, "ctx: *mut c_void");
    out.append(") {\n");
    push_owned_lets(out, &c.args);
    out.append("    let ctx_addr = ctx as usize;\n");
    out.append("    runtime().spawn(async move {\n");
    out.append("        let result = crate::commands::");
    out.append(c.rust_ident.as_str());
    out.append("(");
    push_arg_list(out, &c.args, ArgForm::RustName);
    out.append(").await;\n");
    out.append("        let ctx = ctx_addr as *mut c_void;\n");
    if c.ret == ScalarType::String {
        out.append("        match result {\n            Ok(s) => {\n                let c = CString::new(s).unwrap_or_default();\n                unsafe { shibei_async_resolve(ctx, 1, c.as_ptr()); }\n            }\n            Err(e) => {\n                let c = CString::new(e.to_string()).unwrap_or_default();\n                unsafe { shibei_async_resolve(ctx, 0, c.as_ptr()); }\n            }\n        }\n");
    } else {
        out.append("        // Async codegen for non-String returns not implemented yet.\n        let _ = result;\n        unsafe { shibei_async_resolve(ctx, 0, std::ptr::null()); }\n");
    }
    out.append("    });\n");
    out.append("}\n\n");
    assert(out@ == start + binding_entry(*c));
}

fn push_event_subscribe(out: &mut String, c: &Command)
    ensures
        final(out)@ == old(out)@ + event_subscribe(*c),
{
    let ghost start = out@;
    push_entry_head(out, c);
    out.append("(");
    push_arg_list_then(out, &c.args, ArgForm::FfiParam, "ctx: *mut c_void");
    out.append(") -> *mut c_void {\n");
    out.append("    let cancel = Arc::new(AtomicBool::new(false));\n");
    out.append("    let cb = crate::runtime::ThreadsafeCallback::<");
    out.append(rust_scalar_ty(c.ret));
    out.append(">::new(ctx, cancel.clone(), |ctx, v| { shibei_event_emit_i64(ctx, v); });\n");
    out.append("    let _sub: crate::runtime::Subscription = crate::commands::");
    out.append(c.rust_ident.as_str());
    out.append("(");
    push_arg_list_then(out, &c.args, ArgForm::RustName, "cb");
    out.append(");\n");
    out.append("    // Ownership: cancel flag's Arc is returned as the C token.\n");
    out.append("    Arc::into_raw(cancel) as *mut c_void\n");
    out.append("}\n\n");
    assert(out@ == start + event_subscribe(*c));
}

fn push_event_unsubscribe(out: &mut String, c: &Command)
    ensures
        final(out)@ == old(out)@ + event_unsubscribe(*c),
{
    let ghost start = out@;
    push_entry_head(out, c);
    out.append("_unsubscribe(token: *mut c_void) {\n");
    out.append("    if token.is_null() { return; }\n");
    out.append("    let cancel = unsafe { Arc::from_raw(token as *const AtomicBool) };\n");
    out.append(cancel_store_line_str());
    out.append("}\n\n");
    assert(out@ == start + event_unsubscribe(*c));
}

fn push_event_entry(out: &mut String, c: &Command)
    requires
        c.kind == Kind::Event,
    ensures
        final(out)@ == old(out)@ + binding_entry(*c),
{
    reveal(binding_entry);
    let ghost start = out@;
    push_event_subscribe(out, c);
    push_event_unsubscribe(out, c);
    assert(out@ == start + binding_entry(*c));
}

/// Renders `bindings.rs`: the banner, the shared prelude, then each
/// command's FFI entry point (two for an event: subscribe and
/// unsubscribe), in order.
pub fn render(commands: &[Command]) -> (out: String)
    ensures
        out@ == bindings_text(commands@),
{
    let mut out = String::new();
    push_file_banner(&mut out);
    out.append(prelude_head_str());
    out.append(prelude_atomic_import_str());
    out.append(prelude_tail_str());
    assert(out@ == file_banner() + bindings_prelude());
    let mut i: usize = 0;
    while i < commands.len()
        invariant
            0 <= i <= commands.len(),
            out@ == file_banner() + bindings_prelude() + binding_entries(commands@.take(i as int)),
        decreases commands.len() - i,
    {
        let c = &commands[i];
        match c.kind {
            Kind::Sync => push_sync_entry(&mut out, c),
            Kind::Async => push_async_entry(&mut out, c),
            Kind::Event => push_event_entry(&mut out, c),
        }
        proof {
            let t = commands@.take(i + 1);
            assert(t.drop_last() =~= commands@.take(i as int));
        }
        i = i + 1;
        assert(out@ == file_banner() + bindings_prelude() + binding_entries(commands@.take(i as int)));
    }
    assert(commands@.take(i as int) =~= commands@);
    out
}

} // verus!
