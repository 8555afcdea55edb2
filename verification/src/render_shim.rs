//! C N-API shim (`shim.c`): prototypes of the Rust entry points, one N-API
//! wrapper per command and the `shibei_core` module registration.

use vstd::prelude::*;
use vstd::string::StringExecFns;
use crate::codegen::{
    arg_list, arg_list_then, push_arg_list, push_arg_list_then, push_decimal, ArgForm, Arg,
    Command, Kind, ScalarType,
};
use crate::decimal::decimal;
use crate::render_dts::{file_banner, push_file_banner};

verus! {

broadcast use crate::text::group_concat;

/// C type of a return value.
pub open spec fn c_ret_type_text(t: ScalarType) -> Seq<char> {
    match t {
        ScalarType::I32 => "int32_t"@,
        ScalarType::I64 => "int64_t"@,
        ScalarType::Bool => "bool"@,
        ScalarType::String => "char*"@,
        ScalarType::VoidReturn => "void"@,
    }
}

pub fn c_ret_type(t: ScalarType) -> (r: &'static str)
    ensures
        r@ == c_ret_type_text(t),
        t is I32 ==> r@ == "int32_t"@,
        t is I64 ==> r@ == "int64_t"@,
        t is Bool ==> r@ == "bool"@,
        t is String ==> r@ == "char*"@,
        t is VoidReturn ==> r@ == "void"@,
{
    match t {
        ScalarType::I32 => "int32_t",
        ScalarType::I64 => "int64_t",
        ScalarType::Bool => "bool",
        ScalarType::String => "char*",
        ScalarType::VoidReturn => "void",
    }
}

/// C type of a parameter.
pub open spec fn c_arg_type_text(t: ScalarType) -> Seq<char> {
    match t {
        ScalarType::I32 => "int32_t"@,
        ScalarType::I64 => "int64_t"@,
        ScalarType::Bool => "bool"@,
        ScalarType::String => "const char*"@,
        ScalarType::VoidReturn => "void"@,
    }
}

pub fn c_arg_type(t: ScalarType) -> (r: &'static str)
    ensures
        r@ == c_arg_type_text(t),
        t is I32 ==> r@ == "int32_t"@,
        t is I64 ==> r@ == "int64_t"@,
        t is Bool ==> r@ == "bool"@,
        t is String ==> r@ == "const char*"@,
        t is VoidReturn ==> r@ == "void"@,
{
    match t {
        ScalarType::I32 => "int32_t",
        ScalarType::I64 => "int64_t",
        ScalarType::Bool => "bool",
        ScalarType::String => "const char*",
        ScalarType::VoidReturn => "void",
    }
}

/// Law: the C shim spells each integer by its fixed width (`int32_t`,
/// `int64_t`) and a boolean `bool`, alike as parameter and result; a string
/// is a `const char*` going in and a `char*` coming out.
pub proof fn lemma_c_spellings(t: ScalarType)
    ensures
        t is I32 ==> c_arg_type_text(t) == "int32_t"@,
        t is I64 ==> c_arg_type_text(t) == "int64_t"@,
        t is Bool ==> c_arg_type_text(t) == "bool"@,
        !(t is String) ==> c_arg_type_text(t) == c_ret_type_text(t),
        c_arg_type_text(ScalarType::String) == "const char*"@,
        c_ret_type_text(ScalarType::String) == "char*"@,
        c_arg_type_text(ScalarType::I32) != c_arg_type_text(ScalarType::I64),
        c_arg_type_text(ScalarType::Bool) != c_arg_type_text(ScalarType::I32),
{
    reveal_strlit("int32_t");
    reveal_strlit("int64_t");
    reveal_strlit("bool");
    assert("int32_t"@[3] != "int64_t"@[3]);
    assert("bool"@.len() != "int32_t"@.len());
}

/// Commands the shim can wrap: no argument is declared `void`, and an event
/// command's argument count plus its callback fits in `usize`.
pub open spec fn shim_commands_ok(cmds: Seq<Command>) -> bool {
    forall|k: int| 0 <= k < cmds.len() ==> command_ok(#[trigger] cmds[k])
}

pub open spec fn command_ok(c: Command) -> bool {
    &&& c.args.len() < usize::MAX
    &&& forall|j: int| 0 <= j < c.args.len() ==> (#[trigger] c.args@[j]).ty != ScalarType::VoidReturn
}

// ───────────────────────── fixed text ─────────────────────────

pub open spec fn shim_includes() -> Seq<char> {
    "#include \"napi/native_api.h\"\n#include <stddef.h>\n#include <stdint.h>\n#include <stdlib.h>\n#include <string.h>\n\n// Rust-owned heap string; pair every returning pointer with a free.\nextern void shibei_ffi_free_cstring(char* p);\n\n"@
}

pub open spec fn externs_head() -> Seq<char> {
    "// ── Rust FFI entry points (see generated/bindings.rs) ─────────────\n"@
}

pub open spec fn externs_tail() -> Seq<char> {
    "\n// C callbacks invoked from Rust worker threads.\nvoid shibei_async_resolve(void* ctx, int ok, const char* payload);\nvoid shibei_event_emit_i64(void* ctx, int64_t payload);\n\n"@
}

pub open spec fn async_plumbing() -> Seq<char> {
    "// ── Shared async plumbing ─────────────────────────────────────────\n"@ + "typedef struct {\n    napi_threadsafe_function tsfn;\n    napi_deferred deferred;\n    char* payload;   // strdup'd by shibei_async_resolve, freed by completion cb\n    int ok;\n} AsyncCtx;\n\n// Called by Rust from a tokio worker thread.\nvoid shibei_async_resolve(void* ctx_ptr, int ok, const char* payload) {\n    AsyncCtx* ctx = (AsyncCtx*)ctx_ptr;\n    ctx->ok = ok;\n    ctx->payload = payload ? strdup(payload) : NULL;\n    napi_call_threadsafe_function(ctx->tsfn, ctx, napi_tsfn_nonblocking);\n}\n\nstatic void async_complete_cb(napi_env env, napi_value js_cb, void* ctx_ptr, void* data) {\n    (void)js_cb; (void)ctx_ptr;\n    AsyncCtx* ctx = (AsyncCtx*)data;\n    napi_value value = NULL;\n    napi_create_string_utf8(env, ctx->payload ? ctx->payload : \"\", NAPI_AUTO_LENGTH, &value);\n    if (ctx->ok) napi_resolve_deferred(env, ctx->deferred, value);\n    else         napi_reject_deferred(env, ctx->deferred, value);\n    if (ctx->payload) free(ctx->payload);\n    napi_release_threadsafe_function(ctx->tsfn, napi_tsfn_release);\n    free(ctx);\n}\n"@
}

pub open spec fn event_plumbing() -> Seq<char> {
    "\n// ── Shared event plumbing (i64 payload) ───────────────────────────\n"@ + "typedef struct {\n    napi_threadsafe_function tsfn;\n    void* token;  // opaque Rust subscription handle\n} EventCtx;\n\ntypedef struct { int64_t value; } I64Payload;\n\n// Called by Rust worker thread to fire a single i64 event.\nvoid shibei_event_emit_i64(void* ctx_ptr, int64_t payload) {\n    EventCtx* ctx = (EventCtx*)ctx_ptr;\n    I64Payload* p = (I64Payload*)malloc(sizeof(I64Payload));\n    p->value = payload;\n    napi_call_threadsafe_function(ctx->tsfn, p, napi_tsfn_nonblocking);\n}\n\nstatic void event_i64_cb(napi_env env, napi_value js_cb, void* ctx_ptr, void* data) {\n    (void)ctx_ptr;\n    I64Payload* p = (I64Payload*)data;\n    napi_value v = NULL;\n    napi_create_int64(env, p->value, &v);\n    napi_value undef = NULL; napi_get_undefined(env, &undef);\n    napi_value ret = NULL;\n    napi_call_function(env, undef, js_cb, 1, &v, &ret);\n    free(p);\n}\n"@
}

pub open spec fn wrappers_head() -> Seq<char> {
    "\n// ── Per-command NAPI wrappers ─────────────────────────────────────\n"@
}

pub open spec fn module_head() -> Seq<char> {
    "// ── Module registration ───────────────────────────────────────────\nstatic napi_value shibei_register_exports(napi_env env, napi_value exports) {\n    napi_property_descriptor props[] = {\n"@
}

pub open spec fn module_tail() -> Seq<char> {
    "    };\n    napi_define_properties(env, exports, sizeof(props) / sizeof(props[0]), props);\n    return exports;\n}\n\n"@ + "static napi_module shibei_module = {\n    .nm_version = 1,\n    .nm_flags = 0,\n    .nm_filename = NULL,\n    .nm_register_func = shibei_register_exports,\n    .nm_modname = \"shibei_core\",\n    .nm_priv = NULL,\n    .reserved = {NULL, NULL, NULL, NULL},\n};\n\n__attribute__((used, constructor))\nvoid register_shibei_core(void) {\n    napi_module_register(&shibei_module);\n}\n"@
}

// ───────────────────────── argument extraction ─────────────────────────

/// `<decl><name><init><i><getter><i>], &v_<name>);` for a numeric or
/// boolean argument at position `i`.
pub open spec fn scalar_extract(decl: Seq<char>, init: Seq<char>, getter: Seq<char>, i: nat, name: Seq<char>) -> Seq<char> {
    decl + name + init + decimal(i) + getter + decimal(i) + "], &v_"@ + name + ");\n"@
}

/// The C lines that read argument `i` of the JS call into a local.
pub open spec fn extract_line(i: nat, a: Arg) -> Seq<char> {
    let n = a.rust_name@;
    match a.ty {
        ScalarType::String => "    char buf_"@ + n + "[4096] = {0};\n"@ + "    if ("@ + decimal(i)
            + " < argc) { size_t len = 0; napi_get_value_string_utf8(env, args["@ + decimal(i)
            + "], buf_"@ + n + ", sizeof(buf_"@ + n + "), &len); }\n"@,
        ScalarType::I32 => scalar_extract(
            "    int32_t v_"@,
            " = 0; if ("@,
            " < argc) napi_get_value_int32(env, args["@,
            i,
            n,
        ),
        ScalarType::I64 => scalar_extract(
            "    int64_t v_"@,
            " = 0; if ("@,
            " < argc) napi_get_value_int64(env, args["@,
            i,
            n,
        ),
        ScalarType::Bool => scalar_extract(
            "    bool v_"@,
            " = false; if ("@,
            " < argc) napi_get_value_bool(env, args["@,
            i,
            n,
        ),
        ScalarType::VoidReturn => seq![],
    }
}

pub open spec fn extract_lines(args: Seq<Arg>) -> Seq<char>
    decreases args.len(),
{
    if args.len() == 0 {
        seq![]
    } else {
        extract_lines(args.drop_last()) + extract_line((args.len() - 1) as nat, args.last())
    }
}

fn push_scalar_extract(out: &mut String, decl: &str, init: &str, getter: &str, i: usize, name: &str)
    ensures
        final(out)@ == old(out)@ + scalar_extract(decl@, init@, getter@, i as nat, name@),
{
    let ghost start = out@;
    out.append(decl);
    out.append(name);
    out.append(init);
    push_decimal(out, i);
    out.append(getter);
    push_decimal(out, i);
    out.append("], &v_");
    out.append(name);
    out.append(");\n");
    assert(out@ == start + scalar_extract(decl@, init@, getter@, i as nat, name@));
}

fn push_extract_line(out: &mut String, i: usize, a: &Arg)
    requires
        a.ty != ScalarType::VoidReturn,
    ensures
        final(out)@ == old(out)@ + extract_line(i as nat, *a),
{
    let ghost start = out@;
    let n = a.rust_name.as_str();
    match a.ty {
        ScalarType::String => {
            out.append("    char buf_");
            out.append(n);
            out.append("[4096] = {0};\n");
            out.append("    if (");
            push_decimal(out, i);
            out.append(" < argc) { size_t len = 0; napi_get_value_string_utf8(env, args[");
            push_decimal(out, i);
            out.append("], buf_");
            out.append(n);
            out.append(", sizeof(buf_");
            out.append(n);
            out.append("), &len); }\n");
            assert(out@ == start + extract_line(i as nat, *a));
        },
        ScalarType::I32 => {
            push_scalar_extract(out, "    int32_t v_", " = 0; if (", " < argc) napi_get_value_int32(env, args[", i, n);
        },
        ScalarType::I64 => {
            push_scalar_extract(out, "    int64_t v_", " = 0; if (", " < argc) napi_get_value_int64(env, args[", i, n);
        },
        ScalarType::Bool => {
            push_scalar_extract(out, "    bool v_", " = false; if (", " < argc) napi_get_value_bool(env, args[", i, n);
        },
        ScalarType::VoidReturn => {},
    }
}

fn push_extract_lines(out: &mut String, args: &Vec<Arg>)
    requires
        forall|j: int| 0 <= j < args.len() ==> (#[trigger] args@[j]).ty != ScalarType::VoidReturn,
    ensures
        final(out)@ == old(out)@ + extract_lines(args@),
{
    let ghost start = out@;
    let mut i: usize = 0;
    while i < args.len()
        invariant
            0 <= i <= args.len(),
            forall|j: int| 0 <= j < args.len() ==> (#[trigger] args@[j]).ty != ScalarType::VoidReturn,
            out@ == start + extract_lines(args@.take(i as int)),
        decreases args.len() - i,
    {
        let ghost before = out@;
        push_extract_line(out, i, &args[i]);
        proof {
            let t = args@.take(i + 1);
            assert(t.drop_last() =~= args@.take(i as int));
            assert(t.last() == args@[i as int]);
        }
        i = i + 1;
        assert(out@ == start + extract_lines(args@.take(i as int)));
    }
    assert(args@.take(i as int) =~= args@);
}

// ───────────────────────── per command ─────────────────────────

/// Prototype(s) of a command's Rust entry point.
#[verifier::opaque]
pub open spec fn extern_decl(c: Command) -> Seq<char> {
    match c.kind {
        Kind::Sync => "extern "@ + c_ret_type_text(c.ret) + " shibei_ffi_"@ + c.rust_ident@ + "("@
            + (if c.args.len() == 0 {
            "void"@
        } else {
            arg_list(c.args@, ArgForm::CParam)
        }) + ");\n"@,
        Kind::Async => "extern void shibei_ffi_"@ + c.rust_ident@ + "("@ + arg_list_then(
            c.args@,
            ArgForm::CParam,
            "void* ctx"@,
        ) + ");\n"@,
        Kind::Event => "extern void* shibei_ffi_"@ + c.rust_ident@ + "("@ + arg_list_then(
            c.args@,
            ArgForm::CParam,
            "void* ctx"@,
        ) + ");\n"@ + "extern void shibei_ffi_"@ + c.rust_ident@ + "_unsubscribe(void* token);\n"@,
    }
}

/// Forward declaration of an event command's unsubscribe wrapper.
#[verifier::opaque]
pub open spec fn forward_decl(c: Command) -> Seq<char> {
    if c.kind == Kind::Event {
        "static napi_value "@ + c.rust_ident@ + "_unsubscribe_wrap(napi_env env, napi_callback_info info);\n"@
    } else {
        seq![]
    }
}

pub open spec fn wrap_head(c: Command) -> Seq<char> {
    "static napi_value "@ + c.rust_ident@ + "_wrap(napi_env env, napi_callback_info info) {\n"@
}

pub open spec fn argc_line(n: nat) -> Seq<char> {
    "    size_t argc = "@ + decimal(n) + ";\n"@
}

pub open spec fn args_array_line(n: nat) -> Seq<char> {
    "    napi_value args["@ + decimal(n) + "] = {0};\n"@
}

pub open spec fn cb_info_line() -> Seq<char> {
    "    napi_get_cb_info(env, info, &argc, args, NULL, NULL);\n"@
}

#[verifier::opaque]
pub open spec fn sync_call(c: Command) -> Seq<char> {
    let call = "shibei_ffi_"@ + c.rust_ident@ + "("@ + arg_list(c.args@, ArgForm::CCallArg) + ");\n"@;
    match c.ret {
        ScalarType::String => "    char* ret = "@ + call
            + "    napi_create_string_utf8(env, ret ? ret : \"\", NAPI_AUTO_LENGTH, &result);\n"@
            + "    if (ret) shibei_ffi_free_cstring(ret);\n"@,
        ScalarType::I32 => "    int32_t ret = "@ + call + "    napi_create_int32(env, ret, &result);\n"@,
        ScalarType::I64 => "    int64_t ret = "@ + call + "    napi_create_int64(env, ret, &result);\n"@,
        ScalarType::Bool => "    bool ret = "@ + call + "    napi_get_boolean(env, ret, &result);\n"@,
        ScalarType::VoidReturn => "    "@ + call + "    napi_get_undefined(env, &result);\n"@,
    }
}

/// Locals holding the JS arguments of a sync call.
pub open spec fn sync_prologue(c: Command) -> Seq<char> {
    let n = c.args.len() as nat;
    if n == 0 {
        "    (void)info;\n"@
    } else {
        argc_line(n) + args_array_line(n) + cb_info_line() + extract_lines(c.args@)
    }
}

pub open spec fn sync_wrapper(c: Command) -> Seq<char> {
    wrap_head(c) + sync_prologue(c) + "    napi_value result = NULL;\n"@ + sync_call(c)
        + "    return result;\n"@ + "}\n"@
}

pub open spec fn async_wrapper(c: Command) -> Seq<char> {
    let n = c.args.len() as nat;
    wrap_head(c) + argc_line(n) + (if n > 0 {
        args_array_line(n)
    } else {
        "    napi_value* args = NULL;\n"@
    }) + cb_info_line() + extract_lines(c.args@)
        + "    AsyncCtx* ctx = (AsyncCtx*)calloc(1, sizeof(AsyncCtx));\n    napi_value promise = NULL;\n    napi_create_promise(env, &ctx->deferred, &promise);\n    napi_value res_name = NULL;\n    napi_create_string_utf8(env, \""@
        + c.js_name@ + "_tsfn\", NAPI_AUTO_LENGTH, &res_name);\n"@
        + "    napi_create_threadsafe_function(env, NULL, NULL, res_name, 0, 1, NULL, NULL, NULL, async_complete_cb, &ctx->tsfn);\n"@
        + "    shibei_ffi_"@ + c.rust_ident@ + "("@ + arg_list_then(c.args@, ArgForm::CCallArg, "ctx"@)
        + ");\n"@ + "    return promise;\n}\n"@
}

pub open spec fn event_wrapper(c: Command) -> Seq<char> {
    let n = c.args.len() as nat;
    wrap_head(c) + argc_line(n + 1) + args_array_line(n + 1) + cb_info_line() + extract_lines(c.args@)
        + "    EventCtx* ctx = (EventCtx*)calloc(1, sizeof(EventCtx));\n    napi_value res_name = NULL;\n    napi_create_string_utf8(env, \""@
        + c.js_name@ + "_tsfn\", NAPI_AUTO_LENGTH, &res_name);\n"@
        + "    napi_create_threadsafe_function(env, args["@ + decimal(n)
        + "], NULL, res_name, 0, 1, NULL, NULL, NULL, event_i64_cb, &ctx->tsfn);\n"@
        + "    ctx->token = shibei_ffi_"@ + c.rust_ident@ + "("@ + arg_list_then(
        c.args@,
        ArgForm::CCallArg,
        "ctx"@,
    ) + ");\n"@
        + "    // Return a JS fn that unsubscribes when invoked.\n    napi_value unsubscribe = NULL;\n    napi_create_function(env, \"unsubscribe\", NAPI_AUTO_LENGTH, "@
        + c.rust_ident@ + "_unsubscribe_wrap, ctx, &unsubscribe);\n    return unsubscribe;\n}\n\n"@
        + "static napi_value "@ + c.rust_ident@
        + "_unsubscribe_wrap(napi_env env, napi_callback_info info) {\n    void* data = NULL;\n    napi_get_cb_info(env, info, NULL, NULL, NULL, &data);\n    EventCtx* ctx = (EventCtx*)data;\n    if (ctx && ctx->token) {\n        shibei_ffi_"@
        + c.rust_ident@
        + "_unsubscribe(ctx->token);\n        ctx->token = NULL;\n        napi_release_threadsafe_function(ctx->tsfn, napi_tsfn_release);\n    }\n    napi_value undef = NULL; napi_get_undefined(env, &undef); return undef;\n}\n"@
}

/// A command's N-API wrapper followed by a blank line.
#[verifier::opaque]
pub open spec fn wrapper(c: Command) -> Seq<char> {
    (match c.kind {
        Kind::Sync => sync_wrapper(c),
        Kind::Async => async_wrapper(c),
        Kind::Event => event_wrapper(c),
    }) + "\n"@
}

/// The command's entry in the module's property table.
#[verifier::opaque]
pub open spec fn prop_line(c: Command) -> Seq<char> {
    "        {\""@ + c.js_name@ + "\", NULL, "@ + c.rust_ident@
        + "_wrap, NULL, NULL, NULL, napi_default, NULL},\n"@
}

/// Which per-command piece of the shim.
#[derive(Debug, Clone, Copy, PartialEq, Eq, Structural)]
pub enum ShimPiece {
    ExternDecl,
    ForwardDecl,
    Wrapper,
    PropLine,
}

pub open spec fn piece_text(p: ShimPiece, c: Command) -> Seq<char> {
    match p {
        ShimPiece::ExternDecl => extern_decl(c),
        ShimPiece::ForwardDecl => forward_decl(c),
        ShimPiece::Wrapper => wrapper(c),
        ShimPiece::PropLine => prop_line(c),
    }
}

pub open spec fn pieces(cmds: Seq<Command>, p: ShimPiece) -> Seq<char>
    decreases cmds.len(),
{
    if cmds.len() == 0 {
        seq![]
    } else {
        pieces(cmds.drop_last(), p) + piece_text(p, cmds.last())
    }
}

/// The whole `shim.c`.
pub open spec fn shim_text(cmds: Seq<Command>) -> Seq<char> {
    file_banner() + shim_includes() + externs_head() + pieces(cmds, ShimPiece::ExternDecl)
        + externs_tail() + async_plumbing() + event_plumbing() + wrappers_head() + pieces(
        cmds,
        ShimPiece::ForwardDecl,
    ) + "\n"@ + pieces(cmds, ShimPiece::Wrapper) + module_head() + pieces(cmds, ShimPiece::PropLine)
        + module_tail()
}

fn push_extern_decl(out: &mut String, c: &Command)
    ensures
        final(out)@ == old(out)@ + extern_decl(*c),
{
    reveal(extern_decl);
    let ghost start = out@;
    match c.kind {
        Kind::Sync => {
            out.append("extern ");
            out.append(c_ret_type(c.ret));
            out.append(" shibei_ffi_");
            out.append(c.rust_ident.as_str());
            out.append("(");
            if c.args.len() == 0 {
                out.append("void");
            } else {
                push_arg_list(out, &c.args, ArgForm::CParam);
            }
            out.append(");\n");
        },
        Kind::Async => {
            out.append("extern void shibei_ffi_");
            out.append(c.rust_ident.as_str());
            out.append("(");
            push_arg_list_then(out, &c.args, ArgForm::CParam, "void* ctx");
            out.append(");\n");
        },
        Kind::Event => {
            out.append("extern void* shibei_ffi_");
            out.append(c.rust_ident.as_str());
            out.append("(");
            push_arg_list_then(out, &c.args, ArgForm::CParam, "void* ctx");
            out.append(");\n");
            out.append("extern void shibei_ffi_");
            out.append(c.rust_ident.as_str());
            out.append("_unsubscribe(void* token);\n");
        },
    }
    assert(out@ == start + extern_decl(*c));
}

fn push_forward_decl(out: &mut String, c: &Command)
    ensures
        final(out)@ == old(out)@ + forward_decl(*c),
{
    reveal(forward_decl);
    let ghost start = out@;
    if c.kind == Kind::Event {
        out.append("static napi_value ");
        out.append(c.rust_ident.as_str());
        out.append("_unsubscribe_wrap(napi_env env, napi_callback_info info);\n");
        assert(out@ == start + forward_decl(*c));
    } else {
        assert(out@ == start + forward_decl(*c));
    }
}

fn push_wrap_head(out: &mut String, c: &Command)
    ensures
        final(out)@ == old(out)@ + wrap_head(*c),
{
    let ghost start = out@;
    out.append("static napi_value ");
    out.append(c.rust_ident.as_str());
    out.append("_wrap(napi_env env, napi_callback_info info) {\n");
    assert(out@ == start + wrap_head(*c));
}

fn push_argc_line(out: &mut String, n: usize)
    ensures
        final(out)@ == old(out)@ + argc_line(n as nat),
{
    let ghost start = out@;
    out.append("    size_t argc = ");
    push_decimal(out, n);
    out.append(";\n");
    assert(out@ == start + argc_line(n as nat));
}

fn push_args_array_line(out: &mut String, n: usize)
    ensures
        final(out)@ == old(out)@ + args_array_line(n as nat),
{
    let ghost start = out@;
    out.append("    napi_value args[");
    push_decimal(out, n);
    out.append("] = {0};\n");
    assert(out@ == start + args_array_line(n as nat));
}

fn push_sync_prologue(out: &mut String, c: &Command)
    requires
        command_ok(*c),
    ensures
        final(out)@ == old(out)@ + sync_prologue(*c),
{
    let ghost start = out@;
    let n = c.args.len();
    if n == 0 {
        out.append("    (void)info;\n");
    } else {
        push_argc_line(out, n);
        push_args_array_line(out, n);
        out.append("    napi_get_cb_info(env, info, &argc, args, NULL, NULL);\n");
        push_extract_lines(out, &c.args);
    }
    assert(out@ == start + sync_prologue(*c));
}

fn push_sync_call(out: &mut String, c: &Command)
    ensures
        final(out)@ == old(out)@ + sync_call(*c),
{
    reveal(sync_call);
    let ghost start = out@;
    match c.ret {
        ScalarType::String => out.append("    char* ret = "),
        ScalarType::I32 => out.append("    int32_t ret = "),
        ScalarType::I64 => out.append("    int64_t ret = "),
        ScalarType::Bool => out.append("    bool ret = "),
        ScalarType::VoidReturn => out.append("    "),
    }
    out.append("shibei_ffi_");
    out.append(c.rust_ident.as_str());
    out.append("(");
    push_arg_list(out, &c.args, ArgForm::CCallArg);
    out.append(");\n");
    match c.ret {
        ScalarType::String => {
            out.append("    napi_create_string_utf8(env, ret ? ret : \"\", NAPI_AUTO_LENGTH, &result);\n");
            out.append("    if (ret) shibei_ffi_free_cstring(ret);\n");
        },
        ScalarType::I32 => out.append("    napi_create_int32(env, ret, &result);\n"),
        ScalarType::I64 => out.append("    napi_create_int64(env, ret, &result);\n"),
        ScalarType::Bool => out.append("    napi_get_boolean(env, ret, &result);\n"),
        ScalarType::VoidReturn => out.append("    napi_get_undefined(env, &result);\n"),
    }
    assert(out@ == start + sync_call(*c));
}

fn push_sync_wrapper(out: &mut String, c: &Command)
    requires
        command_ok(*c),
    ensures
        final(out)@ == old(out)@ + sync_wrapper(*c),
{
    let ghost start = out@;
    push_wrap_head(out, c);
    push_sync_prologue(out, c);
    out.append("    napi_value result = NULL;\n");
    push_sync_call(out, c);
    out.append("    return result;\n");
    out.append("}\n");
    assert(out@ == start + sync_wrapper(*c));
}

fn push_async_wrapper(out: &mut String, c: &Command)
    requires
        command_ok(*c),
    ensures
        final(out)@ == old(out)@ + async_wrapper(*c),
{
    let ghost start = out@;
    push_wrap_head(out, c);
    let n = c.args.len();
    push_argc_line(out, n);
    if n > 0 {
        push_args_array_line(out, n);
    } else {
        out.append("    napi_value* args = NULL;\n");
    }
    out.append("    napi_get_cb_info(env, info, &argc, args, NULL, NULL);\n");
    push_extract_lines(out, &c.args);
    out.append(
        "    AsyncCtx* ctx = (AsyncCtx*)calloc(1, sizeof(AsyncCtx));\n    napi_value promise = NULL;\n    napi_create_promise(env, &ctx->deferred, &promise);\n    napi_value res_name = NULL;\n    napi_create_string_utf8(env, \"",
    );
    out.append(c.js_name.as_str());
    out.append("_tsfn\", NAPI_AUTO_LENGTH, &res_name);\n");
    out.append(
        "    napi_create_threadsafe_function(env, NULL, NULL, res_name, 0, 1, NULL, NULL, NULL, async_complete_cb, &ctx->tsfn);\n",
    );
    out.append("    shibei_ffi_");
    out.append(c.rust_ident.as_str());
    out.append("(");
    push_arg_list_then(out, &c.args, ArgForm::CCallArg, "ctx");
    out.append(");\n");
    out.append("    return promise;\n}\n");
    assert(out@ == start + async_wrapper(*c));
}

fn push_event_wrapper(out: &mut String, c: &Command)
    requires
        command_ok(*c),
    ensures
        final(out)@ == old(out)@ + event_wrapper(*c),
{
    let ghost start = out@;
    push_wrap_head(out, c);
    let n = c.args.len();
    push_argc_line(out, n + 1);
    push_args_array_line(out, n + 1);
    out.append("    napi_get_cb_info(env, info, &argc, args, NULL, NULL);\n");
    push_extract_lines(out, &c.args);
    let ghost mid = out@;
    out.append(
        "    EventCtx* ctx = (EventCtx*)calloc(1, sizeof(EventCtx));\n    napi_value res_name = NULL;\n    napi_create_string_utf8(env, \"",
    );
    out.append(c.js_name.as_str());
    out.append("_tsfn\", NAPI_AUTO_LENGTH, &res_name);\n");
    out.append("    napi_create_threadsafe_function(env, args[");
    push_decimal(out, n);
    out.append("], NULL, res_name, 0, 1, NULL, NULL, NULL, event_i64_cb, &ctx->tsfn);\n");
    out.append("    ctx->token = shibei_ffi_");
    out.append(c.rust_ident.as_str());
    out.append("(");
    push_arg_list_then(out, &c.args, ArgForm::CCallArg, "ctx");
    out.append(");\n");
    out.append(
        "    // Return a JS fn that unsubscribes when invoked.\n    napi_value unsubscribe = NULL;\n    napi_create_function(env, \"unsubscribe\", NAPI_AUTO_LENGTH, ",
    );
    out.append(c.rust_ident.as_str());
    out.append("_unsubscribe_wrap, ctx, &unsubscribe);\n    return unsubscribe;\n}\n\n");
    out.append("static napi_value ");
    out.append(c.rust_ident.as_str());
    out.append(
        "_unsubscribe_wrap(napi_env env, napi_callback_info info) {\n    void* data = NULL;\n    napi_get_cb_info(env, info, NULL, NULL, NULL, &data);\n    EventCtx* ctx = (EventCtx*)data;\n    if (ctx && ctx->token) {\n        shibei_ffi_",
    );
    out.append(c.rust_ident.as_str());
    out.append(
        "_unsubscribe(ctx->token);\n        ctx->token = NULL;\n        napi_release_threadsafe_function(ctx->tsfn, napi_tsfn_release);\n    }\n    napi_value undef = NULL; napi_get_undefined(env, &undef); return undef;\n}\n",
    );
    assert(out@ == start + event_wrapper(*c));
}

fn push_wrapper(out: &mut String, c: &Command)
    requires
        command_ok(*c),
    ensures
        final(out)@ == old(out)@ + wrapper(*c),
{
    reveal(wrapper);
    let ghost start = out@;
    match c.kind {
        Kind::Sync => push_sync_wrapper(out, c),
        Kind::Async => push_async_wrapper(out, c),
        Kind::Event => push_event_wrapper(out, c),
    }
    out.append("\n");
    assert(out@ == start + wrapper(*c));
}

fn push_prop_line(out: &mut String, c: &Command)
    ensures
        final(out)@ == old(out)@ + prop_line(*c),
{
    reveal(prop_line);
    let ghost start = out@;
    out.append("        {\"");
    out.append(c.js_name.as_str());
    out.append("\", NULL, ");
    out.append(c.rust_ident.as_str());
    out.append("_wrap, NULL, NULL, NULL, napi_default, NULL},\n");
    assert(out@ == start + prop_line(*c));
}

fn push_pieces(out: &mut String, commands: &[Command], p: ShimPiece)
    requires
        p == ShimPiece::Wrapper ==> shim_commands_ok(commands@),
    ensures
        final(out)@ == old(out)@ + pieces(commands@, p),
{
    let ghost start = out@;
    let mut i: usize = 0;
    while i < commands.len()
        invariant
            0 <= i <= commands.len(),
            p == ShimPiece::Wrapper ==> shim_commands_ok(commands@),
            out@ == start + pieces(commands@.take(i as int), p),
        decreases commands.len() - i,
    {
        let c = &commands[i];
        let ghost before = out@;
        match p {
            ShimPiece::ExternDecl => push_extern_decl(out, c),
            ShimPiece::ForwardDecl => push_forward_decl(out, c),
            ShimPiece::Wrapper => {
                assert(command_ok(commands@[i as int]));
                push_wrapper(out, c);
            },
            ShimPiece::PropLine => push_prop_line(out, c),
        }
        proof {
            let t = commands@.take(i + 1);
            assert(t.drop_last() =~= commands@.take(i as int));
            assert(t.last() == commands@[i as int]);
        }
        i = i + 1;
        assert(out@ == start + pieces(commands@.take(i as int), p));
    }
    assert(commands@.take(i as int) =~= commands@);
}

/// Renders `shim.c`: banner and includes, the Rust prototypes, the shared
/// async and event plumbing, one wrapper per command (with forward
/// declarations of the unsubscribe wrappers), and the module registration
/// listing every command under its JavaScript name.
pub fn render(commands: &[Command]) -> (out: String)
    requires
        shim_commands_ok(commands@),
    ensures
        out@ == shim_text(commands@),
{
    let mut out = String::new();
    push_file_banner(&mut out);
    out.append(
        "#include \"napi/native_api.h\"\n#include <stddef.h>\n#include <stdint.h>\n#include <stdlib.h>\n#include <string.h>\n\n// Rust-owned heap string; pair every returning pointer with a free.\nextern void shibei_ffi_free_cstring(char* p);\n\n",
    );
    out.append("// ── Rust FFI entry points (see generated/bindings.rs) ─────────────\n");
    push_pieces(&mut out, commands, ShimPiece::ExternDecl);
    out.append(
        "\n// C callbacks invoked from Rust worker threads.\nvoid shibei_async_resolve(void* ctx, int ok, const char* payload);\nvoid shibei_event_emit_i64(void* ctx, int64_t payload);\n\n",
    );
    out.append("// ── Shared async plumbing ─────────────────────────────────────────\n");
    out.append("typedef struct {\n    napi_threadsafe_function tsfn;\n    napi_deferred deferred;\n    char* payload;   // strdup'd by shibei_async_resolve, freed by completion cb\n    int ok;\n} AsyncCtx;\n\n// Called by Rust from a tokio worker thread.\nvoid shibei_async_resolve(void* ctx_ptr, int ok, const char* payload) {\n    AsyncCtx* ctx = (AsyncCtx*)ctx_ptr;\n    ctx->ok = ok;\n    ctx->payload = payload ? strdup(payload) : NULL;\n    napi_call_threadsafe_function(ctx->tsfn, ctx, napi_tsfn_nonblocking);\n}\n\nstatic void async_complete_cb(napi_env env, napi_value js_cb, void* ctx_ptr, void* data) {\n    (void)js_cb; (void)ctx_ptr;\n    AsyncCtx* ctx = (AsyncCtx*)data;\n    napi_value value = NULL;\n    napi_create_string_utf8(env, ctx->payload ? ctx->payload : \"\", NAPI_AUTO_LENGTH, &value);\n    if (ctx->ok) napi_resolve_deferred(env, ctx->deferred, value);\n    else         napi_reject_deferred(env, ctx->deferred, value);\n    if (ctx->payload) free(ctx->payload);\n    napi_release_threadsafe_function(ctx->tsfn, napi_tsfn_release);\n    free(ctx);\n}\n");
    out.append("\n// ── Shared event plumbing (i64 payload) ───────────────────────────\n");
    out.append("typedef struct {\n    napi_threadsafe_function tsfn;\n    void* token;  // opaque Rust subscription handle\n} EventCtx;\n\ntypedef struct { int64_t value; } I64Payload;\n\n// Called by Rust worker thread to fire a single i64 event.\nvoid shibei_event_emit_i64(void* ctx_ptr, int64_t payload) {\n    EventCtx* ctx = (EventCtx*)ctx_ptr;\n    I64Payload* p = (I64Payload*)malloc(sizeof(I64Payload));\n    p->value = payload;\n    napi_call_threadsafe_function(ctx->tsfn, p, napi_tsfn_nonblocking);\n}\n\nstatic void event_i64_cb(napi_env env, napi_value js_cb, void* ctx_ptr, void* data) {\n    (void)ctx_ptr;\n    I64Payload* p = (I64Payload*)data;\n    napi_value v = NULL;\n    napi_create_int64(env, p->value, &v);\n    napi_value undef = NULL; napi_get_undefined(env, &undef);\n    napi_value ret = NULL;\n    napi_call_function(env, undef, js_cb, 1, &v, &ret);\n    free(p);\n}\n");
    out.append("\n// ── Per-command NAPI wrappers ─────────────────────────────────────\n");
    push_pieces(&mut out, commands, ShimPiece::ForwardDecl);
    out.append("\n");
    push_pieces(&mut out, commands, ShimPiece::Wrapper);
    out.append(
        "// ── Module registration ───────────────────────────────────────────\nstatic napi_value shibei_register_exports(napi_env env, napi_value exports) {\n    napi_property_descriptor props[] = {\n",
    );
    push_pieces(&mut out, commands, ShimPiece::PropLine);
    out.append(
        "    };\n    napi_define_properties(env, exports, sizeof(props) / sizeof(props[0]), props);\n    return exports;\n}\n\n",
    );
    out.append("static napi_module shibei_module = {\n    .nm_version = 1,\n    .nm_flags = 0,\n    .nm_filename = NULL,\n    .nm_register_func = shibei_register_exports,\n    .nm_modname = \"shibei_core\",\n    .nm_priv = NULL,\n    .reserved = {NULL, NULL, NULL, NULL},\n};\n\n__attribute__((used, constructor))\nvoid register_shibei_core(void) {\n    napi_module_register(&shibei_module);\n}\n");
    assert(out@ == shim_text(commands@));
    out
}

} // verus!
