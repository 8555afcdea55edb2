//! ArkTS `.d.ts` declarations for the NAPI commands.

use vstd::prelude::*;
use vstd::string::StringExecFns;
use crate::codegen::{arg_list, push_arg_list, ArgForm, Command, Kind, ScalarType};

verus! {

broadcast use crate::text::group_concat;

/// TypeScript spelling of a scalar.
pub open spec fn ts_type(t: ScalarType) -> Seq<char> {
    match t {
        ScalarType::I32 => "number"@,
        ScalarType::I64 => "number"@,
        ScalarType::Bool => "boolean"@,
        ScalarType::String => "string"@,
        ScalarType::VoidReturn => "void"@,
    }
}

/// Law: TypeScript spells both integer widths `number`, a boolean
/// `boolean`, a string `string` and no result `void`; a boolean or a string
/// is never spelled as a number.
pub proof fn lemma_ts_spellings()
    ensures
        ts_type(ScalarType::I32) == "number"@,
        ts_type(ScalarType::I64) == "number"@,
        ts_type(ScalarType::Bool) == "boolean"@,
        ts_type(ScalarType::String) == "string"@,
        ts_type(ScalarType::VoidReturn) == "void"@,
        ts_type(ScalarType::Bool) != ts_type(ScalarType::I32),
        ts_type(ScalarType::String) != ts_type(ScalarType::I32),
{
    reveal_strlit("number");
    reveal_strlit("boolean");
    reveal_strlit("string");
    assert("boolean"@.len() != "number"@.len());
    assert("string"@[0] != "number"@[0]);
}

pub fn ts_ret(t: ScalarType) -> (r: &'static str)
    ensures
        r@ == ts_type(t),
        t is I32 || t is I64 ==> r@ == "number"@,
        t is Bool ==> r@ == "boolean"@,
        t is String ==> r@ == "string"@,
        t is VoidReturn ==> r@ == "void"@,
{
    match t {
        ScalarType::I32 => "number",
        ScalarType::I64 => "number",
        ScalarType::Bool => "boolean",
        ScalarType::String => "string",
        ScalarType::VoidReturn => "void",
    }
}

/// The two comment lines that open every emitted file.
pub open spec fn file_banner() -> Seq<char> {
    "// GENERATED — do not edit by hand.\n"@
        + "// Run `cargo run -p shibei-napi-codegen` after editing commands.rs.\n\n"@
}

pub fn push_file_banner(out: &mut String)
    ensures
        final(out)@ == old(out)@ + file_banner(),
{
    let ghost start = out@;
    out.append("// GENERATED — do not edit by hand.\n");
    out.append("// Run `cargo run -p shibei-napi-codegen` after editing commands.rs.\n\n");
    assert(out@ == start + file_banner());
}

/// The `export const` line declaring one command.
#[verifier::opaque]
pub open spec fn dts_decl(c: Command) -> Seq<char> {
    let args = arg_list(c.args@, ArgForm::TsParam);
    match c.kind {
        Kind::Sync => "export const "@ + c.js_name@ + ": ("@ + args + ") => "@ + ts_type(c.ret)
            + ";\n"@,
        Kind::Async => "export const "@ + c.js_name@ + ": ("@ + args + ") => Promise<"@ + ts_type(
            c.ret,
        ) + ">;\n"@,
        Kind::Event => {
            let cb = "cb: (payload: "@ + ts_type(c.ret) + ") => void"@;
            let all = if c.args.len() == 0 {
                cb
            } else {
                args + ", "@ + cb
            };
            "export const "@ + c.js_name@ + ": ("@ + all + ") => () => void;\n"@
        },
    }
}

proof fn lemma_suffix_of_concat(p: Seq<char>, t: Seq<char>)
    ensures
        t.is_suffix_of(p + t),
{
    assert(t =~= (p + t).subrange(p.len() as int, (p + t).len() as int));
}

/// Law: a synchronous command is declared as a function returning the
/// TypeScript spelling of its result; one returning a Rust `bool` ends in
/// `) => boolean;` and a newline.
pub proof fn lemma_dts_sync_return(c: Command)
    requires
        c.kind is Sync,
    ensures
        (") => "@ + ts_type(c.ret) + ";\n"@).is_suffix_of(dts_decl(c)),
        c.ret is Bool ==> ") => boolean;\n"@.is_suffix_of(dts_decl(c)),
{
    let pre = "export const "@ + c.js_name@ + ": ("@ + arg_list(c.args@, ArgForm::TsParam);
    let tail = ") => "@ + ts_type(c.ret) + ";\n"@;
    assert(dts_decl(c) == pre + tail) by {
        reveal(dts_decl);
    }
    lemma_suffix_of_concat(pre, tail);
    if c.ret is Bool {
        assert(") => boolean;\n"@ =~= tail) by {
            reveal_strlit(") => boolean;\n");
            reveal_strlit(") => ");
            reveal_strlit("boolean");
            reveal_strlit(";\n");
        }
    }
}

pub open spec fn dts_decls(cmds: Seq<Command>) -> Seq<char>
    decreases cmds.len(),
{
    if cmds.len() == 0 {
        seq![]
    } else {
        dts_decls(cmds.drop_last()) + dts_decl(cmds.last())
    }
}

/// The whole `Index.d.ts`.
pub open spec fn dts_text(cmds: Seq<Command>) -> Seq<char> {
    file_banner() + dts_decls(cmds)
}

fn push_dts_decl(out: &mut String, c: &Command)
    ensures
        final(out)@ == old(out)@ + dts_decl(*c),
{
    reveal(dts_decl);
    let ghost start = out@;
    out.append("export const ");
    out.append(c.js_name.as_str());
    out.append(": (");
    match c.kind {
        Kind::Sync => {
            push_arg_list(out, &c.args, ArgForm::TsParam);
            out.append(") => ");
            out.append(ts_ret(c.ret));
            out.append(";\n");
        },
        Kind::Async => {
            push_arg_list(out, &c.args, ArgForm::TsParam);
            out.append(") => Promise<");
            out.append(ts_ret(c.ret));
            out.append(">;\n");
        },
        Kind::Event => {
            if c.args.len() > 0 {
                push_arg_list(out, &c.args, ArgForm::TsParam);
                out.append(", ");
            }
            out.append("cb: (payload: ");
            out.append(ts_ret(c.ret));
            out.append(") => void");
            out.append(") => () => void;\n");
        },
    }
    assert(out@ == start + dts_decl(*c));
}

/// Renders the ArkTS declarations: the banner, then one `export const`
/// line per command, in order.
pub fn render(commands: &[Command]) -> (out: String)
    ensures
        out@ == dts_text(commands@),
{
    let mut out = String::new();
    push_file_banner(&mut out);
    let mut i: usize = 0;
    while i < commands.len()
        invariant
            0 <= i <= commands.len(),
            out@ == file_banner() + dts_decls(commands@.take(i as int)),
        decreases commands.len() - i,
    {
        push_dts_decl(&mut out, &commands[i]);
        proof {
            let t = commands@.take(i + 1);
            assert(t.drop_last() =~= commands@.take(i as int));
        }
        i = i + 1;
        assert(out@ == file_banner() + dts_decls(commands@.take(i as int)));
    }
    assert(commands@.take(i as int) =~= commands@);
    out
}

} // verus!
