//! Command model of the NAPI code generator: the `#[shibei_napi]` functions
//! found in `commands.rs`, the snake_case to camelCase rule for their
//! JavaScript names, and the argument lists shared by the three renderers.

use vstd::prelude::*;
use vstd::string::StringExecFns;
use crate::decimal::{decimal, decimal_chars};
use crate::render_bindings::{ffi_param_type, ffi_param_ty};
use crate::render_dts::{ts_ret, ts_type};
use crate::render_shim::{c_arg_type, c_arg_type_text};
use crate::text::push_char;

verus! {

broadcast use crate::text::group_concat;

/// How a command is exposed to ArkTS.
#[derive(Debug, Clone, Copy, PartialEq, Eq, Structural)]
pub enum Kind {
    Sync,
    Async,
    Event,
}

/// The scalar types that cross the NAPI boundary.
#[derive(Debug, Clone, Copy, PartialEq, Eq, Structural)]
pub enum ScalarType {
    I32,
    I64,
    Bool,
    String,
    VoidReturn,
}

#[derive(Debug, Clone)]
pub struct Arg {
    pub rust_name: String,
    pub js_name: String,
    pub ty: ScalarType,
}

#[derive(Debug, Clone)]
pub struct Command {
    pub rust_ident: String,
    pub js_name: String,
    pub kind: Kind,
    pub args: Vec<Arg>,
    /// For sync/async: the return scalar. For event: the callback payload.
    pub ret: ScalarType,
}

// ───────────────────────── snake_case → camelCase ─────────────────────────

/// Unicode uppercase mapping of a character (`char::to_uppercase`).
pub uninterp spec fn char_upper(c: char) -> Seq<char>;

/// `c.to_uppercase()` collected into a `String`. Claims: the result is the
/// named uppercase mapping of `c`, and for an ASCII lowercase letter it is
/// the single matching capital, as std's documentation states.
#[verifier::external_body]
pub(crate) fn to_uppercase_string(c: char) -> (r: String)
    ensures
        r@ == char_upper(c),
        'a' <= c <= 'z' ==> r@ == seq![((c as u32) - 32) as char],
{
    c.to_uppercase().collect()
}

/// Output so far and whether the next character is capitalised, after
/// reading `s` left to right: `_` is dropped and capitalises what follows.
pub open spec fn camel_state(s: Seq<char>) -> (Seq<char>, bool)
    decreases s.len(),
{
    if s.len() == 0 {
        (seq![], false)
    } else {
        let (out, upper) = camel_state(s.drop_last());
        let c = s.last();
        if c == '_' {
            (out, true)
        } else if upper {
            (out + char_upper(c), false)
        } else {
            (out.push(c), false)
        }
    }
}

pub open spec fn camel_case(s: Seq<char>) -> Seq<char> {
    camel_state(s).0
}

/// `echo_async` → `echoAsync`: underscores are removed and the character
/// after each run of underscores is uppercased.
pub fn snake_to_camel(s: &str) -> (r: String)
    ensures
        r@ == camel_case(s@),
{
    let mut out = String::new();
    let mut upper_next = false;
    let ghost mut seen: Seq<char> = seq![];
    for c in it: s.chars()
        invariant
            seen == it.seq().take(it.index() as int),
            (out@, upper_next) == camel_state(seen),
    {
        proof {
            assert(seen.push(c).drop_last() =~= seen);
        }
        if c == '_' {
            upper_next = true;
        } else if upper_next {
            let u = to_uppercase_string(c);
            out.append(u.as_str());
            upper_next = false;
        } else {
            push_char(&mut out, c);
        }
        proof {
            seen = seen.push(c);
            assert(seen =~= it.seq().take(it.index() + 1));
        }
    }
    proof {
        assert(seen =~= s@);
    }
    out
}

// ───────────────────────── argument lists ─────────────────────────

/// One argument rendered in one of the forms the generated files use.
#[derive(Debug, Clone, Copy, PartialEq, Eq, Structural)]
pub enum ArgForm {
    /// `jsName: tsType` in the ArkTS declaration.
    TsParam,
    /// `rust_name: ffiType` in the Rust FFI entry point.
    FfiParam,
    /// What a sync FFI entry passes to the command (C strings converted).
    SyncUserArg,
    /// The bare Rust name.
    RustName,
    /// `cType rust_name` in the C prototype.
    CParam,
    /// `buf_name` / `v_name`, the C local holding the argument.
    CCallArg,
}

pub open spec fn arg_text(f: ArgForm, a: Arg) -> Seq<char> {
    match f {
        ArgForm::TsParam => a.js_name@ + ": "@ + ts_type(a.ty),
        ArgForm::FfiParam => a.rust_name@ + ": "@ + ffi_param_type(a.ty),
        ArgForm::SyncUserArg => if a.ty == ScalarType::String {
            "cstr_to_string("@ + a.rust_name@ + ")"@
        } else {
            a.rust_name@
        },
        ArgForm::RustName => a.rust_name@,
        ArgForm::CParam => c_arg_type_text(a.ty) + " "@ + a.rust_name@,
        ArgForm::CCallArg => if a.ty == ScalarType::String {
            "buf_"@ + a.rust_name@
        } else {
            "v_"@ + a.rust_name@
        },
    }
}

/// The arguments in form `f`, separated by `", "`.
pub open spec fn arg_list(args: Seq<Arg>, f: ArgForm) -> Seq<char>
    decreases args.len(),
{
    if args.len() == 0 {
        seq![]
    } else if args.len() == 1 {
        arg_text(f, args[0])
    } else {
        arg_list(args.drop_last(), f) + ", "@ + arg_text(f, args.last())
    }
}

/// The argument list followed by one more entry `tail`.
pub open spec fn arg_list_then(args: Seq<Arg>, f: ArgForm, tail: Seq<char>) -> Seq<char> {
    if args.len() == 0 {
        tail
    } else {
        arg_list(args, f) + ", "@ + tail
    }
}

/// Appends one argument in form `f`.
pub fn push_arg(out: &mut String, f: ArgForm, a: &Arg)
    ensures
        final(out)@ == old(out)@ + arg_text(f, *a),
{
    let ghost start = out@;
    match f {
        ArgForm::TsParam => {
            out.append(a.js_name.as_str());
            out.append(": ");
            out.append(ts_ret(a.ty));
            assert(out@ == start + arg_text(f, *a));
        },
        ArgForm::FfiParam => {
            out.append(a.rust_name.as_str());
            out.append(": ");
            out.append(ffi_param_ty(a.ty));
            assert(out@ == start + arg_text(f, *a));
        },
        ArgForm::SyncUserArg => {
            if a.ty == ScalarType::String {
                out.append("cstr_to_string(");
                out.append(a.rust_name.as_str());
                out.append(")");
                assert(out@ == start + arg_text(f, *a));
            } else {
                out.append(a.rust_name.as_str());
            }
        },
        ArgForm::RustName => {
            out.append(a.rust_name.as_str());
        },
        ArgForm::CParam => {
            out.append(c_arg_type(a.ty));
            out.append(" ");
            out.append(a.rust_name.as_str());
            assert(out@ == start + arg_text(f, *a));
        },
        ArgForm::CCallArg => {
            if a.ty == ScalarType::String {
                out.append("buf_");
            } else {
                out.append("v_");
            }
            out.append(a.rust_name.as_str());
            assert(out@ == start + arg_text(f, *a));
        },
    }
}

/// Appends the arguments in form `f`, separated by `", "`.
pub fn push_arg_list(out: &mut String, args: &Vec<Arg>, f: ArgForm)
    ensures
        final(out)@ == old(out)@ + arg_list(args@, f),
{
    let ghost start = out@;
    let mut i: usize = 0;
    while i < args.len()
        invariant
            0 <= i <= args.len(),
            out@ == start + arg_list(args@.take(i as int), f),
        decreases args.len() - i,
    {
        let ghost before = out@;
        if i > 0 {
            out.append(", ");
        }
        push_arg(out, f, &args[i]);
        proof {
            let t = args@.take(i + 1);
            assert(t.drop_last() =~= args@.take(i as int));
            assert(t.last() == args@[i as int]);
            if i == 0 {
                assert(out@ == start + arg_list(t, f));
            } else {
                assert(out@ == start + arg_list(t, f));
            }
        }
        i = i + 1;
    }
    assert(args@.take(i as int) =~= args@);
}

/// Appends the argument list followed by `tail`.
pub fn push_arg_list_then(out: &mut String, args: &Vec<Arg>, f: ArgForm, tail: &str)
    ensures
        final(out)@ == old(out)@ + arg_list_then(args@, f, tail@),
{
    let ghost start = out@;
    push_arg_list(out, args, f);
    if args.len() > 0 {
        out.append(", ");
    }
    out.append(tail);
    assert(out@ == start + arg_list_then(args@, f, tail@));
}

/// Appends the decimal digits of `n`.
pub fn push_decimal(out: &mut String, n: usize)
    ensures
        final(out)@ == old(out)@ + decimal(n as nat),
{
    let ghost start = out@;
    let d = decimal_chars(n as u64);
    let mut i: usize = 0;
    while i < d.len()
        invariant
            0 <= i <= d.len(),
            d@ == decimal(n as nat),
            out@ == start + d@.take(i as int),
        decreases d.len() - i,
    {
        push_char(out, d[i]);
        i = i + 1;
        assert(d@.take(i as int) =~= d@.take(i - 1).push(d@[i - 1]));
        assert(out@ == start + d@.take(i as int));
    }
    assert(d@.take(i as int) =~= d@);
}

} // verus!
