//! Which functions of `commands.rs` become NAPI commands and with what
//! signature. The source is parsed by `syn`; what the rules read of each
//! function (its attributes, parameters and return type) is carried over
//! into a plain model, on which the rules are verified.

use vstd::prelude::*;
use crate::codegen::{camel_case, snake_to_camel, Arg, Command, Kind, ScalarType};
use crate::text::{concat, str_eq};

verus! {

broadcast use crate::text::group_concat;

/// A type as the rules see it: a path (its last segment and, when the first
/// generic argument of that segment is a type, that type), a reference to a
/// type, or anything else.
pub enum TypeModel {
    Path { last: String, first_type_arg: Option<Box<TypeModel>> },
    Reference(Box<TypeModel>),
    Other,
}

/// An attribute: the last segment of its path and, for the list form
/// `#[a(x, y)]`, the nested items read as single identifiers, in order.
pub struct AttrModel {
    pub last_segment: Option<String>,
    pub list_items: Option<Vec<String>>,
}

/// A parameter: `self`, or a typed pattern that is a plain identifier
/// (`ident` is `None` for any other pattern).
pub enum ParamModel {
    Receiver,
    Typed { ident: Option<String>, ty: TypeModel },
}

pub enum ReturnModel {
    Default,
    Type(TypeModel),
}

/// A free function of the source file.
pub struct FnModel {
    pub name: String,
    pub attrs: Vec<AttrModel>,
    pub params: Vec<ParamModel>,
    pub output: ReturnModel,
}

// ─────────────────────────── types ───────────────────────────

pub open spec fn type_last_segment(t: TypeModel) -> Option<Seq<char>>
    decreases t,
{
    match t {
        TypeModel::Path { last, .. } => Some(last@),
        TypeModel::Reference(inner) => type_last_segment(*inner),
        TypeModel::Other => None,
    }
}

/// The scalar a type name stands for.
pub open spec fn scalar_named(n: Seq<char>) -> Option<ScalarType> {
    if n == "i32"@ {
        Some(ScalarType::I32)
    } else if n == "i64"@ {
        Some(ScalarType::I64)
    } else if n == "bool"@ {
        Some(ScalarType::Bool)
    } else if n == "String"@ || n == "str"@ {
        Some(ScalarType::String)
    } else {
        None
    }
}

/// The scalar of a type, by the last segment of its path (through
/// references).
pub open spec fn scalar_of(t: TypeModel) -> Option<ScalarType> {
    match type_last_segment(t) {
        Some(n) => scalar_named(n),
        None => None,
    }
}

fn last_segment(t: &TypeModel) -> (r: Option<&String>)
    ensures
        match type_last_segment(*t) {
            Some(n) => r matches Some(s) && s@ == n,
            None => r is None,
        },
    decreases t,
{
    match t {
        TypeModel::Path { last, .. } => Some(last),
        TypeModel::Reference(inner) => last_segment(inner),
        TypeModel::Other => None,
    }
}

pub fn rust_type_to_scalar(t: &TypeModel) -> (r: Option<ScalarType>)
    ensures
        r == scalar_of(*t),
{
    match last_segment(t) {
        Some(n) => {
            let n = n.as_str();
            if str_eq(n, "i32") {
                Some(ScalarType::I32)
            } else if str_eq(n, "i64") {
                Some(ScalarType::I64)
            } else if str_eq(n, "bool") {
                Some(ScalarType::Bool)
            } else if str_eq(n, "String") || str_eq(n, "str") {
                Some(ScalarType::String)
            } else {
                None
            }
        },
        None => None,
    }
}

/// The scalar a function returns: void for no return type; for
/// `Result<T, _>` the scalar of `T`; otherwise the scalar of the type.
pub open spec fn return_scalar_of(r: ReturnModel) -> Option<ScalarType> {
    match r {
        ReturnModel::Default => Some(ScalarType::VoidReturn),
        ReturnModel::Type(t) => match t {
            TypeModel::Path { last, first_type_arg: Some(inner) } => if last@ == "Result"@ {
                scalar_of(*inner)
            } else {
                scalar_of(t)
            },
            _ => scalar_of(t),
        },
    }
}

pub fn return_scalar(r: &ReturnModel) -> (s: Option<ScalarType>)
    ensures
        s == return_scalar_of(*r),
{
    match r {
        ReturnModel::Default => Some(ScalarType::VoidReturn),
        ReturnModel::Type(t) => {
            match t {
                TypeModel::Path { last, first_type_arg: Some(inner) } => {
                    if str_eq(last.as_str(), "Result") {
                        return rust_type_to_scalar(inner);
                    }
                },
                _ => {},
            }
            rust_type_to_scalar(t)
        },
    }
}

// ─────────────────────────── attributes ───────────────────────────

/// The kind the nested items of `#[shibei_napi(..)]` ask for: `async` or
/// `event` (the last one given wins), synchronous otherwise.
pub open spec fn kind_after(items: Seq<Seq<char>>) -> Kind
    decreases items.len(),
{
    if items.len() == 0 {
        Kind::Sync
    } else if items.last() == "async"@ {
        Kind::Async
    } else if items.last() == "event"@ {
        Kind::Event
    } else {
        kind_after(items.drop_last())
    }
}

pub open spec fn names_of(v: Seq<String>) -> Seq<Seq<char>> {
    v.map_values(|s: String| s@)
}

/// The kind of the first `shibei_napi` attribute, if there is one.
pub open spec fn napi_kind(attrs: Seq<AttrModel>) -> Option<Kind>
    decreases attrs.len(),
{
    if attrs.len() == 0 {
        None
    } else {
        let a = attrs[0];
        if a.last_segment matches Some(l) && l@ == "shibei_napi"@ {
            Some(
                match a.list_items {
                    Some(items) => kind_after(names_of(items@)),
                    None => Kind::Sync,
                },
            )
        } else {
            napi_kind(attrs.drop_first())
        }
    }
}

fn kind_of_items(items: &Vec<String>) -> (k: Kind)
    ensures
        k == kind_after(names_of(items@)),
{
    let ghost ns = names_of(items@);
    let mut k = Kind::Sync;
    let mut i: usize = 0;
    proof {
        assert(ns.take(0) =~= Seq::<Seq<char>>::empty());
    }
    while i < items.len()
        invariant
            0 <= i <= items.len(),
            ns == names_of(items@),
            k == kind_after(ns.take(i as int)),
        decreases items.len() - i,
    {
        assert(ns.take(i + 1).drop_last() =~= ns.take(i as int));
        assert(ns.take(i + 1).last() == items@[i as int]@);
        if str_eq(items[i].as_str(), "async") {
            k = Kind::Async;
        } else if str_eq(items[i].as_str(), "event") {
            k = Kind::Event;
        }
        i = i + 1;
    }
    assert(ns.take(i as int) =~= ns);
    k
}

pub fn shibei_napi_kind(attrs: &Vec<AttrModel>) -> (k: Option<Kind>)
    ensures
        k == napi_kind(attrs@),
{
    let mut i: usize = 0;
    assert(attrs@.skip(0) =~= attrs@);
    while i < attrs.len()
        invariant
            0 <= i <= attrs.len(),
            napi_kind(attrs@) == napi_kind(attrs@.skip(i as int)),
        decreases attrs.len() - i,
    {
        let a = &attrs[i];
        assert(attrs@.skip(i as int)[0] == *a);
        assert(attrs@.skip(i as int).drop_first() =~= attrs@.skip(i + 1));
        let hit = match &a.last_segment {
            Some(l) => str_eq(l.as_str(), "shibei_napi"),
            None => false,
        };
        if hit {
            return Some(
                match &a.list_items {
                    Some(items) => kind_of_items(items),
                    None => Kind::Sync,
                },
            );
        }
        i = i + 1;
    }
    assert(attrs@.skip(i as int) =~= Seq::<AttrModel>::empty());
    None
}

// ─────────────────────────── one function ───────────────────────────

pub struct ArgView {
    pub rust_name: Seq<char>,
    pub js_name: Seq<char>,
    pub ty: ScalarType,
}

pub open spec fn arg_view(a: Arg) -> ArgView {
    ArgView { rust_name: a.rust_name@, js_name: a.js_name@, ty: a.ty }
}

pub open spec fn args_view(v: Seq<Arg>) -> Seq<ArgView> {
    v.map_values(|a: Arg| arg_view(a))
}

/// The arguments of `f`'s parameters, or the error at the first parameter
/// that is `self`, not a plain identifier, or not of a scalar type; an
/// event's `cb` parameter is not an argument.
pub open spec fn params_args(ps: Seq<ParamModel>, kind: Kind, id: Seq<char>) -> Result<Seq<ArgView>, Seq<char>>
    decreases ps.len(),
{
    if ps.len() == 0 {
        Ok(Seq::<ArgView>::empty())
    } else {
        match params_args(ps.drop_last(), kind, id) {
            Err(e) => Err(e),
            Ok(prev) => match ps.last() {
                ParamModel::Receiver => Err(id + ": self argument not supported"@),
                ParamModel::Typed { ident, ty } => match ident {
                    None => Err(id + ": only plain identifier patterns supported"@),
                    Some(n) => if kind == Kind::Event && n@ == "cb"@ {
                        Ok(prev)
                    } else {
                        match scalar_of(ty) {
                            None => Err(id + ": unsupported argument type for `"@ + n@ + "`"@),
                            Some(t) => Ok(prev.push(ArgView { rust_name: n@, js_name: camel_case(n@), ty: t })),
                        }
                    },
                },
            },
        }
    }
}

/// The payload type of an event: that of the first `cb` parameter typed
/// `ThreadsafeCallback<T>`.
pub open spec fn event_payload(ps: Seq<ParamModel>) -> Option<ScalarType>
    decreases ps.len(),
{
    if ps.len() == 0 {
        None
    } else {
        match ps[0] {
            ParamModel::Typed { ident: Some(n), ty: TypeModel::Path { last, first_type_arg: Some(inner) } } => if n@
                == "cb"@ && last@ == "ThreadsafeCallback"@ {
                scalar_of(*inner)
            } else {
                event_payload(ps.drop_first())
            },
            _ => event_payload(ps.drop_first()),
        }
    }
}

pub struct CommandView {
    pub rust_ident: Seq<char>,
    pub js_name: Seq<char>,
    pub kind: Kind,
    pub args: Seq<ArgView>,
    pub ret: ScalarType,
}

pub open spec fn command_view(c: Command) -> CommandView {
    CommandView { rust_ident: c.rust_ident@, js_name: c.js_name@, kind: c.kind, args: args_view(c.args@), ret: c.ret }
}

/// The command a function of the given kind defines, or why it cannot be
/// one.
pub open spec fn parse_fn_spec(f: FnModel, kind: Kind) -> Result<CommandView, Seq<char>> {
    let id = f.name@;
    match params_args(f.params@, kind, id) {
        Err(e) => Err(e),
        Ok(args) => {
            let ret = match kind {
                Kind::Event => event_payload(f.params@),
                _ => return_scalar_of(f.output),
            };
            match ret {
                None => Err(
                    if kind == Kind::Event {
                        id + ": expected a `cb: ThreadsafeCallback<T>` parameter"@
                    } else {
                        id + ": unsupported return type"@
                    },
                ),
                Some(r) => Ok(CommandView { rust_ident: id, js_name: camel_case(id), kind, args, ret: r }),
            }
        },
    }
}

fn event_payload_type(ps: &Vec<ParamModel>) -> (r: Option<ScalarType>)
    ensures
        r == event_payload(ps@),
{
    let mut i: usize = 0;
    assert(ps@.skip(0) =~= ps@);
    while i < ps.len()
        invariant
            0 <= i <= ps.len(),
            event_payload(ps@) == event_payload(ps@.skip(i as int)),
        decreases ps.len() - i,
    {
        assert(ps@.skip(i as int)[0] == ps@[i as int]);
        assert(ps@.skip(i as int).drop_first() =~= ps@.skip(i + 1));
        match &ps[i] {
            ParamModel::Typed { ident: Some(n), ty: TypeModel::Path { last, first_type_arg: Some(inner) } } => {
                if str_eq(n.as_str(), "cb") && str_eq(last.as_str(), "ThreadsafeCallback") {
                    return rust_type_to_scalar(inner);
                }
            },
            _ => {},
        }
        i = i + 1;
    }
    assert(ps@.skip(i as int) =~= Seq::<ParamModel>::empty());
    None
}

fn error_at(id: &str, what: &str) -> (s: String)
    ensures
        s@ == id@ + what@,
{
    concat(id, what)
}

pub fn parse_fn(f: &FnModel, kind: Kind) -> (r: Result<Command, String>)
    ensures
        match parse_fn_spec(*f, kind) {
            Ok(c) => r matches Ok(x) && command_view(x) == c,
            Err(e) => r matches Err(x) && x@ == e,
        },
{
    let id = f.name.as_str();
    let ghost ps = f.params@;
    let mut args: Vec<Arg> = Vec::new();
    let mut i: usize = 0;
    proof {
        assert(ps.take(0) =~= Seq::<ParamModel>::empty());
        assert(args_view(args@) =~= Seq::<ArgView>::empty());
    }
    while i < f.params.len()
        invariant
            0 <= i <= f.params.len(),
            ps == f.params@,
            id@ == f.name@,
            params_args(ps.take(i as int), kind, id@) == Ok::<Seq<ArgView>, Seq<char>>(args_view(args@)),
        decreases f.params.len() - i,
    {
        assert(ps.take(i + 1).drop_last() =~= ps.take(i as int));
        assert(ps.take(i + 1).last() == ps[i as int]);
        match &f.params[i] {
            ParamModel::Receiver => {
                let e = error_at(id, ": self argument not supported");
                proof {
                    lemma_params_error_sticks(ps, i + 1, kind, id@);
                }
                return Err(e);
            },
            ParamModel::Typed { ident, ty } => {
                match ident {
                    None => {
                        let e = error_at(id, ": only plain identifier patterns supported");
                        proof {
                            lemma_params_error_sticks(ps, i + 1, kind, id@);
                        }
                        return Err(e);
                    },
                    Some(n) => {
                        let is_cb = kind == Kind::Event && str_eq(n.as_str(), "cb");
                        if !is_cb {
                            match rust_type_to_scalar(ty) {
                                None => {
                                    let mut e = error_at(id, ": unsupported argument type for `");
                                    e.append(n.as_str());
                                    e.append("`");
                                    proof {
                                        lemma_params_error_sticks(ps, i + 1, kind, id@);
                                    }
                                    return Err(e);
                                },
                                Some(t) => {
                                    let ghost before = args@;
                                    let a = Arg { rust_name: n.clone(), js_name: snake_to_camel(n.as_str()), ty: t };
                                    args.push(a);
                                    assert(args_view(args@) =~= args_view(before).push(arg_view(a)));
                                },
                            }
                        }
                    },
                }
            },
        }
        i = i + 1;
    }
    assert(ps.take(i as int) =~= ps);
    let ret = match kind {
        Kind::Event => event_payload_type(&f.params),
        _ => return_scalar(&f.output),
    };
    match ret {
        None => {
            if kind == Kind::Event {
                Err(error_at(id, ": expected a `cb: ThreadsafeCallback<T>` parameter"))
            } else {
                Err(error_at(id, ": unsupported return type"))
            }
        },
        Some(r) => Ok(Command { rust_ident: f.name.clone(), js_name: snake_to_camel(id), kind, args, ret: r }),
    }
}

proof fn lemma_params_error_sticks(ps: Seq<ParamModel>, k: int, kind: Kind, id: Seq<char>)
    requires
        0 < k <= ps.len(),
        params_args(ps.take(k), kind, id) is Err,
    ensures
        params_args(ps, kind, id) == params_args(ps.take(k), kind, id),
    decreases ps.len() - k,
{
    if k < ps.len() {
        assert(ps.take(k + 1).drop_last() =~= ps.take(k));
        lemma_params_error_sticks(ps, k + 1, kind, id);
    } else {
        assert(ps.take(k) =~= ps);
    }
}

// ─────────────────────────── the file ───────────────────────────

/// The commands of the file's functions that carry `#[shibei_napi]`, in
/// source order; the first function that cannot be a command makes the
/// whole parse fail with its reason.
pub open spec fn commands_of(fns: Seq<FnModel>) -> Result<Seq<CommandView>, Seq<char>>
    decreases fns.len(),
{
    if fns.len() == 0 {
        Ok(Seq::<CommandView>::empty())
    } else {
        match commands_of(fns.drop_last()) {
            Err(e) => Err(e),
            Ok(prev) => match napi_kind(fns.last().attrs@) {
                None => Ok(prev),
                Some(k) => match parse_fn_spec(fns.last(), k) {
                    Err(e) => Err(e),
                    Ok(c) => Ok(prev.push(c)),
                },
            },
        }
    }
}

pub open spec fn commands_view(v: Seq<Command>) -> Seq<CommandView> {
    v.map_values(|c: Command| command_view(c))
}

proof fn lemma_commands_error_sticks(fns: Seq<FnModel>, k: int)
    requires
        0 < k <= fns.len(),
        commands_of(fns.take(k)) is Err,
    ensures
        commands_of(fns) == commands_of(fns.take(k)),
    decreases fns.len() - k,
{
    if k < fns.len() {
        assert(fns.take(k + 1).drop_last() =~= fns.take(k));
        lemma_commands_error_sticks(fns, k + 1);
    } else {
        assert(fns.take(k) =~= fns);
    }
}

/// The commands among the functions of `commands.rs`, given their models.
pub fn commands_from_models(fns: &Vec<FnModel>) -> (r: Result<Vec<Command>, String>)
    ensures
        match commands_of(fns@) {
            Ok(cs) => r matches Ok(v) && commands_view(v@) == cs,
            Err(e) => r matches Err(x) && x@ == e,
        },
{
    let ghost fs = fns@;
    let mut out: Vec<Command> = Vec::new();
    let mut i: usize = 0;
    proof {
        assert(fs.take(0) =~= Seq::<FnModel>::empty());
        assert(commands_view(out@) =~= Seq::<CommandView>::empty());
    }
    while i < fns.len()
        invariant
            0 <= i <= fns.len(),
            fs == fns@,
            commands_of(fs.take(i as int)) == Ok::<Seq<CommandView>, Seq<char>>(commands_view(out@)),
        decreases fns.len() - i,
    {
        assert(fs.take(i + 1).drop_last() =~= fs.take(i as int));
        assert(fs.take(i + 1).last() == fs[i as int]);
        match shibei_napi_kind(&fns[i].attrs) {
            None => {},
            Some(k) => {
                match parse_fn(&fns[i], k) {
                    Err(e) => {
                        proof {
                            lemma_commands_error_sticks(fs, i + 1);
                        }
                        return Err(e);
                    },
                    Ok(c) => {
                        let ghost before = out@;
                        out.push(c);
                        assert(commands_view(out@) =~= commands_view(before).push(command_view(c)));
                    },
                }
            },
        }
        i = i + 1;
    }
    assert(fs.take(i as int) =~= fs);
    Ok(out)
}

// ─────────────────────────── the source ───────────────────────────

#[verifier::external_type_specification]
#[verifier::external_body]
pub struct ExSynItemFn(syn::ItemFn);

#[verifier::external_type_specification]
#[verifier::external_body]
pub struct ExSynType(syn::Type);

#[verifier::external_type_specification]
#[verifier::external_body]
pub struct ExSynAttribute(syn::Attribute);

/// A `syn::Type` carried over: a path to its last segment and, when that
/// segment's first generic argument is a type, that type; a reference to
/// the referenced type; anything else to `Other`.
#[verifier::external_body]
fn type_model(ty: &syn::Type) -> (t: TypeModel) {
    match ty {
        syn::Type::Path(p) => match p.path.segments.last() {
            Some(seg) => TypeModel::Path { last: seg.ident.to_string(), first_type_arg: match &seg.arguments {
                syn::PathArguments::AngleBracketed(a) => match a.args.first() {
                    Some(syn::GenericArgument::Type(inner)) => Some(Box::new(type_model(inner))),
                    _ => None,
                },
                _ => None,
            } },
            None => TypeModel::Other,
        },
        syn::Type::Reference(r) => TypeModel::Reference(Box::new(type_model(&r.elem))),
        _ => TypeModel::Other,
    }
}

/// A `syn::Attribute` carried over: the last segment of its path and, for
/// the list form, the nested items each read as one identifier (`""` for
/// an item that is not one).
#[verifier::external_body]
fn attr_model(a: &syn::Attribute) -> (m: AttrModel) {
    let mut items = Vec::new();
    let is_list = matches!(a.meta, syn::Meta::List(_));
    if is_list {
        let _ = a.parse_nested_meta(|n| Ok(items.push(n.path.get_ident().map(|i| i.to_string()).unwrap_or_default())));
    }
    let last_segment = a.path().segments.last().map(|s| s.ident.to_string());
    AttrModel { last_segment, list_items: if is_list { Some(items) } else { None } }
}

/// A free `syn::ItemFn` carried over: its name, attributes, parameters
/// (`self`, or a typed pattern with its identifier when the pattern is a
/// plain one) and return type.
#[verifier::external_body]
fn fn_model(f: &syn::ItemFn) -> (m: FnModel) {
    let params = f.sig.inputs.iter().map(|input| match input {
        syn::FnArg::Receiver(_) => ParamModel::Receiver,
        syn::FnArg::Typed(p) => ParamModel::Typed { ident: match &*p.pat {
            syn::Pat::Ident(pi) => Some(pi.ident.to_string()),
            _ => None,
        }, ty: type_model(&p.ty) },
    }).collect();
    let output = match &f.sig.output {
        syn::ReturnType::Default => ReturnModel::Default,
        syn::ReturnType::Type(_, ty) => ReturnModel::Type(type_model(ty)),
    };
    FnModel { name: f.sig.ident.to_string(), attrs: f.attrs.iter().map(attr_model).collect(), params, output }
}

/// What `syn::parse_file` makes of a source text, read item by item in
/// order: the model of a free function (`Item::Fn`), `None` for any other
/// item; on a parse error, the error's text.
pub uninterp spec fn syn_items(text: Seq<char>) -> Result<Seq<Option<FnModel>>, Seq<char>>;

/// `syn::parse_file(source)`, each item of the file carried over: a free
/// function to its model, any other item to `None`. Claims: the outcome is
/// the named one, a function of the text alone.
#[verifier::external_body]
fn parse_items(source: &str) -> (r: Result<Vec<Option<FnModel>>, String>)
    ensures
        match syn_items(source@) {
            Ok(v) => r matches Ok(w) && w@ == v,
            Err(e) => r matches Err(x) && x@ == e,
        },
{
    let file = syn::parse_file(source).map_err(|e| e.to_string())?;
    Ok(file.items.iter().map(|item| match item {
        syn::Item::Fn(f) => Some(fn_model(f)),
        _ => None,
    }).collect())
}

/// The free functions among the items, in order.
pub open spec fn fns_of(items: Seq<Option<FnModel>>) -> Seq<FnModel>
    decreases items.len(),
{
    if items.len() == 0 {
        Seq::<FnModel>::empty()
    } else {
        match items[0] {
            Some(f) => seq![f] + fns_of(items.drop_first()),
            None => fns_of(items.drop_first()),
        }
    }
}

/// Keeps the free functions of the items, in order.
pub fn free_fns(items: Vec<Option<FnModel>>) -> (r: Vec<FnModel>)
    ensures
        r@ == fns_of(items@),
{
    let ghost all = items@;
    let mut rest = items;
    let mut out: Vec<FnModel> = Vec::new();
    assert(out@ + fns_of(rest@) =~= fns_of(all));
    while rest.len() > 0
        invariant
            out@ + fns_of(rest@) == fns_of(all),
        decreases rest.len(),
    {
        let ghost before = rest@;
        let it = rest.remove(0);
        assert(rest@ =~= before.drop_first());
        match it {
            Some(f) => {
                let ghost o = out@;
                out.push(f);
                assert(out@ + fns_of(rest@) =~= o + (seq![before[0]->Some_0] + fns_of(rest@)));
            },
            None => {},
        }
    }
    assert(out@ + fns_of(rest@) =~= out@);
    out
}

/// What extracting the commands from a source text gives: a parse error
/// as `syn parse: <error>`, else the commands of its free functions.
pub open spec fn commands_of_source(text: Seq<char>) -> Result<Seq<CommandView>, Seq<char>> {
    match syn_items(text) {
        Err(e) => Err("syn parse: "@ + e),
        Ok(items) => commands_of(fns_of(items)),
    }
}

/// The NAPI commands declared in the source text of `commands.rs`.
pub fn parse_commands(source: &str) -> (r: Result<Vec<Command>, String>)
    ensures
        match commands_of_source(source@) {
            Ok(cs) => r matches Ok(v) && commands_view(v@) == cs,
            Err(e) => r matches Err(x) && x@ == e,
        },
{
    match parse_items(source) {
        Err(e) => Err(concat("syn parse: ", e.as_str())),
        Ok(items) => {
            let fns = free_fns(items);
            commands_from_models(&fns)
        },
    }
}

} // verus!
