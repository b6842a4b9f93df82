//! Export stub generation: what the attribute's parameters name, the native
//! types of a signature, and the shape of the stub.
use vstd::prelude::*;

use crate::mangling::{get_symbol_name, symbol_of};
use crate::text::push_char;
use crate::signature::{
    args_descriptor, parse_method_spec, JavaTy, MethodSignature, SigModel, TyModel,
};

verus! {

/// A native type in an export stub's signature.
#[derive(Clone, Copy, PartialEq, Eq, Structural, Debug)]
pub enum NativeType {
    /// The runtime environment handle.
    Env,
    /// The handle of the class the method belongs to.
    ClassHandle,
    Boolean,
    Byte,
    Char,
    Short,
    Int,
    Long,
    Float,
    Double,
    /// A handle to a string object.
    Str,
    /// A handle to any other object.
    Object,
    /// A handle to an array, whatever its element type.
    Array,
}

/// The binary name of the runtime's string class.
pub open spec fn string_class() -> Seq<char> {
    seq!['j', 'a', 'v', 'a', '/', 'l', 'a', 'n', 'g', '/', 'S', 't', 'r', 'i', 'n', 'g']
}

/// The native type that stands for a descriptor type.
pub open spec fn native_of(t: TyModel) -> NativeType {
    match t {
        TyModel::Boolean => NativeType::Boolean,
        TyModel::Byte => NativeType::Byte,
        TyModel::Char => NativeType::Char,
        TyModel::Short => NativeType::Short,
        TyModel::Int => NativeType::Int,
        TyModel::Long => NativeType::Long,
        TyModel::Float => NativeType::Float,
        TyModel::Double => NativeType::Double,
        TyModel::Class(name) => if name == string_class() {
            NativeType::Str
        } else {
            NativeType::Object
        },
        TyModel::Array(_) => NativeType::Array,
    }
}

/// The parameters of a stub: the two handles, then one per argument type.
pub open spec fn stub_params(args: Seq<TyModel>) -> Seq<NativeType> {
    seq![NativeType::Env, NativeType::ClassHandle] + args.map_values(|t: TyModel| native_of(t))
}

/// The native return type of a stub.
pub open spec fn stub_ret(ret: Option<TyModel>) -> Option<NativeType> {
    match ret {
        Some(t) => Some(native_of(t)),
        None => None,
    }
}

/// The path of the native type in the runtime bindings.
pub open spec fn native_path(t: NativeType) -> Seq<char> {
    match t {
        NativeType::Env => "::jni::JNIEnv"@,
        NativeType::ClassHandle => "::jni::objects::JClass"@,
        NativeType::Boolean => "::jni::sys::jboolean"@,
        NativeType::Byte => "::jni::sys::jbyte"@,
        NativeType::Char => "::jni::sys::jchar"@,
        NativeType::Short => "::jni::sys::jshort"@,
        NativeType::Int => "::jni::sys::jint"@,
        NativeType::Long => "::jni::sys::jlong"@,
        NativeType::Float => "::jni::sys::jfloat"@,
        NativeType::Double => "::jni::sys::jdouble"@,
        NativeType::Str => "::jni::objects::JString"@,
        NativeType::Object => "::jni::objects::JObject"@,
        NativeType::Array => "::jni::sys::jarray"@,
    }
}

impl NativeType {
    /// The path of this type in the runtime bindings.
    pub fn path(&self) -> (r: &'static str)
        ensures
            r@ == native_path(*self),
    {
        match self {
            NativeType::Env => "::jni::JNIEnv",
            NativeType::ClassHandle => "::jni::objects::JClass",
            NativeType::Boolean => "::jni::sys::jboolean",
            NativeType::Byte => "::jni::sys::jbyte",
            NativeType::Char => "::jni::sys::jchar",
            NativeType::Short => "::jni::sys::jshort",
            NativeType::Int => "::jni::sys::jint",
            NativeType::Long => "::jni::sys::jlong",
            NativeType::Float => "::jni::sys::jfloat",
            NativeType::Double => "::jni::sys::jdouble",
            NativeType::Str => "::jni::objects::JString",
            NativeType::Object => "::jni::objects::JObject",
            NativeType::Array => "::jni::sys::jarray",
        }
    }
}

/// Whether `a` and `b` hold the same characters.
fn eq_str(a: &str, b: &str) -> (r: bool)
    ensures
        r == (a@ == b@),
{
    let n = a.unicode_len();
    let m = b.unicode_len();
    if n != m {
        return false;
    }
    let mut i: usize = 0;
    while i < n
        invariant
            n == a@.len(),
            m == b@.len(),
            n == m,
            i <= n,
            forall|k: int| 0 <= k < i ==> a@[k] == b@[k],
        decreases n - i,
    {
        if a.get_char(i) != b.get_char(i) {
            return false;
        }
        i = i + 1;
    }
    proof {
        assert(a@ =~= b@);
    }
    true
}

/// The native type that stands for `ty`; element types of arrays are not
/// told apart.
fn jni_ident_from_ty(ty: &JavaTy) -> (r: NativeType)
    ensures
        r == native_of(ty@),
{
    match ty {
        JavaTy::Boolean => NativeType::Boolean,
        JavaTy::Byte => NativeType::Byte,
        JavaTy::Char => NativeType::Char,
        JavaTy::Short => NativeType::Short,
        JavaTy::Int => NativeType::Int,
        JavaTy::Long => NativeType::Long,
        JavaTy::Float => NativeType::Float,
        JavaTy::Double => NativeType::Double,
        JavaTy::Array(_) => NativeType::Array,
        JavaTy::Class(name) => {
            let string_name = "java/lang/String";
            proof {
                reveal_strlit("java/lang/String");
                assert(string_name@ =~= string_class());
            }
            if eq_str(name.as_str(), string_name) {
                NativeType::Str
            } else {
                NativeType::Object
            }
        },
    }
}

/// An export stub: a function named `symbol` that takes `params`, returns
/// `ret` (nothing when `None`) and passes every parameter, in order, to the
/// function named `target`.
pub struct ExportStub {
    pub symbol: String,
    pub target: String,
    pub params: Vec<NativeType>,
    pub ret: Option<NativeType>,
}

/// The mathematical value of an `ExportStub`.
pub struct StubModel {
    pub symbol: Seq<char>,
    pub target: Seq<char>,
    pub params: Seq<NativeType>,
    pub ret: Option<NativeType>,
}

impl View for ExportStub {
    type V = StubModel;

    open spec fn view(&self) -> StubModel {
        StubModel {
            symbol: self.symbol@,
            target: self.target@,
            params: self.params@,
            ret: self.ret,
        }
    }
}

/// The stub that exports `target` under `symbol` for signature `sig`.
fn emit_export_fn(target: &str, symbol: String, sig: &MethodSignature) -> (r: ExportStub)
    ensures
        r.symbol == symbol,
        r.target@ == target@,
        r.params@ == stub_params(sig@.args),
        r.ret == stub_ret(sig@.ret),
{
    let mut params: Vec<NativeType> = Vec::new();
    params.push(NativeType::Env);
    params.push(NativeType::ClassHandle);
    let args = sig.args();
    let ghost models = sig@.args;
    let mut i: usize = 0;
    while i < args.len()
        invariant
            crate::signature::models(args@) == models,
            i <= args@.len(),
            params@ == stub_params(models.subrange(0, i as int)),
        decreases args@.len() - i,
    {
        let t = jni_ident_from_ty(&args[i]);
        params.push(t);
        proof {
            assert(models[i as int] == args@[i as int]@);
            assert(stub_params(models.subrange(0, i + 1)) =~= stub_params(
                models.subrange(0, i as int),
            ).push(t));
        }
        i = i + 1;
    }
    proof {
        assert(models.subrange(0, i as int) =~= models);
    }
    let ret = match sig.ret() {
        Some(t) => Some(jni_ident_from_ty(t)),
        None => None,
    };
    ExportStub { symbol, target: target.to_owned(), params, ret }
}

/// A stub has the two handles and then one parameter per argument, each the
/// native type of that argument in the same place, and returns the native
/// type of the return type exactly when there is one.
pub proof fn lemma_stub_shape(sig: SigModel)
    ensures
        stub_params(sig.args).len() == 2 + sig.args.len(),
        stub_params(sig.args)[0] == NativeType::Env,
        stub_params(sig.args)[1] == NativeType::ClassHandle,
        forall|i: int|
            0 <= i < sig.args.len() ==> #[trigger] stub_params(sig.args)[i + 2] == native_of(
                sig.args[i],
            ),
        stub_ret(sig.ret) is Some <==> sig.ret is Some,
        forall|t: TyModel| sig.ret == Some(t) ==> stub_ret(sig.ret) == Some(native_of(t)),
{
}

/// One item of the attribute's parameter list.
#[derive(Clone, PartialEq, Eq, Debug)]
pub enum AttrArg {
    /// `key = "value"`.
    NameValue(String, String),
    /// A bare string literal.
    Literal(String),
    /// Anything else.
    Other,
}

/// The mathematical value of an `AttrArg`.
pub enum ArgModel {
    NameValue(Seq<char>, Seq<char>),
    Literal(Seq<char>),
    Other,
}

impl View for AttrArg {
    type V = ArgModel;

    open spec fn view(&self) -> ArgModel {
        match self {
            AttrArg::NameValue(k, v) => ArgModel::NameValue(k@, v@),
            AttrArg::Literal(v) => ArgModel::Literal(v@),
            AttrArg::Other => ArgModel::Other,
        }
    }
}

/// Why no stub was generated.
#[derive(Clone, Copy, PartialEq, Eq, Structural, Debug)]
pub enum ExportError {
    /// The parameters match neither form of the attribute, or miss a field.
    Usage,
    /// The fully qualified method path holds no `.`.
    MethodPath,
    /// The descriptor does not parse.
    Descriptor,
}

/// The method a binding is for: class path, method name and descriptor.
pub struct Invocation {
    pub class: String,
    pub name: String,
    pub sig: String,
}

/// Which form of the attribute the parameters seen so far use.
#[derive(Clone, Copy, PartialEq, Eq, Structural)]
pub enum Form {
    Undecided,
    Named,
    Positional,
}

/// What the parameters seen so far name.
pub struct Fields {
    pub form: Form,
    pub class: Option<Seq<char>>,
    pub name: Option<Seq<char>>,
    pub sig: Option<Seq<char>>,
}

/// Index of the last `.` in `s`, or -1 when there is none.
pub open spec fn last_dot(s: Seq<char>) -> int
    decreases s.len(),
{
    if s.len() == 0 {
        -1
    } else if s.last() == '.' {
        s.len() - 1
    } else {
        last_dot(s.drop_last())
    }
}

/// A fully qualified method path split at its last `.`: class and method.
pub open spec fn split_path(p: Seq<char>) -> Option<(Seq<char>, Seq<char>)> {
    let d = last_dot(p);
    if d < 0 {
        None
    } else {
        Some((p.subrange(0, d), p.subrange(d + 1, p.len() as int)))
    }
}

/// Takes in the parameter `a` at position `idx` of the list.
pub open spec fn take_arg(f: Fields, idx: int, a: ArgModel) -> Result<Fields, ExportError> {
    match a {
        ArgModel::NameValue(k, v) => if f.form is Positional {
            Err(ExportError::Usage)
        } else if k == "class"@ {
            Ok(Fields { form: Form::Named, class: Some(v), name: f.name, sig: f.sig })
        } else if k == "name"@ {
            Ok(Fields { form: Form::Named, class: f.class, name: Some(v), sig: f.sig })
        } else if k == "sig"@ {
            Ok(Fields { form: Form::Named, class: f.class, name: f.name, sig: Some(v) })
        } else {
            Err(ExportError::Usage)
        },
        ArgModel::Literal(v) => if f.form is Named {
            Err(ExportError::Usage)
        } else if idx == 0 {
            match split_path(v) {
                Some((c, m)) => Ok(
                    Fields { form: Form::Positional, class: Some(c), name: Some(m), sig: f.sig },
                ),
                None => Err(ExportError::MethodPath),
            }
        } else if idx == 1 {
            Ok(Fields { form: Form::Positional, class: f.class, name: f.name, sig: Some(v) })
        } else {
            Err(ExportError::Usage)
        },
        ArgModel::Other => Err(ExportError::Usage),
    }
}

/// What the first `n` parameters name, or the first error among them.
pub open spec fn take_args(args: Seq<ArgModel>, n: int) -> Result<Fields, ExportError>
    decreases n,
{
    if n <= 0 {
        Ok(Fields { form: Form::Undecided, class: None, name: None, sig: None })
    } else {
        match take_args(args, n - 1) {
            Ok(f) => take_arg(f, n - 1, args[n - 1]),
            Err(e) => Err(e),
        }
    }
}

/// Class path, method name and descriptor that a parameter list names.
pub open spec fn resolve_spec(args: Seq<ArgModel>) -> Result<
    (Seq<char>, Seq<char>, Seq<char>),
    ExportError,
> {
    match take_args(args, args.len() as int) {
        Ok(f) => match (f.class, f.name, f.sig) {
            (Some(c), Some(m), Some(s)) => Ok((c, m, s)),
            _ => Err(ExportError::Usage),
        },
        Err(e) => Err(e),
    }
}

/// An error among the first parameters is the error of the whole list.
proof fn lemma_take_args_err(args: Seq<ArgModel>, i: int, n: int)
    requires
        0 <= i <= n,
        take_args(args, i) is Err,
    ensures
        take_args(args, n) == take_args(args, i),
    decreases n - i,
{
    if i < n {
        lemma_take_args_err(args, i, n - 1);
    }
}

/// `s` with every `.` replaced by `/`.
pub open spec fn slashed(s: Seq<char>) -> Seq<char> {
    s.map_values(|c: char| if c == '.' { '/' } else { c })
}

/// Splits a fully qualified method path at its last `.`.
fn separate_method_name<'a>(path: &'a str) -> (r: Option<(&'a str, &'a str)>)
    ensures
        match r {
            Some((c, m)) => split_path(path@) == Some((c@, m@)),
            None => split_path(path@) is None,
        },
{
    let n = path.unicode_len();
    let mut i: usize = n;
    proof {
        assert(path@.subrange(0, n as int) =~= path@);
    }
    while i > 0 && path.get_char(i - 1) != '.'
        invariant
            n == path@.len(),
            i <= n,
            last_dot(path@) == last_dot(path@.subrange(0, i as int)),
        decreases i,
    {
        proof {
            let pre = path@.subrange(0, i as int);
            assert(pre.drop_last() =~= path@.subrange(0, i - 1));
        }
        i = i - 1;
    }
    if i == 0 {
        proof {
            assert(path@.subrange(0, 0) =~= Seq::<char>::empty());
        }
        None
    } else {
        proof {
            assert(path@.subrange(0, i as int).last() == '.');
        }
        Some((path.substring_char(0, i - 1), path.substring_char(i, n)))
    }
}

/// `s` with every `.` replaced by `/`.
fn dots_to_slashes(s: &str) -> (r: String)
    ensures
        r@ == slashed(s@),
{
    let n = s.unicode_len();
    let mut r = String::new();
    let mut i: usize = 0;
    while i < n
        invariant
            n == s@.len(),
            i <= n,
            r@ == slashed(s@.subrange(0, i as int)),
        decreases n - i,
    {
        let c = s.get_char(i);
        if c == '.' {
            push_char(&mut r, '/');
        } else {
            push_char(&mut r, c);
        }
        proof {
            assert(slashed(s@.subrange(0, i + 1)) =~= slashed(s@.subrange(0, i as int)).push(
                if c == '.' {
                    '/'
                } else {
                    c
                },
            ));
        }
        i = i + 1;
    }
    proof {
        assert(s@.subrange(0, n as int) =~= s@);
    }
    r
}

/// The models of a list of parameters.
pub open spec fn arg_models(v: Seq<AttrArg>) -> Seq<ArgModel> {
    v.map_values(|a: AttrArg| a@)
}

/// The model of an optional string.
pub open spec fn opt_chars(o: Option<String>) -> Option<Seq<char>> {
    match o {
        Some(s) => Some(s@),
        None => None,
    }
}

/// Class path, method name and descriptor that the parameter list names,
/// read the way `resolve_spec` says.
fn resolve_invocation(args: &Vec<AttrArg>) -> (r: Result<Invocation, ExportError>)
    ensures
        resolve_spec(arg_models(args@)) == match r {
            Ok(inv) => Ok((inv.class@, inv.name@, inv.sig@)),
            Err(e) => Err(e),
        },
{
    let ghost ms = arg_models(args@);
    let mut form = Form::Undecided;
    let mut class: Option<String> = None;
    let mut name: Option<String> = None;
    let mut sig: Option<String> = None;
    let mut i: usize = 0;
    while i < args.len()
        invariant
            ms == arg_models(args@),
            i <= args@.len(),
            take_args(ms, i as int) == Ok::<Fields, ExportError>(
                Fields { form, class: opt_chars(class), name: opt_chars(name), sig: opt_chars(sig) },
            ),
        decreases args@.len() - i,
    {
        let ghost before = Fields {
            form,
            class: opt_chars(class),
            name: opt_chars(name),
            sig: opt_chars(sig),
        };
        let ghost step = take_arg(before, i as int, ms[i as int]);
        proof {
            assert(ms[i as int] == args@[i as int]@);
            assert(take_args(ms, i + 1) == step);
        }
        let err: Option<ExportError> = match &args[i] {
            AttrArg::NameValue(k, v) => {
                if form == Form::Positional {
                    Some(ExportError::Usage)
                } else if eq_str(k.as_str(), "class") {
                    form = Form::Named;
                    class = Some(v.clone());
                    None
                } else if eq_str(k.as_str(), "name") {
                    form = Form::Named;
                    name = Some(v.clone());
                    None
                } else if eq_str(k.as_str(), "sig") {
                    form = Form::Named;
                    sig = Some(v.clone());
                    None
                } else {
                    Some(ExportError::Usage)
                }
            },
            AttrArg::Literal(v) => {
                if form == Form::Named {
                    Some(ExportError::Usage)
                } else if i == 0 {
                    match separate_method_name(v.as_str()) {
                        Some((c, m)) => {
                            form = Form::Positional;
                            class = Some(c.to_owned());
                            name = Some(m.to_owned());
                            None
                        },
                        None => Some(ExportError::MethodPath),
                    }
                } else if i == 1 {
                    form = Form::Positional;
                    sig = Some(v.clone());
                    None
                } else {
                    Some(ExportError::Usage)
                }
            },
            AttrArg::Other => Some(ExportError::Usage),
        };
        match err {
            Some(e) => {
                proof {
                    lemma_take_args_err(ms, i + 1, ms.len() as int);
                }
                return Err(e);
            },
            None => {},
        }
        i = i + 1;
    }
    match (class, name, sig) {
        (Some(c), Some(m), Some(s)) => Ok(Invocation { class: c, name: m, sig: s }),
        _ => Err(ExportError::Usage),
    }
}

/// The stub generated for the function named `target` from the attribute's
/// parameter list (`None` when the attribute has no list).
pub open spec fn export_spec(target: Seq<char>, params: Option<Seq<ArgModel>>) -> Result<
    StubModel,
    ExportError,
> {
    match params {
        None => Err(ExportError::Usage),
        Some(args) => match resolve_spec(args) {
            Err(e) => Err(e),
            Ok((class, method, desc)) => match parse_method_spec(desc) {
                None => Err(ExportError::Descriptor),
                Some(sig) => Ok(
                    StubModel {
                        symbol: symbol_of(slashed(class), method, args_descriptor(sig.args)),
                        target,
                        params: stub_params(sig.args),
                        ret: stub_ret(sig.ret),
                    },
                ),
            },
        },
    }
}

/// Generates the export stub for the function named `fn_name` from the
/// attribute's parameter list: the class path (dots become slashes), the
/// method name and the descriptor give the symbol and the native types.
pub fn jni_export_impl(fn_name: &str, params: &Option<Vec<AttrArg>>) -> (r: Result<
    ExportStub,
    ExportError,
>)
    ensures
        export_spec(
            fn_name@,
            match params {
                Some(v) => Some(arg_models(v@)),
                None => None,
            },
        ) == match r {
            Ok(stub) => Ok(stub@),
            Err(e) => Err(e),
        },
{
    let args = match params {
        Some(v) => v,
        None => {
            return Err(ExportError::Usage);
        },
    };
    let inv = match resolve_invocation(args) {
        Ok(inv) => inv,
        Err(e) => {
            return Err(e);
        },
    };
    let class = dots_to_slashes(inv.class.as_str());
    let sig = match MethodSignature::parse_method(inv.sig.as_str()) {
        Some(sig) => sig,
        None => {
            return Err(ExportError::Descriptor);
        },
    };
    let symbol = get_symbol_name(class.as_str(), inv.name.as_str(), &sig);
    Ok(emit_export_fn(fn_name, symbol, &sig))
}

} // verus!
