//! Type descriptors: the data model, its canonical text, and the parser.
use vstd::prelude::*;

use crate::text::push_char;

verus! {

/// A type as it appears in a descriptor.
///
/// An array keeps the descriptor text of its element type rather than a
/// nested value; the element can be parsed again on demand.
#[derive(Clone, PartialEq, Eq, Hash, Debug)]
pub enum JavaTy {
    Boolean,
    Byte,
    Char,
    Short,
    Int,
    Long,
    Float,
    Double,
    Class(String),
    Array(String),
}

/// The mathematical value of a `JavaTy`.
pub enum TyModel {
    Boolean,
    Byte,
    Char,
    Short,
    Int,
    Long,
    Float,
    Double,
    Class(Seq<char>),
    Array(Seq<char>),
}

impl View for JavaTy {
    type V = TyModel;

    open spec fn view(&self) -> TyModel {
        match self {
            JavaTy::Boolean => TyModel::Boolean,
            JavaTy::Byte => TyModel::Byte,
            JavaTy::Char => TyModel::Char,
            JavaTy::Short => TyModel::Short,
            JavaTy::Int => TyModel::Int,
            JavaTy::Long => TyModel::Long,
            JavaTy::Float => TyModel::Float,
            JavaTy::Double => TyModel::Double,
            JavaTy::Class(name) => TyModel::Class(name@),
            JavaTy::Array(elem) => TyModel::Array(elem@),
        }
    }
}

impl JavaTy {
    /// The primitive type that a one-letter code stands for, if any.
    fn primitive_from_char(c: char) -> (r: Option<JavaTy>)
        ensures
            match r {
                Some(t) => primitive_of(c) == Some(t@),
                None => primitive_of(c) is None,
            },
    {
        match c {
            'Z' => Some(JavaTy::Boolean),
            'B' => Some(JavaTy::Byte),
            'C' => Some(JavaTy::Char),
            'S' => Some(JavaTy::Short),
            'I' => Some(JavaTy::Int),
            'J' => Some(JavaTy::Long),
            'F' => Some(JavaTy::Float),
            'D' => Some(JavaTy::Double),
            _ => None,
        }
    }

    /// The array type whose elements have type `ty`.
    fn array_from_ty(ty: JavaTy) -> (r: JavaTy)
        ensures
            r@ == TyModel::Array(descriptor(ty@)),
    {
        JavaTy::Array(ty.to_str())
    }

    /// The canonical descriptor text of this type.
    pub fn to_str(&self) -> (r: String)
        ensures
            r@ == descriptor(self@),
    {
        let mut r = String::new();
        match self {
            JavaTy::Boolean => push_char(&mut r, 'Z'),
            JavaTy::Byte => push_char(&mut r, 'B'),
            JavaTy::Char => push_char(&mut r, 'C'),
            JavaTy::Short => push_char(&mut r, 'S'),
            JavaTy::Int => push_char(&mut r, 'I'),
            JavaTy::Long => push_char(&mut r, 'J'),
            JavaTy::Float => push_char(&mut r, 'F'),
            JavaTy::Double => push_char(&mut r, 'D'),
            JavaTy::Class(name) => {
                push_char(&mut r, 'L');
                r.append(name.as_str());
                push_char(&mut r, ';');
            },
            JavaTy::Array(elem) => {
                push_char(&mut r, '[');
                r.append(elem.as_str());
            },
        }
        proof {
            assert(r@ =~= descriptor(self@));
        }
        r
    }
}

/// The primitive type that a one-letter code stands for.
pub open spec fn primitive_of(c: char) -> Option<TyModel> {
    if c == 'Z' {
        Some(TyModel::Boolean)
    } else if c == 'B' {
        Some(TyModel::Byte)
    } else if c == 'C' {
        Some(TyModel::Char)
    } else if c == 'S' {
        Some(TyModel::Short)
    } else if c == 'I' {
        Some(TyModel::Int)
    } else if c == 'J' {
        Some(TyModel::Long)
    } else if c == 'F' {
        Some(TyModel::Float)
    } else if c == 'D' {
        Some(TyModel::Double)
    } else {
        None
    }
}

/// The canonical descriptor text of a type.
pub open spec fn descriptor(t: TyModel) -> Seq<char> {
    match t {
        TyModel::Boolean => seq!['Z'],
        TyModel::Byte => seq!['B'],
        TyModel::Char => seq!['C'],
        TyModel::Short => seq!['S'],
        TyModel::Int => seq!['I'],
        TyModel::Long => seq!['J'],
        TyModel::Float => seq!['F'],
        TyModel::Double => seq!['D'],
        TyModel::Class(name) => seq!['L'] + name + seq![';'],
        TyModel::Array(elem) => seq!['['] + elem,
    }
}

/// Index of the first `;` in `s`, or `s.len()` when there is none.
pub open spec fn semicolon_pos(s: Seq<char>) -> int
    decreases s.len(),
{
    if s.len() == 0 {
        0
    } else if s[0] == ';' {
        0
    } else {
        1 + semicolon_pos(s.drop_first())
    }
}

/// Parses one type from the front of `s`: the type and the text after it.
pub open spec fn parse_type_spec(s: Seq<char>) -> Option<(TyModel, Seq<char>)>
    decreases s.len(),
{
    if s.len() == 0 {
        None
    } else if primitive_of(s[0]) is Some {
        Some((primitive_of(s[0])->0, s.drop_first()))
    } else if s[0] == 'L' {
        let n = semicolon_pos(s.drop_first());
        if 0 < n && n < s.len() - 1 {
            Some((TyModel::Class(s.subrange(1, n + 1)), s.subrange(n + 2, s.len() as int)))
        } else {
            None
        }
    } else if s[0] == '[' {
        match parse_type_spec(s.drop_first()) {
            Some((_, rest)) => Some(
                (TyModel::Array(s.subrange(1, s.len() - rest.len())), rest),
            ),
            None => None,
        }
    } else {
        None
    }
}

/// A type that some descriptor text stands for: a class name is non-empty
/// and holds no `;`, an array's element text is exactly one type.
pub open spec fn well_formed(t: TyModel) -> bool {
    match t {
        TyModel::Class(name) => name.len() > 0 && !name.contains(';'),
        TyModel::Array(elem) => match parse_type_spec(elem) {
            Some((_, rest)) => rest.len() == 0,
            None => false,
        },
        _ => true,
    }
}

/// `semicolon_pos` is the first index holding `;`.
pub proof fn lemma_semicolon_pos(s: Seq<char>, k: int)
    requires
        0 <= k <= s.len(),
        forall|m: int| 0 <= m < k ==> s[m] != ';',
        k == s.len() || s[k] == ';',
    ensures
        semicolon_pos(s) == k,
    decreases s.len(),
{
    if s.len() > 0 && k > 0 {
        lemma_semicolon_pos(s.drop_first(), k - 1);
    }
}

/// `semicolon_pos` stays within the text.
pub proof fn lemma_semicolon_pos_bounds(s: Seq<char>)
    ensures
        0 <= semicolon_pos(s) <= s.len(),
        forall|m: int| 0 <= m < semicolon_pos(s) ==> s[m] != ';',
        semicolon_pos(s) == s.len() || s[semicolon_pos(s)] == ';',
    decreases s.len(),
{
    if s.len() > 0 && s[0] != ';' {
        let tail = s.drop_first();
        lemma_semicolon_pos_bounds(tail);
        assert forall|m: int| 0 <= m < semicolon_pos(s) implies s[m] != ';' by {
            if m > 0 {
                assert(s[m] == tail[m - 1]);
            }
        }
    }
}

/// What a parse consumes is exactly the descriptor text of its result.
pub proof fn lemma_parse_type_consumes(s: Seq<char>)
    requires
        parse_type_spec(s) is Some,
    ensures
        ({
            let (t, rest) = parse_type_spec(s)->0;
            s == descriptor(t) + rest
        }),
    decreases s.len(),
{
    let (t, rest) = parse_type_spec(s)->0;
    if primitive_of(s[0]) is Some {
        assert(s =~= descriptor(t) + rest);
    } else if s[0] == 'L' {
        let n = semicolon_pos(s.drop_first());
        lemma_semicolon_pos_bounds(s.drop_first());
        assert(s[n + 1] == ';');
        assert(s =~= descriptor(t) + rest);
    } else {
        let inner = s.drop_first();
        lemma_parse_type_consumes(inner);
        let (t2, rest2) = parse_type_spec(inner)->0;
        assert(rest2 == rest);
        let elem = s.subrange(1, s.len() - rest.len());
        assert(elem =~= descriptor(t2));
        assert(t == TyModel::Array(elem));
        assert(s[0] == '[');
        assert(inner =~= elem + rest);
        assert(s =~= seq!['['] + inner);
        assert(s =~= seq!['['] + elem + rest);
    }
}

/// A parse reads nothing past what it consumes: the consumed text followed by
/// any other text parses to the same type.
pub proof fn lemma_parse_type_extend(s: Seq<char>, r: Seq<char>)
    requires
        parse_type_spec(s) is Some,
    ensures
        ({
            let (t, rest) = parse_type_spec(s)->0;
            parse_type_spec(s.subrange(0, s.len() - rest.len()) + r) == Some((t, r))
        }),
    decreases s.len(),
{
    let (t, rest) = parse_type_spec(s)->0;
    let x = s.subrange(0, s.len() - rest.len()) + r;
    lemma_parse_type_consumes(s);
    if primitive_of(s[0]) is Some {
        assert(x.drop_first() =~= r);
    } else if s[0] == 'L' {
        let n = semicolon_pos(s.drop_first());
        lemma_semicolon_pos_bounds(s.drop_first());
        lemma_semicolon_pos(x.drop_first(), n);
        assert(x.subrange(1, n + 1) =~= s.subrange(1, n + 1));
        assert(x.subrange(n + 2, x.len() as int) =~= r);
    } else {
        let inner = s.drop_first();
        lemma_parse_type_extend(inner, r);
        assert(inner.subrange(0, inner.len() - rest.len()) + r =~= x.drop_first());
        assert(x.subrange(1, x.len() - r.len()) =~= s.subrange(1, s.len() - rest.len()));
    }
}

/// Parsing the descriptor text of a well-formed type gives that type back and
/// consumes the whole text.
pub proof fn lemma_type_round_trip(t: TyModel)
    requires
        well_formed(t),
    ensures
        parse_type_spec(descriptor(t)) == Some((t, Seq::<char>::empty())),
{
    let d = descriptor(t);
    match t {
        TyModel::Class(name) => {
            assert(d.drop_first() =~= name + seq![';']);
            assert forall|m: int| 0 <= m < name.len() implies d.drop_first()[m] != ';' by {
                if d.drop_first()[m] == ';' {
                    assert(name[m] == ';');
                }
            }
            lemma_semicolon_pos(d.drop_first(), name.len() as int);
            assert(d.subrange(1, name.len() + 1int) =~= name);
            assert(d.subrange(name.len() + 2int, d.len() as int) =~= Seq::<char>::empty());
        },
        TyModel::Array(elem) => {
            lemma_parse_type_extend(elem, Seq::<char>::empty());
            assert(elem.subrange(0, elem.len() as int) + Seq::<char>::empty() =~= elem);
            assert(d.drop_first() =~= elem);
            assert(d.subrange(1, d.len() as int) =~= elem);
        },
        _ => {
            assert(d.drop_first() =~= Seq::<char>::empty());
        },
    }
}

/// Parses one type starting at character `i` of `s`, whose length is `n`:
/// the type and the index just past it.
fn parse_type_at(s: &str, n: usize, i: usize) -> (r: Option<(JavaTy, usize)>)
    requires
        n == s@.len(),
        i <= n,
    ensures
        match r {
            Some((t, j)) => i < j <= n && parse_type_spec(s@.subrange(i as int, n as int)) == Some(
                (t@, s@.subrange(j as int, n as int)),
            ),
            None => parse_type_spec(s@.subrange(i as int, n as int)) is None,
        },
    decreases n - i,
{
    let ghost x = s@.subrange(i as int, n as int);
    if i >= n {
        return None;
    }
    let c = s.get_char(i);
    proof {
        assert(x[0] == c);
        assert(x.drop_first() =~= s@.subrange(i + 1, n as int));
    }
    match JavaTy::primitive_from_char(c) {
        Some(t) => {
            return Some((t, i + 1));
        },
        None => {},
    }
    if c == 'L' {
        let mut k: usize = i + 1;
        while k < n && s.get_char(k) != ';'
            invariant
                n == s@.len(),
                i + 1 <= k <= n,
                forall|m: int| i + 1 <= m < k ==> s@[m] != ';',
            decreases n - k,
        {
            k = k + 1;
        }
        proof {
            let tail = x.drop_first();
            assert forall|m: int| 0 <= m < k - i - 1 implies tail[m] != ';' by {
                assert(tail[m] == s@[i + 1 + m]);
            }
            lemma_semicolon_pos(tail, k - i - 1);
        }
        if k > i + 1 && k < n {
            let name = s.substring_char(i + 1, k).to_owned();
            proof {
                assert(x.subrange(1, k - i) =~= s@.subrange(i + 1, k as int));
                assert(x.subrange(k - i + 1, x.len() as int) =~= s@.subrange(k + 1, n as int));
            }
            return Some((JavaTy::Class(name), k + 1));
        }
        return None;
    }
    if c == '[' {
        match parse_type_at(s, n, i + 1) {
            Some((t, j)) => {
                proof {
                    let inner = s@.subrange(i + 1, n as int);
                    lemma_parse_type_consumes(inner);
                    let rest = s@.subrange(j as int, n as int);
                    assert(inner =~= descriptor(t@) + rest);
                    assert(x.subrange(1, x.len() - rest.len()) =~= descriptor(t@));
                }
                return Some((JavaTy::array_from_ty(t), j));
            },
            None => {
                return None;
            },
        }
    }
    None
}

/// Parses one type from the front of `s`: the type and the text that follows it.
pub fn parse_type(s: &str) -> (r: Option<(JavaTy, &str)>)
    ensures
        match r {
            Some((t, rest)) => parse_type_spec(s@) == Some((t@, rest@)),
            None => parse_type_spec(s@) is None,
        },
{
    let n = s.unicode_len();
    proof {
        assert(s@.subrange(0, n as int) =~= s@);
    }
    match parse_type_at(s, n, 0) {
        Some((t, j)) => Some((t, s.substring_char(j, n))),
        None => None,
    }
}

/// A parsed method descriptor: the argument types in call order, and the
/// return type (`None` for void).
#[derive(Clone, PartialEq, Eq, Debug)]
pub struct MethodSignature {
    args: Vec<JavaTy>,
    ret: Option<JavaTy>,
}

/// The mathematical value of a `MethodSignature`.
pub struct SigModel {
    pub args: Seq<TyModel>,
    pub ret: Option<TyModel>,
}

/// The models of a sequence of types.
pub open spec fn models(v: Seq<JavaTy>) -> Seq<TyModel> {
    v.map_values(|t: JavaTy| t@)
}

/// The model of an optional type.
pub open spec fn opt_model(o: Option<JavaTy>) -> Option<TyModel> {
    match o {
        Some(t) => Some(t@),
        None => None,
    }
}

impl View for MethodSignature {
    type V = SigModel;

    closed spec fn view(&self) -> SigModel {
        SigModel { args: models(self.args@), ret: opt_model(self.ret) }
    }
}

/// The descriptor texts of a list of types, one after the other.
pub open spec fn args_descriptor(ts: Seq<TyModel>) -> Seq<char>
    decreases ts.len(),
{
    if ts.len() == 0 {
        Seq::empty()
    } else {
        descriptor(ts[0]) + args_descriptor(ts.drop_first())
    }
}

/// `r` with `ts` put before the types it parsed.
pub open spec fn prepend_args(ts: Seq<TyModel>, r: Option<(Seq<TyModel>, Seq<char>)>) -> Option<
    (Seq<TyModel>, Seq<char>),
> {
    match r {
        Some((us, rest)) => Some((ts + us, rest)),
        None => None,
    }
}

/// Parses types up to and including the closing `)` of an argument list:
/// the types and the text after the `)`.
pub open spec fn parse_args_spec(s: Seq<char>) -> Option<(Seq<TyModel>, Seq<char>)>
    decreases s.len(),
{
    if s.len() == 0 {
        None
    } else if s[0] == ')' {
        Some((Seq::empty(), s.drop_first()))
    } else {
        match parse_type_spec(s) {
            Some((t, rest)) => if rest.len() < s.len() {
                prepend_args(seq![t], parse_args_spec(rest))
            } else {
                None
            },
            None => None,
        }
    }
}

/// Parses a whole method descriptor `(` types `)` and an optional return
/// type; a lone `V` after the `)` also stands for void. Text left over
/// rejects the descriptor.
pub open spec fn parse_method_spec(s: Seq<char>) -> Option<SigModel> {
    if s.len() == 0 || s[0] != '(' {
        None
    } else {
        match parse_args_spec(s.drop_first()) {
            Some((args, rest)) => if rest.len() == 0 || rest == seq!['V'] {
                Some(SigModel { args, ret: None })
            } else {
                match parse_type_spec(rest) {
                    Some((t, tail)) => if tail.len() == 0 {
                        Some(SigModel { args, ret: Some(t) })
                    } else {
                        None
                    },
                    None => None,
                }
            },
            None => None,
        }
    }
}

/// Appending a type to a list appends its descriptor text.
pub proof fn lemma_args_descriptor_push(ts: Seq<TyModel>, t: TyModel)
    ensures
        args_descriptor(ts.push(t)) == args_descriptor(ts) + descriptor(t),
    decreases ts.len(),
{
    if ts.len() == 0 {
        assert(ts.push(t).drop_first() =~= Seq::<TyModel>::empty());
        assert(ts.push(t)[0] == t);
        assert(args_descriptor(Seq::<TyModel>::empty()) == Seq::<char>::empty());
        assert(args_descriptor(ts.push(t)) =~= args_descriptor(ts) + descriptor(t));
    } else {
        lemma_args_descriptor_push(ts.drop_first(), t);
        assert(ts.push(t).drop_first() =~= ts.drop_first().push(t));
        assert(ts.push(t)[0] == ts[0]);
        assert(args_descriptor(ts.push(t)) =~= args_descriptor(ts) + descriptor(t));
    }
}

/// Parses an argument list whose `(` stands just before character `i`: the
/// types and the index just past the `)`.
fn parse_args_at(s: &str, n: usize, i: usize) -> (r: Option<(Vec<JavaTy>, usize)>)
    requires
        n == s@.len(),
        i <= n,
    ensures
        match r {
            Some((v, j)) => j <= n && parse_args_spec(s@.subrange(i as int, n as int)) == Some(
                (models(v@), s@.subrange(j as int, n as int)),
            ),
            None => parse_args_spec(s@.subrange(i as int, n as int)) is None,
        },
{
    let mut v: Vec<JavaTy> = Vec::new();
    let mut k: usize = i;
    proof {
        assert(models(v@) =~= Seq::<TyModel>::empty());
        assert(prepend_args(Seq::empty(), parse_args_spec(s@.subrange(i as int, n as int)))
            =~= parse_args_spec(s@.subrange(i as int, n as int)));
    }
    loop
        invariant
            n == s@.len(),
            i <= k <= n,
            parse_args_spec(s@.subrange(i as int, n as int)) == prepend_args(
                models(v@),
                parse_args_spec(s@.subrange(k as int, n as int)),
            ),
        decreases n - k,
    {
        let ghost x = s@.subrange(k as int, n as int);
        if k >= n {
            return None;
        }
        let c = s.get_char(k);
        proof {
            assert(x[0] == c);
        }
        if c == ')' {
            proof {
                assert(x.drop_first() =~= s@.subrange(k + 1, n as int));
                assert(models(v@) + Seq::<TyModel>::empty() =~= models(v@));
            }
            return Some((v, k + 1));
        }
        match parse_type_at(s, n, k) {
            Some((t, j)) => {
                proof {
                    let rest = s@.subrange(j as int, n as int);
                    assert(parse_args_spec(x) == prepend_args(seq![t@], parse_args_spec(rest)));
                    let old_models = models(v@);
                    match parse_args_spec(rest) {
                        Some((us, r)) => {
                            assert(old_models + (seq![t@] + us) =~= old_models.push(t@) + us);
                        },
                        None => {},
                    }
                }
                let ghost before = v@;
                v.push(t);
                proof {
                    assert(models(v@) =~= models(before).push(t@));
                }
                k = j;
            },
            None => {
                return None;
            },
        }
    }
}

impl MethodSignature {
    /// The signature with these argument types and this return type.
    pub fn new(args: Vec<JavaTy>, ret: Option<JavaTy>) -> (r: MethodSignature)
        ensures
            r@.args == models(args@),
            r@.ret == opt_model(ret),
    {
        MethodSignature { args, ret }
    }

    /// Parses a method descriptor; `None` when the text does not match the
    /// grammar or is not consumed in full.
    pub fn parse_method(s: &str) -> (r: Option<MethodSignature>)
        ensures
            match r {
                Some(m) => parse_method_spec(s@) == Some(m@),
                None => parse_method_spec(s@) is None,
            },
    {
        let n = s.unicode_len();
        if n == 0 || s.get_char(0) != '(' {
            return None;
        }
        proof {
            assert(s@.subrange(1, n as int) =~= s@.drop_first());
        }
        let (args, k) = match parse_args_at(s, n, 1) {
            Some(p) => p,
            None => {
                return None;
            },
        };
        let ghost rest = s@.subrange(k as int, n as int);
        if k == n {
            proof {
                assert(rest =~= Seq::<char>::empty());
            }
            return Some(MethodSignature { args, ret: None });
        }
        if k + 1 == n && s.get_char(k) == 'V' {
            proof {
                assert(rest =~= seq!['V']);
            }
            return Some(MethodSignature { args, ret: None });
        }
        proof {
            assert(rest.len() > 0);
            if rest == seq!['V'] {
                assert(rest[0] == s@[k as int]);
            }
        }
        match parse_type_at(s, n, k) {
            Some((t, j)) => {
                if j == n {
                    proof {
                        assert(s@.subrange(j as int, n as int) =~= Seq::<char>::empty());
                    }
                    Some(MethodSignature { args, ret: Some(t) })
                } else {
                    None
                }
            },
            None => None,
        }
    }

    /// Parses a method descriptor that is known to be valid.
    pub fn from_utf8(s: &str) -> (r: MethodSignature)
        requires
            parse_method_spec(s@) is Some,
        ensures
            parse_method_spec(s@) == Some(r@),
    {
        match MethodSignature::parse_method(s) {
            Some(m) => m,
            None => {
                proof {
                    assert(false);
                }
                MethodSignature { args: Vec::new(), ret: None }
            },
        }
    }

    /// The argument types, in call order.
    pub fn args(&self) -> (r: &[JavaTy])
        ensures
            models(r@) == self@.args,
    {
        self.args.as_slice()
    }

    /// The return type; `None` for void.
    pub fn ret(&self) -> (r: Option<&JavaTy>)
        ensures
            opt_model(match r {
                Some(t) => Some(*t),
                None => None,
            }) == self@.ret,
    {
        match &self.ret {
            Some(t) => Some(t),
            None => None,
        }
    }

    /// The descriptor texts of the argument types, without the parentheses.
    pub fn args_string(&self) -> (r: String)
        ensures
            r@ == args_descriptor(self@.args),
    {
        let mut r = String::new();
        let mut i: usize = 0;
        while i < self.args.len()
            invariant
                i <= self.args@.len(),
                r@ == args_descriptor(models(self.args@.subrange(0, i as int))),
            decreases self.args@.len() - i,
        {
            let d = self.args[i].to_str();
            r.append(d.as_str());
            proof {
                let done = models(self.args@.subrange(0, i as int));
                lemma_args_descriptor_push(done, self.args@[i as int]@);
                assert(models(self.args@.subrange(0, i + 1)) =~= done.push(self.args@[i as int]@));
            }
            i = i + 1;
        }
        proof {
            assert(self.args@.subrange(0, i as int) =~= self.args@);
        }
        r
    }
}

/// The canonical descriptor text of a method signature.
pub open spec fn method_descriptor(m: SigModel) -> Seq<char> {
    seq!['('] + args_descriptor(m.args) + seq![')'] + match m.ret {
        Some(t) => descriptor(t),
        None => Seq::empty(),
    }
}

/// What an argument-list parse consumes is the descriptor text of its types
/// and the closing `)`.
pub proof fn lemma_parse_args_consumes(s: Seq<char>)
    requires
        parse_args_spec(s) is Some,
    ensures
        ({
            let (ts, rest) = parse_args_spec(s)->0;
            s == args_descriptor(ts) + seq![')'] + rest
        }),
    decreases s.len(),
{
    let (ts, rest) = parse_args_spec(s)->0;
    if s[0] == ')' {
        assert(args_descriptor(ts) =~= Seq::<char>::empty());
        assert(s =~= args_descriptor(ts) + seq![')'] + rest);
    } else {
        let (t, r1) = parse_type_spec(s)->0;
        lemma_parse_type_consumes(s);
        lemma_parse_args_consumes(r1);
        let (us, r2) = parse_args_spec(r1)->0;
        assert(ts =~= seq![t] + us);
        assert(ts[0] == t);
        assert(ts.drop_first() =~= us);
        assert(s =~= args_descriptor(ts) + seq![')'] + rest);
    }
}

/// An accepted method descriptor is read to its end: it is the canonical
/// text of the signature it gives, or, for void, that text and a `V`.
pub proof fn lemma_method_consumes_all(s: Seq<char>)
    requires
        parse_method_spec(s) is Some,
    ensures
        ({
            let m = parse_method_spec(s)->0;
            s == method_descriptor(m) || (m.ret is None && s == method_descriptor(m) + seq!['V'])
        }),
{
    let m = parse_method_spec(s)->0;
    let inner = s.drop_first();
    lemma_parse_args_consumes(inner);
    let (args, rest) = parse_args_spec(inner)->0;
    assert(s =~= seq!['('] + inner);
    if rest.len() == 0 {
        assert(s =~= method_descriptor(m));
    } else if rest == seq!['V'] {
        assert(s =~= method_descriptor(m) + seq!['V']);
    } else {
        lemma_parse_type_consumes(rest);
        let (t, tail) = parse_type_spec(rest)->0;
        assert(rest =~= descriptor(t));
        assert(s =~= method_descriptor(m));
    }
}

/// If `x[i]` is an `L`, a `;` follows it before index `end`.
pub open spec fn closed_at(x: Seq<char>, i: int, end: int) -> bool {
    x[i] == 'L' ==> exists|j: int| i < j < end && x[j] == ';'
}

/// In the text that a type parse consumes, every `L` is followed by a `;`.
proof fn lemma_type_closed(s: Seq<char>)
    requires
        parse_type_spec(s) is Some,
    ensures
        ({
            let end = s.len() - (parse_type_spec(s)->0).1.len();
            forall|i: int| 0 <= i < end ==> #[trigger] closed_at(s, i, end)
        }),
    decreases s.len(),
{
    let (t, rest) = parse_type_spec(s)->0;
    let end = s.len() - rest.len();
    if primitive_of(s[0]) is Some {
        assert forall|i: int| 0 <= i < end implies #[trigger] closed_at(s, i, end) by {
            assert(i == 0);
        }
    } else if s[0] == 'L' {
        let n = semicolon_pos(s.drop_first());
        lemma_semicolon_pos_bounds(s.drop_first());
        assert(s[n + 1] == ';');
        assert forall|i: int| 0 <= i < end implies #[trigger] closed_at(s, i, end) by {
            if i < n + 1 {
                assert(i < n + 1 < end && s[n + 1] == ';');
            } else {
                assert(s[i] == ';');
            }
        }
    } else {
        let inner = s.drop_first();
        lemma_type_closed(inner);
        let iend = inner.len() - (parse_type_spec(inner)->0).1.len();
        assert(iend == end - 1);
        assert forall|i: int| 0 <= i < end implies #[trigger] closed_at(s, i, end) by {
            if i > 0 && s[i] == 'L' {
                assert(inner[i - 1] == s[i]);
                assert(closed_at(inner, i - 1, iend));
                let j = choose|j: int| i - 1 < j < iend && inner[j] == ';';
                assert(s[j + 1] == ';');
            }
        }
    }
}

/// In the text that an argument-list parse consumes, every `L` is followed
/// by a `;`.
proof fn lemma_args_closed(s: Seq<char>)
    requires
        parse_args_spec(s) is Some,
    ensures
        ({
            let end = s.len() - (parse_args_spec(s)->0).1.len();
            forall|i: int| 0 <= i < end ==> #[trigger] closed_at(s, i, end)
        }),
    decreases s.len(),
{
    let (ts, rest) = parse_args_spec(s)->0;
    let end = s.len() - rest.len();
    if s[0] == ')' {
        assert forall|i: int| 0 <= i < end implies #[trigger] closed_at(s, i, end) by {
            assert(i == 0);
        }
    } else {
        let (t, r1) = parse_type_spec(s)->0;
        lemma_type_closed(s);
        lemma_args_closed(r1);
        lemma_parse_args_consumes(r1);
        let tend = s.len() - r1.len();
        let aend = r1.len() - rest.len();
        assert(r1 =~= s.subrange(tend, s.len() as int)) by {
            lemma_parse_type_consumes(s);
        }
        assert forall|i: int| 0 <= i < end implies #[trigger] closed_at(s, i, end) by {
            if s[i] == 'L' {
                if i < tend {
                    assert(closed_at(s, i, tend));
                    let j = choose|j: int| i < j < tend && s[j] == ';';
                    assert(j < end);
                } else {
                    assert(r1[i - tend] == s[i]);
                    assert(closed_at(r1, i - tend, aend));
                    let j = choose|j: int| i - tend < j < aend && r1[j] == ';';
                    assert(s[j + tend] == ';');
                }
            }
        }
    }
}

/// A descriptor in which some `L` has no `;` after it, as an unterminated
/// class name does, is rejected.
pub proof fn lemma_unterminated_class_rejected(prefix: Seq<char>, name: Seq<char>)
    requires
        !name.contains(';'),
    ensures
        parse_method_spec(prefix + seq!['L'] + name) is None,
{
    let s = prefix + seq!['L'] + name;
    let k = prefix.len() as int;
    if parse_method_spec(s) is Some {
        let inner = s.drop_first();
        lemma_args_closed(inner);
        lemma_parse_args_consumes(inner);
        let (args, rest) = parse_args_spec(inner)->0;
        let aend = inner.len() - rest.len();
        assert(s[k] == 'L');
        assert(k >= 1);
        if k - 1 < aend {
            assert(inner[k - 1] == 'L');
            assert(closed_at(inner, k - 1, aend));
            let j = choose|j: int| k - 1 < j < aend && inner[j] == ';';
            assert(name[j - k] == ';');
        } else {
            assert(rest =~= inner.subrange(aend, inner.len() as int));
            let r = k - 1 - aend;
            assert(rest[r] == 'L');
            if rest == seq!['V'] {
                assert(false);
            }
            lemma_type_closed(rest);
            let (t, tail) = parse_type_spec(rest)->0;
            assert(rest.len() != 0);
            assert(tail.len() == 0);
            assert(0 <= r < rest.len());
            let e = rest.len() - tail.len();
            assert(closed_at(rest, r, e));
            let j = choose|j: int| r < j < e && rest[j] == ';';
            assert(rest[j] == name[j - r - 1]);
        }
    }
}

} // verus!
