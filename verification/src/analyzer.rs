//! Inferring the types of local variables.

use vstd::prelude::*;

use crate::completion::text_order;
use crate::order::{lemma_sort_maps, ranking, stable_sort, stable_sorted, Order, Ranked};
use crate::paths::{is_text_at_most, lemma_text_total, lemma_text_transitive, text_at_most};
use crate::syntax::{is_kind, lemma_model, text_of, SynTree, SyntaxNode};
use crate::text::{chars_of, copy, join, joined, same, texts};

verus! {

// ---------------------------------------------------------------------------
// Types
// ---------------------------------------------------------------------------

/// A type of Crystal.
#[derive(Debug)]
pub enum CrystalType {
    Nil,
    Bool,
    Int32,
    Float64,
    Char,
    String,
    Symbol,
    Array(Box<CrystalType>),
    Hash(Box<CrystalType>, Box<CrystalType>),
    Tuple(Vec<CrystalType>),
    NamedTuple(TypeMap),
    Custom(std::string::String),
    Unknown,
}

/// A map from names to types. It holds each name once, in the order of the names.
#[derive(Debug)]
pub struct TypeMap {
    entries: Vec<(std::string::String, CrystalType)>,
}

/// Names with their types, as a [`TypeMap`] holds them.
pub type Vars = Seq<(Seq<char>, Ty)>;

/// Whether the names stand in their order, each once.
pub open spec fn rising(vars: Vars) -> bool {
    forall|i: int, j: int|
        0 <= i < j < vars.len() ==> text_at_most(
            (#[trigger] vars[i]).0,
            (#[trigger] vars[j]).0,
        ) && vars[i].0 != vars[j].0
}

/// The model of a [`CrystalType`].
pub enum Ty {
    Nil,
    Bool,
    Int32,
    Float64,
    Char,
    String,
    Symbol,
    Array(Box<Ty>),
    Hash(Box<Ty>, Box<Ty>),
    Tuple(Seq<Ty>),
    NamedTuple(Vars),
    Custom(Seq<char>),
    Unknown,
}

impl CrystalType {
    /// The type that this value stands for.
    pub open spec fn model(self) -> Ty
        decreases self,
    {
        match self {
            CrystalType::Nil => Ty::Nil,
            CrystalType::Bool => Ty::Bool,
            CrystalType::Int32 => Ty::Int32,
            CrystalType::Float64 => Ty::Float64,
            CrystalType::Char => Ty::Char,
            CrystalType::String => Ty::String,
            CrystalType::Symbol => Ty::Symbol,
            CrystalType::Array(t) => Ty::Array(Box::new(t.model())),
            CrystalType::Hash(k, v) => Ty::Hash(Box::new(k.model()), Box::new(v.model())),
            CrystalType::Tuple(ts) => Ty::Tuple(
                Seq::new(
                    ts@.len(),
                    |i: int|
                        if 0 <= i < ts@.len() {
                            ts@[i].model()
                        } else {
                            arbitrary()
                        },
                ),
            ),
            CrystalType::NamedTuple(m) => Ty::NamedTuple(m.model()),
            CrystalType::Custom(s) => Ty::Custom(s@),
            CrystalType::Unknown => Ty::Unknown,
        }
    }
}

impl TypeMap {
    /// What this map holds.
    pub closed spec fn model(self) -> Vars
        decreases self,
    {
        Seq::new(
            self.entries@.len(),
            |i: int|
                if 0 <= i < self.entries@.len() {
                    (self.entries@[i].0@, self.entries@[i].1.model())
                } else {
                    arbitrary()
                },
        )
    }

    #[verifier::type_invariant]
    spec fn in_order(self) -> bool {
        rising(named_views(self.entries@))
    }
}

impl View for CrystalType {
    type V = Ty;

    open spec fn view(&self) -> Ty {
        self.model()
    }
}

impl View for TypeMap {
    type V = Vars;

    open spec fn view(&self) -> Vars {
        self.model()
    }
}

/// The models of several types.
pub open spec fn type_views(s: Seq<CrystalType>) -> Seq<Ty> {
    Seq::new(s.len(), |i: int| s[i]@)
}

/// The models of several named types.
pub open spec fn named_views(s: Seq<(std::string::String, CrystalType)>) -> Seq<(Seq<char>, Ty)> {
    Seq::new(s.len(), |i: int| (s[i].0@, s[i].1@))
}

proof fn lemma_map_model(m: TypeMap)
    ensures
        m@ == named_views(m.entries@),
{
    reveal_with_fuel(TypeMap::model, 2);
    assert(m@ =~= named_views(m.entries@));
}

proof fn lemma_type_model(t: CrystalType)
    ensures
        t matches CrystalType::Array(e) ==> t@ == Ty::Array(Box::new(e@)),
        t matches CrystalType::Hash(k, v) ==> t@ == Ty::Hash(Box::new(k@), Box::new(v@)),
        t matches CrystalType::Tuple(ts) ==> t@ == Ty::Tuple(type_views(ts@)),
        t matches CrystalType::NamedTuple(m) ==> t@ == Ty::NamedTuple(m@) && m@ == named_views(
            m.entries@,
        ),
        t matches CrystalType::Array(e) ==> decreases_to!(t@ => e@),
        t matches CrystalType::Hash(k, v) ==> decreases_to!(t@ => k@) && decreases_to!(t@ => v@),
        t matches CrystalType::Tuple(ts) ==> forall|i: int|
            0 <= i < ts@.len() ==> decreases_to!(t@ => (#[trigger] ts@[i])@),
        t matches CrystalType::NamedTuple(m) ==> decreases_to!(t@ => m@) && forall|i: int|
            0 <= i < m.entries@.len() ==> decreases_to!(t@ => (#[trigger] m.entries@[i]).1@),
{
    reveal_with_fuel(CrystalType::model, 2);
    reveal_with_fuel(TypeMap::model, 2);
    if let CrystalType::Array(e) = t {
        assert(decreases_to!(t@ => t@->Array_0));
        assert(*(t@->Array_0) == e@);
    }
    if let CrystalType::Hash(k, v) = t {
        assert(decreases_to!(t@ => t@->Hash_0));
        assert(decreases_to!(t@ => t@->Hash_1));
        assert(*(t@->Hash_0) == k@);
        assert(*(t@->Hash_1) == v@);
    }
    if let CrystalType::Tuple(ts) = t {
        assert(t@->Tuple_0 =~= type_views(ts@));
        assert(decreases_to!(t@ => t@->Tuple_0));
        assert forall|i: int| 0 <= i < ts@.len() implies decreases_to!(
            t@ => (#[trigger] ts@[i])@
        ) by {
            assert(type_views(ts@)[i] == ts@[i]@);
            assert(decreases_to!(t@->Tuple_0 => (t@->Tuple_0)[i]));
        }
    }
    if let CrystalType::NamedTuple(m) = t {
        lemma_map_model(m);
        assert(decreases_to!(t@ => t@->NamedTuple_0));
        assert forall|i: int| 0 <= i < m.entries@.len() implies decreases_to!(
            t@ => (#[trigger] m.entries@[i]).1@
        ) by {
            assert(named_views(m.entries@)[i].1 == m.entries@[i].1@);
            assert(decreases_to!(t@->NamedTuple_0 => (t@->NamedTuple_0)[i]));
        }
    }
}

/// A copy of a type.
fn copy_type(t: &CrystalType) -> (r: CrystalType)
    ensures
        r@ == t@,
    decreases t@, 1int,
{
    proof {
        lemma_type_model(*t);
    }
    let r = match t {
        CrystalType::Nil => CrystalType::Nil,
        CrystalType::Bool => CrystalType::Bool,
        CrystalType::Int32 => CrystalType::Int32,
        CrystalType::Float64 => CrystalType::Float64,
        CrystalType::Char => CrystalType::Char,
        CrystalType::String => CrystalType::String,
        CrystalType::Symbol => CrystalType::Symbol,
        CrystalType::Array(e) => CrystalType::Array(Box::new(copy_type(e))),
        CrystalType::Hash(k, v) => CrystalType::Hash(
            Box::new(copy_type(k)),
            Box::new(copy_type(v)),
        ),
        CrystalType::Tuple(ts) => {
            let mut out: Vec<CrystalType> = Vec::new();
            let mut i: usize = 0;
            while i < ts.len()
                invariant
                    i <= ts@.len(),
                    *t == CrystalType::Tuple(*ts),
                    out@.len() == i,
                    forall|k: int| 0 <= k < i ==> (#[trigger] out@[k])@ == ts@[k]@,
                decreases ts@.len() - i,
            {
                proof {
                    lemma_type_model(*t);
                }
                out.push(copy_type(&ts[i]));
                i = i + 1;
            }
            assert(type_views(out@) =~= type_views(ts@));
            CrystalType::Tuple(out)
        },
        CrystalType::NamedTuple(m) => CrystalType::NamedTuple(copy_map(m)),
        CrystalType::Custom(s) => CrystalType::Custom(copy(s)),
        CrystalType::Unknown => CrystalType::Unknown,
    };
    proof {
        lemma_type_model(*t);
        lemma_type_model(r);
    }
    r
}

/// A copy of a map.
fn copy_map(m: &TypeMap) -> (r: TypeMap)
    ensures
        r@ == m@,
    decreases m@, 0int,
{
    proof {
        use_type_invariant(m);
        lemma_map_model(*m);
    }
    let mut out: Vec<(std::string::String, CrystalType)> = Vec::new();
    let mut i: usize = 0;
    while i < m.entries.len()
        invariant
            i <= m.entries@.len(),
            m@ == named_views(m.entries@),
            out@.len() == i,
            forall|k: int|
                0 <= k < i ==> (#[trigger] out@[k]).0@ == m.entries@[k].0@ && out@[k].1@
                    == m.entries@[k].1@,
        decreases m.entries@.len() - i,
    {
        assert(m@[i as int].1 == m.entries@[i as int].1@);
        assert(decreases_to!(m@ => m@[i as int]));
        out.push((copy(&m.entries[i].0), copy_type(&m.entries[i].1)));
        i = i + 1;
    }
    assert(named_views(out@) =~= named_views(m.entries@));
    let r = TypeMap { entries: out };
    proof {
        lemma_map_model(r);
    }
    r
}

impl Clone for CrystalType {
    fn clone(&self) -> (r: Self)
        ensures
            r@ == self@,
    {
        copy_type(self)
    }
}

impl Clone for TypeMap {
    fn clone(&self) -> (r: Self)
        ensures
            r@ == self@,
    {
        copy_map(self)
    }
}

/// Whether two types are the same.
fn is_same_type(a: &CrystalType, b: &CrystalType) -> (r: bool)
    ensures
        r == (a@ == b@),
    decreases a@, 1int,
{
    proof {
        lemma_type_model(*a);
        lemma_type_model(*b);
    }
    match (a, b) {
        (CrystalType::Nil, CrystalType::Nil) => true,
        (CrystalType::Bool, CrystalType::Bool) => true,
        (CrystalType::Int32, CrystalType::Int32) => true,
        (CrystalType::Float64, CrystalType::Float64) => true,
        (CrystalType::Char, CrystalType::Char) => true,
        (CrystalType::String, CrystalType::String) => true,
        (CrystalType::Symbol, CrystalType::Symbol) => true,
        (CrystalType::Array(x), CrystalType::Array(y)) => is_same_type(x, y),
        (CrystalType::Hash(k, v), CrystalType::Hash(l, w)) => is_same_type(k, l) && is_same_type(
            v,
            w,
        ),
        (CrystalType::Tuple(xs), CrystalType::Tuple(ys)) => {
            let ghost left = type_views(xs@);
            let ghost right = type_views(ys@);
            if xs.len() != ys.len() {
                assert(left.len() != right.len());
                return false;
            }
            let mut i: usize = 0;
            while i < xs.len()
                invariant
                    i <= xs@.len(),
                    xs@.len() == ys@.len(),
                    *a == CrystalType::Tuple(*xs),
                    left == type_views(xs@),
                    right == type_views(ys@),
                    a@ == Ty::Tuple(left),
                    b@ == Ty::Tuple(right),
                    forall|k: int| 0 <= k < i ==> #[trigger] left[k] == right[k],
                decreases xs@.len() - i,
            {
                proof {
                    lemma_type_model(*a);
                }
                assert(left[i as int] == xs@[i as int]@ && right[i as int] == ys@[i as int]@);
                if !is_same_type(&xs[i], &ys[i]) {
                    return false;
                }
                i = i + 1;
            }
            assert(left =~= right);
            true
        },
        (CrystalType::NamedTuple(m), CrystalType::NamedTuple(o)) => is_same_map(m, o),
        (CrystalType::Custom(s), CrystalType::Custom(t)) => same(s, t),
        (CrystalType::Unknown, CrystalType::Unknown) => true,
        _ => false,
    }
}

/// Whether two maps are the same.
fn is_same_map(a: &TypeMap, b: &TypeMap) -> (r: bool)
    ensures
        r == (a@ == b@),
    decreases a@, 0int,
{
    proof {
        lemma_map_model(*a);
        lemma_map_model(*b);
    }
    if a.entries.len() != b.entries.len() {
        assert(a@.len() != b@.len());
        return false;
    }
    let mut i: usize = 0;
    while i < a.entries.len()
        invariant
            i <= a.entries@.len(),
            a.entries@.len() == b.entries@.len(),
            a@ == named_views(a.entries@),
            b@ == named_views(b.entries@),
            forall|k: int| 0 <= k < i ==> #[trigger] a@[k] == b@[k],
        decreases a.entries@.len() - i,
    {
        assert(a@[i as int] == (a.entries@[i as int].0@, a.entries@[i as int].1@));
        assert(b@[i as int] == (b.entries@[i as int].0@, b.entries@[i as int].1@));
        assert(decreases_to!(a@ => a@[i as int]));
        assert(a@[i as int].1 == a.entries@[i as int].1@);
        if !same(&a.entries[i].0, &b.entries[i].0) || !is_same_type(
            &a.entries[i].1,
            &b.entries[i].1,
        ) {
            return false;
        }
        i = i + 1;
    }
    assert(a@ =~= b@);
    true
}

impl PartialEq for CrystalType {
    fn eq(&self, other: &Self) -> (r: bool) {
        is_same_type(self, other)
    }
}

impl vstd::std_specs::cmp::PartialEqSpecImpl for CrystalType {
    open spec fn obeys_eq_spec() -> bool {
        true
    }

    open spec fn eq_spec(&self, other: &Self) -> bool {
        self@ == other@
    }
}

impl Eq for CrystalType {

}

impl PartialEq for TypeMap {
    fn eq(&self, other: &Self) -> (r: bool) {
        is_same_map(self, other)
    }
}

impl vstd::std_specs::cmp::PartialEqSpecImpl for TypeMap {
    open spec fn obeys_eq_spec() -> bool {
        true
    }

    open spec fn eq_spec(&self, other: &Self) -> bool {
        self@ == other@
    }
}

impl Eq for TypeMap {

}

/// How a type is written.
pub open spec fn type_text(t: Ty) -> Seq<char>
    decreases t, 0int,
{
    match t {
        Ty::Nil => "Nil"@,
        Ty::Bool => "Bool"@,
        Ty::Int32 => "Int32"@,
        Ty::Float64 => "Float64"@,
        Ty::Char => "Char"@,
        Ty::String => "String"@,
        Ty::Symbol => "Symbol"@,
        Ty::Array(e) => "Array("@ + type_text(*e) + ")"@,
        Ty::Hash(k, v) => "Hash("@ + type_text(*k) + ", "@ + type_text(*v) + ")"@,
        Ty::Tuple(ts) => "{"@ + joined(tuple_texts(ts, ts.len() as int), ", "@) + "}"@,
        Ty::NamedTuple(m) => "{"@ + joined(
            stable_sorted(text_order(), member_texts(m, m.len() as int)),
            ", "@,
        ) + "}"@,
        Ty::Custom(s) => s,
        Ty::Unknown => "Unknown"@,
    }
}

/// How the first `n` types of a tuple are written.
pub open spec fn tuple_texts(ts: Seq<Ty>, n: int) -> Seq<Seq<char>>
    decreases ts, n,
{
    if n <= 0 || n > ts.len() {
        Seq::empty()
    } else {
        tuple_texts(ts, n - 1).push(type_text(ts[n - 1]))
    }
}

/// How the first `n` members of a named tuple are written.
pub open spec fn member_texts(m: Seq<(Seq<char>, Ty)>, n: int) -> Seq<Seq<char>>
    decreases m, n,
{
    if n <= 0 || n > m.len() {
        Seq::empty()
    } else {
        member_texts(m, n - 1).push(m[n - 1].0 + ": "@ + type_text(m[n - 1].1))
    }
}

/// A text that is ranked by the order of texts.
struct Line {
    text: std::string::String,
}

impl Ranked for Line {
    closed spec fn before(self, other: Self) -> bool {
        text_at_most(self.text@, other.text@)
    }

    fn may_precede(&self, other: &Self) -> (r: bool) {
        let a = chars_of(&self.text);
        let b = chars_of(&other.text);
        is_text_at_most(&a, &b)
    }
}

/// Sorts texts.
fn sort_texts(s: Vec<std::string::String>) -> (r: Vec<std::string::String>)
    ensures
        texts(r@) == stable_sorted(text_order(), texts(s@)),
{
    let ghost all = texts(s@);
    let ghost f = |l: Line| l.text@;
    let mut held: Vec<Line> = Vec::new();
    for t in it: s
        invariant
            it.seq() == s@,
            all == texts(s@),
            held@.len() == it.index(),
            forall|k: int| 0 <= k < held@.len() ==> (#[trigger] held@[k]).text@ == all[k],
    {
        assert(all[it.index() as int] == t@);
        held.push(Line { text: t });
    }
    assert(held@.map_values(f) =~= all);
    let ghost before = held@;
    let sorted = stable_sort(held);
    proof {
        lemma_sort_maps(ranking::<Line>(), text_order(), f, before);
    }
    let ghost names = sorted@.map_values(f);
    let mut out: Vec<std::string::String> = Vec::new();
    assert(texts(out@) =~= names.take(0));
    for l in it: sorted
        invariant
            it.seq() == sorted@,
            f == (|l: Line| l.text@),
            names == sorted@.map_values(f),
            texts(out@) == names.take(it.index() as int),
    {
        let ghost held_out = texts(out@);
        let ghost k = it.index() as int;
        assert(names[k] == l.text@);
        out.push(l.text);
        assert(texts(out@) =~= held_out.push(names[k]));
        assert(names.take(k + 1) =~= names.take(k).push(names[k]));
    }
    assert(names.take(names.len() as int) =~= names);
    out
}

impl CrystalType {
    /// Writes the type.
    pub fn to_string(&self) -> (r: std::string::String)
        ensures
            r@ == type_text(self@),
        decreases self@,
    {
        proof {
            lemma_type_model(*self);
        }
        match self {
            CrystalType::Nil => copy("Nil"),
            CrystalType::Bool => copy("Bool"),
            CrystalType::Int32 => copy("Int32"),
            CrystalType::Float64 => copy("Float64"),
            CrystalType::Char => copy("Char"),
            CrystalType::String => copy("String"),
            CrystalType::Symbol => copy("Symbol"),
            CrystalType::Array(e) => {
                let mut s = copy("Array(");
                s.append(&e.to_string());
                s.append(")");
                s
            },
            CrystalType::Hash(k, v) => {
                let mut s = copy("Hash(");
                s.append(&k.to_string());
                s.append(", ");
                s.append(&v.to_string());
                s.append(")");
                s
            },
            CrystalType::Tuple(ts) => {
                let mut parts: Vec<std::string::String> = Vec::new();
                let mut i: usize = 0;
                let ghost tys = type_views(ts@);
                assert(texts(parts@) =~= tuple_texts(tys, 0));
                while i < ts.len()
                    invariant
                        i <= ts@.len(),
                        tys == type_views(ts@),
                        *self == CrystalType::Tuple(*ts),
                        self@ == Ty::Tuple(tys),
                        texts(parts@) == tuple_texts(tys, i as int),
                    decreases ts@.len() - i,
                {
                    let ghost before = texts(parts@);
                    proof {
                        lemma_type_model(*self);
                        assert(tys[i as int] == ts@[i as int]@);
                    }
                    let part = ts[i].to_string();
                    parts.push(part);
                    assert(texts(parts@) =~= before.push(part@));
                    i = i + 1;
                }
                let mut s = copy("{");
                s.append(&join(&parts, ", "));
                s.append("}");
                s
            },
            CrystalType::NamedTuple(m) => {
                let mut parts: Vec<std::string::String> = Vec::new();
                let mut i: usize = 0;
                let ghost tys = m@;
                assert(texts(parts@) =~= member_texts(tys, 0));
                while i < m.entries.len()
                    invariant
                        i <= m.entries@.len(),
                        tys == named_views(m.entries@),
                        *self == CrystalType::NamedTuple(*m),
                        self@ == Ty::NamedTuple(tys),
                        texts(parts@) == member_texts(tys, i as int),
                    decreases m.entries@.len() - i,
                {
                    let ghost before = texts(parts@);
                    proof {
                        lemma_type_model(*self);
                        assert(tys[i as int] == (m.entries@[i as int].0@, m.entries@[i as int].1@));
                    }
                    let mut part = copy(&m.entries[i].0);
                    part.append(": ");
                    part.append(&m.entries[i].1.to_string());
                    parts.push(part);
                    assert(texts(parts@) =~= before.push(part@));
                    i = i + 1;
                }
                let sorted = sort_texts(parts);
                let mut s = copy("{");
                s.append(&join(&sorted, ", "));
                s.append("}");
                s
            },
            CrystalType::Custom(s) => copy(s),
            CrystalType::Unknown => copy("Unknown"),
        }
    }
}

// ---------------------------------------------------------------------------
// Scopes
// ---------------------------------------------------------------------------

/// The variables of a scope.
#[derive(Debug)]
pub struct Scope {
    pub variables: TypeMap,
}

impl View for Scope {
    type V = Vars;

    open spec fn view(&self) -> Vars {
        self.variables@
    }
}

/// The variables of several scopes.
pub open spec fn scope_views(s: Seq<Scope>) -> Seq<Vars> {
    Seq::new(s.len(), |i: int| s[i]@)
}

/// Where the variable `name` stands among `vars` from `i` on.
pub open spec fn var_from(vars: Vars, name: Seq<char>, i: int) -> Option<int>
    decreases vars.len() - i,
{
    if i < 0 || i >= vars.len() {
        None
    } else if vars[i].0 == name {
        Some(i)
    } else {
        var_from(vars, name, i + 1)
    }
}

/// The type of the variable `name` among `vars`.
pub open spec fn var_type(vars: Vars, name: Seq<char>) -> Option<Ty> {
    match var_from(vars, name, 0) {
        Some(i) => Some(vars[i].1),
        None => None,
    }
}

/// Where `name` belongs among `vars` from `i` on: in front of the names that do not precede it.
pub open spec fn place_from(vars: Vars, name: Seq<char>, i: int) -> int
    decreases vars.len() - i,
{
    if i < 0 || i >= vars.len() || text_at_most(name, vars[i].0) {
        i
    } else {
        place_from(vars, name, i + 1)
    }
}

/// `vars` with the type of the variable `name` set.
pub open spec fn with_var(vars: Vars, name: Seq<char>, t: Ty) -> Vars {
    match var_from(vars, name, 0) {
        Some(i) => vars.update(i, (name, t)),
        None => vars.insert(place_from(vars, name, 0), (name, t)),
    }
}

/// The type of the variable `name` in the innermost of the first `n` scopes that has it.
pub open spec fn visible_type(scopes: Seq<Vars>, name: Seq<char>, n: int) -> Option<Ty>
    decreases n,
{
    if n <= 0 || n > scopes.len() {
        None
    } else if var_type(scopes[n - 1], name) is Some {
        var_type(scopes[n - 1], name)
    } else {
        visible_type(scopes, name, n - 1)
    }
}

proof fn lemma_var_from(vars: Vars, name: Seq<char>, i: int)
    requires
        0 <= i,
    ensures
        match var_from(vars, name, i) {
            Some(k) => i <= k < vars.len() && vars[k].0 == name && forall|j: int|
                i <= j < k ==> (#[trigger] vars[j]).0 != name,
            None => forall|j: int| i <= j < vars.len() ==> (#[trigger] vars[j]).0 != name,
        },
    decreases vars.len() - i,
{
    if i < vars.len() && vars[i].0 != name {
        lemma_var_from(vars, name, i + 1);
    }
}

proof fn lemma_place_from(vars: Vars, name: Seq<char>, i: int)
    requires
        0 <= i <= vars.len(),
    ensures
        i <= place_from(vars, name, i) <= vars.len(),
        place_from(vars, name, i) < vars.len() ==> text_at_most(
            name,
            vars[place_from(vars, name, i)].0,
        ),
        forall|j: int|
            i <= j < place_from(vars, name, i) ==> !text_at_most(name, (#[trigger] vars[j]).0),
    decreases vars.len() - i,
{
    if i < vars.len() && !text_at_most(name, vars[i].0) {
        lemma_place_from(vars, name, i + 1);
    }
}

/// Setting the type of a variable keeps the names in their order, each once.
pub proof fn lemma_with_var_rising(vars: Vars, name: Seq<char>, t: Ty)
    requires
        rising(vars),
    ensures
        rising(with_var(vars, name, t)),
{
    let after = with_var(vars, name, t);
    lemma_var_from(vars, name, 0);
    match var_from(vars, name, 0) {
        Some(k) => {
            assert(forall|j: int| 0 <= j < vars.len() ==> (#[trigger] after[j]).0 == vars[j].0);
        },
        None => {
            let p = place_from(vars, name, 0);
            lemma_place_from(vars, name, 0);
            assert forall|i: int, j: int| 0 <= i < j < after.len() implies text_at_most(
                (#[trigger] after[i]).0,
                (#[trigger] after[j]).0,
            ) && after[i].0 != after[j].0 by {
                let a = if i < p {
                    i
                } else {
                    i - 1
                };
                let b = if j < p {
                    j
                } else {
                    j - 1
                };
                if i == p {
                    if p < b {
                        lemma_text_transitive(name, vars[p].0, vars[b].0);
                    }
                    assert(vars[b].0 != name);
                } else if j == p {
                    lemma_text_total(name, vars[a].0);
                    assert(vars[a].0 != name);
                } else {
                    assert(vars[a].0 != vars[b].0);
                }
            }
        },
    }
}

/// A variable has the type that was assigned to it last, and no other variable changes.
pub proof fn lemma_last_assignment_counts(vars: Vars, name: Seq<char>, t: Ty, other: Seq<char>)
    ensures
        var_type(with_var(vars, name, t), name) == Some(t),
        other != name ==> var_type(with_var(vars, name, t), other) == var_type(vars, other),
{
    let after = with_var(vars, name, t);
    lemma_var_from(vars, name, 0);
    lemma_var_from(after, name, 0);
    lemma_var_from(vars, other, 0);
    lemma_var_from(after, other, 0);
    match var_from(vars, name, 0) {
        Some(i) => {
            assert(after[i] == (name, t));
            assert(forall|j: int| 0 <= j < vars.len() ==> (#[trigger] after[j]).0 == vars[j].0);
            if other != name {
                if let Some(k) = var_from(after, other, 0) {
                    assert(vars[k].0 == other);
                }
                if let Some(k) = var_from(vars, other, 0) {
                    assert(after[k].0 == other);
                }
            }
        },
        None => {
            let p = place_from(vars, name, 0);
            lemma_place_from(vars, name, 0);
            assert(after[p] == (name, t));
            assert(forall|j: int| 0 <= j < p ==> #[trigger] after[j] == vars[j]);
            assert(forall|j: int| p < j < after.len() ==> #[trigger] after[j] == vars[j - 1]);
            if let Some(k) = var_from(after, name, 0) {
                if k < p {
                    assert(vars[k].0 == name);
                } else if k > p {
                    assert(vars[k - 1].0 == name);
                }
            }
            if other != name {
                if let Some(k) = var_from(after, other, 0) {
                    let old_k = if k < p {
                        k
                    } else {
                        k - 1
                    };
                    assert(vars[old_k].0 == other);
                    assert forall|j: int| 0 <= j < old_k implies (#[trigger] vars[j]).0 != other by {
                        let new_j = if j < p {
                            j
                        } else {
                            j + 1
                        };
                        assert(after[new_j] == vars[j]);
                    }
                    let first = var_from(vars, other, 0)->0;
                    assert(first == old_k);
                }
                if let Some(k) = var_from(vars, other, 0) {
                    let new_k = if k < p {
                        k
                    } else {
                        k + 1
                    };
                    assert(after[new_k].0 == other);
                }
            }
        },
    }
}

proof fn lemma_rising_finds(vars: Vars, i: int)
    requires
        rising(vars),
        0 <= i < vars.len(),
    ensures
        var_from(vars, vars[i].0, 0) == Some(i),
{
    lemma_var_from(vars, vars[i].0, 0);
}

/// Two maps that give every name the same type are the same map: the order in which the names were
/// set leaves no trace.
pub proof fn lemma_map_by_names(a: Vars, b: Vars)
    requires
        rising(a),
        rising(b),
        forall|name: Seq<char>| #[trigger] var_type(a, name) == var_type(b, name),
    ensures
        a == b,
    decreases a.len() + b.len(),
{
    if a.len() == 0 || b.len() == 0 {
        if a.len() > 0 {
            lemma_rising_finds(a, 0);
            assert(var_type(a, a[0].0) == var_type(b, a[0].0));
        }
        if b.len() > 0 {
            lemma_rising_finds(b, 0);
            assert(var_type(a, b[0].0) == var_type(b, b[0].0));
        }
        assert(a =~= b);
    } else {
        let x = a.last().0;
        let y = b.last().0;
        let m = a.len() - 1;
        let n = b.len() - 1;
        lemma_rising_finds(a, m);
        lemma_rising_finds(b, n);
        assert(var_type(a, x) == var_type(b, x));
        assert(var_type(a, y) == var_type(b, y));
        lemma_var_from(b, x, 0);
        lemma_var_from(a, y, 0);
        lemma_text_total(x, y);
        assert(x == y);
        assert forall|name: Seq<char>| #[trigger]
            var_type(a.drop_last(), name) == var_type(b.drop_last(), name) by {
            lemma_without_last(a, name);
            lemma_without_last(b, name);
            assert(var_type(a, name) == var_type(b, name));
        }
        lemma_map_by_names(a.drop_last(), b.drop_last());
        assert(a =~= a.drop_last().push(a.last()));
        assert(b =~= b.drop_last().push(b.last()));
    }
}

proof fn lemma_without_last(vars: Vars, name: Seq<char>)
    requires
        rising(vars),
        vars.len() > 0,
    ensures
        var_type(vars.drop_last(), name) == if name == vars.last().0 {
            None
        } else {
            var_type(vars, name)
        },
{
    let front = vars.drop_last();
    lemma_var_from(vars, name, 0);
    lemma_var_from(front, name, 0);
    if let Some(k) = var_from(front, name, 0) {
        assert(vars[k] == front[k]);
        lemma_rising_finds(vars, k);
    }
    if let Some(k) = var_from(vars, name, 0) {
        if name != vars.last().0 {
            assert(front[k] == vars[k]);
        }
    }
}

fn find_var(entries: &Vec<(std::string::String, CrystalType)>, name: &str) -> (r: Option<usize>)
    ensures
        match r {
            Some(i) => i < entries@.len() && var_from(named_views(entries@), name@, 0) == Some(
                i as int,
            ),
            None => var_from(named_views(entries@), name@, 0) is None,
        },
{
    let ghost vars = named_views(entries@);
    let mut i: usize = 0;
    while i < entries.len()
        invariant
            i <= entries@.len(),
            vars == named_views(entries@),
            var_from(vars, name@, 0) == var_from(vars, name@, i as int),
        decreases entries@.len() - i,
    {
        assert(vars[i as int].0 == entries@[i as int].0@);
        if same(&entries[i].0, name) {
            return Some(i);
        }
        i = i + 1;
    }
    None
}

fn find_place(entries: &Vec<(std::string::String, CrystalType)>, name: &str) -> (r: usize)
    ensures
        r <= entries@.len(),
        r == place_from(named_views(entries@), name@, 0),
{
    let ghost vars = named_views(entries@);
    let wanted = chars_of(name);
    let mut i: usize = 0;
    while i < entries.len()
        invariant
            i <= entries@.len(),
            wanted@ == name@,
            vars == named_views(entries@),
            place_from(vars, name@, 0) == place_from(vars, name@, i as int),
        decreases entries@.len() - i,
    {
        assert(vars[i as int].0 == entries@[i as int].0@);
        if is_text_at_most(&wanted, &chars_of(&entries[i].0)) {
            return i;
        }
        i = i + 1;
    }
    i
}

fn put_var(entries: &mut Vec<(std::string::String, CrystalType)>, name: &str, t: CrystalType)
    requires
        rising(named_views(old(entries)@)),
    ensures
        named_views(final(entries)@) == with_var(named_views(old(entries)@), name@, t@),
        rising(named_views(final(entries)@)),
{
    let ghost before = named_views(entries@);
    proof {
        lemma_with_var_rising(before, name@, t@);
    }
    match find_var(entries, name) {
        Some(i) => {
            entries.set(i, (copy(name), t));
            assert(named_views(entries@) =~= before.update(i as int, (name@, t@)));
        },
        None => {
            let i = find_place(entries, name);
            entries.insert(i, (copy(name), t));
            assert(named_views(entries@) =~= before.insert(i as int, (name@, t@)));
        },
    }
}

impl TypeMap {
    pub fn new() -> (r: Self)
        ensures
            r@ == Vars::empty(),
    {
        let r = TypeMap { entries: Vec::new() };
        proof {
            lemma_map_model(r);
        }
        assert(r@ =~= Seq::empty());
        r
    }

    /// The type of a name.
    pub fn get(&self, name: &str) -> (r: Option<&CrystalType>)
        ensures
            rising(self@),
            match r {
                Some(t) => var_type(self@, name@) == Some(t@),
                None => var_type(self@, name@) is None,
            },
    {
        proof {
            use_type_invariant(self);
            lemma_map_model(*self);
        }
        match find_var(&self.entries, name) {
            Some(i) => {
                assert(self@[i as int].1 == self.entries@[i as int].1@);
                Some(&self.entries[i].1)
            },
            None => None,
        }
    }

    /// Sets the type of a name.
    pub fn insert(&mut self, name: &str, t: CrystalType)
        ensures
            final(self)@ == with_var(old(self)@, name@, t@),
            rising(old(self)@),
            rising(final(self)@),
    {
        proof {
            use_type_invariant(&*self);
            lemma_map_model(*self);
        }
        let mut entries: Vec<(std::string::String, CrystalType)> = Vec::new();
        std::mem::swap(&mut self.entries, &mut entries);
        put_var(&mut entries, name, t);
        self.entries = entries;
        proof {
            lemma_map_model(*self);
        }
    }
}

impl Scope {
    pub fn new() -> (r: Self)
        ensures
            r@ == Vars::empty(),
    {
        Scope { variables: TypeMap::new() }
    }
}

// ---------------------------------------------------------------------------
// Inference
// ---------------------------------------------------------------------------

/// The text of a node, or the empty text.
pub open spec fn text_or_empty(t: SynTree) -> Seq<char> {
    match t.text {
        Some(s) => s,
        None => Seq::empty(),
    }
}

fn read_text(n: &SyntaxNode) -> (r: std::string::String)
    ensures
        r@ == text_or_empty(n@),
{
    match text_of(n) {
        Some(s) => copy(s),
        None => {
            let r = std::string::String::new();
            assert(r@ =~= Seq::empty());
            r
        },
    }
}

/// Whether a child of this kind of an array is an element.
pub open spec fn element_kind(kind: Seq<char>) -> bool {
    kind != "["@ && kind != "]"@ && kind != ","@ && kind != "of"@
}

/// The first element of the array `t` among its children from `i` on.
pub open spec fn first_element(t: SynTree, i: int) -> Option<int>
    decreases t.children.len() - i,
{
    if i < 0 || i >= t.children.len() {
        None
    } else if element_kind(t.children[i].kind) {
        Some(i)
    } else {
        first_element(t, i + 1)
    }
}

/// The first child of `t` of the kind `kind` from `i` on.
pub open spec fn first_of_kind(t: SynTree, kind: Seq<char>, i: int) -> Option<int>
    decreases t.children.len() - i,
{
    if i < 0 || i >= t.children.len() {
        None
    } else if t.children[i].kind == kind {
        Some(i)
    } else {
        first_of_kind(t, kind, i + 1)
    }
}

/// The type that a call of the conversion `name` gives.
pub open spec fn conversion_type(name: Seq<char>) -> Ty {
    if name == "to_s"@ {
        Ty::String
    } else if name == "to_i"@ || name == "to_i32"@ {
        Ty::Int32
    } else if name == "to_f"@ || name == "to_f64"@ {
        Ty::Float64
    } else {
        Ty::Unknown
    }
}

/// The name of the method that `t` calls: the text of its first identifier.
pub open spec fn called_method(t: SynTree) -> Seq<char> {
    match first_of_kind(t, "identifier"@, 0) {
        Some(i) => text_or_empty(t.children[i]),
        None => Seq::empty(),
    }
}

/// The type of the expression `t` where the variables `scopes` are visible.
pub open spec fn inferred(scopes: Seq<Vars>, t: SynTree) -> Ty
    decreases t, t.children.len() + 1,
{
    if t.kind == "nil"@ {
        Ty::Nil
    } else if t.kind == "true"@ || t.kind == "false"@ {
        Ty::Bool
    } else if t.kind == "integer"@ {
        Ty::Int32
    } else if t.kind == "float"@ {
        Ty::Float64
    } else if t.kind == "char"@ {
        Ty::Char
    } else if t.kind == "string"@ || t.kind == "chained_string"@ {
        Ty::String
    } else if t.kind == "symbol"@ {
        Ty::Symbol
    } else if t.kind == "array"@ {
        Ty::Array(
            Box::new(
                match first_element(t, 0) {
                    Some(i) => if 0 <= i < t.children.len() {
                        inferred(scopes, t.children[i])
                    } else {
                        Ty::Unknown
                    },
                    None => Ty::Unknown,
                },
            ),
        )
    } else if t.kind == "hash"@ {
        match first_of_kind(t, "hash_entry"@, 0) {
            Some(i) => if 0 <= i < t.children.len() {
                Ty::Hash(
                    Box::new(nth_type(scopes, t.children[i], 0)),
                    Box::new(nth_type(scopes, t.children[i], 2)),
                )
            } else {
                Ty::Unknown
            },
            None => Ty::Hash(Box::new(Ty::Unknown), Box::new(Ty::Unknown)),
        }
    } else if t.kind == "tuple"@ {
        Ty::Tuple(member_types(scopes, t, t.children.len() as int))
    } else if t.kind == "identifier"@ {
        match visible_type(scopes, text_or_empty(t), scopes.len() as int) {
            Some(ty) => ty,
            None => Ty::Unknown,
        }
    } else if t.kind == "call"@ {
        conversion_type(called_method(t))
    } else {
        Ty::Unknown
    }
}

/// The type of the child of `t` at `i`.
pub open spec fn nth_type(scopes: Seq<Vars>, t: SynTree, i: int) -> Ty
    decreases t, 0int,
{
    if 0 <= i < t.children.len() {
        inferred(scopes, t.children[i])
    } else {
        Ty::Unknown
    }
}

/// The types of the members among the first `n` children of the tuple `t`.
pub open spec fn member_types(scopes: Seq<Vars>, t: SynTree, n: int) -> Seq<Ty>
    decreases t, n,
{
    if n <= 0 || n > t.children.len() {
        Seq::empty()
    } else {
        let before = member_types(scopes, t, n - 1);
        let kind = t.children[n - 1].kind;
        if kind != "{"@ && kind != "}"@ && kind != ","@ {
            before.push(inferred(scopes, t.children[n - 1]))
        } else {
            before
        }
    }
}

fn find_first_element(n: &SyntaxNode) -> (r: Option<usize>)
    ensures
        match r {
            Some(i) => i < n.children@.len() && first_element(n@, 0) == Some(i as int),
            None => first_element(n@, 0) is None,
        },
{
    proof {
        lemma_model(*n);
    }
    let mut i: usize = 0;
    while i < n.children.len()
        invariant
            i <= n.children@.len(),
            n@.children.len() == n.children@.len(),
            first_element(n@, 0) == first_element(n@, i as int),
        decreases n.children@.len() - i,
    {
        proof {
            lemma_model(*n);
        }
        let c = &n.children[i];
        if !is_kind(c, "[") && !is_kind(c, "]") && !is_kind(c, ",") && !is_kind(c, "of") {
            return Some(i);
        }
        i = i + 1;
    }
    None
}

fn find_first_of_kind(n: &SyntaxNode, kind: &str) -> (r: Option<usize>)
    ensures
        match r {
            Some(i) => i < n.children@.len() && first_of_kind(n@, kind@, 0) == Some(i as int),
            None => first_of_kind(n@, kind@, 0) is None,
        },
{
    proof {
        lemma_model(*n);
    }
    let mut i: usize = 0;
    while i < n.children.len()
        invariant
            i <= n.children@.len(),
            n@.children.len() == n.children@.len(),
            first_of_kind(n@, kind@, 0) == first_of_kind(n@, kind@, i as int),
        decreases n.children@.len() - i,
    {
        proof {
            lemma_model(*n);
        }
        if is_kind(&n.children[i], kind) {
            return Some(i);
        }
        i = i + 1;
    }
    None
}

fn type_of_conversion(name: &str) -> (r: CrystalType)
    ensures
        r@ == conversion_type(name@),
{
    if same(name, "to_s") {
        CrystalType::String
    } else if same(name, "to_i") || same(name, "to_i32") {
        CrystalType::Int32
    } else if same(name, "to_f") || same(name, "to_f64") {
        CrystalType::Float64
    } else {
        CrystalType::Unknown
    }
}

/// Infers the types of local variables by walking a syntax tree.
#[derive(Debug)]
pub struct Analyzer {
    /// The scopes that are open, the innermost last.
    pub scopes: Vec<Scope>,
}

/// The first child of the assignment `t` from `i` on that stands before (`after` false) or after
/// (`after` true) its first `=`; `seen` tells whether that came before `i`.
pub open spec fn assign_side(t: SynTree, after: bool, seen: bool, i: int) -> Option<int>
    decreases t.children.len() - i,
{
    if i < 0 || i >= t.children.len() {
        None
    } else if t.children[i].kind == "="@ {
        assign_side(t, after, true, i + 1)
    } else if seen == after {
        Some(i)
    } else {
        assign_side(t, after, seen, i + 1)
    }
}

/// The scopes after the assignment `t`: the variable on its left side has the type of its right
/// side, where that can be told.
pub open spec fn after_assign(scopes: Seq<Vars>, t: SynTree) -> Seq<Vars> {
    match (assign_side(t, false, false, 0), assign_side(t, true, false, 0)) {
        (Some(l), Some(r)) => {
            let name = text_or_empty(t.children[l]);
            let ty = inferred(scopes, t.children[r]);
            if name.len() > 0 && !(ty is Unknown) {
                scopes.update(scopes.len() - 1, with_var(scopes.last(), name, ty))
            } else {
                scopes
            }
        },
        _ => scopes,
    }
}

/// Whether nodes of this kind open a scope.
pub open spec fn opens_scope(kind: Seq<char>) -> bool {
    kind == "method_def"@ || kind == "class_def"@ || kind == "module_def"@ || kind == "struct_def"@
        || kind == "block"@ || kind == "do"@
}

/// The scopes after the innermost one was closed; the outermost stays open.
pub open spec fn closed_scope(scopes: Seq<Vars>) -> Seq<Vars> {
    if scopes.len() > 1 {
        scopes.drop_last()
    } else {
        scopes
    }
}

/// The scopes after the node `t` was walked.
pub open spec fn walked(scopes: Seq<Vars>, t: SynTree) -> Seq<Vars>
    decreases t, t.children.len() + 1,
{
    let n = t.children.len() as int;
    if t.kind == "assign"@ {
        after_assign(scopes, t)
    } else if opens_scope(t.kind) {
        closed_scope(walked_below(scopes.push(Seq::empty()), t, n))
    } else {
        walked_below(scopes, t, n)
    }
}

/// The scopes after the first `n` children of `t` were walked.
pub open spec fn walked_below(scopes: Seq<Vars>, t: SynTree, n: int) -> Seq<Vars>
    decreases t, n,
{
    if n <= 0 || n > t.children.len() {
        scopes
    } else {
        walked(walked_below(scopes, t, n - 1), t.children[n - 1])
    }
}

proof fn lemma_walked_below(scopes: Seq<Vars>, t: SynTree, n: int)
    requires
        scopes.len() > 0,
        n <= t.children.len(),
    ensures
        walked_below(scopes, t, n).len() == scopes.len(),
        walked_below(scopes, t, n).drop_last() == scopes.drop_last(),
    decreases t, n,
{
    if n > 0 {
        lemma_walked_below(scopes, t, n - 1);
        lemma_walk_is_local(walked_below(scopes, t, n - 1), t.children[n - 1]);
    }
}

/// Walking a node changes the variables of the innermost scope only; and walking a method, class or
/// block changes none that can be seen outside.
pub proof fn lemma_walk_is_local(scopes: Seq<Vars>, t: SynTree)
    requires
        scopes.len() > 0,
    ensures
        walked(scopes, t).len() == scopes.len(),
        walked(scopes, t).drop_last() == scopes.drop_last(),
        opens_scope(t.kind) ==> walked(scopes, t) == scopes,
    decreases t, t.children.len() + 1,
{
    let n = t.children.len() as int;
    if t.kind == "assign"@ {
        assert(after_assign(scopes, t).drop_last() =~= scopes.drop_last());
        lemma_assign_opens_no_scope();
    } else if opens_scope(t.kind) {
        let inner = scopes.push(Seq::empty());
        lemma_walked_below(inner, t, n);
        assert(inner.drop_last() =~= scopes);
        assert(walked_below(inner, t, n).len() > 1);
    } else {
        lemma_walked_below(scopes, t, n);
    }
}

proof fn lemma_assign_opens_no_scope()
    ensures
        !opens_scope("assign"@),
{
    reveal_strlit("assign");
    reveal_strlit("method_def");
    reveal_strlit("class_def");
    reveal_strlit("module_def");
    reveal_strlit("struct_def");
    reveal_strlit("block");
    reveal_strlit("do");
    assert("assign"@.len() == 6);
    assert("method_def"@.len() == 10);
    assert("class_def"@.len() == 9);
    assert("module_def"@.len() == 10);
    assert("struct_def"@.len() == 10);
    assert("block"@.len() == 5);
    assert("do"@.len() == 2);
}

impl Analyzer {
    pub open spec fn wf(&self) -> bool {
        self.scopes@.len() > 0
    }

    pub fn new() -> (r: Self)
        ensures
            r.wf(),
            scope_views(r.scopes@) == seq![Vars::empty()],
    {
        let mut scopes: Vec<Scope> = Vec::new();
        scopes.push(Scope::new());
        assert(scope_views(scopes@) =~= seq![Vars::empty()]);
        Analyzer { scopes }
    }

    /// Walks a whole tree.
    pub fn analyze(&mut self, root: &SyntaxNode)
        requires
            old(self).wf(),
        ensures
            final(self).wf(),
            scope_views(final(self).scopes@) == walked(scope_views(old(self).scopes@), root@),
    {
        self.walk(root);
    }

    fn find_variable(&self, name: &str) -> (r: Option<&CrystalType>)
        ensures
            match r {
                Some(t) => visible_type(
                    scope_views(self.scopes@),
                    name@,
                    self.scopes@.len() as int,
                ) == Some(t@),
                None => visible_type(
                    scope_views(self.scopes@),
                    name@,
                    self.scopes@.len() as int,
                ) is None,
            },
    {
        let ghost all = scope_views(self.scopes@);
        let mut n: usize = self.scopes.len();
        while n > 0
            invariant
                n <= self.scopes@.len(),
                all == scope_views(self.scopes@),
                visible_type(all, name@, self.scopes@.len() as int) == visible_type(
                    all,
                    name@,
                    n as int,
                ),
            decreases n,
        {
            assert(all[n - 1] == self.scopes@[n - 1]@);
            if let Some(t) = self.scopes[n - 1].variables.get(name) {
                return Some(t);
            }
            n = n - 1;
        }
        None
    }

    fn nth_child_type(&self, node: &SyntaxNode, i: usize) -> (r: CrystalType)
        ensures
            r@ == nth_type(scope_views(self.scopes@), node@, i as int),
        decreases node@, 0int,
    {
        proof {
            lemma_model(*node);
        }
        if i < node.children.len() {
            assert(decreases_to!(node@ => node@.children[i as int]));
            self.infer_type(&node.children[i])
        } else {
            CrystalType::Unknown
        }
    }

    fn infer_members(&self, node: &SyntaxNode) -> (r: Vec<CrystalType>)
        ensures
            type_views(r@) == member_types(
                scope_views(self.scopes@),
                node@,
                node@.children.len() as int,
            ),
        decreases node@, 0int,
    {
        let ghost scopes = scope_views(self.scopes@);
        proof {
            lemma_model(*node);
        }
        let mut types: Vec<CrystalType> = Vec::new();
        let mut i: usize = 0;
        assert(type_views(types@) =~= Seq::empty());
        while i < node.children.len()
            invariant
                i <= node.children@.len(),
                node@.children.len() == node.children@.len(),
                scopes == scope_views(self.scopes@),
                type_views(types@) == member_types(scopes, node@, i as int),
            decreases node.children@.len() - i,
        {
            let ghost before = type_views(types@);
            proof {
                lemma_model(*node);
                assert(decreases_to!(node@ => node@.children[i as int]));
            }
            let c = &node.children[i];
            if !is_kind(c, "{") && !is_kind(c, "}") && !is_kind(c, ",") {
                let t = self.infer_type(c);
                types.push(t);
                assert(type_views(types@) =~= before.push(t@));
            }
            i = i + 1;
        }
        types
    }

    /// Infers the type of an expression.
    pub fn infer_type(&self, node: &SyntaxNode) -> (r: CrystalType)
        ensures
            r@ == inferred(scope_views(self.scopes@), node@),
        decreases node@, 1int,
    {
        proof {
            lemma_model(*node);
        }
        let r = if is_kind(node, "nil") {
            CrystalType::Nil
        } else if is_kind(node, "true") || is_kind(node, "false") {
            CrystalType::Bool
        } else if is_kind(node, "integer") {
            CrystalType::Int32
        } else if is_kind(node, "float") {
            CrystalType::Float64
        } else if is_kind(node, "char") {
            CrystalType::Char
        } else if is_kind(node, "string") || is_kind(node, "chained_string") {
            CrystalType::String
        } else if is_kind(node, "symbol") {
            CrystalType::Symbol
        } else if is_kind(node, "array") {
            let element = match find_first_element(node) {
                Some(i) => {
                    assert(decreases_to!(node@ => node@.children[i as int]));
                    self.infer_type(&node.children[i])
                },
                None => CrystalType::Unknown,
            };
            CrystalType::Array(Box::new(element))
        } else if is_kind(node, "hash") {
            match find_first_of_kind(node, "hash_entry") {
                Some(i) => {
                    assert(decreases_to!(node@ => node@.children[i as int]));
                    let entry = &node.children[i];
                    let key = self.nth_child_type(entry, 0);
                    let value = self.nth_child_type(entry, 2);
                    CrystalType::Hash(Box::new(key), Box::new(value))
                },
                None => CrystalType::Hash(
                    Box::new(CrystalType::Unknown),
                    Box::new(CrystalType::Unknown),
                ),
            }
        } else if is_kind(node, "tuple") {
            CrystalType::Tuple(self.infer_members(node))
        } else if is_kind(node, "identifier") {
            match self.find_variable(&read_text(node)) {
                Some(t) => copy_type(t),
                None => CrystalType::Unknown,
            }
        } else if is_kind(node, "call") {
            let name = match find_first_of_kind(node, "identifier") {
                Some(i) => read_text(&node.children[i]),
                None => {
                    let none = std::string::String::new();
                    assert(none@ =~= Seq::empty());
                    none
                },
            };
            type_of_conversion(&name)
        } else {
            CrystalType::Unknown
        };
        proof {
            lemma_type_model(r);
            lemma_type_model(CrystalType::Unknown);
        }
        r
    }

    fn find_side(node: &SyntaxNode, after: bool) -> (r: Option<usize>)
        ensures
            match r {
                Some(i) => i < node.children@.len() && assign_side(node@, after, false, 0) == Some(
                    i as int,
                ),
                None => assign_side(node@, after, false, 0) is None,
            },
    {
        proof {
            lemma_model(*node);
        }
        let mut seen = false;
        let mut i: usize = 0;
        while i < node.children.len()
            invariant
                i <= node.children@.len(),
                node@.children.len() == node.children@.len(),
                assign_side(node@, after, false, 0) == assign_side(node@, after, seen, i as int),
            decreases node.children@.len() - i,
        {
            proof {
                lemma_model(*node);
            }
            if is_kind(&node.children[i], "=") {
                seen = true;
            } else if seen == after {
                return Some(i);
            }
            i = i + 1;
        }
        None
    }

    fn handle_assign(&mut self, node: &SyntaxNode)
        requires
            old(self).wf(),
        ensures
            final(self).wf(),
            scope_views(final(self).scopes@) == after_assign(
                scope_views(old(self).scopes@),
                node@,
            ),
    {
        let ghost before = scope_views(self.scopes@);
        proof {
            lemma_model(*node);
        }
        if let (Some(l), Some(r)) = (Self::find_side(node, false), Self::find_side(node, true)) {
            let name = read_text(&node.children[l]);
            let t = self.infer_type(&node.children[r]);
            proof {
                lemma_type_model(t);
            }
            let known = match &t {
                CrystalType::Unknown => false,
                _ => true,
            };
            assert(known == !(t@ is Unknown));
            if chars_of(&name).len() > 0 && known {
                let n: usize = self.scopes.len();
                assert(before.last() == self.scopes@[n - 1]@);
                let mut scope = self.scopes.pop().unwrap();
                scope.variables.insert(&name, t);
                self.scopes.push(scope);
                assert(scope_views(self.scopes@) =~= before.update(
                    before.len() - 1,
                    with_var(before.last(), name@, t@),
                ));
            }
        }
    }

    fn walk_children(&mut self, node: &SyntaxNode)
        requires
            old(self).wf(),
        ensures
            final(self).wf(),
            scope_views(final(self).scopes@) == walked_below(
                scope_views(old(self).scopes@),
                node@,
                node@.children.len() as int,
            ),
        decreases node@, 0int,
    {
        let ghost before = scope_views(self.scopes@);
        proof {
            lemma_model(*node);
        }
        let mut i: usize = 0;
        while i < node.children.len()
            invariant
                self.wf(),
                i <= node.children@.len(),
                node@.children.len() == node.children@.len(),
                scope_views(self.scopes@) == walked_below(before, node@, i as int),
            decreases node.children@.len() - i,
        {
            proof {
                lemma_model(*node);
                assert(decreases_to!(node@ => node@.children[i as int]));
            }
            self.walk(&node.children[i]);
            i = i + 1;
        }
    }

    fn walk(&mut self, node: &SyntaxNode)
        requires
            old(self).wf(),
        ensures
            final(self).wf(),
            scope_views(final(self).scopes@) == walked(scope_views(old(self).scopes@), node@),
        decreases node@, 1int,
    {
        let ghost before = scope_views(self.scopes@);
        if is_kind(node, "assign") {
            self.handle_assign(node);
        } else if is_kind(node, "method_def") || is_kind(node, "class_def") || is_kind(
            node,
            "module_def",
        ) || is_kind(node, "struct_def") || is_kind(node, "block") || is_kind(node, "do") {
            self.scopes.push(Scope::new());
            assert(scope_views(self.scopes@) =~= before.push(Seq::empty()));
            self.walk_children(node);
            let ghost inner = scope_views(self.scopes@);
            if self.scopes.len() > 1 {
                self.scopes.pop();
                assert(scope_views(self.scopes@) =~= inner.drop_last());
            }
        } else {
            self.walk_children(node);
        }
    }

    /// The variables that are visible with their types as text, in the order of their names. An
    /// inner scope goes before the scopes around it.
    pub fn completions(&self) -> (r: Vec<(std::string::String, std::string::String)>)
        ensures
            completion_views(r@) == visible_completions(scope_views(self.scopes@)),
    {
        let ghost all = scope_views(self.scopes@);
        let mut found: Vec<Completion> = Vec::new();
        let mut i: usize = 0;
        assert(held_views(found@) =~= merged_scopes(all, 0));
        while i < self.scopes.len()
            invariant
                i <= self.scopes@.len(),
                all == scope_views(self.scopes@),
                held_views(found@) == merged_scopes(all, i as int),
            decreases self.scopes@.len() - i,
        {
            assert(all[i as int] == self.scopes@[i as int]@);
            merge_scope(&self.scopes[i], &mut found);
            i = i + 1;
        }
        let ghost merged = held_views(found@);
        let ghost held = found@;
        let ghost f = |c: Completion| (c.name@, c.text@);
        let sorted = stable_sort(found);
        proof {
            assert(held.map_values(f) =~= merged);
            lemma_sort_maps(ranking::<Completion>(), name_order(), f, held);
        }
        let ghost names = sorted@.map_values(f);
        let mut out: Vec<(std::string::String, std::string::String)> = Vec::new();
        assert(completion_views(out@) =~= names.take(0));
        for c in it: sorted
            invariant
                it.seq() == sorted@,
                f == (|c: Completion| (c.name@, c.text@)),
                names == sorted@.map_values(f),
                completion_views(out@) == names.take(it.index() as int),
        {
            let ghost before = completion_views(out@);
            let ghost k = it.index() as int;
            assert(names[k] == (c.name@, c.text@));
            out.push((c.name, c.text));
            assert(completion_views(out@) =~= before.push(names[k]));
            assert(names.take(k + 1) =~= names.take(k).push(names[k]));
        }
        assert(names.take(names.len() as int) =~= names);
        out
    }
}

// ---------------------------------------------------------------------------
// Completions
// ---------------------------------------------------------------------------

/// Names with the text of their types.
pub type NamedTexts = Seq<(Seq<char>, Seq<char>)>;

/// The models of completions.
pub open spec fn completion_views(
    s: Seq<(std::string::String, std::string::String)>,
) -> NamedTexts {
    Seq::new(s.len(), |i: int| (s[i].0@, s[i].1@))
}

/// Where `name` stands among the names from `i` on.
pub open spec fn named_from(s: NamedTexts, name: Seq<char>, i: int) -> Option<int>
    decreases s.len() - i,
{
    if i < 0 || i >= s.len() {
        None
    } else if s[i].0 == name {
        Some(i)
    } else {
        named_from(s, name, i + 1)
    }
}

/// `s` with the text for `name` set.
pub open spec fn with_named(s: NamedTexts, name: Seq<char>, text: Seq<char>) -> NamedTexts {
    match named_from(s, name, 0) {
        Some(i) => s.update(i, (name, text)),
        None => s.push((name, text)),
    }
}

/// `s` with the first `n` variables of a scope set.
pub open spec fn with_scope(s: NamedTexts, vars: Vars, n: int) -> NamedTexts
    decreases n,
{
    if n <= 0 || n > vars.len() {
        s
    } else {
        with_named(with_scope(s, vars, n - 1), vars[n - 1].0, type_text(vars[n - 1].1))
    }
}

/// The variables of the first `n` scopes; inner scopes replace those of outer ones.
pub open spec fn merged_scopes(scopes: Seq<Vars>, n: int) -> NamedTexts
    decreases n,
{
    if n <= 0 || n > scopes.len() {
        Seq::empty()
    } else {
        with_scope(merged_scopes(scopes, n - 1), scopes[n - 1], scopes[n - 1].len() as int)
    }
}

/// The order of names.
pub open spec fn name_order() -> Order<(Seq<char>, Seq<char>)> {
    |a: (Seq<char>, Seq<char>), b: (Seq<char>, Seq<char>)| text_at_most(a.0, b.0)
}

/// The variables that are visible, in the order of their names.
pub open spec fn visible_completions(scopes: Seq<Vars>) -> NamedTexts {
    stable_sorted(name_order(), merged_scopes(scopes, scopes.len() as int))
}

/// A variable with the text of its type, ranked by its name.
struct Completion {
    name: std::string::String,
    text: std::string::String,
}

impl Ranked for Completion {
    closed spec fn before(self, other: Self) -> bool {
        text_at_most(self.name@, other.name@)
    }

    fn may_precede(&self, other: &Self) -> (r: bool) {
        let a = chars_of(&self.name);
        let b = chars_of(&other.name);
        is_text_at_most(&a, &b)
    }
}

spec fn held_views(s: Seq<Completion>) -> NamedTexts {
    Seq::new(s.len(), |i: int| (s[i].name@, s[i].text@))
}

fn put_completion(found: &mut Vec<Completion>, c: Completion)
    ensures
        held_views(final(found)@) == with_named(held_views(old(found)@), c.name@, c.text@),
{
    let ghost all = held_views(found@);
    let mut i: usize = 0;
    while i < found.len()
        invariant
            i <= found@.len(),
            found@ == old(found)@,
            all == held_views(found@),
            named_from(all, c.name@, 0) == named_from(all, c.name@, i as int),
        decreases found@.len() - i,
    {
        assert(all[i as int].0 == found@[i as int].name@);
        if same(&found[i].name, &c.name) {
            found.set(i, c);
            assert(held_views(found@) =~= all.update(i as int, (c.name@, c.text@)));
            return ;
        }
        i = i + 1;
    }
    found.push(c);
    assert(held_views(found@) =~= all.push((c.name@, c.text@)));
}

fn merge_scope(scope: &Scope, found: &mut Vec<Completion>)
    ensures
        held_views(final(found)@) == with_scope(
            held_views(old(found)@),
            scope@,
            scope@.len() as int,
        ),
{
    let ghost start = held_views(found@);
    let ghost vars = scope@;
    proof {
        lemma_map_model(scope.variables);
    }
    let mut i: usize = 0;
    while i < scope.variables.entries.len()
        invariant
            i <= scope.variables.entries@.len(),
            vars == named_views(scope.variables.entries@),
            held_views(found@) == with_scope(start, vars, i as int),
        decreases scope.variables.entries@.len() - i,
    {
        let (name, t) = &scope.variables.entries[i];
        assert(vars[i as int] == (name@, t@));
        let c = Completion { name: copy(name), text: t.to_string() };
        put_completion(found, c);
        i = i + 1;
    }
}

} // verus!
