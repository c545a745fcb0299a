use crate::context::Context;
use crate::token::str_equal;
use crate::token::Failure;
use crate::token::Message;
use crate::token::PositionInfo;
use crate::token::Token;
use vstd::prelude::*;
use vstd::string::StrSliceExecFns;
use vstd::string::StringExecFns;

verus! {

/// The mathematical model of a structural type: the same shape as `Type`,
/// with a `Seq` for the union members.  Contracts and laws are stated over
/// this model.
pub enum TypeView {
    Null,
    Text,
    Bool,
    Num,
    Union(Seq<TypeView>),
    Array(Box<TypeView>),
    Failable(Box<TypeView>),
    Generic,
}

impl TypeView {
    /// The canonical string form: primitive names spelled out, union members
    /// joined by " | ", `[T]` for arrays, `T?` for failable types.  Two
    /// non-union types are equal exactly when these strings match.
    pub open spec fn rendered(self) -> Seq<char>
        decreases self,
    {
        match self {
            TypeView::Null => "Null"@,
            TypeView::Text => "Text"@,
            TypeView::Bool => "Bool"@,
            TypeView::Num => "Num"@,
            TypeView::Generic => "Generic"@,
            TypeView::Union(ts) => TypeView::rendered_union(ts),
            TypeView::Array(t) => "["@ + t.rendered() + "]"@,
            TypeView::Failable(t) => t.rendered() + "?"@,
        }
    }

    /// The members' canonical forms joined by " | ".
    pub open spec fn rendered_union(ts: Seq<TypeView>) -> Seq<char>
        decreases ts,
    {
        if ts.len() == 0 {
            Seq::empty()
        } else if ts.len() == 1 {
            ts[0].rendered()
        } else {
            TypeView::rendered_union(ts.drop_last()) + " | "@ + ts.last().rendered()
        }
    }

    /// Some member of the union renders exactly as `other` does.
    pub open spec fn member_matches(ts: Seq<TypeView>, other: TypeView) -> bool {
        exists|i: int| 0 <= i < ts.len() && ts[i].rendered() == other.rendered()
    }

    /// Some member of `one` renders as some member of `other` does.
    pub open spec fn unions_overlap(one: Seq<TypeView>, other: Seq<TypeView>) -> bool {
        exists|i: int| 0 <= i < one.len() && TypeView::member_matches(other, one[i])
    }

    /// The union-aware compatibility relation.  A union is compatible with a
    /// non-union type when that type's canonical form matches at least one
    /// member; two unions are compatible when some member of either overlaps
    /// with some member of the other; two non-union types are compatible when
    /// their canonical forms match.  This is an overlap test, not set
    /// equality: it is not reflexive on an empty union and not transitive, so
    /// it is kept as a named predicate rather than an equality operator.
    pub open spec fn compatible(a: TypeView, b: TypeView) -> bool {
        match (a, b) {
            (TypeView::Union(u), TypeView::Union(w)) => TypeView::unions_overlap(u, w),
            (TypeView::Union(u), _) => TypeView::member_matches(u, b),
            (_, TypeView::Union(w)) => TypeView::member_matches(w, a),
            _ => a.rendered() == b.rendered(),
        }
    }
}

/// The structural type of a value in the source language: a closed recursive
/// variant.  `Union` is "one of several listed types", `Array` an indexed
/// collection, `Failable` a value that may instead represent failure.
#[derive(Debug)]
pub enum Type {
    Null,
    Text,
    Bool,
    Num,
    Union(Vec<Box<Type>>),
    Array(Box<Type>),
    Failable(Box<Type>),
    Generic,
}

impl Default for Type {
    fn default() -> (r: Self)
        ensures
            r == Type::Null,
    {
        Type::Null
    }
}

impl Type {
    pub open spec fn to_view(self) -> TypeView
        decreases self,
    {
        match self {
            Type::Null => TypeView::Null,
            Type::Text => TypeView::Text,
            Type::Bool => TypeView::Bool,
            Type::Num => TypeView::Num,
            Type::Generic => TypeView::Generic,
            Type::Union(ts) => TypeView::Union(Type::members_view(ts@)),
            Type::Array(t) => TypeView::Array(Box::new(t.to_view())),
            Type::Failable(t) => TypeView::Failable(Box::new(t.to_view())),
        }
    }

    pub open spec fn members_view(ts: Seq<Box<Type>>) -> Seq<TypeView>
        decreases ts,
    {
        if ts.len() == 0 {
            Seq::empty()
        } else {
            Type::members_view(ts.drop_last()).push(ts.last().to_view())
        }
    }
}

impl View for Type {
    type V = TypeView;

    open spec fn view(&self) -> TypeView {
        (*self).to_view()
    }
}

/// The member views line up with the members, index by index.
pub proof fn lemma_members_view(ts: Seq<Box<Type>>)
    ensures
        Type::members_view(ts).len() == ts.len(),
        forall|i: int| 0 <= i < ts.len() ==> #[trigger] Type::members_view(ts)[i] == ts[i]@,
    decreases ts,
{
    if ts.len() > 0 {
        lemma_members_view(ts.drop_last());
        assert forall|i: int| 0 <= i < ts.len() implies #[trigger] Type::members_view(ts)[i]
            == ts[i]@ by {
            if i < ts.len() - 1 {
                assert(ts.drop_last()[i] == ts[i]);
            }
        }
    }
}

impl Type {
    pub fn is_union(&self) -> (r: bool)
        ensures
            r == (self@ is Union),
    {
        match self {
            Type::Union(_) => true,
            _ => false,
        }
    }

    /// An exact structural copy.
    pub fn duplicate(&self) -> (r: Type)
        ensures
            r@ == self@,
        decreases *self,
    {
        match self {
            Type::Null => Type::Null,
            Type::Text => Type::Text,
            Type::Bool => Type::Bool,
            Type::Num => Type::Num,
            Type::Generic => Type::Generic,
            Type::Array(t) => Type::Array(Box::new(t.duplicate())),
            Type::Failable(t) => Type::Failable(Box::new(t.duplicate())),
            Type::Union(ts) => {
                let mut out: Vec<Box<Type>> = Vec::new();
                let mut i: usize = 0;
                while i < ts.len()
                    invariant
                        i <= ts@.len(),
                        *self == Type::Union(*ts),
                        out@.len() == i,
                        forall|k: int| 0 <= k < i ==> (#[trigger] out@[k])@ == ts@[k]@,
                    decreases ts@.len() - i,
                {
                    proof {
                        let t0 = *self;
                        assert(t0 is Union);
                        assert(decreases_to!(t0 => t0->Union_0));
                        assert(decreases_to!(t0->Union_0 => t0->Union_0@));
                        assert(decreases_to!(t0->Union_0@ => t0->Union_0@[i as int]));
                    }
                    out.push(Box::new(ts[i].duplicate()));
                    i = i + 1;
                }
                proof {
                    lemma_members_view(out@);
                    lemma_members_view(ts@);
                    assert(Type::members_view(out@) =~= Type::members_view(ts@));
                }
                Type::Union(out)
            },
        }
    }

    /// Canonical rendering as an owned string.
    pub fn render(&self) -> (r: String)
        ensures
            r@ == self@.rendered(),
        decreases *self,
    {
        match self {
            Type::Null => "Null".to_owned(),
            Type::Text => "Text".to_owned(),
            Type::Bool => "Bool".to_owned(),
            Type::Num => "Num".to_owned(),
            Type::Generic => "Generic".to_owned(),
            Type::Array(t) => {
                let mut s = "[".to_owned();
                let inner = t.render();
                s.append(inner.as_str());
                s.append("]");
                s
            },
            Type::Failable(t) => {
                let mut s = t.render();
                s.append("?");
                s
            },
            Type::Union(ts) => {
                let mut s = String::new();
                let mut i: usize = 0;
                while i < ts.len()
                    invariant
                        i <= ts@.len(),
                        *self == Type::Union(*ts),
                        s@ == TypeView::rendered_union(
                            Type::members_view(ts@).subrange(0, i as int),
                        ),
                    decreases ts@.len() - i,
                {
                    if i > 0 {
                        s.append(" | ");
                    }
                    proof {
                        let t0 = *self;
                        assert(t0 is Union);
                        assert(decreases_to!(t0 => t0->Union_0));
                        assert(decreases_to!(t0->Union_0 => t0->Union_0@));
                        assert(decreases_to!(t0->Union_0@ => t0->Union_0@[i as int]));
                    }
                    let part = ts[i].render();
                    s.append(part.as_str());
                    proof {
                        lemma_members_view(ts@);
                        let mv = Type::members_view(ts@);
                        let pre = mv.subrange(0, i as int);
                        let post = mv.subrange(0, i + 1);
                        assert(post.drop_last() =~= pre);
                        assert(post.last() == mv[i as int]);
                        assert(mv[i as int] == ts@[i as int]@);
                    }
                    i = i + 1;
                }
                proof {
                    lemma_members_view(ts@);
                    let mv = Type::members_view(ts@);
                    assert(mv.subrange(0, mv.len() as int) =~= mv);
                }
                s
            },
        }
    }
}

/// The union-aware compatibility test on two static types; used everywhere
/// two types must be checked against each other.
pub fn equals(a: &Type, b: &Type) -> (r: bool)
    ensures
        r == TypeView::compatible(a@, b@),
{
    match (a, b) {
        (Type::Union(u), Type::Union(w)) => {
            proof {
                lemma_members_view(u@);
                lemma_members_view(w@);
            }
            unions_overlap_exec(u, w)
        },
        (Type::Union(u), _) => member_matches_exec(u, b),
        (_, Type::Union(w)) => member_matches_exec(w, a),
        _ => {
            let sa = a.render();
            let sb = b.render();
            sa == sb
        },
    }
}

/// Whether some member of `ts` renders exactly as `other` does.
fn member_matches_exec(ts: &Vec<Box<Type>>, other: &Type) -> (r: bool)
    ensures
        r == TypeView::member_matches(Type::members_view(ts@), other@),
{
    proof {
        lemma_members_view(ts@);
    }
    let ghost mv = Type::members_view(ts@);
    let target = other.render();
    let mut i: usize = 0;
    while i < ts.len()
        invariant
            i <= ts@.len(),
            mv == Type::members_view(ts@),
            mv.len() == ts@.len(),
            forall|k: int| 0 <= k < ts@.len() ==> #[trigger] mv[k] == ts@[k]@,
            target@ == other@.rendered(),
            forall|k: int| 0 <= k < i ==> (#[trigger] mv[k]).rendered() != other@.rendered(),
        decreases ts@.len() - i,
    {
        let part = ts[i].render();
        if part == target {
            proof {
                assert(mv[i as int].rendered() == other@.rendered());
            }
            return true;
        }
        i = i + 1;
    }
    false
}

/// Whether some member of `one` renders as some member of `other` does.
fn unions_overlap_exec(one: &Vec<Box<Type>>, other: &Vec<Box<Type>>) -> (r: bool)
    ensures
        r == TypeView::unions_overlap(Type::members_view(one@), Type::members_view(other@)),
{
    proof {
        lemma_members_view(one@);
    }
    let ghost mv = Type::members_view(one@);
    let mut i: usize = 0;
    while i < one.len()
        invariant
            i <= one@.len(),
            mv == Type::members_view(one@),
            mv.len() == one@.len(),
            forall|k: int| 0 <= k < one@.len() ==> #[trigger] mv[k] == one@[k]@,
            forall|k: int|
                0 <= k < i ==> !TypeView::member_matches(
                    Type::members_view(other@),
                    #[trigger] mv[k],
                ),
        decreases one@.len() - i,
    {
        if member_matches_exec(other, &one[i]) {
            proof {
                assert(TypeView::member_matches(Type::members_view(other@), mv[i as int]));
            }
            return true;
        }
        i = i + 1;
    }
    false
}

/// Every node with a static type exposes it through this trait.
pub trait Typed {
    fn get_type(&self) -> Type;
}

/// Law: the compatibility relation is reflexive for every non-union type.
/// (It need not hold of a union: an empty union is compatible with nothing,
/// itself included.)
pub proof fn lemma_compatible_reflexive(t: TypeView)
    requires
        !(t is Union),
    ensures
        TypeView::compatible(t, t),
{
}

/// Law: the compatibility relation is symmetric.  Together with the
/// reflexivity law this is as much of an equivalence as the relation offers:
/// transitivity fails, since two unions can each overlap a third without
/// overlapping one another.
pub proof fn lemma_compatible_symmetric(a: TypeView, b: TypeView)
    ensures
        TypeView::compatible(a, b) == TypeView::compatible(b, a),
{
    match (a, b) {
        (TypeView::Union(u), TypeView::Union(w)) => {
            if TypeView::unions_overlap(u, w) {
                let i = choose|i: int| 0 <= i < u.len() && TypeView::member_matches(w, u[i]);
                let j = choose|j: int| 0 <= j < w.len() && w[j].rendered() == u[i].rendered();
                assert(u[i].rendered() == w[j].rendered());
                assert(TypeView::member_matches(u, w[j]));
                assert(TypeView::unions_overlap(w, u));
            }
            if TypeView::unions_overlap(w, u) {
                let i = choose|i: int| 0 <= i < w.len() && TypeView::member_matches(u, w[i]);
                let j = choose|j: int| 0 <= j < u.len() && u[j].rendered() == w[i].rendered();
                assert(w[i].rendered() == u[j].rendered());
                assert(TypeView::member_matches(w, u[j]));
                assert(TypeView::unions_overlap(u, w));
            }
        },
        _ => {},
    }
}


/// The outcome of running the type grammar at one token position: the parsed
/// type and the cursor after it, a quiet failure with the cursor it leaves,
/// or a loud diagnostic with its text, optional comment, and the index of
/// the token it is anchored at (none: anchored at the end of the file).
pub enum TypeParse {
    Parsed { t: TypeView, next: int },
    Quiet { next: int },
    Loud { msg: Seq<char>, comment: Option<Seq<char>>, at: Option<int> },
}

pub open spec fn nested_array_msg() -> Seq<char> {
    "Arrays cannot be nested due to the Bash limitations"@
}

pub open spec fn foreign_type_msg(found: Seq<char>, wanted: Seq<char>) -> Seq<char> {
    "'"@ + found + "' is not a valid data type. Did you mean '"@ + wanted + "'?"@
}

pub open spec fn array_like_msg(found: Seq<char>) -> Seq<char> {
    "'"@ + found + "'<T> is not a valid data type. Did you mean '[T]'?"@
}

pub open spec fn array_like_comment() -> Seq<char> {
    "Where 'T' is the type of the array elements"@
}

pub open spec fn expected_type_msg() -> Seq<char> {
    "Expected a data type"@
}

/// One atom of the grammar at position `i` of the word stream: a primitive
/// name, a bracketed array, a recognized foreign-language spelling (a loud,
/// corrective diagnostic), or anything else (a quiet failure).  Inside
/// brackets, a nested array is a loud error; any failure of the inner parse
/// is swallowed quietly with the cursor restored to the bracket.
pub open spec fn spec_parse_type_tok(words: Seq<Seq<char>>, i: int) -> TypeParse
    decreases words.len() - i, 0int,
{
    if !(0 <= i < words.len()) {
        TypeParse::Quiet { next: i }
    } else {
        let w = words[i];
        if w == "Text"@ {
            TypeParse::Parsed { t: TypeView::Text, next: i + 1 }
        } else if w == "Bool"@ {
            TypeParse::Parsed { t: TypeView::Bool, next: i + 1 }
        } else if w == "Num"@ {
            TypeParse::Parsed { t: TypeView::Num, next: i + 1 }
        } else if w == "Null"@ {
            TypeParse::Parsed { t: TypeView::Null, next: i + 1 }
        } else if w == "["@ {
            match spec_try_parse_type(words, i + 1) {
                TypeParse::Parsed { t, next } => if t is Array {
                    TypeParse::Loud { msg: nested_array_msg(), comment: None, at: Some(i) }
                } else if 0 <= next < words.len() && words[next] == "]"@ {
                    TypeParse::Parsed { t: TypeView::Array(Box::new(t)), next: next + 1 }
                } else {
                    TypeParse::Quiet { next }
                },
                _ => TypeParse::Quiet { next: i },
            }
        } else if w == "String"@ || w == "Char"@ {
            TypeParse::Loud { msg: foreign_type_msg(w, "Text"@), comment: None, at: Some(i) }
        } else if w == "Number"@ || w == "Int"@ || w == "Float"@ || w == "Double"@ {
            TypeParse::Loud { msg: foreign_type_msg(w, "Num"@), comment: None, at: Some(i) }
        } else if w == "Boolean"@ {
            TypeParse::Loud { msg: foreign_type_msg(w, "Bool"@), comment: None, at: Some(i) }
        } else if w == "List"@ || w == "Array"@ {
            TypeParse::Loud {
                msg: array_like_msg(w),
                comment: Some(array_like_comment()),
                at: Some(i),
            }
        } else {
            TypeParse::Quiet { next: i }
        }
    }
}

/// One atom, optionally wrapped as failable by a trailing "?".
pub open spec fn spec_parse_one_type(words: Seq<Seq<char>>, i: int) -> TypeParse
    decreases words.len() - i, 1int,
{
    match spec_parse_type_tok(words, i) {
        TypeParse::Parsed { t, next } => if 0 <= next < words.len() && words[next] == "?"@ {
            TypeParse::Parsed { t: TypeView::Failable(Box::new(t)), next: next + 1 }
        } else {
            TypeParse::Parsed { t, next }
        },
        other => other,
    }
}

/// The members gathered after the first "|": atoms accumulate left to right
/// while separators are found; any member failure propagates.
pub open spec fn spec_parse_union_rest(
    words: Seq<Seq<char>>,
    i: int,
    acc: Seq<TypeView>,
) -> TypeParse
    decreases words.len() - i, 2int,
{
    match spec_parse_one_type(words, i) {
        TypeParse::Parsed { t, next } => {
            let acc2 = acc.push(t);
            if 0 <= next < words.len() && words[next] == "|"@ {
                if i < next + 1 {
                    spec_parse_union_rest(words, next + 1, acc2)
                } else {
                    TypeParse::Quiet { next }
                }
            } else {
                TypeParse::Parsed { t: TypeView::Union(acc2), next }
            }
        },
        other => other,
    }
}

/// The whole grammar at position `i`: one type, or a union of them.
pub open spec fn spec_try_parse_type(words: Seq<Seq<char>>, i: int) -> TypeParse
    decreases words.len() - i, 3int,
{
    match spec_parse_one_type(words, i) {
        TypeParse::Parsed { t, next } => if 0 <= next < words.len() && words[next] == "|"@ {
            if i < next + 1 {
                spec_parse_union_rest(words, next + 1, seq![t])
            } else {
                TypeParse::Quiet { next }
            }
        } else {
            TypeParse::Parsed { t, next }
        },
        TypeParse::Quiet { next } => if 0 <= next < words.len() && words[next] == "|"@ {
            TypeParse::Quiet { next: next + 1 }
        } else {
            TypeParse::Quiet { next }
        },
        loud => loud,
    }
}

/// A successful atom always advances the cursor; no outcome moves it out of
/// the stream.
pub proof fn lemma_parse_type_tok_progress(words: Seq<Seq<char>>, i: int)
    requires
        0 <= i <= words.len(),
    ensures
        match spec_parse_type_tok(words, i) {
            TypeParse::Parsed { t, next } => i < next <= words.len(),
            TypeParse::Quiet { next } => i <= next <= words.len(),
            TypeParse::Loud { .. } => true,
        },
    decreases words.len() - i, 0int,
{
    if 0 <= i < words.len() && words[i] == "["@ {
        lemma_try_parse_type_progress(words, i + 1);
    }
}

/// The failable wrapper preserves the progress facts.
pub proof fn lemma_parse_one_type_progress(words: Seq<Seq<char>>, i: int)
    requires
        0 <= i <= words.len(),
    ensures
        match spec_parse_one_type(words, i) {
            TypeParse::Parsed { t, next } => i < next <= words.len(),
            TypeParse::Quiet { next } => i <= next <= words.len(),
            TypeParse::Loud { .. } => true,
        },
    decreases words.len() - i, 1int,
{
    lemma_parse_type_tok_progress(words, i);
}

/// Union accumulation preserves the progress facts.
pub proof fn lemma_parse_union_rest_progress(words: Seq<Seq<char>>, i: int, acc: Seq<TypeView>)
    requires
        0 <= i <= words.len(),
    ensures
        match spec_parse_union_rest(words, i, acc) {
            TypeParse::Parsed { t, next } => i < next <= words.len(),
            TypeParse::Quiet { next } => i <= next <= words.len(),
            TypeParse::Loud { .. } => true,
        },
    decreases words.len() - i, 2int,
{
    lemma_parse_one_type_progress(words, i);
    match spec_parse_one_type(words, i) {
        TypeParse::Parsed { t, next } => {
            if 0 <= next < words.len() && words[next] == "|"@ {
                lemma_parse_union_rest_progress(words, next + 1, acc.push(t));
            }
        },
        _ => {},
    }
}

/// The whole grammar preserves the progress facts.
pub proof fn lemma_try_parse_type_progress(words: Seq<Seq<char>>, i: int)
    requires
        0 <= i <= words.len(),
    ensures
        match spec_try_parse_type(words, i) {
            TypeParse::Parsed { t, next } => i < next <= words.len(),
            TypeParse::Quiet { next } => i <= next <= words.len(),
            TypeParse::Loud { .. } => true,
        },
    decreases words.len() - i, 3int,
{
    lemma_parse_one_type_progress(words, i);
    match spec_parse_one_type(words, i) {
        TypeParse::Parsed { t, next } => {
            if 0 <= next < words.len() && words[next] == "|"@ {
                lemma_parse_union_rest_progress(words, next + 1, seq![t]);
            }
        },
        _ => {},
    }
}

/// What a run of the parser did, compared against the grammar outcome: only
/// the cursor changed; a parsed type carries exactly the outcome's model; a
/// quiet failure carries the inert end-of-file position; a loud failure
/// carries the documented message, comment, and anchor.
pub open spec fn outcome_matches(
    pre: Context,
    post: Context,
    r: Result<Type, Failure>,
    outcome: TypeParse,
) -> bool {
    &&& post.same_but_cursor(pre)
    &&& match outcome {
        TypeParse::Parsed { t, next } => {
            &&& r matches Ok(ty) && ty@ == t
            &&& post.index == next
        },
        TypeParse::Quiet { next } => {
            &&& r == Err::<Type, Failure>(Failure::Quiet(PositionInfo::spec_at_eof(pre.path)))
            &&& post.index == next
        },
        TypeParse::Loud { msg, comment, at } => {
            &&& r matches Err(f) && f matches Failure::Loud(m) && m.spec_is_err_at(
                pre.path,
                pre.trace@,
                match at {
                    Some(k) => if 0 <= k < pre.expr@.len() {
                        Some(pre.expr@[k])
                    } else {
                        None
                    },
                    None => None,
                },
                msg,
                comment,
            )
        },
    }
}

/// The corrective text for a recognized foreign-language type spelling.
fn make_foreign_msg(found: &str, wanted: &str) -> (m: String)
    ensures
        m@ == foreign_type_msg(found@, wanted@),
{
    let mut m = "'".to_owned();
    m.append(found);
    m.append("' is not a valid data type. Did you mean '");
    m.append(wanted);
    m.append("'?");
    m
}

/// The corrective text for a foreign generic-collection spelling.
fn make_array_like_msg(found: &str) -> (m: String)
    ensures
        m@ == array_like_msg(found@),
{
    let mut m = "'".to_owned();
    m.append(found);
    m.append("'<T> is not a valid data type. Did you mean '[T]'?");
    m
}

/// Parses one atom of the type grammar; `tok` is the token under the cursor.
fn parse_type_tok(ctx: &mut Context, tok: Option<Token>) -> (r: Result<Type, Failure>)
    requires
        tok == old(ctx).spec_current_token(),
    ensures
        outcome_matches(
            *old(ctx),
            *final(ctx),
            r,
            spec_parse_type_tok(old(ctx).words(), old(ctx).index as int),
        ),
    decreases ctx.expr@.len() - ctx.index, 0int,
{
    let ghost pre = *ctx;
    let ghost words = pre.words();
    let ghost i0 = pre.index as int;
    match &tok {
        Some(t) => {
            proof {
                assert(words[i0] == pre.expr@[i0].word@);
            }
            if str_equal(t.word.as_str(), "Text") {
                ctx.increment_index();
                Ok(Type::Text)
            } else if str_equal(t.word.as_str(), "Bool") {
                ctx.increment_index();
                Ok(Type::Bool)
            } else if str_equal(t.word.as_str(), "Num") {
                ctx.increment_index();
                Ok(Type::Num)
            } else if str_equal(t.word.as_str(), "Null") {
                ctx.increment_index();
                Ok(Type::Null)
            } else if str_equal(t.word.as_str(), "[") {
                let index = ctx.get_index();
                ctx.increment_index();
                match try_parse_type(ctx) {
                    Ok(inner) => {
                        match inner {
                            Type::Array(_) => {
                                let msg = Message::new_err_at_token(
                                    &ctx.path,
                                    &ctx.trace,
                                    &tok,
                                ).message("Arrays cannot be nested due to the Bash limitations");
                                Err(Failure::Loud(msg))
                            },
                            other => {
                                match ctx.expect_word("]") {
                                    Ok(_) => Ok(Type::Array(Box::new(other))),
                                    Err(e) => Err(e),
                                }
                            },
                        }
                    },
                    Err(_) => {
                        ctx.set_index(index);
                        Err(Failure::Quiet(PositionInfo::at_eof(&ctx.path)))
                    },
                }
            } else if str_equal(t.word.as_str(), "String") || str_equal(t.word.as_str(), "Char") {
                let m = make_foreign_msg(t.word.as_str(), "Text");
                Err(
                    Failure::Loud(
                        Message::new_err_at_token(&ctx.path, &ctx.trace, &tok).message(m.as_str()),
                    ),
                )
            } else if str_equal(t.word.as_str(), "Number") || str_equal(t.word.as_str(), "Int")
                || str_equal(t.word.as_str(), "Float") || str_equal(t.word.as_str(), "Double") {
                let m = make_foreign_msg(t.word.as_str(), "Num");
                Err(
                    Failure::Loud(
                        Message::new_err_at_token(&ctx.path, &ctx.trace, &tok).message(m.as_str()),
                    ),
                )
            } else if str_equal(t.word.as_str(), "Boolean") {
                let m = make_foreign_msg(t.word.as_str(), "Bool");
                Err(
                    Failure::Loud(
                        Message::new_err_at_token(&ctx.path, &ctx.trace, &tok).message(m.as_str()),
                    ),
                )
            } else if str_equal(t.word.as_str(), "List") || str_equal(t.word.as_str(), "Array") {
                let m = make_array_like_msg(t.word.as_str());
                Err(
                    Failure::Loud(
                        Message::new_err_at_token(&ctx.path, &ctx.trace, &tok).message(
                            m.as_str(),
                        ).comment("Where 'T' is the type of the array elements"),
                    ),
                )
            } else {
                Err(Failure::Quiet(PositionInfo::at_eof(&ctx.path)))
            }
        },
        None => Err(Failure::Quiet(PositionInfo::at_eof(&ctx.path))),
    }
}

/// Parses one atom, wrapping it as failable when a "?" follows.
fn parse_one_type(ctx: &mut Context, tok: Option<Token>) -> (r: Result<Type, Failure>)
    requires
        tok == old(ctx).spec_current_token(),
    ensures
        outcome_matches(
            *old(ctx),
            *final(ctx),
            r,
            spec_parse_one_type(old(ctx).words(), old(ctx).index as int),
        ),
    decreases ctx.expr@.len() - ctx.index, 1int,
{
    match parse_type_tok(ctx, tok) {
        Ok(res) => {
            match ctx.expect_word("?") {
                Ok(_) => Ok(Type::Failable(Box::new(res))),
                Err(_) => Ok(res),
            }
        },
        Err(e) => Err(e),
    }
}

/// Tries to parse a type at the cursor — quietly, so that a caller may
/// restore its saved cursor and try another grammar production.
#[verifier::loop_isolation(false)]
pub fn try_parse_type(ctx: &mut Context) -> (r: Result<Type, Failure>)
    ensures
        outcome_matches(
            *old(ctx),
            *final(ctx),
            r,
            spec_try_parse_type(old(ctx).words(), old(ctx).index as int),
        ),
    decreases ctx.expr@.len() - ctx.index, 2int,
{
    let ghost pre = *ctx;
    let ghost words = pre.words();
    let ghost i0 = pre.index as int;
    let tok = ctx.get_current_token();
    let res = parse_one_type(ctx, tok);
    let ghost one = spec_parse_one_type(words, i0);
    match ctx.expect_word("|") {
        Err(_) => res,
        Ok(_) => {
            match res {
                Err(e) => Err(e),
                Ok(first) => {
                    proof {
                        assert(one matches TypeParse::Parsed { t, next } && first@ == t);
                        assert(i0 <= words.len()) by {
                            if i0 > words.len() {
                                assert(one is Quiet);
                            }
                        }
                        lemma_parse_one_type_progress(words, i0);
                    }
                    let mut unioned: Vec<Box<Type>> = Vec::new();
                    unioned.push(Box::new(first));
                    proof {
                        reveal_with_fuel(Type::members_view, 2);
                        let acc0 = Type::members_view(unioned@);
                        assert(unioned@.drop_last() =~= Seq::<Box<Type>>::empty());
                        assert(acc0 =~= seq![first@]);
                    }
                    loop
                        invariant
                            ctx.same_but_cursor(pre),
                            unioned@.len() >= 1,
                            i0 < ctx.index as int,
                            ctx.index as int <= words.len(),
                            words == ctx.words(),
                            spec_try_parse_type(words, i0) == spec_parse_union_rest(
                                words,
                                ctx.index as int,
                                Type::members_view(unioned@),
                            ),
                        decreases words.len() - ctx.index,
                    {
                        let tok2 = ctx.get_current_token();
                        let ghost cur = ctx.index as int;
                        let ghost acc = Type::members_view(unioned@);
                        proof {
                            lemma_parse_one_type_progress(words, cur);
                        }
                        match parse_one_type(ctx, tok2) {
                            Err(err) => {
                                return Err(err);
                            },
                            Ok(t) => {
                                let ghost before = unioned@;
                                unioned.push(Box::new(t));
                                proof {
                                    assert(unioned@.drop_last() =~= before);
                                    assert(Type::members_view(unioned@) =~= acc.push(t@));
                                }
                                match ctx.expect_word("|") {
                                    Ok(_) => {
                                    },
                                    Err(_) => {
                                        return Ok(Type::Union(unioned));
                                    },
                                }
                            },
                        }
                    }
                },
            }
        },
    }
}

/// Parses a type where the grammar demands one: any failure of the quiet
/// parser becomes the loud "Expected a data type" diagnostic anchored at the
/// token the cursor stood on.
pub fn parse_type(ctx: &mut Context) -> (r: Result<Type, Failure>)
    ensures
        final(ctx).same_but_cursor(*old(ctx)),
        match spec_try_parse_type(old(ctx).words(), old(ctx).index as int) {
            TypeParse::Parsed { t, next } => {
                &&& r matches Ok(ty) && ty@ == t
                &&& final(ctx).index == next
            },
            _ => r matches Err(f) && f matches Failure::Loud(m) && m.spec_is_err_at(
                old(ctx).path,
                old(ctx).trace@,
                old(ctx).spec_current_token(),
                expected_type_msg(),
                None,
            ),
        },
{
    let tok = ctx.get_current_token();
    match try_parse_type(ctx) {
        Ok(t) => Ok(t),
        Err(_) => {
            let msg = Message::new_err_at_token(&ctx.path, &ctx.trace, &tok).message(
                "Expected a data type",
            );
            Err(Failure::Loud(msg))
        },
    }
}

} // verus!

