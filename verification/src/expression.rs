use crate::context::Context;
use crate::token::str_equal;
use crate::token::Failure;
use crate::token::Message;
use crate::token::PositionInfo;
use crate::token::Token;
use crate::translate::spec_computation;
use crate::translate::stripped_quotes;
use crate::translate::strip_text_quotes;
use crate::translate::translate_computation;
use crate::translate::ArithOp;
use crate::translate::TranslateMetadata;
use crate::types::equals;
use crate::types::Type;
use crate::types::Typed;
use crate::types::TypeView;
use vstd::prelude::*;
use vstd::string::StrSliceExecFns;
use vstd::string::StringExecFns;

verus! {

/// A parsed expression.  The full language has many node kinds; the core
/// carries the representative subset every binary node builds on: the
/// literal atoms of each primitive type, and the equality comparison node.
#[derive(Debug)]
pub enum Expr {
    NullLit,
    BoolLit(bool),
    NumLit(String),
    TextLit(String),
    Eq(Box<Eq>),
}

/// The static equality comparison node: two owned sub-expressions.  Its
/// static type is boolean regardless of the operand types.
#[derive(Debug)]
pub struct Eq {
    pub left: Box<Expr>,
    pub right: Box<Expr>,
}

/// A word made of decimal digits only.
pub open spec fn is_num_word(w: Seq<char>) -> bool {
    w.len() > 0 && forall|k: int| 0 <= k < w.len() ==> '0' <= #[trigger] w[k] <= '9'
}

/// A word carrying quote delimiters at both ends.
pub open spec fn is_text_word(w: Seq<char>) -> bool {
    w.len() >= 2 && w[0] == '"' && w[w.len() - 1] == '"'
}

fn word_is_num(w: &str) -> (r: bool)
    ensures
        r == is_num_word(w@),
{
    let n = w.unicode_len();
    if n == 0 {
        return false;
    }
    let mut i: usize = 0;
    while i < n
        invariant
            i <= n,
            n == w@.len(),
            forall|k: int| 0 <= k < i ==> '0' <= #[trigger] w@[k] <= '9',
        decreases n - i,
    {
        let c = w.get_char(i);
        if !('0' <= c && c <= '9') {
            return false;
        }
        i = i + 1;
    }
    true
}

fn word_is_text(w: &str) -> (r: bool)
    ensures
        r == is_text_word(w@),
{
    let n = w.unicode_len();
    if n < 2 {
        return false;
    }
    let first = w.get_char(0);
    let last = w.get_char(n - 1);
    first == '"' && last == '"'
}

/// The outcome of running the expression grammar at one token position;
/// mirrors the two-tier failure signalling of the type grammar.
pub enum ExprParse {
    Parsed { e: Expr, next: int },
    Quiet { next: int },
    Loud { msg: Seq<char>, comment: Option<Seq<char>>, at: Option<int> },
}

/// The mismatch diagnostic of the equality node, carrying both canonical
/// renderings.
pub open spec fn cmp_mismatch_msg(lt: TypeView, rt: TypeView) -> Seq<char> {
    "Cannot compare two values of different types '"@ + lt.rendered() + "' == '"@ + rt.rendered()
        + "'"@
}

/// One atom: a boolean, null, numeric or text literal.
pub open spec fn spec_parse_atom(toks: Seq<Token>, i: int) -> ExprParse {
    if !(0 <= i < toks.len()) {
        ExprParse::Quiet { next: i }
    } else {
        let w = toks[i].word;
        if w@ == "true"@ {
            ExprParse::Parsed { e: Expr::BoolLit(true), next: i + 1 }
        } else if w@ == "false"@ {
            ExprParse::Parsed { e: Expr::BoolLit(false), next: i + 1 }
        } else if w@ == "null"@ {
            ExprParse::Parsed { e: Expr::NullLit, next: i + 1 }
        } else if is_num_word(w@) {
            ExprParse::Parsed { e: Expr::NumLit(w), next: i + 1 }
        } else if is_text_word(w@) {
            ExprParse::Parsed { e: Expr::TextLit(w), next: i + 1 }
        } else {
            ExprParse::Quiet { next: i }
        }
    }
}

/// The equality node's grammar: a left operand parsed at the precedence
/// level bounded by "==" (an atom), the operator, then a right operand at
/// full expression precedence; after both sides are parsed their static
/// types must be compatible, else the node fails loudly at the operator.
pub open spec fn spec_parse_eq(toks: Seq<Token>, i: int) -> ExprParse
    decreases toks.len() - i, 1int,
{
    match spec_parse_atom(toks, i) {
        ExprParse::Parsed { e: l, next: j } => {
            if 0 <= j < toks.len() && toks[j].word@ == "=="@ {
                if i < j + 1 {
                    match spec_parse_expr(toks, j + 1) {
                        ExprParse::Parsed { e: r, next: k } => {
                            if TypeView::compatible(l.type_view(), r.type_view()) {
                                ExprParse::Parsed {
                                    e: Expr::Eq(
                                        Box::new(Eq { left: Box::new(l), right: Box::new(r) }),
                                    ),
                                    next: k,
                                }
                            } else {
                                ExprParse::Loud {
                                    msg: cmp_mismatch_msg(l.type_view(), r.type_view()),
                                    comment: None,
                                    at: Some(j),
                                }
                            }
                        },
                        other => other,
                    }
                } else {
                    ExprParse::Quiet { next: j }
                }
            } else {
                ExprParse::Quiet { next: j }
            }
        },
        other => other,
    }
}

/// The whole expression grammar: the equality node, or — when it quietly
/// does not match and the cursor has been restored — a bare atom.
pub open spec fn spec_parse_expr(toks: Seq<Token>, i: int) -> ExprParse
    decreases toks.len() - i, 2int,
{
    match spec_parse_eq(toks, i) {
        ExprParse::Quiet { .. } => spec_parse_atom(toks, i),
        other => other,
    }
}

/// A successful atom advances the cursor by one and never leaves the stream.
pub proof fn lemma_parse_atom_progress(toks: Seq<Token>, i: int)
    ensures
        match spec_parse_atom(toks, i) {
            ExprParse::Parsed { e, next } => 0 <= i && next == i + 1 && next <= toks.len(),
            ExprParse::Quiet { next } => next == i,
            ExprParse::Loud { .. } => true,
        },
{
}

/// What a run of the expression parser did, compared against the grammar
/// outcome.
pub open spec fn expr_outcome_matches(
    pre: Context,
    post: Context,
    r: Result<Expr, Failure>,
    outcome: ExprParse,
) -> bool {
    &&& post.same_but_cursor(pre)
    &&& match outcome {
        ExprParse::Parsed { e, next } => {
            &&& r matches Ok(x) && x == e
            &&& post.index == next
        },
        ExprParse::Quiet { next } => {
            &&& r == Err::<Expr, Failure>(Failure::Quiet(PositionInfo::spec_at_eof(pre.path)))
            &&& post.index == next
        },
        ExprParse::Loud { msg, comment, at } => {
            &&& r matches Err(f) && f matches Failure::Loud(m) && m.spec_is_err_at(
                pre.path,
                pre.trace@,
                match at {
                    Some(k) => if 0 <= k < pre.expr@.len() {
                        Some(pre.expr@[k])
                    } else {
                        None
                    },
                    None => None,
                },
                msg,
                comment,
            )
        },
    }
}

/// Parses one literal atom at the cursor.
fn parse_atom(ctx: &mut Context) -> (r: Result<Expr, Failure>)
    ensures
        expr_outcome_matches(
            *old(ctx),
            *final(ctx),
            r,
            spec_parse_atom(old(ctx).expr@, old(ctx).index as int),
        ),
{
    let tok = ctx.get_current_token();
    match &tok {
        Some(t) => {
            if str_equal(t.word.as_str(), "true") {
                ctx.increment_index();
                Ok(Expr::BoolLit(true))
            } else if str_equal(t.word.as_str(), "false") {
                ctx.increment_index();
                Ok(Expr::BoolLit(false))
            } else if str_equal(t.word.as_str(), "null") {
                ctx.increment_index();
                Ok(Expr::NullLit)
            } else if word_is_num(t.word.as_str()) {
                ctx.increment_index();
                Ok(Expr::NumLit(t.word.clone()))
            } else if word_is_text(t.word.as_str()) {
                ctx.increment_index();
                Ok(Expr::TextLit(t.word.clone()))
            } else {
                Err(Failure::Quiet(PositionInfo::at_eof(&ctx.path)))
            }
        },
        None => Err(Failure::Quiet(PositionInfo::at_eof(&ctx.path))),
    }
}

impl Expr {
    /// The static type of the expression, computed on demand.
    pub open spec fn type_view(self) -> TypeView {
        match self {
            Expr::NullLit => TypeView::Null,
            Expr::BoolLit(_) => TypeView::Bool,
            Expr::NumLit(_) => TypeView::Num,
            Expr::TextLit(_) => TypeView::Text,
            Expr::Eq(_) => TypeView::Bool,
        }
    }

    pub fn static_type(&self) -> (r: Type)
        ensures
            r@ == self.type_view(),
    {
        match self {
            Expr::NullLit => Type::Null,
            Expr::BoolLit(_) => Type::Bool,
            Expr::NumLit(_) => Type::Num,
            Expr::TextLit(_) => Type::Text,
            Expr::Eq(_) => Type::Bool,
        }
    }

    /// The target-language fragment the expression renders to.  A text
    /// literal keeps its quote markers: consumers that need the raw string
    /// strip them.
    pub open spec fn translated(self) -> Seq<char>
        decreases self,
    {
        match self {
            Expr::NullLit => Seq::empty(),
            Expr::BoolLit(b) => if b {
                "1"@
            } else {
                "0"@
            },
            Expr::NumLit(s) => s@,
            Expr::TextLit(s) => s@,
            Expr::Eq(e) => e.translated(),
        }
    }

    /// Parses an expression: the equality node, or an atom when the node
    /// quietly does not match — the saved cursor is restored before the
    /// alternative is tried, as quiet failure demands.
    pub fn parse(ctx: &mut Context) -> (r: Result<Expr, Failure>)
        ensures
            expr_outcome_matches(
                *old(ctx),
                *final(ctx),
                r,
                spec_parse_expr(old(ctx).expr@, old(ctx).index as int),
            ),
        decreases ctx.expr@.len() - ctx.index, 2int,
    {
        let index = ctx.get_index();
        let mut eq_node = Eq::new();
        match eq_node.parse(ctx) {
            Ok(_) => Ok(Expr::Eq(Box::new(eq_node))),
            Err(Failure::Quiet(_)) => {
                ctx.set_index(index);
                parse_atom(ctx)
            },
            Err(e) => Err(e),
        }
    }

    pub fn translate(&self, meta: &mut TranslateMetadata) -> (r: String)
        ensures
            r@ == self.translated(),
        decreases *self,
    {
        match self {
            Expr::NullLit => String::new(),
            Expr::BoolLit(b) => if *b {
                "1".to_owned()
            } else {
                "0".to_owned()
            },
            Expr::NumLit(s) => s.clone(),
            Expr::TextLit(s) => s.clone(),
            Expr::Eq(e) => e.translate(meta),
        }
    }
}

impl Eq {
    pub open spec fn spec_left(self) -> Expr {
        *self.left
    }

    pub open spec fn spec_right(self) -> Expr {
        *self.right
    }

    /// An empty node, ready to be filled by `parse`.
    pub fn new() -> (r: Eq)
        ensures
            r.spec_left() == Expr::NullLit,
            r.spec_right() == Expr::NullLit,
    {
        Eq { left: Box::new(Expr::NullLit), right: Box::new(Expr::NullLit) }
    }

    pub fn static_type(&self) -> (r: Type)
        ensures
            r@ == TypeView::Bool,
    {
        Type::Bool
    }

    /// Parses the node into `self`: the left operand bounded by the
    /// operator's precedence, the operator (its position captured for
    /// diagnostics), the right operand at full precedence, then the static
    /// type check with the compatibility relation; a mismatch fails loudly
    /// at the operator with both rendered types.
    pub fn parse(&mut self, ctx: &mut Context) -> (r: Result<(), Failure>)
        ensures
            final(ctx).same_but_cursor(*old(ctx)),
            match spec_parse_eq(old(ctx).expr@, old(ctx).index as int) {
                ExprParse::Parsed { e, next } => {
                    &&& r is Ok
                    &&& e == Expr::Eq(Box::new(*final(self)))
                    &&& final(ctx).index == next
                },
                ExprParse::Quiet { next } => {
                    &&& r == Err::<(), Failure>(
                        Failure::Quiet(PositionInfo::spec_at_eof(old(ctx).path)),
                    )
                    &&& final(ctx).index == next
                },
                ExprParse::Loud { msg, comment, at } => {
                    r matches Err(f) && f matches Failure::Loud(m) && m.spec_is_err_at(
                        old(ctx).path,
                        old(ctx).trace@,
                        match at {
                            Some(k) => if 0 <= k < old(ctx).expr@.len() {
                                Some(old(ctx).expr@[k])
                            } else {
                                None
                            },
                            None => None,
                        },
                        msg,
                        comment,
                    )
                },
            },
        decreases ctx.expr@.len() - ctx.index, 1int,
    {
        let ghost pre = *ctx;
        let l = match parse_atom(ctx) {
            Ok(e) => e,
            Err(e) => {
                return Err(e);
            },
        };
        let tok = ctx.get_current_token();
        match ctx.expect_word("==") {
            Ok(_) => (),
            Err(e) => {
                return Err(e);
            },
        }
        proof {
            lemma_parse_atom_progress(pre.expr@, pre.index as int);
        }
        let rgt = match Expr::parse(ctx) {
            Ok(e) => e,
            Err(e) => {
                return Err(e);
            },
        };
        let l_type = l.static_type();
        let r_type = rgt.static_type();
        if equals(&l_type, &r_type) {
            self.left = Box::new(l);
            self.right = Box::new(rgt);
            Ok(())
        } else {
            let mut m = "Cannot compare two values of different types '".to_owned();
            let l_rendered = l_type.render();
            m.append(l_rendered.as_str());
            m.append("' == '");
            let r_rendered = r_type.render();
            m.append(r_rendered.as_str());
            m.append("'");
            Err(
                Failure::Loud(
                    Message::new_err_at_token(&ctx.path, &ctx.trace, &tok).message(m.as_str()),
                ),
            )
        }
    }

    /// The target-language fragment: when both operands are statically of
    /// text type, a subshell snippet that runs the negated string test and
    /// reports its status — the surrounding evaluation convention inverts it
    /// back to "equal" semantics; otherwise the arithmetic backend composes
    /// the two already-rendered operand fragments under the "equal" tag.
    pub open spec fn translated(self) -> Seq<char>
        decreases self,
    {
        if TypeView::compatible((*self.left).type_view(), TypeView::Text)
            && TypeView::compatible((*self.right).type_view(), TypeView::Text) {
            "$("@ + ("[ \"_"@ + stripped_quotes((*self.left).translated()) + "\" != \"_"@
                + stripped_quotes((*self.right).translated()) + "\" ]; echo $?"@) + ")"@
        } else {
            spec_computation(ArithOp::Eq, Some((*self.left).translated()), Some((*self.right).translated()))
        }
    }

    pub fn translate(&self, meta: &mut TranslateMetadata) -> (r: String)
        ensures
            r@ == self.translated(),
        decreases *self,
    {
        let mut left = self.left.translate(meta);
        let mut right = self.right.translate(meta);
        let text_type = Type::Text;
        let l_type = self.left.static_type();
        let r_type = self.right.static_type();
        if equals(&l_type, &text_type) && equals(&r_type, &text_type) {
            strip_text_quotes(&mut left);
            strip_text_quotes(&mut right);
            let mut body = "[ \"_".to_owned();
            body.append(left.as_str());
            body.append("\" != \"_");
            body.append(right.as_str());
            body.append("\" ]; echo $?");
            meta.gen_subprocess(body.as_str())
        } else {
            translate_computation(meta, ArithOp::Eq, Some(left), Some(right))
        }
    }

    /// This node contributes no user-facing documentation text.
    pub fn document(&self, _ctx: &Context) -> (r: String)
        ensures
            r@ == Seq::<char>::empty(),
    {
        String::new()
    }
}

impl Typed for Expr {
    fn get_type(&self) -> Type {
        self.static_type()
    }
}

impl Typed for Eq {
    fn get_type(&self) -> Type {
        self.static_type()
    }
}

} // verus!
