use vstd::prelude::*;
use vstd::string::StrSliceExecFns;
use vstd::string::StringExecFns;

verus! {

/// The translation state handed through code generation.  The backend
/// specified here reads none of it yet; the parameter keeps the handoff
/// interface stable.
#[derive(Debug)]
pub struct TranslateMetadata {}

impl TranslateMetadata {
    pub fn new() -> TranslateMetadata {
        TranslateMetadata {}
    }

    /// Wraps a snippet so that it runs in a subshell and yields its output.
    pub fn gen_subprocess(&self, text: &str) -> (r: String)
        ensures
            r@ == "$("@ + text@ + ")"@,
    {
        let mut s = "$(".to_owned();
        s.append(text);
        s.append(")");
        s
    }
}

/// The operator tag a node hands to the arithmetic-computation backend.
#[derive(Clone, Copy, Debug, PartialEq, Eq, Structural)]
pub enum ArithOp {
    Add,
    Sub,
    Mul,
    Div,
    Modulo,
    Eq,
    Neq,
    Gt,
    Ge,
    Lt,
    Le,
    And,
    Or,
}

impl ArithOp {
    pub open spec fn spec_symbol(self) -> Seq<char> {
        match self {
            ArithOp::Add => "+"@,
            ArithOp::Sub => "-"@,
            ArithOp::Mul => "*"@,
            ArithOp::Div => "/"@,
            ArithOp::Modulo => "%"@,
            ArithOp::Eq => "=="@,
            ArithOp::Neq => "!="@,
            ArithOp::Gt => ">"@,
            ArithOp::Ge => ">="@,
            ArithOp::Lt => "<"@,
            ArithOp::Le => "<="@,
            ArithOp::And => "&&"@,
            ArithOp::Or => "||"@,
        }
    }

    pub fn symbol(&self) -> (r: &str)
        ensures
            r@ == self.spec_symbol(),
    {
        match self {
            ArithOp::Add => "+",
            ArithOp::Sub => "-",
            ArithOp::Mul => "*",
            ArithOp::Div => "/",
            ArithOp::Modulo => "%",
            ArithOp::Eq => "==",
            ArithOp::Neq => "!=",
            ArithOp::Gt => ">",
            ArithOp::Ge => ">=",
            ArithOp::Lt => "<",
            ArithOp::Le => "<=",
            ArithOp::And => "&&",
            ArithOp::Or => "||",
        }
    }
}

pub open spec fn opt_text(s: Option<Seq<char>>) -> Seq<char> {
    match s {
        Some(x) => x,
        None => Seq::empty(),
    }
}

pub open spec fn opt_view(s: Option<String>) -> Option<Seq<char>> {
    match s {
        Some(x) => Some(x@),
        None => None,
    }
}

/// The fragment the backend composes for one operation over pre-rendered
/// operand snippets: a shell arithmetic expansion with the operands on
/// either side of the operator's symbol.
pub open spec fn spec_computation(
    op: ArithOp,
    left: Option<Seq<char>>,
    right: Option<Seq<char>>,
) -> Seq<char> {
    "$(("@ + opt_text(left) + " "@ + op.spec_symbol() + " "@ + opt_text(right) + "))"@
}

/// The arithmetic-computation backend: composes the already-rendered operand
/// fragments around the operator tag; it never re-renders the operands.
pub fn translate_computation(
    meta: &mut TranslateMetadata,
    op: ArithOp,
    left: Option<String>,
    right: Option<String>,
) -> (r: String)
    ensures
        r@ == spec_computation(op, opt_view(left), opt_view(right)),
{
    let mut s = "$((".to_owned();
    match &left {
        Some(l) => s.append(l.as_str()),
        None => (),
    }
    s.append(" ");
    s.append(op.symbol());
    s.append(" ");
    match &right {
        Some(x) => s.append(x.as_str()),
        None => (),
    }
    s.append("))");
    s
}

/// What stripping the quote delimiters leaves: the inside of the quotes when
/// both ends carry one, the text unchanged otherwise.
pub open spec fn stripped_quotes(s: Seq<char>) -> Seq<char> {
    if s.len() >= 2 && s[0] == '"' && s[s.len() - 1] == '"' {
        s.subrange(1, s.len() - 1)
    } else {
        s
    }
}

/// Removes the surrounding quote delimiters that a rendered text fragment
/// carries, so that a raw string comparison can be emitted.
pub fn strip_text_quotes(text: &mut String)
    ensures
        final(text)@ == stripped_quotes(old(text)@),
{
    let n = text.as_str().unicode_len();
    if n >= 2 {
        let first = text.as_str().get_char(0);
        let last = text.as_str().get_char(n - 1);
        if first == '"' && last == '"' {
            let inner = text.as_str().substring_char(1, n - 1).to_owned();
            *text = inner;
        }
    }
}

} // verus!
