use vstd::prelude::*;
use vstd::string::StrSliceExecFns;

verus! {

/// A location in a source file: an explicit row/column pair, or the end of the file.
#[derive(Clone, Copy, Debug, PartialEq, Eq, Structural)]
pub enum Position {
    Pos(usize, usize),
    Eof,
}

/// A source location with enough detail to anchor a diagnostic message:
/// the file it belongs to, the place in it, the character index where the
/// anchored token starts and how many characters it spans.
#[derive(Clone, Debug, PartialEq)]
pub struct PositionInfo {
    pub path: Option<String>,
    pub position: Position,
    pub start: usize,
    pub len: usize,
}

/// One lexical token: its literal text, its (row, column) position and the
/// character index in the file where it starts.  The lexer that produces
/// these is an external collaborator; the core only walks a cursor over them.
#[derive(Debug)]
pub struct Token {
    pub word: String,
    pub pos: (usize, usize),
    pub start: usize,
}

impl PositionInfo {
    /// The position used by quiet failures and by diagnostics that cannot be
    /// anchored at a token: the end of the given file.
    pub open spec fn spec_at_eof(path: Option<String>) -> PositionInfo {
        PositionInfo { path, position: Position::Eof, start: 0, len: 0 }
    }

    /// The position of a token in the given file; of the end of the file when
    /// no token is at hand.
    pub open spec fn spec_from_token(path: Option<String>, tok: Option<Token>) -> PositionInfo {
        match tok {
            Some(t) => PositionInfo {
                path,
                position: Position::Pos(t.pos.0, t.pos.1),
                start: t.start,
                len: t.word@.len() as usize,
            },
            None => PositionInfo::spec_at_eof(path),
        }
    }

    pub fn at_eof(path: &Option<String>) -> (r: PositionInfo)
        ensures
            r == PositionInfo::spec_at_eof(*path),
    {
        PositionInfo { path: clone_path(path), position: Position::Eof, start: 0, len: 0 }
    }

    pub fn from_token(path: &Option<String>, tok: &Option<Token>) -> (r: PositionInfo)
        ensures
            r == PositionInfo::spec_from_token(*path, *tok),
    {
        match tok {
            Some(t) => PositionInfo {
                path: clone_path(path),
                position: Position::Pos(t.pos.0, t.pos.1),
                start: t.start,
                len: t.word.as_str().unicode_len(),
            },
            None => PositionInfo::at_eof(path),
        }
    }

    /// An exact copy, spelled out so that verified callers know what it
    /// holds.
    pub fn duplicate(&self) -> (r: PositionInfo)
        ensures
            r == *self,
    {
        PositionInfo {
            path: clone_path(&self.path),
            position: self.position,
            start: self.start,
            len: self.len,
        }
    }
}

/// Character-for-character equality of two string slices.
pub fn str_equal(a: &str, b: &str) -> (r: bool)
    ensures
        r == (a@ == b@),
{
    let la = a.unicode_len();
    let lb = b.unicode_len();
    if la != lb {
        return false;
    }
    let mut i: usize = 0;
    while i < la
        invariant
            i <= la,
            la == a@.len(),
            la == b@.len(),
            forall|k: int| 0 <= k < i ==> a@[k] == b@[k],
        decreases la - i,
    {
        if a.get_char(i) != b.get_char(i) {
            return false;
        }
        i = i + 1;
    }
    proof {
        assert(a@ =~= b@);
    }
    true
}

/// An exact copy of an optional file path.
pub fn clone_path(path: &Option<String>) -> (r: Option<String>)
    ensures
        r == *path,
{
    match path {
        Some(p) => Some(p.clone()),
        None => None,
    }
}

/// A loud diagnostic: the chain of positions that led to the error (the error
/// position first, then the import call sites from the most recent outward),
/// the message, and an optional clarifying comment.  Rendering it to a user
/// is owned by an external reporter.
#[derive(Clone, Debug, PartialEq)]
pub struct Message {
    pub trace: Vec<PositionInfo>,
    pub message: Option<String>,
    pub comment: Option<String>,
}

impl Message {
    /// The position chain a diagnostic carries when raised at `tok` inside a
    /// context whose import trace is `trace`: the error position first,
    /// followed by the import call sites, most recent first.
    pub open spec fn spec_err_trace(
        path: Option<String>,
        trace: Seq<PositionInfo>,
        tok: Option<Token>,
    ) -> Seq<PositionInfo> {
        seq![PositionInfo::spec_from_token(path, tok)] + trace.reverse()
    }

    /// True of a message raised at `tok` with the given text and comment.
    pub open spec fn spec_is_err_at(
        self,
        path: Option<String>,
        trace: Seq<PositionInfo>,
        tok: Option<Token>,
        message: Seq<char>,
        comment: Option<Seq<char>>,
    ) -> bool {
        &&& self.trace@ == Message::spec_err_trace(path, trace, tok)
        &&& self.message matches Some(m) && m@ == message
        &&& match comment {
            Some(c) => self.comment matches Some(x) && x@ == c,
            None => self.comment is None,
        }
    }

    /// A terminal error anchored at `tok` (or at the end of the file), carrying
    /// the context's import trace; the text is attached with `message`.
    pub fn new_err_at_token(
        path: &Option<String>,
        trace: &Vec<PositionInfo>,
        tok: &Option<Token>,
    ) -> (r: Message)
        ensures
            r.trace@ == Message::spec_err_trace(*path, trace@, *tok),
            r.message is None,
            r.comment is None,
    {
        let mut chain: Vec<PositionInfo> = Vec::new();
        chain.push(PositionInfo::from_token(path, tok));
        let mut i: usize = trace.len();
        while i > 0
            invariant
                i <= trace.len(),
                chain@.len() == 1 + (trace@.len() - i),
                chain@[0] == PositionInfo::spec_from_token(*path, *tok),
                forall|k: int|
                    1 <= k < chain@.len() ==> chain@[k] == trace@[trace@.len() - k],
            decreases i,
        {
            i = i - 1;
            chain.push(trace[i].duplicate());
        }
        proof {
            assert(chain@ =~= Message::spec_err_trace(*path, trace@, *tok));
        }
        Message { trace: chain, message: None, comment: None }
    }

    /// Attaches the message text.
    pub fn message(self, text: &str) -> (r: Message)
        ensures
            r.trace == self.trace,
            r.message matches Some(m) && m@ == text@,
            r.comment == self.comment,
    {
        Message { trace: self.trace, message: Some(text.to_owned()), comment: self.comment }
    }

    /// Attaches the clarifying comment.
    pub fn comment(self, text: &str) -> (r: Message)
        ensures
            r.trace == self.trace,
            r.message == self.message,
            r.comment matches Some(c) && c@ == text@,
    {
        Message { trace: self.trace, message: self.message, comment: Some(text.to_owned()) }
    }
}

/// The two-tier failure signal of the recursive-descent core.  A quiet
/// failure means "this grammar alternative does not match here": it carries
/// no user-visible text, and the caller's only legitimate response is to
/// restore its saved cursor and try another production.  A loud failure is a
/// terminal, user-reported diagnostic: it propagates up and is never retried.
#[derive(Clone, Debug, PartialEq)]
pub enum Failure {
    Quiet(PositionInfo),
    Loud(Message),
}

} // verus!
