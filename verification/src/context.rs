use crate::expression::Expr;
use crate::token::str_equal;
use crate::token::Failure;
use crate::token::PositionInfo;
use crate::token::Token;
use crate::types::Type;
use std::sync::Arc;
use std::sync::Mutex;
use vstd::prelude::*;

verus! {

/// A compiler feature toggle that a source file can enable.
#[derive(Clone, Copy, Debug, PartialEq, Eq, Structural)]
pub enum CCFlags {
    AllowNestedIfElse,
    AllowGenericReturn,
    AllowAbsurdCast,
}

/// A function declaration as stored in a scope: the signature's parallel
/// per-parameter arrays, the return type, its flags and a unique numeric
/// identity.  Created when a signature is parsed; lives as long as the
/// enclosing scope.
#[derive(Debug)]
pub struct FunctionDecl {
    pub name: String,
    pub arg_names: Vec<String>,
    pub arg_types: Vec<Type>,
    pub arg_refs: Vec<bool>,
    pub arg_optionals: Vec<Expr>,
    pub returns: Type,
    pub is_args_typed: bool,
    pub is_public: bool,
    pub is_failable: bool,
    pub id: usize,
}

/// The shape a function declaration is handed to later compilation stages in.
#[derive(Debug)]
pub struct FunctionInterface {
    pub id: Option<usize>,
    pub name: String,
    pub arg_names: Vec<String>,
    pub arg_types: Vec<Type>,
    pub arg_refs: Vec<bool>,
    pub arg_optionals: Vec<Expr>,
    pub returns: Type,
    pub is_public: bool,
    pub is_failable: bool,
}

impl FunctionDecl {
    /// Repackages the declaration for the interface consumers, keeping every
    /// field and recording the declaration's identity.
    pub fn into_interface(self) -> (r: FunctionInterface)
        ensures
            r.id == Some(self.id),
            r.name == self.name,
            r.arg_names == self.arg_names,
            r.arg_types == self.arg_types,
            r.arg_refs == self.arg_refs,
            r.arg_optionals == self.arg_optionals,
            r.returns == self.returns,
            r.is_public == self.is_public,
            r.is_failable == self.is_failable,
    {
        FunctionInterface {
            id: Some(self.id),
            name: self.name,
            arg_names: self.arg_names,
            arg_types: self.arg_types,
            arg_refs: self.arg_refs,
            arg_optionals: self.arg_optionals,
            returns: self.returns,
            is_public: self.is_public,
            is_failable: self.is_failable,
        }
    }
}

#[verifier::external_type_specification]
#[verifier::external_body]
#[verifier::reject_recursive_types(T)]
pub struct ExMutex<T: ?Sized>(Mutex<T>);

/// The distinct internal error raised when the shared empty-flag lock is
/// poisoned: a programming-contract violation, never a user-facing parse
/// diagnostic.
#[derive(Clone, Copy, Debug, PartialEq, Eq, Structural)]
pub struct EmptyFlagPoisoned;

/// Relies on std::sync::Mutex::new: creates a lock that owns the given value.
#[verifier::external_body]
fn new_flag_cell(value: bool) -> (cell: Mutex<bool>) {
    Mutex::new(value)
}

/// Relies on std::sync::Mutex::lock: yields the value the shared cell holds
/// at this moment, or an error when the lock was poisoned by a panic raised
/// while it was held.  The cell is shared, so nothing relates the value read
/// to any earlier read or write.
#[verifier::external_body]
fn read_flag_cell(cell: &Arc<Mutex<bool>>) -> (r: Result<bool, EmptyFlagPoisoned>) {
    match cell.lock() {
        Ok(guard) => Ok(*guard),
        Err(_) => Err(EmptyFlagPoisoned),
    }
}

/// Relies on std::sync::Arc::clone: yields a second handle to the very same
/// shared cell, leaving the cell itself untouched.
#[verifier::external_body]
fn share_flag_cell(cell: &Arc<Mutex<bool>>) -> (r: Arc<Mutex<bool>>)
    ensures
        r == *cell,
{
    Arc::clone(cell)
}

/// Relies on std::sync::Mutex::lock: stores the given value in the shared
/// cell, or reports failure when the lock was poisoned.
#[verifier::external_body]
fn write_flag_cell(cell: &Arc<Mutex<bool>>, value: bool) -> (r: Result<(), ()>) {
    match cell.lock() {
        Ok(mut guard) => {
            *guard = value;
            Ok(())
        },
        Err(_) => Err(()),
    }
}

/// A variable declaration.  The `is_empty` cell records whether the variable
/// still holds no value; it is shared — not copied — across every clone of
/// the declaration, so all observers see the same truth even after the
/// declaration has been duplicated into a derived parsing context.
#[derive(Debug)]
pub struct VariableDecl {
    pub name: String,
    pub kind: Type,
    pub global_id: Option<usize>,
    pub is_ref: bool,
    pub is_empty: Arc<Mutex<bool>>,
    pub declared_at: PositionInfo,
}

impl VariableDecl {
    /// A fresh declaration whose empty-flag cell starts at `is_empty`; the
    /// cell is shared with every later clone of this declaration.
    pub fn new(
        name: String,
        kind: Type,
        global_id: Option<usize>,
        is_ref: bool,
        is_empty: bool,
        declared_at: PositionInfo,
    ) -> (r: VariableDecl)
        ensures
            r.name == name,
            r.kind == kind,
            r.global_id == global_id,
            r.is_ref == is_ref,
            r.declared_at == declared_at,
    {
        VariableDecl {
            name,
            kind,
            global_id,
            is_ref,
            is_empty: Arc::new(new_flag_cell(is_empty)),
            declared_at,
        }
    }

    /// A copy of the declaration.  The empty-flag cell is shared with the
    /// copy, not duplicated: both declarations keep observing the same truth.
    pub fn duplicate(&self) -> (r: VariableDecl)
        ensures
            r.name == self.name,
            r.kind@ == self.kind@,
            r.global_id == self.global_id,
            r.is_ref == self.is_ref,
            r.is_empty == self.is_empty,
            r.declared_at == self.declared_at,
    {
        VariableDecl {
            name: self.name.clone(),
            kind: self.kind.duplicate(),
            global_id: self.global_id,
            is_ref: self.is_ref,
            is_empty: share_flag_cell(&self.is_empty),
            declared_at: self.declared_at.duplicate(),
        }
    }

    /// Records whether the variable currently holds no value; fails only when
    /// the shared cell's lock is poisoned.
    pub fn set_is_empty(&self, is_empty: bool) -> Result<(), ()> {
        write_flag_cell(&self.is_empty, is_empty)
    }

    /// Whether the variable currently holds no value; fails only when the
    /// shared cell's lock is poisoned.
    pub fn is_empty(&self) -> Result<bool, EmptyFlagPoisoned> {
        read_flag_cell(&self.is_empty)
    }
}

/// One lexical scope: its variable and function declarations, keyed by name.
/// Keys are unique; the last write wins; no other ordering is guaranteed.
#[derive(Debug)]
pub struct ScopeUnit {
    vars: Vec<VariableDecl>,
    funs: Vec<FunctionDecl>,
}

impl ScopeUnit {
    pub closed spec fn vars_seq(self) -> Seq<VariableDecl> {
        self.vars@
    }

    pub closed spec fn funs_seq(self) -> Seq<FunctionDecl> {
        self.funs@
    }

    /// Key uniqueness: no two entries of either table share a name.
    pub open spec fn wf(self) -> bool {
        &&& forall|i: int, j: int|
            0 <= i < j < self.vars_seq().len() ==> self.vars_seq()[i].name@
                != self.vars_seq()[j].name@
        &&& forall|i: int, j: int|
            0 <= i < j < self.funs_seq().len() ==> self.funs_seq()[i].name@
                != self.funs_seq()[j].name@
    }

    pub open spec fn has_var(self, name: Seq<char>) -> bool {
        exists|i: int| 0 <= i < self.vars_seq().len() && self.vars_seq()[i].name@ == name
    }

    pub open spec fn var_index(self, name: Seq<char>) -> int {
        choose|i: int| 0 <= i < self.vars_seq().len() && self.vars_seq()[i].name@ == name
    }

    /// The declaration stored under `name`; meaningful only when `has_var`.
    pub open spec fn var_named(self, name: Seq<char>) -> VariableDecl {
        self.vars_seq()[self.var_index(name)]
    }

    pub open spec fn has_fun(self, name: Seq<char>) -> bool {
        exists|i: int| 0 <= i < self.funs_seq().len() && self.funs_seq()[i].name@ == name
    }

    pub open spec fn fun_index(self, name: Seq<char>) -> int {
        choose|i: int| 0 <= i < self.funs_seq().len() && self.funs_seq()[i].name@ == name
    }

    /// The declaration stored under `name`; meaningful only when `has_fun`.
    pub open spec fn fun_named(self, name: Seq<char>) -> FunctionDecl {
        self.funs_seq()[self.fun_index(name)]
    }

    pub fn new() -> (r: ScopeUnit)
        ensures
            r.wf(),
            r.vars_seq() == Seq::<VariableDecl>::empty(),
            r.funs_seq() == Seq::<FunctionDecl>::empty(),
    {
        let r = ScopeUnit { vars: Vec::new(), funs: Vec::new() };
        proof {
            assert(r.vars_seq() =~= Seq::<VariableDecl>::empty());
            assert(r.funs_seq() =~= Seq::<FunctionDecl>::empty());
        }
        r
    }

    /// Persists a variable declaration, overwriting any existing entry with
    /// the same name.
    pub fn add_var(&mut self, var: VariableDecl)
        requires
            old(self).wf(),
        ensures
            final(self).wf(),
            final(self).funs_seq() == old(self).funs_seq(),
            forall|n: Seq<char>|
                #[trigger] final(self).has_var(n) <==> (old(self).has_var(n) || n == var.name@),
            final(self).has_var(var.name@) && final(self).var_named(var.name@) == var,
            forall|n: Seq<char>|
                n != var.name@ && old(self).has_var(n) ==> #[trigger] final(self).var_named(n)
                    == old(self).var_named(n),
    {
        let ghost pre = *self;
        let mut j: usize = 0;
        let mut found: bool = false;
        let mut i: usize = 0;
        while j < self.vars.len()
            invariant
                *self == pre,
                j <= self.vars_seq().len(),
                !found ==> forall|k: int| 0 <= k < j ==> self.vars_seq()[k].name@ != var.name@,
                found ==> i < j && self.vars_seq()[i as int].name@ == var.name@,
            decreases self.vars_seq().len() - j,
        {
            if str_equal(self.vars[j].name.as_str(), var.name.as_str()) {
                found = true;
                i = j;
            }
            j = j + 1;
        }
        if found {
            self.vars.remove(i);
        }
        proof {
            lemma_no_dup_after_removal(pre.vars_seq(), self.vars_seq(), var.name@, found, i as int);
        }
        let ghost mid = *self;
        self.vars.push(var);
        proof {
            assert forall|n: Seq<char>| #[trigger] self.has_var(n) implies (pre.has_var(n) || n
                == var.name@) by {
                if self.has_var(n) && n != var.name@ {
                    let k = choose|k: int|
                        0 <= k < self.vars_seq().len() && self.vars_seq()[k].name@ == n;
                    assert(k < mid.vars_seq().len());
                    if found && k >= i {
                        assert(pre.vars_seq()[k + 1].name@ == n);
                    } else {
                        assert(pre.vars_seq()[k].name@ == n);
                    }
                }
            }
            assert forall|n: Seq<char>| pre.has_var(n) implies #[trigger] self.has_var(n) by {
                let k = choose|k: int|
                    0 <= k < pre.vars_seq().len() && pre.vars_seq()[k].name@ == n;
                if n == var.name@ {
                    assert(self.vars_seq().last().name@ == n);
                } else if found && k > i {
                    assert(self.vars_seq()[k - 1].name@ == n);
                } else {
                    assert(k != i || !found);
                    assert(self.vars_seq()[k].name@ == n);
                }
            }
            assert(self.vars_seq().last() == var);
            assert(self.has_var(var.name@));
            assert(self.var_named(var.name@) == var) by {
                let k = self.var_index(var.name@);
                assert(k == self.vars_seq().len() - 1) by {
                    if k < self.vars_seq().len() - 1 {
                        assert(mid.vars_seq()[k].name@ == var.name@);
                    }
                }
            }
            assert forall|n: Seq<char>| n != var.name@ && pre.has_var(n) implies #[trigger] self
                .var_named(n) == pre.var_named(n) by {
                let k = self.var_index(n);
                assert(self.has_var(n));
                assert(0 <= k < self.vars_seq().len() && self.vars_seq()[k].name@ == n);
                assert(k < mid.vars_seq().len());
                let kp = pre.var_index(n);
                assert(0 <= kp < pre.vars_seq().len() && pre.vars_seq()[kp].name@ == n);
                if found && k >= i {
                    assert(pre.vars_seq()[k + 1].name@ == n);
                    assert(kp == k + 1);
                } else {
                    assert(pre.vars_seq()[k].name@ == n);
                    assert(kp == k);
                }
            }
        }
    }

    /// Fetches the declaration stored under `name` in this scope alone.
    pub fn get_var(&self, name: &str) -> (r: Option<&VariableDecl>)
        requires
            self.wf(),
        ensures
            match r {
                Some(v) => self.has_var(name@) && *v == self.var_named(name@),
                None => !self.has_var(name@),
            },
    {
        let mut i: usize = 0;
        while i < self.vars.len()
            invariant
                self.wf(),
                i <= self.vars_seq().len(),
                forall|k: int| 0 <= k < i ==> self.vars_seq()[k].name@ != name@,
            decreases self.vars_seq().len() - i,
        {
            if str_equal(self.vars[i].name.as_str(), name) {
                proof {
                    assert(self.vars_seq()[i as int].name@ == name@);
                    lemma_unique_index(self.vars_seq(), name@, i as int);
                    assert(self.var_index(name@) == i);
                }
                return Some(&self.vars[i]);
            }
            i = i + 1;
        }
        None
    }

    /// All the variable names in the scope, one per declaration.
    pub fn get_var_names(&self) -> (r: Vec<&String>)
        ensures
            r@.len() == self.vars_seq().len(),
            forall|k: int| 0 <= k < r@.len() ==> *r@[k] == self.vars_seq()[k].name,
    {
        let mut out: Vec<&String> = Vec::new();
        let mut i: usize = 0;
        while i < self.vars.len()
            invariant
                i <= self.vars_seq().len(),
                out@.len() == i,
                forall|k: int| 0 <= k < i ==> *out@[k] == self.vars_seq()[k].name,
            decreases self.vars_seq().len() - i,
        {
            out.push(&self.vars[i].name);
            i = i + 1;
        }
        out
    }

    /// All the variable declarations in the scope.
    pub fn get_all_vars(&self) -> (r: Vec<&VariableDecl>)
        ensures
            r@.len() == self.vars_seq().len(),
            forall|k: int| 0 <= k < r@.len() ==> *r@[k] == self.vars_seq()[k],
    {
        let mut out: Vec<&VariableDecl> = Vec::new();
        let mut i: usize = 0;
        while i < self.vars.len()
            invariant
                i <= self.vars_seq().len(),
                out@.len() == i,
                forall|k: int| 0 <= k < i ==> *out@[k] == self.vars_seq()[k],
            decreases self.vars_seq().len() - i,
        {
            out.push(&self.vars[i]);
            i = i + 1;
        }
        out
    }

    /// Persists a function declaration.  Returns true exactly when no
    /// function with that name previously existed in this scope; the
    /// insertion proceeds regardless, replacing any earlier entry, so the
    /// caller owns duplicate-definition prevention — only detection is
    /// offered here.
    pub fn add_fun(&mut self, fun: FunctionDecl) -> (r: bool)
        requires
            old(self).wf(),
        ensures
            final(self).wf(),
            final(self).vars_seq() == old(self).vars_seq(),
            r == !old(self).has_fun(fun.name@),
            forall|n: Seq<char>|
                #[trigger] final(self).has_fun(n) <==> (old(self).has_fun(n) || n == fun.name@),
            final(self).has_fun(fun.name@) && final(self).fun_named(fun.name@) == fun,
            forall|n: Seq<char>|
                n != fun.name@ && old(self).has_fun(n) ==> #[trigger] final(self).fun_named(n)
                    == old(self).fun_named(n),
    {
        let ghost pre = *self;
        let mut j: usize = 0;
        let mut found: bool = false;
        let mut i: usize = 0;
        while j < self.funs.len()
            invariant
                *self == pre,
                j <= self.funs_seq().len(),
                !found ==> forall|k: int| 0 <= k < j ==> self.funs_seq()[k].name@ != fun.name@,
                found ==> i < j && self.funs_seq()[i as int].name@ == fun.name@,
            decreases self.funs_seq().len() - j,
        {
            if str_equal(self.funs[j].name.as_str(), fun.name.as_str()) {
                found = true;
                i = j;
            }
            j = j + 1;
        }
        proof {
            if found {
                assert(pre.has_fun(fun.name@));
            }
        }
        if found {
            self.funs.remove(i);
        }
        proof {
            lemma_no_dup_after_removal_funs(
                pre.funs_seq(),
                self.funs_seq(),
                fun.name@,
                found,
                i as int,
            );
        }
        let ghost mid = *self;
        let ghost fun_name = fun.name@;
        self.funs.push(fun);
        proof {
            assert forall|n: Seq<char>| #[trigger] self.has_fun(n) implies (pre.has_fun(n) || n
                == fun_name) by {
                if self.has_fun(n) && n != fun_name {
                    let k = choose|k: int|
                        0 <= k < self.funs_seq().len() && self.funs_seq()[k].name@ == n;
                    assert(k < mid.funs_seq().len());
                    if found && k >= i {
                        assert(pre.funs_seq()[k + 1].name@ == n);
                    } else {
                        assert(pre.funs_seq()[k].name@ == n);
                    }
                }
            }
            assert forall|n: Seq<char>| pre.has_fun(n) implies #[trigger] self.has_fun(n) by {
                let k = choose|k: int|
                    0 <= k < pre.funs_seq().len() && pre.funs_seq()[k].name@ == n;
                if n == fun_name {
                    assert(self.funs_seq().last().name@ == n);
                } else if found && k > i {
                    assert(self.funs_seq()[k - 1].name@ == n);
                } else {
                    assert(k != i || !found);
                    assert(self.funs_seq()[k].name@ == n);
                }
            }
            assert(self.has_fun(fun_name));
            assert(self.fun_named(fun_name) == self.funs_seq().last()) by {
                let k = self.fun_index(fun_name);
                assert(k == self.funs_seq().len() - 1) by {
                    if k < self.funs_seq().len() - 1 {
                        assert(mid.funs_seq()[k].name@ == fun_name);
                    }
                }
            }
            assert forall|n: Seq<char>| n != fun_name && pre.has_fun(n) implies #[trigger] self
                .fun_named(n) == pre.fun_named(n) by {
                let k = self.fun_index(n);
                assert(self.has_fun(n));
                assert(0 <= k < self.funs_seq().len() && self.funs_seq()[k].name@ == n);
                assert(k < mid.funs_seq().len());
                let kp = pre.fun_index(n);
                assert(0 <= kp < pre.funs_seq().len() && pre.funs_seq()[kp].name@ == n);
                if found && k >= i {
                    assert(pre.funs_seq()[k + 1].name@ == n);
                    assert(kp == k + 1);
                } else {
                    assert(pre.funs_seq()[k].name@ == n);
                    assert(kp == k);
                }
            }
        }
        !found
    }

    /// Fetches the declaration stored under `name` in this scope alone.
    pub fn get_fun(&self, name: &str) -> (r: Option<&FunctionDecl>)
        requires
            self.wf(),
        ensures
            match r {
                Some(f) => self.has_fun(name@) && *f == self.fun_named(name@),
                None => !self.has_fun(name@),
            },
    {
        let mut i: usize = 0;
        while i < self.funs.len()
            invariant
                self.wf(),
                i <= self.funs_seq().len(),
                forall|k: int| 0 <= k < i ==> self.funs_seq()[k].name@ != name@,
            decreases self.funs_seq().len() - i,
        {
            if str_equal(self.funs[i].name.as_str(), name) {
                proof {
                    assert(self.funs_seq()[i as int].name@ == name@);
                    lemma_unique_index_funs(self.funs_seq(), name@, i as int);
                    assert(self.fun_index(name@) == i);
                }
                return Some(&self.funs[i]);
            }
            i = i + 1;
        }
        None
    }

    /// All the function names in the scope, one per declaration.
    pub fn get_fun_names(&self) -> (r: Vec<&String>)
        ensures
            r@.len() == self.funs_seq().len(),
            forall|k: int| 0 <= k < r@.len() ==> *r@[k] == self.funs_seq()[k].name,
    {
        let mut out: Vec<&String> = Vec::new();
        let mut i: usize = 0;
        while i < self.funs.len()
            invariant
                i <= self.funs_seq().len(),
                out@.len() == i,
                forall|k: int| 0 <= k < i ==> *out@[k] == self.funs_seq()[k].name,
            decreases self.funs_seq().len() - i,
        {
            out.push(&self.funs[i].name);
            i = i + 1;
        }
        out
    }
}

/// After removing the one earlier entry that bore `name` (when one was
/// found), no entry with `name` remains, and uniqueness is preserved.
proof fn lemma_no_dup_after_removal(
    pre: Seq<VariableDecl>,
    post: Seq<VariableDecl>,
    name: Seq<char>,
    found: bool,
    i: int,
)
    requires
        forall|a: int, b: int| 0 <= a < b < pre.len() ==> pre[a].name@ != pre[b].name@,
        found ==> 0 <= i < pre.len() && pre[i].name@ == name && post == pre.remove(i),
        !found ==> post == pre && forall|k: int| 0 <= k < pre.len() ==> pre[k].name@ != name,
    ensures
        forall|a: int, b: int| 0 <= a < b < post.len() ==> post[a].name@ != post[b].name@,
        forall|k: int| 0 <= k < post.len() ==> post[k].name@ != name,
{
    if found {
        assert forall|k: int| 0 <= k < post.len() implies post[k].name@ != name by {
            if k < i {
                assert(post[k] == pre[k]);
            } else {
                assert(post[k] == pre[k + 1]);
            }
        }
        assert forall|a: int, b: int| 0 <= a < b < post.len() implies post[a].name@
            != post[b].name@ by {
            let pa = if a < i { a } else { a + 1 };
            let pb = if b < i { b } else { b + 1 };
            assert(post[a] == pre[pa]);
            assert(post[b] == pre[pb]);
        }
    }
}

/// The same removal fact for the function table.
proof fn lemma_no_dup_after_removal_funs(
    pre: Seq<FunctionDecl>,
    post: Seq<FunctionDecl>,
    name: Seq<char>,
    found: bool,
    i: int,
)
    requires
        forall|a: int, b: int| 0 <= a < b < pre.len() ==> pre[a].name@ != pre[b].name@,
        found ==> 0 <= i < pre.len() && pre[i].name@ == name && post == pre.remove(i),
        !found ==> post == pre && forall|k: int| 0 <= k < pre.len() ==> pre[k].name@ != name,
    ensures
        forall|a: int, b: int| 0 <= a < b < post.len() ==> post[a].name@ != post[b].name@,
        forall|k: int| 0 <= k < post.len() ==> post[k].name@ != name,
{
    if found {
        assert forall|k: int| 0 <= k < post.len() implies post[k].name@ != name by {
            if k < i {
                assert(post[k] == pre[k]);
            } else {
                assert(post[k] == pre[k + 1]);
            }
        }
        assert forall|a: int, b: int| 0 <= a < b < post.len() implies post[a].name@
            != post[b].name@ by {
            let pa = if a < i { a } else { a + 1 };
            let pb = if b < i { b } else { b + 1 };
            assert(post[a] == pre[pa]);
            assert(post[b] == pre[pb]);
        }
    }
}

/// In a duplicate-free table the index bearing `name` is unique.
proof fn lemma_unique_index(s: Seq<VariableDecl>, name: Seq<char>, i: int)
    requires
        forall|a: int, b: int| 0 <= a < b < s.len() ==> s[a].name@ != s[b].name@,
        0 <= i < s.len(),
        s[i].name@ == name,
    ensures
        forall|k: int| 0 <= k < s.len() && s[k].name@ == name ==> k == i,
{
}

/// In a duplicate-free table the index bearing `name` is unique.
proof fn lemma_unique_index_funs(s: Seq<FunctionDecl>, name: Seq<char>, i: int)
    requires
        forall|a: int, b: int| 0 <= a < b < s.len() ==> s[a].name@ != s[b].name@,
        0 <= i < s.len(),
        s[i].name@ == name,
    ensures
        forall|k: int| 0 <= k < s.len() && s[k].name@ == name ==> k == i,
{
}


/// The full mutable parse/translate state for one file or invocation: the
/// token cursor, the token stream, the scope stack (innermost scope last),
/// the diagnostic trace of import call sites, the four contextual flags, the
/// public functions collected so far, the expected return type of the
/// function being parsed, and the enabled feature toggles.
#[derive(Debug)]
pub struct Context {
    /// The current index in the expression
    pub index: usize,
    /// The expression to be parsed
    pub expr: Vec<Token>,
    /// The path of the file
    pub path: Option<String>,
    /// Scopes saved in the context
    pub scopes: Vec<ScopeUnit>,
    /// A trace of the current position in the file
    pub trace: Vec<PositionInfo>,
    /// Determines if the context is in a function
    pub is_fun_ctx: bool,
    /// Determines if the context is in a loop
    pub is_loop_ctx: bool,
    /// Determines if the context is in the main block
    pub is_main_ctx: bool,
    /// Determines if the context is in an unsafe block
    pub is_unsafe_ctx: bool,
    /// The public functions declared in the current file
    pub pub_funs: Vec<FunctionDecl>,
    /// The return type of the currently parsed function
    pub fun_ret_type: Option<Type>,
    /// The enabled compiler feature toggles
    pub cc_flags: Vec<CCFlags>,
}

impl Context {
    /// Everything but the cursor agrees between the two states.
    pub open spec fn same_but_cursor(self, other: Context) -> bool {
        &&& self.expr == other.expr
        &&& self.path == other.path
        &&& self.scopes == other.scopes
        &&& self.trace == other.trace
        &&& self.is_fun_ctx == other.is_fun_ctx
        &&& self.is_loop_ctx == other.is_loop_ctx
        &&& self.is_main_ctx == other.is_main_ctx
        &&& self.is_unsafe_ctx == other.is_unsafe_ctx
        &&& self.pub_funs == other.pub_funs
        &&& self.fun_ret_type == other.fun_ret_type
        &&& self.cc_flags == other.cc_flags
    }

    /// The token words, in stream order.
    pub open spec fn words(self) -> Seq<Seq<char>> {
        self.expr@.map_values(|t: Token| t.word@)
    }

    /// One context per file, created over that file's token stream: cursor at
    /// the start, no scopes, no trace, all flags off, nothing collected.
    pub fn new(path: Option<String>, expr: Vec<Token>) -> (r: Context)
        ensures
            r.index == 0,
            r.expr == expr,
            r.path == path,
            r.scopes@ == Seq::<ScopeUnit>::empty(),
            r.trace@ == Seq::<PositionInfo>::empty(),
            !r.is_fun_ctx,
            !r.is_loop_ctx,
            !r.is_main_ctx,
            !r.is_unsafe_ctx,
            r.pub_funs@ == Seq::<FunctionDecl>::empty(),
            r.fun_ret_type is None,
            r.cc_flags@ == Seq::<CCFlags>::empty(),
    {
        Context {
            index: 0,
            expr,
            path,
            scopes: Vec::new(),
            trace: Vec::new(),
            is_fun_ctx: false,
            is_loop_ctx: false,
            is_main_ctx: false,
            is_unsafe_ctx: false,
            pub_funs: Vec::new(),
            fun_ret_type: None,
            cc_flags: Vec::new(),
        }
    }

    /// The function-invocation derivation: the cursor is reset to the start
    /// of the callee body, the token stream is swapped for that body, the
    /// inside-function flag is forced on, and the scope stack — like every
    /// other part of the state — is kept as it was.
    pub fn function_invocation(self, expr: Vec<Token>) -> (r: Context)
        ensures
            r.index == 0,
            r.expr == expr,
            r.is_fun_ctx,
            r.path == self.path,
            r.scopes == self.scopes,
            r.trace == self.trace,
            r.is_loop_ctx == self.is_loop_ctx,
            r.is_main_ctx == self.is_main_ctx,
            r.is_unsafe_ctx == self.is_unsafe_ctx,
            r.pub_funs == self.pub_funs,
            r.fun_ret_type == self.fun_ret_type,
            r.cc_flags == self.cc_flags,
    {
        let mut ctx = self;
        ctx.is_fun_ctx = true;
        ctx.index = 0;
        ctx.expr = expr;
        ctx
    }

    /// The file-import derivation: the diagnostic trace becomes the given
    /// trace with the import call-site position appended — one entry per
    /// import, prior entries preserved in call order — while the cursor, the
    /// token stream and the scopes stay untouched.
    pub fn file_import(self, trace: &[PositionInfo], position: PositionInfo) -> (r: Context)
        ensures
            r.trace@ == trace@ + seq![position],
            r.index == self.index,
            r.expr == self.expr,
            r.path == self.path,
            r.scopes == self.scopes,
            r.is_fun_ctx == self.is_fun_ctx,
            r.is_loop_ctx == self.is_loop_ctx,
            r.is_main_ctx == self.is_main_ctx,
            r.is_unsafe_ctx == self.is_unsafe_ctx,
            r.pub_funs == self.pub_funs,
            r.fun_ret_type == self.fun_ret_type,
            r.cc_flags == self.cc_flags,
    {
        let mut ctx = self;
        let mut chain: Vec<PositionInfo> = Vec::new();
        let mut i: usize = 0;
        while i < trace.len()
            invariant
                i <= trace@.len(),
                chain@.len() == i,
                forall|k: int| 0 <= k < i ==> chain@[k] == trace@[k],
            decreases trace@.len() - i,
        {
            chain.push(trace[i].duplicate());
            i = i + 1;
        }
        chain.push(position);
        proof {
            assert(chain@ =~= trace@ + seq![position]);
        }
        ctx.trace = chain;
        ctx
    }

    /// The token under the cursor, if any.
    pub open spec fn spec_current_token(self) -> Option<Token> {
        if self.index < self.expr@.len() {
            Some(self.expr@[self.index as int])
        } else {
            None
        }
    }

    pub fn get_current_token(&self) -> (r: Option<Token>)
        ensures
            r == self.spec_current_token(),
    {
        if self.index < self.expr.len() {
            let t = &self.expr[self.index];
            Some(Token { word: t.word.clone(), pos: t.pos, start: t.start })
        } else {
            None
        }
    }

    pub fn get_index(&self) -> (r: usize)
        ensures
            r == self.index,
    {
        self.index
    }

    pub fn set_index(&mut self, index: usize)
        ensures
            final(self).index == index,
            final(self).same_but_cursor(*old(self)),
    {
        self.index = index;
    }

    pub fn increment_index(&mut self)
        requires
            old(self).index < old(self).expr@.len(),
        ensures
            final(self).index == old(self).index + 1,
            final(self).same_but_cursor(*old(self)),
    {
        // Reading the length pins the stream's extent as a machine word,
        // so the bounded cursor cannot overflow.
        let _bound: usize = self.expr.len();
        self.index = self.index + 1;
    }

    /// Matches one token with the given word: when the cursor stands on a
    /// token holding exactly that word, the cursor advances past it;
    /// otherwise a quiet failure is returned and the cursor stays put.
    pub fn expect_word(&mut self, word: &str) -> (r: Result<(), Failure>)
        ensures
            final(self).same_but_cursor(*old(self)),
            (old(self).index < old(self).words().len() && old(self).words()[old(
                self,
            ).index as int] == word@) ==> (r is Ok && final(self).index == old(self).index + 1),
            !(old(self).index < old(self).words().len() && old(self).words()[old(
                self,
            ).index as int] == word@) ==> (r == Err::<(), Failure>(
                Failure::Quiet(PositionInfo::spec_at_eof(old(self).path)),
            ) && final(self).index == old(self).index),
    {
        if self.index < self.expr.len() {
            let same = str_equal(self.expr[self.index].word.as_str(), word);
            if same {
                self.increment_index();
                return Ok(());
            }
        }
        Err(Failure::Quiet(PositionInfo::at_eof(&self.path)))
    }

    /// What scanning the scope stack from the innermost scope outward finds
    /// under `name`: the first match wins, so inner declarations shadow
    /// outer ones.
    pub open spec fn resolved_var(scopes: Seq<ScopeUnit>, name: Seq<char>) -> Option<VariableDecl>
        decreases scopes.len(),
    {
        if scopes.len() == 0 {
            None
        } else if scopes.last().has_var(name) {
            Some(scopes.last().var_named(name))
        } else {
            Context::resolved_var(scopes.drop_last(), name)
        }
    }

    /// The same scan for functions.
    pub open spec fn resolved_fun(scopes: Seq<ScopeUnit>, name: Seq<char>) -> Option<FunctionDecl>
        decreases scopes.len(),
    {
        if scopes.len() == 0 {
            None
        } else if scopes.last().has_fun(name) {
            Some(scopes.last().fun_named(name))
        } else {
            Context::resolved_fun(scopes.drop_last(), name)
        }
    }

    /// Every scope on the stack keeps its keys unique.
    pub open spec fn scopes_wf(self) -> bool {
        forall|i: int| 0 <= i < self.scopes@.len() ==> (#[trigger] self.scopes@[i]).wf()
    }

    /// Fetches the innermost declaration of `name`; shadowing resolution is
    /// the context's job, not the scope's.
    pub fn get_var(&self, name: &str) -> (r: Option<&VariableDecl>)
        requires
            self.scopes_wf(),
        ensures
            match r {
                Some(v) => Context::resolved_var(self.scopes@, name@) == Some(*v),
                None => Context::resolved_var(self.scopes@, name@) is None,
            },
    {
        proof {
            assert(self.scopes@.subrange(0, self.scopes@.len() as int) =~= self.scopes@);
        }
        let mut i: usize = self.scopes.len();
        while i > 0
            invariant
                self.scopes_wf(),
                i <= self.scopes@.len(),
                Context::resolved_var(self.scopes@, name@) == Context::resolved_var(
                    self.scopes@.subrange(0, i as int),
                    name@,
                ),
            decreases i,
        {
            i = i - 1;
            proof {
                let pre = self.scopes@.subrange(0, i + 1);
                assert(pre.last() == self.scopes@[i as int]);
                assert(pre.drop_last() =~= self.scopes@.subrange(0, i as int));
            }
            let found = self.scopes[i].get_var(name);
            if let Some(v) = found {
                return Some(v);
            }
        }
        None
    }

    /// Fetches the innermost declaration of `name` among the functions.
    pub fn get_fun(&self, name: &str) -> (r: Option<&FunctionDecl>)
        requires
            self.scopes_wf(),
        ensures
            match r {
                Some(f) => Context::resolved_fun(self.scopes@, name@) == Some(*f),
                None => Context::resolved_fun(self.scopes@, name@) is None,
            },
    {
        proof {
            assert(self.scopes@.subrange(0, self.scopes@.len() as int) =~= self.scopes@);
        }
        let mut i: usize = self.scopes.len();
        while i > 0
            invariant
                self.scopes_wf(),
                i <= self.scopes@.len(),
                Context::resolved_fun(self.scopes@, name@) == Context::resolved_fun(
                    self.scopes@.subrange(0, i as int),
                    name@,
                ),
            decreases i,
        {
            i = i - 1;
            proof {
                let pre = self.scopes@.subrange(0, i + 1);
                assert(pre.last() == self.scopes@[i as int]);
                assert(pre.drop_last() =~= self.scopes@.subrange(0, i as int));
            }
            let found = self.scopes[i].get_fun(name);
            if let Some(f) = found {
                return Some(f);
            }
        }
        None
    }
}

} // verus!

