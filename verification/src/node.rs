//! The syntax tree: a tagged variant per construct, each node wrapped
//! with an optional resolved type. The type slot is `Some` exactly on
//! expression-producing nodes and `None` on statement-only nodes; code
//! generation relies on that split to keep its evaluation stack balanced.

use vstd::prelude::*;

use crate::ty::Ty;

verus! {

/// The binary operators the code generator knows. The parser normalizes
/// `>` and `>=` away by swapping operands, so they never appear here.
#[derive(PartialEq, Eq, Debug, Clone, Copy, Structural)]
pub enum BinOpType {
    Add,
    Sub,
    Mul,
    Div,
    Equal,
    NotEqual,
    LessThan,
    LessThanOrEqual,
}

/// One construct of the tree. Every child is exclusively owned.
#[derive(PartialEq, Eq, Debug)]
pub enum Ast {
    BinOp(BinOpType, Box<Node>, Box<Node>),
    Assign(Box<Node>, Box<Node>),
    LocalVar { name: String, offset: u32 },
    GlobalVar { name: String },
    Num(u32),
    Return(Box<Node>),
    If(Box<Node>, Box<Node>, Option<Box<Node>>),
    While(Box<Node>, Box<Node>),
    For(Option<Box<Node>>, Option<Box<Node>>, Option<Box<Node>>, Box<Node>),
    Block(Vec<Node>),
    Funcall(String, Vec<Node>),
    Fundef { name: String, args: Vec<Node>, body: Vec<Node>, stack_size: u32 },
    Addr(Box<Node>),
    Deref(Box<Node>),
    LocalVarDef(String, Ty),
    GlobalVarDef(String, Ty),
}

/// A tree node: the construct and, for expressions, its resolved type.
#[derive(PartialEq, Eq, Debug)]
pub struct Node {
    pub ast: Ast,
    pub ty: Option<Ty>,
}

/// A resolved type whose values the generated loads and stores can move:
/// a 4- or 8-byte scalar, or an array, which is never loaded because it
/// decays to the address of its first element.
pub open spec fn loadable(t: Option<Ty>) -> bool {
    match t {
        Some(ty) => ty.size_fits() && (ty is Array || ty.spec_size() == 4 || ty.spec_size() == 8),
        None => false,
    }
}

/// The resolved type of a well-formed expression: present, built from
/// `Int` by pointer and array formation, and loadable.
pub open spec fn ty_wf(t: Option<Ty>) -> bool {
    match t {
        Some(ty) => ty.int_based() && loadable(t),
        None => false,
    }
}

/// A well-formed expression node: typed, and shaped so that code
/// generation cannot meet a case it has no rule for.
pub open spec fn wf_expr(n: Node) -> bool
    decreases n, 0int,
{
    ty_wf(n.ty) && match n.ast {
        Ast::Num(_) => n.ty == Some(Ty::Int),
        Ast::LocalVar { .. } => true,
        Ast::GlobalVar { .. } => true,
        Ast::Addr(base) => wf_expr(*base) && (base.ast is LocalVar || base.ast is GlobalVar) && (
        match n.ty {
            Some(ty) => ty is Ptr,
            None => false,
        }),
        Ast::Deref(base) => wf_expr(*base),
        Ast::Assign(lhs, rhs) => wf_expr(*lhs) && wf_expr(*rhs) && (lhs.ast is LocalVar || lhs.ast
            is GlobalVar || lhs.ast is Deref),
        Ast::BinOp(_, lhs, rhs) => wf_expr(*lhs) && wf_expr(*rhs),
        Ast::Funcall(_, args) => wf_expr_seq(args@) && args@.len() <= 6 && n.ty == Some(Ty::Int),
        _ => false,
    }
}

/// Every node of the sequence is a well-formed expression.
pub open spec fn wf_expr_seq(s: Seq<Node>) -> bool
    decreases s, s.len(),
{
    if s.len() == 0 {
        true
    } else {
        wf_expr(s[0]) && wf_expr_seq(s.drop_first())
    }
}

/// A well-formed statement node. Statement-only constructs carry no type,
/// so the code generator can tell which statements leave a value behind.
pub open spec fn wf_stmt(n: Node) -> bool
    decreases n, 1int,
{
    match n.ast {
        Ast::Return(value) => n.ty is None && wf_expr(*value),
        Ast::If(cond, then_body, else_body) => n.ty is None && wf_expr(*cond) && wf_stmt(
            *then_body,
        ) && (match else_body {
            Some(b) => wf_stmt(*b),
            None => true,
        }),
        Ast::While(cond, body) => n.ty is None && wf_expr(*cond) && wf_stmt(*body),
        Ast::For(init, check, update, body) => n.ty is None && (match init {
            Some(e) => wf_expr(*e),
            None => true,
        }) && (match check {
            Some(e) => wf_expr(*e),
            None => true,
        }) && (match update {
            Some(e) => wf_expr(*e),
            None => true,
        }) && wf_stmt(*body),
        Ast::Block(stmts) => n.ty is None && wf_stmt_seq(stmts@),
        Ast::LocalVarDef(_, _) => n.ty is None,
        Ast::Fundef { .. } => false,
        Ast::GlobalVarDef(..) => false,
        _ => wf_expr(n),
    }
}

/// Every node of the sequence is a well-formed statement.
pub open spec fn wf_stmt_seq(s: Seq<Node>) -> bool
    decreases s, s.len(),
{
    if s.len() == 0 {
        true
    } else {
        wf_stmt(s[0]) && wf_stmt_seq(s.drop_first())
    }
}

/// Every node of the sequence is a local-variable reference, as function
/// parameters are after they have been interned.
pub open spec fn all_local_vars(s: Seq<Node>) -> bool {
    forall|i: int| 0 <= i < s.len() ==> s[i].ast is LocalVar
}

/// A well-formed top-level item: a function definition or a global
/// variable definition.
pub open spec fn wf_toplevel(n: Node) -> bool {
    match n.ast {
        Ast::Fundef { name: _, args, body, stack_size: _ } => n.ty is None && args@.len() <= 6
            && all_local_vars(args@) && wf_stmt_seq(body@),
        Ast::GlobalVarDef(_, ty) => n.ty is None && ty.size_fits(),
        _ => false,
    }
}

/// Every node of the sequence is a well-formed top-level item.
pub open spec fn wf_toplevel_seq(s: Seq<Node>) -> bool {
    forall|i: int| 0 <= i < s.len() ==> wf_toplevel(s[i])
}

/// How many control constructs needing fresh labels — `if`, `while`,
/// `for` — the tree under `n` holds.
pub open spec fn n_constructs(n: Node) -> nat
    decreases n, 0int,
{
    match n.ast {
        Ast::BinOp(_, lhs, rhs) => n_constructs(*lhs) + n_constructs(*rhs),
        Ast::Assign(lhs, rhs) => n_constructs(*lhs) + n_constructs(*rhs),
        Ast::Return(value) => n_constructs(*value),
        Ast::If(cond, then_body, else_body) => 1 + n_constructs(*cond) + n_constructs(*then_body)
            + (match else_body {
            Some(b) => n_constructs(*b),
            None => 0,
        }),
        Ast::While(cond, body) => 1 + n_constructs(*cond) + n_constructs(*body),
        Ast::For(init, check, update, body) => 1 + (match init {
            Some(e) => n_constructs(*e),
            None => 0,
        }) + (match check {
            Some(e) => n_constructs(*e),
            None => 0,
        }) + (match update {
            Some(e) => n_constructs(*e),
            None => 0,
        }) + n_constructs(*body),
        Ast::Block(stmts) => n_constructs_seq(stmts@),
        Ast::Funcall(_, args) => n_constructs_seq(args@),
        Ast::Fundef { name: _, args: _, body, stack_size: _ } => n_constructs_seq(body@),
        Ast::Addr(base) => n_constructs(*base),
        Ast::Deref(base) => n_constructs(*base),
        _ => 0,
    }
}

/// Total construct count of a sequence of nodes.
pub open spec fn n_constructs_seq(s: Seq<Node>) -> nat
    decreases s, s.len(),
{
    if s.len() == 0 {
        0
    } else {
        n_constructs(s[0]) + n_constructs_seq(s.drop_first())
    }
}

/// An `Int`-based type whose size fits is always loadable: it is an
/// array, or a 4-byte integer, or an 8-byte pointer.
pub proof fn lemma_int_based_loadable(ty: Ty)
    requires
        ty.int_based(),
        ty.size_fits(),
    ensures
        loadable(Some(ty)),
{
}

/// Appending a well-formed expression keeps the sequence well-formed.
pub proof fn lemma_wf_expr_seq_push(s: Seq<Node>, n: Node)
    requires
        wf_expr_seq(s),
        wf_expr(n),
    ensures
        wf_expr_seq(s.push(n)),
    decreases s.len(),
{
    assert(wf_expr_seq(s.push(n)) == (wf_expr(s.push(n)[0]) && wf_expr_seq(
        s.push(n).drop_first(),
    )));
    if s.len() == 0 {
        assert(s.push(n)[0] == n);
        assert(s.push(n).drop_first() =~= Seq::<Node>::empty());
    } else {
        assert(s.push(n)[0] == s[0]);
        assert(s.push(n).drop_first() =~= s.drop_first().push(n));
        lemma_wf_expr_seq_push(s.drop_first(), n);
    }
}

/// Appending a well-formed statement keeps the sequence well-formed.
pub proof fn lemma_wf_stmt_seq_push(s: Seq<Node>, n: Node)
    requires
        wf_stmt_seq(s),
        wf_stmt(n),
    ensures
        wf_stmt_seq(s.push(n)),
    decreases s.len(),
{
    assert(wf_stmt_seq(s.push(n)) == (wf_stmt(s.push(n)[0]) && wf_stmt_seq(
        s.push(n).drop_first(),
    )));
    if s.len() == 0 {
        assert(s.push(n)[0] == n);
        assert(s.push(n).drop_first() =~= Seq::<Node>::empty());
    } else {
        assert(s.push(n)[0] == s[0]);
        assert(s.push(n).drop_first() =~= s.drop_first().push(n));
        lemma_wf_stmt_seq_push(s.drop_first(), n);
    }
}

/// Every element of a well-formed expression sequence is well-formed.
pub proof fn lemma_wf_expr_seq_index(s: Seq<Node>, i: int)
    requires
        wf_expr_seq(s),
        0 <= i < s.len(),
    ensures
        wf_expr(s[i]),
    decreases s.len(),
{
    if i > 0 {
        lemma_wf_expr_seq_index(s.drop_first(), i - 1);
        assert(s.drop_first()[i - 1] == s[i]);
    }
}

/// Every element of a well-formed statement sequence is well-formed.
pub proof fn lemma_wf_stmt_seq_index(s: Seq<Node>, i: int)
    requires
        wf_stmt_seq(s),
        0 <= i < s.len(),
    ensures
        wf_stmt(s[i]),
    decreases s.len(),
{
    if i > 0 {
        lemma_wf_stmt_seq_index(s.drop_first(), i - 1);
        assert(s.drop_first()[i - 1] == s[i]);
    }
}

/// A well-formed expression holds no control construct, so it asks for no
/// labels.
pub proof fn lemma_wf_expr_no_constructs(n: Node)
    requires
        wf_expr(n),
    ensures
        n_constructs(n) == 0,
    decreases n, 0int,
{
    match n.ast {
        Ast::BinOp(_, lhs, rhs) => {
            lemma_wf_expr_no_constructs(*lhs);
            lemma_wf_expr_no_constructs(*rhs);
        },
        Ast::Assign(lhs, rhs) => {
            lemma_wf_expr_no_constructs(*lhs);
            lemma_wf_expr_no_constructs(*rhs);
        },
        Ast::Addr(base) => lemma_wf_expr_no_constructs(*base),
        Ast::Deref(base) => lemma_wf_expr_no_constructs(*base),
        Ast::Funcall(_, args) => lemma_wf_expr_seq_no_constructs(args@),
        _ => (),
    }
}

/// A sequence of well-formed expressions asks for no labels.
pub proof fn lemma_wf_expr_seq_no_constructs(s: Seq<Node>)
    requires
        wf_expr_seq(s),
    ensures
        n_constructs_seq(s) == 0,
    decreases s, s.len(),
{
    if s.len() > 0 {
        lemma_wf_expr_no_constructs(s[0]);
        lemma_wf_expr_seq_no_constructs(s.drop_first());
    }
}

/// Appending a node adds its construct count to the sequence's.
pub proof fn lemma_n_constructs_seq_push(s: Seq<Node>, n: Node)
    ensures
        n_constructs_seq(s.push(n)) == n_constructs_seq(s) + n_constructs(n),
    decreases s.len(),
{
    assert(n_constructs_seq(s.push(n)) == n_constructs(s.push(n)[0]) + n_constructs_seq(
        s.push(n).drop_first(),
    ));
    if s.len() == 0 {
        assert(s.push(n)[0] == n);
        assert(s.push(n).drop_first() =~= Seq::<Node>::empty());
    } else {
        assert(s.push(n)[0] == s[0]);
        assert(s.push(n).drop_first() =~= s.drop_first().push(n));
        lemma_n_constructs_seq_push(s.drop_first(), n);
    }
}

/// Splitting a sequence at `i` splits its construct count.
pub proof fn lemma_n_constructs_seq_skip(s: Seq<Node>, i: int)
    requires
        0 <= i < s.len(),
    ensures
        n_constructs_seq(s.skip(i)) == n_constructs(s[i]) + n_constructs_seq(s.skip(i + 1)),
{
    assert(s.skip(i)[0] == s[i]);
    assert(s.skip(i).drop_first() =~= s.skip(i + 1));
}

impl Node {
    /// Wraps a construct with its resolved type.
    pub fn new(ast: Ast, ty: Option<Ty>) -> (r: Self)
        ensures
            r == (Node { ast, ty }),
    {
        Self { ast, ty }
    }

    /// A binary-operation node over two owned subtrees.
    pub fn new_bin_op_node(op: BinOpType, lhs: Box<Node>, rhs: Box<Node>, ty: Option<Ty>) -> (r:
        Self)
        ensures
            r == (Node { ast: Ast::BinOp(op, lhs, rhs), ty }),
    {
        Self { ast: Ast::BinOp(op, lhs, rhs), ty }
    }

    /// A numeric-literal node; literals always have type `Int`.
    pub fn new_num(val: u32) -> (r: Self)
        ensures
            r == (Node { ast: Ast::Num(val), ty: Some(Ty::Int) }),
            wf_expr(r),
    {
        Self { ast: Ast::Num(val), ty: Some(Ty::Int) }
    }

    /// A local-variable reference node at a resolved offset.
    pub fn new_local_var(name: String, offset: u32, ty: Ty) -> (r: Self)
        ensures
            r == (Node { ast: Ast::LocalVar { name, offset }, ty: Some(ty) }),
    {
        Self { ast: Ast::LocalVar { name, offset }, ty: Some(ty) }
    }
}

} // verus!
