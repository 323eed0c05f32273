//! The recursive-descent parser. It consumes the token stream and builds
//! a sequence of fully resolved top-level items: every expression node
//! carries its type, every variable reference its storage, and every
//! function its final frame size. Any unexpected token, unresolved name
//! or type error abandons the whole compilation with an error value.
//!
//! The grammar, precedence low to high: assignment (right-associative),
//! then equality, relational, additive and multiplicative operators (all
//! left-associative, built iteratively), then unary operators, then
//! primary expressions.

use vstd::prelude::*;

use crate::errors::ParseError;
use crate::node::{
    all_local_vars, loadable, n_constructs, n_constructs_seq, wf_expr, wf_expr_seq, wf_stmt,
    wf_stmt_seq, wf_toplevel, wf_toplevel_seq, Ast, BinOpType, Node,
};
use crate::node::{
    lemma_int_based_loadable, lemma_n_constructs_seq_push, lemma_wf_expr_no_constructs,
    lemma_wf_expr_seq_push, lemma_wf_stmt_seq_push,
};
use crate::token::{Token, TokenKind};
use crate::token_list::TokenList;
use crate::ty::Ty;
use crate::var_env::{
    lemma_find_entry_some_in, GlobalVarInfo, LocalVarInfo, VarEnvironment, VarInfo,
};

verus! {

/// Every type the environment holds was resolved by the parser: built
/// from `Int`, with a representable size at every depth.
pub open spec fn env_ok(env: VarEnvironment) -> bool {
    &&& (forall|i: int|
        0 <= i < env.locals_seq().len() ==> (#[trigger] env.locals_seq()[i]).1.ty.int_based()
            && env.locals_seq()[i].1.ty.size_fits())
    &&& (forall|i: int|
        0 <= i < env.globals_seq().len() ==> (#[trigger] env.globals_seq()[i]).1.ty.int_based()
            && env.globals_seq()[i].1.ty.size_fits())
}

/// Whatever a name resolves to in a well-typed environment has a
/// well-formed type.
proof fn lemma_resolved_ty_ok(env: VarEnvironment, name: Seq<char>)
    requires
        env_ok(env),
    ensures
        match env.resolve_spec(name) {
            Some(VarInfo::Local(info)) => info.ty.int_based() && info.ty.size_fits() && loadable(
                Some(info.ty),
            ),
            Some(VarInfo::Global(info)) => info.ty.int_based() && info.ty.size_fits() && loadable(
                Some(info.ty),
            ),
            None => true,
        },
{
    if env.local_spec(name) is Some {
        lemma_find_entry_some_in(env.locals_seq(), name);
        let i = choose|i: int|
            0 <= i < env.locals_seq().len() && #[trigger] env.locals_seq()[i].0@ == name
                && crate::var_env::find_entry(env.locals_seq(), name) == Some(
                env.locals_seq()[i].1,
            );
        lemma_int_based_loadable(env.locals_seq()[i].1.ty);
    } else if env.global_spec(name) is Some {
        lemma_find_entry_some_in(env.globals_seq(), name);
        let i = choose|i: int|
            0 <= i < env.globals_seq().len() && #[trigger] env.globals_seq()[i].0@ == name
                && crate::var_env::find_entry(env.globals_seq(), name) == Some(
                env.globals_seq()[i].1,
            );
        lemma_int_based_loadable(env.globals_seq()[i].1.ty);
    }
}

/// Copies an optional type annotation.
fn clone_opt_ty(t: &Option<Ty>) -> (r: Option<Ty>)
    ensures
        r == *t,
{
    match t {
        Some(ty) => Some(ty.clone()),
        None => None,
    }
}

/// Token `p` of the stream is a numeric literal carrying its value.
pub open spec fn num_at(toks: Seq<Token>, p: int) -> bool {
    0 <= p < toks.len() && toks[p].kind == TokenKind::Num && toks[p].num is Some
}

/// The node a numeric-literal token parses to.
pub open spec fn num_node(toks: Seq<Token>, p: int) -> Node {
    Node { ast: Ast::Num(toks[p].num->0), ty: Some(Ty::Int) }
}

/// Nothing at `p` can extend a multiplicative chain or index a primary:
/// a numeric operand ends here for the multiplicative level.
pub open spec fn num_stop_mul(toks: Seq<Token>, p: int) -> bool {
    p >= toks.len() || (toks[p].kind != TokenKind::Star && toks[p].kind != TokenKind::Div)
}

/// Nothing at `p` can extend an additive or multiplicative chain.
pub open spec fn num_stop_add(toks: Seq<Token>, p: int) -> bool {
    num_stop_mul(toks, p) && (p >= toks.len() || (toks[p].kind != TokenKind::Plus && toks[p].kind
        != TokenKind::Minus))
}

/// Token `p` is `*` or `/`.
pub open spec fn muldiv_op_at(toks: Seq<Token>, p: int) -> bool {
    0 <= p < toks.len() && (toks[p].kind == TokenKind::Star || toks[p].kind == TokenKind::Div)
}

/// The operator a `*` or `/` token parses to.
pub open spec fn muldiv_op(kind: TokenKind) -> BinOpType {
    if kind == TokenKind::Star {
        BinOpType::Mul
    } else {
        BinOpType::Div
    }
}

/// Tokens from `p` spell `k` numeric operands joined by `k - 1`
/// multiplicative operators.
pub open spec fn muldiv_chain(toks: Seq<Token>, p: int, k: nat) -> bool
    decreases k,
{
    if k == 0 {
        false
    } else if k == 1 {
        num_at(toks, p)
    } else {
        muldiv_chain(toks, p, (k - 1) as nat) && muldiv_op_at(toks, p + 2 * k - 3) && num_at(
            toks,
            p + 2 * k - 2,
        )
    }
}

/// The left-associative tree of a multiplicative chain.
pub open spec fn muldiv_fold(toks: Seq<Token>, p: int, k: nat) -> Node
    decreases k,
{
    if k <= 1 {
        num_node(toks, p)
    } else {
        Node {
            ast: Ast::BinOp(
                muldiv_op(toks[p + 2 * k - 3].kind),
                Box::new(muldiv_fold(toks, p, (k - 1) as nat)),
                Box::new(num_node(toks, p + 2 * k - 2)),
            ),
            ty: Some(Ty::Int),
        }
    }
}

/// Every prefix of a multiplicative chain is a chain, with operators at
/// the odd positions and numbers at the even ones up to its end.
proof fn lemma_muldiv_chain_prefix(toks: Seq<Token>, p: int, k: nat, j: nat)
    requires
        muldiv_chain(toks, p, k),
        1 <= j <= k,
    ensures
        muldiv_chain(toks, p, j),
        j < k ==> muldiv_op_at(toks, p + 2 * j - 1) && num_at(toks, p + 2 * j),
    decreases k,
{
    if j < k {
        lemma_muldiv_chain_prefix(toks, p, (k - 1) as nat, j);
    }
}

/// Token `p` is `+` or `-`.
pub open spec fn addsub_op_at(toks: Seq<Token>, p: int) -> bool {
    0 <= p < toks.len() && (toks[p].kind == TokenKind::Plus || toks[p].kind == TokenKind::Minus)
}

/// The operator a `+` or `-` token parses to.
pub open spec fn addsub_op(kind: TokenKind) -> BinOpType {
    if kind == TokenKind::Plus {
        BinOpType::Add
    } else {
        BinOpType::Sub
    }
}

/// Tokens from `p` spell `k` numeric operands joined by `k - 1` additive
/// operators: `n (+|-) n (+|-) ... n`.
pub open spec fn addsub_chain(toks: Seq<Token>, p: int, k: nat) -> bool
    decreases k,
{
    if k == 0 {
        false
    } else if k == 1 {
        num_at(toks, p)
    } else {
        addsub_chain(toks, p, (k - 1) as nat) && addsub_op_at(toks, p + 2 * k - 3) && num_at(
            toks,
            p + 2 * k - 2,
        )
    }
}

/// The left-associative tree of an additive chain: each operator takes
/// everything parsed so far as its left subtree and the next numeric
/// operand as its right subtree.
pub open spec fn addsub_fold(toks: Seq<Token>, p: int, k: nat) -> Node
    decreases k,
{
    if k <= 1 {
        num_node(toks, p)
    } else {
        Node {
            ast: Ast::BinOp(
                addsub_op(toks[p + 2 * k - 3].kind),
                Box::new(addsub_fold(toks, p, (k - 1) as nat)),
                Box::new(num_node(toks, p + 2 * k - 2)),
            ),
            ty: Some(Ty::Int),
        }
    }
}

/// Every prefix of an additive chain is a chain, and up to its end the
/// odd positions hold additive operators and the even ones numbers.
proof fn lemma_addsub_chain_prefix(toks: Seq<Token>, p: int, k: nat, j: nat)
    requires
        addsub_chain(toks, p, k),
        1 <= j <= k,
    ensures
        addsub_chain(toks, p, j),
        j < k ==> addsub_op_at(toks, p + 2 * j - 1) && num_at(toks, p + 2 * j),
    decreases k,
{
    if j < k {
        lemma_addsub_chain_prefix(toks, p, (k - 1) as nat, j);
    }
}

/// Token `p` is a comparison operator.
pub open spec fn rel_op_at(toks: Seq<Token>, p: int) -> bool {
    0 <= p < toks.len() && (toks[p].kind == TokenKind::LessThan || toks[p].kind
        == TokenKind::LessThanOrEqual || toks[p].kind == TokenKind::GreaterThan || toks[p].kind
        == TokenKind::GreaterThanOrEqual)
}

/// Nothing at `p` can extend a comparison chain or any chain below it.
pub open spec fn num_stop_rel(toks: Seq<Token>, p: int) -> bool {
    num_stop_add(toks, p) && !rel_op_at(toks, p)
}

/// Token `p` is `==` or `!=`.
pub open spec fn eq_op_at(toks: Seq<Token>, p: int) -> bool {
    0 <= p < toks.len() && (toks[p].kind == TokenKind::Equal || toks[p].kind
        == TokenKind::NotEqual)
}

/// Nothing at `p` can extend an equality chain or any chain below it.
pub open spec fn num_stop_eq(toks: Seq<Token>, p: int) -> bool {
    num_stop_rel(toks, p) && !eq_op_at(toks, p)
}

/// Tokens from `p` spell `k` numeric operands joined by `k - 1`
/// comparison operators.
pub open spec fn rel_chain(toks: Seq<Token>, p: int, k: nat) -> bool
    decreases k,
{
    if k == 0 {
        false
    } else if k == 1 {
        num_at(toks, p)
    } else {
        rel_chain(toks, p, (k - 1) as nat) && rel_op_at(toks, p + 2 * k - 3) && num_at(
            toks,
            p + 2 * k - 2,
        )
    }
}

/// The left-associative tree of a comparison chain. Each step folds what
/// was parsed so far with the next operand; `>` and `>=` swap the two
/// sides and become `<` and `<=`.
pub open spec fn rel_fold(toks: Seq<Token>, p: int, k: nat) -> Node
    decreases k,
{
    if k <= 1 {
        num_node(toks, p)
    } else {
        let kd = toks[p + 2 * k - 3].kind;
        let acc = rel_fold(toks, p, (k - 1) as nat);
        let operand = num_node(toks, p + 2 * k - 2);
        if kd == TokenKind::LessThan {
            Node { ast: Ast::BinOp(BinOpType::LessThan, Box::new(acc), Box::new(operand)), ty: Some(Ty::Int) }
        } else if kd == TokenKind::LessThanOrEqual {
            Node { ast: Ast::BinOp(BinOpType::LessThanOrEqual, Box::new(acc), Box::new(operand)), ty: Some(Ty::Int) }
        } else if kd == TokenKind::GreaterThan {
            Node { ast: Ast::BinOp(BinOpType::LessThan, Box::new(operand), Box::new(acc)), ty: Some(Ty::Int) }
        } else {
            Node { ast: Ast::BinOp(BinOpType::LessThanOrEqual, Box::new(operand), Box::new(acc)), ty: Some(Ty::Int) }
        }
    }
}

/// Every prefix of a comparison chain is a chain, with comparison
/// operators at the odd positions and numbers at the even ones.
proof fn lemma_rel_chain_prefix(toks: Seq<Token>, p: int, k: nat, j: nat)
    requires
        rel_chain(toks, p, k),
        1 <= j <= k,
    ensures
        rel_chain(toks, p, j),
        j < k ==> rel_op_at(toks, p + 2 * j - 1) && num_at(toks, p + 2 * j),
    decreases k,
{
    if j < k {
        lemma_rel_chain_prefix(toks, p, (k - 1) as nat, j);
    }
}

/// Tokens from `p` spell `k` numeric operands joined by `k - 1` equality
/// operators.
pub open spec fn eq_chain(toks: Seq<Token>, p: int, k: nat) -> bool
    decreases k,
{
    if k == 0 {
        false
    } else if k == 1 {
        num_at(toks, p)
    } else {
        eq_chain(toks, p, (k - 1) as nat) && eq_op_at(toks, p + 2 * k - 3) && num_at(
            toks,
            p + 2 * k - 2,
        )
    }
}

/// The operator a `==` or `!=` token parses to.
pub open spec fn eq_op(kind: TokenKind) -> BinOpType {
    if kind == TokenKind::Equal {
        BinOpType::Equal
    } else {
        BinOpType::NotEqual
    }
}

/// The left-associative tree of an equality chain.
pub open spec fn eq_fold(toks: Seq<Token>, p: int, k: nat) -> Node
    decreases k,
{
    if k <= 1 {
        num_node(toks, p)
    } else {
        Node {
            ast: Ast::BinOp(
                eq_op(toks[p + 2 * k - 3].kind),
                Box::new(eq_fold(toks, p, (k - 1) as nat)),
                Box::new(num_node(toks, p + 2 * k - 2)),
            ),
            ty: Some(Ty::Int),
        }
    }
}

/// Every prefix of an equality chain is a chain, with equality operators
/// at the odd positions and numbers at the even ones.
proof fn lemma_eq_chain_prefix(toks: Seq<Token>, p: int, k: nat, j: nat)
    requires
        eq_chain(toks, p, k),
        1 <= j <= k,
    ensures
        eq_chain(toks, p, j),
        j < k ==> eq_op_at(toks, p + 2 * j - 1) && num_at(toks, p + 2 * j),
    decreases k,
{
    if j < k {
        lemma_eq_chain_prefix(toks, p, (k - 1) as nat, j);
    }
}

/// Token `p` is an identifier naming a declared variable.
pub open spec fn var_at(toks: Seq<Token>, p: int, env: VarEnvironment) -> bool {
    0 <= p < toks.len() && toks[p].kind == TokenKind::Ident && toks[p].str is Some
        && env.resolve_spec(toks[p].str->0@) is Some
}

/// The node a declared variable reference parses to: a local reference
/// with its resolved offset, or a global reference under its label, each
/// annotated with the declared type.
pub open spec fn var_node(toks: Seq<Token>, p: int, env: VarEnvironment) -> Node {
    match env.resolve_spec(toks[p].str->0@) {
        Some(VarInfo::Local(info)) => Node {
            ast: Ast::LocalVar { name: toks[p].str->0, offset: info.offset },
            ty: Some(info.ty),
        },
        Some(VarInfo::Global(info)) => Node {
            ast: Ast::GlobalVar { name: info.label },
            ty: Some(info.ty),
        },
        None => Node { ast: Ast::Num(0), ty: None },
    }
}

/// Nothing at `p` can extend a primary expression: no call and no index.
pub open spec fn var_stop_primary(toks: Seq<Token>, p: int) -> bool {
    p >= toks.len() || (toks[p].kind != TokenKind::LParen && toks[p].kind != TokenKind::LBracket)
}

/// Nothing at `p` can extend a variable operand at the multiplicative
/// level or below.
pub open spec fn var_stop_mul(toks: Seq<Token>, p: int) -> bool {
    var_stop_primary(toks, p) && num_stop_mul(toks, p)
}

/// Nothing at `p` can extend a variable operand at the additive level or
/// below.
pub open spec fn var_stop_add(toks: Seq<Token>, p: int) -> bool {
    var_stop_mul(toks, p) && num_stop_add(toks, p)
}

/// Nothing at `p` can extend a variable operand at the comparison level
/// or below.
pub open spec fn var_stop_rel(toks: Seq<Token>, p: int) -> bool {
    var_stop_add(toks, p) && !rel_op_at(toks, p)
}

/// Nothing at `p` can extend a variable operand at the equality level or
/// below.
pub open spec fn var_stop_eq(toks: Seq<Token>, p: int) -> bool {
    var_stop_rel(toks, p) && !eq_op_at(toks, p)
}

/// Tokens from `p` spell `k` declared, assignable variables joined by
/// `k - 1` `=` tokens, with nothing after the last that could extend an
/// expression.
pub open spec fn assign_chain(toks: Seq<Token>, p: int, k: nat, env: VarEnvironment) -> bool
    decreases k,
{
    if k == 0 {
        false
    } else if k == 1 {
        var_at(toks, p, env) && var_stop_eq(toks, p + 1) && (p + 1 >= toks.len() || toks[p
            + 1].kind != TokenKind::Assign)
    } else {
        var_at(toks, p, env) && p + 1 < toks.len() && toks[p + 1].kind == TokenKind::Assign && (
        match var_node(toks, p, env).ty {
            Some(t) => !(t is Array),
            None => false,
        }) && assign_chain(toks, p + 2, (k - 1) as nat, env)
    }
}

/// The right-associative tree of an assignment chain: `a = b = c`
/// parses as `a = (b = c)`, and each assignment carries its left side's
/// type.
pub open spec fn assign_fold(toks: Seq<Token>, p: int, k: nat, env: VarEnvironment) -> Node
    decreases k,
{
    if k <= 1 {
        var_node(toks, p, env)
    } else {
        Node {
            ast: Ast::Assign(
                Box::new(var_node(toks, p, env)),
                Box::new(assign_fold(toks, p + 2, (k - 1) as nat, env)),
            ),
            ty: var_node(toks, p, env).ty,
        }
    }
}

/// Token `p` names a declared variable of reference type.
pub open spec fn ref_var_at(toks: Seq<Token>, p: int, env: VarEnvironment) -> bool {
    var_at(toks, p, env) && (match var_node(toks, p, env).ty {
        Some(t) => t is Ptr || t is Array,
        None => false,
    })
}

/// The tree `variable (+|-) literal` parses to when the variable has
/// reference type: the literal is scaled by the size of the element type
/// pointed at, by an inserted multiplication, before the raw operation.
pub open spec fn scaled_additive_node(toks: Seq<Token>, p: int, env: VarEnvironment) -> Node {
    let base = var_node(toks, p, env);
    let elem = base.ty->0.spec_base_ty();
    Node {
        ast: Ast::BinOp(
            addsub_op(toks[p + 1].kind),
            Box::new(base),
            Box::new(
                (Node {
                    ast: Ast::BinOp(
                        BinOpType::Mul,
                        Box::new(num_node(toks, p + 2)),
                        Box::new((Node { ast: Ast::Num((elem.spec_size()) as u32), ty: Some(Ty::Int) })),
                    ),
                    ty: Some(Ty::Int),
                }),
            ),
        ),
        ty: base.ty,
    }
}

/// The tree `variable [ literal ]` parses to when the variable has
/// reference type: the literal is scaled by the element size and the sum
/// dereferenced, with the post-dereference type.
pub open spec fn indexed_var_node(toks: Seq<Token>, p: int, env: VarEnvironment) -> Node {
    let base = var_node(toks, p, env);
    let vt = base.ty->0;
    let elem = vt.spec_base_ty();
    Node {
        ast: Ast::Deref(
            Box::new(
                (Node {
                    ast: Ast::BinOp(
                        BinOpType::Add,
                        Box::new(base),
                        Box::new(
                            (Node {
                                ast: Ast::BinOp(
                                    BinOpType::Mul,
                                    Box::new(num_node(toks, p + 2)),
                                    Box::new(
                                        (Node {
                                            ast: Ast::Num((elem.spec_size()) as u32),
                                            ty: Some(Ty::Int),
                                        }),
                                    ),
                                ),
                                ty: Some(Ty::Int),
                            }),
                        ),
                    ),
                    ty: Some(vt),
                }),
            ),
        ),
        ty: Some(elem),
    }
}

/// `t` wrapped in `k` pointer layers.
pub open spec fn ptr_wrap(t: Ty, k: nat) -> Ty
    decreases k,
{
    if k == 0 {
        t
    } else {
        Ty::Ptr(Box::new(ptr_wrap(t, (k - 1) as nat)))
    }
}

/// Tokens from `p` are exactly `k` stars: one pointer layer each.
pub open spec fn stars_run(toks: Seq<Token>, p: int, k: nat) -> bool {
    &&& p + k <= toks.len()
    &&& (forall|j: int| 0 <= j < k ==> (#[trigger] toks[p + j]).kind == TokenKind::Star)
    &&& (p + k >= toks.len() || toks[p + k].kind != TokenKind::Star)
}

/// Tokens from `p` are exactly `k` bracketed numeric dimensions
/// `[n][m]...` with no further bracket after them.
pub open spec fn dims_run(toks: Seq<Token>, p: int, k: nat) -> bool {
    &&& p + 3 * k <= toks.len()
    &&& (forall|j: int|
        0 <= j < k ==> (#[trigger] toks[p + 3 * j]).kind == TokenKind::LBracket && num_at(
            toks,
            p + 3 * j + 1,
        ) && toks[p + 3 * j + 2].kind == TokenKind::RBracket)
    &&& (p + 3 * k >= toks.len() || toks[p + 3 * k].kind != TokenKind::LBracket)
}

/// `t` wrapped in the `k` array dimensions read from `p`, outermost
/// dimension first: `[n][m]` over `t` is `Array(Array(t, m), n)`.
pub open spec fn array_wrap(toks: Seq<Token>, p: int, t: Ty, k: nat) -> Ty
    decreases k,
{
    if k == 0 {
        t
    } else {
        Ty::Array(Box::new(array_wrap(toks, p + 3, t, (k - 1) as nat)), toks[p + 1].num->0)
    }
}

/// Tokens at `p` spell a plain declaration head: `int name ;` with no
/// pointer stars and no array dimensions.
pub open spec fn plain_decl_at(toks: Seq<Token>, p: int) -> bool {
    p + 3 <= toks.len() && toks[p].kind == TokenKind::Int && toks[p + 1].kind == TokenKind::Ident
        && toks[p + 1].str is Some && toks[p + 2].kind == TokenKind::Semicolon
}

/// Tokens at `p` spell `return n ;` for a numeric literal `n`.
pub open spec fn plain_return_at(toks: Seq<Token>, p: int) -> bool {
    p + 3 <= toks.len() && toks[p].kind == TokenKind::Return && num_at(toks, p + 1) && toks[p
        + 2].kind == TokenKind::Semicolon
}

/// Inside a dimension run whose fully wrapped type has a representable
/// size, the wrap starting at any inner dimension also has one, and its
/// outermost product is bounded.
proof fn lemma_array_wrap_fits(toks: Seq<Token>, p: int, t: Ty, k: nat, idx: int)
    requires
        array_wrap(toks, p, t, k).size_fits(),
        0 <= idx < k,
    ensures
        array_wrap(toks, p + 3 * idx, t, (k - idx) as nat).size_fits(),
        array_wrap(toks, p + 3 * (idx + 1), t, (k - idx - 1) as nat).spec_size() * toks[p + 3
            * idx + 1].num->0 <= u32::MAX,
    decreases idx,
{
    if idx == 0 {
    } else {
        assert(array_wrap(toks, p + 3, t, (k - 1) as nat).size_fits());
        lemma_array_wrap_fits(toks, p + 3, t, (k - 1) as nat, idx - 1);
    }
}

/// The parser: a cursor over the token stream.
pub struct Lexer<'a> {
    token_list: TokenList<'a>,
}

impl<'a> Lexer<'a> {
    /// The tokens being parsed.
    pub closed spec fn toks(self) -> Seq<Token> {
        self.token_list.toks()
    }

    /// How many tokens are consumed so far.
    pub closed spec fn cur(self) -> int {
        self.token_list.cur()
    }

    /// The cursor lies within the stream.
    pub open spec fn wf_parse(self) -> bool {
        0 <= self.cur() <= self.toks().len()
    }

    /// How many tokens are left.
    pub closed spec fn rem(self) -> nat {
        self.token_list.remaining()
    }

    /// A parser over `token_list`, which must stand at its beginning.
    pub fn new(token_list: TokenList<'a>) -> (r: Lexer<'a>)
        ensures
            r.toks() == token_list.toks(),
            r.cur() == token_list.cur(),
    {
        Self { token_list }
    }

    /// Parses the whole stream as a sequence of top-level items under a
    /// fresh environment. On success every item is well formed and the
    /// total number of control constructs is bounded by the number of
    /// tokens, so label indices cannot run out downstream.
    #[verifier::loop_isolation(false)]
    pub fn program(&mut self) -> (r: Result<Vec<Node>, ParseError>)
        requires
            old(self).wf_parse(),
        ensures
            final(self).toks() == old(self).toks(),
            final(self).wf_parse(),
            r matches Ok(nodes) ==> wf_toplevel_seq(nodes@) && n_constructs_seq(nodes@)
                <= old(self).toks().len(),
            old(self).cur() >= old(self).toks().len() ==> (r matches Ok(nodes) && nodes@
                == Seq::<Node>::empty()),
            plain_decl_at(old(self).toks(), old(self).cur()) && old(self).cur() + 3 == old(
                self,
            ).toks().len() ==> (r matches Ok(nodes) && nodes@ =~= seq![
                (Node {
                    ast: Ast::GlobalVarDef(old(self).toks()[old(self).cur() + 1].str->0, Ty::Int),
                    ty: None,
                }),
            ]),
    {
        let mut nodes: Vec<Node> = Vec::new();
        let mut var_env = VarEnvironment::new();
        while !self.token_list.at_end()
            invariant
                self.wf_parse(),
                self.toks() == old(self).toks(),
                old(self).cur() <= self.cur(),
                var_env.wf(),
                env_ok(var_env),
                wf_toplevel_seq(nodes@),
                n_constructs_seq(nodes@) + old(self).cur() <= self.cur(),
                old(self).cur() >= old(self).toks().len() ==> nodes@ == Seq::<Node>::empty(),
                plain_decl_at(old(self).toks(), old(self).cur()) && old(self).cur() + 3 == old(
                    self,
                ).toks().len() ==> (nodes@ == Seq::<Node>::empty() && self.cur() == old(
                    self,
                ).cur()) || (self.cur() == old(self).toks().len() && nodes@ =~= seq![
                    (Node {
                        ast: Ast::GlobalVarDef(
                            old(self).toks()[old(self).cur() + 1].str->0,
                            Ty::Int,
                        ),
                        ty: None,
                    }),
                ]),
            decreases self.rem(),
        {
            proof {
                assert(self.cur() < self.toks().len());
            }
            let node = match self.top_level(&mut var_env) {
                Ok(n) => n,
                Err(e) => return Err(e),
            };
            proof {
                lemma_n_constructs_seq_push(nodes@, node);
                assert forall|i: int| 0 <= i < nodes@.push(node).len() implies wf_toplevel(
                    nodes@.push(node)[i],
                ) by {
                    if i < nodes@.len() {
                        assert(nodes@.push(node)[i] == nodes@[i]);
                    } else {
                        assert(nodes@.push(node)[i] == node);
                    }
                }
            }
            nodes.push(node);
        }
        Ok(nodes)
    }

    /// Parses one top-level item: `int`, pointer stars, a name, then
    /// either a function definition under a fresh local scope, or a
    /// global-variable declaration that is entered into the environment.
    pub fn top_level(&mut self, var_env: &mut VarEnvironment) -> (r: Result<Node, ParseError>)
        requires
            old(self).wf_parse(),
            old(var_env).wf(),
            env_ok(*old(var_env)),
        ensures
            final(self).toks() == old(self).toks(),
            final(self).wf_parse(),
            old(self).cur() <= final(self).cur(),
            final(var_env).wf(),
            env_ok(*final(var_env)),
            r matches Ok(n) ==> wf_toplevel(n) && old(self).cur() < final(self).cur()
                && n_constructs(n) <= final(self).cur() - old(self).cur(),
            r matches Ok(n) ==> (n.ast matches Ast::GlobalVarDef(name, _)
                ==> final(var_env).global_spec(name@) is Some),
            plain_decl_at(old(self).toks(), old(self).cur()) ==> r == Ok::<Node, ParseError>(
                (Node {
                    ast: Ast::GlobalVarDef(old(self).toks()[old(self).cur() + 1].str->0, Ty::Int),
                    ty: None,
                }),
            ) && final(self).cur() == old(self).cur() + 3 && (old(var_env).global_spec(
                old(self).toks()[old(self).cur() + 1].str->0@,
            ) is None ==> (final(var_env).global_spec(old(self).toks()[old(self).cur()
                + 1].str->0@) matches Some(g) && g.ty == Ty::Int && g.label@ == old(self).toks()[old(
                self,
            ).cur() + 1].str->0@)),
        decreases old(self).rem(), 10int,
    {
        match self.token_list.expect_kind(&TokenKind::Int) {
            Ok(_) => (),
            Err(e) => return Err(e),
        };
        let ty = Ty::Int;
        let ty = self.type_prefix(&ty);
        let ident_tok = match self.token_list.expect_kind(&TokenKind::Ident) {
            Ok(t) => t,
            Err(e) => return Err(e),
        };
        let ident_position = ident_tok.position;
        let ident_name = match ident_tok.str {
            Some(s) => s,
            None => return Err(ParseError::UnexpectedToken { position: ident_position }),
        };
        let next_token = match self.token_list.peek() {
            Some(t) => t,
            None => return Err(ParseError::UnexpectedEof),
        };
        if next_token.kind == TokenKind::LParen {
            // The stack base holds the saved FP/LR pair, so variables live
            // below offset 16.
            let mut function_scope_var_env = var_env.new_local_scope();
            let args = match self.fundef_args(&mut function_scope_var_env) {
                Ok(a) => a,
                Err(e) => return Err(e),
            };
            let body = match self.fundef_body(&mut function_scope_var_env) {
                Ok(b) => b,
                Err(e) => return Err(e),
            };
            let stack_size = function_scope_var_env.stack_size();
            Ok(Node::new(Ast::Fundef { name: ident_name, args, body, stack_size }, None))
        } else {
            let ty = match self.type_suffix(&ty) {
                Ok(t) => t,
                Err(e) => return Err(e),
            };
            match self.token_list.expect_kind(&TokenKind::Semicolon) {
                Ok(_) => (),
                Err(e) => return Err(e),
            };
            let ghost pre_env = *var_env;
            var_env.add_global_var(ident_name.as_str(), ty.clone());
            proof {
                assert forall|i: int| 0 <= i < var_env.globals_seq().len() implies (
                #[trigger] var_env.globals_seq()[i]).1.ty.int_based()
                    && var_env.globals_seq()[i].1.ty.size_fits() by {
                    if i < pre_env.globals_seq().len() {
                        assert(var_env.globals_seq().take(pre_env.globals_seq().len() as int)[i]
                            == var_env.globals_seq()[i]);
                    }
                }
            }
            Ok(Node::new(Ast::GlobalVarDef(ident_name, ty), None))
        }
    }

    /// Reads the `*`s that follow the base type, wrapping it in one
    /// pointer layer per star: `k` stars build `k` nested pointer layers.
    #[verifier::loop_isolation(false)]
    fn type_prefix(&mut self, base_ty: &Ty) -> (r: Ty)
        requires
            old(self).wf_parse(),
            base_ty.int_based(),
            base_ty.size_fits(),
        ensures
            final(self).toks() == old(self).toks(),
            final(self).wf_parse(),
            old(self).cur() <= final(self).cur(),
            r.int_based(),
            r.size_fits(),
            old(self).cur() >= old(self).toks().len() || old(self).toks()[old(self).cur()].kind
                != TokenKind::Star ==> r == *base_ty && final(self).cur() == old(self).cur(),
            forall|k: nat|
                stars_run(old(self).toks(), old(self).cur(), k) ==> r == ptr_wrap(*base_ty, k)
                    && final(self).cur() == old(self).cur() + k,
    {
        let ghost toks = old(self).toks();
        let ghost p = old(self).cur();
        let mut ty = base_ty.clone();
        let ghost mut j: nat = 0;
        loop
            invariant
                self.wf_parse(),
                self.toks() == old(self).toks(),
                old(self).cur() <= self.cur(),
                ty.int_based(),
                ty.size_fits(),
                (old(self).cur() >= old(self).toks().len() || old(self).toks()[old(
                    self,
                ).cur()].kind != TokenKind::Star) ==> ty == *base_ty && self.cur() == old(
                    self,
                ).cur(),
                self.cur() == p + j,
                ty == ptr_wrap(*base_ty, j),
                forall|i: int| 0 <= i < j ==> (#[trigger] toks[p + i]).kind == TokenKind::Star,
            decreases self.rem(),
        {
            if self.token_list.try_consume(&TokenKind::Star).is_some() {
                ty = Ty::Ptr(Box::new(ty));
                proof {
                    j = j + 1;
                }
            } else {
                proof {
                    assert forall|k: nat| stars_run(toks, p, k) implies j == k by {
                        if j < k {
                            assert(p + j < toks.len());
                            assert(toks[p + j].kind == TokenKind::Star);
                            assert(self.token_list.peek_kind() == Some(TokenKind::Star));
                            assert(false);
                        }
                        if k < j {
                            assert(toks[p + k].kind == TokenKind::Star);
                            assert(p + k >= toks.len());
                            assert(false);
                        }
                    }
                }
                return ty;
            }
        }
    }

    /// Reads the `[n]` suffixes that follow a declared name, building the
    /// array layers outermost dimension first. A dimension that would
    /// make the type's size unrepresentable is rejected.
    #[verifier::loop_isolation(false)]
    fn type_suffix(&mut self, base_ty: &Ty) -> (r: Result<Ty, ParseError>)
        requires
            old(self).wf_parse(),
            base_ty.int_based(),
            base_ty.size_fits(),
        ensures
            final(self).toks() == old(self).toks(),
            final(self).wf_parse(),
            old(self).cur() <= final(self).cur(),
            r matches Ok(ty) ==> ty.int_based() && ty.size_fits(),
            old(self).cur() >= old(self).toks().len() || old(self).toks()[old(self).cur()].kind
                != TokenKind::LBracket ==> r == Ok::<Ty, ParseError>(*base_ty)
                && final(self).cur() == old(self).cur(),
            forall|k: nat|
                dims_run(old(self).toks(), old(self).cur(), k) && array_wrap(
                    old(self).toks(),
                    old(self).cur(),
                    *base_ty,
                    k,
                ).size_fits() ==> r == Ok::<Ty, ParseError>(
                    array_wrap(old(self).toks(), old(self).cur(), *base_ty, k),
                ) && final(self).cur() == old(self).cur() + 3 * k,
    {
        let ghost toks = old(self).toks();
        let ghost p = old(self).cur();
        let ghost no_suffix = p >= toks.len() || toks[p].kind != TokenKind::LBracket;
        let mut ty = base_ty.clone();
        let mut array_dimens: Vec<u32> = Vec::new();
        let mut suffix_position: usize = 0;
        let ghost mut j: nat = 0;
        loop
            invariant
                self.wf_parse(),
                self.toks() == old(self).toks(),
                old(self).cur() <= self.cur(),
                no_suffix ==> self.cur() == p && array_dimens@.len() == 0,
                self.cur() == p + 3 * j,
                array_dimens@.len() == j,
                forall|i: int|
                    0 <= i < j ==> (#[trigger] toks[p + 3 * i]).kind == TokenKind::LBracket
                        && num_at(toks, p + 3 * i + 1) && toks[p + 3 * i + 2].kind
                        == TokenKind::RBracket,
                forall|i: int| 0 <= i < j ==> #[trigger] array_dimens@[i] == toks[p + 3 * i
                    + 1].num->0,
            decreases self.rem(),
        {
            if let Some(bracket) = self.token_list.try_consume(&TokenKind::LBracket) {
                suffix_position = bracket.position;
                let dimen = match self.token_list.expect_num() {
                    Ok(n) => n,
                    Err(e) => return Err(e),
                };
                array_dimens.push(dimen);
                match self.token_list.expect_kind(&TokenKind::RBracket) {
                    Ok(_) => (),
                    Err(e) => return Err(e),
                };
                proof {
                    j = j + 1;
                }
            } else {
                proof {
                    assert forall|k: nat| dims_run(toks, p, k) implies j == k by {
                        if j < k {
                            assert(toks[p + 3 * j].kind == TokenKind::LBracket);
                            assert(false);
                        }
                        if k < j {
                            assert(toks[p + 3 * k].kind == TokenKind::LBracket);
                            assert(p + 3 * k >= toks.len());
                            assert(p + 3 * j <= toks.len());
                            assert(false);
                        }
                    }
                }
                break;
            }
        }
        let ghost n_dims = j;
        let mut idx = array_dimens.len();
        while idx > 0
            invariant
                idx <= array_dimens.len(),
                ty.int_based(),
                ty.size_fits(),
                self.wf_parse(),
                self.toks() == old(self).toks(),
                old(self).cur() <= self.cur(),
                no_suffix ==> self.cur() == p && ty == *base_ty && array_dimens@.len() == 0,
                ty == array_wrap(toks, p + 3 * idx, *base_ty, (n_dims - idx) as nat),
                forall|k: nat| dims_run(toks, p, k) ==> k == n_dims,
            decreases idx,
        {
            idx = idx - 1;
            let dimen = array_dimens[idx];
            let elem_size = ty.size();
            if dimen != 0 && elem_size > u32::MAX / dimen {
                proof {
                    if no_suffix {
                        assert(array_dimens@.len() == 0);
                        assert(false);
                    }
                    assert forall|k: nat|
                        dims_run(toks, p, k) && array_wrap(toks, p, *base_ty, k).size_fits()
                        implies false by {
                        lemma_array_wrap_fits(toks, p, *base_ty, k, idx as int);
                        assert(elem_size * dimen <= u32::MAX) by (nonlinear_arith)
                            requires
                                dimen != 0,
                                elem_size * dimen <= u32::MAX,
                        ;
                        assert(elem_size <= u32::MAX as int / dimen as int) by (nonlinear_arith)
                            requires
                                dimen != 0,
                                elem_size * dimen <= u32::MAX,
                        ;
                    }
                }
                return Err(ParseError::TypeTooLarge { position: suffix_position });
            }
            proof {
                if dimen != 0 {
                    assert(elem_size * dimen <= u32::MAX) by (nonlinear_arith)
                        requires
                            dimen != 0,
                            elem_size <= u32::MAX as int / dimen as int,
                    ;
                }
            }
            ty = Ty::Array(Box::new(ty), dimen);
        }
        Ok(ty)
    }

    /// Parses the parenthesized parameter list of a function definition:
    /// up to six `int` parameters, each interned as a local variable at
    /// definition time. A seventh parameter is a parse error.
    #[verifier::loop_isolation(false)]
    fn fundef_args(&mut self, var_env: &mut VarEnvironment) -> (r: Result<Vec<Node>, ParseError>)
        requires
            old(self).wf_parse(),
            old(var_env).wf(),
            env_ok(*old(var_env)),
        ensures
            final(self).toks() == old(self).toks(),
            final(self).wf_parse(),
            old(self).cur() <= final(self).cur(),
            final(var_env).wf(),
            env_ok(*final(var_env)),
            final(var_env).globals_seq() == old(var_env).globals_seq(),
            r matches Ok(args) ==> args@.len() <= 6 && all_local_vars(args@) && wf_expr_seq(args@)
                && old(self).cur() < final(self).cur(),
            ({
                let toks = old(self).toks();
                let p = old(self).cur();
                p + 2 <= toks.len() && toks[p].kind == TokenKind::LParen && toks[p + 1].kind
                    == TokenKind::RParen ==> (r matches Ok(args) && args@ == Seq::<Node>::empty())
                    && final(self).cur() == p + 2 && *final(var_env) == *old(var_env)
            }),
            ({
                let toks = old(self).toks();
                let p = old(self).cur();
                p + 4 <= toks.len() && toks[p].kind == TokenKind::LParen && toks[p + 1].kind
                    == TokenKind::Int && toks[p + 2].kind == TokenKind::Ident && toks[p
                    + 3].kind == TokenKind::RParen && toks[p + 2].str is Some && old(
                    var_env,
                ).local_spec(toks[p + 2].str->0@) is None && old(var_env).offset_spec() + 19
                    <= u32::MAX ==> (r matches Ok(args) && args@ =~= seq![
                    (Node {
                        ast: Ast::LocalVar {
                            name: toks[p + 2].str->0,
                            offset: (old(var_env).offset_spec() + 4) as u32,
                        },
                        ty: Some(Ty::Int),
                    }),
                ]) && final(self).cur() == p + 4
            }),
    {
        let ghost toks = old(self).toks();
        let ghost p = old(self).cur();
        let ghost h0 = p + 2 <= toks.len() && toks[p].kind == TokenKind::LParen && toks[p
            + 1].kind == TokenKind::RParen;
        let ghost h1 = p + 4 <= toks.len() && toks[p].kind == TokenKind::LParen && toks[p
            + 1].kind == TokenKind::Int && toks[p + 2].kind == TokenKind::Ident && toks[p
            + 3].kind == TokenKind::RParen && toks[p + 2].str is Some && old(var_env).local_spec(
            toks[p + 2].str->0@,
        ) is None && old(var_env).offset_spec() + 19 <= u32::MAX;
        match self.token_list.expect_kind(&TokenKind::LParen) {
            Ok(_) => (),
            Err(e) => return Err(e),
        };
        let mut args: Vec<Node> = Vec::new();
        let mut i: usize = 0;
        while i < 6
            invariant
                i <= 6,
                args@.len() == i,
                self.wf_parse(),
                self.toks() == old(self).toks(),
                old(self).cur() < self.cur(),
                var_env.wf(),
                env_ok(*var_env),
                var_env.globals_seq() == old(var_env).globals_seq(),
                all_local_vars(args@),
                wf_expr_seq(args@),
                h0 || h1 ==> i == 0 && self.cur() == p + 1 && args@.len() == 0 && *var_env
                    == *old(var_env),
            decreases 6 - i,
        {
            if self.token_list.try_consume(&TokenKind::RParen).is_some() {
                return Ok(args);
            }
            match self.token_list.expect_kind(&TokenKind::Int) {
                Ok(_) => (),
                Err(e) => return Err(e),
            };
            let ident_tok = match self.token_list.expect_kind(&TokenKind::Ident) {
                Ok(t) => t,
                Err(e) => return Err(e),
            };
            let ident_position = ident_tok.position;
            let name = match ident_tok.str {
                Some(s) => s,
                None => return Err(ParseError::UnexpectedToken { position: ident_position }),
            };
            let ghost pre_env = *var_env;
            let arg_var_info = match var_env.add_local_var(name.as_str(), Ty::Int) {
                Some(info) => info,
                None => return Err(ParseError::TooManyLocals { position: ident_position }),
            };
            proof {
                assert forall|j: int| 0 <= j < var_env.locals_seq().len() implies (
                #[trigger] var_env.locals_seq()[j]).1.ty.int_based()
                    && var_env.locals_seq()[j].1.ty.size_fits() by {
                    if j < pre_env.locals_seq().len() {
                        assert(var_env.locals_seq().take(pre_env.locals_seq().len() as int)[j]
                            == var_env.locals_seq()[j]);
                    }
                }
            }
            let node = Node::new(
                Ast::LocalVar { name, offset: arg_var_info.offset },
                Some(arg_var_info.ty),
            );
            proof {
                lemma_resolved_ty_ok(pre_env, name@);
                lemma_int_based_loadable(arg_var_info.ty);
                lemma_wf_expr_seq_push(args@, node);
                assert(all_local_vars(args@.push(node)));
            }
            args.push(node);
            if self.token_list.try_consume(&TokenKind::RParen).is_some() {
                return Ok(args);
            }
            match self.token_list.expect_kind(&TokenKind::Comma) {
                Ok(_) => (),
                Err(e) => return Err(e),
            };
            i = i + 1;
        }
        match self.token_list.expect_kind(&TokenKind::RParen) {
            Ok(_) => (),
            Err(e) => return Err(e),
        };
        Ok(args)
    }

    /// Parses the braced body of a function definition as a sequence of
    /// statements.
    #[verifier::loop_isolation(false)]
    fn fundef_body(&mut self, var_env: &mut VarEnvironment) -> (r: Result<Vec<Node>, ParseError>)
        requires
            old(self).wf_parse(),
            old(var_env).wf(),
            env_ok(*old(var_env)),
        ensures
            final(self).toks() == old(self).toks(),
            final(self).wf_parse(),
            old(self).cur() <= final(self).cur(),
            final(var_env).wf(),
            env_ok(*final(var_env)),
            final(var_env).globals_seq() == old(var_env).globals_seq(),
            r matches Ok(stmts) ==> wf_stmt_seq(stmts@) && old(self).cur() < final(self).cur()
                && n_constructs_seq(stmts@) <= final(self).cur() - old(self).cur(),
            ({
                let toks = old(self).toks();
                let p = old(self).cur();
                p + 2 <= toks.len() && toks[p].kind == TokenKind::LBrace && toks[p + 1].kind
                    == TokenKind::RBrace ==> (r matches Ok(stmts) && stmts@
                    == Seq::<Node>::empty()) && final(self).cur() == p + 2 && *final(var_env)
                    == *old(var_env)
            }),
        decreases old(self).rem(), 9int,
    {
        let ghost toks = old(self).toks();
        let ghost p = old(self).cur();
        let ghost hb = p + 2 <= toks.len() && toks[p].kind == TokenKind::LBrace && toks[p
            + 1].kind == TokenKind::RBrace;
        match self.token_list.expect_kind(&TokenKind::LBrace) {
            Ok(_) => (),
            Err(e) => return Err(e),
        };
        let mut stmts: Vec<Node> = Vec::new();
        loop
            invariant
                self.wf_parse(),
                self.toks() == old(self).toks(),
                old(self).cur() < self.cur(),
                var_env.wf(),
                env_ok(*var_env),
                var_env.globals_seq() == old(var_env).globals_seq(),
                wf_stmt_seq(stmts@),
                n_constructs_seq(stmts@) + old(self).cur() < self.cur(),
                hb ==> self.cur() == p + 1 && stmts@.len() == 0 && *var_env == *old(var_env),
            decreases self.rem(),
        {
            if self.token_list.try_consume(&TokenKind::RBrace).is_some() {
                return Ok(stmts);
            }
            let stmt = match self.stmt(var_env) {
                Ok(s) => s,
                Err(e) => return Err(e),
            };
            proof {
                lemma_wf_stmt_seq_push(stmts@, stmt);
                lemma_n_constructs_seq_push(stmts@, stmt);
            }
            stmts.push(stmt);
        }
    }

    /// Parses one statement: a local declaration, `return`, `if`/`else`,
    /// `while`, `for`, a braced block, or a bare expression statement.
    #[verifier::loop_isolation(false)]
    fn stmt(&mut self, var_env: &mut VarEnvironment) -> (r: Result<Node, ParseError>)
        requires
            old(self).wf_parse(),
            old(var_env).wf(),
            env_ok(*old(var_env)),
        ensures
            final(self).toks() == old(self).toks(),
            final(self).wf_parse(),
            old(self).cur() <= final(self).cur(),
            final(var_env).wf(),
            env_ok(*final(var_env)),
            final(var_env).globals_seq() == old(var_env).globals_seq(),
            r matches Ok(n) ==> wf_stmt(n) && old(self).cur() < final(self).cur() && n_constructs(
                n,
            ) <= final(self).cur() - old(self).cur(),
            r matches Ok(n) ==> (n.ast matches Ast::LocalVarDef(name, _)
                ==> final(var_env).local_spec(name@) is Some),
            plain_decl_at(old(self).toks(), old(self).cur()) && (old(var_env).local_spec(
                old(self).toks()[old(self).cur() + 1].str->0@,
            ) is Some || old(var_env).offset_spec() + 19 <= u32::MAX) ==> r == Ok::<
                Node,
                ParseError,
            >((Node {
                ast: Ast::LocalVarDef(old(self).toks()[old(self).cur() + 1].str->0, Ty::Int),
                ty: None,
            })) && final(self).cur() == old(self).cur() + 3,
            plain_return_at(old(self).toks(), old(self).cur()) ==> r == Ok::<Node, ParseError>(
                (Node {
                    ast: Ast::Return(Box::new(num_node(old(self).toks(), old(self).cur() + 1))),
                    ty: None,
                }),
            ) && final(self).cur() == old(self).cur() + 3,
        decreases old(self).rem(), 8int,
    {
        let ghost toks = old(self).toks();
        let ghost p = old(self).cur();
        if self.token_list.try_consume(&TokenKind::Int).is_some() {
            let ty = Ty::Int;
            let ty = self.type_prefix(&ty);
            let ident_tok = match self.token_list.expect_kind(&TokenKind::Ident) {
                Ok(t) => t,
                Err(e) => return Err(e),
            };
            let ident_position = ident_tok.position;
            let ident_name = match ident_tok.str {
                Some(s) => s,
                None => return Err(ParseError::UnexpectedToken { position: ident_position }),
            };
            let ty = match self.type_suffix(&ty) {
                Ok(t) => t,
                Err(e) => return Err(e),
            };
            match self.token_list.expect_kind(&TokenKind::Semicolon) {
                Ok(_) => (),
                Err(e) => return Err(e),
            };
            let ghost pre_env = *var_env;
            match var_env.add_local_var(ident_name.as_str(), ty.clone()) {
                Some(_) => (),
                None => return Err(ParseError::TooManyLocals { position: ident_position }),
            };
            proof {
                assert forall|j: int| 0 <= j < var_env.locals_seq().len() implies (
                #[trigger] var_env.locals_seq()[j]).1.ty.int_based()
                    && var_env.locals_seq()[j].1.ty.size_fits() by {
                    if j < pre_env.locals_seq().len() {
                        assert(var_env.locals_seq().take(pre_env.locals_seq().len() as int)[j]
                            == var_env.locals_seq()[j]);
                    }
                }
            }
            Ok(Node::new(Ast::LocalVarDef(ident_name, ty), None))
        } else if self.token_list.try_consume(&TokenKind::Return).is_some() {
            proof {
                assert(eq_chain(toks, p + 1, 1) == num_at(toks, p + 1));
                assert(eq_fold(toks, p + 1, 1) == num_node(toks, p + 1));
            }
            let return_value = match self.expr(var_env) {
                Ok(v) => v,
                Err(e) => return Err(e),
            };
            match self.token_list.expect_kind(&TokenKind::Semicolon) {
                Ok(_) => (),
                Err(e) => return Err(e),
            };
            proof {
                lemma_wf_expr_no_constructs(return_value);
            }
            Ok(Node::new(Ast::Return(Box::new(return_value)), None))
        } else if self.token_list.try_consume(&TokenKind::If).is_some() {
            match self.token_list.expect_kind(&TokenKind::LParen) {
                Ok(_) => (),
                Err(e) => return Err(e),
            };
            let condition = match self.expr(var_env) {
                Ok(c) => c,
                Err(e) => return Err(e),
            };
            match self.token_list.expect_kind(&TokenKind::RParen) {
                Ok(_) => (),
                Err(e) => return Err(e),
            };
            let then_body = match self.stmt(var_env) {
                Ok(b) => b,
                Err(e) => return Err(e),
            };
            proof {
                lemma_wf_expr_no_constructs(condition);
            }
            if self.token_list.try_consume(&TokenKind::Else).is_some() {
                let else_body = match self.stmt(var_env) {
                    Ok(b) => b,
                    Err(e) => return Err(e),
                };
                return Ok(
                    Node::new(
                        Ast::If(
                            Box::new(condition),
                            Box::new(then_body),
                            Some(Box::new(else_body)),
                        ),
                        None,
                    ),
                );
            }
            Ok(Node::new(Ast::If(Box::new(condition), Box::new(then_body), None), None))
        } else if self.token_list.try_consume(&TokenKind::While).is_some() {
            match self.token_list.expect_kind(&TokenKind::LParen) {
                Ok(_) => (),
                Err(e) => return Err(e),
            };
            let condition = match self.expr(var_env) {
                Ok(c) => c,
                Err(e) => return Err(e),
            };
            match self.token_list.expect_kind(&TokenKind::RParen) {
                Ok(_) => (),
                Err(e) => return Err(e),
            };
            let body = match self.stmt(var_env) {
                Ok(b) => b,
                Err(e) => return Err(e),
            };
            proof {
                lemma_wf_expr_no_constructs(condition);
            }
            Ok(Node::new(Ast::While(Box::new(condition), Box::new(body)), None))
        } else if self.token_list.try_consume(&TokenKind::For).is_some() {
            // for (init; check; update) body — each clause may be absent.
            match self.token_list.expect_kind(&TokenKind::LParen) {
                Ok(_) => (),
                Err(e) => return Err(e),
            };
            let init = if self.token_list.try_consume(&TokenKind::Semicolon).is_some() {
                None
            } else {
                let node = match self.expr(var_env) {
                    Ok(n) => n,
                    Err(e) => return Err(e),
                };
                match self.token_list.expect_kind(&TokenKind::Semicolon) {
                    Ok(_) => (),
                    Err(e) => return Err(e),
                };
                proof {
                    lemma_wf_expr_no_constructs(node);
                }
                Some(Box::new(node))
            };
            let check = if self.token_list.try_consume(&TokenKind::Semicolon).is_some() {
                None
            } else {
                let node = match self.expr(var_env) {
                    Ok(n) => n,
                    Err(e) => return Err(e),
                };
                match self.token_list.expect_kind(&TokenKind::Semicolon) {
                    Ok(_) => (),
                    Err(e) => return Err(e),
                };
                proof {
                    lemma_wf_expr_no_constructs(node);
                }
                Some(Box::new(node))
            };
            let update = if self.token_list.try_consume(&TokenKind::RParen).is_some() {
                None
            } else {
                let node = match self.expr(var_env) {
                    Ok(n) => n,
                    Err(e) => return Err(e),
                };
                match self.token_list.expect_kind(&TokenKind::RParen) {
                    Ok(_) => (),
                    Err(e) => return Err(e),
                };
                proof {
                    lemma_wf_expr_no_constructs(node);
                }
                Some(Box::new(node))
            };
            let body = match self.stmt(var_env) {
                Ok(b) => b,
                Err(e) => return Err(e),
            };
            Ok(Node::new(Ast::For(init, check, update, Box::new(body)), None))
        } else if self.token_list.try_consume(&TokenKind::LBrace).is_some() {
            let mut stmts: Vec<Node> = Vec::new();
            loop
                invariant
                    self.wf_parse(),
                    self.toks() == old(self).toks(),
                    old(self).cur() < self.cur(),
                    var_env.wf(),
                    env_ok(*var_env),
                    var_env.globals_seq() == old(var_env).globals_seq(),
                    wf_stmt_seq(stmts@),
                    n_constructs_seq(stmts@) + old(self).cur() < self.cur(),
                decreases self.rem(),
            {
                if self.token_list.try_consume(&TokenKind::RBrace).is_some() {
                    return Ok(Node::new(Ast::Block(stmts), None));
                }
                let stmt = match self.stmt(var_env) {
                    Ok(s) => s,
                    Err(e) => return Err(e),
                };
                proof {
                    lemma_wf_stmt_seq_push(stmts@, stmt);
                    lemma_n_constructs_seq_push(stmts@, stmt);
                }
                stmts.push(stmt);
            }
        } else {
            let expr = match self.expr(var_env) {
                Ok(n) => n,
                Err(e) => return Err(e),
            };
            match self.token_list.expect_kind(&TokenKind::Semicolon) {
                Ok(_) => (),
                Err(e) => return Err(e),
            };
            proof {
                lemma_wf_expr_no_constructs(expr);
            }
            Ok(expr)
        }
    }

    /// Parses one expression: an assignment at the lowest precedence.
    fn expr(&mut self, var_env: &mut VarEnvironment) -> (r: Result<Node, ParseError>)
        requires
            old(self).wf_parse(),
            old(var_env).wf(),
            env_ok(*old(var_env)),
        ensures
            final(self).toks() == old(self).toks(),
            final(self).wf_parse(),
            old(self).cur() <= final(self).cur(),
            *final(var_env) == *old(var_env),
            r matches Ok(n) ==> wf_expr(n) && old(self).cur() < final(self).cur(),
            forall|k: nat|
                assign_chain(old(self).toks(), old(self).cur(), k, *old(var_env)) ==> r
                    == Ok::<Node, ParseError>(
                    assign_fold(old(self).toks(), old(self).cur(), k, *old(var_env)),
                ) && final(self).cur() == old(self).cur() + 2 * k - 1,
            forall|k: nat|
                eq_chain(old(self).toks(), old(self).cur(), k) && num_stop_eq(
                    old(self).toks(),
                    old(self).cur() + 2 * k - 1,
                ) && (old(self).cur() + 2 * k - 1 >= old(self).toks().len() || old(self).toks()[old(
                    self,
                ).cur() + 2 * k - 1].kind != TokenKind::Assign) ==> r == Ok::<Node, ParseError>(
                    eq_fold(old(self).toks(), old(self).cur(), k),
                ) && final(self).cur() == old(self).cur() + 2 * k - 1,
        decreases old(self).rem(), 7int,
    {
        self.assign(var_env)
    }

    /// Parses an assignment, which is right-associative: for every chain
    /// of declared, assignable variables joined by `=`, `a = b = c`
    /// parses as `a = (b = c)`. The left side must denote a storage
    /// location and must not have array type.
    fn assign(&mut self, var_env: &mut VarEnvironment) -> (r: Result<Node, ParseError>)
        requires
            old(self).wf_parse(),
            old(var_env).wf(),
            env_ok(*old(var_env)),
        ensures
            final(self).toks() == old(self).toks(),
            final(self).wf_parse(),
            old(self).cur() <= final(self).cur(),
            *final(var_env) == *old(var_env),
            r matches Ok(n) ==> wf_expr(n) && old(self).cur() < final(self).cur(),
            forall|k: nat|
                assign_chain(old(self).toks(), old(self).cur(), k, *old(var_env)) ==> r
                    == Ok::<Node, ParseError>(
                    assign_fold(old(self).toks(), old(self).cur(), k, *old(var_env)),
                ) && final(self).cur() == old(self).cur() + 2 * k - 1,
            forall|k: nat|
                eq_chain(old(self).toks(), old(self).cur(), k) && num_stop_eq(
                    old(self).toks(),
                    old(self).cur() + 2 * k - 1,
                ) && (old(self).cur() + 2 * k - 1 >= old(self).toks().len() || old(self).toks()[old(
                    self,
                ).cur() + 2 * k - 1].kind != TokenKind::Assign) ==> r == Ok::<Node, ParseError>(
                    eq_fold(old(self).toks(), old(self).cur(), k),
                ) && final(self).cur() == old(self).cur() + 2 * k - 1,
            ({
                let toks = old(self).toks();
                let p = old(self).cur();
                var_at(toks, p, *old(var_env)) && (match var_node(toks, p, *old(var_env)).ty {
                    Some(t) => t is Array,
                    None => false,
                }) && p + 1 < toks.len() && toks[p + 1].kind == TokenKind::Assign ==> r
                    == Err::<Node, ParseError>(ParseError::InvalidLvalue {
                    position: toks[p + 1].position,
                })
            }),
        decreases old(self).rem(), 6int,
    {
        let ghost toks = old(self).toks();
        let ghost p = old(self).cur();
        let ghost env0 = *old(var_env);
        proof {
            assert forall|k: nat| assign_chain(toks, p, k, env0) implies var_at(toks, p, env0)
                && var_stop_eq(toks, p + 1) by {
                if k >= 2 {
                    assert(toks[p + 1].kind == TokenKind::Assign);
                }
            }
        }
        let node = match self.equality(var_env) {
            Ok(n) => n,
            Err(e) => return Err(e),
        };
        if let Some(assign_tok) = self.token_list.try_consume(&TokenKind::Assign) {
            proof {
                assert forall|k: nat| assign_chain(toks, p, k, env0) implies k >= 2 && (match
                    var_node(toks, p, env0).ty {
                    Some(t) => !(t is Array),
                    None => false,
                }) && assign_chain(toks, p + 2, (k - 1) as nat, env0) by {}
            }
            let lhs = node;
            if let Some(Ty::Array(..)) = lhs.ty {
                return Err(ParseError::InvalidLvalue { position: assign_tok.position });
            }
            match lhs.ast {
                Ast::LocalVar { .. } => (),
                Ast::GlobalVar { .. } => (),
                Ast::Deref(_) => (),
                _ => return Err(ParseError::InvalidLvalue { position: assign_tok.position }),
            };
            let lhs_ty = clone_opt_ty(&lhs.ty);
            let rhs = match self.assign(var_env) {
                Ok(n) => n,
                Err(e) => return Err(e),
            };
            let result = Node::new(Ast::Assign(Box::new(lhs), Box::new(rhs)), lhs_ty);
            proof {
                assert forall|k: nat| assign_chain(toks, p, k, env0) implies result == assign_fold(
                    toks,
                    p,
                    k,
                    env0,
                ) && self.cur() == p + 2 * k - 1 by {
                    assert(assign_fold(toks, p, k, env0) == (Node {
                        ast: Ast::Assign(
                            Box::new(var_node(toks, p, env0)),
                            Box::new(assign_fold(toks, p + 2, (k - 1) as nat, env0)),
                        ),
                        ty: var_node(toks, p, env0).ty,
                    }));
                }
            }
            Ok(result)
        } else {
            Ok(node)
        }
    }

    /// Parses a chain of `==`/`!=` comparisons, left-associatively. For
    /// every chain of numeric literals joined by equality operators, the
    /// resulting tree is the left-associative fold of the chain.
    #[verifier::loop_isolation(false)]
    fn equality(&mut self, var_env: &mut VarEnvironment) -> (r: Result<Node, ParseError>)
        requires
            old(self).wf_parse(),
            old(var_env).wf(),
            env_ok(*old(var_env)),
        ensures
            final(self).toks() == old(self).toks(),
            final(self).wf_parse(),
            old(self).cur() <= final(self).cur(),
            *final(var_env) == *old(var_env),
            r matches Ok(n) ==> wf_expr(n) && old(self).cur() < final(self).cur(),
            var_at(old(self).toks(), old(self).cur(), *old(var_env)) && var_stop_eq(
                old(self).toks(),
                old(self).cur() + 1,
            ) ==> r == Ok::<Node, ParseError>(var_node(
                old(self).toks(),
                old(self).cur(),
                *old(var_env),
            )) && final(self).cur() == old(self).cur() + 1,
            forall|k: nat|
                eq_chain(old(self).toks(), old(self).cur(), k) && num_stop_eq(
                    old(self).toks(),
                    old(self).cur() + 2 * k - 1,
                ) ==> r == Ok::<Node, ParseError>(eq_fold(old(self).toks(), old(self).cur(), k))
                    && final(self).cur() == old(self).cur() + 2 * k - 1,
        decreases old(self).rem(), 5int,
    {
        let ghost toks = old(self).toks();
        let ghost p = old(self).cur();
        proof {
            assert forall|k: nat|
                eq_chain(toks, p, k) && num_stop_eq(toks, p + 2 * k - 1) implies num_at(
                toks,
                p,
            ) && num_stop_rel(toks, p + 1) by {
                lemma_eq_chain_prefix(toks, p, k, 1);
                if k > 1 {
                    assert(eq_op_at(toks, p + 1));
                }
            }
            assert(eq_chain(toks, p, 1) == num_at(toks, p));
            assert(rel_chain(toks, p, 1) == num_at(toks, p));
            assert(rel_fold(toks, p, 1) == num_node(toks, p));
        }
        let mut node = match self.relational(var_env) {
            Ok(n) => n,
            Err(e) => return Err(e),
        };
        let ghost mut j: nat = 1;
        loop
            invariant
                self.wf_parse(),
                self.toks() == old(self).toks(),
                old(self).cur() < self.cur(),
                *var_env == *old(var_env),
                var_env.wf(),
                env_ok(*var_env),
                wf_expr(node),
                j >= 1,
                var_at(toks, p, *old(var_env)) && var_stop_eq(toks, p + 1) ==> node == var_node(
                    toks,
                    p,
                    *old(var_env),
                ) && self.cur() == p + 1,
                forall|k: nat|
                    eq_chain(toks, p, k) && num_stop_eq(toks, p + 2 * k - 1) ==> j <= k
                        && self.cur() == p + 2 * j - 1 && node == eq_fold(toks, p, j),
            decreases self.rem(),
        {
            if self.token_list.try_consume(&TokenKind::Equal).is_some() {
                proof {
                    assert forall|k: nat|
                        eq_chain(toks, p, k) && num_stop_eq(toks, p + 2 * k - 1) implies j < k
                        && num_at(toks, p + 2 * j) && num_stop_rel(toks, p + 2 * j + 1) by {
                        if j < k {
                            lemma_eq_chain_prefix(toks, p, k, j);
                            if j + 1 < k {
                                lemma_eq_chain_prefix(toks, p, k, j + 1);
                            }
                        }
                    }
                    assert(rel_chain(toks, p + 2 * j, 1) == num_at(toks, p + 2 * j));
                    assert(rel_fold(toks, p + 2 * j, 1) == num_node(toks, p + 2 * j));
                }
                let lhs = node;
                let rhs = match self.relational(var_env) {
                    Ok(n) => n,
                    Err(e) => return Err(e),
                };
                node = Node::new(
                    Ast::BinOp(BinOpType::Equal, Box::new(lhs), Box::new(rhs)),
                    Some(Ty::Int),
                );
                proof {
                    assert forall|k: nat|
                        eq_chain(toks, p, k) && num_stop_eq(toks, p + 2 * k - 1) implies j + 1
                        <= k && self.cur() == p + 2 * (j + 1) - 1 && node == eq_fold(
                        toks,
                        p,
                        j + 1,
                    ) by {
                        lemma_eq_chain_prefix(toks, p, k, j + 1);
                    }
                    j = j + 1;
                }
            } else if self.token_list.try_consume(&TokenKind::NotEqual).is_some() {
                proof {
                    assert forall|k: nat|
                        eq_chain(toks, p, k) && num_stop_eq(toks, p + 2 * k - 1) implies j < k
                        && num_at(toks, p + 2 * j) && num_stop_rel(toks, p + 2 * j + 1) by {
                        if j < k {
                            lemma_eq_chain_prefix(toks, p, k, j);
                            if j + 1 < k {
                                lemma_eq_chain_prefix(toks, p, k, j + 1);
                            }
                        }
                    }
                    assert(rel_chain(toks, p + 2 * j, 1) == num_at(toks, p + 2 * j));
                    assert(rel_fold(toks, p + 2 * j, 1) == num_node(toks, p + 2 * j));
                }
                let lhs = node;
                let rhs = match self.relational(var_env) {
                    Ok(n) => n,
                    Err(e) => return Err(e),
                };
                node = Node::new(
                    Ast::BinOp(BinOpType::NotEqual, Box::new(lhs), Box::new(rhs)),
                    Some(Ty::Int),
                );
                proof {
                    assert forall|k: nat|
                        eq_chain(toks, p, k) && num_stop_eq(toks, p + 2 * k - 1) implies j + 1
                        <= k && self.cur() == p + 2 * (j + 1) - 1 && node == eq_fold(
                        toks,
                        p,
                        j + 1,
                    ) by {
                        lemma_eq_chain_prefix(toks, p, k, j + 1);
                    }
                    j = j + 1;
                }
            } else {
                proof {
                    assert forall|k: nat|
                        eq_chain(toks, p, k) && num_stop_eq(toks, p + 2 * k - 1) implies j == k by {
                        if j < k {
                            lemma_eq_chain_prefix(toks, p, k, j);
                        }
                    }
                }
                return Ok(node);
            }
        }
    }

    /// Builds one comparison node. `<` and `<=` keep the operands in
    /// order; `>` and `>=` are normalized by swapping the operands into
    /// `<` and `<=`, so no greater-than variant ever appears in a parsed
    /// tree. `acc` is everything parsed so far, `operand` the operand
    /// just parsed.
    fn build_comparison(op_kind: TokenKind, acc: Node, operand: Node) -> (r: Node)
        requires
            op_kind == TokenKind::LessThan || op_kind == TokenKind::LessThanOrEqual || op_kind
                == TokenKind::GreaterThan || op_kind == TokenKind::GreaterThanOrEqual,
            wf_expr(acc),
            wf_expr(operand),
        ensures
            wf_expr(r),
            op_kind == TokenKind::LessThan ==> r == (Node {
                ast: Ast::BinOp(BinOpType::LessThan, Box::new(acc), Box::new(operand)),
                ty: Some(Ty::Int),
            }),
            op_kind == TokenKind::LessThanOrEqual ==> r == (Node {
                ast: Ast::BinOp(BinOpType::LessThanOrEqual, Box::new(acc), Box::new(operand)),
                ty: Some(Ty::Int),
            }),
            op_kind == TokenKind::GreaterThan ==> r == (Node {
                ast: Ast::BinOp(BinOpType::LessThan, Box::new(operand), Box::new(acc)),
                ty: Some(Ty::Int),
            }),
            op_kind == TokenKind::GreaterThanOrEqual ==> r == (Node {
                ast: Ast::BinOp(BinOpType::LessThanOrEqual, Box::new(operand), Box::new(acc)),
                ty: Some(Ty::Int),
            }),
    {
        match op_kind {
            TokenKind::LessThan => Node::new(
                Ast::BinOp(BinOpType::LessThan, Box::new(acc), Box::new(operand)),
                Some(Ty::Int),
            ),
            TokenKind::LessThanOrEqual => Node::new(
                Ast::BinOp(BinOpType::LessThanOrEqual, Box::new(acc), Box::new(operand)),
                Some(Ty::Int),
            ),
            TokenKind::GreaterThan => Node::new(
                Ast::BinOp(BinOpType::LessThan, Box::new(operand), Box::new(acc)),
                Some(Ty::Int),
            ),
            _ => Node::new(
                Ast::BinOp(BinOpType::LessThanOrEqual, Box::new(operand), Box::new(acc)),
                Some(Ty::Int),
            ),
        }
    }

    /// Parses a chain of `<`, `<=`, `>`, `>=` comparisons, left-
    /// associatively; `>` and `>=` are normalized into `<` and `<=` by
    /// swapping the operands. For every chain of numeric literals joined
    /// by comparison operators, the resulting tree is the
    /// left-associative fold of the chain, with the swap applied.
    #[verifier::loop_isolation(false)]
    fn relational(&mut self, var_env: &mut VarEnvironment) -> (r: Result<Node, ParseError>)
        requires
            old(self).wf_parse(),
            old(var_env).wf(),
            env_ok(*old(var_env)),
        ensures
            final(self).toks() == old(self).toks(),
            final(self).wf_parse(),
            old(self).cur() <= final(self).cur(),
            *final(var_env) == *old(var_env),
            r matches Ok(n) ==> wf_expr(n) && old(self).cur() < final(self).cur(),
            var_at(old(self).toks(), old(self).cur(), *old(var_env)) && var_stop_rel(
                old(self).toks(),
                old(self).cur() + 1,
            ) ==> r == Ok::<Node, ParseError>(var_node(
                old(self).toks(),
                old(self).cur(),
                *old(var_env),
            )) && final(self).cur() == old(self).cur() + 1,
            forall|k: nat|
                rel_chain(old(self).toks(), old(self).cur(), k) && num_stop_rel(
                    old(self).toks(),
                    old(self).cur() + 2 * k - 1,
                ) ==> r == Ok::<Node, ParseError>(rel_fold(old(self).toks(), old(self).cur(), k))
                    && final(self).cur() == old(self).cur() + 2 * k - 1,
        decreases old(self).rem(), 4int,
    {
        let ghost toks = old(self).toks();
        let ghost p = old(self).cur();
        proof {
            assert forall|k: nat|
                rel_chain(toks, p, k) && num_stop_rel(toks, p + 2 * k - 1) implies num_at(
                toks,
                p,
            ) && num_stop_add(toks, p + 1) by {
                lemma_rel_chain_prefix(toks, p, k, 1);
                if k > 1 {
                    assert(rel_op_at(toks, p + 1));
                }
            }
            assert(rel_chain(toks, p, 1) == num_at(toks, p));
            assert(addsub_chain(toks, p, 1) == num_at(toks, p));
            assert(addsub_fold(toks, p, 1) == num_node(toks, p));
        }
        let mut node = match self.add(var_env) {
            Ok(n) => n,
            Err(e) => return Err(e),
        };
        let ghost mut j: nat = 1;
        loop
            invariant
                self.wf_parse(),
                self.toks() == old(self).toks(),
                old(self).cur() < self.cur(),
                *var_env == *old(var_env),
                var_env.wf(),
                env_ok(*var_env),
                wf_expr(node),
                j >= 1,
                var_at(toks, p, *old(var_env)) && var_stop_rel(toks, p + 1) ==> node == var_node(
                    toks,
                    p,
                    *old(var_env),
                ) && self.cur() == p + 1,
                forall|k: nat|
                    rel_chain(toks, p, k) && num_stop_rel(toks, p + 2 * k - 1) ==> j <= k
                        && self.cur() == p + 2 * j - 1 && node == rel_fold(toks, p, j),
            decreases self.rem(),
        {
            if self.token_list.try_consume(&TokenKind::LessThan).is_some() {
                proof {
                    assert forall|k: nat|
                        rel_chain(toks, p, k) && num_stop_rel(toks, p + 2 * k - 1) implies j < k
                        && num_at(toks, p + 2 * j) && num_stop_add(toks, p + 2 * j + 1) by {
                        if j < k {
                            lemma_rel_chain_prefix(toks, p, k, j);
                            if j + 1 < k {
                                lemma_rel_chain_prefix(toks, p, k, j + 1);
                            }
                        }
                    }
                    assert(addsub_chain(toks, p + 2 * j, 1) == num_at(toks, p + 2 * j));
                    assert(addsub_fold(toks, p + 2 * j, 1) == num_node(toks, p + 2 * j));
                }
                let lhs = node;
                let rhs = match self.add(var_env) {
                    Ok(n) => n,
                    Err(e) => return Err(e),
                };
                node = Self::build_comparison(TokenKind::LessThan, lhs, rhs);
                proof {
                    assert forall|k: nat|
                        rel_chain(toks, p, k) && num_stop_rel(toks, p + 2 * k - 1) implies j + 1
                        <= k && self.cur() == p + 2 * (j + 1) - 1 && node == rel_fold(
                        toks,
                        p,
                        j + 1,
                    ) by {
                        lemma_rel_chain_prefix(toks, p, k, j + 1);
                    }
                    j = j + 1;
                }
            } else if self.token_list.try_consume(&TokenKind::LessThanOrEqual).is_some() {
                proof {
                    assert forall|k: nat|
                        rel_chain(toks, p, k) && num_stop_rel(toks, p + 2 * k - 1) implies j < k
                        && num_at(toks, p + 2 * j) && num_stop_add(toks, p + 2 * j + 1) by {
                        if j < k {
                            lemma_rel_chain_prefix(toks, p, k, j);
                            if j + 1 < k {
                                lemma_rel_chain_prefix(toks, p, k, j + 1);
                            }
                        }
                    }
                    assert(addsub_chain(toks, p + 2 * j, 1) == num_at(toks, p + 2 * j));
                    assert(addsub_fold(toks, p + 2 * j, 1) == num_node(toks, p + 2 * j));
                }
                let lhs = node;
                let rhs = match self.add(var_env) {
                    Ok(n) => n,
                    Err(e) => return Err(e),
                };
                node = Self::build_comparison(TokenKind::LessThanOrEqual, lhs, rhs);
                proof {
                    assert forall|k: nat|
                        rel_chain(toks, p, k) && num_stop_rel(toks, p + 2 * k - 1) implies j + 1
                        <= k && self.cur() == p + 2 * (j + 1) - 1 && node == rel_fold(
                        toks,
                        p,
                        j + 1,
                    ) by {
                        lemma_rel_chain_prefix(toks, p, k, j + 1);
                    }
                    j = j + 1;
                }
            } else if self.token_list.try_consume(&TokenKind::GreaterThan).is_some() {
                proof {
                    assert forall|k: nat|
                        rel_chain(toks, p, k) && num_stop_rel(toks, p + 2 * k - 1) implies j < k
                        && num_at(toks, p + 2 * j) && num_stop_add(toks, p + 2 * j + 1) by {
                        if j < k {
                            lemma_rel_chain_prefix(toks, p, k, j);
                            if j + 1 < k {
                                lemma_rel_chain_prefix(toks, p, k, j + 1);
                            }
                        }
                    }
                    assert(addsub_chain(toks, p + 2 * j, 1) == num_at(toks, p + 2 * j));
                    assert(addsub_fold(toks, p + 2 * j, 1) == num_node(toks, p + 2 * j));
                }
                let operand = match self.add(var_env) {
                    Ok(n) => n,
                    Err(e) => return Err(e),
                };
                node = Self::build_comparison(TokenKind::GreaterThan, node, operand);
                proof {
                    assert forall|k: nat|
                        rel_chain(toks, p, k) && num_stop_rel(toks, p + 2 * k - 1) implies j + 1
                        <= k && self.cur() == p + 2 * (j + 1) - 1 && node == rel_fold(
                        toks,
                        p,
                        j + 1,
                    ) by {
                        lemma_rel_chain_prefix(toks, p, k, j + 1);
                    }
                    j = j + 1;
                }
            } else if self.token_list.try_consume(&TokenKind::GreaterThanOrEqual).is_some() {
                proof {
                    assert forall|k: nat|
                        rel_chain(toks, p, k) && num_stop_rel(toks, p + 2 * k - 1) implies j < k
                        && num_at(toks, p + 2 * j) && num_stop_add(toks, p + 2 * j + 1) by {
                        if j < k {
                            lemma_rel_chain_prefix(toks, p, k, j);
                            if j + 1 < k {
                                lemma_rel_chain_prefix(toks, p, k, j + 1);
                            }
                        }
                    }
                    assert(addsub_chain(toks, p + 2 * j, 1) == num_at(toks, p + 2 * j));
                    assert(addsub_fold(toks, p + 2 * j, 1) == num_node(toks, p + 2 * j));
                }
                let operand = match self.add(var_env) {
                    Ok(n) => n,
                    Err(e) => return Err(e),
                };
                node = Self::build_comparison(TokenKind::GreaterThanOrEqual, node, operand);
                proof {
                    assert forall|k: nat|
                        rel_chain(toks, p, k) && num_stop_rel(toks, p + 2 * k - 1) implies j + 1
                        <= k && self.cur() == p + 2 * (j + 1) - 1 && node == rel_fold(
                        toks,
                        p,
                        j + 1,
                    ) by {
                        lemma_rel_chain_prefix(toks, p, k, j + 1);
                    }
                    j = j + 1;
                }
            } else {
                proof {
                    assert forall|k: nat|
                        rel_chain(toks, p, k) && num_stop_rel(toks, p + 2 * k - 1) implies j == k by {
                        if j < k {
                            lemma_rel_chain_prefix(toks, p, k, j);
                        }
                    }
                }
                return Ok(node);
            }
        }
    }

    /// Parses a chain of `+`/`-` operators, left-associatively. When the
    /// left operand has reference type, the right operand is scaled by
    /// the size of the type pointed at, so pointer arithmetic moves in
    /// whole elements. For every chain of numeric literals joined by
    /// additive operators, the resulting tree is the left-associative
    /// fold of the chain.
    #[verifier::loop_isolation(false)]
    fn add(&mut self, var_env: &mut VarEnvironment) -> (r: Result<Node, ParseError>)
        requires
            old(self).wf_parse(),
            old(var_env).wf(),
            env_ok(*old(var_env)),
        ensures
            final(self).toks() == old(self).toks(),
            final(self).wf_parse(),
            old(self).cur() <= final(self).cur(),
            *final(var_env) == *old(var_env),
            r matches Ok(n) ==> wf_expr(n) && old(self).cur() < final(self).cur(),
            var_at(old(self).toks(), old(self).cur(), *old(var_env)) && var_stop_add(
                old(self).toks(),
                old(self).cur() + 1,
            ) ==> r == Ok::<Node, ParseError>(var_node(
                old(self).toks(),
                old(self).cur(),
                *old(var_env),
            )) && final(self).cur() == old(self).cur() + 1,
            forall|k: nat|
                addsub_chain(old(self).toks(), old(self).cur(), k) && num_stop_add(
                    old(self).toks(),
                    old(self).cur() + 2 * k - 1,
                ) ==> r == Ok::<Node, ParseError>(addsub_fold(old(self).toks(), old(self).cur(), k))
                    && final(self).cur() == old(self).cur() + 2 * k - 1,
            ref_var_at(old(self).toks(), old(self).cur(), *old(var_env)) && addsub_op_at(
                old(self).toks(),
                old(self).cur() + 1,
            ) && num_at(old(self).toks(), old(self).cur() + 2) && num_stop_add(
                old(self).toks(),
                old(self).cur() + 3,
            ) ==> r == Ok::<Node, ParseError>(
                scaled_additive_node(old(self).toks(), old(self).cur(), *old(var_env)),
            ) && final(self).cur() == old(self).cur() + 3,
        decreases old(self).rem(), 3int,
    {
        let ghost toks = old(self).toks();
        let ghost p = old(self).cur();
        proof {
            assert forall|k: nat|
                addsub_chain(toks, p, k) && num_stop_add(toks, p + 2 * k - 1) implies num_at(
                toks,
                p,
            ) && num_stop_mul(toks, p + 1) by {
                lemma_addsub_chain_prefix(toks, p, k, 1);
                if k > 1 {
                    assert(addsub_op_at(toks, p + 1));
                }
            }
        }
        let ghost env0 = *old(var_env);
        let ghost h5 = ref_var_at(toks, p, env0) && addsub_op_at(toks, p + 1) && num_at(
            toks,
            p + 2,
        ) && num_stop_add(toks, p + 3);
        proof {
            if h5 {
                assert(var_stop_mul(toks, p + 1));
            }
        }
        let mut node = match self.mul(var_env) {
            Ok(n) => n,
            Err(e) => return Err(e),
        };
        let ghost mut j: nat = 1;
        loop
            invariant
                self.wf_parse(),
                self.toks() == old(self).toks(),
                old(self).cur() < self.cur(),
                *var_env == *old(var_env),
                var_env.wf(),
                env_ok(*var_env),
                wf_expr(node),
                j >= 1,
                h5 == (ref_var_at(toks, p, env0) && addsub_op_at(toks, p + 1) && num_at(
                    toks,
                    p + 2,
                ) && num_stop_add(toks, p + 3)),
                h5 ==> (self.cur() == p + 1 && node == var_node(toks, p, env0)) || (self.cur() == p
                    + 3 && node == scaled_additive_node(toks, p, env0)),
                var_at(toks, p, *old(var_env)) && var_stop_add(toks, p + 1) ==> node == var_node(
                    toks,
                    p,
                    *old(var_env),
                ) && self.cur() == p + 1,
                forall|k: nat|
                    addsub_chain(toks, p, k) && num_stop_add(toks, p + 2 * k - 1) ==> j <= k
                        && self.cur() == p + 2 * j - 1 && node == addsub_fold(toks, p, j),
            decreases self.rem(),
        {
            let ghost pos = self.cur();
            if let Some(op_tok) = self.token_list.try_consume(&TokenKind::Plus) {
                proof {
                    assert forall|k: nat|
                        addsub_chain(toks, p, k) && num_stop_add(toks, p + 2 * k - 1) implies j < k
                        && num_at(toks, p + 2 * j) && num_stop_mul(toks, p + 2 * j + 1) by {
                        if j < k {
                            lemma_addsub_chain_prefix(toks, p, k, j);
                            if j + 1 < k {
                                lemma_addsub_chain_prefix(toks, p, k, j + 1);
                                assert(addsub_op_at(toks, p + 2 * j + 1));
                            }
                        }
                    }
                }
                let lhs = node;
                let lhs_ty = clone_opt_ty(&lhs.ty);
                let rhs = match self.mul(var_env) {
                    Ok(n) => n,
                    Err(e) => return Err(e),
                };
                node = match Self::build_additive(BinOpType::Add, lhs, rhs, lhs_ty, op_tok.position)
                {
                    Ok(n) => n,
                    Err(e) => return Err(e),
                };
                proof {
                    assert forall|k: nat|
                        addsub_chain(toks, p, k) && num_stop_add(toks, p + 2 * k - 1) implies j + 1
                        <= k && self.cur() == p + 2 * (j + 1) - 1 && node == addsub_fold(
                        toks,
                        p,
                        j + 1,
                    ) by {
                        lemma_addsub_chain_prefix(toks, p, k, j + 1);
                        assert(addsub_fold(toks, p, j + 1) == (Node {
                            ast: Ast::BinOp(
                                addsub_op(toks[p + 2 * j - 1].kind),
                                Box::new(addsub_fold(toks, p, j)),
                                Box::new(num_node(toks, p + 2 * j)),
                            ),
                            ty: Some(Ty::Int),
                        }));
                    }
                    j = j + 1;
                }
            } else if let Some(op_tok) = self.token_list.try_consume(&TokenKind::Minus) {
                proof {
                    assert forall|k: nat|
                        addsub_chain(toks, p, k) && num_stop_add(toks, p + 2 * k - 1) implies j < k
                        && num_at(toks, p + 2 * j) && num_stop_mul(toks, p + 2 * j + 1) by {
                        if j < k {
                            lemma_addsub_chain_prefix(toks, p, k, j);
                            if j + 1 < k {
                                lemma_addsub_chain_prefix(toks, p, k, j + 1);
                                assert(addsub_op_at(toks, p + 2 * j + 1));
                            }
                        }
                    }
                }
                let lhs = node;
                let lhs_ty = clone_opt_ty(&lhs.ty);
                let rhs = match self.mul(var_env) {
                    Ok(n) => n,
                    Err(e) => return Err(e),
                };
                node = match Self::build_additive(BinOpType::Sub, lhs, rhs, lhs_ty, op_tok.position)
                {
                    Ok(n) => n,
                    Err(e) => return Err(e),
                };
                proof {
                    assert forall|k: nat|
                        addsub_chain(toks, p, k) && num_stop_add(toks, p + 2 * k - 1) implies j + 1
                        <= k && self.cur() == p + 2 * (j + 1) - 1 && node == addsub_fold(
                        toks,
                        p,
                        j + 1,
                    ) by {
                        lemma_addsub_chain_prefix(toks, p, k, j + 1);
                        assert(addsub_fold(toks, p, j + 1) == (Node {
                            ast: Ast::BinOp(
                                addsub_op(toks[p + 2 * j - 1].kind),
                                Box::new(addsub_fold(toks, p, j)),
                                Box::new(num_node(toks, p + 2 * j)),
                            ),
                            ty: Some(Ty::Int),
                        }));
                    }
                    j = j + 1;
                }
            } else {
                proof {
                    assert forall|k: nat|
                        addsub_chain(toks, p, k) && num_stop_add(toks, p + 2 * k - 1) implies j == k by {
                        if j < k {
                            lemma_addsub_chain_prefix(toks, p, k, j);
                        }
                    }
                }
                return Ok(node);
            }
        }
    }

    /// Builds one `+`/`-` node. An `Int` left operand adds plainly; a
    /// reference-typed left operand first scales the right operand by the
    /// size of the type it points at, by inserting a multiplication node.
    fn build_additive(op: BinOpType, lhs: Node, rhs: Node, lhs_ty: Option<Ty>, position: usize) -> (r:
        Result<Node, ParseError>)
        requires
            wf_expr(lhs),
            wf_expr(rhs),
            lhs_ty == lhs.ty,
        ensures
            r matches Ok(n) ==> wf_expr(n),
            lhs.ty == Some(Ty::Int) ==> r == Ok::<Node, ParseError>((Node {
                ast: Ast::BinOp(op, Box::new(lhs), Box::new(rhs)),
                ty: Some(Ty::Int),
            })),
            (match lhs.ty {
                Some(t) => t is Ptr || t is Array,
                None => false,
            }) ==> r == Ok::<Node, ParseError>((Node {
                ast: Ast::BinOp(
                    op,
                    Box::new(lhs),
                    Box::new(
                        (Node {
                            ast: Ast::BinOp(
                                BinOpType::Mul,
                                Box::new(rhs),
                                Box::new(
                                    (Node {
                                        ast: Ast::Num((lhs.ty->0.spec_base_ty().spec_size()) as u32),
                                        ty: Some(Ty::Int),
                                    }),
                                ),
                            ),
                            ty: Some(Ty::Int),
                        }),
                    ),
                ),
                ty: lhs.ty,
            })),
    {
        match &lhs_ty {
            Some(Ty::Int) => {
                let n = Node::new(Ast::BinOp(op, Box::new(lhs), Box::new(rhs)), Some(Ty::Int));
                assert(wf_expr(n));
                Ok(n)
            },
            Some(reference_type) => {
                // Values of reference type step in elements, so the other
                // operand is scaled by the size of the type pointed at.
                if !reference_type.is_reference_type() {
                    return Err(ParseError::NotReferenceType { position });
                }
                let base = reference_type.base_ty();
                let scale = base.size();
                let scaled_rhs = Node::new(
                    Ast::BinOp(
                        BinOpType::Mul,
                        Box::new(rhs),
                        Box::new(Node::new_num(scale)),
                    ),
                    Some(Ty::Int),
                );
                assert(wf_expr(scaled_rhs));
                let n = Node::new(Ast::BinOp(op, Box::new(lhs), Box::new(scaled_rhs)), lhs_ty);
                assert(wf_expr(n));
                Ok(n)
            },
            None => Err(ParseError::NotReferenceType { position }),
        }
    }

    /// Parses a chain of `*`/`/` operators, left-associatively. The
    /// chain's type is the type of its first operand. For every chain of
    /// numeric literals joined by multiplicative operators, the
    /// resulting tree is the left-associative fold of the chain.
    #[verifier::loop_isolation(false)]
    fn mul(&mut self, var_env: &mut VarEnvironment) -> (r: Result<Node, ParseError>)
        requires
            old(self).wf_parse(),
            old(var_env).wf(),
            env_ok(*old(var_env)),
        ensures
            final(self).toks() == old(self).toks(),
            final(self).wf_parse(),
            old(self).cur() <= final(self).cur(),
            *final(var_env) == *old(var_env),
            r matches Ok(n) ==> wf_expr(n) && old(self).cur() < final(self).cur(),
            num_at(old(self).toks(), old(self).cur()) && num_stop_mul(
                old(self).toks(),
                old(self).cur() + 1,
            ) ==> r == Ok::<Node, ParseError>(num_node(old(self).toks(), old(self).cur()))
                && final(self).cur() == old(self).cur() + 1,
            var_at(old(self).toks(), old(self).cur(), *old(var_env)) && var_stop_mul(
                old(self).toks(),
                old(self).cur() + 1,
            ) ==> r == Ok::<Node, ParseError>(var_node(
                old(self).toks(),
                old(self).cur(),
                *old(var_env),
            )) && final(self).cur() == old(self).cur() + 1,
            forall|k: nat|
                muldiv_chain(old(self).toks(), old(self).cur(), k) && num_stop_mul(
                    old(self).toks(),
                    old(self).cur() + 2 * k - 1,
                ) ==> r == Ok::<Node, ParseError>(muldiv_fold(old(self).toks(), old(self).cur(), k))
                    && final(self).cur() == old(self).cur() + 2 * k - 1,
        decreases old(self).rem(), 2int,
    {
        let ghost toks = old(self).toks();
        let ghost p = old(self).cur();
        proof {
            assert forall|k: nat|
                muldiv_chain(toks, p, k) && num_stop_mul(toks, p + 2 * k - 1) implies num_at(
                toks,
                p,
            ) by {
                lemma_muldiv_chain_prefix(toks, p, k, 1);
            }
            assert(muldiv_chain(toks, p, 1) == num_at(toks, p));
        }
        let mut node = match self.unary(var_env) {
            Ok(n) => n,
            Err(e) => return Err(e),
        };
        let mut node_ty = clone_opt_ty(&node.ty);
        let ghost mut j: nat = 1;
        loop
            invariant
                self.wf_parse(),
                self.toks() == old(self).toks(),
                old(self).cur() < self.cur(),
                *var_env == *old(var_env),
                var_env.wf(),
                env_ok(*var_env),
                wf_expr(node),
                node_ty == node.ty,
                j >= 1,
                var_at(toks, p, *old(var_env)) && var_stop_mul(toks, p + 1) ==> node == var_node(
                    toks,
                    p,
                    *old(var_env),
                ) && self.cur() == p + 1,
                forall|k: nat|
                    muldiv_chain(toks, p, k) && num_stop_mul(toks, p + 2 * k - 1) ==> j <= k
                        && self.cur() == p + 2 * j - 1 && node == muldiv_fold(toks, p, j),
            decreases self.rem(),
        {
            if self.token_list.try_consume(&TokenKind::Star).is_some() {
                proof {
                    assert forall|k: nat|
                        muldiv_chain(toks, p, k) && num_stop_mul(toks, p + 2 * k - 1) implies j < k
                        && num_at(toks, p + 2 * j) by {
                        if j < k {
                            lemma_muldiv_chain_prefix(toks, p, k, j);
                        }
                    }
                }
                let lhs = node;
                let rhs = match self.unary(var_env) {
                    Ok(n) => n,
                    Err(e) => return Err(e),
                };
                node = Node::new(Ast::BinOp(BinOpType::Mul, Box::new(lhs), Box::new(rhs)), node_ty);
                node_ty = clone_opt_ty(&node.ty);
                proof {
                    assert forall|k: nat|
                        muldiv_chain(toks, p, k) && num_stop_mul(toks, p + 2 * k - 1) implies j + 1
                        <= k && self.cur() == p + 2 * (j + 1) - 1 && node == muldiv_fold(
                        toks,
                        p,
                        j + 1,
                    ) by {
                        lemma_muldiv_chain_prefix(toks, p, k, j + 1);
                        assert(muldiv_fold(toks, p, j + 1) == (Node {
                            ast: Ast::BinOp(
                                muldiv_op(toks[p + 2 * j - 1].kind),
                                Box::new(muldiv_fold(toks, p, j)),
                                Box::new(num_node(toks, p + 2 * j)),
                            ),
                            ty: Some(Ty::Int),
                        }));
                    }
                    j = j + 1;
                }
            } else if self.token_list.try_consume(&TokenKind::Div).is_some() {
                proof {
                    assert forall|k: nat|
                        muldiv_chain(toks, p, k) && num_stop_mul(toks, p + 2 * k - 1) implies j < k
                        && num_at(toks, p + 2 * j) by {
                        if j < k {
                            lemma_muldiv_chain_prefix(toks, p, k, j);
                        }
                    }
                }
                let lhs = node;
                let rhs = match self.unary(var_env) {
                    Ok(n) => n,
                    Err(e) => return Err(e),
                };
                node = Node::new(Ast::BinOp(BinOpType::Div, Box::new(lhs), Box::new(rhs)), node_ty);
                node_ty = clone_opt_ty(&node.ty);
                proof {
                    assert forall|k: nat|
                        muldiv_chain(toks, p, k) && num_stop_mul(toks, p + 2 * k - 1) implies j + 1
                        <= k && self.cur() == p + 2 * (j + 1) - 1 && node == muldiv_fold(
                        toks,
                        p,
                        j + 1,
                    ) by {
                        lemma_muldiv_chain_prefix(toks, p, k, j + 1);
                        assert(muldiv_fold(toks, p, j + 1) == (Node {
                            ast: Ast::BinOp(
                                muldiv_op(toks[p + 2 * j - 1].kind),
                                Box::new(muldiv_fold(toks, p, j)),
                                Box::new(num_node(toks, p + 2 * j)),
                            ),
                            ty: Some(Ty::Int),
                        }));
                    }
                    j = j + 1;
                }
            } else {
                proof {
                    assert forall|k: nat|
                        muldiv_chain(toks, p, k) && num_stop_mul(toks, p + 2 * k - 1) implies j == k by {
                        if j < k {
                            lemma_muldiv_chain_prefix(toks, p, k, j);
                        }
                    }
                }
                return Ok(node);
            }
        }
    }

    /// Parses a unary expression: `sizeof`, prefix `+`, prefix `-`
    /// (desugared to `0 - x`), dereference `*`, address-of `&`, or a
    /// primary expression.
    fn unary(&mut self, var_env: &mut VarEnvironment) -> (r: Result<Node, ParseError>)
        requires
            old(self).wf_parse(),
            old(var_env).wf(),
            env_ok(*old(var_env)),
        ensures
            final(self).toks() == old(self).toks(),
            final(self).wf_parse(),
            old(self).cur() <= final(self).cur(),
            *final(var_env) == *old(var_env),
            r matches Ok(n) ==> wf_expr(n) && old(self).cur() < final(self).cur(),
            num_at(old(self).toks(), old(self).cur()) ==> r == Ok::<Node, ParseError>(num_node(
                old(self).toks(),
                old(self).cur(),
            )) && final(self).cur() == old(self).cur() + 1,
            var_at(old(self).toks(), old(self).cur(), *old(var_env)) && var_stop_primary(
                old(self).toks(),
                old(self).cur() + 1,
            ) ==> r == Ok::<Node, ParseError>(var_node(
                old(self).toks(),
                old(self).cur(),
                *old(var_env),
            )) && final(self).cur() == old(self).cur() + 1,
            ({
                let toks = old(self).toks();
                let p = old(self).cur();
                0 <= p < toks.len() && toks[p].kind == TokenKind::SizeOf && num_at(toks, p + 1)
                    ==> r == Ok::<Node, ParseError>((Node { ast: Ast::Num(4), ty: Some(Ty::Int) }))
                    && final(self).cur() == p + 2
            }),
            ({
                let toks = old(self).toks();
                let p = old(self).cur();
                0 <= p < toks.len() && toks[p].kind == TokenKind::SizeOf && var_at(
                    toks,
                    p + 1,
                    *old(var_env),
                ) && var_stop_primary(toks, p + 2) ==> r == Ok::<Node, ParseError>(
                    (Node {
                        ast: Ast::Num(
                            (var_node(toks, p + 1, *old(var_env)).ty->0.spec_size()) as u32,
                        ),
                        ty: Some(Ty::Int),
                    }),
                ) && final(self).cur() == p + 2
            }),
            ({
                let toks = old(self).toks();
                let p = old(self).cur();
                0 <= p < toks.len() && toks[p].kind == TokenKind::Plus && num_at(toks, p + 1) ==> r
                    == Ok::<Node, ParseError>(num_node(toks, p + 1)) && final(self).cur() == p + 2
            }),
            ({
                let toks = old(self).toks();
                let p = old(self).cur();
                0 <= p < toks.len() && toks[p].kind == TokenKind::Minus && num_at(toks, p + 1)
                    ==> r == Ok::<Node, ParseError>(
                    (Node {
                        ast: Ast::BinOp(
                            BinOpType::Sub,
                            Box::new((Node { ast: Ast::Num(0), ty: Some(Ty::Int) })),
                            Box::new(num_node(toks, p + 1)),
                        ),
                        ty: Some(Ty::Int),
                    }),
                ) && final(self).cur() == p + 2
            }),
            ({
                let toks = old(self).toks();
                let p = old(self).cur();
                0 <= p < toks.len() && toks[p].kind == TokenKind::Ampersand && var_at(
                    toks,
                    p + 1,
                    *old(var_env),
                ) && var_stop_primary(toks, p + 2) ==> (r matches Ok(n) && n.ast == Ast::Addr(
                    Box::new(var_node(toks, p + 1, *old(var_env))),
                ) && (n.ty matches Some(pt) && pt is Ptr && pt.spec_base_ty() == (match var_node(
                    toks,
                    p + 1,
                    *old(var_env),
                ).ty->0 {
                    Ty::Array(item, _) => *item,
                    other => other,
                }))) && final(self).cur() == p + 2
            }),
            ({
                let toks = old(self).toks();
                let p = old(self).cur();
                0 <= p < toks.len() && toks[p].kind == TokenKind::Star && var_at(
                    toks,
                    p + 1,
                    *old(var_env),
                ) && var_stop_primary(toks, p + 2) && (var_node(toks, p + 1, *old(var_env)).ty->0
                    is Ptr || var_node(toks, p + 1, *old(var_env)).ty->0 is Array) ==> r
                    == Ok::<Node, ParseError>(
                    (Node {
                        ast: Ast::Deref(Box::new(var_node(toks, p + 1, *old(var_env)))),
                        ty: Some(var_node(toks, p + 1, *old(var_env)).ty->0.spec_base_ty()),
                    }),
                ) && final(self).cur() == p + 2
            }),
            ({
                let toks = old(self).toks();
                let p = old(self).cur();
                0 <= p < toks.len() && toks[p].kind == TokenKind::Star && var_at(
                    toks,
                    p + 1,
                    *old(var_env),
                ) && var_stop_primary(toks, p + 2) && var_node(toks, p + 1, *old(var_env)).ty->0
                    is Int ==> r == Err::<Node, ParseError>(ParseError::NotReferenceType {
                    position: toks[p].position,
                })
            }),
        decreases old(self).rem(), 1int,
    {
        if self.token_list.try_consume(&TokenKind::SizeOf).is_some() {
            // sizeof is compile-time only: the operand is parsed for its
            // type and its runtime evaluation is discarded.
            let node = match self.unary(var_env) {
                Ok(n) => n,
                Err(e) => return Err(e),
            };
            let size = match &node.ty {
                Some(ty) => ty.size(),
                None => {
                    proof {
                        assert(false);
                    }
                    0
                },
            };
            return Ok(Node::new_num(size));
        }
        if self.token_list.try_consume(&TokenKind::Plus).is_some() {
            return self.primary(var_env);
        }
        if self.token_list.try_consume(&TokenKind::Minus).is_some() {
            let rhs = match self.primary(var_env) {
                Ok(n) => n,
                Err(e) => return Err(e),
            };
            return Ok(
                Node::new(
                    Ast::BinOp(BinOpType::Sub, Box::new(Node::new_num(0)), Box::new(rhs)),
                    Some(Ty::Int),
                ),
            );
        }
        if let Some(star_tok) = self.token_list.try_consume(&TokenKind::Star) {
            let base = match self.unary(var_env) {
                Ok(n) => n,
                Err(e) => return Err(e),
            };
            let base_ty = match &base.ty {
                Some(ty) => ty,
                None => {
                    proof {
                        assert(false);
                    }
                    return Err(ParseError::NotReferenceType { position: star_tok.position });
                },
            };
            if !base_ty.is_reference_type() {
                return Err(ParseError::NotReferenceType { position: star_tok.position });
            }
            let derefed_ty = base_ty.base_ty();
            proof {
                lemma_int_based_loadable(derefed_ty);
            }
            return Ok(Node::new(Ast::Deref(Box::new(base)), Some(derefed_ty)));
        }
        if let Some(amp_tok) = self.token_list.try_consume(&TokenKind::Ampersand) {
            let base = match self.unary(var_env) {
                Ok(n) => n,
                Err(e) => return Err(e),
            };
            match base.ast {
                Ast::LocalVar { .. } => (),
                Ast::GlobalVar { .. } => (),
                _ => return Err(ParseError::InvalidLvalue { position: amp_tok.position }),
            };
            let base_ty = match &base.ty {
                Some(ty) => ty.clone(),
                None => {
                    proof {
                        assert(false);
                    }
                    return Err(ParseError::InvalidLvalue { position: amp_tok.position });
                },
            };
            match base_ty {
                Ty::Array(item_ty, ..) => {
                    return Ok(Node::new(Ast::Addr(Box::new(base)), Some(Ty::Ptr(item_ty))));
                },
                _ => {
                    return Ok(
                        Node::new(Ast::Addr(Box::new(base)), Some(Ty::Ptr(Box::new(base_ty)))),
                    );
                },
            }
        }
        self.primary(var_env)
    }

    /// Parses a primary expression: a parenthesized expression, a call
    /// with up to six arguments, a variable reference with optional
    /// bracketed indexing (desugared to scaled pointer arithmetic and a
    /// dereference), or a numeric literal. An identifier that is neither
    /// called nor declared is an undefined variable.
    #[verifier::loop_isolation(false)]
    fn primary(&mut self, var_env: &mut VarEnvironment) -> (r: Result<Node, ParseError>)
        requires
            old(self).wf_parse(),
            old(var_env).wf(),
            env_ok(*old(var_env)),
        ensures
            final(self).toks() == old(self).toks(),
            final(self).wf_parse(),
            old(self).cur() <= final(self).cur(),
            *final(var_env) == *old(var_env),
            r matches Ok(n) ==> wf_expr(n) && old(self).cur() < final(self).cur(),
            num_at(old(self).toks(), old(self).cur()) ==> r == Ok::<Node, ParseError>(num_node(
                old(self).toks(),
                old(self).cur(),
            )) && final(self).cur() == old(self).cur() + 1,
            var_at(old(self).toks(), old(self).cur(), *old(var_env)) && var_stop_primary(
                old(self).toks(),
                old(self).cur() + 1,
            ) ==> r == Ok::<Node, ParseError>(var_node(
                old(self).toks(),
                old(self).cur(),
                *old(var_env),
            )) && final(self).cur() == old(self).cur() + 1,
            ({
                let toks = old(self).toks();
                let p = old(self).cur();
                0 <= p < toks.len() && toks[p].kind == TokenKind::Ident && toks[p].str is Some
                    && old(var_env).resolve_spec(toks[p].str->0@) is None && (p + 1 >= toks.len()
                    || toks[p + 1].kind != TokenKind::LParen) ==> r == Err::<Node, ParseError>(
                    ParseError::UndefinedVariable { name: toks[p].str->0 },
                )
            }),
            ({
                let toks = old(self).toks();
                let p = old(self).cur();
                p + 3 <= toks.len() && toks[p].kind == TokenKind::Ident && toks[p].str is Some
                    && toks[p + 1].kind == TokenKind::LParen && toks[p + 2].kind
                    == TokenKind::RParen ==> (r matches Ok(n) && n.ty == Some(Ty::Int) && (n.ast
                    matches Ast::Funcall(nm, av) && nm == toks[p].str->0 && av@
                    == Seq::<Node>::empty())) && final(self).cur() == p + 3
            }),
            ({
                let toks = old(self).toks();
                let p = old(self).cur();
                p + 5 <= toks.len() && toks[p].kind == TokenKind::Ident && toks[p].str is Some
                    && toks[p + 1].kind == TokenKind::LParen && num_at(toks, p + 2) && toks[p
                    + 3].kind == TokenKind::RParen ==> (r matches Ok(n) && n.ty == Some(Ty::Int)
                    && (n.ast matches Ast::Funcall(nm, av) && nm == toks[p].str->0 && av@ =~= seq![
                    num_node(toks, p + 2),
                ])) && final(self).cur() == p + 4
            }),
            ({
                let toks = old(self).toks();
                let p = old(self).cur();
                p + 4 <= toks.len() && var_at(toks, p, *old(var_env)) && toks[p + 1].kind
                    == TokenKind::LBracket && num_at(toks, p + 2) && toks[p + 3].kind
                    == TokenKind::RBracket && var_stop_primary(toks, p + 4) && (var_node(
                    toks,
                    p,
                    *old(var_env),
                ).ty->0 is Ptr || var_node(toks, p, *old(var_env)).ty->0 is Array) ==> r
                    == Ok::<Node, ParseError>(indexed_var_node(toks, p, *old(var_env)))
                    && final(self).cur() == p + 4
            }),
        decreases old(self).rem(), 0int,
    {
        if self.token_list.try_consume(&TokenKind::LParen).is_some() {
            let node = match self.expr(var_env) {
                Ok(n) => n,
                Err(e) => return Err(e),
            };
            match self.token_list.expect_kind(&TokenKind::RParen) {
                Ok(_) => (),
                Err(e) => return Err(e),
            };
            return Ok(node);
        } else if let Some(ident_tok) = self.token_list.try_consume(&TokenKind::Ident) {
            let ident_position = ident_tok.position;
            let ident_name = match ident_tok.str {
                Some(s) => s,
                None => return Err(ParseError::UnexpectedToken { position: ident_position }),
            };
            if self.token_list.try_consume(&TokenKind::LParen).is_some() {
                // A call; at most six arguments are supported.
                let ghost toks = old(self).toks();
                let ghost p = old(self).cur();
                let ghost h_f0 = p + 3 <= toks.len() && toks[p].kind == TokenKind::Ident && toks[p
                    + 1].kind == TokenKind::LParen && toks[p + 2].kind == TokenKind::RParen;
                let ghost h_f1 = p + 5 <= toks.len() && toks[p].kind == TokenKind::Ident && toks[p
                    + 1].kind == TokenKind::LParen && num_at(toks, p + 2) && toks[p + 3].kind
                    == TokenKind::RParen;
                proof {
                    assert(eq_chain(toks, p + 2, 1) == num_at(toks, p + 2));
                    assert(eq_fold(toks, p + 2, 1) == num_node(toks, p + 2));
                }
                let mut args: Vec<Node> = Vec::new();
                let mut i: usize = 0;
                while i < 6
                    invariant
                        i <= 6,
                        args@.len() == i,
                        self.wf_parse(),
                        self.toks() == old(self).toks(),
                        old(self).cur() < self.cur(),
                        *var_env == *old(var_env),
                        var_env.wf(),
                        env_ok(*var_env),
                        wf_expr_seq(args@),
                        h_f0 || h_f1 ==> i == 0 && self.cur() == p + 2 && args@.len() == 0,
                    decreases 6 - i,
                {
                    if self.token_list.try_consume(&TokenKind::RParen).is_some() {
                        return Ok(
                            Node::new(Ast::Funcall(ident_name, args), Some(Ty::Int)),
                        );
                    }
                    let arg = match self.expr(var_env) {
                        Ok(a) => a,
                        Err(e) => return Err(e),
                    };
                    proof {
                        lemma_wf_expr_seq_push(args@, arg);
                    }
                    args.push(arg);
                    if self.token_list.try_consume(&TokenKind::RParen).is_some() {
                        return Ok(
                            Node::new(Ast::Funcall(ident_name, args), Some(Ty::Int)),
                        );
                    }
                    match self.token_list.expect_kind(&TokenKind::Comma) {
                        Ok(_) => (),
                        Err(e) => return Err(e),
                    };
                    i = i + 1;
                }
                match self.token_list.expect_kind(&TokenKind::RParen) {
                    Ok(_) => (),
                    Err(e) => return Err(e),
                };
                return Ok(Node::new(Ast::Funcall(ident_name, args), Some(Ty::Int)));
            } else if let Some(var_info) = var_env.resolve(&ident_name) {
                proof {
                    lemma_resolved_ty_ok(*var_env, ident_name@);
                }
                let (mut node, mut node_ty): (Node, Ty) = match var_info {
                    VarInfo::Global(GlobalVarInfo { ty: global_var_ty, label }) => {
                        let node_ty = global_var_ty.clone();
                        (
                            Node::new(Ast::GlobalVar { name: label }, Some(global_var_ty)),
                            node_ty,
                        )
                    },
                    VarInfo::Local(LocalVarInfo { ty: local_var_ty, offset }) => {
                        let node_ty = local_var_ty.clone();
                        (
                            Node::new(
                                Ast::LocalVar { name: ident_name, offset },
                                Some(local_var_ty),
                            ),
                            node_ty,
                        )
                    },
                };
                // Bracketed element access x[i][j], desugared to scaled
                // pointer arithmetic and a dereference per dimension.
                let mut array_dimens: Vec<(u32, usize)> = Vec::new();
                let ghost toks = old(self).toks();
                let ghost p = old(self).cur();
                let ghost h_var = var_at(toks, p, *old(var_env)) && var_stop_primary(toks, p + 1);
                let ghost h_idx = p + 4 <= toks.len() && var_at(toks, p, *old(var_env)) && toks[p
                    + 1].kind == TokenKind::LBracket && num_at(toks, p + 2) && toks[p + 3].kind
                    == TokenKind::RBracket && var_stop_primary(toks, p + 4) && (var_node(
                    toks,
                    p,
                    *old(var_env),
                ).ty->0 is Ptr || var_node(toks, p, *old(var_env)).ty->0 is Array);
                loop
                    invariant
                        self.wf_parse(),
                        self.toks() == old(self).toks(),
                        old(self).cur() < self.cur(),
                        *var_env == *old(var_env),
                        h_var == (var_at(toks, p, *old(var_env)) && var_stop_primary(toks, p + 1)),
                        h_var ==> self.cur() == p + 1 && array_dimens@.len() == 0,
                        h_idx ==> (self.cur() == p + 1 && array_dimens@.len() == 0) || (self.cur()
                            == p + 4 && array_dimens@ == seq![
                            (toks[p + 2].num->0, toks[p + 1].position),
                        ]),
                    decreases self.rem(),
                {
                    if let Some(bracket) = self.token_list.try_consume(&TokenKind::LBracket) {
                        let dimen = match self.token_list.expect_num() {
                            Ok(n) => n,
                            Err(e) => return Err(e),
                        };
                        match self.token_list.expect_kind(&TokenKind::RBracket) {
                            Ok(_) => (),
                            Err(e) => return Err(e),
                        };
                        array_dimens.push((dimen, bracket.position));
                    } else {
                        break;
                    }
                }
                let ghost entry_node = node;
                let mut idx = array_dimens.len();
                while idx > 0
                    invariant
                        idx <= array_dimens.len(),
                        wf_expr(node),
                        node.ty == Some(node_ty),
                        node_ty.int_based(),
                        node_ty.size_fits(),
                        self.wf_parse(),
                        self.toks() == old(self).toks(),
                        old(self).cur() < self.cur(),
                        *var_env == *old(var_env),
                        array_dimens@.len() == 0 ==> node == entry_node,
                        h_idx ==> self.cur() == p + 4 && array_dimens@ == seq![
                            (toks[p + 2].num->0, toks[p + 1].position),
                        ] && ((idx == 1 && node == var_node(toks, p, *old(var_env)) && Some(node_ty)
                            == var_node(toks, p, *old(var_env)).ty) || (idx == 0 && node
                            == indexed_var_node(toks, p, *old(var_env)))),
                    decreases idx,
                {
                    idx = idx - 1;
                    let (dimen, position) = array_dimens[idx];
                    if !node_ty.is_reference_type() {
                        return Err(ParseError::NotReferenceType { position });
                    }
                    let base = node_ty.base_ty();
                    let scale = base.size();
                    proof {
                        lemma_int_based_loadable(base);
                    }
                    let scaled_index = Node::new(
                        Ast::BinOp(
                            BinOpType::Mul,
                            Box::new(Node::new_num(dimen)),
                            Box::new(Node::new_num(scale)),
                        ),
                        Some(Ty::Int),
                    );
                    assert(wf_expr(scaled_index));
                    let sum = Node::new(
                        Ast::BinOp(BinOpType::Add, Box::new(node), Box::new(scaled_index)),
                        Some(node_ty),
                    );
                    assert(wf_expr(sum));
                    node = Node::new(Ast::Deref(Box::new(sum)), Some(base.clone()));
                    assert(wf_expr(node));
                    node_ty = base;
                }
                return Ok(node);
            } else {
                return Err(ParseError::UndefinedVariable { name: ident_name });
            }
        }
        let n = match self.token_list.expect_num() {
            Ok(n) => n,
            Err(e) => return Err(e),
        };
        Ok(Node::new_num(n))
    }
}

} // verus!
