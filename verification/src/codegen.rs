//! The stack-machine code generator. It walks the resolved tree and
//! appends AArch64 assembly text to a growing output string: every
//! expression's instructions leave exactly one value in a 16-byte stack
//! slot, and consumers pop their operands, so the target ABI's 16-byte
//! stack alignment holds after every push and pop without bookkeeping.
//!
//! The only state carried across the pass is a label-index counter,
//! incremented once per control construct, so nested and sibling
//! constructs never share a label, and the name of the enclosing
//! function, which return statements branch through.

use vstd::prelude::*;
use vstd::string::StringExecFns;

use crate::node::{
    lemma_n_constructs_seq_skip, lemma_wf_expr_seq_index, lemma_wf_stmt_seq_index, loadable,
    n_constructs, n_constructs_seq, wf_expr, wf_stmt, wf_toplevel, wf_toplevel_seq, Ast, BinOpType,
    Node,
};
use crate::text::{chars_to_string, spec_decimal, u64_to_chars};
use crate::ty::Ty;

verus! {

/// `new` carries `old` as a prefix: output only ever grows.
#[verifier::opaque]
pub open spec fn extends(new: Seq<char>, old: Seq<char>) -> bool {
    old.len() <= new.len() && forall|i: int| 0 <= i < old.len() ==> new[i] == old[i]
}

/// Appending one more piece regroups to the right.
proof fn lemma_push_piece(base: Seq<char>, acc: Seq<char>, piece: Seq<char>)
    ensures
        (base + acc) + piece == base + (acc + piece),
{
    assert((base + acc) + piece =~= base + (acc + piece));
}

/// Growing by nothing is still growing.
pub broadcast proof fn lemma_extends_refl(a: Seq<char>)
    ensures
        #[trigger] extends(a, a),
{
    reveal(extends);
}

/// Output that grew and then grew again has its first form as a prefix.
pub broadcast proof fn lemma_extends_trans(a: Seq<char>, b: Seq<char>, c: Seq<char>)
    requires
        #[trigger] extends(b, a),
        #[trigger] extends(c, b),
    ensures
        extends(c, a),
{
    reveal(extends);
}

/// The name of the enclosing function, empty when there is none.
pub open spec fn fname_of(o: Option<&String>) -> Seq<char> {
    match o {
        Some(name) => name@,
        None => Seq::empty(),
    }
}

/// The text that pushes a register into a fresh 16-byte stack slot.
pub open spec fn push_text(register: Seq<char>) -> Seq<char> {
    "\tstr "@ + register + ", [sp, #-16]!\n"@
}

/// The text that pops the top 16-byte stack slot into a register.
pub open spec fn pop_text(register: Seq<char>) -> Seq<char> {
    "\tldr "@ + register + ", [sp], #16\n"@
}

/// The text that pushes a variable's address: frame-pointer-relative for
/// a local, page-relative for a global; empty for any other node.
pub open spec fn var_text(node: Node) -> Seq<char> {
    match node.ast {
        Ast::LocalVar { name: _, offset } => "\tmov x0, x29\n"@ + "\tsub x0, x0, #"@
            + spec_decimal(offset as nat) + "\n"@ + push_text("x0"@),
        Ast::GlobalVar { name } => "\tadrp x0, _"@ + name@ + "@GOTPAGE\n"@ + push_text("x0"@),
        _ => Seq::empty(),
    }
}

/// The text that loads the value at the address in x0, sized by the
/// type: a sign-extending 4-byte load for `Int`-sized scalars, an 8-byte
/// load otherwise, and nothing for an array, which decays to the address
/// itself.
pub open spec fn load_text(ty: Option<Ty>) -> Seq<char> {
    match ty {
        Some(t) => if t is Array {
            Seq::empty()
        } else if t.spec_size() == 4 {
            "\tldrsw x0, [x0]\n"@
        } else {
            "\tldr x0, [x0]\n"@
        },
        None => Seq::empty(),
    }
}

/// The text that stores x1 through the address in x0, sized by the type;
/// an array value is its address, stored whole.
pub open spec fn store_text(ty: Option<Ty>) -> Seq<char> {
    match ty {
        Some(t) => if t is Array {
            "\tstr x1, [x0]\n"@
        } else if t.spec_size() == 4 {
            "\tstr w1, [x0]\n"@
        } else {
            "\tstr x1, [x0]\n"@
        },
        None => Seq::empty(),
    }
}

/// The text of one arithmetic or compare-and-set operation over the two
/// popped operands.
pub open spec fn op_text(op: BinOpType) -> Seq<char> {
    match op {
        BinOpType::Add => "\tadd x0, x0, x1\n"@,
        BinOpType::Sub => "\tsub x0, x0, x1\n"@,
        BinOpType::Mul => "\tmul x0, x0, x1\n"@,
        BinOpType::Div => "\tsdiv x0, x0, x1\n"@,
        BinOpType::Equal => "\tcmp x0, x1\n"@ + "\tcset x0, EQ\n"@,
        BinOpType::NotEqual => "\tcmp x0, x1\n"@ + "\tcset x0, NE\n"@,
        BinOpType::LessThan => "\tcmp x0, x1\n"@ + "\tcset x0, LT\n"@,
        BinOpType::LessThanOrEqual => "\tcmp x0, x1\n"@ + "\tcset x0, LE\n"@,
    }
}

/// The text that pops `n` call arguments into the argument registers,
/// highest register first.
pub open spec fn pops_text(n: nat) -> Seq<char>
    decreases n,
{
    if n == 0 {
        Seq::empty()
    } else {
        "\tldr x"@ + spec_decimal((n - 1) as nat) + ", [sp], #16\n"@ + pops_text((n - 1) as nat)
    }
}

/// The text that stores the parameters, from register `i` on, into their
/// local slots with 4-byte stores.
pub open spec fn params_text(args: Seq<Node>, i: nat) -> Seq<char>
    decreases args.len(),
{
    if args.len() == 0 {
        Seq::empty()
    } else {
        (match args[0].ast {
            Ast::LocalVar { name: _, offset } => "\tstur w"@ + spec_decimal(i) + ", [x29, #-"@
                + spec_decimal(offset as nat) + "]\n"@,
            _ => Seq::empty(),
        }) + params_text(args.drop_first(), i + 1)
    }
}

/// The text `gen` emits for one node, by structural recursion, with the
/// label counter at `li` on entry and `fname` the enclosing function.
pub open spec fn gen_text(node: Node, li: int, fname: Seq<char>) -> Seq<char>
    decreases node, 0int,
{
    match node.ast {
        Ast::Num(n) => "\tmov x2, #"@ + spec_decimal(n as nat) + "\n"@ + push_text("x2"@),
        Ast::LocalVarDef(_, _) => Seq::empty(),
        Ast::GlobalVarDef(..) => Seq::empty(),
        Ast::LocalVar { .. } => var_text(node) + pop_text("x0"@) + load_text(node.ty) + push_text(
            "x0"@,
        ),
        Ast::GlobalVar { .. } => var_text(node) + pop_text("x0"@) + load_text(node.ty) + push_text(
            "x0"@,
        ),
        Ast::Addr(base) => var_text(*base),
        Ast::Deref(base) => gen_text(*base, li, fname) + pop_text("x0"@) + load_text(node.ty)
            + push_text("x0"@),
        Ast::Assign(lhs, rhs) => (match lhs.ast {
            Ast::Deref(derefed) => gen_text(*derefed, li, fname),
            _ => var_text(*lhs),
        }) + gen_text(*rhs, li + n_constructs(*lhs), fname) + pop_text("x1"@) + pop_text("x0"@)
            + store_text(rhs.ty) + push_text("x1"@),
        Ast::If(cond, then_body, else_body) => {
            let idx = (li + n_constructs(*cond)) as nat;
            gen_text(*cond, li, fname) + pop_text("x0"@) + "\tcmp x0, #0\n"@ + (match else_body {
                Some(eb) => "\tb.eq .Lelse"@ + spec_decimal(idx) + "\n"@ + gen_text(
                    *then_body,
                    idx + 1 as int,
                    fname,
                ) + "\tb .Lend"@ + spec_decimal(idx) + "\n.Lelse"@ + spec_decimal(idx) + ":\n"@
                    + gen_text(*eb, idx + 1 + n_constructs(*then_body) as int, fname),
                None => "\tb.eq .Lend"@ + spec_decimal(idx) + "\n"@ + gen_text(
                    *then_body,
                    idx + 1 as int,
                    fname,
                ),
            }) + ".Lend"@ + spec_decimal(idx) + ":\n"@
        },
        Ast::While(cond, body) => {
            let idx = li as nat;
            ".Lbegin"@ + spec_decimal(idx) + ":\n"@ + gen_text(*cond, li + 1, fname) + pop_text(
                "x0"@,
            ) + "\tcmp x0, #0\n"@ + "\tb.eq .Lend"@ + spec_decimal(idx) + "\n"@ + gen_text(
                *body,
                li + 1 + n_constructs(*cond),
                fname,
            ) + "\tb .Lbegin"@ + spec_decimal(idx) + "\n.Lend"@ + spec_decimal(idx) + ":\n"@
        },
        Ast::For(init, check, update, body) => {
            let idx = li as nat;
            let nci = match init {
                Some(i0) => n_constructs(*i0),
                None => 0,
            };
            let ncc = match check {
                Some(c0) => n_constructs(*c0),
                None => 0,
            };
            let ncb = n_constructs(*body);
            (match init {
                Some(i0) => gen_text(*i0, li + 1, fname) + pop_text("x0"@),
                None => Seq::empty(),
            }) + ".Lbegin"@ + spec_decimal(idx) + ":\n"@ + (match check {
                Some(c0) => gen_text(*c0, li + 1 + nci, fname),
                None => "\tmov x2, #1\n"@ + push_text("x2"@),
            }) + pop_text("x0"@) + "\tcmp x0, #0\n"@ + "\tb.eq .Lend"@ + spec_decimal(idx) + "\n"@
                + gen_text(*body, li + 1 + nci + ncc, fname) + (match update {
                Some(u0) => gen_text(*u0, li + 1 + nci + ncc + ncb, fname) + pop_text("x0"@),
                None => Seq::empty(),
            }) + "\tb .Lbegin"@ + spec_decimal(idx) + "\n.Lend"@ + spec_decimal(idx) + ":\n"@
        },
        Ast::Block(stmts) => stmts_text(stmts@, li, fname),
        Ast::Funcall(name, args) => exprs_text(args@, li, fname) + pops_text(args@.len()) + "\tbl _"@
            + name@ + "\n"@ + push_text("x0"@),
        Ast::Return(value) => gen_text(*value, li, fname) + pop_text("x0"@) + "\tb .L.return_"@
            + fname + "\n"@,
        Ast::Fundef { name, args, body, stack_size } => "\t.globl _"@ + name@ + "\n\t.p2align 2\n_"@
            + name@ + ":\n"@ + "\tstp x29, x30, [sp, #-16]!\n"@ + "\tmov x29, sp\n"@
            + "\tsub sp, sp, #"@ + spec_decimal(stack_size as nat) + "\n"@ + params_text(args@, 0)
            + exprs_text(body@, li, name@) + ".L.return_"@ + name@ + ":\n"@ + "\tmov sp, x29\n"@
            + "\tldp x29, x30, [sp], #16\n"@ + "\tret\n"@,
        Ast::BinOp(op, lhs, rhs) => gen_text(*lhs, li, fname) + gen_text(
            *rhs,
            li + n_constructs(*lhs),
            fname,
        ) + pop_text("x1"@) + pop_text("x0"@) + op_text(op) + push_text("x0"@),
    }
}

/// The text of a statement sequence inside a block: each statement's
/// text, then a pop discarding its value when it produced one, with the
/// label counter threaded through.
pub open spec fn stmts_text(s: Seq<Node>, li: int, fname: Seq<char>) -> Seq<char>
    decreases s, s.len(),
{
    if s.len() == 0 {
        Seq::empty()
    } else {
        gen_text(s[0], li, fname) + (if s[0].ty is Some {
            pop_text("x0"@)
        } else {
            Seq::empty()
        }) + stmts_text(s.drop_first(), li + n_constructs(s[0]), fname)
    }
}

/// The text of a node sequence generated back to back, with the label
/// counter threaded through: call arguments and function bodies.
pub open spec fn exprs_text(s: Seq<Node>, li: int, fname: Seq<char>) -> Seq<char>
    decreases s, s.len(),
{
    if s.len() == 0 {
        Seq::empty()
    } else {
        gen_text(s[0], li, fname) + exprs_text(s.drop_first(), li + n_constructs(s[0]), fname)
    }
}

/// The text of one top-level item: a function's code, or a storage
/// reservation for a global sized by its type.
pub open spec fn item_text(node: Node, li: int) -> Seq<char> {
    match node.ast {
        Ast::Fundef { name, .. } => gen_text(node, li, name@),
        Ast::GlobalVarDef(name, ty) => ".comm _"@ + name@ + ","@ + spec_decimal(ty.spec_size())
            + "\n"@,
        _ => Seq::empty(),
    }
}

/// The text of the whole program: every item's text in order, with the
/// label counter threaded through.
pub open spec fn program_text(s: Seq<Node>, li: int) -> Seq<char>
    decreases s.len(),
{
    if s.len() == 0 {
        Seq::empty()
    } else {
        item_text(s[0], li) + program_text(s.drop_first(), li + n_constructs(s[0]))
    }
}

/// Splitting a block's statement sequence at `i` splits its text.
proof fn lemma_stmts_text_skip(s: Seq<Node>, i: int, li: int, fname: Seq<char>)
    requires
        0 <= i < s.len(),
    ensures
        stmts_text(s.skip(i), li, fname) == gen_text(s[i], li, fname) + (if s[i].ty is Some {
            pop_text("x0"@)
        } else {
            Seq::empty()
        }) + stmts_text(s.skip(i + 1), li + n_constructs(s[i]), fname),
{
    assert(s.skip(i)[0] == s[i]);
    assert(s.skip(i).drop_first() =~= s.skip(i + 1));
}

/// Splitting a generated node sequence at `i` splits its text.
proof fn lemma_exprs_text_skip(s: Seq<Node>, i: int, li: int, fname: Seq<char>)
    requires
        0 <= i < s.len(),
    ensures
        exprs_text(s.skip(i), li, fname) == gen_text(s[i], li, fname) + exprs_text(
            s.skip(i + 1),
            li + n_constructs(s[i]),
            fname,
        ),
{
    assert(s.skip(i)[0] == s[i]);
    assert(s.skip(i).drop_first() =~= s.skip(i + 1));
}

/// Splitting the program sequence at `i` splits its text.
proof fn lemma_program_text_skip(s: Seq<Node>, i: int, li: int)
    requires
        0 <= i < s.len(),
    ensures
        program_text(s.skip(i), li) == item_text(s[i], li) + program_text(
            s.skip(i + 1),
            li + n_constructs(s[i]),
        ),
{
    assert(s.skip(i)[0] == s[i]);
    assert(s.skip(i).drop_first() =~= s.skip(i + 1));
}

/// Splitting the parameter sequence at `i` splits its text.
proof fn lemma_params_text_skip(s: Seq<Node>, i: int)
    requires
        0 <= i < s.len(),
    ensures
        params_text(s.skip(i), i as nat) == (match s[i].ast {
            Ast::LocalVar { name: _, offset } => "\tstur w"@ + spec_decimal(i as nat)
                + ", [x29, #-"@ + spec_decimal(offset as nat) + "]\n"@,
            _ => Seq::empty(),
        }) + params_text(s.skip(i + 1), (i + 1) as nat),
{
    assert(s.skip(i)[0] == s[i]);
    assert(s.skip(i).drop_first() =~= s.skip(i + 1));
}

/// Appends the decimal spelling of `n` to the output.
fn put_u64(out: &mut String, n: u64)
    ensures
        final(out)@ == old(out)@ + spec_decimal(n as nat),
        extends(final(out)@, old(out)@),
{
    let digits = u64_to_chars(n);
    let s = chars_to_string(&digits);
    out.append(s.as_str());
    proof {
        reveal(extends);
    }
}

/// Appends literal text to the output.
fn put(out: &mut String, s: &str)
    ensures
        final(out)@ == old(out)@ + s@,
        extends(final(out)@, old(out)@),
{
    out.append(s);
    proof {
        reveal(extends);
    }
}

/// The code generator over one parsed program.
pub struct CodeGenerator {
    pub program: Vec<Node>,
}

impl CodeGenerator {
    /// A generator for the given top-level items.
    pub fn new(program: Vec<Node>) -> (r: Self)
        ensures
            r.program == program,
    {
        Self { program }
    }

    /// Emits the whole program: every item's text in order — one label
    /// and body per function, one zero-initialized storage reservation
    /// per global variable — exactly `program_text` of the items.
    #[verifier::loop_isolation(false)]
    pub fn generate(&self) -> (r: String)
        requires
            wf_toplevel_seq(self.program@),
            n_constructs_seq(self.program@) <= u64::MAX,
        ensures
            r@ == program_text(self.program@, 0),
    {
        broadcast use lemma_extends_refl, lemma_extends_trans;

        // Labels must be unique across the whole program, so one counter
        // serves every construct.
        let mut label_index: u64 = 0;
        let mut out = String::new();
        let n = self.program.len();
        proof {
            assert(self.program@.skip(0) =~= self.program@);
        }
        for i in 0..n
            invariant
                n == self.program@.len(),
                wf_toplevel_seq(self.program@),
                label_index + n_constructs_seq(self.program@.skip(i as int)) <= u64::MAX,
                out@ + program_text(self.program@.skip(i as int), label_index as int)
                    == program_text(self.program@, 0),
        {
            proof {
                lemma_n_constructs_seq_skip(self.program@, i as int);
                lemma_program_text_skip(self.program@, i as int, label_index as int);
            }
            let ghost out_before = out@;
            let ghost li_before = label_index as int;
            let stmt = &self.program[i];
            match &stmt.ast {
                Ast::Fundef { name, .. } => {
                    self.gen(stmt, &mut label_index, Some(name), &mut out);
                    proof {
                        assert(item_text(self.program@[i as int], li_before) == gen_text(
                            *stmt,
                            li_before,
                            name@,
                        ));
                    }
                },
                Ast::GlobalVarDef(name, ty) => {
                    put(&mut out, ".comm _");
                    put(&mut out, name.as_str());
                    put(&mut out, ",");
                    put_u64(&mut out, ty.size() as u64);
                    put(&mut out, "\n");
                    proof {
                        assert(out@ =~= out_before + item_text(self.program@[i as int], li_before));
                    }
                },
                _ => {
                    proof {
                        assert(false);
                    }
                },
            }
            proof {
                assert(out_before + program_text(self.program@.skip(i as int), li_before)
                    =~= out@ + program_text(
                    self.program@.skip(i + 1),
                    label_index as int,
                ));
            }
        }
        proof {
            assert(self.program@.skip(n as int) =~= Seq::<Node>::empty());
            assert(out@ + program_text(self.program@.skip(n as int), label_index as int)
                =~= out@);
        }
        out
    }

    /// Emits the instructions of one node. Every well-formed expression
    /// pushes exactly one value; every well-formed statement is
    /// stack-neutral. The label counter advances by exactly one per
    /// control construct in the subtree, so label numbers never repeat,
    /// and the emitted text is exactly `gen_text` of the node.
    #[verifier::rlimit(100)]
    fn gen(
        &self,
        node: &Node,
        label_index: &mut u64,
        current_fn_name: Option<&String>,
        out: &mut String,
    )
        requires
            wf_stmt(*node) || wf_expr(*node) || (node.ast is Fundef && wf_toplevel(*node)),
            current_fn_name is Some,
            *old(label_index) + n_constructs(*node) <= u64::MAX,
        ensures
            extends(final(out)@, old(out)@),
            *final(label_index) == *old(label_index) + n_constructs(*node),
            final(out)@ == old(out)@ + gen_text(
                *node,
                *old(label_index) as int,
                fname_of(current_fn_name),
            ),
        decreases *node, 1int,
    {
        broadcast use lemma_extends_refl, lemma_extends_trans;

        let ghost f = fname_of(current_fn_name);
        let ghost li0 = *old(label_index) as int;
        match &node.ast {
            Ast::Num(n) => {
                put(out, "\tmov x2, #");
                put_u64(out, *n as u64);
                put(out, "\n");
                Self::push_register(out, "x2");
                proof {
                    assert(out@ =~= old(out)@ + gen_text(*node, li0, f));
                }
            },
            Ast::LocalVarDef(_, _) => {
                proof {
                    assert(out@ =~= old(out)@ + gen_text(*node, li0, f));
                }
            },
            Ast::GlobalVarDef(..) => {
                proof {
                    assert(out@ =~= old(out)@ + gen_text(*node, li0, f));
                }
            },
            Ast::LocalVar { .. } => {
                Self::generate_var(node, out);
                Self::pop_register(out, "x0");
                Self::load(&node.ty, out);
                Self::push_register(out, "x0");
                proof {
                    assert(out@ =~= old(out)@ + gen_text(*node, li0, f));
                }
            },
            Ast::GlobalVar { .. } => {
                Self::generate_var(node, out);
                Self::pop_register(out, "x0");
                Self::load(&node.ty, out);
                Self::push_register(out, "x0");
                proof {
                    assert(out@ =~= old(out)@ + gen_text(*node, li0, f));
                }
            },
            Ast::Addr(base_node) => {
                proof {
                    assert(wf_expr(*node));
                    assert(n_constructs(**base_node) == 0);
                }
                Self::generate_var(base_node, out);
                proof {
                    assert(out@ =~= old(out)@ + gen_text(*node, li0, f));
                }
            },
            Ast::Deref(base_node) => {
                self.gen(base_node, label_index, current_fn_name, out);
                Self::pop_register(out, "x0");
                Self::load(&node.ty, out);
                Self::push_register(out, "x0");
                proof {
                    assert(out@ =~= old(out)@ + gen_text(*node, li0, f));
                }
            },
            Ast::Assign(lhs, rhs) => {
                proof {
                    assert(wf_expr(*node));
                }
                self.gen_assign(node, lhs, rhs, label_index, current_fn_name, out);
            },
            Ast::If(condition, then_body, else_body) => {
                let eb: Option<&Node> = match else_body {
                    Some(b) => Some(&**b),
                    None => None,
                };
                self.gen_if(node, condition, then_body, eb, label_index, current_fn_name, out);
            },
            Ast::While(condition, body) => {
                self.gen_while(node, condition, body, label_index, current_fn_name, out);
            },
            Ast::For(init, check, update, body) => {
                let i0: Option<&Node> = match init {
                    Some(b) => Some(&**b),
                    None => None,
                };
                let c0: Option<&Node> = match check {
                    Some(b) => Some(&**b),
                    None => None,
                };
                let u0: Option<&Node> = match update {
                    Some(b) => Some(&**b),
                    None => None,
                };
                self.gen_for(node, i0, c0, u0, body, label_index, current_fn_name, out);
            },
            Ast::Block(stmts) => {
                self.gen_block(node, stmts, label_index, current_fn_name, out);
            },
            Ast::Funcall(name, args) => {
                proof {
                    assert(wf_expr(*node));
                }
                self.gen_funcall(node, name, args, label_index, current_fn_name, out);
            },
            Ast::Return(value) => {
                self.gen(value, label_index, current_fn_name, out);
                Self::pop_register(out, "x0");
                put(out, "\tb .L.return_");
                match current_fn_name {
                    Some(name) => put(out, name.as_str()),
                    None => {
                        proof {
                            assert(false);
                        }
                    },
                };
                put(out, "\n");
                proof {
                    assert(out@ =~= old(out)@ + gen_text(*node, li0, f));
                }
            },
            Ast::Fundef { name, args, body, stack_size } => {
                self.gen_fundef(node, name, args, body, *stack_size, label_index, out);
            },
            Ast::BinOp(op, lhs, rhs) => {
                self.gen(lhs, label_index, current_fn_name, out);
                self.gen(rhs, label_index, current_fn_name, out);
                // The right value arrived second, so it pops first.
                Self::pop_register(out, "x1");
                Self::pop_register(out, "x0");
                match op {
                    BinOpType::Add => put(out, "\tadd x0, x0, x1\n"),
                    BinOpType::Sub => put(out, "\tsub x0, x0, x1\n"),
                    BinOpType::Mul => put(out, "\tmul x0, x0, x1\n"),
                    BinOpType::Div => put(out, "\tsdiv x0, x0, x1\n"),
                    BinOpType::Equal => {
                        put(out, "\tcmp x0, x1\n");
                        put(out, "\tcset x0, EQ\n");
                    },
                    BinOpType::NotEqual => {
                        put(out, "\tcmp x0, x1\n");
                        put(out, "\tcset x0, NE\n");
                    },
                    BinOpType::LessThan => {
                        put(out, "\tcmp x0, x1\n");
                        put(out, "\tcset x0, LT\n");
                    },
                    BinOpType::LessThanOrEqual => {
                        put(out, "\tcmp x0, x1\n");
                        put(out, "\tcset x0, LE\n");
                    },
                }
                Self::push_register(out, "x0");
                proof {
                    assert(out@ =~= old(out)@ + gen_text(*node, li0, f));
                }
            },
        }
    }

    /// Emits one assignment: the left side's address (for a dereference
    /// left side, the pointer operand's value), the right side's value,
    /// a sized store, and the assigned value pushed back as the
    /// expression's result.
    #[verifier::rlimit(100)]
    fn gen_assign(
        &self,
        node: &Node,
        lhs: &Node,
        rhs: &Node,
        label_index: &mut u64,
        current_fn_name: Option<&String>,
        out: &mut String,
    )
        requires
            wf_expr(*node),
            (match node.ast {
                Ast::Assign(l, r) => *l == *lhs && *r == *rhs,
                _ => false,
            }),
            current_fn_name is Some,
            *old(label_index) + n_constructs(*node) <= u64::MAX,
        ensures
            extends(final(out)@, old(out)@),
            *final(label_index) == *old(label_index) + n_constructs(*node),
            final(out)@ == old(out)@ + gen_text(
                *node,
                *old(label_index) as int,
                fname_of(current_fn_name),
            ),
        decreases *node, 0int,
    {
        broadcast use lemma_extends_refl, lemma_extends_trans;

        let ghost f = fname_of(current_fn_name);
        let ghost li0 = *old(label_index) as int;
        proof {
            assert(wf_expr(*lhs));
            assert(wf_expr(*rhs));
            assert(decreases_to!(*node => node.ast));
            assert(decreases_to!(node.ast => node.ast->Assign_0));
            assert(decreases_to!(node.ast => node.ast->Assign_1));
        }
        // The left side contributes an address: a dereference
        // contributes its pointer operand's value, a variable its
        // storage address.
        if let Ast::Deref(derefed_lhs) = &lhs.ast {
            proof {
                assert(wf_expr(**derefed_lhs));
                assert(n_constructs(*lhs) == n_constructs(**derefed_lhs));
                assert(decreases_to!(lhs.ast => lhs.ast->Deref_0));
            }
            self.gen(derefed_lhs, label_index, current_fn_name, out);
        } else {
            proof {
                assert(n_constructs(*lhs) == 0);
            }
            Self::generate_var(lhs, out);
        }
        self.gen(rhs, label_index, current_fn_name, out);
        Self::pop_register(out, "x1");
        Self::pop_register(out, "x0");
        Self::store(&rhs.ty, out);
        // An assignment is itself an expression yielding the
        // assigned value.
        Self::push_register(out, "x1");
        proof {
            assert(out@ =~= old(out)@ + gen_text(*node, li0, f));
        }
    }

    /// Emits one `if`/`else`: the condition's value is popped and
    /// compared against zero; zero branches to the false continuation.
    /// The construct draws one fresh label index.
    #[verifier::rlimit(100)]
    fn gen_if(
        &self,
        node: &Node,
        condition: &Node,
        then_body: &Node,
        else_body: Option<&Node>,
        label_index: &mut u64,
        current_fn_name: Option<&String>,
        out: &mut String,
    )
        requires
            wf_stmt(*node),
            (match node.ast {
                Ast::If(c, t, e) => *c == *condition && *t == *then_body && (match (
                    e,
                    else_body,
                ) {
                    (Some(eb1), Some(eb2)) => *eb1 == *eb2,
                    (None, None) => true,
                    _ => false,
                }),
                _ => false,
            }),
            current_fn_name is Some,
            *old(label_index) + n_constructs(*node) <= u64::MAX,
        ensures
            extends(final(out)@, old(out)@),
            *final(label_index) == *old(label_index) + n_constructs(*node),
            final(out)@ == old(out)@ + gen_text(
                *node,
                *old(label_index) as int,
                fname_of(current_fn_name),
            ),
        decreases *node, 0int,
    {
        broadcast use lemma_extends_refl, lemma_extends_trans;

        let ghost f = fname_of(current_fn_name);
        let ghost li0 = *old(label_index) as int;
        let ghost mut acc: Seq<char> = Seq::empty();
        proof {
            assert(decreases_to!(*node => node.ast));
            assert(decreases_to!(node.ast => node.ast->If_0));
            assert(decreases_to!(node.ast => node.ast->If_1));
            if node.ast->If_2 is Some {
                assert(decreases_to!(node.ast => node.ast->If_2));
                assert(decreases_to!(node.ast->If_2 => node.ast->If_2->0));
            }
        }
        self.gen(condition, label_index, current_fn_name, out);
        Self::pop_register(out, "x0");
        put(out, "\tcmp x0, #0\n");
        proof {
            acc = gen_text(*condition, li0, f) + pop_text("x0"@) + "\tcmp x0, #0\n"@;
            assert(out@ =~= old(out)@ + acc);
        }
        let idx = self.increment_label_index(label_index);
        if let Some(else_body) = else_body {
            put(out, "\tb.eq .Lelse");
            put_u64(out, idx);
            put(out, "\n");
            proof {
                acc = acc + ("\tb.eq .Lelse"@ + spec_decimal(idx as nat) + "\n"@);
                assert(out@ =~= old(out)@ + acc);
            }
            self.gen(then_body, label_index, current_fn_name, out);
            put(out, "\tb .Lend");
            put_u64(out, idx);
            put(out, "\n.Lelse");
            put_u64(out, idx);
            put(out, ":\n");
            proof {
                acc = acc + (gen_text(*then_body, idx as int + 1, f) + ("\tb .Lend"@
                    + spec_decimal(idx as nat) + "\n.Lelse"@ + spec_decimal(idx as nat) + ":\n"@));
                assert(out@ =~= old(out)@ + acc);
            }
            self.gen(else_body, label_index, current_fn_name, out);
            proof {
                acc = acc + gen_text(
                    *else_body,
                    idx as int + 1 + n_constructs(*then_body),
                    f,
                );
                assert(out@ =~= old(out)@ + acc);
            }
        } else {
            put(out, "\tb.eq .Lend");
            put_u64(out, idx);
            put(out, "\n");
            proof {
                acc = acc + ("\tb.eq .Lend"@ + spec_decimal(idx as nat) + "\n"@);
                assert(out@ =~= old(out)@ + acc);
            }
            self.gen(then_body, label_index, current_fn_name, out);
            proof {
                acc = acc + gen_text(*then_body, idx as int + 1, f);
                assert(out@ =~= old(out)@ + acc);
            }
        }
        put(out, ".Lend");
        put_u64(out, idx);
        put(out, ":\n");
        proof {
            acc = acc + (".Lend"@ + spec_decimal(idx as nat) + ":\n"@);
            assert(out@ =~= old(out)@ + acc);
            assert(acc =~= gen_text(*node, li0, f));
            assert(out@ =~= old(out)@ + gen_text(*node, li0, f));
        }
    }

    /// Emits one `while` loop around a fresh begin/end label pair.
    #[verifier::rlimit(100)]
    fn gen_while(
        &self,
        node: &Node,
        condition: &Node,
        body: &Node,
        label_index: &mut u64,
        current_fn_name: Option<&String>,
        out: &mut String,
    )
        requires
            wf_stmt(*node),
            (match node.ast {
                Ast::While(c, b) => *c == *condition && *b == *body,
                _ => false,
            }),
            current_fn_name is Some,
            *old(label_index) + n_constructs(*node) <= u64::MAX,
        ensures
            extends(final(out)@, old(out)@),
            *final(label_index) == *old(label_index) + n_constructs(*node),
            final(out)@ == old(out)@ + gen_text(
                *node,
                *old(label_index) as int,
                fname_of(current_fn_name),
            ),
        decreases *node, 0int,
    {
        broadcast use lemma_extends_refl, lemma_extends_trans;

        let ghost f = fname_of(current_fn_name);
        let ghost li0 = *old(label_index) as int;
        proof {
            assert(decreases_to!(*node => node.ast));
            assert(decreases_to!(node.ast => node.ast->While_0));
            assert(decreases_to!(node.ast => node.ast->While_1));
        }
        let idx = self.increment_label_index(label_index);
        put(out, ".Lbegin");
        put_u64(out, idx);
        put(out, ":\n");
        self.gen(condition, label_index, current_fn_name, out);
        Self::pop_register(out, "x0");
        put(out, "\tcmp x0, #0\n");
        put(out, "\tb.eq .Lend");
        put_u64(out, idx);
        put(out, "\n");
        self.gen(body, label_index, current_fn_name, out);
        put(out, "\tb .Lbegin");
        put_u64(out, idx);
        put(out, "\n.Lend");
        put_u64(out, idx);
        put(out, ":\n");
        proof {
            assert(out@ =~= old(out)@ + gen_text(*node, li0, f));
        }
    }

    /// Emits one `for` loop: the initializer's discarded value, the
    /// begin label, the condition or the literal truth value 1, the
    /// body, the update's discarded value, and the back edge.
    #[verifier::rlimit(100)]
    fn gen_for(
        &self,
        node: &Node,
        init: Option<&Node>,
        check: Option<&Node>,
        update: Option<&Node>,
        body: &Node,
        label_index: &mut u64,
        current_fn_name: Option<&String>,
        out: &mut String,
    )
        requires
            wf_stmt(*node),
            (match node.ast {
                Ast::For(i, c, u, b) => *b == *body && (match (i, init) {
                    (Some(x), Some(y)) => *x == *y,
                    (None, None) => true,
                    _ => false,
                }) && (match (c, check) {
                    (Some(x), Some(y)) => *x == *y,
                    (None, None) => true,
                    _ => false,
                }) && (match (u, update) {
                    (Some(x), Some(y)) => *x == *y,
                    (None, None) => true,
                    _ => false,
                }),
                _ => false,
            }),
            current_fn_name is Some,
            *old(label_index) + n_constructs(*node) <= u64::MAX,
        ensures
            extends(final(out)@, old(out)@),
            *final(label_index) == *old(label_index) + n_constructs(*node),
            final(out)@ == old(out)@ + gen_text(
                *node,
                *old(label_index) as int,
                fname_of(current_fn_name),
            ),
        decreases *node, 0int,
    {
        broadcast use lemma_extends_refl, lemma_extends_trans;

        let ghost f = fname_of(current_fn_name);
        let ghost li0 = *old(label_index) as int;
        let ghost mut acc: Seq<char> = Seq::empty();
        proof {
            assert(decreases_to!(*node => node.ast));
            assert(decreases_to!(node.ast => node.ast->For_3));
            if node.ast->For_0 is Some {
                assert(decreases_to!(node.ast => node.ast->For_0));
                assert(decreases_to!(node.ast->For_0 => node.ast->For_0->0));
            }
            if node.ast->For_1 is Some {
                assert(decreases_to!(node.ast => node.ast->For_1));
                assert(decreases_to!(node.ast->For_1 => node.ast->For_1->0));
            }
            if node.ast->For_2 is Some {
                assert(decreases_to!(node.ast => node.ast->For_2));
                assert(decreases_to!(node.ast->For_2 => node.ast->For_2->0));
            }
            assert(out@ =~= old(out)@ + acc);
        }
        let ghost nci: nat = match init {
            Some(i0) => n_constructs(*i0),
            None => 0,
        };
        let ghost ncc: nat = match check {
            Some(c0) => n_constructs(*c0),
            None => 0,
        };
        let ghost ncb: nat = n_constructs(*body);
        let idx = self.increment_label_index(label_index);
        if let Some(init) = init {
            self.gen(init, label_index, current_fn_name, out);
            proof {
                lemma_push_piece(old(out)@, acc, gen_text(*init, li0 + 1, f));
                acc = acc + gen_text(*init, li0 + 1, f);
            }
            // The initializer's value is not consumed by anyone.
            Self::pop_register(out, "x0");
            proof {
                lemma_push_piece(old(out)@, acc, pop_text("x0"@));
                acc = acc + pop_text("x0"@);
            }
        }
        put(out, ".Lbegin");
        proof {
            lemma_push_piece(old(out)@, acc, ".Lbegin"@);
            acc = acc + ".Lbegin"@;
        }
        put_u64(out, idx);
        proof {
            lemma_push_piece(old(out)@, acc, spec_decimal(idx as nat));
            acc = acc + spec_decimal(idx as nat);
        }
        put(out, ":\n");
        proof {
            lemma_push_piece(old(out)@, acc, ":\n"@);
            acc = acc + ":\n"@;
        }
        if let Some(check) = check {
            self.gen(check, label_index, current_fn_name, out);
            proof {
                lemma_push_piece(old(out)@, acc, gen_text(*check, li0 + 1 + nci, f));
                acc = acc + gen_text(*check, li0 + 1 + nci, f);
            }
        } else {
            // An absent condition is the literal truth value 1.
            put(out, "\tmov x2, #1\n");
            proof {
                lemma_push_piece(old(out)@, acc, "\tmov x2, #1\n"@);
                acc = acc + "\tmov x2, #1\n"@;
            }
            Self::push_register(out, "x2");
            proof {
                lemma_push_piece(old(out)@, acc, push_text("x2"@));
                acc = acc + push_text("x2"@);
            }
        }
        Self::pop_register(out, "x0");
        proof {
            lemma_push_piece(old(out)@, acc, pop_text("x0"@));
            acc = acc + pop_text("x0"@);
        }
        put(out, "\tcmp x0, #0\n");
        proof {
            lemma_push_piece(old(out)@, acc, "\tcmp x0, #0\n"@);
            acc = acc + "\tcmp x0, #0\n"@;
        }
        put(out, "\tb.eq .Lend");
        proof {
            lemma_push_piece(old(out)@, acc, "\tb.eq .Lend"@);
            acc = acc + "\tb.eq .Lend"@;
        }
        put_u64(out, idx);
        proof {
            lemma_push_piece(old(out)@, acc, spec_decimal(idx as nat));
            acc = acc + spec_decimal(idx as nat);
        }
        put(out, "\n");
        proof {
            lemma_push_piece(old(out)@, acc, "\n"@);
            acc = acc + "\n"@;
        }
        self.gen(body, label_index, current_fn_name, out);
        proof {
            lemma_push_piece(old(out)@, acc, gen_text(*body, li0 + 1 + nci + ncc, f));
            acc = acc + gen_text(*body, li0 + 1 + nci + ncc, f);
        }
        if let Some(update) = update {
            self.gen(update, label_index, current_fn_name, out);
            proof {
                lemma_push_piece(old(out)@, acc, gen_text(*update, li0 + 1 + nci + ncc + ncb, f));
                acc = acc + gen_text(*update, li0 + 1 + nci + ncc + ncb, f);
            }
            // The update's value is not consumed by anyone.
            Self::pop_register(out, "x0");
            proof {
                lemma_push_piece(old(out)@, acc, pop_text("x0"@));
                acc = acc + pop_text("x0"@);
            }
        }
        put(out, "\tb .Lbegin");
        proof {
            lemma_push_piece(old(out)@, acc, "\tb .Lbegin"@);
            acc = acc + "\tb .Lbegin"@;
        }
        put_u64(out, idx);
        proof {
            lemma_push_piece(old(out)@, acc, spec_decimal(idx as nat));
            acc = acc + spec_decimal(idx as nat);
        }
        put(out, "\n.Lend");
        proof {
            lemma_push_piece(old(out)@, acc, "\n.Lend"@);
            acc = acc + "\n.Lend"@;
        }
        put_u64(out, idx);
        proof {
            lemma_push_piece(old(out)@, acc, spec_decimal(idx as nat));
            acc = acc + spec_decimal(idx as nat);
        }
        put(out, ":\n");
        proof {
            lemma_push_piece(old(out)@, acc, ":\n"@);
            acc = acc + ":\n"@;
            assert(out@ == old(out)@ + acc);
            assert(acc =~= gen_text(*node, li0, f));
            assert(out@ =~= old(out)@ + gen_text(*node, li0, f));
        }
    }

    /// Emits one block: each statement in order, popping and discarding
    /// the value of every statement that produced one.
    #[verifier::rlimit(100)]
    #[verifier::loop_isolation(false)]
    fn gen_block(
        &self,
        node: &Node,
        stmts: &Vec<Node>,
        label_index: &mut u64,
        current_fn_name: Option<&String>,
        out: &mut String,
    )
        requires
            wf_stmt(*node),
            (match node.ast {
                Ast::Block(sv) => sv == stmts,
                _ => false,
            }),
            current_fn_name is Some,
            *old(label_index) + n_constructs(*node) <= u64::MAX,
        ensures
            extends(final(out)@, old(out)@),
            *final(label_index) == *old(label_index) + n_constructs(*node),
            final(out)@ == old(out)@ + gen_text(
                *node,
                *old(label_index) as int,
                fname_of(current_fn_name),
            ),
        decreases *node, 0int,
    {
        broadcast use lemma_extends_refl, lemma_extends_trans;

        let ghost f = fname_of(current_fn_name);
        let ghost li0 = *old(label_index) as int;
        let n = stmts.len();
        proof {
            assert(stmts@.skip(0) =~= stmts@);
        }
        for i in 0..n
            invariant
                n == stmts@.len(),
                crate::node::wf_stmt_seq(stmts@),
                *label_index + n_constructs_seq(stmts@.skip(i as int)) <= u64::MAX,
                *label_index == *old(label_index) + n_constructs_seq(stmts@)
                    - n_constructs_seq(stmts@.skip(i as int)),
                extends(out@, old(out)@),
                current_fn_name is Some,
                old(out)@ + stmts_text(stmts@, li0, f) == out@ + stmts_text(
                    stmts@.skip(i as int),
                    *label_index as int,
                    f,
                ),
        {
            proof {
                lemma_n_constructs_seq_skip(stmts@, i as int);
                lemma_wf_stmt_seq_index(stmts@, i as int);
                lemma_stmts_text_skip(stmts@, i as int, *label_index as int, f);
                assert(decreases_to!(*node => node.ast));
                assert(decreases_to!(node.ast => node.ast->Block_0));
                assert(decreases_to!(*stmts => stmts@));
                assert(decreases_to!(stmts@ => stmts@[i as int]));
                assert(decreases_to!(*node => stmts@[i as int]));
            }
            let ghost out_before = out@;
            let ghost li_before = *label_index as int;
            let s = &stmts[i];
            self.gen(s, label_index, current_fn_name, out);
            // Only expression statements leave a value behind; it is
            // popped and discarded.
            if s.ty.is_some() {
                Self::pop_register(out, "x0");
            }
            proof {
                assert(out_before + stmts_text(stmts@.skip(i as int), li_before, f) =~= out@
                    + stmts_text(stmts@.skip(i + 1), *label_index as int, f));
            }
        }
        proof {
            assert(stmts@.skip(n as int) =~= Seq::<Node>::empty());
            assert(out@ + stmts_text(stmts@.skip(n as int), *label_index as int, f) =~= out@);
            assert(out@ =~= old(out)@ + gen_text(*node, li0, f));
        }
    }

    /// Emits one call: the arguments' values in source order, pops into
    /// the argument registers highest first, the branch-and-link, and
    /// the return value pushed from x0.
    #[verifier::rlimit(100)]
    #[verifier::loop_isolation(false)]
    fn gen_funcall(
        &self,
        node: &Node,
        name: &String,
        args: &Vec<Node>,
        label_index: &mut u64,
        current_fn_name: Option<&String>,
        out: &mut String,
    )
        requires
            wf_expr(*node),
            (match node.ast {
                Ast::Funcall(fn_name, av) => fn_name == name && av == args,
                _ => false,
            }),
            current_fn_name is Some,
            *old(label_index) + n_constructs(*node) <= u64::MAX,
        ensures
            extends(final(out)@, old(out)@),
            *final(label_index) == *old(label_index) + n_constructs(*node),
            final(out)@ == old(out)@ + gen_text(
                *node,
                *old(label_index) as int,
                fname_of(current_fn_name),
            ),
        decreases *node, 0int,
    {
        broadcast use lemma_extends_refl, lemma_extends_trans;

        let ghost f = fname_of(current_fn_name);
        let ghost li0 = *old(label_index) as int;
        let n = args.len();
        proof {
            assert(args@.skip(0) =~= args@);
        }
        for i in 0..n
            invariant
                n == args@.len(),
                n <= 6,
                crate::node::wf_expr_seq(args@),
                *label_index + n_constructs_seq(args@.skip(i as int)) <= u64::MAX,
                *label_index == *old(label_index) + n_constructs_seq(args@)
                    - n_constructs_seq(args@.skip(i as int)),
                extends(out@, old(out)@),
                current_fn_name is Some,
                old(out)@ + exprs_text(args@, li0, f) == out@ + exprs_text(
                    args@.skip(i as int),
                    *label_index as int,
                    f,
                ),
        {
            proof {
                lemma_n_constructs_seq_skip(args@, i as int);
                lemma_wf_expr_seq_index(args@, i as int);
                lemma_exprs_text_skip(args@, i as int, *label_index as int, f);
                assert(decreases_to!(*node => node.ast));
                assert(decreases_to!(node.ast => node.ast->Funcall_1));
                assert(decreases_to!(*args => args@));
                assert(decreases_to!(args@ => args@[i as int]));
                assert(decreases_to!(*node => args@[i as int]));
            }
            let ghost out_before = out@;
            let ghost li_before = *label_index as int;
            self.gen(&args[i], label_index, current_fn_name, out);
            proof {
                assert(out_before + exprs_text(args@.skip(i as int), li_before, f) =~= out@
                    + exprs_text(args@.skip(i + 1), *label_index as int, f));
            }
        }
        proof {
            assert(args@.skip(n as int) =~= Seq::<Node>::empty());
            assert(out@ + exprs_text(args@.skip(n as int), *label_index as int, f) =~= out@);
            assert(out@ =~= old(out)@ + exprs_text(args@, li0, f));
        }
        let ghost out_args = out@;
        let mut i = n;
        while i > 0
            invariant
                i <= n,
                n <= 6,
                extends(out@, old(out)@),
                out_args + pops_text(n as nat) == out@ + pops_text(i as nat),
            decreases i,
        {
            let ghost out_before = out@;
            i = i - 1;
            put(out, "\tldr x");
            put_u64(out, i as u64);
            put(out, ", [sp], #16\n");
            proof {
                assert(out_before + pops_text((i + 1) as nat) =~= out@ + pops_text(i as nat));
            }
        }
        proof {
            assert(out@ + pops_text(0) =~= out@);
            assert(out@ =~= out_args + pops_text(n as nat));
        }
        put(out, "\tbl _");
        put(out, name.as_str());
        put(out, "\n");
        // The callee's return value arrives in x0.
        Self::push_register(out, "x0");
        proof {
            assert(out@ =~= old(out)@ + gen_text(*node, li0, f));
        }
    }

    /// Emits one function definition: a globally visible aligned label,
    /// the prologue saving the FP/LR pair and reserving the resolved
    /// frame, 4-byte parameter stores, the body, and the shared return
    /// label with the one copy of the epilogue.
    #[verifier::rlimit(100)]
    #[verifier::loop_isolation(false)]
    fn gen_fundef(
        &self,
        node: &Node,
        name: &String,
        args: &Vec<Node>,
        body: &Vec<Node>,
        stack_size: u32,
        label_index: &mut u64,
        out: &mut String,
    )
        requires
            wf_toplevel(*node),
            (match node.ast {
                Ast::Fundef { name: fn_name, args: av, body: bv, stack_size: sz } => fn_name == name
                    && av == args && bv == body && sz == stack_size,
                _ => false,
            }),
            *old(label_index) + n_constructs(*node) <= u64::MAX,
        ensures
            extends(final(out)@, old(out)@),
            *final(label_index) == *old(label_index) + n_constructs(*node),
            final(out)@ == old(out)@ + gen_text(*node, *old(label_index) as int, Seq::empty()),
        decreases *node, 0int,
    {
        broadcast use lemma_extends_refl, lemma_extends_trans;

        let ghost li0 = *old(label_index) as int;
        put(out, "\t.globl _");
        put(out, name.as_str());
        put(out, "\n\t.p2align 2\n_");
        put(out, name.as_str());
        put(out, ":\n");
        // Prologue: save the caller's FP/LR pair, establish the new
        // frame pointer, reserve the frame.
        put(out, "\tstp x29, x30, [sp, #-16]!\n");
        put(out, "\tmov x29, sp\n");
        put(out, "\tsub sp, sp, #");
        put_u64(out, stack_size as u64);
        put(out, "\n");
        // Each parameter arrives in an argument register and is stored
        // into its local slot.
        let ghost out_prologue = out@;
        let n_args = args.len();
        proof {
            assert(args@.skip(0) =~= args@);
        }
        let mut i: usize = 0;
        while i < n_args
            invariant
                i <= n_args,
                n_args == args@.len(),
                n_args <= 6,
                crate::node::all_local_vars(args@),
                extends(out@, old(out)@),
                out_prologue + params_text(args@, 0) == out@ + params_text(
                    args@.skip(i as int),
                    i as nat,
                ),
            decreases n_args - i,
        {
            proof {
                lemma_params_text_skip(args@, i as int);
            }
            let ghost out_before = out@;
            match &args[i].ast {
                Ast::LocalVar { offset, .. } => {
                    // Parameters are 4-byte integers, so a 4-byte store
                    // keeps neighbouring slots intact.
                    put(out, "\tstur w");
                    put_u64(out, i as u64);
                    put(out, ", [x29, #-");
                    put_u64(out, *offset as u64);
                    put(out, "]\n");
                },
                _ => {
                    proof {
                        assert(false);
                    }
                },
            }
            i = i + 1;
            proof {
                assert(out_before + params_text(args@.skip(i - 1), (i - 1) as nat) =~= out@
                    + params_text(args@.skip(i as int), i as nat));
            }
        }
        proof {
            assert(args@.skip(n_args as int) =~= Seq::<Node>::empty());
            assert(out@ + params_text(args@.skip(n_args as int), n_args as nat) =~= out@);
            assert(out@ =~= out_prologue + params_text(args@, 0));
        }
        let ghost out_params = out@;
        let n = body.len();
        proof {
            assert(body@.skip(0) =~= body@);
        }
        for i in 0..n
            invariant
                n == body@.len(),
                crate::node::wf_stmt_seq(body@),
                *label_index + n_constructs_seq(body@.skip(i as int)) <= u64::MAX,
                *label_index == *old(label_index) + n_constructs_seq(body@)
                    - n_constructs_seq(body@.skip(i as int)),
                extends(out@, old(out)@),
                out_params + exprs_text(body@, li0, name@) == out@ + exprs_text(
                    body@.skip(i as int),
                    *label_index as int,
                    name@,
                ),
        {
            proof {
                lemma_n_constructs_seq_skip(body@, i as int);
                lemma_wf_stmt_seq_index(body@, i as int);
                lemma_exprs_text_skip(body@, i as int, *label_index as int, name@);
                assert(decreases_to!(*node => node.ast));
                assert(decreases_to!(node.ast => node.ast->Fundef_body));
                assert(decreases_to!(*body => body@));
                assert(decreases_to!(body@ => body@[i as int]));
                assert(decreases_to!(*node => body@[i as int]));
            }
            let ghost out_before = out@;
            let ghost li_before = *label_index as int;
            self.gen(&body[i], label_index, Some(name), out);
            proof {
                assert(out_before + exprs_text(body@.skip(i as int), li_before, name@) =~= out@
                    + exprs_text(body@.skip(i + 1), *label_index as int, name@));
            }
        }
        proof {
            assert(body@.skip(n as int) =~= Seq::<Node>::empty());
            assert(out@ + exprs_text(body@.skip(n as int), *label_index as int, name@) =~= out@);
            assert(out@ =~= out_params + exprs_text(body@, li0, name@));
        }
        // The shared return label and the one copy of the epilogue.
        put(out, ".L.return_");
        put(out, name.as_str());
        put(out, ":\n");
        put(out, "\tmov sp, x29\n");
        put(out, "\tldp x29, x30, [sp], #16\n");
        put(out, "\tret\n");
        proof {
            assert(out@ =~= old(out)@ + gen_text(*node, li0, Seq::empty()));
        }
    }

    /// Hands out the next fresh label index: the counter's current value,
    /// advancing the counter, so no two constructs share an index.
    pub fn increment_label_index(&self, label_index: &mut u64) -> (idx: u64)
        requires
            *old(label_index) < u64::MAX,
        ensures
            idx == *old(label_index),
            *final(label_index) == *old(label_index) + 1,
    {
        let idx = *label_index;
        *label_index += 1;
        idx
    }

    /// Pushes the address of a variable: frame-pointer-relative for a
    /// local, page-relative for a global.
    fn generate_var(node: &Node, out: &mut String)
        requires
            node.ast is LocalVar || node.ast is GlobalVar,
        ensures
            final(out)@ == old(out)@ + var_text(*node),
            extends(final(out)@, old(out)@),
    {
        broadcast use lemma_extends_refl, lemma_extends_trans;

        match &node.ast {
            Ast::LocalVar { offset, .. } => {
                put(out, "\tmov x0, x29\n");
                put(out, "\tsub x0, x0, #");
                put_u64(out, *offset as u64);
                put(out, "\n");
                Self::push_register(out, "x0");
            },
            Ast::GlobalVar { name } => {
                put(out, "\tadrp x0, _");
                put(out, name.as_str());
                put(out, "@GOTPAGE\n");
                Self::push_register(out, "x0");
            },
            _ => {
                proof {
                    assert(false);
                }
            },
        }
    }

    /// Loads the value at the address in x0, sized by the type: a 4-byte
    /// sign-extending load for `Int`-sized scalars, an 8-byte load
    /// otherwise. An array is not loaded: it decays to the address
    /// itself.
    fn load(ty: &Option<Ty>, out: &mut String)
        requires
            loadable(*ty),
        ensures
            final(out)@ == old(out)@ + load_text(*ty),
            extends(final(out)@, old(out)@),
    {
        broadcast use lemma_extends_refl, lemma_extends_trans;

        match ty {
            Some(Ty::Array(..)) => {
                // The address itself is the value.
            },
            Some(non_array_ty) => {
                let size = non_array_ty.size();
                if size == 4 {
                    put(out, "\tldrsw x0, [x0]\n");
                } else {
                    put(out, "\tldr x0, [x0]\n");
                }
            },
            None => {
                proof {
                    assert(false);
                }
            },
        }
    }

    /// Stores x1 through the address in x0, sized by the type; an array
    /// value is its address, stored whole.
    fn store(ty: &Option<Ty>, out: &mut String)
        requires
            loadable(*ty),
        ensures
            final(out)@ == old(out)@ + store_text(*ty),
            extends(final(out)@, old(out)@),
    {
        broadcast use lemma_extends_refl, lemma_extends_trans;

        match ty {
            Some(Ty::Array(..)) => {
                put(out, "\tstr x1, [x0]\n");
            },
            Some(non_array_ty) => {
                let size = non_array_ty.size();
                if size == 4 {
                    put(out, "\tstr w1, [x0]\n");
                } else {
                    put(out, "\tstr x1, [x0]\n");
                }
            },
            None => {
                proof {
                    assert(false);
                }
            },
        }
    }

    /// Stores a register into a fresh 16-byte stack slot, advancing the
    /// stack pointer.
    fn push_register(out: &mut String, register: &str)
        ensures
            final(out)@ == old(out)@ + push_text(register@),
            extends(final(out)@, old(out)@),
    {
        broadcast use lemma_extends_trans;

        put(out, "\tstr ");
        put(out, register);
        put(out, ", [sp, #-16]!\n");
    }

    /// Pops the top 16-byte stack slot into a register.
    fn pop_register(out: &mut String, register: &str)
        ensures
            final(out)@ == old(out)@ + pop_text(register@),
            extends(final(out)@, old(out)@),
    {
        broadcast use lemma_extends_trans;

        put(out, "\tldr ");
        put(out, register);
        put(out, ", [sp], #16\n");
    }
}

} // verus!
