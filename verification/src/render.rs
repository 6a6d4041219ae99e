//! The text form of the syntax tree.
//!
//! A number is written as it was read. A string is written between double
//! quotes with the escapes that the tokenizer reads, so that the tokenizer
//! reads the same string back. An operation is written in parentheses, a block
//! and an argument list as its items separated by `, `. The text is for people
//! to read: but for the literals it is not meant to be compiled again.

use crate::ast::{
    binary_view, expr_views, var_def_views, Block, Expr, ExprView, Ident, IdentView, Operation,
    VarDef, VarDefView,
};
use crate::symbol::BinaryKind;
use crate::text::chars_of;
use vstd::prelude::*;
use vstd::string::StringExecFns;

verus! {

/// How a character is written inside a string literal.
pub open spec fn escape_char(c: char) -> Seq<char> {
    if c == '"' {
        seq!['\\', '"']
    } else if c == '\\' {
        seq!['\\', '\\']
    } else if c == '\n' {
        seq!['\\', 'n']
    } else if c == '\r' {
        seq!['\\', 'r']
    } else if c == '\t' {
        seq!['\\', 't']
    } else if c == '\u{8}' {
        seq!['\\', 'b']
    } else if c == '\u{c}' {
        seq!['\\', 'f']
    } else {
        seq![c]
    }
}

/// The characters of `s`, each written as inside a string literal.
pub open spec fn escape_text(s: Seq<char>) -> Seq<char>
    decreases s.len(),
{
    if s.len() == 0 {
        Seq::empty()
    } else {
        escape_text(s.drop_last()) + escape_char(s.last())
    }
}

/// `s` as a string literal.
pub open spec fn quoted(s: Seq<char>) -> Seq<char> {
    seq!['"'] + escape_text(s) + seq!['"']
}

/// The text of a variable: its name, and `: ` and its type where it has one.
pub open spec fn var_def_text(d: VarDefView) -> Seq<char> {
    match d.ty {
        Some(t) => d.name.name + ": "@ + t.name,
        None => d.name.name,
    }
}

/// The text of a parameter list: the variables separated by `, `.
pub open spec fn var_defs_text(ds: Seq<VarDefView>) -> Seq<char>
    decreases ds.len(),
{
    if ds.len() == 0 {
        Seq::empty()
    } else if ds.len() == 1 {
        var_def_text(ds[0])
    } else {
        var_defs_text(ds.drop_last()) + ", "@ + var_def_text(ds.last())
    }
}

/// What stands between the two operands of an operation. `BitOr` is
/// written with the sign of `BitAnd`, `GE` with `<=` and `LE` with `>=`.
pub open spec fn infix(kind: BinaryKind) -> Seq<char> {
    match kind {
        BinaryKind::If => "? "@,
        BinaryKind::While => "^ "@,
        BinaryKind::Add => " + "@,
        BinaryKind::Sub => " - "@,
        BinaryKind::Mul => " * "@,
        BinaryKind::Div => " / "@,
        BinaryKind::BitAnd => " & "@,
        BinaryKind::BitOr => " & "@,
        BinaryKind::EQ => " == "@,
        BinaryKind::NE => " != "@,
        BinaryKind::GT => " > "@,
        BinaryKind::LT => " < "@,
        BinaryKind::GE => " <= "@,
        BinaryKind::LE => " >= "@,
        BinaryKind::And => " && "@,
        BinaryKind::Or => " || "@,
        BinaryKind::Assign => " = "@,
    }
}

/// The text of an optional return type: `: ` and the type's name as a string
/// literal.
pub open spec fn return_text(ret: Option<IdentView>) -> Seq<char> {
    match ret {
        Some(t) => ": "@ + quoted(t.name),
        None => Seq::empty(),
    }
}

/// The text of an expression.
pub open spec fn render(e: ExprView) -> Seq<char>
    decreases e,
{
    match e {
        ExprView::LitNum(text, _) => text,
        ExprView::LitStr(text, _) => quoted(text),
        ExprView::LastLine(_) => "@"@,
        ExprView::Var(d) => var_def_text(d),
        ExprView::Block(items) => "["@ + render_list(items) + "]"@,
        ExprView::Binary(kind, l, r) => "("@ + render(*l) + infix(kind) + render(*r) + ")"@,
        ExprView::IfElse(c, t, e) => "("@ + render(*c) + "? "@ + render(*t) + "!? "@ + render(*e)
            + ")"@,
        ExprView::Call(name, args) => name.name + "("@ + render_list(args) + ")"@,
        ExprView::Func(params, ret, body) => "("@ + var_defs_text(params) + ")"@ + return_text(ret)
            + " => "@ + render(*body),
    }
}

/// The texts of the expressions, separated by `, `.
pub open spec fn render_list(items: Seq<ExprView>) -> Seq<char>
    decreases items,
{
    if items.len() == 0 {
        Seq::empty()
    } else if items.len() == 1 {
        render(items[0])
    } else {
        render_list(items.drop_last()) + ", "@ + render(items.last())
    }
}

/// The text of a block: its statements in square brackets.
pub open spec fn block_text(items: Seq<ExprView>) -> Seq<char> {
    "["@ + render_list(items) + "]"@
}

/// Executable form of [`infix`].
fn infix_str(kind: BinaryKind) -> (r: &'static str)
    ensures
        r@ == infix(kind),
{
    match kind {
        BinaryKind::If => "? ",
        BinaryKind::While => "^ ",
        BinaryKind::Add => " + ",
        BinaryKind::Sub => " - ",
        BinaryKind::Mul => " * ",
        BinaryKind::Div => " / ",
        BinaryKind::BitAnd => " & ",
        BinaryKind::BitOr => " & ",
        BinaryKind::EQ => " == ",
        BinaryKind::NE => " != ",
        BinaryKind::GT => " > ",
        BinaryKind::LT => " < ",
        BinaryKind::GE => " <= ",
        BinaryKind::LE => " >= ",
        BinaryKind::And => " && ",
        BinaryKind::Or => " || ",
        BinaryKind::Assign => " = ",
    }
}

/// The kind and the operands of an operation of two operands.
fn operands(o: &Operation) -> (r: (BinaryKind, &Expr, &Expr))
    requires
        !(o is IfElse),
    ensures
        o@ == binary_view(r.0, r.1@, r.2@),
        decreases_to!(o => r.1),
        decreases_to!(o => r.2),
{
    match o {
        Operation::If(l, r) => (BinaryKind::If, l, r),
        Operation::While(l, r) => (BinaryKind::While, l, r),
        Operation::Add(l, r) => (BinaryKind::Add, l, r),
        Operation::Sub(l, r) => (BinaryKind::Sub, l, r),
        Operation::Mul(l, r) => (BinaryKind::Mul, l, r),
        Operation::Div(l, r) => (BinaryKind::Div, l, r),
        Operation::BitAnd(l, r) => (BinaryKind::BitAnd, l, r),
        Operation::BitOr(l, r) => (BinaryKind::BitOr, l, r),
        Operation::EQ(l, r) => (BinaryKind::EQ, l, r),
        Operation::NE(l, r) => (BinaryKind::NE, l, r),
        Operation::GT(l, r) => (BinaryKind::GT, l, r),
        Operation::LT(l, r) => (BinaryKind::LT, l, r),
        Operation::GE(l, r) => (BinaryKind::GE, l, r),
        Operation::LE(l, r) => (BinaryKind::LE, l, r),
        Operation::And(l, r) => (BinaryKind::And, l, r),
        Operation::Or(l, r) => (BinaryKind::Or, l, r),
        Operation::Assign(l, r) => (BinaryKind::Assign, l, r),
        Operation::IfElse(c, t, _) => (BinaryKind::If, c, t),
    }
}

/// Writes `s` as a string literal behind `out`.
pub fn write_quoted(s: &str, out: &mut String)
    ensures
        final(out)@ == old(out)@ + quoted(s@),
{
    let ghost base = out@;
    out.push('"');
    let chars = chars_of(s);
    let n = chars.len();
    let mut i: usize = 0;
    proof {
        assert(s@.take(0) =~= Seq::<char>::empty());
        assert(out@ =~= base + seq!['"'] + escape_text(s@.take(0)));
    }
    while i < n
        invariant
            i <= n,
            n == s@.len(),
            chars@ == s@,
            out@ == base + seq!['"'] + escape_text(s@.take(i as int)),
        decreases n - i,
    {
        let ghost before = out@;
        let c = chars[i];
        if c == '"' {
            out.push('\\');
            out.push('"');
        } else if c == '\\' {
            out.push('\\');
            out.push('\\');
        } else if c == '\n' {
            out.push('\\');
            out.push('n');
        } else if c == '\r' {
            out.push('\\');
            out.push('r');
        } else if c == '\t' {
            out.push('\\');
            out.push('t');
        } else if c == '\u{8}' {
            out.push('\\');
            out.push('b');
        } else if c == '\u{c}' {
            out.push('\\');
            out.push('f');
        } else {
            out.push(c);
        }
        proof {
            assert(out@ =~= before + escape_char(c));
            assert(s@.take(i + 1).drop_last() =~= s@.take(i as int));
            assert(s@.take(i + 1).last() == c);
            assert(out@ =~= base + seq!['"'] + escape_text(s@.take(i + 1)));
        }
        i += 1;
    }
    out.push('"');
    proof {
        assert(s@.take(n as int) =~= s@);
        assert(out@ =~= base + quoted(s@));
    }
}

/// Writes a variable behind `out`.
pub fn write_var_def(d: &VarDef, out: &mut String)
    ensures
        final(out)@ == old(out)@ + var_def_text(d@),
{
    let ghost base = out@;
    out.append(d.0.0.as_str());
    match &d.1 {
        Some(t) => {
            out.append(": ");
            out.append(t.0.as_str());
            proof {
                assert(out@ =~= base + (d@.name.name + ": "@ + t@.name));
            }
        },
        None => {},
    }
}

/// Writes a parameter list behind `out`.
pub fn write_var_defs(ds: &Vec<VarDef>, out: &mut String)
    ensures
        final(out)@ == old(out)@ + var_defs_text(var_def_views(ds@)),
{
    let ghost base = out@;
    let ghost views = var_def_views(ds@);
    let mut i: usize = 0;
    proof {
        assert(views.take(0) =~= Seq::<VarDefView>::empty());
        assert(out@ =~= base + var_defs_text(views.take(0)));
    }
    while i < ds.len()
        invariant
            i <= ds.len(),
            views == var_def_views(ds@),
            out@ == base + var_defs_text(views.take(i as int)),
        decreases ds.len() - i,
    {
        let ghost before = out@;
        if i > 0 {
            out.append(", ");
        }
        write_var_def(&ds[i], out);
        proof {
            let now = views.take(i + 1);
            assert(now.drop_last() =~= views.take(i as int));
            assert(now.last() == ds@[i as int]@);
            if i == 0 {
                assert(views.take(0).len() == 0);
                assert(now[0] == ds@[0]@);
                assert(out@ =~= base + var_defs_text(now));
            } else {
                assert(out@ =~= base + (var_defs_text(views.take(i as int)) + ", "@
                    + var_def_text(ds@[i as int]@)));
            }
        }
        i += 1;
    }
    proof {
        assert(views.take(ds@.len() as int) =~= views);
    }
}

/// Writes an expression behind `out`.
pub fn write_expr(e: &Expr, out: &mut String)
    ensures
        final(out)@ == old(out)@ + render(e@),
    decreases e,
{
    let ghost base = out@;
    match e {
        Expr::LitNum(text, _) => {
            out.append(text.as_str());
        },
        Expr::LitStr(text, _) => {
            write_quoted(text.as_str(), out);
        },
        Expr::LastLine(_) => {
            out.append("@");
        },
        Expr::Var(d) => {
            write_var_def(d, out);
        },
        Expr::Block(b) => {
            out.append("[");
            write_exprs(&b.0, out);
            out.append("]");
            proof {
                assert(out@ =~= base + ("["@ + render_list(expr_views(b.0@)) + "]"@));
            }
        },
        Expr::Operation(o) => {
            write_operation(o, out);
        },
        Expr::Call(name, args) => {
            out.append(name.0.as_str());
            out.append("(");
            write_exprs(args, out);
            out.append(")");
            proof {
                assert(out@ =~= base + (name@.name + "("@ + render_list(expr_views(args@)) + ")"@));
            }
        },
        Expr::Func(f) => {
            out.append("(");
            write_var_defs(&f.0, out);
            out.append(")");
            let ghost mid = out@;
            match &f.1 {
                Some(t) => {
                    out.append(": ");
                    write_quoted(t.0.as_str(), out);
                    proof {
                        assert(out@ =~= mid + (": "@ + quoted(t@.name)));
                    }
                },
                None => {
                    proof {
                        assert(out@ =~= mid + Seq::<char>::empty());
                    }
                },
            }
            out.append(" => ");
            write_expr(&f.2, out);
            proof {
                let ret = crate::ast::opt_ident_view(f.1);
                assert(out@ =~= base + ("("@ + var_defs_text(var_def_views(f.0@)) + ")"@
                    + return_text(ret) + " => "@ + render(f.2@)));
            }
        },
    }
}

/// Writes an operation behind `out`.
pub fn write_operation(o: &Operation, out: &mut String)
    ensures
        final(out)@ == old(out)@ + render(o@),
    decreases o,
{
    let ghost base = out@;
    match o {
        Operation::IfElse(c, t, e) => {
            out.append("(");
            write_expr(c, out);
            out.append("? ");
            write_expr(t, out);
            out.append("!? ");
            write_expr(e, out);
            out.append(")");
            proof {
                assert(out@ =~= base + ("("@ + render(c@) + "? "@ + render(t@) + "!? "@ + render(
                    e@,
                ) + ")"@));
            }
        },
        _ => {
            let (kind, l, r) = operands(o);
            out.append("(");
            write_expr(l, out);
            out.append(infix_str(kind));
            write_expr(r, out);
            out.append(")");
            proof {
                assert(out@ =~= base + ("("@ + render(l@) + infix(kind) + render(r@) + ")"@));
            }
        },
    }
}

/// Writes the expressions behind `out`, separated by `, `.
pub fn write_exprs(es: &Vec<Expr>, out: &mut String)
    ensures
        final(out)@ == old(out)@ + render_list(expr_views(es@)),
    decreases es,
{
    let ghost base = out@;
    let ghost views = expr_views(es@);
    let mut i: usize = 0;
    proof {
        assert(views.take(0) =~= Seq::<ExprView>::empty());
        assert(out@ =~= base + render_list(views.take(0)));
    }
    while i < es.len()
        invariant
            i <= es.len(),
            views == expr_views(es@),
            out@ == base + render_list(views.take(i as int)),
        decreases es.len() - i,
    {
        if i > 0 {
            out.append(", ");
        }
        write_expr(&es[i], out);
        proof {
            let now = views.take(i + 1);
            assert(now.drop_last() =~= views.take(i as int));
            assert(now.last() == es@[i as int]@);
            if i == 0 {
                assert(views.take(0).len() == 0);
                assert(now[0] == es@[0]@);
                assert(out@ =~= base + render_list(now));
            } else {
                assert(out@ =~= base + (render_list(views.take(i as int)) + ", "@ + render(
                    es@[i as int]@,
                )));
            }
        }
        i += 1;
    }
    proof {
        assert(views.take(es@.len() as int) =~= views);
    }
}

impl Ident {
    /// The name.
    pub fn to_string(&self) -> (r: String)
        ensures
            r@ == self@.name,
    {
        self.0.clone()
    }
}

impl VarDef {
    /// The text of the variable: `name` or `name: Type`.
    pub fn to_string(&self) -> (r: String)
        ensures
            r@ == var_def_text(self@),
    {
        let mut out = String::new();
        write_var_def(self, &mut out);
        proof {
            assert(Seq::<char>::empty() + var_def_text(self@) =~= var_def_text(self@));
        }
        out
    }
}

impl Expr {
    /// The text of the expression.
    pub fn to_string(&self) -> (r: String)
        ensures
            r@ == render(self@),
    {
        let mut out = String::new();
        write_expr(self, &mut out);
        proof {
            assert(Seq::<char>::empty() + render(self@) =~= render(self@));
        }
        out
    }
}

impl Operation {
    /// The text of the operation.
    pub fn to_string(&self) -> (r: String)
        ensures
            r@ == render(self@),
    {
        let mut out = String::new();
        write_operation(self, &mut out);
        proof {
            assert(Seq::<char>::empty() + render(self@) =~= render(self@));
        }
        out
    }
}

impl Block {
    /// The text of the block: its statements, separated by `, `, in square
    /// brackets.
    pub fn to_string(&self) -> (r: String)
        ensures
            r@ == block_text(self@),
    {
        let mut out = String::new();
        out.append("[");
        write_exprs(&self.0, &mut out);
        out.append("]");
        proof {
            assert(out@ =~= block_text(self@));
        }
        out
    }
}

} // verus!
