//! The syntax tree: produced by the parser, consumed by evaluation and by
//! the formatter.
//!
//! Comments are kept when they lead an item (on their own lines above it)
//! or trail one (on the same line, after it). A comment between `=` and its
//! value, or inside a list or a call's parentheses, is not tracked and is
//! dropped by the formatter.

use vstd::prelude::*;
use crate::grammar::{
    elifs_strs_ok, elifs_v, item_kind_v, item_strs_ok, item_v, items_strs_ok, items_v, kind_strs_ok,
};
use crate::parser::{all_strs_ok, expr_v, exprs_v, kind_v, strs_ok};
use crate::span::Span;

verus! {

#[derive(Debug, PartialEq)]
pub struct Comment {
    pub text: String,
    pub block: bool,
    pub span: Span,
}

/// Comment trivia attached to an [`Item`], and whether a blank line
/// separated the item from the one before it.
#[derive(Debug, Default, PartialEq)]
pub struct Trivia {
    pub leading: Vec<Comment>,
    pub trailing: Option<Comment>,
    pub blank_line_before: bool,
}

#[derive(Debug, PartialEq)]
pub struct Document {
    pub items: Vec<Item>,
    /// Comments left over after the last item (end-of-file trivia).
    pub trailing: Vec<Comment>,
}

#[derive(Debug, PartialEq)]
pub struct Item {
    pub kind: ItemKind,
    pub span: Span,
    pub trivia: Trivia,
}

#[derive(Debug, PartialEq)]
pub enum ItemKind {
    Leaf(LeafDecl),
    Node(NodeDecl),
    VarDef(VarDef),
    Include(IncludeStmt),
    If(IfStmt),
    For(ForStmt),
    While(WhileStmt),
    Local(LocalStmt),
    Return(ReturnStmt),
    FnDef(FnDef),
    Script(ScriptBlock),
    Call(Expr),
}

#[derive(Debug, Clone, PartialEq)]
pub struct LeafDecl {
    pub key: String,
    pub key_span: Span,
    pub value: Expr,
}

#[derive(Debug, PartialEq)]
pub enum HeaderValue {
    Bare(String),
    Quoted(String),
}

#[derive(Debug, PartialEq)]
pub struct NodeDecl {
    pub name: String,
    pub name_span: Span,
    pub header: Option<HeaderValue>,
    pub header_span: Option<Span>,
    pub body: Vec<Item>,
    pub body_span: Span,
}

#[derive(Debug, Clone, PartialEq)]
pub struct VarDef {
    pub name: String,
    pub name_span: Span,
    pub value: Expr,
}

#[derive(Debug, PartialEq)]
pub struct IncludeStmt {
    pub path: StrLit,
    pub path_span: Span,
}

#[derive(Debug, PartialEq)]
pub struct IfStmt {
    pub cond: Expr,
    pub then_body: Vec<Item>,
    pub elifs: Vec<(Expr, Vec<Item>)>,
    pub else_body: Option<Vec<Item>>,
}

#[derive(Debug, PartialEq)]
pub struct ForStmt {
    pub var: String,
    pub var_span: Span,
    pub start: Expr,
    pub stop: Expr,
    pub step: Option<Expr>,
    pub body: Vec<Item>,
}

#[derive(Debug, PartialEq)]
pub struct WhileStmt {
    pub cond: Expr,
    pub body: Vec<Item>,
}

#[derive(Debug, Clone, PartialEq)]
pub struct LocalStmt {
    pub name: String,
    pub name_span: Span,
    pub value: Expr,
}

#[derive(Debug, Clone, PartialEq)]
pub struct ReturnStmt {
    pub value: Option<Expr>,
}

#[derive(Debug, PartialEq)]
pub struct FnDef {
    pub name: String,
    pub name_span: Span,
    pub params: Vec<String>,
    pub body: Vec<Item>,
}

/// `script { ... }`: raw text handed to the sandboxed Lua runtime
/// verbatim, never transpiled or reformatted.
#[derive(Debug, PartialEq)]
pub struct ScriptBlock {
    /// The source text strictly between the braces, byte for byte.
    pub raw: String,
    /// Where that text stands in the source.
    pub inner_span: Span,
}

/// A string literal value: fully quoted (verbatim, no interpolation) or
/// bare (literal text and `$name` interpolation parts).
#[derive(Debug, PartialEq)]
pub enum StrLit {
    Quoted(String),
    Bare(Vec<StrPart>),
}

#[derive(Debug, PartialEq)]
pub enum StrPart {
    Lit(String),
    Interp(String, Span),
}

#[derive(Debug, Clone, Copy, PartialEq, Eq, Structural)]
pub enum UnOp {
    Neg,
    Not,
}

#[derive(Debug, Clone, Copy, PartialEq, Eq, Structural)]
pub enum BinOp {
    Add,
    Sub,
    Mul,
    Div,
    Mod,
    Eq,
    NotEq,
    Lt,
    Gt,
    LtEq,
    GtEq,
    And,
    Or,
}

#[derive(Debug, PartialEq)]
pub struct Expr {
    pub kind: ExprKind,
    pub span: Span,
}

#[derive(Debug, PartialEq)]
pub enum ExprKind {
    Int(i64),
    /// A float literal, as written (`1.5`).
    Float(String),
    Bool(bool),
    Nil,
    Str(StrLit),
    /// `#RRGGBB` / `#RRGGBBAA`, hex digits without the `#`.
    Color(String),
    /// The amount as written, and the unit suffix.
    Duration(String, String),
    List(Vec<Expr>),
    /// A bare identifier where an expression is expected. Evaluation
    /// resolves it to a binding, or else takes it as a literal string.
    Ident(String),
    Unary(UnOp, Box<Expr>),
    Binary(BinOp, Box<Expr>, Box<Expr>),
    Call(Box<Expr>, Vec<Expr>),
    /// `base.field`, split from a single bare-word token at parse time.
    Member(Box<Expr>, String, Span),
}

impl Expr {
    pub fn new(kind: ExprKind, span: Span) -> (e: Self)
        ensures
            e.kind == kind,
            e.span == span,
    {
        Expr { kind, span }
    }
}

fn clone_exprs(es: &Vec<Expr>) -> (r: Vec<Expr>)
    ensures
        exprs_v(r@) == exprs_v(es@),
        all_strs_ok(r@) == all_strs_ok(es@),
    decreases es@, 0nat,
{
    let mut out: Vec<Expr> = Vec::new();
    let mut i: usize = 0;
    proof {
        assert(es@.take(0) =~= Seq::<Expr>::empty());
    }
    while i < es.len()
        invariant
            i <= es@.len(),
            exprs_v(out@) == exprs_v(es@.take(i as int)),
            all_strs_ok(out@) == all_strs_ok(es@.take(i as int)),
        decreases es@.len() - i,
    {
        let c = clone_expr(&es[i]);
        proof {
            lemma_exprs_push_eq(out@, c, es@.take(i as int), es@[i as int]);
            assert(es@.take(i + 1) =~= es@.take(i as int).push(es@[i as int]));
        }
        out.push(c);
        i += 1;
    }
    proof {
        assert(es@.take(i as int) =~= es@);
    }
    out
}

proof fn lemma_exprs_push_eq(a: Seq<Expr>, x: Expr, b: Seq<Expr>, y: Expr)
    requires
        exprs_v(a) == exprs_v(b),
        all_strs_ok(a) == all_strs_ok(b),
        expr_v(x) == expr_v(y),
        strs_ok(x) == strs_ok(y),
    ensures
        exprs_v(a.push(x)) == exprs_v(b.push(y)),
        all_strs_ok(a.push(x)) == all_strs_ok(b.push(y)),
{
    assert(a.push(x).drop_last() =~= a);
    assert(b.push(y).drop_last() =~= b);
}

fn clone_expr(e: &Expr) -> (r: Expr)
    ensures
        expr_v(r) == expr_v(*e),
        strs_ok(r) == strs_ok(*e),
    decreases e, 1nat,
{
    Expr { kind: clone_expr_kind(&e.kind), span: e.span }
}

fn clone_expr_kind(k: &ExprKind) -> (r: ExprKind)
    ensures
        kind_v(r) == kind_v(*k),
        forall|sp: Span| #[trigger] strs_ok(Expr { kind: r, span: sp }) == strs_ok(Expr { kind: *k, span: sp }),
    decreases k, 0nat,
{
    match k {
        ExprKind::Int(n) => ExprKind::Int(*n),
        ExprKind::Float(s) => ExprKind::Float(s.clone()),
        ExprKind::Bool(b) => ExprKind::Bool(*b),
        ExprKind::Nil => ExprKind::Nil,
        ExprKind::Str(l) => ExprKind::Str(l.clone()),
        ExprKind::Color(h) => ExprKind::Color(h.clone()),
        ExprKind::Duration(a, u) => ExprKind::Duration(a.clone(), u.clone()),
        ExprKind::List(items) => ExprKind::List(clone_exprs(items)),
        ExprKind::Ident(n) => ExprKind::Ident(n.clone()),
        ExprKind::Unary(op, x) => ExprKind::Unary(*op, Box::new(clone_expr(x))),
        ExprKind::Binary(op, l, r) => ExprKind::Binary(
            *op,
            Box::new(clone_expr(l)),
            Box::new(clone_expr(r)),
        ),
        ExprKind::Call(c, args) => ExprKind::Call(Box::new(clone_expr(c)), clone_exprs(args)),
        ExprKind::Member(b, f, sp) => ExprKind::Member(Box::new(clone_expr(b)), f.clone(), *sp),
    }
}

fn clone_items(items: &Vec<Item>) -> (r: Vec<Item>)
    ensures
        items_v(r@) == items_v(items@),
        items_strs_ok(r@) == items_strs_ok(items@),
    decreases items@, 0nat,
{
    let mut out: Vec<Item> = Vec::new();
    let mut i: usize = 0;
    proof {
        assert(items@.take(0) =~= Seq::<Item>::empty());
    }
    while i < items.len()
        invariant
            i <= items@.len(),
            items_v(out@) == items_v(items@.take(i as int)),
            items_strs_ok(out@) == items_strs_ok(items@.take(i as int)),
        decreases items@.len() - i,
    {
        let c = clone_item(&items[i]);
        proof {
            let a = out@;
            let b = items@.take(i as int);
            assert(a.push(c).drop_last() =~= a);
            assert(b.push(items@[i as int]).drop_last() =~= b);
            assert(items@.take(i + 1) =~= b.push(items@[i as int]));
        }
        out.push(c);
        i += 1;
    }
    proof {
        assert(items@.take(i as int) =~= items@);
    }
    out
}

fn clone_item(it: &Item) -> (r: Item)
    ensures
        item_v(r) == item_v(*it),
        item_strs_ok(r) == item_strs_ok(*it),
    decreases it, 1nat,
{
    Item { kind: clone_kind(&it.kind), span: it.span, trivia: it.trivia.clone() }
}

fn clone_elifs(arms: &Vec<(Expr, Vec<Item>)>) -> (r: Vec<(Expr, Vec<Item>)>)
    ensures
        elifs_v(r@) == elifs_v(arms@),
        elifs_strs_ok(r@) == elifs_strs_ok(arms@),
    decreases arms@, 0nat,
{
    let mut out: Vec<(Expr, Vec<Item>)> = Vec::new();
    let mut i: usize = 0;
    proof {
        assert(arms@.take(0) =~= Seq::<(Expr, Vec<Item>)>::empty());
    }
    while i < arms.len()
        invariant
            i <= arms@.len(),
            elifs_v(out@) == elifs_v(arms@.take(i as int)),
            elifs_strs_ok(out@) == elifs_strs_ok(arms@.take(i as int)),
        decreases arms@.len() - i,
    {
        proof {
            assert(decreases_to!(arms@ => arms@[i as int]));
            assert(decreases_to!(arms@[i as int] => arms@[i as int].1));
            assert(decreases_to!(arms@[i as int].1 => arms@[i as int].1@));
        }
        let c = (clone_expr(&arms[i].0), clone_items(&arms[i].1));
        proof {
            let a = out@;
            let b = arms@.take(i as int);
            assert(a.push(c).drop_last() =~= a);
            assert(b.push(arms@[i as int]).drop_last() =~= b);
            assert(arms@.take(i + 1) =~= b.push(arms@[i as int]));
        }
        out.push(c);
        i += 1;
    }
    proof {
        assert(arms@.take(i as int) =~= arms@);
    }
    out
}

/// A copy of the comments, one by one.
fn clone_comments(cs: &Vec<Comment>) -> (r: Vec<Comment>)
    ensures
        r@ == cs@,
{
    let mut out: Vec<Comment> = Vec::new();
    let mut i: usize = 0;
    while i < cs.len()
        invariant
            i <= cs@.len(),
            out@ == cs@.take(i as int),
        decreases cs@.len() - i,
    {
        out.push(cs[i].clone());
        proof {
            assert(out@ =~= cs@.take(i + 1));
        }
        i += 1;
    }
    proof {
        assert(cs@.take(i as int) =~= cs@);
    }
    out
}

/// A copy of the parameter names, one by one.
fn clone_names(ns: &Vec<String>) -> (r: Vec<String>)
    ensures
        r@ == ns@,
{
    let mut out: Vec<String> = Vec::new();
    let mut i: usize = 0;
    while i < ns.len()
        invariant
            i <= ns@.len(),
            out@ == ns@.take(i as int),
        decreases ns@.len() - i,
    {
        out.push(ns[i].clone());
        proof {
            assert(out@ =~= ns@.take(i + 1));
        }
        i += 1;
    }
    proof {
        assert(ns@.take(i as int) =~= ns@);
    }
    out
}

fn clone_header(h: &Option<HeaderValue>) -> (r: Option<HeaderValue>)
    ensures
        r == *h,
{
    match h {
        Some(x) => Some(x.clone()),
        None => None,
    }
}

fn clone_kind(k: &ItemKind) -> (r: ItemKind)
    ensures
        item_kind_v(r) == item_kind_v(*k),
        kind_strs_ok(r) == kind_strs_ok(*k),
    decreases k, 0nat,
{
    match k {
        ItemKind::Leaf(l) => ItemKind::Leaf(
            LeafDecl { key: l.key.clone(), key_span: l.key_span, value: clone_expr(&l.value) },
        ),
        ItemKind::Node(n) => ItemKind::Node(
            NodeDecl {
                name: n.name.clone(),
                name_span: n.name_span,
                header: clone_header(&n.header),
                header_span: n.header_span,
                body: clone_items(&n.body),
                body_span: n.body_span,
            },
        ),
        ItemKind::VarDef(v) => ItemKind::VarDef(
            VarDef { name: v.name.clone(), name_span: v.name_span, value: clone_expr(&v.value) },
        ),
        ItemKind::Include(i) => ItemKind::Include(i.clone()),
        ItemKind::If(st) => ItemKind::If(
            IfStmt {
                cond: clone_expr(&st.cond),
                then_body: clone_items(&st.then_body),
                elifs: clone_elifs(&st.elifs),
                else_body: match &st.else_body {
                    Some(b) => Some(clone_items(b)),
                    None => None,
                },
            },
        ),
        ItemKind::For(st) => ItemKind::For(
            ForStmt {
                var: st.var.clone(),
                var_span: st.var_span,
                start: clone_expr(&st.start),
                stop: clone_expr(&st.stop),
                step: match &st.step {
                    Some(e) => Some(clone_expr(e)),
                    None => None,
                },
                body: clone_items(&st.body),
            },
        ),
        ItemKind::While(st) => ItemKind::While(
            WhileStmt { cond: clone_expr(&st.cond), body: clone_items(&st.body) },
        ),
        ItemKind::Local(l) => ItemKind::Local(
            LocalStmt { name: l.name.clone(), name_span: l.name_span, value: clone_expr(&l.value) },
        ),
        ItemKind::Return(r) => ItemKind::Return(
            ReturnStmt {
                value: match &r.value {
                    Some(e) => Some(clone_expr(e)),
                    None => None,
                },
            },
        ),
        ItemKind::FnDef(f) => ItemKind::FnDef(
            FnDef {
                name: f.name.clone(),
                name_span: f.name_span,
                params: clone_names(&f.params),
                body: clone_items(&f.body),
            },
        ),
        ItemKind::Script(s) => ItemKind::Script(s.clone()),
        ItemKind::Call(e) => ItemKind::Call(clone_expr(e)),
    }
}

impl Clone for Expr {
    fn clone(&self) -> (r: Self)
        ensures
            expr_v(r) == expr_v(*self),
            strs_ok(r) == strs_ok(*self),
    {
        clone_expr(self)
    }
}

impl Clone for ExprKind {
    fn clone(&self) -> (r: Self)
        ensures
            kind_v(r) == kind_v(*self),
    {
        clone_expr_kind(self)
    }
}

impl Clone for Item {
    fn clone(&self) -> (r: Self)
        ensures
            item_v(r) == item_v(*self),
            item_strs_ok(r) == item_strs_ok(*self),
    {
        clone_item(self)
    }
}

impl Clone for ItemKind {
    fn clone(&self) -> (r: Self)
        ensures
            item_kind_v(r) == item_kind_v(*self),
            kind_strs_ok(r) == kind_strs_ok(*self),
    {
        clone_kind(self)
    }
}

impl Clone for NodeDecl {
    fn clone(&self) -> (r: Self)
        ensures
            r.name == self.name,
            r.name_span == self.name_span,
            r.header == self.header,
            r.header_span == self.header_span,
            items_v(r.body@) == items_v(self.body@),
            items_strs_ok(r.body@) == items_strs_ok(self.body@),
            r.body_span == self.body_span,
    {
        NodeDecl {
            name: self.name.clone(),
            name_span: self.name_span,
            header: clone_header(&self.header),
            header_span: self.header_span,
            body: clone_items(&self.body),
            body_span: self.body_span,
        }
    }
}

impl Clone for IfStmt {
    fn clone(&self) -> (r: Self)
        ensures
            item_kind_v(ItemKind::If(r)) == item_kind_v(ItemKind::If(*self)),
            kind_strs_ok(ItemKind::If(r)) == kind_strs_ok(ItemKind::If(*self)),
    {
        IfStmt {
            cond: clone_expr(&self.cond),
            then_body: clone_items(&self.then_body),
            elifs: clone_elifs(&self.elifs),
            else_body: match &self.else_body {
                Some(b) => Some(clone_items(b)),
                None => None,
            },
        }
    }
}

impl Clone for ForStmt {
    fn clone(&self) -> (r: Self)
        ensures
            item_kind_v(ItemKind::For(r)) == item_kind_v(ItemKind::For(*self)),
            kind_strs_ok(ItemKind::For(r)) == kind_strs_ok(ItemKind::For(*self)),
    {
        ForStmt {
            var: self.var.clone(),
            var_span: self.var_span,
            start: clone_expr(&self.start),
            stop: clone_expr(&self.stop),
            step: match &self.step {
                Some(e) => Some(clone_expr(e)),
                None => None,
            },
            body: clone_items(&self.body),
        }
    }
}

impl Clone for WhileStmt {
    fn clone(&self) -> (r: Self)
        ensures
            expr_v(r.cond) == expr_v(self.cond),
            strs_ok(r.cond) == strs_ok(self.cond),
            items_v(r.body@) == items_v(self.body@),
            items_strs_ok(r.body@) == items_strs_ok(self.body@),
    {
        WhileStmt { cond: clone_expr(&self.cond), body: clone_items(&self.body) }
    }
}

impl Clone for FnDef {
    fn clone(&self) -> (r: Self)
        ensures
            r.name == self.name,
            r.name_span == self.name_span,
            r.params@ == self.params@,
            items_v(r.body@) == items_v(self.body@),
            items_strs_ok(r.body@) == items_strs_ok(self.body@),
    {
        FnDef {
            name: self.name.clone(),
            name_span: self.name_span,
            params: clone_names(&self.params),
            body: clone_items(&self.body),
        }
    }
}

impl Clone for Document {
    fn clone(&self) -> (r: Self)
        ensures
            items_v(r.items@) == items_v(self.items@),
            items_strs_ok(r.items@) == items_strs_ok(self.items@),
            r.trailing@ == self.trailing@,
    {
        Document { items: clone_items(&self.items), trailing: clone_comments(&self.trailing) }
    }
}

impl Clone for Comment {
    fn clone(&self) -> (r: Self)
        ensures
            r == *self,
    {
        Comment { text: self.text.clone(), block: self.block, span: self.span }
    }
}

impl Clone for StrPart {
    fn clone(&self) -> (r: Self)
        ensures
            r == *self,
    {
        match self {
            StrPart::Lit(s) => StrPart::Lit(s.clone()),
            StrPart::Interp(n, sp) => StrPart::Interp(n.clone(), *sp),
        }
    }
}

/// Two string literals of the same kind with the same text or parts.
pub open spec fn same_strlit(a: StrLit, b: StrLit) -> bool {
    match (a, b) {
        (StrLit::Quoted(x), StrLit::Quoted(y)) => x == y,
        (StrLit::Bare(x), StrLit::Bare(y)) => x@ == y@,
        _ => false,
    }
}

impl Clone for StrLit {
    fn clone(&self) -> (r: Self)
        ensures
            same_strlit(*self, r),
    {
        match self {
            StrLit::Quoted(s) => StrLit::Quoted(s.clone()),
            StrLit::Bare(parts) => {
                let mut out: Vec<StrPart> = Vec::new();
                let mut i: usize = 0;
                while i < parts.len()
                    invariant
                        i <= parts@.len(),
                        out@ == parts@.take(i as int),
                    decreases parts@.len() - i,
                {
                    out.push(parts[i].clone());
                    proof {
                        assert(out@ =~= parts@.take(i + 1));
                    }
                    i += 1;
                }
                proof {
                    assert(parts@.take(i as int) =~= parts@);
                }
                StrLit::Bare(out)
            },
        }
    }
}

impl Clone for HeaderValue {
    fn clone(&self) -> (r: Self)
        ensures
            r == *self,
    {
        match self {
            HeaderValue::Bare(s) => HeaderValue::Bare(s.clone()),
            HeaderValue::Quoted(s) => HeaderValue::Quoted(s.clone()),
        }
    }
}

impl Clone for IncludeStmt {
    fn clone(&self) -> (r: Self)
        ensures
            same_strlit(self.path, r.path),
            r.path_span == self.path_span,
    {
        IncludeStmt { path: self.path.clone(), path_span: self.path_span }
    }
}

impl Clone for ScriptBlock {
    fn clone(&self) -> (r: Self)
        ensures
            r == *self,
    {
        ScriptBlock { raw: self.raw.clone(), inner_span: self.inner_span }
    }
}

impl Clone for Trivia {
    fn clone(&self) -> (r: Self)
        ensures
            r.leading@ == self.leading@,
            r.trailing == self.trailing,
            r.blank_line_before == self.blank_line_before,
    {
        let leading = clone_comments(&self.leading);
        let trailing = match &self.trailing {
            Some(c) => Some(c.clone()),
            None => None,
        };
        Trivia { leading, trailing, blank_line_before: self.blank_line_before }
    }
}

} // verus!
