//! Lowering of fully-typed declarations into the mid-level form, with every
//! type interned into a table. By this stage the solver has erased every
//! placeholder: each type to lower is a closed range or function type, with
//! `Invalid` tolerated only as a whole expression's type.

use vstd::prelude::*;

use crate::types::{NameId, Span, Type};

verus! {

/// A handle into the interned type table.
#[derive(Clone, Copy, Debug, PartialEq, Eq, Hash, Structural)]
pub struct TypeId(pub usize);

/// An interned mid-level type.
#[derive(Clone, Copy, Debug, PartialEq, Eq, Structural)]
pub enum MirType {
    Invalid,
    Range(i64, i64),
    Fun(TypeId, TypeId),
}

/// The append-only type table.
#[derive(Debug)]
pub struct Types {
    pub types: Vec<MirType>,
}

/// A solved type the lowering accepts: ranges and functions of them.
pub open spec fn lowerable(t: Type) -> bool
    decreases t,
{
    match t {
        Type::Range(_, _) => true,
        Type::Fun(a, b) => lowerable(*a) && lowerable(*b),
        _ => false,
    }
}

/// The interned entry at `id` spells out exactly the solved type `t`.
pub open spec fn ty_corresponds(ts: Seq<MirType>, id: int, t: Type) -> bool
    decreases t,
{
    &&& 0 <= id < ts.len()
    &&& match t {
        Type::Range(lo, hi) => ts[id] == MirType::Range(lo, hi),
        Type::Fun(a, b) => match ts[id] {
            MirType::Fun(ia, ib) => ty_corresponds(ts, ia.0 as int, *a) && ty_corresponds(
                ts,
                ib.0 as int,
                *b,
            ),
            _ => false,
        },
        _ => false,
    }
}

/// Interning more types never invalidates an existing correspondence.
pub proof fn lemma_corresponds_grows(ts: Seq<MirType>, ts2: Seq<MirType>, id: int, t: Type)
    requires
        ty_corresponds(ts, id, t),
        ts.is_prefix_of(ts2),
    ensures
        ty_corresponds(ts2, id, t),
    decreases t,
{
    assert(ts2[id] == ts[id]);
    match t {
        Type::Fun(a, b) => {
            if let MirType::Fun(ia, ib) = ts[id] {
                lemma_corresponds_grows(ts, ts2, ia.0 as int, *a);
                lemma_corresponds_grows(ts, ts2, ib.0 as int, *b);
            }
        }
        _ => {}
    }
}

impl Types {
    pub fn new() -> (res: Self)
        ensures
            res.types@.len() == 0,
    {
        Types { types: Vec::new() }
    }

    /// Intern one entry; the table only ever grows.
    pub fn add(&mut self, t: MirType) -> (res: TypeId)
        ensures
            final(self).types@ == old(self).types@.push(t),
            res.0 == old(self).types@.len(),
    {
        let id = TypeId(self.types.len());
        self.types.push(t);
        id
    }
}

/// A typed expression as the checker leaves it, every node carrying its
/// solved type.
#[derive(Debug)]
pub struct TypedExpr {
    pub node: TypedExprNode,
    pub span: Span,
    pub data: Type,
}

#[derive(Debug)]
pub enum TypedExprNode {
    Int(i64),
    Name(NameId),
    Lam(TypedPat, Box<TypedExpr>),
    App(Box<TypedExpr>, Box<TypedExpr>),
    Invalid,
}

#[derive(Debug)]
pub struct TypedPat {
    pub node: TypedPatNode,
    pub span: Span,
    pub data: Type,
}

#[derive(Debug)]
pub enum TypedPatNode {
    Name(NameId),
    Invalid,
}

#[derive(Debug)]
pub struct TypedValueDef {
    pub span: Span,
    pub pat: TypedPat,
    pub bind: TypedExpr,
}

#[derive(Debug)]
pub struct TypedDecls {
    pub values: Vec<TypedValueDef>,
}

/// The lowered forms.
#[derive(Debug)]
pub struct Expr {
    pub node: ExprNode,
    pub span: Span,
    pub typ: TypeId,
}

#[derive(Debug)]
pub enum ExprNode {
    Int(i64),
    Name(NameId),
    Lam(Pat, Box<Expr>),
    App(Box<Expr>, Box<Expr>),
    Invalid,
}

#[derive(Debug)]
pub struct Pat {
    pub node: PatNode,
    pub span: Span,
    pub typ: TypeId,
}

#[derive(Debug)]
pub enum PatNode {
    Name(NameId),
    Invalid,
}

#[derive(Debug)]
pub struct ValueDef {
    pub span: Span,
    pub pat: Pat,
    pub bind: Expr,
}

#[derive(Debug)]
pub struct Decls {
    pub values: Vec<ValueDef>,
}

/// Whether an expression can be lowered: annotations are gone, and every
/// node's type is lowerable unless the node's whole type is `Invalid`.
pub open spec fn expr_lowerable(e: TypedExpr) -> bool
    decreases e,
{
    (e.data is Invalid || lowerable(e.data)) && match e.node {
        TypedExprNode::Lam(p, body) => lowerable(p.data) && expr_lowerable(*body),
        TypedExprNode::App(f, a) => expr_lowerable(*f) && expr_lowerable(*a),
        _ => true,
    }
}

pub open spec fn decls_lowerable(d: TypedDecls) -> bool {
    forall|i: int|
        0 <= i < d.values@.len() ==> lowerable((#[trigger] d.values@[i]).pat.data)
            && expr_lowerable(d.values@[i].bind)
}

pub open spec fn pat_node_mirrors(i: TypedPatNode, o: PatNode) -> bool {
    match (i, o) {
        (TypedPatNode::Name(n), PatNode::Name(m)) => n == m,
        (TypedPatNode::Invalid, PatNode::Invalid) => true,
        _ => false,
    }
}

/// The lowered pattern keeps the input's span, shape and interned type.
pub open spec fn pat_mirrors(i: TypedPat, o: Pat, ts: Seq<MirType>) -> bool {
    &&& o.span == i.span
    &&& pat_node_mirrors(i.node, o.node)
    &&& ty_corresponds(ts, o.typ.0 as int, i.data)
}

/// The lowered expression keeps the input's span and shape node for node;
/// its interned type spells out the input's type, or `Invalid` when the
/// whole expression's type was `Invalid`.
pub open spec fn expr_mirrors(i: TypedExpr, o: Expr, ts: Seq<MirType>) -> bool
    decreases i,
{
    &&& o.span == i.span
    &&& 0 <= o.typ.0 < ts.len()
    &&& if i.data is Invalid {
        o.node is Invalid && ts[o.typ.0 as int] == MirType::Invalid
    } else {
        &&& ty_corresponds(ts, o.typ.0 as int, i.data)
        &&& node_mirrors(i.node, o.node, ts)
    }
}

pub open spec fn node_mirrors(i: TypedExprNode, o: ExprNode, ts: Seq<MirType>) -> bool
    decreases i,
{
    match (i, o) {
        (TypedExprNode::Int(v), ExprNode::Int(w)) => v == w,
        (TypedExprNode::Name(n), ExprNode::Name(m)) => n == m,
        (TypedExprNode::Lam(p, b), ExprNode::Lam(q, c)) => pat_mirrors(p, q, ts) && expr_mirrors(
            *b,
            *c,
            ts,
        ),
        (TypedExprNode::App(f, a), ExprNode::App(g, h)) => expr_mirrors(*f, *g, ts)
            && expr_mirrors(*a, *h, ts),
        (TypedExprNode::Invalid, ExprNode::Invalid) => true,
        _ => false,
    }
}

pub proof fn lemma_node_mirrors_grows(
    i: TypedExprNode,
    o: ExprNode,
    ts: Seq<MirType>,
    ts2: Seq<MirType>,
)
    requires
        node_mirrors(i, o, ts),
        ts.is_prefix_of(ts2),
    ensures
        node_mirrors(i, o, ts2),
    decreases i,
{
    match (i, o) {
        (TypedExprNode::Lam(p, b), ExprNode::Lam(q, c)) => {
            assert(ts2[q.typ.0 as int] == ts[q.typ.0 as int]);
            lemma_corresponds_grows(ts, ts2, q.typ.0 as int, p.data);
            lemma_mirrors_grows(*b, *c, ts, ts2);
        }
        (TypedExprNode::App(f, a), ExprNode::App(g, h)) => {
            lemma_mirrors_grows(*f, *g, ts, ts2);
            lemma_mirrors_grows(*a, *h, ts, ts2);
        }
        _ => {}
    }
}

/// Interning more types never invalidates an existing mirror.
pub proof fn lemma_mirrors_grows(i: TypedExpr, o: Expr, ts: Seq<MirType>, ts2: Seq<MirType>)
    requires
        expr_mirrors(i, o, ts),
        ts.is_prefix_of(ts2),
    ensures
        expr_mirrors(i, o, ts2),
    decreases i,
{
    assert(ts2[o.typ.0 as int] == ts[o.typ.0 as int]);
    if i.data is Invalid {
    } else {
        lemma_corresponds_grows(ts, ts2, o.typ.0 as int, i.data);
        lemma_node_mirrors_grows(i.node, o.node, ts, ts2);
    }
}

fn lower_type(types: &mut Types, ty: &Type) -> (res: TypeId)
    requires
        lowerable(*ty),
    ensures
        old(types).types@.is_prefix_of(final(types).types@),
        ty_corresponds(final(types).types@, res.0 as int, *ty),
    decreases *ty,
{
    match ty {
        Type::Fun(t, u) => {
            let ghost t0 = types.types@;
            let it = lower_type(types, t);
            let ghost t1 = types.types@;
            let iu = lower_type(types, u);
            let ghost mid = types.types@;
            proof {
                lemma_corresponds_grows(t1, mid, it.0 as int, **t);
            }
            let id = types.add(MirType::Fun(it, iu));
            proof {
                crate::unify::lemma_seq_prefix_push(mid, MirType::Fun(it, iu));
                lemma_corresponds_grows(mid, types.types@, it.0 as int, **t);
                lemma_corresponds_grows(mid, types.types@, iu.0 as int, **u);
                crate::unify::lemma_seq_prefix_trans(t0, t1, mid);
                crate::unify::lemma_seq_prefix_trans(t0, mid, types.types@);
            }
            id
        }
        Type::Range(lo, hi) => {
            let ghost mid = types.types@;
            let id = types.add(MirType::Range(*lo, *hi));
            proof {
                crate::unify::lemma_seq_prefix_push(mid, MirType::Range(*lo, *hi));
            }
            id
        }
        _ => {
            proof {
                assert(false);
            }
            TypeId(0)
        }
    }
}

fn lower_pat(types: &mut Types, pat: TypedPat) -> (res: Pat)
    requires
        lowerable(pat.data),
    ensures
        old(types).types@.is_prefix_of(final(types).types@),
        pat_mirrors(pat, res, final(types).types@),
{
    let node = match pat.node {
        TypedPatNode::Name(name) => PatNode::Name(name),
        TypedPatNode::Invalid => PatNode::Invalid,
    };
    let typ = lower_type(types, &pat.data);
    Pat { node, span: pat.span, typ }
}

fn lower_expr(types: &mut Types, ex: TypedExpr) -> (res: Expr)
    requires
        expr_lowerable(ex),
    ensures
        old(types).types@.is_prefix_of(final(types).types@),
        expr_mirrors(ex, res, final(types).types@),
    decreases ex,
{
    let ghost gex = ex;
    if let Type::Invalid = &ex.data {
        let ghost mid = types.types@;
        let typ = types.add(MirType::Invalid);
        proof {
            crate::unify::lemma_seq_prefix_push(mid, MirType::Invalid);
        }
        Expr { node: ExprNode::Invalid, span: ex.span, typ }
    } else {
        let node = match ex.node {
            TypedExprNode::Int(v) => ExprNode::Int(v),
            TypedExprNode::Name(name) => ExprNode::Name(name),
            TypedExprNode::Lam(param, body) => {
                let ghost gparam = param;
                let lparam = lower_pat(types, param);
                let ghost ts1 = types.types@;
                let lbody = lower_expr(types, *body);
                proof {
                    lemma_corresponds_grows(ts1, types.types@, lparam.typ.0 as int, gparam.data);
                    assert(node_mirrors(
                        gex.node,
                        ExprNode::Lam(lparam, Box::new(lbody)),
                        types.types@,
                    ));
                }
                ExprNode::Lam(lparam, Box::new(lbody))
            }
            TypedExprNode::App(fun, arg) => {
                let ghost gfun = *fun;
                let lfun = lower_expr(types, *fun);
                let ghost ts1 = types.types@;
                let larg = lower_expr(types, *arg);
                proof {
                    lemma_mirrors_grows(gfun, lfun, ts1, types.types@);
                    assert(node_mirrors(
                        gex.node,
                        ExprNode::App(Box::new(lfun), Box::new(larg)),
                        types.types@,
                    ));
                }
                ExprNode::App(Box::new(lfun), Box::new(larg))
            }
            TypedExprNode::Invalid => ExprNode::Invalid,
        };
        let ghost gnode = node;
        let ghost tsn = types.types@;
        proof {
            assert(node_mirrors(gex.node, gnode, tsn));
        }
        let typ = lower_type(types, &ex.data);
        proof {
            lemma_node_mirrors_grows(gex.node, gnode, tsn, types.types@);
        }
        Expr { node, span: ex.span, typ }
    }
}

fn lower_decls(types: &mut Types, decls: TypedDecls) -> (res: Decls)
    requires
        decls_lowerable(decls),
    ensures
        old(types).types@.is_prefix_of(final(types).types@),
        res.values@.len() == decls.values@.len(),
        forall|i: int|
            0 <= i < decls.values@.len() ==> {
                &&& (#[trigger] res.values@[i]).span == decls.values@[i].span
                &&& pat_mirrors(decls.values@[i].pat, res.values@[i].pat, final(types).types@)
                &&& expr_mirrors(decls.values@[i].bind, res.values@[i].bind, final(types).types@)
            },
{
    let ghost input = decls.values@;
    let mut remaining = decls.values;
    let mut values: Vec<ValueDef> = Vec::new();
    let ghost n = input.len();
    while remaining.len() != 0
        invariant
            old(types).types@.is_prefix_of(types.types@),
            values@.len() + remaining@.len() == n,
            forall|j: int|
                0 <= j < remaining@.len() ==> #[trigger] remaining@[j] == input[j
                    + values@.len()],
            forall|i: int|
                0 <= i < remaining@.len() ==> lowerable((#[trigger] remaining@[i]).pat.data)
                    && expr_lowerable(remaining@[i].bind),
            forall|i: int|
                0 <= i < values@.len() ==> {
                    &&& (#[trigger] values@[i]).span == input[i].span
                    &&& pat_mirrors(input[i].pat, values@[i].pat, types.types@)
                    &&& expr_mirrors(input[i].bind, values@[i].bind, types.types@)
                },
        decreases remaining@.len(),
    {
        let ghost rpre = remaining@;
        let ghost k = values@.len() as int;
        let def = remaining.remove(0);
        proof {
            assert(remaining@ =~= rpre.skip(1));
            assert(def == rpre[0]);
            assert(def == input[k]);
            assert forall|j: int| 0 <= j < remaining@.len() implies #[trigger] remaining@[j]
                == input[j + k + 1] by {
                assert(remaining@[j] == rpre[j + 1]);
            }
            assert forall|i: int| 0 <= i < remaining@.len() implies lowerable(
                (#[trigger] remaining@[i]).pat.data,
            ) && expr_lowerable(remaining@[i].bind) by {
                assert(remaining@[i] == rpre[i + 1]);
            }
        }
        let ghost tpre = types.types@;
        let ghost gpat = def.pat;
        let pat = lower_pat(types, def.pat);
        let ghost tmid = types.types@;
        let bind = lower_expr(types, def.bind);
        proof {
            crate::unify::lemma_seq_prefix_trans(old(types).types@, tpre, tmid);
            crate::unify::lemma_seq_prefix_trans(old(types).types@, tmid, types.types@);
            crate::unify::lemma_seq_prefix_trans(tpre, tmid, types.types@);
            lemma_corresponds_grows(tmid, types.types@, pat.typ.0 as int, gpat.data);
            assert forall|i: int| 0 <= i < values@.len() implies {
                &&& (#[trigger] values@[i]).span == input[i].span
                &&& pat_mirrors(input[i].pat, values@[i].pat, types.types@)
                &&& expr_mirrors(input[i].bind, values@[i].bind, types.types@)
            } by {
                lemma_corresponds_grows(
                    tpre,
                    types.types@,
                    values@[i].pat.typ.0 as int,
                    input[i].pat.data,
                );
                lemma_mirrors_grows(input[i].bind, values@[i].bind, tpre, types.types@);
            }
        }
        values.push(ValueDef { span: def.span, pat, bind });
    }
    Decls { values }
}

/// Lower a checked program: every written type is interned, and the result
/// carries one lowered definition per input definition.
pub fn lower(decls: TypedDecls) -> (res: (Types, Decls))
    requires
        decls_lowerable(decls),
    ensures
        res.1.values@.len() == decls.values@.len(),
        forall|i: int|
            0 <= i < decls.values@.len() ==> {
                &&& (#[trigger] res.1.values@[i]).span == decls.values@[i].span
                &&& pat_mirrors(decls.values@[i].pat, res.1.values@[i].pat, res.0.types@)
                &&& expr_mirrors(decls.values@[i].bind, res.1.values@[i].bind, res.0.types@)
            },
{
    let mut types = Types::new();
    let decls = lower_decls(&mut types, decls);
    (types, decls)
}

} // verus!
