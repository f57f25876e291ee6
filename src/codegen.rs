//! Lowering of the syntax tree into a compilation unit: SSA values, basic
//! blocks, and merge nodes for `if` and `for`.

use vstd::prelude::*;
use vstd::string::*;

use crate::ast::{
    expr_view, exprs_view, lemma_exprs_view_index, strings_view, ExprAST, ExprV, FunctionAST,
    FunctionV, PrototypeAST, PrototypeV,
};
use crate::ir::{
    copy_names, copy_prototype, find_fn, has_body, lemma_find_fn, lemma_find_fn_first,
    lemma_find_fn_push, Body, Function, Inst, Module, PrototypeRegistry,
};
use crate::Either;

verus! {

/// The names bound by an environment, innermost last.
pub open spec fn scope_of(env: Seq<(String, usize)>) -> Seq<Seq<char>> {
    env.map_values(|b: (String, usize)| b.0@)
}

/// The value bound to `name`: the innermost binding wins.
pub open spec fn lookup(env: Seq<(String, usize)>, name: Seq<char>) -> Option<usize>
    decreases env.len(),
{
    if env.len() == 0 {
        None
    } else if env.last().0@ == name {
        Some(env.last().1)
    } else {
        lookup(env.drop_last(), name)
    }
}

/// The number of arguments `name` takes: from its declaration in the unit,
/// else from the registry.
pub open spec fn arity(fs: Seq<Function>, reg: Map<Seq<char>, PrototypeV>, name: Seq<char>) -> Option<
    nat,
> {
    match find_fn(fs, name) {
        Some(i) => Some(fs[i].params@.len()),
        None => if reg.contains_key(name) {
            Some(reg[name].params.len())
        } else {
            None
        },
    }
}

pub open spec fn arities(fs: Seq<Function>, reg: Map<Seq<char>, PrototypeV>) -> spec_fn(
    Seq<char>,
) -> Option<nat> {
    |n: Seq<char>| arity(fs, reg, n)
}

pub open spec fn is_binop(c: char) -> bool {
    c == '+' || c == '-' || c == '*' || c == '<'
}

pub open spec fn first_error(a: Option<Seq<char>>, b: Option<Seq<char>>) -> Option<Seq<char>> {
    match a {
        Some(m) => Some(m),
        None => b,
    }
}

/// The failure that lowering `e` meets first, in the order lowering goes,
/// with the names of `scope` bound and `ar` giving what each function takes;
/// `None` if it succeeds.
pub open spec fn check_expr(
    e: ExprV,
    scope: Seq<Seq<char>>,
    ar: spec_fn(Seq<char>) -> Option<nat>,
) -> Option<Seq<char>>
    decreases e,
{
    match e {
        ExprV::Number(_) => None,
        ExprV::Variable(n) => if scope.contains(n) {
            None
        } else {
            Some("unknown variable name"@)
        },
        ExprV::Binary(op, l, r) => first_error(
            check_expr(*l, scope, ar),
            first_error(
                check_expr(*r, scope, ar),
                if is_binop(op) {
                    None
                } else {
                    Some("invalid binary operator"@)
                },
            ),
        ),
        ExprV::Call(n, args) => match ar(n) {
            None => Some("unknown function referenced"@),
            Some(k) => if k != args.len() {
                Some("incorrect number of arguments"@)
            } else {
                check_args(args, scope, ar)
            },
        },
        ExprV::If(c, t, f) => first_error(
            check_expr(*c, scope, ar),
            first_error(check_expr(*t, scope, ar), check_expr(*f, scope, ar)),
        ),
        ExprV::For(v, start, end, step, body) => {
            let inner = scope.push(v);
            first_error(
                check_expr(*start, scope, ar),
                first_error(
                    check_expr(*body, inner, ar),
                    first_error(
                        match step {
                            Some(s) => check_expr(*s, inner, ar),
                            None => None,
                        },
                        check_expr(*end, inner, ar),
                    ),
                ),
            )
        },
    }
}

/// The first failure among call arguments, left to right.
pub open spec fn check_args(
    args: Seq<ExprV>,
    scope: Seq<Seq<char>>,
    ar: spec_fn(Seq<char>) -> Option<nat>,
) -> Option<Seq<char>>
    decreases args,
{
    if args.len() == 0 {
        None
    } else {
        first_error(check_expr(args[0], scope, ar), check_args(args.drop_first(), scope, ar))
    }
}

/// A unit `m1` that extends `m0`: functions are only appended, without
/// bodies, and each name takes as many arguments as before.
pub open spec fn grows(m0: Seq<Function>, m1: Seq<Function>, reg: Map<Seq<char>, PrototypeV>) -> bool {
    &&& m0.len() <= m1.len()
    &&& forall|i: int| 0 <= i < m0.len() ==> m1[i] == m0[i]
    &&& forall|i: int| m0.len() <= i < m1.len() ==> m1[i].body is None
    &&& arities(m1, reg) == arities(m0, reg)
}

/// What the outcome of defining `f` in a unit with functions `fs` is, the
/// registry being `reg` before: `None` on success, else the failure.
///
/// The prototype is registered first, so a body may call its own function.
/// The parameters bound are those of the function's declaration in the unit.
pub open spec fn def_outcome(
    fs: Seq<Function>,
    reg: Map<Seq<char>, PrototypeV>,
    f: FunctionV,
) -> Option<Seq<char>> {
    let name = f.proto.name;
    let reg1 = reg.insert(name, f.proto);
    if has_body(fs, name) {
        Some("function cannot be redefined"@)
    } else {
        check_expr(f.body, def_params(fs, f), arities(fs, reg1))
    }
}

/// The parameters a definition of `f` binds in a unit with functions `fs`:
/// those of the unit's declaration of its name, else those of `f`.
pub open spec fn def_params(fs: Seq<Function>, f: FunctionV) -> Seq<Seq<char>> {
    match find_fn(fs, f.proto.name) {
        Some(i) => strings_view(fs[i].params@),
        None => f.proto.params,
    }
}

pub proof fn lemma_grows_trans(
    a: Seq<Function>,
    b: Seq<Function>,
    c: Seq<Function>,
    reg: Map<Seq<char>, PrototypeV>,
)
    requires
        grows(a, b, reg),
        grows(b, c, reg),
    ensures
        grows(a, c, reg),
{
    assert forall|i: int| a.len() <= i < c.len() implies c[i].body is None by {
        if i < b.len() {
            assert(c[i] == b[i]);
        }
    }
}

/// A function found before the unit grew is still the one found.
pub proof fn lemma_grows_find(
    a: Seq<Function>,
    b: Seq<Function>,
    reg: Map<Seq<char>, PrototypeV>,
    name: Seq<char>,
)
    requires
        grows(a, b, reg),
        find_fn(a, name) is Some,
    ensures
        find_fn(b, name) == find_fn(a, name),
{
    lemma_find_fn(a, name);
    let i = find_fn(a, name)->Some_0;
    assert(b[i] == a[i]);
    assert forall|j: int| 0 <= j < i implies b[j].name@ != name by {
        assert(b[j] == a[j]);
    }
    lemma_find_fn_first(b, name, i);
}

pub proof fn lemma_grows_refl(a: Seq<Function>, reg: Map<Seq<char>, PrototypeV>)
    ensures
        grows(a, a, reg),
{
}

/// Bound names are those the lookup finds.
pub proof fn lemma_lookup_scope(env: Seq<(String, usize)>, name: Seq<char>)
    ensures
        (lookup(env, name) is Some) == scope_of(env).contains(name),
    decreases env.len(),
{
    if env.len() > 0 {
        let e0 = env.drop_last();
        lemma_lookup_scope(e0, name);
        assert(scope_of(env) =~= scope_of(e0).push(env.last().0@));
        if env.last().0@ == name {
            assert(scope_of(env)[env.len() - 1] == name);
        }
        if scope_of(e0).contains(name) {
            let k = choose|k: int| 0 <= k < scope_of(e0).len() && scope_of(e0)[k] == name;
            assert(scope_of(env)[k] == name);
        }
        if scope_of(env).contains(name) && env.last().0@ != name {
            let k = choose|k: int| 0 <= k < scope_of(env).len() && scope_of(env)[k] == name;
            assert(scope_of(e0)[k] == name);
        }
    } else {
        assert(!scope_of(env).contains(name));
    }
}



/// The environment as names and values.
pub open spec fn env_view(env: Seq<(String, usize)>) -> Seq<(Seq<char>, usize)> {
    env.map_values(|b: (String, usize)| (b.0@, b.1))
}

/// The value bound to `name` in an environment of names: the innermost
/// binding wins.
pub open spec fn lookup_v(env: Seq<(Seq<char>, usize)>, name: Seq<char>) -> Option<usize>
    decreases env.len(),
{
    if env.len() == 0 {
        None
    } else if env.last().0 == name {
        Some(env.last().1)
    } else {
        lookup_v(env.drop_last(), name)
    }
}

pub proof fn lemma_lookup_view(env: Seq<(String, usize)>, name: Seq<char>)
    ensures
        lookup(env, name) == lookup_v(env_view(env), name),
    decreases env.len(),
{
    if env.len() > 0 {
        assert(env_view(env).drop_last() =~= env_view(env.drop_last()));
        lemma_lookup_view(env.drop_last(), name);
    }
}

/// A body under construction, as values.
pub struct BodyV {
    pub values: Seq<Inst>,
    pub blocks: Seq<Seq<usize>>,
    pub incoming: Seq<(usize, usize, usize)>,
}

pub open spec fn body_view(b: Body) -> BodyV {
    BodyV {
        values: b.values@,
        blocks: b.blocks@.map_values(|x: Vec<usize>| x@),
        incoming: b.incoming@,
    }
}

/// `b1` continues `b0`: values, block contents and merge entries are only
/// appended to.
pub open spec fn extends(b0: BodyV, b1: BodyV) -> bool {
    &&& b0.values.len() <= b1.values.len()
    &&& forall|i: int| 0 <= i < b0.values.len() ==> b1.values[i] == b0.values[i]
    &&& b0.blocks.len() <= b1.blocks.len()
    &&& forall|k: int|
        0 <= k < b0.blocks.len() ==> b0.blocks[k].len() <= b1.blocks[k].len() && forall|j: int|
            0 <= j < b0.blocks[k].len() ==> b1.blocks[k][j] == b0.blocks[k][j]
    &&& b0.incoming.len() <= b1.incoming.len()
    &&& forall|i: int| 0 <= i < b0.incoming.len() ==> b1.incoming[i] == b0.incoming[i]
}

/// Every name found in `fs0` is found at the same index in `fs1`.
pub open spec fn keeps_names(fs0: Seq<Function>, fs1: Seq<Function>) -> bool {
    forall|n: Seq<char>| find_fn(fs0, n) is Some ==> #[trigger] find_fn(fs1, n) == find_fn(fs0, n)
}

/// Value `i` is `inst`.
pub open spec fn at(b: BodyV, i: usize, inst: Inst) -> bool {
    i < b.values.len() && b.values[i as int] == inst
}

/// Value `i` is the constant written `text`.
pub open spec fn is_const(b: BodyV, i: usize, text: Seq<char>) -> bool {
    &&& i < b.values.len()
    &&& b.values[i as int] matches Inst::Const(c) && c@ == text
}

/// Instruction `i` lies in block `k`.
pub open spec fn in_block(b: BodyV, k: usize, i: usize) -> bool {
    k < b.blocks.len() && b.blocks[k as int].contains(i)
}

/// The values an `if` lowers to: the condition `cv`, compared unequal to
/// the constant 0 by `cmp`, which the branch `br` tests to go to block `tb`
/// or `eb`; the values of the two branches, `tv` and `ev`, whose last
/// blocks `te` and `ee` end with jumps `tbr` and `ebr` to the merge block
/// `mb`.
pub struct IfW {
    pub cv: usize,
    pub z: usize,
    pub cmp: usize,
    pub br: usize,
    pub tb: usize,
    pub eb: usize,
    pub tv: usize,
    pub te: usize,
    pub tbr: usize,
    pub ev: usize,
    pub ee: usize,
    pub ebr: usize,
    pub mb: usize,
}

/// The values a `for` lowers to: the start value `sv`, from block `entry`
/// whose jump `ebr` enters the loop block `lb`; the merge node `phi` for the
/// loop variable; the body's value `bv`; the step `st` and the next value
/// `nx`; the end value `ev`, compared unequal to the constant 0 by `cmp`,
/// which the branch `br` at the end of the loop, in block `lend`, tests to go
/// back to `lb` or on to `after`.
pub struct ForW {
    pub sv: usize,
    pub entry: usize,
    pub ebr: usize,
    pub lb: usize,
    pub phi: usize,
    pub bv: usize,
    pub st: usize,
    pub nx: usize,
    pub ev: usize,
    pub z: usize,
    pub cmp: usize,
    pub br: usize,
    pub lend: usize,
    pub after: usize,
}

/// How an expression was lowered: the values chosen at each node that its
/// instruction does not name itself.
pub enum LTree {
    Leaf,
    Bin(Box<LTree>, Box<LTree>),
    Args(Seq<LTree>),
    Cond(IfW, Box<LTree>, Box<LTree>, Box<LTree>),
    Loop(ForW, Box<LTree>, Box<LTree>, Box<LTree>, Box<LTree>),
}

/// Value `v` of body `b` is what `e` lowers to as `t` records, with the
/// names of `env` bound and the functions `fs` of the unit.
///
/// A number is a constant; a variable is its innermost binding; `+`, `-`,
/// `*` are the arithmetic on the operands' values, and `<` their comparison
/// widened to a number; a call passes the arguments' values, in order, to
/// the function the unit finds by the name.
///
/// An `if` compares the condition's value unequal to 0 and branches on it
/// to two blocks; each branch ends with a jump to the merge block, whose
/// merge node takes each branch's value from the block the branch ended in.
///
/// A `for` lowers its start in the current block, which jumps to the loop
/// block; there a merge node takes the start value from that block and the
/// stepped value (merge node plus step, or plus 1) from the block the loop
/// ends in. Body, step and end see the loop variable bound to the merge
/// node. The end's value compared unequal to 0 branches back to the loop
/// block or on. Its value is the constant 0.
pub open spec fn lowers(
    e: ExprV,
    t: LTree,
    env: Seq<(Seq<char>, usize)>,
    fs: Seq<Function>,
    b: BodyV,
    v: usize,
) -> bool
    decreases e,
{
    match e {
        ExprV::Number(n) => is_const(b, v, n),
        ExprV::Variable(n) => lookup_v(env, n) == Some(v),
        ExprV::Binary(op, l, r) => {
            &&& t matches LTree::Bin(tl, tr)
            &&& v < b.values.len()
            &&& if op == '+' {
                b.values[v as int] matches Inst::FAdd(x, y) && lowers(*l, *tl, env, fs, b, x)
                    && lowers(*r, *tr, env, fs, b, y)
            } else if op == '-' {
                b.values[v as int] matches Inst::FSub(x, y) && lowers(*l, *tl, env, fs, b, x)
                    && lowers(*r, *tr, env, fs, b, y)
            } else if op == '*' {
                b.values[v as int] matches Inst::FMul(x, y) && lowers(*l, *tl, env, fs, b, x)
                    && lowers(*r, *tr, env, fs, b, y)
            } else {
                b.values[v as int] matches Inst::UiToFp(k) && k < b.values.len() && (
                b.values[k as int] matches Inst::FCmpUlt(x, y) && lowers(*l, *tl, env, fs, b, x)
                    && lowers(*r, *tr, env, fs, b, y))
            }
        },
        ExprV::Call(n, args) => {
            &&& t matches LTree::Args(ts)
            &&& v < b.values.len()
            &&& b.values[v as int] matches Inst::Call(f, a) && find_fn(fs, n) == Some(f as int)
                && a@.len() == args.len() && ts.len() == args.len() && args_lower(
                args,
                ts,
                a@,
                env,
                fs,
                b,
            )
        },
        ExprV::If(c, th, el) => {
            &&& t matches LTree::Cond(w, tc, tt, te)
            &&& lowers(*c, *tc, env, fs, b, w.cv)
            &&& is_const(b, w.z, "0"@)
            &&& at(b, w.cmp, Inst::FCmpOne(w.cv, w.z))
            &&& at(b, w.br, Inst::CondBr(w.cmp, w.tb, w.eb))
            &&& w.tb != w.eb
            &&& lowers(*th, *tt, env, fs, b, w.tv)
            &&& at(b, w.tbr, Inst::Br(w.mb))
            &&& in_block(b, w.te, w.tbr)
            &&& lowers(*el, *te, env, fs, b, w.ev)
            &&& at(b, w.ebr, Inst::Br(w.mb))
            &&& in_block(b, w.ee, w.ebr)
            &&& v < b.values.len()
            &&& b.values[v as int] matches Inst::Phi(inc) && inc@ == seq![(w.tv, w.te), (w.ev, w.ee)]
            &&& in_block(b, w.mb, v)
        },
        ExprV::For(var, start, end, step, body) => {
            &&& t matches LTree::Loop(w, tsv, tbd, tst, ten)
            &&& is_const(b, v, "0"@)
            &&& lowers(*start, *tsv, env, fs, b, w.sv)
            &&& at(b, w.ebr, Inst::Br(w.lb))
            &&& in_block(b, w.entry, w.ebr)
            &&& w.phi < b.values.len()
            &&& b.values[w.phi as int] matches Inst::Phi(inc) && inc@ == seq![(w.sv, w.entry)]
            &&& in_block(b, w.lb, w.phi)
            &&& lowers(*body, *tbd, env.push((var, w.phi)), fs, b, w.bv)
            &&& match step {
                Some(st) => lowers(*st, *tst, env.push((var, w.phi)), fs, b, w.st),
                None => is_const(b, w.st, "1"@),
            }
            &&& at(b, w.nx, Inst::FAdd(w.phi, w.st))
            &&& lowers(*end, *ten, env.push((var, w.phi)), fs, b, w.ev)
            &&& is_const(b, w.z, "0"@)
            &&& at(b, w.cmp, Inst::FCmpOne(w.ev, w.z))
            &&& at(b, w.br, Inst::CondBr(w.cmp, w.lb, w.after))
            &&& in_block(b, w.lend, w.br)
            &&& b.incoming.contains((w.phi, w.nx, w.lend))
        },
    }
}

/// Each argument lowers to the value at its position.
pub open spec fn args_lower(
    args: Seq<ExprV>,
    ts: Seq<LTree>,
    vals: Seq<usize>,
    env: Seq<(Seq<char>, usize)>,
    fs: Seq<Function>,
    b: BodyV,
) -> bool
    decreases args,
{
    if args.len() == 0 {
        true
    } else {
        &&& ts.len() == args.len()
        &&& vals.len() == args.len()
        &&& args_lower(args.drop_last(), ts.drop_last(), vals.drop_last(), env, fs, b)
        &&& lowers(args.last(), ts.last(), env, fs, b, vals.last())
    }
}

proof fn lemma_in_block_extend(b0: BodyV, b1: BodyV, k: usize, i: usize)
    requires
        extends(b0, b1),
        in_block(b0, k, i),
    ensures
        in_block(b1, k, i),
{
    let j = choose|j: int| 0 <= j < b0.blocks[k as int].len() && b0.blocks[k as int][j] == i;
    assert(b1.blocks[k as int][j] == i);
}

/// What a value lowers to stays so while the body and the unit grow.
pub proof fn lemma_lowers_extend(
    e: ExprV,
    t: LTree,
    env: Seq<(Seq<char>, usize)>,
    fs0: Seq<Function>,
    fs1: Seq<Function>,
    b0: BodyV,
    b1: BodyV,
    v: usize,
)
    requires
        lowers(e, t, env, fs0, b0, v),
        keeps_names(fs0, fs1),
        extends(b0, b1),
    ensures
        lowers(e, t, env, fs1, b1, v),
    decreases e,
{
    match e {
        ExprV::Number(_) => {},
        ExprV::Variable(_) => {},
        ExprV::Binary(op, l, r) => {
            let (tl, tr) = match t {
                LTree::Bin(tl, tr) => (*tl, *tr),
                _ => (t, t),
            };
            match b0.values[v as int] {
                Inst::FAdd(x, y) => {
                    lemma_lowers_extend(*l, tl, env, fs0, fs1, b0, b1, x);
                    lemma_lowers_extend(*r, tr, env, fs0, fs1, b0, b1, y);
                },
                Inst::FSub(x, y) => {
                    lemma_lowers_extend(*l, tl, env, fs0, fs1, b0, b1, x);
                    lemma_lowers_extend(*r, tr, env, fs0, fs1, b0, b1, y);
                },
                Inst::FMul(x, y) => {
                    lemma_lowers_extend(*l, tl, env, fs0, fs1, b0, b1, x);
                    lemma_lowers_extend(*r, tr, env, fs0, fs1, b0, b1, y);
                },
                Inst::UiToFp(k) => {
                    if let Inst::FCmpUlt(x, y) = b0.values[k as int] {
                        lemma_lowers_extend(*l, tl, env, fs0, fs1, b0, b1, x);
                        lemma_lowers_extend(*r, tr, env, fs0, fs1, b0, b1, y);
                        assert(b1.values[k as int] == b0.values[k as int]);
                    }
                },
                _ => {},
            }
            assert(b1.values[v as int] == b0.values[v as int]);
        },
        ExprV::Call(n, args) => {
            let ts = t->Args_0;
            let a = b0.values[v as int]->Call_1;
            assert(b1.values[v as int] == b0.values[v as int]);
            assert(find_fn(fs1, n) == find_fn(fs0, n));
            lemma_args_lower_extend(args, ts, a@, env, fs0, fs1, b0, b1);
        },
        ExprV::If(c, th, el) => {
            if let LTree::Cond(w, tc, tt, te) = t {
                lemma_lowers_extend(*c, *tc, env, fs0, fs1, b0, b1, w.cv);
                lemma_lowers_extend(*th, *tt, env, fs0, fs1, b0, b1, w.tv);
                lemma_lowers_extend(*el, *te, env, fs0, fs1, b0, b1, w.ev);
                lemma_in_block_extend(b0, b1, w.te, w.tbr);
                lemma_in_block_extend(b0, b1, w.ee, w.ebr);
                lemma_in_block_extend(b0, b1, w.mb, v);
                assert(b1.values[v as int] == b0.values[v as int]);
                assert(b1.values[w.z as int] == b0.values[w.z as int]);
            }
        },
        ExprV::For(var, start, end, step, body) => {
            if let LTree::Loop(w, tsv, tbd, tst, ten) = t {
                let inner = env.push((var, w.phi));
                lemma_lowers_extend(*start, *tsv, env, fs0, fs1, b0, b1, w.sv);
                lemma_lowers_extend(*body, *tbd, inner, fs0, fs1, b0, b1, w.bv);
                if let Some(st) = step {
                    lemma_lowers_extend(*st, *tst, inner, fs0, fs1, b0, b1, w.st);
                } else {
                    assert(b1.values[w.st as int] == b0.values[w.st as int]);
                }
                lemma_lowers_extend(*end, *ten, inner, fs0, fs1, b0, b1, w.ev);
                lemma_in_block_extend(b0, b1, w.entry, w.ebr);
                lemma_in_block_extend(b0, b1, w.lb, w.phi);
                lemma_in_block_extend(b0, b1, w.lend, w.br);
                let k = choose|k: int|
                    0 <= k < b0.incoming.len() && b0.incoming[k] == (w.phi, w.nx, w.lend);
                assert(b1.incoming[k] == (w.phi, w.nx, w.lend));
                assert(b1.values[v as int] == b0.values[v as int]);
                assert(b1.values[w.z as int] == b0.values[w.z as int]);
                assert(b1.values[w.phi as int] == b0.values[w.phi as int]);
            }
        },
    }
}

pub proof fn lemma_args_lower_extend(
    args: Seq<ExprV>,
    ts: Seq<LTree>,
    vals: Seq<usize>,
    env: Seq<(Seq<char>, usize)>,
    fs0: Seq<Function>,
    fs1: Seq<Function>,
    b0: BodyV,
    b1: BodyV,
)
    requires
        args_lower(args, ts, vals, env, fs0, b0),
        keeps_names(fs0, fs1),
        extends(b0, b1),
    ensures
        args_lower(args, ts, vals, env, fs1, b1),
    decreases args,
{
    if args.len() > 0 {
        lemma_args_lower_extend(args.drop_last(), ts.drop_last(), vals.drop_last(), env, fs0, fs1, b0, b1);
        lemma_lowers_extend(args.last(), ts.last(), env, fs0, fs1, b0, b1, vals.last());
    }
}

/// Lift what a value lowers to along growth of the unit and the body.
pub proof fn lemma_lift(
    e: ExprV,
    t: LTree,
    env: Seq<(Seq<char>, usize)>,
    fs0: Seq<Function>,
    fs1: Seq<Function>,
    reg: Map<Seq<char>, PrototypeV>,
    b0: BodyV,
    b1: BodyV,
    v: usize,
)
    requires
        lowers(e, t, env, fs0, b0, v),
        grows(fs0, fs1, reg),
        extends(b0, b1),
    ensures
        lowers(e, t, env, fs1, b1, v),
{
    lemma_grows_keeps_names(fs0, fs1, reg);
    lemma_lowers_extend(e, t, env, fs0, fs1, b0, b1, v);
}

pub proof fn lemma_lift_args(
    args: Seq<ExprV>,
    ts: Seq<LTree>,
    vals: Seq<usize>,
    env: Seq<(Seq<char>, usize)>,
    fs0: Seq<Function>,
    fs1: Seq<Function>,
    reg: Map<Seq<char>, PrototypeV>,
    b0: BodyV,
    b1: BodyV,
)
    requires
        args_lower(args, ts, vals, env, fs0, b0),
        grows(fs0, fs1, reg),
        extends(b0, b1),
    ensures
        args_lower(args, ts, vals, env, fs1, b1),
{
    lemma_grows_keeps_names(fs0, fs1, reg);
    lemma_args_lower_extend(args, ts, vals, env, fs0, fs1, b0, b1);
}

/// Growing a unit keeps what its names find.
pub proof fn lemma_grows_keeps_names(
    a: Seq<Function>,
    b: Seq<Function>,
    reg: Map<Seq<char>, PrototypeV>,
)
    requires
        grows(a, b, reg),
    ensures
        keeps_names(a, b),
{
    assert forall|n: Seq<char>| find_fn(a, n) is Some implies #[trigger] find_fn(b, n) == find_fn(a, n) by {
        lemma_grows_find(a, b, reg, n);
    }
}

/// What defining `f` does, from functions `fs0` and registry `reg0` to `fs1`
/// and `reg1` with result `r`: the prototype is registered in any case; the
/// outcome is the one `def_outcome` gives; on success the function has a
/// body that returns the body's value; other functions stay as they were.
pub open spec fn defined(
    fs0: Seq<Function>,
    reg0: Map<Seq<char>, PrototypeV>,
    f: FunctionV,
    fs1: Seq<Function>,
    reg1: Map<Seq<char>, PrototypeV>,
    r: Result<usize, String>,
) -> bool {
    let name = f.proto.name;
    &&& reg1 == reg0.insert(name, f.proto)
    &&& fs0.len() <= fs1.len()
    &&& forall|j: int| 0 <= j < fs0.len() && fs0[j].name@ != name ==> fs1[j] == fs0[j]
    &&& match r {
        Err(m) => {
            &&& def_outcome(fs0, reg0, f) == Some(m@)
            &&& forall|j: int| 0 <= j < fs0.len() ==> fs1[j] == fs0[j]
        },
        Ok(i) => {
            &&& def_outcome(fs0, reg0, f) is None
            &&& find_fn(fs1, name) == Some(i as int)
            &&& strings_view(fs1[i as int].params@) == def_params(fs0, f)
            &&& fs1[i as int].body matches Some(b) && returns_value(
                f.body,
                def_params(fs0, f),
                fs1,
                body_view(b),
            )
        },
    }
}

/// A body whose first values are the parameters `params`, in order, and
/// which ends by returning what `e` lowers to with them bound.
#[verifier::opaque]
pub open spec fn returns_value(e: ExprV, params: Seq<Seq<char>>, fs: Seq<Function>, b: BodyV) -> bool {
    &&& params.len() < b.values.len()
    &&& forall|i: int| 0 <= i < params.len() ==> b.values[i] == Inst::Arg(i as usize)
    &&& b.values.last() is Ret
    &&& forall|v: usize|
        b.values.last() == Inst::Ret(v) ==> exists|t: LTree|
            #[trigger] lowers(e, t, param_env(params), fs, b, v)
}

/// The parameters bound, in order, to the first values of a body.
pub open spec fn param_env(params: Seq<Seq<char>>) -> Seq<(Seq<char>, usize)> {
    Seq::new(params.len(), |i: int| (params[i], i as usize))
}

/// Replacing a function by one of the same name leaves every lookup as it was.
pub proof fn lemma_find_fn_update(fs: Seq<Function>, k: int, x: Function, name: Seq<char>)
    requires
        0 <= k < fs.len(),
        fs[k].name@ == x.name@,
    ensures
        find_fn(fs.update(k, x), name) == find_fn(fs, name),
{
    let gs = fs.update(k, x);
    lemma_find_fn(fs, name);
    if let Some(i) = find_fn(fs, name) {
        assert forall|j: int| 0 <= j < i implies gs[j].name@ != name by {
            if j != k {
                assert(gs[j] == fs[j]);
            }
        }
        lemma_find_fn_first(gs, name, i);
    } else {
        assert forall|j: int| 0 <= j < gs.len() implies gs[j].name@ != name by {
            if j != k {
                assert(gs[j] == fs[j]);
            }
        }
        lemma_find_fn(gs, name);
    }
}


/// Within one unit, a name defined with success cannot be defined again:
/// any later definition of it there fails with "function cannot be
/// redefined".
pub proof fn lemma_redefinition_in_unit(
    fs0: Seq<Function>,
    reg0: Map<Seq<char>, PrototypeV>,
    f: FunctionV,
    fs1: Seq<Function>,
    reg1: Map<Seq<char>, PrototypeV>,
    i: usize,
    g: FunctionV,
)
    requires
        defined(fs0, reg0, f, fs1, reg1, Ok::<usize, String>(i)),
        g.proto.name == f.proto.name,
    ensures
        def_outcome(fs1, reg1, g) == Some("function cannot be redefined"@),
{
}

/// Across units a definition can be repeated: when `f` was defined with
/// success in a fresh unit, defining it again in another fresh unit, with
/// the registry that the first definition left, succeeds as well.
pub proof fn lemma_redefinition_in_fresh_unit(
    reg0: Map<Seq<char>, PrototypeV>,
    f: FunctionV,
    fs1: Seq<Function>,
    reg1: Map<Seq<char>, PrototypeV>,
    i: usize,
)
    requires
        defined(Seq::empty(), reg0, f, fs1, reg1, Ok::<usize, String>(i)),
    ensures
        def_outcome(Seq::empty(), reg1, f) is None,
{
    assert(reg1.insert(f.proto.name, f.proto) =~= reg1);
    assert(arities(Seq::empty(), reg1.insert(f.proto.name, f.proto)) =~= arities(Seq::empty(), reg1));
}

/// A definition whose body is a loop returns the constant 0.
pub proof fn lemma_loop_value_is_zero(
    fs0: Seq<Function>,
    reg0: Map<Seq<char>, PrototypeV>,
    f: FunctionV,
    fs1: Seq<Function>,
    reg1: Map<Seq<char>, PrototypeV>,
    i: usize,
)
    requires
        defined(fs0, reg0, f, fs1, reg1, Ok::<usize, String>(i)),
        f.body is For,
    ensures
        fs1[i as int].body matches Some(b) && b.values@.last() matches Inst::Ret(v) && is_const(
            body_view(b),
            v,
            "0"@,
        ),
{
    reveal(returns_value);
    let b = fs1[i as int].body->Some_0;
    let v = b.values@.last()->Ret_0;
    let t = choose|t: LTree| lowers(f.body, t, param_env(def_params(fs0, f)), fs1, body_view(b), v);
}

/// Calling a function that neither the unit nor the registry declares fails
/// with "unknown function referenced"; calling a declared one with another
/// number of arguments than it takes fails with "incorrect number of
/// arguments".
pub proof fn lemma_call_failures(
    name: Seq<char>,
    args: Seq<ExprV>,
    scope: Seq<Seq<char>>,
    ar: spec_fn(Seq<char>) -> Option<nat>,
)
    ensures
        ar(name) is None ==> check_expr(ExprV::Call(name, args), scope, ar) == Some(
            "unknown function referenced"@,
        ),
        ar(name) matches Some(k) && k != args.len() ==> check_expr(
            ExprV::Call(name, args),
            scope,
            ar,
        ) == Some("incorrect number of arguments"@),
{
}

/// A name bound neither as a parameter nor as an enclosing loop variable
/// fails with "unknown variable name".
pub proof fn lemma_unbound_variable(
    name: Seq<char>,
    scope: Seq<Seq<char>>,
    ar: spec_fn(Seq<char>) -> Option<nat>,
)
    requires
        !scope.contains(name),
    ensures
        check_expr(ExprV::Variable(name), scope, ar) == Some("unknown variable name"@),
{
}

/// A loop variable is bound inside the loop whatever the bindings around it:
/// the body, step and end of a loop see its name.
pub proof fn lemma_loop_variable_bound(
    var: Seq<char>,
    start: ExprV,
    end: ExprV,
    body: ExprV,
    scope: Seq<Seq<char>>,
    ar: spec_fn(Seq<char>) -> Option<nat>,
)
    requires
        check_expr(start, scope, ar) is None,
        check_expr(end, scope, ar) is None,
    ensures
        check_expr(
            ExprV::For(var, Box::new(start), Box::new(end), None, Box::new(ExprV::Variable(var))),
            scope,
            ar,
        ) is None,
{
    let inner = scope.push(var);
    assert(inner[scope.len() as int] == var);
    assert(inner.contains(var));
    assert(check_expr(ExprV::Variable(var), inner, ar) is None);
    lemma_scope_push_keeps(end, scope, var, ar);
}

/// Binding one more name never makes lowering fail where it did not.
pub proof fn lemma_scope_push_keeps(
    e: ExprV,
    scope: Seq<Seq<char>>,
    var: Seq<char>,
    ar: spec_fn(Seq<char>) -> Option<nat>,
)
    requires
        check_expr(e, scope, ar) is None,
    ensures
        check_expr(e, scope.push(var), ar) is None,
    decreases e,
{
    assert forall|n: Seq<char>| scope.contains(n) implies scope.push(var).contains(n) by {
        let k = choose|k: int| 0 <= k < scope.len() && scope[k] == n;
        assert(scope.push(var)[k] == n);
    }
    lemma_scope_push_keeps_gen(e, scope, scope.push(var), ar);
}

proof fn lemma_scope_push_keeps_gen(
    e: ExprV,
    s1: Seq<Seq<char>>,
    s2: Seq<Seq<char>>,
    ar: spec_fn(Seq<char>) -> Option<nat>,
)
    requires
        check_expr(e, s1, ar) is None,
        forall|n: Seq<char>| s1.contains(n) ==> s2.contains(n),
    ensures
        check_expr(e, s2, ar) is None,
    decreases e,
{
    match e {
        ExprV::Binary(_, l, r) => {
            lemma_scope_push_keeps_gen(*l, s1, s2, ar);
            lemma_scope_push_keeps_gen(*r, s1, s2, ar);
        },
        ExprV::Call(_, args) => {
            lemma_args_scope_keeps(args, s1, s2, ar);
        },
        ExprV::If(c, t, f) => {
            lemma_scope_push_keeps_gen(*c, s1, s2, ar);
            lemma_scope_push_keeps_gen(*t, s1, s2, ar);
            lemma_scope_push_keeps_gen(*f, s1, s2, ar);
        },
        ExprV::For(v, start, end, step, body) => {
            let i1 = s1.push(v);
            let i2 = s2.push(v);
            assert forall|n: Seq<char>| i1.contains(n) implies i2.contains(n) by {
                if n == v {
                    assert(i2[s2.len() as int] == v);
                } else {
                    let k = choose|k: int| 0 <= k < i1.len() && i1[k] == n;
                    assert(k < s1.len());
                    assert(s1[k] == n);
                    assert(s1.contains(n));
                    assert(s2.contains(n));
                    let k2 = choose|k2: int| 0 <= k2 < s2.len() && s2[k2] == n;
                    assert(i2[k2] == n);
                }
            }
            lemma_scope_push_keeps_gen(*start, s1, s2, ar);
            lemma_scope_push_keeps_gen(*body, i1, i2, ar);
            if let Some(st) = step {
                lemma_scope_push_keeps_gen(*st, i1, i2, ar);
            }
            lemma_scope_push_keeps_gen(*end, i1, i2, ar);
        },
        _ => {},
    }
}

proof fn lemma_args_scope_keeps(
    args: Seq<ExprV>,
    s1: Seq<Seq<char>>,
    s2: Seq<Seq<char>>,
    ar: spec_fn(Seq<char>) -> Option<nat>,
)
    requires
        check_args(args, s1, ar) is None,
        forall|n: Seq<char>| s1.contains(n) ==> s2.contains(n),
    ensures
        check_args(args, s2, ar) is None,
    decreases args,
{
    if args.len() > 0 {
        lemma_scope_push_keeps_gen(args[0], s1, s2, ar);
        lemma_args_scope_keeps(args.drop_first(), s1, s2, ar);
    }
}

/// A binding pushed on an environment is found for its name, and popping it
/// gives back the environment as it was: a loop variable shadows a
/// parameter of the same name inside the loop, and the parameter is found
/// again after it.
pub proof fn lemma_shadow_restore(env: Seq<(String, usize)>, var: String, v: usize)
    ensures
        lookup(env.push((var, v)), var@) == Some(v),
        env.push((var, v)).drop_last() == env,
        forall|n: Seq<char>| n != var@ ==> lookup(env.push((var, v)), n) == lookup(env, n),
{
    assert(env.push((var, v)).drop_last() =~= env);
}

/// The value bound to `name` in `env`.
fn lookup_var(env: &Vec<(String, usize)>, name: &String) -> (r: Option<usize>)
    ensures
        r == lookup(env@, name@),
{
    let mut i: usize = env.len();
    assert(env@.subrange(0, i as int) =~= env@);
    while i > 0
        invariant
            i <= env@.len(),
            lookup(env@, name@) == lookup(env@.subrange(0, i as int), name@),
        decreases i,
    {
        let ghost sub = env@.subrange(0, i as int);
        assert(sub.drop_last() =~= env@.subrange(0, i - 1));
        if env[i - 1].0 == *name {
            return Some(env[i - 1].1);
        }
        i = i - 1;
    }
    None
}

/// The parameters of function `i` are those registered for `name`.
#[verifier::opaque]
pub open spec fn params_registered(
    fs: Seq<Function>,
    i: int,
    reg: Map<Seq<char>, PrototypeV>,
    name: Seq<char>,
) -> bool {
    strings_view(fs[i].params@) == reg[name].params
}

/// Resolve `name` to a function of the unit: its declaration if the unit
/// has one, else a declaration made from its registered prototype.
fn get_function(module: &mut Module, reg: &PrototypeRegistry, name: &String) -> (r: Option<usize>)
    ensures
        grows(old(module).functions@, final(module).functions@, reg@),
        r is None <==> arity(old(module).functions@, reg@, name@) is None,
        r is None || find_fn(old(module).functions@, name@) is Some ==> final(module).functions@
            == old(module).functions@,
        r matches Some(i) ==> i < final(module).functions@.len() && find_fn(
            final(module).functions@,
            name@,
        ) == Some(i as int) && Some(
            final(module).functions@[i as int].params@.len(),
        ) == arity(old(module).functions@, reg@, name@),
        r matches Some(i) ==> find_fn(old(module).functions@, name@) is None ==> params_registered(
            final(module).functions@,
            i as int,
            reg@,
            name@,
        ),
{
    proof {
        lemma_find_fn(module.functions@, name@);
        lemma_grows_refl(module.functions@, reg@);
    }
    match module.get_fn(name) {
        Some(i) => Some(i),
        None => match reg.lookup(name) {
            None => None,
            Some(proto) => {
                let f = Function { name: name.clone(), params: copy_names(&proto.1), body: None };
                let ghost fs0 = module.functions@;
                let i = module.functions.len();
                module.functions.push(f);
                proof {
                    let fs1 = module.functions@;
                    assert forall|n: Seq<char>| arity(fs1, reg@, n) == arity(fs0, reg@, n) by {
                        lemma_find_fn_push(fs0, f, n);
                        lemma_find_fn(fs0, n);
                        if let Some(k) = find_fn(fs0, n) {
                            assert(fs1[k] == fs0[k]);
                        }
                    }
                    assert(arities(fs1, reg@) =~= arities(fs0, reg@));
                    lemma_find_fn_push(fs0, f, name@);
                    assert(strings_view(f.params@).len() == f.params@.len());
                    reveal(params_registered);
                }
                Some(i)
            },
        },
    }
}

/// Resolve the callee of a call with `nargs` arguments, and check that it
/// takes as many.
fn resolve_callee(module: &mut Module, reg: &PrototypeRegistry, name: &String, nargs: usize) -> (r:
    Result<usize, String>)
    ensures
        grows(old(module).functions@, final(module).functions@, reg@),
        ({
            let ar = arity(old(module).functions@, reg@, name@);
            match r {
                Err(m) => (ar is None && m@ == "unknown function referenced"@) || (ar matches Some(
                    k,
                ) && k != nargs && m@ == "incorrect number of arguments"@),
                Ok(f) => ar == Some(nargs as nat) && find_fn(final(module).functions@, name@)
                    == Some(f as int),
            }
        }),
{
    let f = match get_function(module, reg, name) {
        Some(f) => f,
        None => return err("unknown function referenced"),
    };
    if module.functions[f].params.len() != nargs {
        return err("incorrect number of arguments");
    }
    Ok(f)
}

/// Declare the function of `proto` in the unit, unless it is declared.
fn codegen_prototype(module: &mut Module, proto: &PrototypeAST) -> (r: usize)
    ensures
        find_fn(final(module).functions@, proto.0@) == Some(r as int),
        find_fn(old(module).functions@, proto.0@) is Some ==> final(module).functions@ == old(module).functions@,
        find_fn(old(module).functions@, proto.0@) is None ==> final(module).functions@.len()
            == old(module).functions@.len() + 1 && final(module).functions@.drop_last() == old(module).functions@ && final(module).functions@.last().body is None && strings_view(
            final(module).functions@.last().params@,
        ) == proto@.params,
{
    match module.get_fn(&proto.0) {
        Some(i) => i,
        None => {
            let f = Function { name: proto.0.clone(), params: copy_names(&proto.1), body: None };
            let ghost fs0 = module.functions@;
            let i = module.functions.len();
            module.functions.push(f);
            proof {
                lemma_find_fn_push(fs0, f, proto.0@);
                assert(module.functions@.drop_last() =~= fs0);
            }
            i
        },
    }
}


/// Whether lowering `e` fails, with the environment `env` and the unit's
/// functions `fs0` before: with the failure that `check_expr` names.
pub open spec fn lowered(
    e: ExprV,
    env: Seq<(String, usize)>,
    fs0: Seq<Function>,
    reg: Map<Seq<char>, PrototypeV>,
    fs1: Seq<Function>,
    b: BodyV,
    r: Result<usize, String>,
) -> bool {
    let failure = check_expr(e, scope_of(env), arities(fs0, reg));
    match r {
        Err(m) => failure == Some(m@),
        Ok(v) => failure is None,
    }
}

/// The value lowering gave is what `lowers` describes, for some record.
pub open spec fn lowered_value(
    e: ExprV,
    env: Seq<(String, usize)>,
    fs1: Seq<Function>,
    b: BodyV,
    r: Result<usize, String>,
) -> bool {
    forall|v: usize|
        r == Ok::<usize, String>(v) ==> exists|t: LTree| #[trigger] lowers(e, t, env_view(env), fs1, b, v)
}

/// A call whose callee is unknown or takes another number of arguments.
pub open spec fn call_refused(e: ExprV, fs: Seq<Function>, reg: Map<Seq<char>, PrototypeV>) -> bool {
    e matches ExprV::Call(n, args) && arity(fs, reg, n) != Some(args.len())
}

/// Code generator state while a function body is built: the index of the
/// function in the unit, its body, and the block that instructions go to.
pub struct Codegen {
    func: usize,
    body: Body,
    cur_block: usize,
}

/// `c1` continues `c0`: same function, and the body only appended to.
pub closed spec fn advances(c0: Codegen, c1: Codegen) -> bool {
    &&& c1.wf()
    &&& c1.func == c0.func
    &&& extends(c0.bview(), c1.bview())
}

fn err<T>(msg: &str) -> (r: Result<T, String>)
    ensures
        r matches Err(e) && e@ == msg@,
{
    Err(String::from_str(msg))
}

impl Codegen {
    pub closed spec fn wf(&self) -> bool {
        self.cur_block < self.body.blocks@.len()
    }

    /// The body being built.
    pub closed spec fn bview(&self) -> BodyV {
        body_view(self.body)
    }

    /// The values of the body being built.
    pub closed spec fn values(&self) -> Seq<Inst> {
        self.body.values@
    }

    pub closed spec fn block_count(&self) -> nat {
        self.body.blocks@.len()
    }

    /// Add `inst` at the end of the current block.
    fn emit(&mut self, inst: Inst) -> (r: usize)
        requires
            old(self).wf(),
        ensures
            advances(*old(self), *final(self)),
            r == old(self).values().len(),
            final(self).values() == old(self).values().push(inst),
            final(self).cur_block == old(self).cur_block,
            final(self).block_count() == old(self).block_count(),
            in_block(final(self).bview(), final(self).cur_block, r),
    {
        let ghost b0 = self.bview();
        let r = self.body.values.len();
        self.body.values.push(inst);
        let cur = self.cur_block;
        self.body.blocks[cur].push(r);
        proof {
            let b1 = self.bview();
            assert forall|k: int|
                0 <= k < b0.blocks.len() implies b0.blocks[k].len() <= b1.blocks[k].len() && forall|
                    j: int,
                |
                    0 <= j < b0.blocks[k].len() ==> b1.blocks[k][j] == b0.blocks[k][j] by {
                if k != cur {
                    assert(self.body.blocks@[k] == old(self).body.blocks@[k]);
                }
            }
            assert(b1.blocks[cur as int][b0.blocks[cur as int].len() as int] == r);
        }
        r
    }

    /// A numeric constant.
    fn constant(&mut self, text: &str) -> (r: usize)
        requires
            old(self).wf(),
        ensures
            advances(*old(self), *final(self)),
            r == old(self).values().len(),
            final(self).values().len() == old(self).values().len() + 1,
            is_const(final(self).bview(), r, text@),
            final(self).cur_block == old(self).cur_block,
            final(self).block_count() == old(self).block_count(),
    {
        let r = self.body.values.len();
        self.body.values.push(Inst::Const(String::from_str(text)));
        r
    }

    /// A new block, not yet placed in the function.
    fn create_block(&mut self) -> (r: usize)
        requires
            old(self).wf(),
        ensures
            advances(*old(self), *final(self)),
            r == old(self).block_count(),
            final(self).block_count() == old(self).block_count() + 1,
            final(self).values() == old(self).values(),
            final(self).cur_block == old(self).cur_block,
    {
        let ghost b0 = self.bview();
        let r = self.body.blocks.len();
        self.body.blocks.push(Vec::new());
        proof {
            let b1 = self.bview();
            assert forall|k: int| 0 <= k < b0.blocks.len() implies b1.blocks[k] == b0.blocks[k] by {
                assert(self.body.blocks@[k] == old(self).body.blocks@[k]);
            }
        }
        r
    }

    /// Place block `b` at the end of the function.
    fn append_block(&mut self, b: usize)
        requires
            old(self).wf(),
        ensures
            advances(*old(self), *final(self)),
            final(self).bview() == old(self).bview(),
            final(self).values() == old(self).values(),
            final(self).block_count() == old(self).block_count(),
            final(self).cur_block == old(self).cur_block,
    {
        self.body.layout.push(b);
    }

    /// Send further instructions to block `b`.
    fn position_at(&mut self, b: usize)
        requires
            old(self).wf(),
            b < old(self).block_count(),
        ensures
            advances(*old(self), *final(self)),
            final(self).bview() == old(self).bview(),
            final(self).values() == old(self).values(),
            final(self).block_count() == old(self).block_count(),
            final(self).cur_block == b,
    {
        self.cur_block = b;
    }

    /// Give merge node `phi` the value `v` from block `from`.
    fn add_incoming(&mut self, phi: usize, v: usize, from: usize)
        requires
            old(self).wf(),
        ensures
            advances(*old(self), *final(self)),
            final(self).bview().incoming == old(self).bview().incoming.push((phi, v, from)),
            final(self).values() == old(self).values(),
            final(self).block_count() == old(self).block_count(),
            final(self).cur_block == old(self).cur_block,
    {
        self.body.incoming.push((phi, v, from));
    }

    /// Lower `expr` into the body, with the variables of `env` bound.
    fn codegen_expr(
        &mut self,
        module: &mut Module,
        reg: &PrototypeRegistry,
        expr: &ExprAST,
        env: &mut Vec<(String, usize)>,
    ) -> (r: Result<usize, String>)
        requires
            old(self).wf(),
        ensures
            advances(*old(self), *final(self)),
            grows(old(module).functions@, final(module).functions@, reg@),
            final(env)@ == old(env)@,
            lowered(
                expr@,
                old(env)@,
                old(module).functions@,
                reg@,
                final(module).functions@,
                final(self).bview(),
                r,
            ),
            lowered_value(
                expr@,
                old(env)@,
                final(module).functions@,
                final(self).bview(),
                r,
            ),
            call_refused(expr@, old(module).functions@, reg@) ==> final(self).values() == old(
                self,
            ).values(),
        decreases expr, 2nat,
    {
        proof {
            lemma_grows_refl(module.functions@, reg@);
        }
        match expr {
            ExprAST::Number(n) => {
                let v = self.constant(n.as_str());
                assert(lowers(expr@, LTree::Leaf, env_view(env@), module.functions@, self.bview(), v));
                Ok(v)
            },
            ExprAST::Variable(name) => {
                proof {
                    lemma_lookup_scope(env@, name@);
                    lemma_lookup_view(env@, name@);
                }
                match lookup_var(env, name) {
                    Some(v) => {
                        assert(lowers(
                            expr@,
                            LTree::Leaf,
                            env_view(env@),
                            module.functions@,
                            self.bview(),
                            v,
                        ));
                        Ok(v)
                    },
                    None => err("unknown variable name"),
                }
            },
            ExprAST::Binary(_, _, _) => self.codegen_binary(module, reg, expr, env),
            ExprAST::Call(_, _) => self.codegen_call(module, reg, expr, env),
            ExprAST::If { .. } => self.codegen_if(module, reg, expr, env),
            ExprAST::For { .. } => self.codegen_for(module, reg, expr, env),
        }
    }

    fn codegen_binary(
        &mut self,
        module: &mut Module,
        reg: &PrototypeRegistry,
        expr: &ExprAST,
        env: &mut Vec<(String, usize)>,
    ) -> (r: Result<usize, String>)
        requires
            old(self).wf(),
            expr is Binary,
        ensures
            advances(*old(self), *final(self)),
            grows(old(module).functions@, final(module).functions@, reg@),
            final(env)@ == old(env)@,
            lowered(
                expr@,
                old(env)@,
                old(module).functions@,
                reg@,
                final(module).functions@,
                final(self).bview(),
                r,
            ),
            lowered_value(
                expr@,
                old(env)@,
                final(module).functions@,
                final(self).bview(),
                r,
            ),
        decreases expr, 1nat,
    {
        let ghost fs0 = module.functions@;
        let ghost ev = env_view(env@);
        let (op, lhs, rhs) = match expr {
            ExprAST::Binary(op, l, r) => (*op, l, r),
            _ => vstd::pervasive::unreached(),
        };
        let l = match self.codegen_expr(module, reg, lhs, env) {
            Ok(v) => v,
            Err(e) => return Err(e),
        };
        let ghost fs1 = module.functions@;
        let ghost b1 = self.bview();
        let ghost tl = choose|t: LTree| lowers(expr_view(**lhs), t, ev, fs1, b1, l);
        let r = match self.codegen_expr(module, reg, rhs, env) {
            Ok(v) => v,
            Err(e) => {
                proof {
                    lemma_grows_trans(fs0, fs1, module.functions@, reg@);
                }
                return Err(e);
            },
        };
        let ghost fs2 = module.functions@;
        let ghost b2 = self.bview();
        let ghost tr = choose|t: LTree| lowers(expr_view(**rhs), t, ev, fs2, b2, r);
        proof {
            lemma_grows_trans(fs0, fs1, fs2, reg@);
            lemma_grows_refl(fs2, reg@);
        }
        let ghost t = LTree::Bin(Box::new(tl), Box::new(tr));
        let v = if op == '+' {
            self.emit(Inst::FAdd(l, r))
        } else if op == '-' {
            self.emit(Inst::FSub(l, r))
        } else if op == '*' {
            self.emit(Inst::FMul(l, r))
        } else if op == '<' {
            let c = self.emit(Inst::FCmpUlt(l, r));
            self.emit(Inst::UiToFp(c))
        } else {
            return err("invalid binary operator");
        };
        proof {
            lemma_lift(expr_view(**lhs), tl, ev, fs1, fs2, reg@, b1, self.bview(), l);
            lemma_lift(expr_view(**rhs), tr, ev, fs2, fs2, reg@, b2, self.bview(), r);
            assert(lowers(expr@, t, ev, fs2, self.bview(), v));
        }
        Ok(v)
    }

    fn codegen_call(
        &mut self,
        module: &mut Module,
        reg: &PrototypeRegistry,
        expr: &ExprAST,
        env: &mut Vec<(String, usize)>,
    ) -> (r: Result<usize, String>)
        requires
            old(self).wf(),
            expr is Call,
        ensures
            advances(*old(self), *final(self)),
            grows(old(module).functions@, final(module).functions@, reg@),
            final(env)@ == old(env)@,
            lowered(
                expr@,
                old(env)@,
                old(module).functions@,
                reg@,
                final(module).functions@,
                final(self).bview(),
                r,
            ),
            lowered_value(
                expr@,
                old(env)@,
                final(module).functions@,
                final(self).bview(),
                r,
            ),
            call_refused(expr@, old(module).functions@, reg@) ==> final(self).values() == old(
                self,
            ).values(),
        decreases expr, 1nat,
    {
        let ghost fs0 = module.functions@;
        let ghost env0 = env@;
        let ghost c0 = *self;
        if let ExprAST::Call(callee, args) = expr {
            let ghost ar = arities(fs0, reg@);
            let ghost av = exprs_view(args@);
            let ghost e = ExprV::Call(callee@, av);
            assert(expr@ == e);
            proof {
                lemma_exprs_view_index(args@);
            }
            assert(ar(callee@) == arity(fs0, reg@, callee@));
            let f = match resolve_callee(module, reg, callee, args.len()) {
                Ok(f) => f,
                Err(m) => {
                    assert(check_expr(e, scope_of(env0), ar) == Some(m@));
                    return Err(m);
                },
            };
            let ghost fs1 = module.functions@;
            assert(check_expr(e, scope_of(env0), ar) == check_args(av, scope_of(env0), ar));
            let vals = match self.codegen_args(module, reg, expr, env) {
                Ok(vals) => vals,
                Err(m) => {
                    proof {
                        lemma_grows_trans(fs0, fs1, module.functions@, reg@);
                    }
                    return Err(m);
                },
            };
            let ghost fs2 = module.functions@;
            let ghost b2 = self.bview();
            let ghost ts = choose|ts: Seq<LTree>|
                ts.len() == av.len() && args_lower(av, ts, vals@, env_view(env0), fs2, b2);
            proof {
                lemma_grows_trans(fs0, fs1, fs2, reg@);
                lemma_grows_find(fs1, fs2, reg@, callee@);
            }
            let r = self.emit(Inst::Call(f, vals));
            proof {
                lemma_grows_refl(fs2, reg@);
                lemma_grows_keeps_names(fs2, fs2, reg@);
                lemma_args_lower_extend(av, ts, vals@, env_view(env0), fs2, fs2, b2, self.bview());
                assert(lowers(e, LTree::Args(ts), env_view(env0), fs2, self.bview(), r));
            }
            Ok(r)
        } else {
            vstd::pervasive::unreached()
        }
    }

    /// Lower the arguments of a call, left to right.
    fn codegen_args(
        &mut self,
        module: &mut Module,
        reg: &PrototypeRegistry,
        expr: &ExprAST,
        env: &mut Vec<(String, usize)>,
    ) -> (r: Result<Vec<usize>, String>)
        requires
            old(self).wf(),
            expr is Call,
        ensures
            advances(*old(self), *final(self)),
            grows(old(module).functions@, final(module).functions@, reg@),
            final(env)@ == old(env)@,
            ({
                let failure = check_args(
                    exprs_view(expr->Call_1@),
                    scope_of(old(env)@),
                    arities(old(module).functions@, reg@),
                );
                match r {
                    Err(m) => failure == Some(m@),
                    Ok(vals) => failure is None && vals@.len() == expr->Call_1@.len() && exists|
                        ts: Seq<LTree>,
                    |
                        ts.len() == vals@.len() && #[trigger] args_lower(
                            exprs_view(expr->Call_1@),
                            ts,
                            vals@,
                            env_view(old(env)@),
                            final(module).functions@,
                            final(self).bview(),
                        ),
                }
            }),
        decreases expr, 0nat,
    {
        let ghost fs0 = module.functions@;
        let ghost env0 = env@;
        let ghost c0 = *self;
        let ghost ar = arities(fs0, reg@);
        proof {
            lemma_grows_refl(fs0, reg@);
        }
        if let ExprAST::Call(callee, args) = expr {
            let ghost av = exprs_view(args@);
            proof {
                lemma_exprs_view_index(args@);
                assert(av.subrange(0, av.len() as int) =~= av);
                assert(av.subrange(0, 0) =~= Seq::<ExprV>::empty());
            }
            let mut vals: Vec<usize> = Vec::new();
            let ghost mut ts: Seq<LTree> = Seq::empty();
            let mut i: usize = 0;
            while i < args.len()
                invariant
                    *expr == ExprAST::Call(*callee, *args),
                    c0 == *old(self),
                    fs0 == old(module).functions@,
                    ar == arities(fs0, reg@),
                    env0 == old(env)@,
                    advances(c0, *self),
                    grows(fs0, module.functions@, reg@),
                    env@ == env0,
                    i <= args@.len(),
                    vals@.len() == i,
                    ts.len() == i,
                    av == exprs_view(args@),
                    av.len() == args@.len(),
                    check_args(av, scope_of(env0), ar) == check_args(
                        av.subrange(i as int, av.len() as int),
                        scope_of(env0),
                        ar,
                    ),
                    args_lower(
                        av.subrange(0, i as int),
                        ts,
                        vals@,
                        env_view(env0),
                        module.functions@,
                        self.bview(),
                    ),
                decreases args.len() - i,
            {
                let ghost fsi = module.functions@;
                let ghost bi = self.bview();
                let ghost rest = av.subrange(i as int, av.len() as int);
                proof {
                    vstd::std_specs::vec::axiom_vec_index_decreases(*args, i as int);
                    lemma_exprs_view_index(args@);
                    assert(rest[0] == av[i as int]);
                    assert(av[i as int] == args@[i as int]@);
                    assert(rest.drop_first() =~= av.subrange(i + 1, av.len() as int));
                    assert(arities(fsi, reg@) == ar);
                }
                let v = match self.codegen_expr(module, reg, &args[i], env) {
                    Ok(v) => v,
                    Err(e) => {
                        proof {
                            lemma_grows_trans(fs0, fsi, module.functions@, reg@);
                            assert(check_expr(rest[0], scope_of(env0), ar) == Some(e@));
                            assert(check_args(rest, scope_of(env0), ar) == Some(e@));
                        }
                        return Err(e);
                    },
                };
                let ghost t = choose|t: LTree|
                    lowers(av[i as int], t, env_view(env0), module.functions@, self.bview(), v);
                proof {
                    lemma_lift_args(
                        av.subrange(0, i as int),
                        ts,
                        vals@,
                        env_view(env0),
                        fsi,
                        module.functions@,
                        reg@,
                        bi,
                        self.bview(),
                    );
                    lemma_grows_trans(fs0, fsi, module.functions@, reg@);
                    assert(check_expr(rest[0], scope_of(env0), ar) is None);
                    assert(check_args(rest, scope_of(env0), ar) == check_args(
                        av.subrange(i + 1, av.len() as int),
                        scope_of(env0),
                        ar,
                    ));
                }
                let ghost vals0 = vals@;
                vals.push(v);
                proof {
                    let pre = av.subrange(0, i + 1);
                    assert(pre.drop_last() =~= av.subrange(0, i as int));
                    assert(ts.push(t).drop_last() =~= ts);
                    assert(vals@.drop_last() =~= vals0);
                    ts = ts.push(t);
                }
                i = i + 1;
            }
            assert(ts.len() == vals@.len());
            Ok(vals)
        } else {
            vstd::pervasive::unreached()
        }
    }

    fn codegen_if(
        &mut self,
        module: &mut Module,
        reg: &PrototypeRegistry,
        expr: &ExprAST,
        env: &mut Vec<(String, usize)>,
    ) -> (r: Result<usize, String>)
        requires
            old(self).wf(),
            expr is If,
        ensures
            advances(*old(self), *final(self)),
            grows(old(module).functions@, final(module).functions@, reg@),
            final(env)@ == old(env)@,
            lowered(
                expr@,
                old(env)@,
                old(module).functions@,
                reg@,
                final(module).functions@,
                final(self).bview(),
                r,
            ),
            lowered_value(
                expr@,
                old(env)@,
                final(module).functions@,
                final(self).bview(),
                r,
            ),
        decreases expr, 1nat,
    {
        let ghost fs0 = module.functions@;
        let ghost ev = env_view(env@);
        let (cond, then_, else_) = match expr {
            ExprAST::If { cond, then_, else_ } => (cond, then_, else_),
            _ => vstd::pervasive::unreached(),
        };
        let c = match self.codegen_expr(module, reg, cond, env) {
            Ok(v) => v,
            Err(e) => return Err(e),
        };
        let ghost fs1 = module.functions@;
        let ghost b1 = self.bview();
        let ghost tc = choose|t: LTree| lowers(expr_view(**cond), t, ev, fs1, b1, c);
        let zero = self.constant("0");
        let cond_v = self.emit(Inst::FCmpOne(c, zero));
        // The 'then' block goes into the function now, 'else' and 'merge'
        // once the blocks before them are done.
        let then_bb = self.create_block();
        self.append_block(then_bb);
        let else_bb = self.create_block();
        let merge_bb = self.create_block();
        let br = self.emit(Inst::CondBr(cond_v, then_bb, else_bb));
        self.position_at(then_bb);
        let ghost b1b = self.bview();
        let then_v = match self.codegen_expr(module, reg, then_, env) {
            Ok(v) => v,
            Err(e) => {
                proof {
                    lemma_grows_trans(fs0, fs1, module.functions@, reg@);
                }
                return Err(e);
            },
        };
        let ghost fs2 = module.functions@;
        let ghost b2 = self.bview();
        let ghost tt = choose|t: LTree| lowers(expr_view(**then_), t, ev, fs2, b2, then_v);
        proof {
            lemma_grows_trans(fs0, fs1, fs2, reg@);
        }
        let tbr = self.emit(Inst::Br(merge_bb));
        // Lowering 'then' may have left us in a later block.
        let then_end = self.cur_block;
        let ghost b2b = self.bview();
        self.append_block(else_bb);
        self.position_at(else_bb);
        let else_v = match self.codegen_expr(module, reg, else_, env) {
            Ok(v) => v,
            Err(e) => {
                proof {
                    lemma_grows_trans(fs0, fs2, module.functions@, reg@);
                }
                return Err(e);
            },
        };
        let ghost fs3 = module.functions@;
        let ghost b3 = self.bview();
        let ghost te = choose|t: LTree| lowers(expr_view(**else_), t, ev, fs3, b3, else_v);
        proof {
            lemma_grows_trans(fs0, fs2, fs3, reg@);
            lemma_grows_trans(fs1, fs2, fs3, reg@);
        }
        let ebr = self.emit(Inst::Br(merge_bb));
        let else_end = self.cur_block;
        self.append_block(merge_bb);
        self.position_at(merge_bb);
        let mut incoming: Vec<(usize, usize)> = Vec::new();
        incoming.push((then_v, then_end));
        incoming.push((else_v, else_end));
        assert(incoming@ =~= seq![(then_v, then_end), (else_v, else_end)]);
        let phi = self.emit(Inst::Phi(incoming));
        proof {
            let bf = self.bview();
            let w = IfW {
                cv: c,
                z: zero,
                cmp: cond_v,
                br,
                tb: then_bb,
                eb: else_bb,
                tv: then_v,
                te: then_end,
                tbr,
                ev: else_v,
                ee: else_end,
                ebr,
                mb: merge_bb,
            };
            lemma_lift(expr_view(**cond), tc, ev, fs1, fs3, reg@, b1, bf, c);
            lemma_lift(expr_view(**then_), tt, ev, fs2, fs3, reg@, b2, bf, then_v);
            lemma_grows_refl(fs3, reg@);
            lemma_lift(expr_view(**else_), te, ev, fs3, fs3, reg@, b3, bf, else_v);
            lemma_in_block_extend(b2b, bf, then_end, tbr);
            let t = LTree::Cond(w, Box::new(tc), Box::new(tt), Box::new(te));
            assert(lowers(expr@, t, ev, fs3, bf, phi));
        }
        Ok(phi)
    }

    fn codegen_for(
        &mut self,
        module: &mut Module,
        reg: &PrototypeRegistry,
        expr: &ExprAST,
        env: &mut Vec<(String, usize)>,
    ) -> (r: Result<usize, String>)
        requires
            old(self).wf(),
            expr is For,
        ensures
            advances(*old(self), *final(self)),
            grows(old(module).functions@, final(module).functions@, reg@),
            final(env)@ == old(env)@,
            lowered(
                expr@,
                old(env)@,
                old(module).functions@,
                reg@,
                final(module).functions@,
                final(self).bview(),
                r,
            ),
            lowered_value(
                expr@,
                old(env)@,
                final(module).functions@,
                final(self).bview(),
                r,
            ),
        decreases expr, 1nat,
    {
        let ghost fs0 = module.functions@;
        let ghost env0 = env@;
        let ghost ev = env_view(env@);
        let (var, start, end, step, body) = match expr {
            ExprAST::For { var, start, end, step, body } => (var, start, end, step, body),
            _ => vstd::pervasive::unreached(),
        };
        let start_val = match self.codegen_expr(module, reg, start, env) {
            Ok(v) => v,
            Err(e) => return Err(e),
        };
        let ghost fs1 = module.functions@;
        let ghost b1 = self.bview();
        let ghost tsv = choose|t: LTree| lowers(expr_view(**start), t, ev, fs1, b1, start_val);
        let entry_bb = self.cur_block;
        let loop_bb = self.create_block();
        self.append_block(loop_bb);
        let ebr = self.emit(Inst::Br(loop_bb));
        let ghost b1b = self.bview();
        self.position_at(loop_bb);
        let mut first: Vec<(usize, usize)> = Vec::new();
        first.push((start_val, entry_bb));
        assert(first@ =~= seq![(start_val, entry_bb)]);
        let phi = self.emit(Inst::Phi(first));
        let ghost b1c = self.bview();
        // The loop variable shadows any binding of its name until the loop ends.
        env.push((var.clone(), phi));
        let ghost inner = env_view(env@);
        proof {
            assert(scope_of(env@) =~= scope_of(env0).push(var@));
            assert(inner =~= ev.push((var@, phi)));
        }
        let body_v = match self.codegen_expr(module, reg, body, env) {
            Ok(v) => v,
            Err(e) => {
                env.pop();
                proof {
                    assert(env@ =~= env0);
                    lemma_grows_trans(fs0, fs1, module.functions@, reg@);
                }
                return Err(e);
            },
        };
        let ghost fs2 = module.functions@;
        let ghost b2 = self.bview();
        let ghost tbd = choose|t: LTree| lowers(expr_view(**body), t, inner, fs2, b2, body_v);
        proof {
            lemma_grows_trans(fs0, fs1, fs2, reg@);
        }
        let step_val = match step {
            Some(s) => match self.codegen_expr(module, reg, s, env) {
                Ok(v) => v,
                Err(e) => {
                    env.pop();
                    proof {
                        assert(env@ =~= env0);
                        lemma_grows_trans(fs0, fs2, module.functions@, reg@);
                    }
                    return Err(e);
                },
            },
            None => self.constant("1"),
        };
        let ghost fs3 = module.functions@;
        let ghost b3 = self.bview();
        let ghost tst = match step {
            Some(s) => choose|t: LTree| lowers(expr_view(**s), t, inner, fs3, b3, step_val),
            None => LTree::Leaf,
        };
        proof {
            lemma_grows_trans(fs0, fs2, fs3, reg@);
            lemma_grows_trans(fs1, fs2, fs3, reg@);
        }
        let next_var = self.emit(Inst::FAdd(phi, step_val));
        let end_v = match self.codegen_expr(module, reg, end, env) {
            Ok(v) => v,
            Err(e) => {
                env.pop();
                proof {
                    assert(env@ =~= env0);
                    lemma_grows_trans(fs0, fs3, module.functions@, reg@);
                }
                return Err(e);
            },
        };
        let ghost fs4 = module.functions@;
        let ghost b4 = self.bview();
        let ghost ten = choose|t: LTree| lowers(expr_view(**end), t, inner, fs4, b4, end_v);
        proof {
            lemma_grows_trans(fs0, fs3, fs4, reg@);
            lemma_grows_trans(fs1, fs3, fs4, reg@);
            lemma_grows_trans(fs2, fs3, fs4, reg@);
        }
        let zero = self.constant("0");
        let end_cond = self.emit(Inst::FCmpOne(end_v, zero));
        let loop_end = self.cur_block;
        let after_bb = self.create_block();
        self.append_block(after_bb);
        // The merge node takes the stepped value when the loop repeats.
        self.add_incoming(phi, next_var, loop_end);
        let ghost bi = self.bview();
        assert(bi.incoming[bi.incoming.len() - 1] == (phi, next_var, loop_end));
        let br = self.emit(Inst::CondBr(end_cond, loop_bb, after_bb));
        self.position_at(after_bb);
        env.pop();
        proof {
            assert(env@ =~= env0);
        }
        // A loop's value is always 0.
        let r = self.constant("0");
        proof {
            let bf = self.bview();
            let w = ForW {
                sv: start_val,
                entry: entry_bb,
                ebr,
                lb: loop_bb,
                phi,
                bv: body_v,
                st: step_val,
                nx: next_var,
                ev: end_v,
                z: zero,
                cmp: end_cond,
                br,
                lend: loop_end,
                after: after_bb,
            };
            lemma_grows_refl(fs4, reg@);
            lemma_lift(expr_view(**start), tsv, ev, fs1, fs4, reg@, b1, bf, start_val);
            lemma_lift(expr_view(**body), tbd, inner, fs2, fs4, reg@, b2, bf, body_v);
            if let Some(s) = step {
                lemma_lift(expr_view(**s), tst, inner, fs3, fs4, reg@, b3, bf, step_val);
            }
            lemma_lift(expr_view(**end), ten, inner, fs4, fs4, reg@, b4, bf, end_v);
            lemma_in_block_extend(b1b, bf, entry_bb, ebr);
            lemma_in_block_extend(b1c, bf, loop_bb, phi);
            let k = bi.incoming.len() - 1;
            assert(bf.incoming[k] == bi.incoming[k]);
            assert(bf.incoming[k] == (phi, next_var, loop_end));
            let t = LTree::Loop(w, Box::new(tsv), Box::new(tbd), Box::new(tst), Box::new(ten));
            assert(lowers(expr@, t, ev, fs4, bf, r));
        }
        Ok(r)
    }

    /// A generator for function `func`, at the start of its entry block.
    fn start(func: usize) -> (r: Codegen)
        ensures
            r.wf(),
            r.func == func,
            r.values().len() == 0,
    {
        let mut blocks: Vec<Vec<usize>> = Vec::new();
        blocks.push(Vec::new());
        let mut layout: Vec<usize> = Vec::new();
        layout.push(0);
        Codegen {
            func,
            body: Body { values: Vec::new(), blocks, layout, incoming: Vec::new() },
            cur_block: 0,
        }
    }

    /// Bind each parameter to its argument value, in order. Parameter names
    /// need not be distinct: a later parameter shadows an earlier one of the
    /// same name, as the lookup takes the innermost binding.
    fn bind_params(&mut self, params: &Vec<String>) -> (env: Vec<(String, usize)>)
        requires
            old(self).wf(),
            old(self).values().len() == 0,
        ensures
            advances(*old(self), *final(self)),
            scope_of(env@) == strings_view(params@),
            env_view(env@) == param_env(strings_view(params@)),
            final(self).values() == Seq::new(params@.len(), |i: int| Inst::Arg(i as usize)),
    {
        let ghost c0 = *self;
        let mut env: Vec<(String, usize)> = Vec::new();
        let n = params.len();
        let mut i: usize = 0;
        while i < n
            invariant
                c0 == *old(self),
                n == params@.len(),
                i <= n,
                advances(c0, *self),
                env@.len() == i,
                scope_of(env@) == strings_view(params@).take(i as int),
                env_view(env@) == param_env(strings_view(params@)).take(i as int),
                self.values() == Seq::new(i as nat, |k: int| Inst::Arg(k as usize)),
            decreases n - i,
        {
            let v = self.body.values.len();
            let ghost b0 = self.bview();
            self.body.values.push(Inst::Arg(i));
            env.push((params[i].clone(), v));
            proof {
                assert(scope_of(env@) =~= strings_view(params@).take(i + 1));
                assert(env_view(env@) =~= param_env(strings_view(params@)).take(i + 1));
                assert(self.values() =~= Seq::new((i + 1) as nat, |k: int| Inst::Arg(k as usize)));
                assert(self.bview().blocks == b0.blocks);
            }
            i = i + 1;
        }
        proof {
            assert(strings_view(params@).take(n as int) =~= strings_view(params@));
            assert(param_env(strings_view(params@)).take(n as int) =~= param_env(strings_view(params@)));
        }
        env
    }

    /// Register `proto` and resolve the declaration of its function.
    fn declare_for_definition(
        module: &mut Module,
        fn_protos: &mut PrototypeRegistry,
        proto: &PrototypeAST,
    ) -> (f: usize)
        ensures
            final(fn_protos)@ == old(fn_protos)@.insert(proto.0@, proto@),
            grows(old(module).functions@, final(module).functions@, final(fn_protos)@),
            f < final(module).functions@.len(),
            find_fn(final(module).functions@, proto.0@) == Some(f as int),
            (final(module).functions@[f as int].body is Some) == has_body(
                old(module).functions@,
                proto.0@,
            ),
            strings_view(final(module).functions@[f as int].params@) == match find_fn(
                old(module).functions@,
                proto.0@,
            ) {
                Some(i) => strings_view(old(module).functions@[i].params@),
                None => proto@.params,
            },
    {
        let ghost fs0 = module.functions@;
        let ghost name = proto.0@;
        proof {
            lemma_find_fn(fs0, name);
        }
        fn_protos.declare(copy_prototype(proto));
        let ghost reg1 = fn_protos@;
        let f = match get_function(module, fn_protos, &proto.0) {
            Some(f) => f,
            None => vstd::pervasive::unreached(),
        };
        let ghost fs1 = module.functions@;
        proof {
            lemma_find_fn(fs1, name);
            if find_fn(fs0, name) is Some {
                lemma_grows_find(fs0, fs1, reg1, name);
            } else {
                reveal(params_registered);
                if (f as int) < fs0.len() {
                    assert(fs1[f as int] == fs0[f as int]);
                }
            }
        }
        f
    }

    /// End the body with a return of `ret` and attach it to function `f`.
    fn install_body(
        module: &mut Module,
        mut cg: Codegen,
        ret: usize,
        e: Ghost<ExprV>,
        params: Ghost<Seq<Seq<char>>>,
    )
        requires
            cg.wf(),
            cg.func < old(module).functions@.len(),
            params@.len() <= cg.values().len(),
            forall|i: int| 0 <= i < params@.len() ==> cg.values()[i] == Inst::Arg(i as usize),
            exists|t: LTree| #[trigger] lowers(e@, t, param_env(params@), old(module).functions@, cg.bview(), ret),
        ensures
            final(module).functions@.len() == old(module).functions@.len(),
            forall|j: int|
                0 <= j < old(module).functions@.len() && j != cg.func ==> final(module).functions@[j] == old(module).functions@[j],
            final(module).functions@[cg.func as int].name == old(module).functions@[cg.func as int].name,
            final(module).functions@[cg.func as int].params == old(module).functions@[cg.func as int].params,
            forall|n: Seq<char>| find_fn(final(module).functions@, n) == find_fn(
                old(module).functions@,
                n,
            ),
            final(module).functions@[cg.func as int].body matches Some(b) && returns_value(
                e@,
                params@,
                final(module).functions@,
                body_view(b),
            ),
    {
        let ghost fs2 = module.functions@;
        let ghost b0 = cg.bview();
        let ghost t = choose|t: LTree| lowers(e@, t, param_env(params@), fs2, b0, ret);
        let f = cg.func;
        cg.emit(Inst::Ret(ret));
        module.functions[f].body = Some(cg.body);
        proof {
            let fs3 = module.functions@;
            assert(fs3 == fs2.update(f as int, fs3[f as int]));
            assert forall|n: Seq<char>| find_fn(fs3, n) == find_fn(fs2, n) by {
                lemma_find_fn_update(fs2, f as int, fs3[f as int], n);
            }
            assert(keeps_names(fs2, fs3));
            lemma_lowers_extend(e@, t, param_env(params@), fs2, fs3, b0, cg.bview(), ret);
            assert(body_view(cg.body) == cg.bview());
            reveal(returns_value);
        }
    }

    /// Define `func` in the unit: register its prototype, resolve its
    /// declaration, refuse a second body, bind the parameters, lower the
    /// body and return its value. When lowering fails the declaration stays
    /// in the unit without a body, and the prototype stays registered.
    fn codegen_function(
        module: &mut Module,
        fn_protos: &mut PrototypeRegistry,
        func: &FunctionAST,
    ) -> (r: Result<usize, String>)
        ensures
            defined(
                old(module).functions@,
                old(fn_protos)@,
                func@,
                final(module).functions@,
                final(fn_protos)@,
                r,
            ),
    {
        let ghost fs0 = module.functions@;
        let ghost reg0 = fn_protos@;
        let ghost fv = func@;
        let ghost name = func.0.0@;
        let f = Codegen::declare_for_definition(module, fn_protos, &func.0);
        let ghost fs1 = module.functions@;
        let ghost reg1 = fn_protos@;
        let ghost params = def_params(fs0, fv);
        let ghost ar = arities(fs0, reg1);
        assert(def_outcome(fs0, reg0, fv) == if has_body(fs0, name) {
            Some("function cannot be redefined"@)
        } else {
            check_expr(fv.body, params, ar)
        });
        if module.functions[f].body.is_some() {
            return err("function cannot be redefined");
        }
        let mut cg = Codegen::start(f);
        let mut env = cg.bind_params(&module.functions[f].params);
        assert(scope_of(env@) == params);
        match cg.codegen_expr(module, fn_protos, &func.1, &mut env) {
            Ok(ret) => {
                let ghost fs2 = module.functions@;
                proof {
                    lemma_grows_trans(fs0, fs1, fs2, reg1);
                    lemma_grows_find(fs1, fs2, reg1, name);
                    assert(check_expr(fv.body, params, ar) is None);
                }
                proof {
                    lemma_find_fn(fs1, name);
                }
                proof {
                    assert(env_view(env@) == param_env(params));
                }
                Codegen::install_body(module, cg, ret, Ghost(func.1@), Ghost(params));
                proof {
                    assert forall|j: int|
                        0 <= j < fs0.len() && fs0[j].name@ != name implies module.functions@[j]
                        == fs0[j] by {
                        assert(fs1[j] == fs0[j]);
                        assert(fs2[j] == fs1[j]);
                    }
                }
                Ok(f)
            },
            Err(e) => {
                proof {
                    lemma_grows_trans(fs0, fs1, module.functions@, reg1);
                    assert(check_expr(fv.body, params, ar) == Some(e@));
                }
                Err(e)
            },
        }
    }

    /// Compile either a prototype or a function into the unit `module`.
    ///
    /// A prototype is registered, and declared in the unit unless the unit
    /// declares its name already; this never fails. A function is defined as
    /// `defined` states.
    pub fn compile(
        module: &mut Module,
        fn_protos: &mut PrototypeRegistry,
        compilee: Either<&PrototypeAST, &FunctionAST>,
    ) -> (r: Result<usize, String>)
        ensures
            match compilee {
                Either::A(proto) => {
                    let fs0 = old(module).functions@;
                    let fs1 = final(module).functions@;
                    &&& final(fn_protos)@ == old(fn_protos)@.insert(proto.0@, proto@)
                    &&& r matches Ok(i) && find_fn(fs1, proto.0@) == Some(i as int)
                    &&& find_fn(fs0, proto.0@) is Some ==> fs1 == fs0
                    &&& find_fn(fs0, proto.0@) is None ==> fs1.drop_last() == fs0
                        && fs1.last().body is None && strings_view(fs1.last().params@)
                        == proto@.params
                },
                Either::B(func) => defined(
                    old(module).functions@,
                    old(fn_protos)@,
                    func@,
                    final(module).functions@,
                    final(fn_protos)@,
                    r,
                ),
            },
    {
        match compilee {
            Either::A(proto) => {
                let f = codegen_prototype(module, proto);
                fn_protos.declare(copy_prototype(proto));
                Ok(f)
            },
            Either::B(func) => Codegen::codegen_function(module, fn_protos, func),
        }
    }
}

} // verus!
