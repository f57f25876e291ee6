//! The compilation unit that code generation emits into: functions, their
//! basic blocks, and SSA values, each named by its index.

use vstd::prelude::*;

use crate::ast::{strings_view, PrototypeAST, PrototypeV};

verus! {

/// An SSA value or instruction of a function body. Operands are indices of
/// values of the same body; blocks are indices of the body's blocks; a
/// callee is the index of a function of the unit.
#[derive(Debug)]
pub enum Inst {
    /// A numeric constant, as the text of its literal.
    Const(String),
    /// The parameter of the given position.
    Arg(usize),
    FAdd(usize, usize),
    FSub(usize, usize),
    FMul(usize, usize),
    /// Unordered-or-less-than comparison; a boolean.
    FCmpUlt(usize, usize),
    /// Ordered-and-not-equal comparison; a boolean.
    FCmpOne(usize, usize),
    /// A boolean widened to a number: 1 or 0.
    UiToFp(usize),
    Call(usize, Vec<usize>),
    /// A merge node: a value for each predecessor block.
    Phi(Vec<(usize, usize)>),
    Br(usize),
    CondBr(usize, usize, usize),
    Ret(usize),
}

/// The body of a function.
///
/// `values` holds every value, constants and parameters included; `blocks`
/// lists, for each block, the indices of its instructions in order;
/// `layout` lists the blocks that belong to the function, in order. A block
/// may be created before it is placed in the layout. `incoming` holds
/// entries added to merge nodes after they were built: (merge node, value,
/// predecessor block).
pub struct Body {
    pub values: Vec<Inst>,
    pub blocks: Vec<Vec<usize>>,
    pub layout: Vec<usize>,
    pub incoming: Vec<(usize, usize, usize)>,
}

/// A function of a compilation unit: a declaration, with a body once defined.
pub struct Function {
    pub name: String,
    pub params: Vec<String>,
    pub body: Option<Body>,
}

/// A compilation unit.
pub struct Module {
    pub functions: Vec<Function>,
}

/// The index of the first function of `fs` named `name`.
#[verifier::opaque]
pub open spec fn find_fn(fs: Seq<Function>, name: Seq<char>) -> Option<int> {
    if exists|i: int| 0 <= i < fs.len() && fs[i].name@ == name {
        Some(
            choose|i: int|
                0 <= i < fs.len() && fs[i].name@ == name && forall|j: int|
                    0 <= j < i ==> fs[j].name@ != name,
        )
    } else {
        None
    }
}

/// Whether `fs` holds a function named `name` with a body.
pub open spec fn has_body(fs: Seq<Function>, name: Seq<char>) -> bool {
    find_fn(fs, name) matches Some(i) && fs[i].body is Some
}

/// `i` is the first index of a function named `name`.
pub proof fn lemma_find_fn_first(fs: Seq<Function>, name: Seq<char>, i: int)
    requires
        0 <= i < fs.len(),
        fs[i].name@ == name,
        forall|j: int| 0 <= j < i ==> fs[j].name@ != name,
    ensures
        find_fn(fs, name) == Some(i),
{
    reveal(find_fn);
    let k = choose|k: int|
        0 <= k < fs.len() && fs[k].name@ == name && forall|j: int| 0 <= j < k ==> fs[j].name@ != name;
    if k < i {
        assert(fs[k].name@ != name);
    }
    if i < k {
        assert(fs[i].name@ != name);
    }
}

/// What the found index satisfies.
pub proof fn lemma_find_fn(fs: Seq<Function>, name: Seq<char>)
    ensures
        find_fn(fs, name) matches Some(i) ==> 0 <= i < fs.len() && fs[i].name@ == name && forall|
            j: int,
        |
            0 <= j < i ==> fs[j].name@ != name,
        find_fn(fs, name) is None <==> forall|j: int| 0 <= j < fs.len() ==> fs[j].name@ != name,
{
    reveal(find_fn);
    if exists|i: int| 0 <= i < fs.len() && fs[i].name@ == name {
        let i0 = choose|i: int| 0 <= i < fs.len() && fs[i].name@ == name;
        lemma_least_match(fs, name, i0);
    }
}

proof fn lemma_least_match(fs: Seq<Function>, name: Seq<char>, i: int)
    requires
        0 <= i < fs.len(),
        fs[i].name@ == name,
    ensures
        exists|k: int|
            0 <= k < fs.len() && fs[k].name@ == name && forall|j: int|
                0 <= j < k ==> fs[j].name@ != name,
    decreases i,
{
    if exists|j: int| 0 <= j < i && fs[j].name@ == name {
        let j = choose|j: int| 0 <= j < i && fs[j].name@ == name;
        lemma_least_match(fs, name, j);
    } else {
        assert(forall|j: int| 0 <= j < i ==> fs[j].name@ != name);
    }
}

/// Appending a function changes only what its own name finds, and only if
/// nothing had that name.
pub proof fn lemma_find_fn_push(fs: Seq<Function>, f: Function, name: Seq<char>)
    ensures
        find_fn(fs, name) is Some ==> find_fn(fs.push(f), name) == find_fn(fs, name),
        find_fn(fs, name) is None && f.name@ == name ==> find_fn(fs.push(f), name) == Some(
            fs.len() as int,
        ),
        find_fn(fs, name) is None && f.name@ != name ==> find_fn(fs.push(f), name) is None,
{
    let gs = fs.push(f);
    lemma_find_fn(fs, name);
    if let Some(i) = find_fn(fs, name) {
        assert(gs[i] == fs[i]);
        assert forall|j: int| 0 <= j < i implies gs[j].name@ != name by {
            assert(gs[j] == fs[j]);
        }
        lemma_find_fn_first(gs, name, i);
    } else {
        assert forall|j: int| 0 <= j < fs.len() implies gs[j].name@ != name by {
            assert(gs[j] == fs[j]);
        }
        if f.name@ == name {
            lemma_find_fn_first(gs, name, fs.len() as int);
        } else {
            lemma_find_fn(gs, name);
        }
    }
}

impl Module {
    /// An empty compilation unit.
    pub fn new() -> (r: Module)
        ensures
            r.functions@ == Seq::<Function>::empty(),
    {
        Module { functions: Vec::new() }
    }

    /// The index of the function named `name`, if the unit declares one.
    pub fn get_fn(&self, name: &String) -> (r: Option<usize>)
        ensures
            r matches Some(i) ==> find_fn(self.functions@, name@) == Some(i as int),
            r is None ==> find_fn(self.functions@, name@) is None,
    {
        let mut i: usize = 0;
        while i < self.functions.len()
            invariant
                i <= self.functions@.len(),
                forall|j: int| 0 <= j < i ==> self.functions@[j].name@ != name@,
            decreases self.functions.len() - i,
        {
            if self.functions[i].name == *name {
                proof {
                    lemma_find_fn_first(self.functions@, name@, i as int);
                }
                return Some(i);
            }
            i = i + 1;
        }
        proof {
            lemma_find_fn(self.functions@, name@);
        }
        None
    }
}

/// The registry of prototypes, shared by the compilation units of a
/// session: declarations are kept in order, and a later one shadows an
/// earlier one of the same name.
pub struct PrototypeRegistry {
    protos: Vec<PrototypeAST>,
}

/// The prototypes of `s` by name, a later entry winning.
pub open spec fn registry_map(s: Seq<PrototypeAST>) -> Map<Seq<char>, PrototypeV>
    decreases s.len(),
{
    if s.len() == 0 {
        Map::empty()
    } else {
        registry_map(s.drop_last()).insert(s.last().0@, s.last()@)
    }
}

/// Entries past `i` with other names leave what `name` maps to unchanged.
proof fn lemma_registry_suffix(s: Seq<PrototypeAST>, i: int, name: Seq<char>)
    requires
        0 <= i <= s.len(),
        forall|j: int| i <= j < s.len() ==> s[j].0@ != name,
    ensures
        registry_map(s).contains_key(name) == registry_map(s.subrange(0, i)).contains_key(name),
        registry_map(s).contains_key(name) ==> registry_map(s)[name] == registry_map(
            s.subrange(0, i),
        )[name],
    decreases s.len() - i,
{
    if i < s.len() {
        let t = s.subrange(0, i + 1);
        assert(t.drop_last() =~= s.subrange(0, i));
        lemma_registry_suffix(s, i + 1, name);
    } else {
        assert(s.subrange(0, i) =~= s);
    }
}

impl View for PrototypeRegistry {
    type V = Map<Seq<char>, PrototypeV>;

    closed spec fn view(&self) -> Map<Seq<char>, PrototypeV> {
        registry_map(self.protos@)
    }
}

impl PrototypeRegistry {
    /// An empty registry.
    pub fn new() -> (r: PrototypeRegistry)
        ensures
            r@ == Map::<Seq<char>, PrototypeV>::empty(),
    {
        PrototypeRegistry { protos: Vec::new() }
    }

    /// Insert `proto`, replacing any prototype of the same name.
    pub fn declare(&mut self, proto: PrototypeAST)
        ensures
            final(self)@ == old(self)@.insert(proto.0@, proto@),
    {
        self.protos.push(proto);
        proof {
            assert(self.protos@.drop_last() =~= old(self).protos@);
        }
    }

    /// The prototype registered under `name`.
    pub fn lookup(&self, name: &String) -> (r: Option<&PrototypeAST>)
        ensures
            r matches Some(p) ==> self@.contains_key(name@) && self@[name@] == p@,
            r is None ==> !self@.contains_key(name@),
    {
        let mut i: usize = self.protos.len();
        while i > 0
            invariant
                i <= self.protos@.len(),
                forall|j: int| i <= j < self.protos@.len() ==> self.protos@[j].0@ != name@,
            decreases i,
        {
            if self.protos[i - 1].0 == *name {
                proof {
                    let s = self.protos@;
                    lemma_registry_suffix(s, i as int, name@);
                    assert(s.subrange(0, i as int).drop_last() =~= s.subrange(0, i - 1));
                }
                return Some(&self.protos[i - 1]);
            }
            i = i - 1;
        }
        proof {
            lemma_registry_suffix(self.protos@, 0, name@);
        }
        None
    }
}

/// A copy of a list of names.
pub fn copy_names(names: &Vec<String>) -> (r: Vec<String>)
    ensures
        strings_view(r@) == strings_view(names@),
{
    let mut r: Vec<String> = Vec::new();
    let mut i: usize = 0;
    while i < names.len()
        invariant
            i <= names@.len(),
            r@.len() == i,
            forall|j: int| 0 <= j < i ==> r@[j]@ == names@[j]@,
        decreases names.len() - i,
    {
        r.push(names[i].clone());
        i = i + 1;
    }
    assert(strings_view(r@) =~= strings_view(names@));
    r
}

/// A copy of a prototype.
pub fn copy_prototype(p: &PrototypeAST) -> (r: PrototypeAST)
    ensures
        r@ == p@,
{
    PrototypeAST(p.0.clone(), copy_names(&p.1))
}

} // verus!
