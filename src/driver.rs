//! The decisions of a read-compile loop: one top-level construct per step.
//!
//! Each definition and each top-level expression is compiled into a fresh
//! unit, which the caller installs and runs; declarations go to the current
//! unit and to the registry.

use vstd::prelude::*;

use crate::ast::{FunctionAST, FunctionV, PrototypeV};
use crate::codegen::{def_outcome, defined, Codegen};
use crate::ir::{find_fn, Function, Module, PrototypeRegistry};
use crate::lexer::{Token, TokenV};
use crate::parser::{advance, p_definition, p_extern, p_top_level, PState, Parser};
use crate::Either;

verus! {

/// What the caller is to do after a step.
pub enum Action {
    /// The input is exhausted.
    Done,
    /// A top-level `;` was skipped.
    Skipped,
    /// Function `func` of `unit` was defined: install the unit, in place of
    /// the code of an earlier definition of `name`.
    Define { name: String, unit: Module, func: usize },
    /// A prototype was declared in the current unit and registered.
    Declare { func: usize },
    /// A top-level expression was compiled as function `func` of `unit`:
    /// install the unit, run the function, then remove the unit's code.
    Evaluate { unit: Module, func: usize },
    /// Parsing failed; the token it stopped at was skipped.
    ParseError(String),
    /// Code generation failed; the unit was dropped.
    CodegenError(String),
}

/// A read-compile session over one input.
pub struct Session {
    parser: Parser,
    module: Module,
    protos: PrototypeRegistry,
}

impl Session {
    pub closed spec fn wf(&self) -> bool {
        self.parser.wf() && self.parser.primed()
    }

    /// The state of the parse.
    pub closed spec fn state(&self) -> PState {
        self.parser.state()
    }

    /// The functions of the current unit.
    pub closed spec fn unit(&self) -> Seq<Function> {
        self.module.functions@
    }

    /// The prototypes registered so far.
    pub closed spec fn registry(&self) -> Map<Seq<char>, PrototypeV> {
        self.protos@
    }

    /// A session over `parser`, whose first token is read.
    pub fn new(parser: Parser) -> (r: Session)
        requires
            parser.wf(),
            parser.primed(),
        ensures
            r.wf(),
            r.state() == parser.state(),
            r.unit() == Seq::<Function>::empty(),
            r.registry() == Map::<Seq<char>, PrototypeV>::empty(),
    {
        Session { parser, module: Module::new(), protos: PrototypeRegistry::new() }
    }

    /// Hand out the current unit and start a fresh one.
    fn take_unit(&mut self) -> (unit: Module)
        ensures
            unit.functions@ == old(self).unit(),
            final(self).unit() == Seq::<Function>::empty(),
            final(self).parser == old(self).parser,
            final(self).protos == old(self).protos,
    {
        let mut unit = Module::new();
        std::mem::swap(&mut self.module, &mut unit);
        unit
    }

    /// Skip the current token after a parse error.
    fn skip_after_error(&mut self, m: String) -> (r: Action)
        requires
            old(self).parser.wf(),
        ensures
            final(self).wf(),
            final(self).state() == advance(old(self).state()),
            final(self).module == old(self).module,
            final(self).protos == old(self).protos,
            r == Action::ParseError(m),
    {
        self.parser.get_next_token();
        Action::ParseError(m)
    }

    /// Compile `func` into the current unit and hand the unit out.
    fn define(&mut self, func: FunctionAST, top_level: bool) -> (r: Action)
        ensures
            final(self).parser == old(self).parser,
            final(self).unit() == Seq::<Function>::empty(),
            r is Define ==> !top_level && r->Define_name@ == func@.proto.name && defined(
                old(self).unit(),
                old(self).registry(),
                func@,
                r->Define_unit.functions@,
                final(self).registry(),
                Ok(r->Define_func),
            ),
            r is Evaluate ==> top_level && defined(
                old(self).unit(),
                old(self).registry(),
                func@,
                r->Evaluate_unit.functions@,
                final(self).registry(),
                Ok(r->Evaluate_func),
            ),
            r is CodegenError ==> def_outcome(old(self).unit(), old(self).registry(), func@) == Some(
                r->CodegenError_0@,
            ) && final(self).registry() == old(self).registry().insert(
                func@.proto.name,
                func@.proto,
            ),
            r is Define || r is Evaluate || r is CodegenError,
    {
        let ghost fv = func@;
        let ghost fs0 = self.unit();
        let ghost reg0 = self.registry();
        let r = Codegen::compile(&mut self.module, &mut self.protos, Either::B(&func));
        let unit = self.take_unit();
        match r {
            Ok(i) => {
                assert(defined(fs0, reg0, fv, unit.functions@, self.registry(), Ok(i)));
                if top_level {
                    Action::Evaluate { unit, func: i }
                } else {
                    Action::Define { name: func.0.0, unit, func: i }
                }
            },
            Err(m) => {
                Action::CodegenError(m)
            },
        }
    }

    /// Handle the next top-level construct.
    ///
    /// At the end of the input: `Done`. A `;`: skipped. `def`: the
    /// definition is parsed and compiled into the current unit, which is
    /// handed out. `extern`: the prototype is parsed, declared in the
    /// current unit, and registered. Anything else: a top-level expression,
    /// parsed and compiled like a definition. A parse error skips the token
    /// the parse stopped at; a code generation error drops the unit.
    pub fn step(&mut self) -> (r: Action)
        requires
            old(self).wf(),
        ensures
            final(self).wf(),
            step_spec(
                old(self).state(),
                old(self).unit(),
                old(self).registry(),
                final(self).state(),
                final(self).unit(),
                final(self).registry(),
                r,
            ),
    {
        match self.parser.cur_tok() {
            Token::Eof => Action::Done,
            Token::Char(';') => {
                self.parser.get_next_token();
                Action::Skipped
            },
            Token::Def => match self.parser.parse_definition() {
                Ok(func) => self.define(func, false),
                Err(m) => self.skip_after_error(m),
            },
            Token::Extern => match self.parser.parse_extern() {
                Ok(proto) => {
                    let r = Codegen::compile(&mut self.module, &mut self.protos, Either::A(&proto));
                    match r {
                        Ok(i) => Action::Declare { func: i },
                        Err(_) => vstd::pervasive::unreached(),
                    }
                },
                Err(m) => self.skip_after_error(m),
            },
            _ => match self.parser.parse_top_level_expr() {
                Ok(func) => self.define(func, true),
                Err(m) => self.skip_after_error(m),
            },
        }
    }
}

/// The outcome of handling a construct whose parse ended in `st1` with `r`.
pub open spec fn parsed_then<T>(
    parsed: (PState, Result<T, Seq<char>>),
    st1: PState,
    r: Action,
    on_ok: spec_fn(T) -> bool,
) -> bool {
    match parsed.1 {
        Err(m) => r matches Action::ParseError(e) && e@ == m && st1 == advance(parsed.0),
        Ok(v) => st1 == parsed.0 && on_ok(v),
    }
}

/// What a step does, from the parse state, unit and registry before to
/// those after, with action `r`.
pub open spec fn step_spec(
    st0: PState,
    fs0: Seq<Function>,
    reg0: Map<Seq<char>, PrototypeV>,
    st1: PState,
    fs1: Seq<Function>,
    reg1: Map<Seq<char>, PrototypeV>,
    r: Action,
) -> bool {
    match st0.cur {
        TokenV::Eof => r is Done && st1 == st0 && fs1 == fs0 && reg1 == reg0,
        TokenV::Char(c) if c == ';' => r is Skipped && st1 == advance(st0) && fs1 == fs0 && reg1
            == reg0,
        TokenV::Extern => parsed_then(
            p_extern(st0),
            st1,
            r,
            |p: PrototypeV|
                {
                    &&& reg1 == reg0.insert(p.name, p)
                    &&& r matches Action::Declare { func: i } && find_fn(fs1, p.name) == Some(
                        i as int,
                    )
                    &&& find_fn(fs0, p.name) is Some ==> fs1 == fs0
                    &&& find_fn(fs0, p.name) is None ==> fs1.drop_last() == fs0
                        && fs1.last().body is None
                },
        ) && (p_extern(st0).1 is Err ==> fs1 == fs0 && reg1 == reg0),
        _ => {
            let parsed = if st0.cur is Def {
                p_definition(st0)
            } else {
                p_top_level(st0)
            };
            parsed_then(
                parsed,
                st1,
                r,
                |f: FunctionV|
                    {
                        &&& fs1 == Seq::<Function>::empty()
                        &&& match r {
                            Action::Define { name, unit, func: i } => st0.cur is Def && name@
                                == f.proto.name && defined(fs0, reg0, f, unit.functions@, reg1, Ok(i)),
                            Action::Evaluate { unit, func: i } => !(st0.cur is Def) && defined(
                                fs0,
                                reg0,
                                f,
                                unit.functions@,
                                reg1,
                                Ok(i),
                            ),
                            Action::CodegenError(m) => def_outcome(fs0, reg0, f) == Some(m@) && reg1
                                == reg0.insert(f.proto.name, f.proto),
                            _ => false,
                        }
                    },
            ) && (parsed.1 is Err ==> fs1 == fs0 && reg1 == reg0)
        },
    }
}

} // verus!
