//! An interpreter for a small dynamically typed scripting language with
//! variables, control flow and first-class functions that close over the
//! scope they are declared in.
//!
//! A source text goes through four stages: the [`lexer`] turns it into
//! tokens, the [`parser`] turns the tokens into statements, the
//! [`resolver`] finds for each use of a variable the scope of its
//! declaration, and the [`interpreter`] runs the statements.
//! [`run_source_code`] takes a text through the first three.
//!
//! Each stage is verified against a mathematical model of what it
//! returns: the lexer against [`lexer::lex`], the parser against the
//! functions of [`parser::grammar`], the resolver against
//! [`resolver::rules`] and the evaluator against
//! [`interpreter::machine`]. What the stages owe one another is proved
//! as well: the parser gives each use of a variable an id of its own,
//! the resolver binds each use to a scope in which a variable of its
//! name is declared, and so the evaluator finds every variable where it
//! looks for it ([`interpreter::progress`]). Scopes are opened and closed
//! in pairs, in the resolver and in the evaluator, also where an error
//! ends a statement or the program ([`interpreter::pairing`]).
//!
//! The library holds no floating point. A number is kept as the digits it
//! was written with, and at run time as the bits of a double. The
//! evaluator compares and negates numbers itself; for the result of an
//! arithmetic operation and for the number that digits stand for it asks
//! its caller, and it hands a number that is to be written to its caller
//! as it is.
pub mod errors;
pub mod interpreter;
pub mod lexer;
pub mod parser;
pub mod resolver;
pub mod text;

pub use errors::{LoxError, LoxErrorView};

use interpreter::machine::push_task;
use interpreter::pairing::{home, lemma_program_home};
use interpreter::progress::{lemma_program_sound, sound};
use interpreter::{initial, InterpreterView, TaskView};
use lexer::Lexer;
use parser::grammar::Progress;
use parser::stmt::{stmts_formed, stmts_ids_unique, stmts_view};
use resolver::depths::stmts_bound;
use resolver::scoping::{stmts_scoped, Names};
use parser::{Parser, Stmt, StmtView};
use resolver::{Resolver, ResolverView};
use vstd::prelude::*;

verus! {

/// A program that is ready to run: its statements, and the resolver that
/// has bound the uses of its variables.
pub struct Program {
    pub stmts: Vec<Stmt>,
    pub resolver: Resolver,
}

/// The mathematical value of a [`Program`].
pub struct ProgramView {
    pub stmts: Seq<StmtView>,
    pub resolver: ResolverView,
}

impl View for Program {
    type V = ProgramView;

    open spec fn view(&self) -> ProgramView {
        ProgramView { stmts: stmts_view(self.stmts@), resolver: self.resolver@ }
    }
}

/// The state of a machine that has been given `program` to run.
pub open spec fn started(program: ProgramView) -> InterpreterView {
    push_task(
        initial(program.resolver.bindings),
        TaskView::Program { stmts: program.stmts, next: 0 },
    )
}

/// The names that are declared where a program starts: none, in the
/// empty scope of the resolver and in the scope of the program.
pub open spec fn program_names() -> Names {
    seq![Set::empty(), Set::empty()]
}

/// The state in which a resolver starts: one scope, which stays empty.
pub open spec fn fresh_resolver() -> ResolverView {
    ResolverView { scopes: seq![Seq::empty()], bindings: Map::empty(), errors: Seq::empty() }
}

/// What becomes of a source text before it runs: it is lexed, parsed and
/// resolved, and the first of the three that finds errors ends the way
/// with them.
pub open spec fn front_end(source: Seq<char>) -> Result<ProgramView, Seq<LoxErrorView>> {
    match lexer::lex(source) {
        Err(error) => Err(seq![LoxErrorView::LexerError(error)]),
        Ok(tokens) => {
            let parsed = parser::grammar::program(
                tokens,
                Progress { stmts: Seq::empty(), errors: Seq::empty(), pos: 0, id: 0 },
            );
            if parsed.errors.len() > 0 {
                Err(
                    Seq::new(
                        parsed.errors.len(),
                        |i: int| LoxErrorView::ParseError(parsed.errors[i]),
                    ),
                )
            } else {
                let resolved = resolver::rules::resolve(fresh_resolver(), parsed.stmts);
                if resolved.errors.len() > 0 {
                    Err(
                        Seq::new(
                            resolved.errors.len(),
                            |i: int| LoxErrorView::ResolveError(resolved.errors[i]),
                        ),
                    )
                } else {
                    Ok(ProgramView { stmts: parsed.stmts, resolver: resolved })
                }
            }
        },
    }
}

/// Takes `source_code` up to where it can run: lexes, parses and resolves
/// it, and returns the program, or the errors of the first stage that
/// found any. To run the program, hand it to an
/// [`interpreter::Interpreter`].
///
/// A program that is returned is formed as the grammar says. No two uses
/// of a variable in it have the same id, and each use has a depth that
/// leads to a scope in which a variable of its name is declared, and that
/// is no greater than the number of scopes around the scope that the use
/// stands in; around the scope of the program there is none. A machine
/// that starts on the program is in a sound state, which its steps keep:
/// the program never gets the machine stuck. The frame that the machine
/// goes back to when the program is done, or when an error ends it, is
/// the outermost.
pub fn run_source_code(source_code: &str) -> (result: Result<Program, Vec<LoxError>>)
    requires
        source_code@.len() < usize::MAX,
    ensures
        match result {
            Ok(program) => front_end(source_code@) == Ok::<ProgramView, Seq<LoxErrorView>>(program@),
            Err(errors) => front_end(source_code@) == Err::<ProgramView, Seq<LoxErrorView>>(
                errors::errors_view(errors@),
            ),
        },
        result matches Err(errors) ==> errors.len() > 0,
        result matches Ok(program) ==> {
            &&& stmts_formed(program@.stmts)
            &&& stmts_ids_unique(program@.stmts)
            &&& stmts_bound(program@.stmts, program@.resolver.bindings, 0)
            &&& stmts_scoped(program@.stmts, 0, program@.resolver.bindings, program_names())
            &&& sound(started(program@))
            &&& home(started(program@)) == 0
        },
{
    let mut lexer = Lexer::new(source_code);
    let tokens = match lexer.tokenize() {
        Ok(tokens) => tokens,
        Err(error) => {
            let mut errors: Vec<LoxError> = Vec::new();
            errors.push(LoxError::LexerError(error));
            assert(errors::errors_view(errors@) =~= seq![LoxErrorView::LexerError(error@)]);
            return Err(errors);
        },
    };
    let mut parser = Parser::new(tokens);
    let stmts = parser.parse();
    if parser.errors().len() > 0 {
        let found = parser.errors();
        let mut errors: Vec<LoxError> = Vec::new();
        let mut from: usize = 0;
        while from < found.len()
            invariant
                from <= found.len(),
                errors.len() == from,
                forall|i: int|
                    0 <= i < from ==> errors[i]@ == LoxErrorView::ParseError(#[trigger] found[i]@),
            decreases found.len() - from,
        {
            errors.push(LoxError::ParseError(found[from].clone()));
            from += 1;
        }
        assert(errors::errors_view(errors@) =~= Seq::new(
            parser.reported().len(),
            |i: int| LoxErrorView::ParseError(parser.reported()[i]),
        ));
        return Err(errors);
    }
    let mut resolver = Resolver::new();
    assert(resolver.names().push(Set::empty()) =~= program_names()) by {
        assert(resolver.names() =~= seq![Set::empty()]);
    }
    resolver.resolve(&stmts);
    if resolver.errors().len() > 0 {
        let found = resolver.errors();
        let mut errors: Vec<LoxError> = Vec::new();
        let mut from: usize = 0;
        while from < found.len()
            invariant
                from <= found.len(),
                errors.len() == from,
                forall|i: int|
                    0 <= i < from ==> errors[i]@ == LoxErrorView::ResolveError(
                        #[trigger] found[i]@,
                    ),
            decreases found.len() - from,
        {
            errors.push(LoxError::ResolveError(found[from].clone()));
            from += 1;
        }
        assert(errors::errors_view(errors@) =~= Seq::new(
            resolver@.errors.len(),
            |i: int| LoxErrorView::ResolveError(resolver@.errors[i]),
        ));
        return Err(errors);
    }
    proof {
        lemma_program_sound(resolver@.bindings, stmts_view(stmts@));
        lemma_program_home(resolver@.bindings, stmts_view(stmts@));
    }
    Ok(Program { stmts, resolver })
}

} // verus!
