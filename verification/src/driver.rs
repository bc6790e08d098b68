//! The whole way from source text to effects.
//!
//! A text is scanned, parsed and executed in one go. Where the scan meets
//! `exit`, nothing is parsed and nothing executed: the caller is told to stop.

use vstd::prelude::*;
use crate::ast::{parse, parsed_program, start};
use crate::environment::{Environment, ValueView};
use crate::interpreter::{effect_views, execute, executed, note, reports, Effect, EffectView};
use crate::scanner::{
    lemma_run_end, lemma_scan_from_ends_once, run_end, scan_chars, scanned, skip_run, Run,
};
use crate::token::TokenType;
use crate::text::{chars_of, slice_of};

verus! {

/// What running a text yields, as mathematics.
pub struct RanView {
    pub effects: Seq<EffectView>,
    pub exit: bool,
}

/// What running a text yields: its effects in order, and whether it met
/// `exit`, on which the caller is to stop at once.
#[derive(Debug)]
pub struct Ran {
    pub effects: Vec<Effect>,
    pub exit: bool,
}

impl View for Ran {
    type V = RanView;

    open spec fn view(&self) -> RanView {
        RanView { effects: effect_views(self.effects@), exit: self.exit }
    }
}

/// What running `src` as a complete program under `store` yields, and the
/// store it leaves: the diagnostics of the scan, those of the parse, and
/// then what executing the statements does. A scan that met `exit` is
/// followed by nothing.
pub open spec fn ran(src: Seq<char>, store: Map<Seq<char>, ValueView>) -> (
    RanView,
    Map<Seq<char>, ValueView>,
) {
    let tokens = scanned(src);
    if tokens.exit {
        (RanView { effects: reports(tokens.diagnostics), exit: true }, store)
    } else {
        let tree = parsed_program(start(tokens.tokens));
        let done = executed(tree.0, store);
        (
            RanView {
                effects: reports(tokens.diagnostics) + reports(tree.1.diagnostics) + done.0,
                exit: false,
            },
            done.1,
        )
    }
}

/// What a scan yields can always be parsed: its tokens hold the
/// end-of-input token that a parser needs.
pub proof fn lemma_scanned_is_parseable(src: Seq<char>)
    ensures
        start(scanned(src).tokens).well_formed(),
{
    lemma_scan_from_ends_once(src, 0, 0, 0);
    let tokens = scanned(src).tokens;
    assert(tokens[tokens.len() - 1].token_type == TokenType::EOF);
}

/// What running the lines of `src` from position `from` on yields: each
/// line, without its line feed, is a complete program under a store of its
/// own that defines nothing. A line that meets `exit` is the last.
pub open spec fn batch(src: Seq<char>, from: int) -> RanView
    decreases src.len() - from,
{
    if from < 0 || from >= src.len() {
        RanView { effects: Seq::empty(), exit: false }
    } else {
        proof {
            lemma_run_end(src, from, Run::Line);
        }
        let end = run_end(src, from, Run::Line);
        let first = ran(src.subrange(from, end), Map::empty()).0;
        if first.exit || end >= src.len() {
            first
        } else {
            let rest = batch(src, end + 1);
            RanView { effects: first.effects + rest.effects, exit: rest.exit }
        }
    }
}

/// Runs the characters `source` as a complete program under `env`, appends
/// what that does to `effects`, and says whether the scan met `exit`.
fn run_chars(source: &Vec<char>, env: &mut Environment, effects: &mut Vec<Effect>) -> (exit: bool)
    requires
        old(env).wf(),
    ensures
        final(env).wf(),
        exit == ran(source@, old(env)@).0.exit,
        final(env)@ == ran(source@, old(env)@).1,
        effect_views(final(effects)@) == effect_views(old(effects)@) + ran(
            source@,
            old(env)@,
        ).0.effects,
{
    let ghost before = effect_views(effects@);
    let tokens = scan_chars(source);
    note(effects, &tokens.diagnostics);
    if tokens.exit {
        return true;
    }
    proof {
        lemma_scanned_is_parseable(source@);
    }
    let tree = parse(tokens.tokens);
    note(effects, &tree.diagnostics);
    let mut done = execute(&tree.statements, env);
    let ghost added = effect_views(done@);
    let ghost was = effects@;
    effects.append(&mut done);
    assert(effect_views(effects@) =~= effect_views(was) + added);
    assert(effect_views(effects@) =~= before + ran(source@, old(env)@).0.effects);
    false
}

/// Runs `source` as a complete program under `env`, which keeps what the
/// program declares.
pub fn run(source: &str, env: &mut Environment) -> (out: Ran)
    requires
        old(env).wf(),
    ensures
        final(env).wf(),
        out@ == ran(source@, old(env)@).0,
        final(env)@ == ran(source@, old(env)@).1,
{
    let mut effects: Vec<Effect> = Vec::new();
    let src = chars_of(source);
    let exit = run_chars(&src, env, &mut effects);
    assert(effect_views(effects@) =~= ran(source@, old(env)@).0.effects);
    Ran { effects, exit }
}

/// Runs each line of `contents` as a complete program of its own: what one
/// line declares, the next does not see.
pub fn run_file(contents: &str) -> (out: Ran)
    ensures
        out@ == batch(contents@, 0),
{
    let src = chars_of(contents);
    let mut effects: Vec<Effect> = Vec::new();
    let mut from: usize = 0;
    let mut exit = false;
    assert(effect_views(effects@) + batch(src@, 0).effects =~= batch(src@, 0).effects);
    while from < src.len() && !exit
        invariant
            from <= src.len(),
            src@ == contents@,
            exit ==> effect_views(effects@) == batch(src@, 0).effects && batch(src@, 0).exit,
            !exit ==> effect_views(effects@) + batch(src@, from as int).effects == batch(
                src@,
                0,
            ).effects && batch(src@, from as int).exit == batch(src@, 0).exit,
        decreases
                src.len() - from + (if exit {
                    0int
                } else {
                    1int
                }),
    {
        let ghost before = effect_views(effects@);
        let end = skip_run(&src, from, Run::Line);
        let line = slice_of(&src, from, end);
        let mut env = Environment::new();
        exit = run_chars(&line, &mut env, &mut effects);
        proof {
            let first = ran(line@, Map::empty()).0;
            if !exit {
                let rest = batch(src@, end + 1);
                assert(effect_views(effects@) + rest.effects =~= before + (first.effects
                    + rest.effects));
                if end == src.len() {
                    assert(before + first.effects + batch(src@, end as int).effects =~= before
                        + first.effects);
                }
            }
        }
        if !exit {
            from = if end < src.len() {
                end + 1
            } else {
                end
            };
        }
    }
    assert(effect_views(effects@) + Seq::empty() =~= effect_views(effects@));
    Ran { effects, exit }
}

} // verus!
