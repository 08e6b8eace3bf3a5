//! Evaluation of a field-path expression against a kernel object.
//!
//! The objects belong to a debug-information service that this crate does not
//! reach. [`Evaluator`] therefore only decides: it scans the expression and
//! tells its caller which lookup to make next, the caller makes it and reports
//! how it went. The expression `expr := "*"? Member (("." | "->") Member)*`
//! yields the address of the object it names, or its value with a leading `*`.

use vstd::prelude::*;
use vstd::string::StringExecFns;
use crate::render::{digits, push_digits};
use crate::text::Radix;
use crate::lexer::{Lexer, Scan, Tok, Token, lemma_scan_advances, scan, tokens};

verus! {

/// How the request that the evaluator made last has gone.
#[derive(Debug, Clone, Copy, PartialEq, Eq)]
pub enum Event {
    /// Nothing was requested yet: the root object is the current object.
    Start,
    /// The requested object exists, and is the current object from now on.
    Found,
    /// The requested member, address or number does not exist.
    Missing,
    /// The current object, converted to a number.
    Number(u64),
}

/// What the caller is to do next.
#[derive(Debug, Clone, PartialEq, Eq)]
pub enum Action {
    /// Follow the named pointer member of the current object to its pointee.
    DerefMember(String),
    /// Take the named member of the current object.
    Member(String),
    /// Take the address of the current object.
    AddressOf,
    /// Convert the current object to a number.
    ToNumber,
    /// Stop: the expression has this result, or none.
    Done(Option<u64>),
}

/// An action as a mathematical value.
pub enum Act {
    DerefMember(Seq<char>),
    Member(Seq<char>),
    AddressOf,
    ToNumber,
    Done(Option<u64>),
}

impl View for Action {
    type V = Act;

    open spec fn view(&self) -> Act {
        match self {
            Action::DerefMember(name) => Act::DerefMember(name@),
            Action::Member(name) => Act::Member(name@),
            Action::AddressOf => Act::AddressOf,
            Action::ToNumber => Act::ToNumber,
            Action::Done(result) => Act::Done(*result),
        }
    }
}

/// Where an evaluation stands between two requests.
pub enum EvalState {
    /// Nothing was scanned yet.
    Start { pos: int },
    /// A member was requested; scanning resumes at `pos`.
    Walk { pos: int, value_of: bool },
    /// The address of the final object was requested.
    Address,
    /// The number of the final object, or of its address, was requested.
    Number,
    /// The result was given out.
    Finished,
}

/// The first request: an optional `*`, then the first member, reached from the root.
pub open spec fn step_start(expr: Seq<char>, pos: int) -> (EvalState, Act) {
    match scan(expr, pos) {
        Scan::Token(Tok::Valof, after) => match scan(expr, after) {
            Scan::Token(Tok::Member(name), next) => (
                EvalState::Walk { pos: next, value_of: true },
                Act::DerefMember(name),
            ),
            _ => (EvalState::Finished, Act::Done(None)),
        },
        Scan::Token(Tok::Member(name), next) => (
            EvalState::Walk { pos: next, value_of: false },
            Act::DerefMember(name),
        ),
        _ => (EvalState::Finished, Act::Done(None)),
    }
}

/// The request after a member was found: the next operator with its member,
/// or at the end of the expression the conversion of the final object.
pub open spec fn step_walk(expr: Seq<char>, pos: int, value_of: bool) -> (EvalState, Act) {
    match scan(expr, pos) {
        Scan::End => if value_of {
            (EvalState::Number, Act::ToNumber)
        } else {
            (EvalState::Address, Act::AddressOf)
        },
        Scan::Token(Tok::Access, after) => match scan(expr, after) {
            Scan::Token(Tok::Member(name), next) => (
                EvalState::Walk { pos: next, value_of },
                Act::Member(name),
            ),
            _ => (EvalState::Finished, Act::Done(None)),
        },
        Scan::Token(Tok::Deref, after) => match scan(expr, after) {
            Scan::Token(Tok::Member(name), next) => (
                EvalState::Walk { pos: next, value_of },
                Act::DerefMember(name),
            ),
            _ => (EvalState::Finished, Act::Done(None)),
        },
        _ => (EvalState::Finished, Act::Done(None)),
    }
}

/// The state after `event` arrives in `state`, and the request made then. An
/// event that does not answer the last request ends the evaluation without a
/// result.
pub open spec fn step_spec(expr: Seq<char>, state: EvalState, event: Event) -> (EvalState, Act) {
    match (state, event) {
        (EvalState::Start { pos }, Event::Start) => step_start(expr, pos),
        (EvalState::Walk { pos, value_of }, Event::Found) => step_walk(expr, pos, value_of),
        (EvalState::Address, Event::Found) => (EvalState::Number, Act::ToNumber),
        (EvalState::Number, Event::Number(n)) => (EvalState::Finished, Act::Done(Some(n))),
        _ => (EvalState::Finished, Act::Done(None)),
    }
}

/// The objects of the debug-information service, numbered, with what each of
/// its four capabilities yields for them.
pub struct ObjectGraph {
    pub member: spec_fn(int, Seq<char>) -> Option<int>,
    pub deref_member: spec_fn(int, Seq<char>) -> Option<int>,
    pub address_of: spec_fn(int) -> Option<int>,
    pub to_num: spec_fn(int) -> Option<u64>,
}

/// How a caller that works on `graph` answers a request made while `cur` is
/// the current object, and the object that is current afterwards.
pub open spec fn reply(graph: ObjectGraph, cur: int, act: Act) -> (Event, int) {
    match act {
        Act::DerefMember(name) => match (graph.deref_member)(cur, name) {
            Some(object) => (Event::Found, object),
            None => (Event::Missing, cur),
        },
        Act::Member(name) => match (graph.member)(cur, name) {
            Some(object) => (Event::Found, object),
            None => (Event::Missing, cur),
        },
        Act::AddressOf => match (graph.address_of)(cur) {
            Some(object) => (Event::Found, object),
            None => (Event::Missing, cur),
        },
        Act::ToNumber => match (graph.to_num)(cur) {
            Some(n) => (Event::Number(n), cur),
            None => (Event::Missing, cur),
        },
        Act::Done(_) => (Event::Missing, cur),
    }
}

/// A bound on the requests that can still follow in `state`.
pub open spec fn rank(expr: Seq<char>, state: EvalState) -> nat {
    match state {
        EvalState::Start { pos } => if 0 <= pos <= expr.len() {
            (4 + expr.len() - pos) as nat
        } else {
            4
        },
        EvalState::Walk { pos, .. } => if 0 <= pos <= expr.len() {
            (3 + expr.len() - pos) as nat
        } else {
            3
        },
        EvalState::Address => 2,
        EvalState::Number => 1,
        EvalState::Finished => 0,
    }
}

/// Every step that makes a request leaves fewer requests to follow.
pub proof fn lemma_step_lowers_rank(expr: Seq<char>, state: EvalState, event: Event)
    ensures
        !(step_spec(expr, state, event).1 is Done) ==> rank(expr, step_spec(expr, state, event).0)
            < rank(expr, state),
{
    match state {
        EvalState::Start { pos } => {
            if 0 <= pos < expr.len() {
                lemma_scan_advances(expr, pos);
                if let Scan::Token(_, after) = scan(expr, pos) {
                    lemma_scan_advances(expr, after);
                }
            }
        },
        EvalState::Walk { pos, .. } => {
            if 0 <= pos < expr.len() {
                lemma_scan_advances(expr, pos);
                if let Scan::Token(_, after) = scan(expr, pos) {
                    lemma_scan_advances(expr, after);
                }
            }
        },
        _ => {},
    }
}

/// The result that the evaluator gives out when `event` arrives in `state`
/// and every request from then on is answered from `graph`.
pub open spec fn run(
    graph: ObjectGraph,
    expr: Seq<char>,
    state: EvalState,
    event: Event,
    cur: int,
) -> Option<u64>
    decreases rank(expr, state),
{
    let (next, act) = step_spec(expr, state, event);
    match act {
        Act::Done(result) => result,
        _ => {
            proof {
                lemma_step_lowers_rank(expr, state, event);
            }
            let (answer, object) = reply(graph, cur, act);
            run(graph, expr, next, answer, object)
        },
    }
}

/// The number that stands for the final object: its value, or its address.
pub open spec fn finish(graph: ObjectGraph, cur: int, value_of: bool) -> Option<u64> {
    if value_of {
        (graph.to_num)(cur)
    } else {
        match (graph.address_of)(cur) {
            Some(address) => (graph.to_num)(address),
            None => None,
        }
    }
}

/// The meaning of `(Op Member)*` from the object `cur` on: each member is
/// looked up in the object before it, and the last one is converted.
pub open spec fn walk(graph: ObjectGraph, cur: int, toks: Seq<Tok>, value_of: bool) -> Option<u64>
    decreases toks.len(),
{
    if toks.len() == 0 {
        finish(graph, cur, value_of)
    } else if toks.len() == 1 {
        None
    } else {
        match (toks[0], toks[1]) {
            (Tok::Access, Tok::Member(name)) => match (graph.member)(cur, name) {
                Some(object) => walk(graph, object, toks.skip(2), value_of),
                None => None,
            },
            (Tok::Deref, Tok::Member(name)) => match (graph.deref_member)(cur, name) {
                Some(object) => walk(graph, object, toks.skip(2), value_of),
                None => None,
            },
            _ => None,
        }
    }
}

/// The meaning of `Member (Op Member)*` from the root object on.
pub open spec fn walk_from_root(graph: ObjectGraph, root: int, toks: Seq<Tok>, value_of: bool)
    -> Option<u64> {
    if toks.len() == 0 {
        None
    } else {
        match toks[0] {
            Tok::Member(name) => match (graph.deref_member)(root, name) {
                Some(object) => walk(graph, object, toks.skip(1), value_of),
                None => None,
            },
            _ => None,
        }
    }
}

/// The meaning of a token sequence by the grammar
/// `expr := Valof? Member (Op Member)*`; a sequence that the grammar does
/// not derive has no result.
pub open spec fn eval_tokens(graph: ObjectGraph, root: int, toks: Seq<Tok>) -> Option<u64> {
    if toks.len() > 0 && toks[0] is Valof {
        walk_from_root(graph, root, toks.skip(1), true)
    } else {
        walk_from_root(graph, root, toks, false)
    }
}

/// The result of an expression on an object graph.
pub open spec fn evaluate(graph: ObjectGraph, root: int, expr: Seq<char>) -> Option<u64> {
    match tokens(expr, 0) {
        Some(toks) => eval_tokens(graph, root, toks),
        None => None,
    }
}

/// The tokens from `pos` on, with those of one scanned token split off.
proof fn lemma_tokens_unfold(expr: Seq<char>, pos: int)
    requires
        0 <= pos <= expr.len(),
    ensures
        match scan(expr, pos) {
            Scan::End => tokens(expr, pos) == Some(Seq::<Tok>::empty()),
            Scan::Error => tokens(expr, pos) is None,
            Scan::Token(tok, next) => pos < next <= expr.len() && match tokens(expr, next) {
                Some(rest) => {
                    &&& tokens(expr, pos) matches Some(all)
                    &&& all.len() == rest.len() + 1
                    &&& all[0] == tok
                    &&& all.skip(1) == rest
                },
                None => tokens(expr, pos) is None,
            },
        },
{
    lemma_scan_advances(expr, pos);
    if let Scan::Token(tok, next) = scan(expr, pos) {
        if let Some(rest) = tokens(expr, next) {
            assert((seq![tok] + rest).skip(1) =~= rest);
        }
    }
}

/// Once a member was found, the evaluator's further requests lead to what the
/// grammar gives the rest of the expression.
proof fn lemma_run_walk(graph: ObjectGraph, expr: Seq<char>, pos: int, value_of: bool, cur: int)
    requires
        0 <= pos <= expr.len(),
    ensures
        run(graph, expr, EvalState::Walk { pos, value_of }, Event::Found, cur) == match tokens(
            expr,
            pos,
        ) {
            Some(toks) => walk(graph, cur, toks, value_of),
            None => None,
        },
    decreases expr.len() - pos,
{
    reveal_with_fuel(run, 4);
    lemma_tokens_unfold(expr, pos);
    match scan(expr, pos) {
        Scan::Token(Tok::Access, after) => {
            lemma_tokens_unfold(expr, after);
            if let Scan::Token(Tok::Member(name), next) = scan(expr, after) {
                if let Some(object) = (graph.member)(cur, name) {
                    lemma_run_walk(graph, expr, next, value_of, object);
                }
                if let Some(rest) = tokens(expr, next) {
                    let all = tokens(expr, pos).unwrap();
                    assert(all.skip(1).skip(1) =~= all.skip(2));
                    assert(all[1] == all.skip(1)[0]);
                }
            } else if let Some(all) = tokens(expr, pos) {
                assert(all.len() >= 2 ==> all[1] == all.skip(1)[0]);
            }
        },
        Scan::Token(Tok::Deref, after) => {
            lemma_tokens_unfold(expr, after);
            if let Scan::Token(Tok::Member(name), next) = scan(expr, after) {
                if let Some(object) = (graph.deref_member)(cur, name) {
                    lemma_run_walk(graph, expr, next, value_of, object);
                }
                if let Some(rest) = tokens(expr, next) {
                    let all = tokens(expr, pos).unwrap();
                    assert(all.skip(1).skip(1) =~= all.skip(2));
                    assert(all[1] == all.skip(1)[0]);
                }
            } else if let Some(all) = tokens(expr, pos) {
                assert(all.len() >= 2 ==> all[1] == all.skip(1)[0]);
            }
        },
        _ => {},
    }
}

/// Driving the evaluator with the answers of an object graph gives the result
/// that the grammar assigns to the expression on that graph. The result is
/// thus a function of the expression and the graph alone.
pub proof fn lemma_run_is_evaluate(graph: ObjectGraph, root: int, expr: Seq<char>)
    ensures
        run(graph, expr, EvalState::Start { pos: 0 }, Event::Start, root) == evaluate(
            graph,
            root,
            expr,
        ),
{
    reveal_with_fuel(run, 2);
    lemma_tokens_unfold(expr, 0);
    match scan(expr, 0) {
        Scan::Token(Tok::Valof, after) => {
            lemma_tokens_unfold(expr, after);
            if let Scan::Token(Tok::Member(name), next) = scan(expr, after) {
                if let Some(object) = (graph.deref_member)(root, name) {
                    lemma_run_walk(graph, expr, next, true, object);
                }
            }
        },
        Scan::Token(Tok::Member(name), next) => {
            if let Some(object) = (graph.deref_member)(root, name) {
                lemma_run_walk(graph, expr, next, false, object);
            }
        },
        _ => {},
    }
}

/// A structural operator: `.` or `->`.
pub open spec fn is_operator(tok: Tok) -> bool {
    tok is Access || tok is Deref
}

/// The token sequence is of the form `(Op Member)*`.
pub open spec fn well_formed_tail(toks: Seq<Tok>) -> bool
    decreases toks.len(),
{
    toks.len() == 0 || (toks.len() >= 2 && is_operator(toks[0]) && toks[1] is Member
        && well_formed_tail(toks.skip(2)))
}

/// The token sequence is of the form `Valof? Member (Op Member)*`.
pub open spec fn well_formed(toks: Seq<Tok>) -> bool {
    let path = if toks.len() > 0 && toks[0] is Valof {
        toks.skip(1)
    } else {
        toks
    };
    path.len() > 0 && path[0] is Member && well_formed_tail(path.skip(1))
}

/// Two structural operators stand next to each other.
pub open spec fn has_adjacent_operators(toks: Seq<Tok>) -> bool {
    exists|i: int|
        0 <= i && i + 1 < toks.len() && is_operator(#[trigger] toks[i]) && is_operator(toks[i + 1])
}

/// The first two tokens are both `*`.
pub open spec fn starts_with_two_valof(toks: Seq<Tok>) -> bool {
    toks.len() >= 2 && toks[0] is Valof && toks[1] is Valof
}

proof fn lemma_walk_needs_grammar(graph: ObjectGraph, cur: int, toks: Seq<Tok>, value_of: bool)
    ensures
        walk(graph, cur, toks, value_of) is Some ==> well_formed_tail(toks),
    decreases toks.len(),
{
    if toks.len() >= 2 {
        match (toks[0], toks[1]) {
            (Tok::Access, Tok::Member(name)) => {
                if let Some(object) = (graph.member)(cur, name) {
                    lemma_walk_needs_grammar(graph, object, toks.skip(2), value_of);
                }
            },
            (Tok::Deref, Tok::Member(name)) => {
                if let Some(object) = (graph.deref_member)(cur, name) {
                    lemma_walk_needs_grammar(graph, object, toks.skip(2), value_of);
                }
            },
            _ => {},
        }
    }
}

proof fn lemma_tail_alternates(toks: Seq<Tok>, i: int)
    requires
        well_formed_tail(toks),
        0 <= i < toks.len(),
    ensures
        is_operator(toks[i]) <==> i % 2 == 0,
    decreases toks.len(),
{
    if i >= 2 {
        lemma_tail_alternates(toks.skip(2), i - 2);
    }
}

/// An expression has a result only if it scans and its tokens follow the grammar.
pub proof fn lemma_result_needs_grammar(graph: ObjectGraph, root: int, expr: Seq<char>)
    ensures
        evaluate(graph, root, expr) is Some ==> (tokens(expr, 0) matches Some(toks) && well_formed(
            toks,
        )),
{
    if let Some(toks) = tokens(expr, 0) {
        let value_of = toks.len() > 0 && toks[0] is Valof;
        let path = if value_of {
            toks.skip(1)
        } else {
            toks
        };
        if path.len() > 0 {
            if let Tok::Member(name) = path[0] {
                if let Some(object) = (graph.deref_member)(root, name) {
                    lemma_walk_needs_grammar(graph, object, path.skip(1), value_of);
                }
            }
        }
    }
}

/// A token sequence with two operators in a row, or with two leading `*`,
/// does not follow the grammar.
pub proof fn lemma_grammar_excludes(toks: Seq<Tok>)
    requires
        has_adjacent_operators(toks) || starts_with_two_valof(toks),
    ensures
        !well_formed(toks),
{
    if well_formed(toks) {
        let lead: int = if toks.len() > 0 && toks[0] is Valof {
            1
        } else {
            0
        };
        let path = if lead == 1 {
            toks.skip(1)
        } else {
            toks
        };
        let tail = path.skip(1);
        assert(path[0] == toks[lead]);
        if has_adjacent_operators(toks) {
            let i = choose|i: int|
                0 <= i && i + 1 < toks.len() && is_operator(#[trigger] toks[i]) && is_operator(
                    toks[i + 1],
                );
            assert(i > lead);
            lemma_tail_alternates(tail, i - lead - 1);
            lemma_tail_alternates(tail, i - lead);
            assert(tail[i - lead - 1] == toks[i]);
            assert(tail[i - lead] == toks[i + 1]);
        }
    }
}

/// An expression that does not scan, or that holds two structural operators in
/// a row, or that begins with two `*`, has no result on any object graph,
/// whatever the lookups yield.
pub proof fn lemma_malformed_has_no_result(graph: ObjectGraph, root: int, expr: Seq<char>)
    requires
        tokens(expr, 0) matches Some(toks) ==> has_adjacent_operators(toks)
            || starts_with_two_valof(toks),
    ensures
        evaluate(graph, root, expr) is None,
        run(graph, expr, EvalState::Start { pos: 0 }, Event::Start, root) is None,
{
    lemma_run_is_evaluate(graph, root, expr);
    lemma_result_needs_grammar(graph, root, expr);
    if let Some(toks) = tokens(expr, 0) {
        lemma_grammar_excludes(toks);
    }
}

#[derive(Debug, Clone, Copy, PartialEq, Eq)]
enum Phase {
    Start,
    Walk,
    Address,
    Number,
    Finished,
}

/// The decisions of one evaluation.
pub struct Evaluator {
    lexer: Lexer,
    value_of: bool,
    phase: Phase,
}

impl View for Evaluator {
    type V = EvalState;

    closed spec fn view(&self) -> EvalState {
        match self.phase {
            Phase::Start => EvalState::Start { pos: self.lexer.position() },
            Phase::Walk => EvalState::Walk { pos: self.lexer.position(), value_of: self.value_of },
            Phase::Address => EvalState::Address,
            Phase::Number => EvalState::Number,
            Phase::Finished => EvalState::Finished,
        }
    }
}

impl Evaluator {
    /// The expression under evaluation.
    pub closed spec fn expr(&self) -> Seq<char> {
        self.lexer.input()
    }

    pub fn new(expr: String) -> (evaluator: Self)
        ensures
            evaluator.expr() == expr@,
            evaluator@ == (EvalState::Start { pos: 0 }),
    {
        Evaluator { lexer: Lexer::new(expr), value_of: false, phase: Phase::Start }
    }

    /// Takes the outcome of the last request and gives the next one.
    pub fn step(&mut self, event: Event) -> (action: Action)
        ensures
            final(self).expr() == old(self).expr(),
            (final(self)@, action@) == step_spec(old(self).expr(), old(self)@, event),
    {
        match (self.phase, event) {
            (Phase::Start, Event::Start) => {
                let first = self.lexer.next_token();
                match first {
                    Some(Token::Valof) => {
                        let second = self.lexer.next_token();
                        self.request_member(second, true, true)
                    },
                    _ => self.request_member(first, false, true),
                }
            },
            (Phase::Walk, Event::Found) => {
                let operator = self.lexer.next_token();
                match operator {
                    None => {
                        if self.lexer.at_end() {
                            if self.value_of {
                                self.phase = Phase::Number;
                                Action::ToNumber
                            } else {
                                self.phase = Phase::Address;
                                Action::AddressOf
                            }
                        } else {
                            self.phase = Phase::Finished;
                            Action::Done(None)
                        }
                    },
                    Some(Token::Access) => {
                        let member = self.lexer.next_token();
                        let value_of = self.value_of;
                        self.request_member(member, value_of, false)
                    },
                    Some(Token::Deref) => {
                        let member = self.lexer.next_token();
                        let value_of = self.value_of;
                        self.request_member(member, value_of, true)
                    },
                    _ => {
                        self.phase = Phase::Finished;
                        Action::Done(None)
                    },
                }
            },
            (Phase::Address, Event::Found) => {
                self.phase = Phase::Number;
                Action::ToNumber
            },
            (Phase::Number, Event::Number(n)) => {
                self.phase = Phase::Finished;
                Action::Done(Some(n))
            },
            _ => {
                self.phase = Phase::Finished;
                Action::Done(None)
            },
        }
    }

    /// Requests the member that `token` names, through a pointer or not; ends
    /// the evaluation where `token` is no member.
    fn request_member(&mut self, token: Option<Token>, value_of: bool, deref: bool) -> (action:
        Action)
        ensures
            final(self).lexer == old(self).lexer,
            match token {
                Some(Token::Member(name)) => {
                    &&& final(self)@ == (EvalState::Walk {
                        pos: old(self).lexer.position(),
                        value_of,
                    })
                    &&& action@ == if deref {
                        Act::DerefMember(name@)
                    } else {
                        Act::Member(name@)
                    }
                },
                _ => final(self)@ == EvalState::Finished && action@ == Act::Done(None),
            },
    {
        match token {
            Some(Token::Member(name)) => {
                self.value_of = value_of;
                self.phase = Phase::Walk;
                if deref {
                    Action::DerefMember(name)
                } else {
                    Action::Member(name)
                }
            },
            _ => {
                self.phase = Phase::Finished;
                Action::Done(None)
            },
        }
    }
}

/// The message for an expression without a result: `Invalid kexpr <expr>`,
/// followed by ` for pid <pid>` where the expression was rooted at a process.
pub open spec fn failure_text(expr: Seq<char>, pid: Option<u64>) -> Seq<char> {
    "Invalid kexpr "@ + expr + match pid {
        Some(pid) => " for pid "@ + digits(pid as nat, 10),
        None => Seq::empty(),
    }
}

/// Formats the message for an expression without a result.
pub fn failure_message(expr: &str, pid: Option<u64>) -> (s: String)
    ensures
        s@ == failure_text(expr@, pid),
{
    let mut s = String::from_str("Invalid kexpr ");
    s.append(expr);
    match pid {
        Some(pid) => {
            s.append(" for pid ");
            push_digits(&mut s, pid, Radix::Decimal);
        },
        None => {},
    }
    assert(s@ =~= failure_text(expr@, pid));
    s
}

} // verus!
