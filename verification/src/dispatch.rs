//! The dispatcher: resolves the header of each message unit in the command
//! tree, runs its handler, and keeps the books of the header path, the
//! status and the response.

use vstd::prelude::*;
use crate::command::{Command, Context};
use crate::error::{
    Error, ErrorCode, ESR_COMMAND_ERROR, ESR_DEVICE_ERROR, ESR_EXECUTION_ERROR, ESR_QUERY_ERROR,
};
use crate::lexis::{lemma_step_advances, LexState};
use crate::response::{Response, ResponseView};
use crate::status::{Status, StatusView};
use crate::token::{Token, TokenView};
use crate::tokenizer::Tokenizer;
use crate::tree::{lemma_depth_of_parent, lemma_descend, lemma_find, Seek, SeekView, Tree, TreeView};

verus! {

/// What a header resolves to.
#[derive(Clone, Copy, Debug, PartialEq, Eq, Structural)]
pub struct Target {
    /// The node whose handler runs.
    pub node: usize,
    /// Whether the header ends in `?`.
    pub query: bool,
    /// Whether the header is that of a common command.
    pub common: bool,
}

/// Follows a chain of mnemonics, joined by `:`, from `node`. The chain ends
/// before the first token that is neither; an undefined mnemonic and an
/// error of the lexer, which is consumed, end it with that error.
pub open spec fn walk(tree: TreeView, node: int, st: LexState) -> (Result<int, ErrorCode>, LexState)
    decreases st.input.len() - st.pos,
    when st.wf()
{
    match st.step().0 {
        Some(Ok(TokenView::ProgramMnemonic(m))) => {
            let st1 = st.step().1;
            match tree.descend(node, m) {
                None => (Err(ErrorCode::UndefinedHeader), st1),
                Some(child) => match st1.step().0 {
                    Some(Ok(TokenView::HeaderMnemonicSeparator)) => {
                        proof {
                            lemma_step_advances(st);
                            lemma_step_advances(st1);
                        }
                        walk(tree, child, st1.step().1)
                    },
                    Some(Err(code)) => (Err(code), st1.step().1),
                    _ => (Ok(child), st1),
                },
            }
        },
        Some(Err(code)) => (Err(code), st.step().1),
        _ => (Err(ErrorCode::CommandHeaderError), st),
    }
}

/// The node at which a header without a leading `:` is looked up: the
/// header path, or the root where the path names no node.
pub open spec fn path_node(tree: TreeView, path: int) -> int {
    if 0 <= path < tree.nodes.len() {
        path
    } else {
        0
    }
}

/// The node that the mnemonics of a header lead to, and whether the header
/// is that of a common command.
///
/// Behind `*` the mnemonic names a child of the root whose name starts with
/// `*`. Behind `:` the chain of mnemonics is followed from the root, and
/// without it from the header path.
pub open spec fn locate(tree: TreeView, path: int, st: LexState) -> (
    Result<(int, bool), ErrorCode>,
    LexState,
) {
    let first = st.step();
    match first.0 {
        Some(Ok(TokenView::HeaderCommonPrefix)) => match first.1.step().0 {
            Some(Ok(TokenView::ProgramMnemonic(m))) => (
                match tree.child(0, SeekView::Common(m)) {
                    Some(n) => Ok((n, true)),
                    None => Err(ErrorCode::UndefinedHeader),
                },
                first.1.step().1,
            ),
            Some(Err(code)) => (Err(code), first.1.step().1),
            _ => (Err(ErrorCode::CommandHeaderError), first.1),
        },
        Some(Ok(TokenView::HeaderMnemonicSeparator)) => (
            match walk(tree, 0, first.1).0 {
                Ok(n) => Ok((n, false)),
                Err(code) => Err(code),
            },
            walk(tree, 0, first.1).1,
        ),
        Some(Ok(TokenView::ProgramMnemonic(_))) => (
            match walk(tree, path_node(tree, path), st).0 {
                Ok(n) => Ok((n, false)),
                Err(code) => Err(code),
            },
            walk(tree, path_node(tree, path), st).1,
        ),
        Some(Err(code)) => (Err(code), first.1),
        _ => (Err(ErrorCode::SyntaxError), st),
    }
}

/// The node whose handler runs for a header that leads to `node`: for a
/// common command the node itself, which must have a handler, and otherwise
/// the node or what its default children lead to.
pub open spec fn handler_node(tree: TreeView, node: int, common: bool) -> Option<int> {
    if common {
        if 0 <= node < tree.nodes.len() && tree.nodes[node].has_handler {
            Some(node)
        } else {
            None
        }
    } else {
        tree.terminal(node)
    }
}

/// What the header at `st` resolves to, and the state of the lexer behind
/// the header. An error of the lexer within the header is handed on, and a
/// header that leads to a node without a handler is a `CommandHeaderError`.
pub open spec fn resolve(tree: TreeView, path: int, st: LexState) -> (
    Result<Target, ErrorCode>,
    LexState,
) {
    let (found, st1) = locate(tree, path, st);
    match found {
        Err(code) => (Err(code), st1),
        Ok((n, common)) => match st1.step().0 {
            Some(Err(code)) => (Err(code), st1.step().1),
            next => match handler_node(tree, n, common) {
                None => (Err(ErrorCode::CommandHeaderError), st1),
                Some(t) => match next {
                    Some(Ok(TokenView::HeaderQuerySuffix)) => (
                        Ok(Target { node: t as usize, query: true, common }),
                        st1.step().1,
                    ),
                    _ => (Ok(Target { node: t as usize, query: false, common }), st1),
                },
            },
        },
    }
}

/// The state behind the white space that separates a header from its
/// data, if such white space stands at `st`.
pub open spec fn behind_header(st: LexState) -> LexState {
    match st.step().0 {
        Some(Ok(TokenView::ProgramHeaderSeparator)) => st.step().1,
        _ => st,
    }
}

/// Where the message unit that `st` lies in ends: behind the next `;` or
/// line feed that is read as a token, or at the end of the message. The
/// flag says whether the message ends there too.
pub open spec fn unit_end(st: LexState) -> (bool, LexState)
    decreases st.input.len() - st.pos,
    when st.wf()
{
    match st.step().0 {
        None => (true, st),
        Some(Ok(TokenView::ProgramMessageTerminator)) => (true, st.step().1),
        Some(Ok(TokenView::ProgramMessageUnitSeparator)) => (false, st.step().1),
        Some(_) => {
            proof {
                lemma_step_advances(st);
            }
            unit_end(st.step().1)
        },
    }
}

/// Whether nothing is left to run at `st`: the message has ended, or its
/// terminator stands there.
pub open spec fn at_message_end(st: LexState) -> bool {
    match st.step().0 {
        None => true,
        Some(Ok(TokenView::ProgramMessageTerminator)) => true,
        _ => false,
    }
}

/// The number of message units from `st` on. It depends on the bytes of
/// the message alone, and not on what the units do.
pub open spec fn unit_count(st: LexState) -> nat
    decreases st.input.len() - st.pos,
    when st.wf()
{
    if at_message_end(st) {
        0
    } else if unit_end(st).0 {
        1
    } else {
        proof {
            lemma_step_advances(st);
            lemma_unit_end(st);
        }
        1 + unit_count(unit_end(st).1)
    }
}

/// Whether a unit ends at `st`: the message ends there, or a `;` or a line
/// feed follows.
pub open spec fn at_boundary(st: LexState) -> bool {
    match st.step().0 {
        None => true,
        Some(Ok(TokenView::ProgramMessageTerminator)) => true,
        Some(Ok(TokenView::ProgramMessageUnitSeparator)) => true,
        _ => false,
    }
}

/// The outcome of a unit: that of its handler, unless the handler succeeded
/// and left data unread, which is an `InvalidSeparator`.
pub open spec fn settled(outcome: Result<(), Error>, args: LexState) -> Result<(), Error> {
    match outcome {
        Ok(_) => if at_boundary(args) {
            Ok(())
        } else {
            Err(Error { code: ErrorCode::InvalidSeparator })
        },
        Err(error) => Err(error),
    }
}

/// The header path after a unit: the parent of the node whose handler ran.
/// A failed unit and a common command leave the path as it is.
pub open spec fn path_after(tree: TreeView, path: usize, target: Target, outcome: Result<(), Error>) -> usize {
    if outcome is Ok && !target.common && target.node < tree.nodes.len() {
        tree.nodes[target.node as int].parent as usize
    } else {
        path
    }
}

/// The status after a unit: a failed unit has its error recorded.
pub open spec fn status_after(status: StatusView, outcome: Result<(), Error>) -> StatusView {
    match outcome {
        Ok(_) => status,
        Err(error) => status.recorded(error),
    }
}

/// The response after a unit: what a query that succeeded has written
/// stays, and what one that failed has written is taken back.
pub open spec fn response_after(response: ResponseView, target: Target, outcome: Result<(), Error>) -> ResponseView {
    if !target.query {
        response
    } else if outcome is Ok {
        response.finished()
    } else {
        response.rolled_back()
    }
}

/// The error for which a unit is refused before any handler runs: the
/// error of a header that does not resolve, or `OutOfMemory` where the
/// response has no room for the `;` before the answer to a query.
pub open spec fn refusal(tree: TreeView, path: int, st: LexState, response: ResponseView) -> Option<
    Error,
> {
    match resolve(tree, path, st).0 {
        Err(code) => Some(Error { code }),
        Ok(target) => if target.query {
            match response.begin().0 {
                Err(error) => Some(error),
                Ok(_) => None,
            }
        } else {
            None
        },
    }
}

/// Whether the books were kept on a unit with the given outcome: the
/// status, the header path and the response are what the handler has left
/// behind, with the outcome entered.
pub open spec fn books_kept(
    tree: TreeView,
    target: Target,
    outcome: Result<(), Error>,
    status: StatusView,
    path: usize,
    response: ResponseView,
) -> bool {
    exists|status_left: StatusView, path_left: usize, response_left: ResponseView|
        {
            &&& status == status_after(status_left, outcome)
            &&& path == path_after(tree, path_left, target, outcome)
            &&& response == response_after(response_left, target, outcome)
        }
}

/// What a unit finds and leaves behind: the status, the header path and
/// the response.
pub struct Scene {
    pub status: StatusView,
    pub path: usize,
    pub response: ResponseView,
}

/// The scene made of a status, a header path and a response.
pub open spec fn scene(status: StatusView, path: usize, response: ResponseView) -> Scene {
    Scene { status, path, response }
}

/// Whether the unit at `st` leads from the scene `before` to the scene
/// `after` with the given outcome. A unit that is refused fails with the
/// error of the refusal, which is recorded, and changes nothing else. For
/// any other unit the books are kept on what its handler has left behind.
pub open spec fn unit_step(
    tree: TreeView,
    st: LexState,
    before: Scene,
    outcome: Result<(), Error>,
    after: Scene,
) -> bool {
    match refusal(tree, before.path as int, st, before.response) {
        Some(error) => outcome == Err::<(), Error>(error) && after == scene(
            before.status.recorded(error),
            before.path,
            before.response,
        ),
        None => match resolve(tree, before.path as int, st).0 {
            Ok(target) => books_kept(
                tree,
                target,
                outcome,
                after.status,
                after.path,
                after.response,
            ),
            Err(_) => false,
        },
    }
}

/// Where the unit with index `i` starts, counted from the unit at `st`.
pub open spec fn unit_start(st: LexState, i: nat) -> LexState
    decreases i,
{
    if i == 0 {
        st
    } else {
        unit_end(unit_start(st, (i - 1) as nat)).1
    }
}

/// The number of outcomes that are failures.
pub open spec fn failures(outcomes: Seq<Result<(), Error>>) -> nat
    decreases outcomes.len(),
{
    if outcomes.len() == 0 {
        0
    } else {
        failures(outcomes.drop_last()) + if outcomes.last() is Err {
            1nat
        } else {
            0nat
        }
    }
}

/// The error of the first outcome that is a failure.
pub open spec fn first_failure(outcomes: Seq<Result<(), Error>>) -> Option<Error>
    decreases outcomes.len(),
{
    if outcomes.len() == 0 {
        None
    } else {
        match first_failure(outcomes.drop_last()) {
            Some(error) => Some(error),
            None => match outcomes.last() {
                Err(error) => Some(error),
                Ok(_) => None,
            },
        }
    }
}

/// How a message ends, given the scene behind its last unit and the first
/// failure among its units: the first error of the message, and the scene
/// that is left. After a failure nothing more is done. Without one the
/// response is closed; where it has no room for the line feed, that is the
/// error of the message, and it is recorded.
pub open spec fn closing(last: Scene, failure: Option<Error>) -> (Option<Error>, Scene) {
    match failure {
        Some(error) => (Some(error), last),
        None => match last.response.ended().0 {
            Ok(_) => (None, scene(last.status, last.path, last.response.ended().1)),
            Err(error) => (Some(error), scene(last.status.recorded(error), last.path, last.response)),
        },
    }
}

/// Whether running the message that starts at `start` in the scene `first`
/// has gone through the given scenes, one behind each unit, with the given
/// outcomes of the units, and has ended with the report `r` in the scene
/// `last`.
pub open spec fn ran(
    tree: TreeView,
    start: LexState,
    first: Scene,
    scenes: Seq<Scene>,
    outcomes: Seq<Result<(), Error>>,
    r: Report,
    last: Scene,
) -> bool {
    &&& scenes.len() == r.units + 1
    &&& outcomes.len() == r.units
    &&& scenes[0] == first
    &&& forall|i: int|
        0 <= i < r.units ==> unit_step(
            tree,
            unit_start(start, i as nat),
            #[trigger] scenes[i],
            outcomes[i],
            scenes[i + 1],
        )
    &&& r.failed == failures(outcomes)
    &&& r.first_error == closing(scenes.last(), first_failure(outcomes)).0
    &&& last == closing(scenes.last(), first_failure(outcomes)).1
}

/// Reading a header stays inside the message.
proof fn lemma_walk(tree: TreeView, node: int, st: LexState)
    requires
        st.wf(),
        tree.wf(),
        0 <= node < tree.nodes.len(),
    ensures
        walk(tree, node, st).1.wf(),
        walk(tree, node, st).1.input == st.input,
        st.pos <= walk(tree, node, st).1.pos,
        unit_end(walk(tree, node, st).1) == unit_end(st),
        walk(tree, node, st).0 matches Ok(n) ==> 1 <= n < tree.nodes.len(),
    decreases st.input.len() - st.pos,
{
    lemma_step_advances(st);
    match st.step().0 {
        Some(Ok(TokenView::ProgramMnemonic(m))) => {
            let st1 = st.step().1;
            assert(unit_end(st) == unit_end(st1));
            lemma_step_advances(st1);
            lemma_descend(tree, node, m);
            match tree.descend(node, m) {
                None => {},
                Some(child) => match st1.step().0 {
                    Some(Ok(TokenView::HeaderMnemonicSeparator)) => {
                        assert(unit_end(st1) == unit_end(st1.step().1));
                        lemma_walk(tree, child, st1.step().1);
                    },
                    Some(Err(_)) => {
                        assert(unit_end(st1) == unit_end(st1.step().1));
                    },
                    _ => {},
                },
            }
        },
        Some(Err(_)) => {
            assert(unit_end(st) == unit_end(st.step().1));
        },
        _ => {},
    }
}

/// Finding the node of a header reads tokens of the unit only.
proof fn lemma_locate(tree: TreeView, path: int, st: LexState)
    requires
        st.wf(),
        tree.wf(),
    ensures
        locate(tree, path, st).1.wf(),
        locate(tree, path, st).1.input == st.input,
        st.pos <= locate(tree, path, st).1.pos,
        unit_end(locate(tree, path, st).1) == unit_end(st),
        locate(tree, path, st).0 matches Ok((n, _)) ==> 1 <= n < tree.nodes.len(),
{
    lemma_step_advances(st);
    let first = st.step();
    match first.0 {
        Some(Ok(TokenView::HeaderCommonPrefix)) => {
            assert(unit_end(st) == unit_end(first.1));
            lemma_step_advances(first.1);
            match first.1.step().0 {
                Some(Ok(TokenView::ProgramMnemonic(m))) => {
                    assert(unit_end(first.1) == unit_end(first.1.step().1));
                    lemma_find(tree, 0, 1, SeekView::Common(m));
                },
                Some(Err(_)) => {
                    assert(unit_end(first.1) == unit_end(first.1.step().1));
                },
                _ => {},
            }
        },
        Some(Ok(TokenView::HeaderMnemonicSeparator)) => {
            assert(unit_end(st) == unit_end(first.1));
            lemma_walk(tree, 0, first.1);
        },
        Some(Ok(TokenView::ProgramMnemonic(_))) => {
            lemma_walk(tree, path_node(tree, path), st);
        },
        Some(Err(_)) => {
            assert(unit_end(st) == unit_end(first.1));
        },
        _ => {},
    }
}

/// Passing the white space behind a header stays inside the unit.
proof fn lemma_behind_header(st: LexState)
    requires
        st.wf(),
    ensures
        behind_header(st).wf(),
        behind_header(st).input == st.input,
        st.pos <= behind_header(st).pos,
        unit_end(behind_header(st)) == unit_end(st),
{
    lemma_step_advances(st);
    match st.step().0 {
        Some(Ok(TokenView::ProgramHeaderSeparator)) => {
            assert(unit_end(st) == unit_end(st.step().1));
        },
        _ => {},
    }
}

/// Resolving a header reads tokens of the unit only: the unit ends where
/// it ended before. The node that a header resolves to is a node of the
/// tree other than the root, and it has a handler.
pub proof fn lemma_resolve(tree: TreeView, path: int, st: LexState)
    requires
        st.wf(),
        tree.wf(),
    ensures
        resolve(tree, path, st).1.wf(),
        resolve(tree, path, st).1.input == st.input,
        st.pos <= resolve(tree, path, st).1.pos,
        unit_end(resolve(tree, path, st).1) == unit_end(st),
        unit_end(behind_header(resolve(tree, path, st).1)) == unit_end(st),
        behind_header(resolve(tree, path, st).1).wf(),
        resolve(tree, path, st).0 matches Ok(target) ==> 1 <= target.node < tree.nodes.len()
            && tree.nodes[target.node as int].has_handler,
{
    lemma_locate(tree, path, st);
    let (found, st1) = locate(tree, path, st);
    lemma_step_advances(st1);
    match found {
        Ok((n, common)) => {
            if !common {
                lemma_descend(tree, n, Seq::empty());
            }
            match st1.step().0 {
                Some(Ok(TokenView::HeaderQuerySuffix)) => {
                    assert(unit_end(st1) == unit_end(st1.step().1));
                },
                Some(Err(_)) => {
                    assert(unit_end(st1) == unit_end(st1.step().1));
                },
                _ => {},
            }
        },
        Err(_) => {},
    }
    lemma_behind_header(resolve(tree, path, st).1);
}

/// The end of a unit lies inside the message, and behind at least one byte
/// unless the message has ended.
pub proof fn lemma_unit_end(st: LexState)
    requires
        st.wf(),
    ensures
        unit_end(st).1.wf(),
        unit_end(st).1.input == st.input,
        st.pos <= unit_end(st).1.pos,
        st.pos < st.input.len() ==> st.pos < unit_end(st).1.pos,
    decreases st.input.len() - st.pos,
{
    lemma_step_advances(st);
    match st.step().0 {
        None => {},
        Some(Ok(TokenView::ProgramMessageTerminator)) => {},
        Some(Ok(TokenView::ProgramMessageUnitSeparator)) => {},
        Some(_) => {
            lemma_unit_end(st.step().1);
        },
    }
}

/// After a unit that succeeded, the header path is the parent of the node
/// whose handler ran, one step nearer to the root than the node; a common
/// command leaves the path as it is.
pub proof fn lemma_path_preserved(tree: TreeView, path: usize, target: Target)
    requires
        tree.wf(),
        1 <= target.node < tree.nodes.len(),
    ensures
        !target.common ==> tree.depth(path_after(tree, path, target, Ok(())) as int) == tree.depth(
            target.node as int,
        ) - 1,
        target.common ==> path_after(tree, path, target, Ok(())) == path,
{
    lemma_depth_of_parent(tree, target.node as int);
}

/// Recording an error sets the bit of exactly one class in the event
/// status register and leaves every other register as it is; where the
/// queue has room, it grows by exactly that error.
pub proof fn lemma_error_isolated(status: StatusView, error: Error)
    requires
        error.code.code() != 0,
    ensures
        status.recorded(error).registers == status.with_esr(
            status.registers.esr | error.code.class_mask(),
        ).registers,
        error.code.class_mask() == ESR_COMMAND_ERROR || error.code.class_mask()
            == ESR_EXECUTION_ERROR || error.code.class_mask() == ESR_DEVICE_ERROR
            || error.code.class_mask() == ESR_QUERY_ERROR,
        status.errors.len() < status.capacity ==> status.recorded(error).errors
            == status.errors.push(error),
        status.recorded(error).capacity == status.capacity,
{
}

impl<H> Tree<H> {
    /// Follows a chain of mnemonics, joined by `:`, from `start`.
    fn walk(&self, start: usize, tok: &mut Tokenizer<'_>) -> (r: Result<usize, ErrorCode>)
        requires
            self@.wf(),
            start < self@.nodes.len(),
        ensures
            final(tok)@ == walk(self@, start as int, old(tok)@).1,
            match (r, walk(self@, start as int, old(tok)@).0) {
                (Ok(n), Ok(m)) => n == m,
                (Err(code), Err(c)) => code == c,
                _ => false,
            },
    {
        proof {
            tok.lemma_wf();
        }
        let mut node = start;
        loop
            invariant
                self@.wf(),
                tok@.wf(),
                node < self@.nodes.len(),
                walk(self@, start as int, old(tok)@) == walk(self@, node as int, tok@),
            decreases tok@.input.len() - tok@.pos,
        {
            let mut probe = *tok;
            match probe.next() {
                Some(Ok(Token::ProgramMnemonic(m))) => {
                    *tok = probe;
                    match self.descend(node, m) {
                        None => {
                            return Err(ErrorCode::UndefinedHeader);
                        },
                        Some(child) => {
                            let mut second = *tok;
                            match second.next() {
                                Some(Ok(Token::HeaderMnemonicSeparator)) => {
                                    *tok = second;
                                    node = child;
                                },
                                Some(Err(code)) => {
                                    *tok = second;
                                    return Err(code);
                                },
                                _ => {
                                    return Ok(child);
                                },
                            }
                        },
                    }
                },
                Some(Err(code)) => {
                    *tok = probe;
                    return Err(code);
                },
                _ => {
                    return Err(ErrorCode::CommandHeaderError);
                },
            }
        }
    }

    /// Finds the node that the mnemonics of a header lead to.
    fn locate(&self, path: usize, tok: &mut Tokenizer<'_>) -> (r: Result<(usize, bool), ErrorCode>)
        requires
            self@.wf(),
        ensures
            final(tok)@ == locate(self@, path as int, old(tok)@).1,
            match (r, locate(self@, path as int, old(tok)@).0) {
                (Ok((n, common)), Ok((m, c))) => n == m && common == c,
                (Err(code), Err(c)) => code == c,
                _ => false,
            },
    {
        let mut probe = *tok;
        match probe.next() {
            Some(Ok(Token::HeaderCommonPrefix)) => {
                *tok = probe;
                let mut second = *tok;
                match second.next() {
                    Some(Ok(Token::ProgramMnemonic(m))) => {
                        *tok = second;
                        match self.find(0, &Seek::Common(m)) {
                            Some(n) => Ok((n, true)),
                            None => Err(ErrorCode::UndefinedHeader),
                        }
                    },
                    Some(Err(code)) => {
                        *tok = second;
                        Err(code)
                    },
                    _ => Err(ErrorCode::CommandHeaderError),
                }
            },
            Some(Ok(Token::HeaderMnemonicSeparator)) => {
                *tok = probe;
                match self.walk(0, tok) {
                    Ok(n) => Ok((n, false)),
                    Err(code) => Err(code),
                }
            },
            Some(Ok(Token::ProgramMnemonic(_))) => {
                let start = if path < self.len() {
                    path
                } else {
                    0
                };
                match self.walk(start, tok) {
                    Ok(n) => Ok((n, false)),
                    Err(code) => Err(code),
                }
            },
            Some(Err(code)) => {
                *tok = probe;
                Err(code)
            },
            _ => Err(ErrorCode::SyntaxError),
        }
    }

    /// Reads the header of a message unit and resolves it: to the node
    /// whose handler runs, and to the command or the query form.
    pub fn resolve(&self, path: usize, tok: &mut Tokenizer<'_>) -> (r: Result<Target, ErrorCode>)
        requires
            self@.wf(),
        ensures
            (r, final(tok)@) == resolve(self@, path as int, old(tok)@),
            r matches Ok(target) ==> target.node < self@.nodes.len() && self@.nodes[target.node as int].has_handler,
    {
        proof {
            tok.lemma_wf();
            lemma_resolve(self@, path as int, tok@);
        }
        match self.locate(path, tok) {
            Err(code) => Err(code),
            Ok((n, common)) => {
                let mut probe = *tok;
                let next = probe.next();
                match next {
                    Some(Err(code)) => {
                        *tok = probe;
                        return Err(code);
                    },
                    _ => {},
                }
                let found = if common {
                    if n < self.len() && self.handler(n).is_some() {
                        Some(n)
                    } else {
                        None
                    }
                } else {
                    self.terminal(n)
                };
                match found {
                    None => Err(ErrorCode::CommandHeaderError),
                    Some(node) => match next {
                        Some(Ok(Token::HeaderQuerySuffix)) => {
                            *tok = probe;
                            Ok(Target { node, query: true, common })
                        },
                        _ => Ok(Target { node, query: false, common }),
                    },
                }
            },
        }
    }
}

/// Passes the white space between a header and its data.
pub fn skip_header_separator(tok: &mut Tokenizer<'_>)
    ensures
        final(tok)@ == behind_header(old(tok)@),
{
    let mut probe = *tok;
    match probe.next() {
        Some(Ok(Token::ProgramHeaderSeparator)) => {
            *tok = probe;
        },
        _ => {},
    }
}

/// Moves the lexer to the end of the message unit that it is in, whatever
/// stands in between. Returns whether the message ends there.
pub fn skip_unit(tok: &mut Tokenizer<'_>) -> (ended: bool)
    ensures
        (ended, final(tok)@) == unit_end(old(tok)@),
        old(tok)@.wf(),
        final(tok)@.wf(),
{
    proof {
        tok.lemma_wf();
    }
    loop
        invariant
            old(tok)@.wf(),
            tok@.wf(),
            unit_end(old(tok)@) == unit_end(tok@),
        decreases tok@.input.len() - tok@.pos,
    {
        match tok.next() {
            None => {
                return true;
            },
            Some(Ok(Token::ProgramMessageTerminator)) => {
                return true;
            },
            Some(Ok(Token::ProgramMessageUnitSeparator)) => {
                return false;
            },
            Some(_) => {},
        }
    }
}

/// Judges a unit whose handler has returned `outcome` and has left its
/// cursor as `args`: a handler that succeeded must have read all data.
pub fn settle(outcome: Result<(), Error>, args: &Tokenizer<'_>) -> (r: Result<(), Error>)
    ensures
        r == settled(outcome, args@),
{
    match outcome {
        Err(error) => Err(error),
        Ok(_) => {
            let mut probe = *args;
            match probe.next() {
                None => Ok(()),
                Some(Ok(Token::ProgramMessageTerminator)) => Ok(()),
                Some(Ok(Token::ProgramMessageUnitSeparator)) => Ok(()),
                _ => Err(Error::new(ErrorCode::InvalidSeparator)),
            }
        },
    }
}

/// Keeps the books at the end of a unit whose outcome is `outcome`.
///
/// After a success the header path becomes the parent of the node whose
/// handler ran, unless the unit was a common command, and what a query has
/// written stays in the response. After a failure the error is recorded in
/// the status, the header path stays, and what a query has written is taken
/// back.
pub fn complete_unit<H>(
    tree: &Tree<H>,
    target: Target,
    outcome: Result<(), Error>,
    status: &mut Status,
    context: &mut Context,
    response: &mut Response,
)
    ensures
        final(context).path == path_after(tree@, old(context).path, target, outcome),
        final(context).mav == old(context).mav,
        final(context).utf8_blocks == old(context).utf8_blocks,
        final(status)@ == status_after(old(status)@, outcome),
        final(response)@ == response_after(old(response)@, target, outcome),
{
    match outcome {
        Ok(_) => {
            if !target.common && target.node < tree.len() {
                context.path = tree.parent_of(target.node);
            }
            if target.query {
                let _ = response.finish();
            }
        },
        Err(error) => {
            status.handle_error(error);
            if target.query {
                response.rollback();
            }
        },
    }
}

/// Runs the handler that a header has resolved to.
fn call_handler<'a, D, H: Command<D>>(
    handler: &H,
    target: Target,
    device: &mut D,
    status: &mut Status,
    context: &mut Context,
    args: &mut Tokenizer<'a>,
    response: &mut Response,
) -> (r: Result<(), Error>)
    ensures
        !target.query ==> final(response)@ == old(response)@,
{
    if target.query {
        handler.query(device, status, context, args, response)
    } else {
        handler.event(device, status, context, args)
    }
}

/// Runs the message unit at which the lexer stands, and moves the lexer to
/// the end of the unit. Returns the outcome of the unit and whether the
/// message has ended.
///
/// The lexer ends up behind the unit whatever the unit does. A header that
/// does not resolve is recorded as an error, and so is a query for which
/// the response has no room for the `;` before it; in both cases no handler
/// runs and nothing else changes. Otherwise the handler runs; it is free in
/// what it does to the status, the context and the response, and the books
/// are kept on what it leaves behind.
pub fn run_unit<'a, D, H: Command<D>>(
    tree: &Tree<H>,
    tok: &mut Tokenizer<'a>,
    device: &mut D,
    status: &mut Status,
    context: &mut Context,
    response: &mut Response,
) -> (r: (Result<(), Error>, bool))
    requires
        tree@.wf(),
    ensures
        old(tok)@.wf(),
        final(tok)@.wf(),
        (r.1, final(tok)@) == unit_end(old(tok)@),
        refusal(tree@, old(context).path as int, old(tok)@, old(response)@) matches Some(error)
            ==> r.0 == Err::<(), Error>(error) && final(status)@ == old(status)@.recorded(error)
            && *final(context) == *old(context) && final(response)@ == old(response)@,
        unit_step(
            tree@,
            old(tok)@,
            scene(old(status)@, old(context).path, old(response)@),
            r.0,
            scene(final(status)@, final(context).path, final(response)@),
        ),
{
    proof {
        tok.lemma_wf();
        lemma_resolve(tree@, context.path as int, tok@);
    }
    match tree.resolve(context.path, tok) {
        Err(code) => {
            let error = Error::new(code);
            status.handle_error(error);
            let ended = skip_unit(tok);
            (Err(error), ended)
        },
        Ok(target) => {
            skip_header_separator(tok);
            let started = if target.query {
                response.begin_unit()
            } else {
                Ok(())
            };
            let outcome = match started {
                Err(error) => {
                    status.handle_error(error);
                    Err(error)
                },
                Ok(_) => {
                    let mut args = *tok;
                    let result = match tree.handler(target.node) {
                        Some(handler) => call_handler(
                            handler,
                            target,
                            device,
                            status,
                            context,
                            &mut args,
                            response,
                        ),
                        None => Err(Error::new(ErrorCode::CommandHeaderError)),
                    };
                    let outcome = settle(result, &args);
                    complete_unit(tree, target, outcome, status, context, response);
                    outcome
                },
            };
            let ended = skip_unit(tok);
            (outcome, ended)
        },
    }
}

/// What running a message has come to.
#[derive(Clone, Copy, Debug, PartialEq, Eq, Structural)]
pub struct Report {
    /// The number of units that were run.
    pub units: usize,
    /// The number of units that failed.
    pub failed: usize,
    /// The error of the first unit that failed, or that of closing the
    /// response.
    pub first_error: Option<Error>,
}

impl Report {
    /// The first error, if there is one.
    pub fn result(&self) -> (r: Result<(), Error>)
        ensures
            r == match self.first_error {
                Some(error) => Err::<(), Error>(error),
                None => Ok::<(), Error>(()),
            },
    {
        match self.first_error {
            Some(error) => Err(error),
            None => Ok(()),
        }
    }
}

impl<H> Tree<H> {
    /// Runs a program message: its units from left to right, each to its
    /// end, whatever the units before it did. The header path starts at the
    /// root.
    ///
    /// Every unit of the message is run, so that the number of units run is
    /// that of the units in the message, and each unit leads from the scene
    /// that the unit before it has left to the scene that it leaves itself,
    /// as `unit_step` says. Every error has been recorded in the status. The
    /// response of a message that ran without error is closed with a line
    /// feed unless it is empty; where there is no room for the line feed,
    /// that is the error of the message.
    pub fn run<D>(
        &self,
        input: &[u8],
        device: &mut D,
        status: &mut Status,
        context: &mut Context,
        response: &mut Response,
    ) -> (r: Report) where H: Command<D>
        requires
            self@.wf(),
        ensures
            r.units == unit_count(LexState::start(input@, old(context).utf8_blocks)),
            r.failed <= r.units,
            r.failed > 0 ==> r.first_error is Some,
            r.failed == 0 && r.first_error is Some ==> r.first_error == Some(
                Error { code: ErrorCode::OutOfMemory },
            ),
            r.first_error is None ==> final(response)@.closed(),
            exists|scenes: Seq<Scene>, outcomes: Seq<Result<(), Error>>|
                ran(
                    self@,
                    LexState::start(input@, old(context).utf8_blocks),
                    scene(old(status)@, 0, old(response)@),
                    scenes,
                    outcomes,
                    r,
                    scene(final(status)@, final(context).path, final(response)@),
                ),
    {
        context.path = 0;
        let mut tok = if context.utf8_blocks {
            Tokenizer::with_utf8_blocks(input)
        } else {
            Tokenizer::new(input)
        };
        let mut units: usize = 0;
        let mut failed: usize = 0;
        let mut first: Option<Error> = None;
        let mut ended = false;
        let length = input.len();
        let ghost start = tok@;
        let ghost mut scenes: Seq<Scene> = seq![scene(status@, 0, response@)];
        let ghost mut outcomes: Seq<Result<(), Error>> = Seq::empty();
        while !ended
            invariant
                self@.wf(),
                tok@.wf(),
                start.wf(),
                tok@.input == input@,
                length == input@.len(),
                failed <= units <= tok@.pos,
                unit_count(start) == units + if ended {
                    0
                } else {
                    unit_count(tok@)
                },
                !ended ==> tok@ == unit_start(start, units as nat),
                scenes.len() == units + 1,
                outcomes.len() == units,
                scenes[0] == scene(old(status)@, 0, old(response)@),
                scenes.last() == scene(status@, context.path, response@),
                forall|i: int|
                    0 <= i < units ==> unit_step(
                        self@,
                        unit_start(start, i as nat),
                        #[trigger] scenes[i],
                        outcomes[i],
                        scenes[i + 1],
                    ),
                failed == failures(outcomes),
                first == first_failure(outcomes),
                (failed > 0) == (first is Some),
            decreases tok@.input.len() - tok@.pos, if ended { 0int } else { 1int },
        {
            let mut probe = tok;
            match probe.next() {
                None => {
                    ended = true;
                },
                Some(Ok(Token::ProgramMessageTerminator)) => {
                    ended = true;
                },
                _ => {
                    proof {
                        lemma_unit_end(tok@);
                    }
                    let ghost before = tok@;
                    let ghost found = scenes;
                    let ghost known = outcomes;
                    let (outcome, end) = run_unit(self, &mut tok, device, status, context, response);
                    proof {
                        scenes = found.push(scene(status@, context.path, response@));
                        outcomes = known.push(outcome);
                        assert(outcomes.drop_last() =~= known);
                        assert(tok@ == unit_start(start, (units + 1) as nat));
                        assert forall|i: int| 0 <= i < units + 1 implies unit_step(
                            self@,
                            unit_start(start, i as nat),
                            #[trigger] scenes[i],
                            outcomes[i],
                            scenes[i + 1],
                        ) by {
                            if i < units {
                                assert(scenes[i] == found[i]);
                                assert(scenes[i + 1] == found[i + 1]);
                                assert(outcomes[i] == known[i]);
                            } else {
                                assert(scenes[i] == found.last());
                                assert(unit_start(start, i as nat) == before);
                            }
                        }
                    }
                    units += 1;
                    match outcome {
                        Err(error) => {
                            failed += 1;
                            if first.is_none() {
                                first = Some(error);
                            }
                        },
                        Ok(_) => {},
                    }
                    ended = end;
                },
            }
        }
        if first.is_none() {
            match response.end_message() {
                Ok(_) => {},
                Err(error) => {
                    status.handle_error(error);
                    first = Some(error);
                },
            }
        }
        let report = Report { units, failed, first_error: first };
        proof {
            assert(ran(
                self@,
                start,
                scene(old(status)@, 0, old(response)@),
                scenes,
                outcomes,
                report,
                scene(status@, context.path, response@),
            ));
        }
        report
    }
}

} // verus!
