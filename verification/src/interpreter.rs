//! Running a program: one cycle of the machine, and cycles repeated until the
//! program halts.
use crate::grid::{lemma_first_is_unique, Grid, GridView};
use crate::host::{exchanged, last_reply, replies, Event, Host};
use crate::instruction::{Block, Direction, IsStart};
use crate::machine::{
    lemma_effect_keeps_position, Executable, Fault, GridState, Machine, Stop,
};
use vstd::prelude::*;

verus! {

/// What one cycle leaves behind: the state, the exchanges with the host, and
/// why the session is over if it is.
pub struct Cycle {
    pub state: Machine,
    pub events: Seq<Event>,
    pub stop: Option<Stop>,
}

/// State `m` after a walk on a grid of the given dimensions, as the end of a
/// cycle that made `events`. A walk off the grid halts with code 1.
pub open spec fn walked(m: Machine, events: Seq<Event>, width: nat, height: nat) -> Cycle {
    match m.stride(width, height) {
        Some(n) => Cycle { state: n, events, stop: None },
        None => Cycle { state: m, events, stop: Some(Stop::Halt(1)) },
    }
}

/// One cycle from state `m` on a cell that holds `cell`: the instruction, if
/// there is one, is carried out, then the cursor walks one cell. A fault ends
/// the cycle before the walk. `reply` is what the host answers if asked.
pub open spec fn cycle(
    cell: Option<Block>,
    m: Machine,
    width: nat,
    height: nat,
    reply: Seq<char>,
) -> Cycle {
    match cell {
        None => walked(m, Seq::empty(), width, height),
        Some(b) => match b.effect(m, reply) {
            Ok(n) => walked(n, b.exchanges(m, reply), width, height),
            Err(f) => Cycle {
                state: m,
                events: b.exchanges(m, reply),
                stop: Some(Stop::Fatal(f)),
            },
        },
    }
}

/// How a run ended: with a halt code or a fault, in which state, after which
/// exchanges with the host.
pub struct Run {
    pub result: Result<u8, Fault>,
    pub state: Machine,
    pub events: Seq<Event>,
}

impl Run {
    /// This run with `events` before its own.
    pub open spec fn after(self, events: Seq<Event>) -> Run {
        Run { events: events + self.events, ..self }
    }
}

/// The run of program `g` from state `m` for at most `steps` cycles, where
/// the host answers the program's questions with `answers`, in order (and
/// with the empty text once they are used up).
///
/// On an `End` cell the run halts with code 0, before anything is carried
/// out. A walk off the grid halts it with code 1. A fault ends it, and so
/// does the lack of steps, with `Fault::StepLimit`.
pub open spec fn run(g: GridView<Block>, m: Machine, answers: Seq<Seq<char>>, steps: nat) -> Run
    decreases steps,
{
    let cell = g.at(m.x as int, m.y as int);
    if cell == Some(Block::End) {
        Run { result: Ok(0), state: m, events: Seq::empty() }
    } else if steps == 0 {
        Run { result: Err(Fault::StepLimit), state: m, events: Seq::empty() }
    } else {
        let asked = cell == Some(Block::Input) && answers.len() > 0;
        let reply = if asked {
            answers[0]
        } else {
            Seq::empty()
        };
        let rest = if asked {
            answers.drop_first()
        } else {
            answers
        };
        let c = cycle(cell, m, g.width, g.height, reply);
        match c.stop {
            Some(Stop::Halt(code)) => Run { result: Ok(code), state: c.state, events: c.events },
            Some(Stop::Fatal(f)) => Run { result: Err(f), state: c.state, events: c.events },
            None => run(g, c.state, rest, (steps - 1) as nat).after(c.events),
        }
    }
}

/// Whether `r` is what a search for the first `Start` cell of `g` gives.
pub open spec fn begins_at(g: GridView<Block>, r: Option<(usize, usize)>) -> bool {
    g.is_first(r, |c: Block| c.start())
}

/// The state in which a session on `g` begins: on the first `Start` cell in
/// row-major order, facing the way that cell says. `None` without such a cell.
pub open spec fn origin(g: GridView<Block>) -> Option<Machine> {
    let first = choose|r: Option<(usize, usize)>| #[trigger] begins_at(g, r);
    match first {
        Some((x, y)) => match g.at(x as int, y as int) {
            Some(Block::Start(d)) => Some(Machine::fresh(x as nat, y as nat, d)),
            _ => None,
        },
        None => None,
    }
}

/// A whole session on `g` of at most `steps` cycles, the host answering with
/// `answers`: the run from the origin, or `Fault::NoStart` where there is
/// none.
pub open spec fn session(g: GridView<Block>, answers: Seq<Seq<char>>, steps: nat) -> Run {
    match origin(g) {
        Some(m) => run(g, m, answers, steps),
        None => Run {
            result: Err(Fault::NoStart),
            state: Machine::fresh(0, 0, Direction::Down),
            events: Seq::empty(),
        },
    }
}

/// The origin of a grid is where a search for its first `Start` cell ends.
pub proof fn lemma_origin(g: GridView<Block>, found: Option<(usize, usize)>)
    requires
        g.wf(),
        begins_at(g, found),
    ensures
        origin(g) == match found {
            Some((x, y)) => Some(
                Machine::fresh(x as nat, y as nat, g.at(x as int, y as int)->Some_0->Start_0),
            ),
            None => None,
        },
        found matches Some((x, y)) ==> g.at(x as int, y as int) matches Some(Block::Start(_)),
{
    let first = choose|r: Option<(usize, usize)>| #[trigger] begins_at(g, r);
    lemma_first_is_unique(g, |c: Block| c.start(), first, found);
}

/// An instruction that asks nothing of the host does the same whatever the
/// host would have answered.
pub proof fn lemma_reply_unused(b: Block, m: Machine, r1: Seq<char>, r2: Seq<char>)
    requires
        !(b is Input),
    ensures
        b.effect(m, r1) == b.effect(m, r2),
        b.exchanges(m, r1) == b.exchanges(m, r2),
        replies(b.exchanges(m, r1)) == Seq::<Seq<char>>::empty(),
{
    reveal_with_fuel(replies, 2);
}

/// The replies in a trace that ends with the exchanges of one cycle are those
/// before the cycle, then the cycle's.
pub proof fn lemma_replies_after_cycle(
    done: Seq<Event>,
    cell: Option<Block>,
    m: Machine,
    reply: Seq<char>,
    w: nat,
    h: nat,
)
    ensures
        ({
            let c = cycle(cell, m, w, h, reply);
            &&& replies(done + c.events) == replies(done) + replies(c.events)
            &&& replies(c.events) == if cell == Some(Block::Input) {
                seq![reply]
            } else {
                Seq::<Seq<char>>::empty()
            }
            &&& cell == Some(Block::Input) ==> last_reply(done + c.events) == reply
        }),
{
    reveal_with_fuel(replies, 2);
    let made = cycle(cell, m, w, h, reply).events;
    if made.len() > 0 {
        assert((done + made).drop_last() =~= done);
    }
}

/// A run of at least one cycle from a cell that is not `End` is that cycle
/// and, unless it stopped the session, the run from where it ended. Here the
/// host's answers begin with those given in the cycle.
pub proof fn lemma_run_unfolds(
    g: GridView<Block>,
    m: Machine,
    reply: Seq<char>,
    later: Seq<Seq<char>>,
    steps: nat,
)
    requires
        steps > 0,
        g.at(m.x as int, m.y as int) != Some(Block::End),
    ensures
        ({
            let c = cycle(g.at(m.x as int, m.y as int), m, g.width, g.height, reply);
            run(g, m, replies(c.events) + later, steps) == match c.stop {
                Some(Stop::Halt(code)) => Run {
                    result: Ok(code),
                    state: c.state,
                    events: c.events,
                },
                Some(Stop::Fatal(f)) => Run { result: Err(f), state: c.state, events: c.events },
                None => run(g, c.state, later, (steps - 1) as nat).after(c.events),
            }
        }),
{
    let cell = g.at(m.x as int, m.y as int);
    let c = cycle(cell, m, g.width, g.height, reply);
    lemma_replies_after_cycle(Seq::empty(), cell, m, reply, g.width, g.height);
    let answers = replies(c.events) + later;
    if cell == Some(Block::Input) {
        assert(answers.drop_first() =~= later);
    } else if cell is Some {
        lemma_reply_unused(cell->Some_0, m, reply, Seq::empty());
    }
}

/// A program whose `Start` cell faces off the grid halts with code 1 in its
/// first cycle, without a word to the host.
pub proof fn lemma_start_faces_the_edge(
    g: GridView<Block>,
    answers: Seq<Seq<char>>,
    steps: nat,
)
    requires
        g.wf(),
        steps >= 1,
        origin(g) matches Some(m) && m.stride(g.width, g.height) is None,
    ensures
        session(g, answers, steps) == (Run {
            result: Ok(1),
            state: origin(g)->Some_0,
            events: Seq::empty(),
        }),
{
}

/// Boundary termination. Take a program whose `Start` cell faces a cell that
/// lies on the edge of the grid, so that one step further in the same
/// direction leaves the grid. If that cell is empty, or holds an instruction
/// other than `End` that is carried out without a fault and does not turn
/// the cursor, the session halts with code 1 in the cycle of that cell.
pub proof fn lemma_boundary_termination(
    g: GridView<Block>,
    answers: Seq<Seq<char>>,
    steps: nat,
)
    requires
        g.wf(),
        steps >= 2,
        origin(g) matches Some(m) && m.stride(g.width, g.height) matches Some(e) && ({
            let cell = g.at(e.x as int, e.y as int);
            let reply = if cell == Some(Block::Input) && answers.len() > 0 {
                answers[0]
            } else {
                Seq::empty()
            };
            &&& e.stride(g.width, g.height) is None
            &&& cell != Some(Block::End)
            &&& cell matches Some(b) ==> b.effect(e, reply) matches Ok(n) && n.dir == e.dir
        }),
    ensures
        session(g, answers, steps).result == Ok::<u8, Fault>(1),
{
    let m = origin(g)->Some_0;
    let e = m.stride(g.width, g.height)->Some_0;
    let cell = g.at(e.x as int, e.y as int);
    let reply = if cell == Some(Block::Input) && answers.len() > 0 {
        answers[0]
    } else {
        Seq::empty()
    };
    if cell is Some {
        lemma_effect_keeps_position(cell->Some_0, e, reply);
    }
    reveal_with_fuel(run, 3);
}

/// Carries out one cycle on `grid`: the instruction on the current cell, if
/// any, then a walk of one cell. `Ok` when the machine stands on a next cell;
/// otherwise the halt code 1 for a walk off the grid, or the fault.
pub fn advance<G: Grid<Block>, I: FnMut(&str) -> String, O: FnMut(String)>(
    grid: &G,
    state: &mut GridState,
    host: &mut Host<I, O>,
) -> (r: Result<(), Stop>)
    requires
        grid.view().wf(),
        old(host).wf(),
    ensures
        final(host).wf(),
        final(host).asker() == old(host).asker(),
        final(host).teller() == old(host).teller(),
        ({
            let c = cycle(
                grid.view().at(old(state)@.x as int, old(state)@.y as int),
                old(state)@,
                grid.view().width,
                grid.view().height,
                last_reply(final(host).trace()),
            );
            &&& final(host).trace() == old(host).trace() + c.events
            &&& final(state)@ == c.state
            &&& r == match c.stop {
                Some(s) => Err::<(), Stop>(s),
                None => Ok::<(), Stop>(()),
            }
        }),
{
    if let Some(block) = grid.get_pos(state.coords) {
        if let Err(fault) = block.execute(state, host) {
            return Err(Stop::Fatal(fault));
        }
    }
    match state.walk(grid.get_width(), grid.get_height()) {
        Ok(()) => Ok(()),
        Err(code) => Err(Stop::Halt(code)),
    }
}

/// Whether the run from `first` with `total` steps, under answers that begin
/// with the replies in `done`, is `done` followed by the run from `here` with
/// `left` steps under the answers `later`.
spec fn resumes(
    g: GridView<Block>,
    first: Machine,
    total: nat,
    done: Seq<Event>,
    here: Machine,
    left: nat,
    later: Seq<Seq<char>>,
) -> bool {
    run(g, first, replies(done) + later, total) == run(g, here, later, left).after(done)
}

/// Whether a run from `first` with `total` steps that has made the exchanges
/// `done` goes on as the run from `here` with `left` steps, whatever the host
/// answers from now on.
spec fn continues(
    g: GridView<Block>,
    first: Machine,
    total: nat,
    done: Seq<Event>,
    here: Machine,
    left: nat,
) -> bool {
    forall|later: Seq<Seq<char>>| #[trigger] resumes(g, first, total, done, here, left, later)
}

/// A run that has done nothing yet goes on as itself.
proof fn lemma_continues_at_first(g: GridView<Block>, first: Machine, total: nat)
    ensures
        continues(g, first, total, Seq::empty(), first, total),
{
}

/// A run that has come to an `End` cell, or has no steps left, is over.
proof fn lemma_continues_to_end(
    g: GridView<Block>,
    first: Machine,
    total: nat,
    done: Seq<Event>,
    here: Machine,
    left: nat,
)
    requires
        continues(g, first, total, done, here, left),
        g.at(here.x as int, here.y as int) == Some(Block::End) || left == 0,
    ensures
        run(g, first, replies(done), total) == (Run {
            result: if g.at(here.x as int, here.y as int) == Some(Block::End) {
                Ok(0)
            } else {
                Err(Fault::StepLimit)
            },
            state: here,
            events: done,
        }),
{
    let none = Seq::<Seq<char>>::empty();
    assert(resumes(g, first, total, done, here, left, none));
}

/// A run that goes on through one more cycle either is over with that cycle
/// or goes on from where the cycle ended.
proof fn lemma_continues_through_cycle(
    g: GridView<Block>,
    first: Machine,
    total: nat,
    done: Seq<Event>,
    here: Machine,
    left: nat,
    reply: Seq<char>,
)
    requires
        continues(g, first, total, done, here, left),
        g.at(here.x as int, here.y as int) != Some(Block::End),
        left > 0,
    ensures
        ({
            let c = cycle(g.at(here.x as int, here.y as int), here, g.width, g.height, reply);
            match c.stop {
                None => continues(g, first, total, done + c.events, c.state, (left - 1) as nat),
                Some(Stop::Halt(code)) => run(g, first, replies(done + c.events), total) == (Run {
                    result: Ok(code),
                    state: c.state,
                    events: done + c.events,
                }),
                Some(Stop::Fatal(f)) => run(g, first, replies(done + c.events), total) == (Run {
                    result: Err(f),
                    state: c.state,
                    events: done + c.events,
                }),
            }
        }),
{
    let cell = g.at(here.x as int, here.y as int);
    let c = cycle(cell, here, g.width, g.height, reply);
    let none = Seq::<Seq<char>>::empty();
    lemma_replies_after_cycle(done, cell, here, reply, g.width, g.height);
    if c.stop is None {
        assert forall|later: Seq<Seq<char>>| #[trigger]
            resumes(g, first, total, done + c.events, c.state, (left - 1) as nat, later) by {
            lemma_run_unfolds(g, here, reply, later, left);
            assert(resumes(g, first, total, done, here, left, replies(c.events) + later));
            assert(replies(done + c.events) + later =~= replies(done) + (replies(c.events)
                + later));
            let tail = run(g, c.state, later, (left - 1) as nat);
            assert(tail.after(c.events).after(done).events =~= tail.after(
                done + c.events,
            ).events);
        }
    } else {
        lemma_run_unfolds(g, here, reply, none, left);
        assert(resumes(g, first, total, done, here, left, replies(c.events) + none));
    }
}

/// Runs the program on `grid` from `state` until it halts, for at most
/// `max_steps` cycles. The halt code is 0 when an `End` cell was reached and 1
/// when the cursor walked off the grid.
///
/// The result, the final state and the exchanges appended to the host's trace
/// are those of `run` under the replies that the host gave.
pub fn run_from<G: Grid<Block>, I: FnMut(&str) -> String, O: FnMut(String)>(
    grid: &G,
    state: &mut GridState,
    host: &mut Host<I, O>,
    max_steps: u64,
) -> (r: Result<u8, Fault>)
    requires
        grid.view().wf(),
        old(host).wf(),
    ensures
        final(host).wf(),
        final(host).asker() == old(host).asker(),
        final(host).teller() == old(host).teller(),
        old(host).trace().len() <= final(host).trace().len(),
        ({
            let added = final(host).trace().skip(old(host).trace().len() as int);
            let run = run(grid.view(), old(state)@, replies(added), max_steps as nat);
            &&& final(host).trace() == old(host).trace() + run.events
            &&& final(state)@ == run.state
            &&& r == run.result
        }),
{
    let ghost g = grid.view();
    let ghost first = state@;
    let ghost before = host.trace();
    let ghost mut done: Seq<Event> = Seq::empty();
    let mut left: u64 = max_steps;
    let mut outcome: Result<u8, Fault> = Err(Fault::StepLimit);
    proof {
        lemma_continues_at_first(g, first, max_steps as nat);
    }
    loop
        invariant_except_break
            continues(g, first, max_steps as nat, done, state@, left as nat),
        invariant
            g == grid.view(),
            g.wf(),
            host.wf(),
            host.asker() == old(host).asker(),
            host.teller() == old(host).teller(),
            host.trace() == before + done,
        ensures
            run(g, first, replies(done), max_steps as nat) == (Run {
                result: outcome,
                state: state@,
                events: done,
            }),
        decreases left,
    {
        let ghost here = state@;
        let cell = grid.get_pos(state.coords);
        let at_end = match cell {
            Some(Block::End) => true,
            _ => false,
        };
        if at_end || left == 0 {
            proof {
                lemma_continues_to_end(g, first, max_steps as nat, done, here, left as nat);
            }
            outcome = if at_end {
                Ok(0)
            } else {
                Err(Fault::StepLimit)
            };
            break ;
        }
        let moved = advance(grid, state, host);
        proof {
            let reply = last_reply(host.trace());
            let c = cycle(cell, here, g.width, g.height, reply);
            lemma_continues_through_cycle(
                g,
                first,
                max_steps as nat,
                done,
                here,
                left as nat,
                reply,
            );
            done = done + c.events;
        }
        match moved {
            Ok(()) => {
                left = left - 1;
            },
            Err(Stop::Halt(code)) => {
                outcome = Ok(code);
                break ;
            },
            Err(Stop::Fatal(fault)) => {
                outcome = Err(fault);
                break ;
            },
        }
    }
    proof {
        assert((before + done).skip(before.len() as int) =~= done);
    }
    outcome
}

/// A program that can be run against a host.
pub trait Interpretable {
    /// The grid that is run.
    spec fn program(&self) -> GridView<Block>;

    /// Runs a session of at most `max_steps` cycles and returns how it ended,
    /// with the trace of its exchanges with the host: `Ok` with the halt code,
    /// 0 after `End` and 1 after a walk off the grid, or the fault.
    ///
    /// `input` is called with the prompt of each `Input` instruction and
    /// `output` with each text that the program emits. Result and trace are
    /// those of `session` under the replies that `input` gave, and the trace
    /// holds only exchanges that the two callbacks can have made.
    fn interpret<I: FnMut(&str) -> String, O: FnMut(String)>(
        &self,
        input: I,
        output: O,
        max_steps: u64,
    ) -> (r: (Result<u8, Fault>, Ghost<Seq<Event>>))
        requires
            self.program().wf(),
            forall|p: &str| call_requires(input, (p,)),
            forall|t: String| call_requires(output, (t,)),
        ensures
            r.0 == session(self.program(), replies(r.1@), max_steps as nat).result,
            r.1@ == session(self.program(), replies(r.1@), max_steps as nat).events,
            forall|i: int| 0 <= i < r.1@.len() ==> exchanged(#[trigger] r.1@[i], input, output),
    ;
}

impl<G: Grid<Block>> Interpretable for G {
    open spec fn program(&self) -> GridView<Block> {
        self.view()
    }

    fn interpret<I: FnMut(&str) -> String, O: FnMut(String)>(
        &self,
        input: I,
        output: O,
        max_steps: u64,
    ) -> (r: (Result<u8, Fault>, Ghost<Seq<Event>>)) {
        let mut host = Host::new(input, output);
        let found = self.find_start();
        proof {
            lemma_origin(self.view(), found);
        }
        if let Some(coords) = found {
            if let Some(Block::Start(dir)) = self.get_pos(coords) {
                let mut state = GridState::new(coords, dir);
                let result = run_from(self, &mut state, &mut host, max_steps);
                proof {
                    assert(host.trace().skip(0) =~= host.trace());
                }
                return (result, Ghost(host.trace()));
            }
        }
        proof {
            reveal_with_fuel(replies, 1);
        }
        (Err(Fault::NoStart), Ghost(Seq::empty()))
    }
}

/// Runs `code` against the two callbacks, for at most `max_steps` cycles, as
/// `Interpretable::interpret` does.
pub fn interpret<I: FnMut(&str) -> String, O: FnMut(String), G: Grid<Block>>(
    code: G,
    input: I,
    output: O,
    max_steps: u64,
) -> (r: (Result<u8, Fault>, Ghost<Seq<Event>>))
    requires
        code.view().wf(),
        forall|p: &str| call_requires(input, (p,)),
        forall|t: String| call_requires(output, (t,)),
    ensures
        r.0 == session(code.view(), replies(r.1@), max_steps as nat).result,
        r.1@ == session(code.view(), replies(r.1@), max_steps as nat).events,
        forall|i: int| 0 <= i < r.1@.len() ==> exchanged(#[trigger] r.1@[i], input, output),
{
    code.interpret(input, output, max_steps)
}

} // verus!
