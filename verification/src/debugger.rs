//! Running a program cycle by cycle, or up to the next breakpoint, with the
//! machine state open to the caller in between.
use crate::grid::{Grid, GridView};
use crate::host::{last_reply, replies, Event, Host};
use crate::instruction::Block;
use crate::interpreter::{
    advance, cycle, lemma_origin, lemma_replies_after_cycle, lemma_reply_unused, origin,
};
use crate::machine::{Fault, GridState, Machine, Stop};
use vstd::prelude::*;

verus! {

/// How a run to the next breakpoint ended: on a breakpoint, or with what
/// stopped the session; in which state, after which exchanges with the host.
pub struct Chase {
    pub result: Result<(), Stop>,
    pub state: Machine,
    pub events: Seq<Event>,
}

impl Chase {
    /// This run with `events` before its own.
    pub open spec fn after(self, events: Seq<Event>) -> Chase {
        Chase { events: events + self.events, ..self }
    }
}

/// Whether the cursor of `m` stands on one of `pauses`.
pub open spec fn paused(m: Machine, pauses: Seq<(usize, usize)>) -> bool {
    exists|i: int| 0 <= i < pauses.len() && (#[trigger] pauses[i]).0 == m.x && pauses[i].1 == m.y
}

/// The run of program `g` from state `m` to the next of the breakpoints
/// `pauses`, for at most `steps` cycles, the host answering with `answers`.
///
/// Cycles are made until one leaves the cursor on a breakpoint, which is `Ok`,
/// or stops the session: with halt code 1 after a walk off the grid, or with a
/// fault. The first cycle is made wherever the cursor stands, and an `End`
/// cell is walked over like an empty one. Without steps left the run ends
/// with `Fault::StepLimit`.
pub open spec fn chase(
    g: GridView<Block>,
    m: Machine,
    answers: Seq<Seq<char>>,
    pauses: Seq<(usize, usize)>,
    steps: nat,
) -> Chase
    decreases steps,
{
    if steps == 0 {
        Chase { result: Err(Stop::Fatal(Fault::StepLimit)), state: m, events: Seq::empty() }
    } else {
        let cell = g.at(m.x as int, m.y as int);
        let asked = cell == Some(Block::Input) && answers.len() > 0;
        let reply = if asked {
            answers[0]
        } else {
            Seq::empty()
        };
        let rest = if asked {
            answers.drop_first()
        } else {
            answers
        };
        let c = cycle(cell, m, g.width, g.height, reply);
        match c.stop {
            Some(s) => Chase { result: Err(s), state: c.state, events: c.events },
            None => if paused(c.state, pauses) {
                Chase { result: Ok(()), state: c.state, events: c.events }
            } else {
                chase(g, c.state, rest, pauses, (steps - 1) as nat).after(c.events)
            },
        }
    }
}

/// A chase of at least one cycle is that cycle and, unless it stopped the
/// session or came to a breakpoint, the chase from where it ended. Here the
/// host's answers begin with those given in the cycle.
pub proof fn lemma_chase_unfolds(
    g: GridView<Block>,
    m: Machine,
    reply: Seq<char>,
    later: Seq<Seq<char>>,
    pauses: Seq<(usize, usize)>,
    steps: nat,
)
    requires
        steps > 0,
    ensures
        ({
            let c = cycle(g.at(m.x as int, m.y as int), m, g.width, g.height, reply);
            chase(g, m, replies(c.events) + later, pauses, steps) == match c.stop {
                Some(s) => Chase { result: Err(s), state: c.state, events: c.events },
                None => if paused(c.state, pauses) {
                    Chase { result: Ok(()), state: c.state, events: c.events }
                } else {
                    chase(g, c.state, later, pauses, (steps - 1) as nat).after(c.events)
                },
            }
        }),
{
    let cell = g.at(m.x as int, m.y as int);
    let c = cycle(cell, m, g.width, g.height, reply);
    lemma_replies_after_cycle(Seq::empty(), cell, m, reply, g.width, g.height);
    let answers = replies(c.events) + later;
    if cell == Some(Block::Input) {
        assert(answers.drop_first() =~= later);
    } else if cell is Some {
        lemma_reply_unused(cell->Some_0, m, reply, Seq::empty());
    }
}

/// Whether the chase from `first` with `total` steps, under answers that
/// begin with the replies in `done`, is `done` followed by the chase from
/// `here` with `left` steps under the answers `later`.
spec fn resumes(
    g: GridView<Block>,
    pauses: Seq<(usize, usize)>,
    first: Machine,
    total: nat,
    done: Seq<Event>,
    here: Machine,
    left: nat,
    later: Seq<Seq<char>>,
) -> bool {
    chase(g, first, replies(done) + later, pauses, total) == chase(
        g,
        here,
        later,
        pauses,
        left,
    ).after(done)
}

/// Whether a chase from `first` with `total` steps that has made the
/// exchanges `done` goes on as the chase from `here` with `left` steps,
/// whatever the host answers from now on.
spec fn continues(
    g: GridView<Block>,
    pauses: Seq<(usize, usize)>,
    first: Machine,
    total: nat,
    done: Seq<Event>,
    here: Machine,
    left: nat,
) -> bool {
    forall|later: Seq<Seq<char>>| #[trigger]
        resumes(g, pauses, first, total, done, here, left, later)
}

/// A chase that has done nothing yet goes on as itself.
proof fn lemma_continues_at_first(
    g: GridView<Block>,
    pauses: Seq<(usize, usize)>,
    first: Machine,
    total: nat,
)
    ensures
        continues(g, pauses, first, total, Seq::empty(), first, total),
{
}

/// A chase without steps left is over.
proof fn lemma_continues_to_end(
    g: GridView<Block>,
    pauses: Seq<(usize, usize)>,
    first: Machine,
    total: nat,
    done: Seq<Event>,
    here: Machine,
)
    requires
        continues(g, pauses, first, total, done, here, 0),
    ensures
        chase(g, first, replies(done), pauses, total) == (Chase {
            result: Err(Stop::Fatal(Fault::StepLimit)),
            state: here,
            events: done,
        }),
{
    let none = Seq::<Seq<char>>::empty();
    assert(resumes(g, pauses, first, total, done, here, 0, none));
}

/// A chase that goes on through one more cycle either is over with that
/// cycle or goes on from where the cycle ended.
proof fn lemma_continues_through_cycle(
    g: GridView<Block>,
    pauses: Seq<(usize, usize)>,
    first: Machine,
    total: nat,
    done: Seq<Event>,
    here: Machine,
    left: nat,
    reply: Seq<char>,
)
    requires
        continues(g, pauses, first, total, done, here, left),
        left > 0,
    ensures
        ({
            let c = cycle(g.at(here.x as int, here.y as int), here, g.width, g.height, reply);
            match c.stop {
                Some(s) => chase(g, first, replies(done + c.events), pauses, total) == (Chase {
                    result: Err(s),
                    state: c.state,
                    events: done + c.events,
                }),
                None => if paused(c.state, pauses) {
                    chase(g, first, replies(done + c.events), pauses, total) == (Chase {
                        result: Ok(()),
                        state: c.state,
                        events: done + c.events,
                    })
                } else {
                    continues(
                        g,
                        pauses,
                        first,
                        total,
                        done + c.events,
                        c.state,
                        (left - 1) as nat,
                    )
                },
            }
        }),
{
    let cell = g.at(here.x as int, here.y as int);
    let c = cycle(cell, here, g.width, g.height, reply);
    let none = Seq::<Seq<char>>::empty();
    lemma_replies_after_cycle(done, cell, here, reply, g.width, g.height);
    if c.stop is None && !paused(c.state, pauses) {
        let made = done + c.events;
        let next = (left - 1) as nat;
        assert forall|later: Seq<Seq<char>>| #[trigger]
            resumes(g, pauses, first, total, made, c.state, next, later) by {
            lemma_chase_unfolds(g, here, reply, later, pauses, left);
            assert(resumes(g, pauses, first, total, done, here, left, replies(c.events) + later));
            assert(replies(done + c.events) + later =~= replies(done) + (replies(c.events)
                + later));
            let tail = chase(g, c.state, later, pauses, (left - 1) as nat);
            assert(tail.after(c.events).after(done).events =~= tail.after(
                done + c.events,
            ).events);
        }
    } else {
        lemma_chase_unfolds(g, here, reply, none, pauses, left);
        assert(resumes(g, pauses, first, total, done, here, left, replies(c.events) + none));
    }
}

/// Whether `coords` is one of `points`.
pub fn is_break_point(points: &Vec<(usize, usize)>, coords: (usize, usize)) -> (b: bool)
    ensures
        b == exists|i: int|
            0 <= i < points@.len() && (#[trigger] points@[i]).0 == coords.0 && points@[i].1
                == coords.1,
{
    let mut i: usize = 0;
    while i < points.len()
        invariant
            i <= points.len(),
            forall|j: int|
                0 <= j < i ==> !((#[trigger] points@[j]).0 == coords.0 && points@[j].1
                    == coords.1),
        decreases points.len() - i,
    {
        if points[i].0 == coords.0 && points[i].1 == coords.1 {
            return true;
        }
        i = i + 1;
    }
    false
}

/// A program under a debugger: the grid, the host, the machine state between
/// cycles, and the positions at which a run pauses.
pub struct GridDebugger<G: Grid<Block>, I: FnMut(&str) -> String, O: FnMut(String)> {
    pub grid: G,
    pub host: Host<I, O>,
    pub state: GridState,
    pub break_points: Vec<(usize, usize)>,
}

/// Stepwise control over a running program.
pub trait Debugger<G, I, O>: Sized where
    G: Grid<Block>,
    I: FnMut(&str) -> String,
    O: FnMut(String),
 {
    /// The program is a grid and the host can be called.
    spec fn wf(&self) -> bool;

    /// The program that is run.
    spec fn program(&self) -> GridView<Block>;

    /// The machine state as it stands.
    spec fn machine(&self) -> Machine;

    /// The exchanges with the host so far.
    spec fn trace(&self) -> Seq<Event>;

    /// The positions at which a run pauses.
    spec fn pauses(&self) -> Seq<(usize, usize)>;

    /// A session on `grid`, paused in the state in which the program begins.
    /// A grid without a `Start` cell gives `Fault::NoStart`.
    fn new(grid: G, input: I, output: O, break_points: Vec<(usize, usize)>) -> (r: Result<
        Self,
        Fault,
    >)
        requires
            grid.view().wf(),
            forall|p: &str| call_requires(input, (p,)),
            forall|t: String| call_requires(output, (t,)),
        ensures
            match r {
                Ok(d) => {
                    &&& d.wf()
                    &&& d.program() == grid.view()
                    &&& origin(grid.view()) == Some(d.machine())
                    &&& d.trace() == Seq::<Event>::empty()
                    &&& d.pauses() == break_points@
                },
                Err(f) => f == Fault::NoStart && origin(grid.view()) is None,
            },
    ;

    /// Makes one cycle: the instruction on the current cell, if any, is
    /// carried out and the cursor walks one cell. `End` is carried out like
    /// any instruction, which changes nothing, and the walk follows. The
    /// error is the halt code 1 when the walk left the grid, or the fault.
    fn step(&mut self) -> (r: Result<(), Stop>)
        requires
            old(self).wf(),
        ensures
            final(self).wf(),
            final(self).program() == old(self).program(),
            final(self).pauses() == old(self).pauses(),
            ({
                let g = old(self).program();
                let m = old(self).machine();
                let c = cycle(
                    g.at(m.x as int, m.y as int),
                    m,
                    g.width,
                    g.height,
                    last_reply(final(self).trace()),
                );
                &&& final(self).trace() == old(self).trace() + c.events
                &&& final(self).machine() == c.state
                &&& r == match c.stop {
                    Some(s) => Err::<(), Stop>(s),
                    None => Ok::<(), Stop>(()),
                }
            }),
    ;

    /// Makes cycles until one leaves the cursor on a breakpoint or stops the
    /// session, for at most `max_steps` cycles. `Ok` means paused on a
    /// breakpoint, before the instruction there is carried out.
    ///
    /// Result, state and exchanges are those of `chase` under the replies
    /// that the host gave.
    fn run(&mut self, max_steps: u64) -> (r: Result<(), Stop>)
        requires
            old(self).wf(),
        ensures
            final(self).wf(),
            final(self).program() == old(self).program(),
            final(self).pauses() == old(self).pauses(),
            old(self).trace().len() <= final(self).trace().len(),
            ({
                let added = final(self).trace().skip(old(self).trace().len() as int);
                let chase = chase(
                    old(self).program(),
                    old(self).machine(),
                    replies(added),
                    old(self).pauses(),
                    max_steps as nat,
                );
                &&& final(self).trace() == old(self).trace() + chase.events
                &&& final(self).machine() == chase.state
                &&& r == chase.result
            }),
    ;
}

impl<G, I, O> Debugger<G, I, O> for GridDebugger<G, I, O> where
    G: Grid<Block>,
    I: FnMut(&str) -> String,
    O: FnMut(String),
 {
    open spec fn wf(&self) -> bool {
        self.grid.view().wf() && self.host.wf()
    }

    open spec fn program(&self) -> GridView<Block> {
        self.grid.view()
    }

    open spec fn machine(&self) -> Machine {
        self.state@
    }

    open spec fn trace(&self) -> Seq<Event> {
        self.host.trace()
    }

    open spec fn pauses(&self) -> Seq<(usize, usize)> {
        self.break_points@
    }

    fn new(grid: G, input: I, output: O, break_points: Vec<(usize, usize)>) -> (r: Result<
        Self,
        Fault,
    >) {
        let found = grid.find_start();
        proof {
            lemma_origin(grid.view(), found);
        }
        if let Some(coords) = found {
            if let Some(Block::Start(dir)) = grid.get_pos(coords) {
                let state = GridState::new(coords, dir);
                let host = Host::new(input, output);
                return Ok(GridDebugger { grid, host, state, break_points });
            }
        }
        Err(Fault::NoStart)
    }

    fn step(&mut self) -> (r: Result<(), Stop>) {
        advance(&self.grid, &mut self.state, &mut self.host)
    }

    fn run(&mut self, max_steps: u64) -> (r: Result<(), Stop>) {
        let ghost g = self.grid.view();
        let ghost pauses = self.break_points@;
        let ghost first = self.state@;
        let ghost before = self.host.trace();
        let ghost mut done: Seq<Event> = Seq::empty();
        let mut left: u64 = max_steps;
        let mut outcome: Result<(), Stop> = Ok(());
        proof {
            lemma_continues_at_first(g, pauses, first, max_steps as nat);
        }
        loop
            invariant_except_break
                continues(g, pauses, first, max_steps as nat, done, self.state@, left as nat),
            invariant
                g == self.grid.view(),
                pauses == self.break_points@,
                g.wf(),
                self.host.wf(),
                self.host.trace() == before + done,
                self.host.asker() == old(self).host.asker(),
                self.host.teller() == old(self).host.teller(),
            ensures
                self.host.wf(),
                g == self.grid.view(),
                pauses == self.break_points@,
                self.host.trace() == before + done,
                chase(g, first, replies(done), pauses, max_steps as nat) == (Chase {
                    result: outcome,
                    state: self.state@,
                    events: done,
                }),
            decreases left,
        {
            let ghost here = self.state@;
            if left == 0 {
                proof {
                    lemma_continues_to_end(g, pauses, first, max_steps as nat, done, here);
                }
                outcome = Err(Stop::Fatal(Fault::StepLimit));
                break ;
            }
            let moved = advance(&self.grid, &mut self.state, &mut self.host);
            proof {
                let reply = last_reply(self.host.trace());
                let c = cycle(g.at(here.x as int, here.y as int), here, g.width, g.height, reply);
                lemma_continues_through_cycle(
                    g,
                    pauses,
                    first,
                    max_steps as nat,
                    done,
                    here,
                    left as nat,
                    reply,
                );
                done = done + c.events;
            }
            match moved {
                Ok(()) => {
                    if is_break_point(&self.break_points, self.state.coords) {
                        outcome = Ok(());
                        break ;
                    }
                    left = left - 1;
                },
                Err(stop) => {
                    outcome = Err(stop);
                    break ;
                },
            }
        }
        proof {
            assert((before + done).skip(before.len() as int) =~= done);
        }
        outcome
    }
}

} // verus!
