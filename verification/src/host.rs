//! The two callbacks through which a running program reaches its host, with a
//! record of every exchange.
use vstd::prelude::*;

verus! {

/// One exchange between a program and its host.
pub enum Event {
    /// The program handed this text to the output callback.
    Output(Seq<char>),
    /// The program handed `prompt` to the input callback and got `reply`.
    Input { prompt: Seq<char>, reply: Seq<char> },
}

/// The reply of the last exchange of `trace`, if that was a question; the
/// empty text otherwise.
pub open spec fn last_reply(trace: Seq<Event>) -> Seq<char> {
    if trace.len() > 0 {
        match trace.last() {
            Event::Input { prompt, reply } => reply,
            Event::Output(_) => Seq::empty(),
        }
    } else {
        Seq::empty()
    }
}

/// The replies that the input callback gave in `trace`, in order.
pub open spec fn replies(trace: Seq<Event>) -> Seq<Seq<char>>
    decreases trace.len(),
{
    if trace.len() == 0 {
        Seq::empty()
    } else {
        match trace.last() {
            Event::Input { prompt, reply } => replies(trace.drop_last()).push(reply),
            Event::Output(_) => replies(trace.drop_last()),
        }
    }
}

/// Whether `event` is an exchange that the two callbacks can have made: a
/// reply that `input` can give to the prompt, or a text that `output` takes.
pub open spec fn exchanged<I: FnMut(&str) -> String, O: FnMut(String)>(
    event: Event,
    input: I,
    output: O,
) -> bool {
    match event {
        Event::Input { prompt, reply } => exists|p: &str, r: String|
            p@ == prompt && r@ == reply && #[trigger] call_ensures(input, (p,), r),
        Event::Output(text) => exists|t: String|
            t@ == text && #[trigger] call_ensures(output, (t,), ()),
    }
}

/// A host: an input callback from a prompt to a reply, an output callback that
/// takes a text, and the trace of what has passed through them.
pub struct Host<I: FnMut(&str) -> String, O: FnMut(String)> {
    input: I,
    output: O,
    log: Ghost<Seq<Event>>,
}

impl<I: FnMut(&str) -> String, O: FnMut(String)> Host<I, O> {
    /// The input callback.
    pub closed spec fn asker(&self) -> I {
        self.input
    }

    /// The output callback.
    pub closed spec fn teller(&self) -> O {
        self.output
    }

    /// Both callbacks accept every text, and the trace holds only what they
    /// can have exchanged.
    pub open spec fn wf(&self) -> bool {
        &&& forall|p: &str| call_requires(self.asker(), (p,))
        &&& forall|t: String| call_requires(self.teller(), (t,))
        &&& forall|i: int|
            0 <= i < self.trace().len() ==> exchanged(
                #[trigger] self.trace()[i],
                self.asker(),
                self.teller(),
            )
    }

    /// Every exchange so far, oldest first.
    pub closed spec fn trace(&self) -> Seq<Event> {
        self.log@
    }

    /// A host over the two callbacks, with an empty trace.
    pub fn new(input: I, output: O) -> (h: Self)
        requires
            forall|p: &str| call_requires(input, (p,)),
            forall|t: String| call_requires(output, (t,)),
        ensures
            h.wf(),
            h.asker() == input,
            h.teller() == output,
            h.trace() == Seq::<Event>::empty(),
    {
        Host { input, output, log: Ghost(Seq::empty()) }
    }

    /// Hands `text` to the output callback, and records that.
    pub fn emit(&mut self, text: String)
        requires
            old(self).wf(),
        ensures
            final(self).wf(),
            final(self).asker() == old(self).asker(),
            final(self).teller() == old(self).teller(),
            call_ensures(old(self).teller(), (text,), ()),
            final(self).trace() == old(self).trace().push(Event::Output(text@)),
    {
        let ghost given = text;
        let ghost before = self.log@;
        assert(self.teller() == self.output && self.asker() == self.input);
        (self.output)(text);
        self.log = Ghost(self.log@.push(Event::Output(given@)));
        proof {
            assert forall|i: int| 0 <= i < self.trace().len() implies exchanged(
                #[trigger] self.trace()[i],
                self.asker(),
                self.teller(),
            ) by {
                if i < before.len() {
                    assert(self.trace()[i] == old(self).trace()[i]);
                }
            }
        }
    }

    /// Hands `prompt` to the input callback and returns its reply, and
    /// records both.
    pub fn ask(&mut self, prompt: &str) -> (reply: String)
        requires
            old(self).wf(),
        ensures
            final(self).wf(),
            final(self).asker() == old(self).asker(),
            final(self).teller() == old(self).teller(),
            call_ensures(old(self).asker(), (prompt,), reply),
            final(self).trace() == old(self).trace().push(
                Event::Input { prompt: prompt@, reply: reply@ },
            ),
    {
        let ghost before = self.log@;
        assert(self.teller() == self.output && self.asker() == self.input);
        let reply = (self.input)(prompt);
        self.log = Ghost(self.log@.push(Event::Input { prompt: prompt@, reply: reply@ }));
        proof {
            assert forall|i: int| 0 <= i < self.trace().len() implies exchanged(
                #[trigger] self.trace()[i],
                self.asker(),
                self.teller(),
            ) by {
                if i < before.len() {
                    assert(self.trace()[i] == old(self).trace()[i]);
                }
            }
        }
        reply
    }
}

} // verus!
