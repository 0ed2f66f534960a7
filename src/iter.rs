use vstd::prelude::*;
use std::marker::PhantomData;
use crate::input::{Input, Outcome};

verus! {

/// Why a repeated application stopped: the parser rejected the input (with
/// the remainder it reported), or it needed more tokens.
pub enum EndState<'a, I, E> {
    Error(Input<'a, I>, E),
    Incomplete(usize),
}

/// Applies a parser again and again, each time on the cursor just past the
/// last success, yielding the values it parses.
#[verifier::reject_recursive_types(I)]
#[verifier::reject_recursive_types(T)]
#[verifier::reject_recursive_types(E)]
pub struct Iter<'a, I, T, E, F>
    where F: Fn(Input<'a, I>) -> Outcome<'a, I, T, E>,
{
    state: EndState<'a, I, E>,
    parser: F,
    buf: Input<'a, I>,
    finished: bool,
    _t: PhantomData<T>,
}

impl<'a, I, T, E, F> Iter<'a, I, T, E, F>
    where F: Fn(Input<'a, I>) -> Outcome<'a, I, T, E>,
{
    /// The position just after the last successful parse.
    pub closed spec fn cursor(&self) -> Input<'a, I> {
        self.buf
    }

    /// The recorded end state; `Incomplete(0)` until the sequence ends.
    pub closed spec fn end(&self) -> EndState<'a, I, E> {
        self.state
    }

    /// Whether the sequence has ended.
    pub closed spec fn finished(&self) -> bool {
        self.finished
    }

    pub closed spec fn parser(&self) -> F {
        self.parser
    }

    pub open spec fn wf(&self) -> bool {
        forall|i: Input<'a, I>| #[trigger] self.parser().requires((i,))
    }

    /// Starts the sequence at `buffer`; the parser is not called yet.
    pub fn new(buffer: Input<'a, I>, parser: F) -> (r: Iter<'a, I, T, E, F>)
        requires
            forall|i: Input<'a, I>| #[trigger] parser.requires((i,)),
        ensures
            r.wf(),
            r.cursor() == buffer,
            r.parser() == parser,
            !r.finished(),
            r.end() == EndState::<'a, I, E>::Incomplete(0),
    {
        Iter { state: EndState::Incomplete(0), parser, buf: buffer, finished: false, _t: PhantomData }
    }

    /// Pulls the next value. On `Data` the cursor moves to the remainder; on
    /// `Error` or `Incomplete` the end state is recorded and the sequence
    /// ends, after which every pull yields nothing and changes nothing.
    pub fn next(&mut self) -> (r: Option<T>)
        requires
            old(self).wf(),
        ensures
            final(self).wf(),
            final(self).parser() == old(self).parser(),
            old(self).finished() ==> r is None && *final(self) == *old(self),
            !old(self).finished() ==> exists|o: Outcome<'a, I, T, E>| {
                &&& #[trigger] old(self).parser().ensures((old(self).cursor(),), o)
                &&& match o {
                    Outcome::Data(rest, v) => {
                        &&& r == Some(v)
                        &&& final(self).cursor() == rest
                        &&& !final(self).finished()
                        &&& final(self).end() == old(self).end()
                    },
                    Outcome::Error(rest, e) => {
                        &&& r is None
                        &&& final(self).cursor() == old(self).cursor()
                        &&& final(self).finished()
                        &&& final(self).end() == EndState::Error(rest, e)
                    },
                    Outcome::Incomplete(n) => {
                        &&& r is None
                        &&& final(self).cursor() == old(self).cursor()
                        &&& final(self).finished()
                        &&& final(self).end() == EndState::<'a, I, E>::Incomplete(n)
                    },
                }
            },
    {
        if self.finished {
            return None;
        }
        let arg = self.buf.duplicate();
        assert(self.parser().requires((arg,)));
        let out = (self.parser)(arg);
        let ghost go = out;
        assert(old(self).parser().ensures((old(self).cursor(),), go));
        match out {
            Outcome::Data(b, v) => {
                self.buf = b;
                assert(go == Outcome::<'a, I, T, E>::Data(b, v));
                Some(v)
            },
            Outcome::Error(b, e) => {
                self.state = EndState::Error(b, e);
                self.finished = true;
                None
            },
            Outcome::Incomplete(n) => {
                self.state = EndState::Incomplete(n);
                self.finished = true;
                None
            },
        }
    }

    /// Takes the driver apart: the position just after the last successful
    /// parse, and the end state.
    pub fn end_state(self) -> (r: (Input<'a, I>, EndState<'a, I, E>))
        ensures
            r == (self.cursor(), self.end()),
    {
        (self.buf, self.state)
    }
}

} // verus!
