use vstd::prelude::*;

verus! {

/// A read-only view over a window of tokens, together with a marker saying
/// whether the producer of those tokens is known to have no more data.
pub struct Input<'a, I> {
    window: &'a [I],
    end_of_input: bool,
}

impl<'a, I> Input<'a, I> {
    /// The tokens visible through this cursor.
    pub closed spec fn tokens(&self) -> Seq<I> {
        self.window@
    }

    /// Whether the producer is known to be exhausted.
    pub closed spec fn at_end(&self) -> bool {
        self.end_of_input
    }

    pub fn new(window: &'a [I], end_of_input: bool) -> (r: Input<'a, I>)
        ensures
            r.tokens() == window@,
            r.at_end() == end_of_input,
    {
        Input { window, end_of_input }
    }

    pub fn len(&self) -> (r: usize)
        ensures
            r == self.tokens().len(),
    {
        self.window.len()
    }

    pub fn is_end_of_input(&self) -> (r: bool)
        ensures
            r == self.at_end(),
    {
        self.end_of_input
    }

    /// Borrows the tokens of the window.
    pub fn window(&self) -> (r: &'a [I])
        ensures
            r@ == self.tokens(),
    {
        self.window
    }

    /// A copy of this cursor; the underlying tokens are shared, not copied.
    pub fn duplicate(&self) -> (r: Input<'a, I>)
        ensures
            r == *self,
    {
        Input { window: self.window, end_of_input: self.end_of_input }
    }

    /// The cursor positioned `n` tokens further on.
    pub fn advance(&self, n: usize) -> (r: Input<'a, I>)
        requires
            n <= self.tokens().len(),
        ensures
            r.tokens() == self.tokens().skip(n as int),
            r.at_end() == self.at_end(),
    {
        let rest = &self.window[n..self.window.len()];
        assert(rest@ =~= self.tokens().skip(n as int));
        Input { window: rest, end_of_input: self.end_of_input }
    }
}

/// `rest` is a suffix of `input`: what a parsing function hands back as the
/// remainder after consuming a prefix of its input.
pub open spec fn is_remainder_of<I>(rest: Seq<I>, input: Seq<I>) -> bool {
    &&& rest.len() <= input.len()
    &&& rest == input.skip(input.len() - rest.len())
}

/// The result of applying a parsing function to a cursor.
pub enum Outcome<'a, I, T, E> {
    /// Success: the cursor just past the consumed tokens, and the value.
    Data(Input<'a, I>, T),
    /// Rejection: where parsing gave up, and why.
    Error(Input<'a, I>, E),
    /// At least this many more tokens are needed to decide.
    Incomplete(usize),
}

impl<'a, I, T, E> Outcome<'a, I, T, E> {
    /// The remainder carried by the outcome (if any) is a suffix of `input`.
    pub open spec fn consumes_prefix_of(&self, input: Seq<I>) -> bool {
        match self {
            Outcome::Data(rest, _) => is_remainder_of(rest.tokens(), input),
            Outcome::Error(rest, _) => is_remainder_of(rest.tokens(), input),
            Outcome::Incomplete(_) => true,
        }
    }
}

/// Takes one token; needs one more token when the window is empty.
pub fn any<'a, E>(i: Input<'a, u8>) -> (r: Outcome<'a, u8, u8, E>)
    ensures
        i.tokens().len() == 0 ==> r is Incomplete && r->Incomplete_0 == 1,
        i.tokens().len() > 0 ==> r is Data && r->Data_1 == i.tokens()[0]
            && r->Data_0.tokens() == i.tokens().skip(1) && r->Data_0.at_end() == i.at_end(),
        r.consumes_prefix_of(i.tokens()),
{
    if i.len() == 0 {
        Outcome::Incomplete(1)
    } else {
        let t = i.window()[0];
        Outcome::Data(i.advance(1), t)
    }
}

/// Takes `n` tokens as an owned vector; needs the shortfall when fewer are
/// available.
pub fn take<'a, E>(i: Input<'a, u8>, n: usize) -> (r: Outcome<'a, u8, Vec<u8>, E>)
    ensures
        i.tokens().len() < n ==> r is Incomplete && r->Incomplete_0 == n - i.tokens().len(),
        i.tokens().len() >= n ==> r is Data && r->Data_1@ == i.tokens().take(n as int)
            && r->Data_0.tokens() == i.tokens().skip(n as int) && r->Data_0.at_end() == i.at_end(),
        r.consumes_prefix_of(i.tokens()),
{
    let len = i.len();
    if len < n {
        Outcome::Incomplete(n - len)
    } else {
        let w = i.window();
        let mut v: Vec<u8> = Vec::new();
        let mut k: usize = 0;
        while k < n
            invariant
                k <= n <= w@.len(),
                w@ == i.tokens(),
                v@ == w@.take(k as int),
            decreases n - k,
        {
            v.push(w[k]);
            k = k + 1;
            assert(v@ =~= w@.take(k as int));
        }
        let rest = i.advance(n);
        assert(rest.tokens() =~= i.tokens().skip(i.tokens().len() - rest.tokens().len()));
        Outcome::Data(rest, v)
    }
}

} // verus!
