use vstd::prelude::*;
use crate::input::{Input, Outcome};
use crate::provider::{ByteProvider, IoFailure, min_nat};

verus! {

/// Capacity of the token buffer of a source made by `ReadSource::new`.
pub const DEFAULT_BUFFER_SIZE: usize = 6144;

/// Why `ReadSource::parse` produced no value.
#[derive(Debug, PartialEq, Eq)]
pub enum ParseError<E> {
    /// The provider failed while filling the buffer.
    IoError(IoFailure),
    /// The buffer is empty and the provider is exhausted.
    EndOfInput,
    /// The parsing function rejected the input; the number of tokens left in
    /// the buffer (the remainder it reported) and its error.
    ParseError(usize, E),
    /// The provider is exhausted and the buffer would need this many tokens.
    Incomplete(usize),
    /// More data may still arrive: fill and parse again.
    Retry,
}

/// The abstract state of a source.
pub ghost struct SourceView {
    /// Tokens currently buffered.
    pub contents: Seq<u8>,
    pub capacity: nat,
    /// Tokens needed to satisfy the last `Incomplete` signal.
    pub request: nat,
    /// The previous attempt ended `Incomplete` and no fill happened since.
    pub needs_fill: bool,
    /// The provider is known to be exhausted relative to the last fill.
    pub end_of_input: bool,
    /// `parse` fills by itself when `needs_fill` is set.
    pub autofill: bool,
    /// Every token ever appended to the buffer, in order.
    pub appended: Seq<u8>,
    /// How many tokens have been consumed from the front of the buffer.
    pub consumed: nat,
    /// The bytes the provider will still hand out.
    pub pending: Seq<u8>,
    /// Whether the provider never fails.
    pub reliable: bool,
}

/// The number of tokens a fill aims for: the request, and at least one.
pub open spec fn fill_target(request: nat) -> nat {
    if request == 0 { 1 } else { request }
}

/// How many tokens a fill obtains: none when the buffer already holds the
/// target, else as many pending bytes as fit in the free space.
pub open spec fn fill_count(pre: SourceView) -> nat {
    if pre.contents.len() >= fill_target(pre.request) {
        0
    } else {
        min_nat((pre.capacity - pre.contents.len()) as nat, pre.pending.len())
    }
}

/// The state after a successful fill: the obtained bytes move from the
/// provider to the end of the buffer, `needs_fill` is cleared, and
/// `end_of_input` says whether fewer tokens than the target came in.
pub open spec fn after_fill(pre: SourceView) -> SourceView {
    let n = fill_count(pre);
    SourceView {
        contents: pre.contents + pre.pending.take(n as int),
        pending: pre.pending.skip(n as int),
        appended: pre.appended + pre.pending.take(n as int),
        needs_fill: false,
        end_of_input: n < fill_target(pre.request),
        ..pre
    }
}

/// `after_fill` for a fill aimed at `request` tokens, which is not recorded.
pub open spec fn after_fill_towards(pre: SourceView, request: nat) -> SourceView {
    SourceView { request: pre.request, ..after_fill(SourceView { request, ..pre }) }
}

/// `post` is `pre` after a fill whose provider failed: this needs an
/// unreliable provider and a buffer short of the target. Bytes obtained
/// before the failure stay appended; the flags are untouched.
pub open spec fn fill_failed(pre: SourceView, post: SourceView) -> bool {
    let k = post.contents.len() - pre.contents.len();
    &&& !pre.reliable
    &&& pre.contents.len() < fill_target(pre.request)
    &&& pre.contents.len() <= post.contents.len()
    &&& k <= pre.pending.len()
    &&& post == SourceView {
        contents: pre.contents + pre.pending.take(k),
        pending: pre.pending.skip(k),
        appended: pre.appended + pre.pending.take(k),
        ..pre
    }
}

/// `fill_failed` for a fill aimed at `request` tokens.
pub open spec fn fill_failed_towards(pre: SourceView, post: SourceView, request: nat) -> bool {
    fill_failed(SourceView { request, ..pre }, SourceView { request, ..post }) && post.request == pre.request
}

/// `pre` with its first `n` tokens consumed.
pub open spec fn consume_view(pre: SourceView, n: nat) -> SourceView {
    SourceView { contents: pre.contents.skip(n as int), consumed: pre.consumed + n, ..pre }
}

/// The request recorded after an `Incomplete(n)` on a buffer of `len`
/// tokens: `len + n`, saturated at the largest `usize`.
pub open spec fn request_after(len: nat, n: nat) -> nat {
    if len + n > usize::MAX { usize::MAX as nat } else { len + n }
}

/// The state after a parsing function handed back `o` on a cursor over the
/// contents of `pre`.
pub open spec fn after_outcome<'a, T, E>(pre: SourceView, o: Outcome<'a, u8, T, E>) -> SourceView {
    match o {
        Outcome::Data(rest, _) => consume_view(pre, (pre.contents.len() - rest.tokens().len()) as nat),
        Outcome::Error(rest, _) => consume_view(pre, (pre.contents.len() - rest.tokens().len()) as nat),
        Outcome::Incomplete(n) => SourceView {
            request: request_after(pre.contents.len(), n as nat),
            needs_fill: if pre.end_of_input { pre.needs_fill } else { true },
            ..pre
        },
    }
}

/// What `parse` returns when the parsing function handed back `o`.
pub open spec fn outcome_result<'a, T, E>(pre: SourceView, o: Outcome<'a, u8, T, E>) -> Result<T, ParseError<E>> {
    match o {
        Outcome::Data(_, v) => Ok(v),
        Outcome::Error(rest, e) => Err(ParseError::ParseError(rest.tokens().len() as usize, e)),
        Outcome::Incomplete(n) => if pre.end_of_input {
            Err(ParseError::Incomplete(request_after(pre.contents.len(), n as nat) as usize))
        } else {
            Err(ParseError::Retry)
        },
    }
}

/// Nothing is buffered and the provider is exhausted, with no fill pending.
pub open spec fn is_exhausted(v: SourceView) -> bool {
    v.end_of_input && v.contents.len() == 0 && !(v.needs_fill && v.autofill)
}

/// A parsing function that may be called on any cursor and only ever
/// consumes a prefix of it.
pub open spec fn well_behaved<T, E, F>(f: F) -> bool
    where F: for<'b> FnOnce(Input<'b, u8>) -> Outcome<'b, u8, T, E>,
{
    &&& forall|i: Input<u8>| #[trigger] f.requires((i,))
    &&& forall|i: Input<u8>, o: Outcome<u8, T, E>| #[trigger] f.ensures((i,), o) ==> o.consumes_prefix_of(i.tokens())
}

/// `post` and `r` come from one attempt on `pre`: `EndOfInput` when the
/// buffer is empty and the provider exhausted, else whatever `f` decides on
/// a cursor over the buffer.
pub open spec fn attempted<T, E, F>(pre: SourceView, f: F, post: SourceView, r: Result<T, ParseError<E>>) -> bool
    where F: for<'b> FnOnce(Input<'b, u8>) -> Outcome<'b, u8, T, E>,
{
    if pre.end_of_input && pre.contents.len() == 0 {
        post == pre && r == Err::<T, ParseError<E>>(ParseError::EndOfInput)
    } else {
        exists|i: Input<u8>, o: Outcome<u8, T, E>|
            #[trigger] f.ensures((i,), o) && i.tokens() == pre.contents && i.at_end() == pre.end_of_input
            && post == after_outcome(pre, o) && r == outcome_result(pre, o)
    }
}

/// An incremental source: a token buffer filled on demand from a provider.
pub struct ReadSource<R: ByteProvider> {
    source: R,
    buffer: Vec<u8>,
    cap: usize,
    request: usize,
    needs_fill: bool,
    end_of_input: bool,
    autofill: bool,
    appended: Ghost<Seq<u8>>,
    consumed: Ghost<nat>,
}

impl<R: ByteProvider> View for ReadSource<R> {
    type V = SourceView;

    closed spec fn view(&self) -> SourceView {
        SourceView {
            contents: self.buffer@,
            capacity: self.cap as nat,
            request: self.request as nat,
            needs_fill: self.needs_fill,
            end_of_input: self.end_of_input,
            autofill: self.autofill,
            appended: self.appended@,
            consumed: self.consumed@,
            pending: self.source.pending(),
            reliable: self.source.reliable(),
        }
    }
}

/// The buffer holds exactly the appended tokens that were not consumed, and
/// never more than its capacity.
pub open spec fn view_wf(v: SourceView) -> bool {
    &&& 0 < v.capacity
    &&& v.contents.len() <= v.capacity
    &&& v.consumed + v.contents.len() == v.appended.len()
    &&& v.contents == v.appended.skip(v.consumed as int)
}

/// Moving the first `k` pending bytes to the end of the buffer of a
/// well-formed state keeps it well formed.
proof fn lemma_append_keeps_wf(start: SourceView, k: nat)
    requires
        view_wf(start),
        k <= start.pending.len(),
        start.contents.len() + k <= start.capacity,
    ensures
        view_wf(SourceView {
            contents: start.contents + start.pending.take(k as int),
            pending: start.pending.skip(k as int),
            appended: start.appended + start.pending.take(k as int),
            ..start
        }),
{
    let w = start.pending.take(k as int);
    assert((start.appended + w).skip(start.consumed as int) =~= start.contents + w);
}

impl<R: ByteProvider> ReadSource<R> {
    pub open spec fn wf(&self) -> bool {
        view_wf(self@)
    }

    /// A source with a buffer of `DEFAULT_BUFFER_SIZE` tokens.
    pub fn new(source: R) -> (r: ReadSource<R>)
        ensures
            r.wf(),
            r@ == (SourceView {
                contents: Seq::empty(), capacity: DEFAULT_BUFFER_SIZE as nat, request: 0,
                needs_fill: true, end_of_input: false, autofill: true,
                appended: Seq::empty(), consumed: 0,
                pending: source.pending(), reliable: source.reliable(),
            }),
    {
        Self::with_size(source, DEFAULT_BUFFER_SIZE)
    }

    /// A source with a buffer of `bufsize` tokens; the first `parse` fills it.
    pub fn with_size(source: R, bufsize: usize) -> (r: ReadSource<R>)
        requires
            bufsize > 0,
        ensures
            r.wf(),
            r@ == (SourceView {
                contents: Seq::empty(), capacity: bufsize as nat, request: 0,
                needs_fill: true, end_of_input: false, autofill: true,
                appended: Seq::empty(), consumed: 0,
                pending: source.pending(), reliable: source.reliable(),
            }),
    {
        let r = ReadSource {
            source,
            buffer: Vec::new(),
            cap: bufsize,
            request: 0,
            needs_fill: true,
            end_of_input: false,
            autofill: true,
            appended: Ghost(Seq::empty()),
            consumed: Ghost(0),
        };
        assert(r.buffer@ =~= r.appended@.skip(0));
        r
    }

    /// Drops the first `n` tokens of the buffer.
    fn consume_front(&mut self, n: usize)
        requires
            old(self).wf(),
            n <= old(self)@.contents.len(),
        ensures
            final(self).wf(),
            final(self)@ == consume_view(old(self)@, n as nat),
    {
        let len = self.buffer.len();
        let mut rest: Vec<u8> = Vec::new();
        let mut k: usize = n;
        while k < len
            invariant
                n <= k <= len,
                len == self.buffer@.len(),
                rest@ == self.buffer@.subrange(n as int, k as int),
            decreases len - k,
        {
            rest.push(self.buffer[k]);
            k = k + 1;
            assert(rest@ =~= self.buffer@.subrange(n as int, k as int));
        }
        let ghost old_view = self@;
        self.buffer = rest;
        self.consumed = Ghost(self.consumed@ + n as nat);
        assert(self.buffer@ =~= old_view.contents.skip(n as int));
        assert(self.buffer@ =~= self.appended@.skip(self.consumed@ as int));
    }

    /// Fills the buffer until it holds at least `fill_target(request)` tokens
    /// or the provider has nothing more.
    fn fill_requested(&mut self, request: usize) -> (r: Result<usize, IoFailure>)
        requires
            old(self).wf(),
        ensures
            final(self).wf(),
            old(self)@.contents.len() >= fill_target(request as nat) ==> r == Ok::<usize, IoFailure>(0),
            old(self)@.reliable ==> r is Ok,
            match r {
                Ok(n) => n == fill_count(SourceView { request: request as nat, ..old(self)@ })
                    && final(self)@ == after_fill_towards(old(self)@, request as nat),
                Err(_) => fill_failed_towards(old(self)@, final(self)@, request as nat),
            },
    {
        let target: usize = if request == 0 { 1 } else { request };
        let ghost start = self@;
        let ghost p0 = start.pending;
        let start_len = self.buffer.len();
        let ghost room: nat = (self.cap - start_len) as nat;
        let mut read: usize = 0;
        assert(start.contents + p0.take(0) =~= start.contents);
        assert(start.appended + p0.take(0) =~= start.appended);
        assert(p0.skip(0) =~= p0);
        if start_len < target {
            while self.buffer.len() < target
                invariant
                    start == old(self)@,
                    view_wf(start),
                    p0 == start.pending,
                    start_len == start.contents.len(),
                    room == start.capacity - start_len,
                    start_len < target,
                    target as nat == fill_target(request as nat),
                    read == 0 || read == min_nat(room, p0.len()),
                    read <= room && read <= p0.len(),
                    self.buffer@ == start.contents + p0.take(read as int),
                    self@ == (SourceView {
                        contents: start.contents + p0.take(read as int),
                        pending: p0.skip(read as int),
                        appended: start.appended + p0.take(read as int),
                        ..start
                    }),
                ensures
                    read == min_nat(room, p0.len()),
                    self.buffer@ == start.contents + p0.take(read as int),
                    self@ == (SourceView {
                        contents: start.contents + p0.take(read as int),
                        pending: p0.skip(read as int),
                        appended: start.appended + p0.take(read as int),
                        ..start
                    }),
                decreases self.cap - self.buffer@.len(),
            {
                let max = self.cap - self.buffer.len();
                let ghost before = self.buffer@;
                let ghost src_before = self.source.pending();
                match self.source.provide(&mut self.buffer, max) {
                    Ok(n) => {
                        if n == 0 {
                            assert(self.buffer@ =~= before);
                            assert(self.source.pending() =~= src_before);
                            break;
                        }
                        assert(p0.take(read as int) + p0.skip(read as int).take(n as int)
                            =~= p0.take(read + n));
                        assert(p0.skip(read as int).skip(n as int) =~= p0.skip(read + n));
                        assert(start.contents + p0.take(read as int) + p0.skip(read as int).take(n as int)
                            =~= start.contents + p0.take(read + n));
                        assert(start.appended + p0.take(read as int) + p0.skip(read as int).take(n as int)
                            =~= start.appended + p0.take(read + n));
                        read = read + n;
                        self.appended = Ghost(start.appended + p0.take(read as int));
                    },
                    Err(e) => {
                        proof { lemma_append_keeps_wf(start, read as nat); }
                        return Err(e);
                    },
                }
            }
        }
        self.needs_fill = false;
        self.end_of_input = read < target;
        proof { lemma_append_keeps_wf(start, read as nat); }
        Ok(read)
    }

    /// Fills the buffer to satisfy the last `Incomplete` signal (at least one
    /// token is asked for); returns how many tokens this call obtained.
    pub fn fill(&mut self) -> (r: Result<usize, IoFailure>)
        requires
            old(self).wf(),
        ensures
            final(self).wf(),
            old(self)@.contents.len() >= fill_target(old(self)@.request) ==> r == Ok::<usize, IoFailure>(0),
            old(self)@.reliable ==> r is Ok,
            match r {
                Ok(n) => n == fill_count(old(self)@) && final(self)@ == after_fill(old(self)@),
                Err(_) => fill_failed(old(self)@, final(self)@),
            },
    {
        let req = self.request;
        let r = self.fill_requested(req);
        assert(old(self)@ == (SourceView { request: req as nat, ..old(self)@ }));
        assert(self@ == (SourceView { request: req as nat, ..self@ }));
        r
    }

    /// One attempt without filling: `EndOfInput` when the buffer is empty and
    /// the provider exhausted, otherwise `f` runs on a cursor over the buffer
    /// and its outcome is applied.
    pub fn attempt<T, E, F>(&mut self, f: F) -> (r: Result<T, ParseError<E>>)
        where F: for<'b> FnOnce(Input<'b, u8>) -> Outcome<'b, u8, T, E>,
        requires
            old(self).wf(),
            well_behaved::<T, E, F>(f),
        ensures
            final(self).wf(),
            attempted(old(self)@, f, final(self)@, r),
    {
        if self.end_of_input && self.buffer.len() == 0 {
            return Err(ParseError::EndOfInput);
        }
        let old_len = self.buffer.len();
        let eoi = self.end_of_input;
        let inp = Input::new(self.buffer.as_slice(), eoi);
        let ghost gi = inp;
        let out = f(inp);
        let ghost go = out;
        assert(go.consumes_prefix_of(gi.tokens()));
        match out {
            Outcome::Data(rest, v) => {
                let k = rest.len();
                self.consume_front(old_len - k);
                Ok(v)
            },
            Outcome::Error(rest, e) => {
                let k = rest.len();
                self.consume_front(old_len - k);
                Err(ParseError::ParseError(k, e))
            },
            Outcome::Incomplete(n) => {
                self.request = old_len.saturating_add(n);
                if eoi {
                    Err(ParseError::Incomplete(self.request))
                } else {
                    self.needs_fill = true;
                    Err(ParseError::Retry)
                }
            },
        }
    }

    /// Runs `f` on the buffered tokens: fills first when the last attempt was
    /// starved and automatic filling is on, then makes one `attempt`.
    pub fn parse<T, E, F>(&mut self, f: F) -> (r: Result<T, ParseError<E>>)
        where F: for<'b> FnOnce(Input<'b, u8>) -> Outcome<'b, u8, T, E>,
        requires
            old(self).wf(),
            well_behaved::<T, E, F>(f),
        ensures
            final(self).wf(),
            !(old(self)@.needs_fill && old(self)@.autofill) ==> attempted(old(self)@, f, final(self)@, r),
            old(self)@.needs_fill && old(self)@.autofill ==> {
                ||| (r is Err && r->Err_0 is IoError && fill_failed(old(self)@, final(self)@))
                ||| attempted(after_fill(old(self)@), f, final(self)@, r)
            },
            is_exhausted(old(self)@) ==> final(self)@ == old(self)@ && r == Err::<T, ParseError<E>>(ParseError::EndOfInput),
            r == Err::<T, ParseError<E>>(ParseError::EndOfInput) ==> is_exhausted(final(self)@),
    {
        if self.needs_fill && self.autofill {
            let ghost pre = self@;
            match self.fill() {
                Ok(n) => {
                    let r = self.attempt(f);
                    return r;
                },
                Err(e) => {
                    return Err(ParseError::IoError(e));
                },
            }
        }
        self.attempt(f)
    }

    /// The number of tokens in the buffer.
    pub fn len(&self) -> (r: usize)
        ensures
            r == self@.contents.len(),
    {
        self.buffer.len()
    }

    pub fn capacity(&self) -> (r: usize)
        ensures
            r == self@.capacity,
    {
        self.cap
    }

    /// Borrows the tokens in the buffer.
    pub fn buffer(&self) -> (r: &[u8])
        ensures
            r@ == self@.contents,
    {
        self.buffer.as_slice()
    }

    /// Clears the progress flags and the automatic fill setting; the buffer
    /// and the request are kept.
    pub fn reset(&mut self)
        requires
            old(self).wf(),
        ensures
            final(self).wf(),
            final(self)@ == (SourceView { needs_fill: false, end_of_input: false, autofill: false, ..old(self)@ }),
    {
        self.needs_fill = false;
        self.end_of_input = false;
        self.autofill = false;
    }

    /// Turns automatic filling in `parse` on or off.
    pub fn set_autofill(&mut self, value: bool)
        requires
            old(self).wf(),
        ensures
            final(self).wf(),
            final(self)@ == (SourceView { autofill: value, ..old(self)@ }),
    {
        self.autofill = value;
    }

    /// Drops the first `num` buffered tokens.
    pub fn consume(&mut self, num: usize)
        requires
            old(self).wf(),
            num <= old(self)@.contents.len(),
        ensures
            final(self).wf(),
            final(self)@ == consume_view(old(self)@, num as nat),
    {
        self.consume_front(num)
    }

    /// Copies buffered tokens into `out` and consumes them, first filling
    /// towards `out.len()` tokens when fewer are buffered.
    pub fn read(&mut self, out: &mut [u8]) -> (r: Result<usize, IoFailure>)
        requires
            old(self).wf(),
        ensures
            final(self).wf(),
            final(out)@.len() == old(out)@.len(),
            match r {
                Ok(n) => {
                    let mid = read_source(old(self)@, old(out)@.len() as nat);
                    &&& n == min_nat(old(out)@.len() as nat, mid.contents.len())
                    &&& final(out)@.take(n as int) == mid.contents.take(n as int)
                    &&& final(out)@.skip(n as int) == old(out)@.skip(n as int)
                    &&& final(self)@ == consume_view(mid, n as nat)
                },
                Err(_) => final(out)@ == old(out)@
                    && fill_failed_towards(old(self)@, final(self)@, old(out)@.len() as nat),
            },
    {
        let want = out.len();
        let ghost pre = self@;
        if want > self.buffer.len() {
            match self.fill_requested(want) {
                Ok(_) => {},
                Err(e) => {
                    return Err(e);
                },
            }
        }
        assert(self@ == read_source(pre, want as nat));
        let len = self.buffer.len();
        let n: usize = if want < len { want } else { len };
        let mut k: usize = 0;
        while k < n
            invariant
                k <= n <= want,
                n <= len,
                len == self.buffer@.len(),
                out@.len() == want,
                out@.take(k as int) == self.buffer@.take(k as int),
                out@.skip(n as int) == old(out)@.skip(n as int),
                old(out)@.len() == want,
            decreases n - k,
        {
            out[k] = self.buffer[k];
            k = k + 1;
            assert(out@.take(k as int) =~= self.buffer@.take(k as int));
            assert(out@.skip(n as int) =~= old(out)@.skip(n as int));
        }
        self.consume_front(n);
        Ok(n)
    }

    /// Fills towards a full buffer and borrows the buffered tokens.
    pub fn fill_buf(&mut self) -> (r: Result<&[u8], IoFailure>)
        requires
            old(self).wf(),
        ensures
            final(self).wf(),
            match r {
                Ok(b) => b@ == final(self)@.contents
                    && final(self)@ == after_fill_towards(old(self)@, old(self)@.capacity),
                Err(_) => fill_failed_towards(old(self)@, final(self)@, old(self)@.capacity),
            },
    {
        let cap = self.cap;
        match self.fill_requested(cap) {
            Ok(_) => Ok(self.buffer.as_slice()),
            Err(e) => Err(e),
        }
    }
}

/// The state `read` copies from after its fill step for `want` tokens:
/// unchanged when enough tokens are buffered, else filled towards `want`.
pub open spec fn read_source(pre: SourceView, want: nat) -> SourceView {
    if want > pre.contents.len() {
        after_fill_towards(pre, want)
    } else {
        pre
    }
}

/// Tokens are neither duplicated nor made up: what was consumed and what is
/// still buffered together are exactly the tokens ever appended, in order.
pub proof fn lemma_tokens_conserved<R: ByteProvider>(s: &ReadSource<R>)
    requires
        s.wf(),
    ensures
        s@.consumed + s@.contents.len() == s@.appended.len(),
        s@.appended.take(s@.consumed as int) + s@.contents == s@.appended,
{
    assert(s@.appended.take(s@.consumed as int) + s@.contents =~= s@.appended);
}

/// Nothing makes up or duplicates a token. Across a fill, and across applying
/// any outcome of a well-behaved parsing function, the tokens ever appended
/// followed by those the provider still holds stay the same, and the state
/// stays well formed (consumed plus buffered tokens are exactly the appended
/// ones, in order).
pub proof fn lemma_stream_preserved<'a, T, E>(pre: SourceView, o: Outcome<'a, u8, T, E>)
    requires
        view_wf(pre),
        o.consumes_prefix_of(pre.contents),
    ensures
        after_fill(pre).appended + after_fill(pre).pending == pre.appended + pre.pending,
        view_wf(after_fill(pre)),
        after_outcome(pre, o).appended + after_outcome(pre, o).pending == pre.appended + pre.pending,
        view_wf(after_outcome(pre, o)),
{
    let n = fill_count(pre);
    assert(pre.appended + pre.pending.take(n as int) + pre.pending.skip(n as int) =~= pre.appended + pre.pending);
    lemma_append_keeps_wf(pre, n);
    match o {
        Outcome::Data(rest, _) => {
            let k = pre.contents.len() - rest.tokens().len();
            assert(pre.contents.skip(k) =~= pre.appended.skip(pre.consumed + k));
        },
        Outcome::Error(rest, _) => {
            let k = pre.contents.len() - rest.tokens().len();
            assert(pre.contents.skip(k) =~= pre.appended.skip(pre.consumed + k));
        },
        Outcome::Incomplete(_) => {},
    }
}

} // verus!
