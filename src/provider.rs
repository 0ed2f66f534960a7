use vstd::prelude::*;

verus! {

/// Failure reported by a byte provider while fetching data.
#[derive(Debug, PartialEq, Eq)]
pub struct IoFailure {
    pub message: String,
}

/// The smaller of two counts.
pub open spec fn min_nat(a: nat, b: nat) -> nat {
    if a < b { a } else { b }
}

/// A source of fresh bytes.
pub trait ByteProvider {
    /// The bytes this provider will still hand out, in order.
    spec fn pending(&self) -> Seq<u8>;

    /// Whether this provider never fails.
    spec fn reliable(&self) -> bool;

    /// Appends the next `min(max, pending().len())` pending bytes to `out`
    /// and returns how many were appended; `Ok(0)` with `max > 0` means that
    /// the provider holds nothing more. On failure neither `out` nor the
    /// pending bytes change.
    fn provide(&mut self, out: &mut Vec<u8>, max: usize) -> (r: Result<usize, IoFailure>)
        ensures
            old(self).reliable() ==> r is Ok,
            final(self).reliable() == old(self).reliable(),
            match r {
                Ok(n) => {
                    &&& n == min_nat(max as nat, old(self).pending().len())
                    &&& final(out)@ == old(out)@ + old(self).pending().take(n as int)
                    &&& final(self).pending() == old(self).pending().skip(n as int)
                },
                Err(_) => final(out)@ == old(out)@ && final(self).pending() == old(self).pending(),
            },
    ;
}

/// A provider over bytes held in memory, handing them out in order. One made
/// by `failing_at_end` reports a failure, instead of `Ok(0)`, when asked for
/// bytes after the last one.
pub struct MemoryProvider {
    data: Vec<u8>,
    pos: usize,
    fail_at_end: bool,
}

impl MemoryProvider {
    pub fn new(data: Vec<u8>) -> (r: MemoryProvider)
        ensures
            r.pending() == data@,
            r.reliable(),
    {
        let r = MemoryProvider { data, pos: 0, fail_at_end: false };
        assert(r.data@.skip(0) =~= r.data@);
        r
    }

    pub fn failing_at_end(data: Vec<u8>) -> (r: MemoryProvider)
        ensures
            r.pending() == data@,
            !r.reliable(),
    {
        let r = MemoryProvider { data, pos: 0, fail_at_end: true };
        assert(r.data@.skip(0) =~= r.data@);
        r
    }
}

impl ByteProvider for MemoryProvider {
    /// The bytes not yet handed out.
    closed spec fn pending(&self) -> Seq<u8> {
        if self.pos <= self.data@.len() { self.data@.skip(self.pos as int) } else { Seq::empty() }
    }

    closed spec fn reliable(&self) -> bool {
        !self.fail_at_end
    }

    fn provide(&mut self, out: &mut Vec<u8>, max: usize) -> (r: Result<usize, IoFailure>) {
        let ghost start = out@;
        let ghost rest = self.pending();
        let avail = if self.pos <= self.data.len() { self.data.len() - self.pos } else { 0 };
        assert(avail == rest.len());
        if self.fail_at_end && avail == 0 && max > 0 {
            return Err(IoFailure { message: "no more data".to_string() });
        }
        let n: usize = if avail < max { avail } else { max };
        let pos = self.pos;
        let mut k: usize = 0;
        while k < n
            invariant
                k <= n,
                n == min_nat(max as nat, rest.len()),
                pos == self.pos,
                rest == (if pos <= self.data@.len() { self.data@.skip(pos as int) } else { Seq::<u8>::empty() }),
                self.data@.len() <= usize::MAX,
                n > 0 ==> pos + n <= self.data@.len(),
                out@ == start + rest.take(k as int),
            decreases n - k,
        {
            out.push(self.data[pos + k]);
            k = k + 1;
            assert(out@ =~= start + rest.take(k as int));
        }
        self.pos = pos + n;
        assert(self.pending() =~= rest.skip(n as int));
        Ok(n)
    }
}

} // verus!
