//! The expect engine's core: a rolling buffer of serial bytes and the
//! match that consumes its prefix.
//!
//! The engine holds the bytes read from the channel but not yet consumed.
//! On a match, exactly the prefix up to and including the matched span is
//! removed; the rest stays for the next call. Ties among needles are
//! broken by earliest end position, then by order in the set.

use vstd::prelude::*;
use crate::machine::Transition;
use crate::trigger::{spec_first_occurrence, spec_occurrence_from, spec_trig_span, Trigger};

verus! {

/// What a successful match returns: the consumed prefix (up to and
/// including the match), the matched bytes themselves, and the winning
/// transition's index.
#[derive(Debug, PartialEq, Eq)]
pub struct ExpectMatch {
    pub consumed: Vec<u8>,
    pub matched: Vec<u8>,
    pub winner: usize,
}

/// Whether `(i, s, e)` names the winning span: index `i` fires on
/// `(s, e)`, and every other firing index ends later, or ends equally and
/// comes later in the set.
pub open spec fn spec_is_winner(trans: Seq<Transition>, buf: Seq<u8>, i: int, s: int, e: int)
    -> bool {
    &&& 0 <= i < trans.len()
    &&& spec_trig_span(trans[i].trigger, buf) == Some((s, e))
    &&& forall|j: int|
        0 <= j < trans.len() && j != i ==> match #[trigger] spec_trig_span(
            trans[j].trigger,
            buf,
        ) {
            Some(p) => p.1 > e || (p.1 == e && j > i),
            None => true,
        }
}

/// The bytes of `v` from `from` to `to`.
pub fn copy_range(v: &Vec<u8>, from: usize, to: usize) -> (r: Vec<u8>)
    requires
        from <= to <= v@.len(),
    ensures
        r@ == v@.subrange(from as int, to as int),
{
    let mut r: Vec<u8> = Vec::new();
    let mut i = from;
    while i < to
        invariant
            from <= i <= to <= v@.len(),
            r@ =~= v@.subrange(from as int, i as int),
        decreases to - i,
    {
        r.push(v[i]);
        proof {
            assert(r@ =~= v@.subrange(from as int, i as int + 1));
        }
        i = i + 1;
    }
    proof {
        assert(r@ =~= v@.subrange(from as int, to as int));
    }
    r
}

/// Whether `needle` sits at position `at` of `hay`.
#[verifier::loop_isolation(false)]
fn match_at(hay: &Vec<u8>, needle: &[u8], at: usize) -> (r: bool)
    requires
        at + needle@.len() <= hay@.len(),
    ensures
        r == (hay@.subrange(at as int, at as int + needle@.len() as int) == needle@),
{
    proof {
        assert(hay.len() == hay@.len());
    }
    let n = needle.len();
    for j in 0..n
        invariant
            forall|k: int| 0 <= k < j ==> hay@[at + k] == needle@[k],
    {
        if hay[at + j] != needle[j] {
            proof {
                assert(hay@.subrange(at as int, at as int + needle@.len() as int)[j as int]
                    == hay@[at + j]);
            }
            return false;
        }
    }
    proof {
        assert(hay@.subrange(at as int, at as int + needle@.len() as int) =~= needle@);
    }
    true
}

/// Where `needle` first occurs in `hay`.
#[verifier::loop_isolation(false)]
pub fn find_first(hay: &Vec<u8>, needle: &[u8]) -> (r: Option<usize>)
    ensures
        match r {
            Some(i) => spec_first_occurrence(hay@, needle@) == Some(i as int),
            None => spec_first_occurrence(hay@, needle@) is None,
        },
{
    if needle.len() > hay.len() {
        return None;
    }
    if needle.len() == 0 {
        proof {
            assert(hay@.subrange(0, 0) =~= needle@);
        }
        return Some(0);
    }
    let last = hay.len() - needle.len();
    let mut i: usize = 0;
    while i <= last
        invariant
            0 <= i <= last + 1,
            spec_occurrence_from(hay@, needle@, 0) == spec_occurrence_from(hay@, needle@, i as int),
        decreases last + 1 - i,
    {
        if match_at(hay, needle, i) {
            return Some(i);
        }
        i = i + 1;
    }
    None
}

/// The byte span on which this trigger fires in the buffer.
fn trig_span(t: &Trigger, buf: &Vec<u8>) -> (r: Option<(usize, usize)>)
    ensures
        match r {
            Some(se) => spec_trig_span(*t, buf@) == Some((se.0 as int, se.1 as int)) && se.0 <= se.1
                <= buf@.len(),
            None => spec_trig_span(*t, buf@) is None,
        },
{
    match t {
        Trigger::Immediate => None,
        Trigger::Timeout(_) => None,
        Trigger::Literal(s) => {
            let needle = s.as_str().as_bytes();
            match find_first(buf, needle) {
                Some(i) => {
                    proof {
                        assert(buf.len() == buf@.len());
                        crate::trigger::lemma_occurrence_bounds(buf@, needle@, 0);
                    }
                    Some((i, i + needle.len()))
                },
                None => None,
            }
        },
        Trigger::Regex(n) => n.find(buf.as_slice()),
    }
}

/// The rolling buffer of bytes read from the channel but not yet consumed
/// by a match.
#[derive(Debug)]
pub struct ExpectEngine {
    buf: Vec<u8>,
}

impl ExpectEngine {
    /// The unconsumed bytes.
    pub closed spec fn buffer(self) -> Seq<u8> {
        self.buf@
    }

    pub fn new() -> (r: ExpectEngine)
        ensures
            r.buffer() =~= Seq::<u8>::empty(),
    {
        ExpectEngine { buf: Vec::new() }
    }

    /// How many bytes are buffered.
    pub fn buffered(&self) -> (r: usize)
        ensures
            r == self.buffer().len(),
    {
        self.buf.len()
    }

    /// Appends bytes read from the channel.
    pub fn feed(&mut self, chunk: &[u8])
        ensures
            final(self).buffer() == old(self).buffer() + chunk@,
    {
        let n = chunk.len();
        for i in 0..n
            invariant
                n == chunk@.len(),
                self.buf@ =~= old(self).buf@ + chunk@.subrange(0, i as int),
        {
            self.buf.push(chunk[i]);
            proof {
                assert(self.buf@ =~= old(self).buf@ + chunk@.subrange(0, i as int + 1));
            }
        }
        proof {
            assert(self.buf@ =~= old(self).buf@ + chunk@);
        }
    }

    /// Tries to match the transitions' needles against the buffer. On a
    /// match, the winning span — earliest end, then earliest set position —
    /// is consumed together with everything before it; with no match the
    /// buffer stays whole.
    #[verifier::loop_isolation(false)]
    pub fn try_expect(&mut self, trans: &Vec<Transition>) -> (r: Option<ExpectMatch>)
        ensures
            match r {
                Some(m) => {
                    let e = m.consumed@.len() as int;
                    let s = e - m.matched@.len() as int;
                    &&& spec_is_winner(trans@, old(self).buffer(), m.winner as int, s, e)
                    &&& m.consumed@ == old(self).buffer().take(e)
                    &&& m.matched@ == old(self).buffer().subrange(s, e)
                    &&& final(self).buffer() == old(self).buffer().skip(e)
                },
                None => final(self).buffer() == old(self).buffer() && (forall|j: int|
                    0 <= j < trans@.len() ==> (#[trigger] spec_trig_span(
                        trans@[j].trigger,
                        old(self).buffer(),
                    )) is None),
            },
    {
        let n = trans.len();
        let mut best: Option<(usize, usize, usize)> = None;
        for j in 0..n
            invariant
                n == trans@.len(),
                match best {
                    Some(b) => {
                        &&& b.0 < j
                        &&& spec_trig_span(trans@[b.0 as int].trigger, self.buf@) == Some(
                            (b.1 as int, b.2 as int),
                        )
                        &&& b.1 <= b.2 <= self.buf@.len()
                        &&& forall|k: int|
                            0 <= k < j && k != b.0 ==> match #[trigger] spec_trig_span(
                                trans@[k].trigger,
                                self.buf@,
                            ) {
                                Some(p) => p.1 > b.2 as int || (p.1 == b.2 as int && k
                                    > b.0 as int),
                                None => true,
                            }
                    },
                    None => forall|k: int|
                        0 <= k < j ==> (#[trigger] spec_trig_span(
                            trans@[k].trigger,
                            self.buf@,
                        )) is None,
                },
        {
            match trig_span(&trans[j].trigger, &self.buf) {
                Some((s, e)) => {
                    match best {
                        Some(b) => {
                            if e < b.2 {
                                best = Some((j, s, e));
                            }
                        },
                        None => {
                            best = Some((j, s, e));
                        },
                    }
                },
                None => {},
            }
        }
        match best {
            Some((w, s, e)) => {
                let consumed = copy_range(&self.buf, 0, e);
                let matched = copy_range(&self.buf, s, e);
                let rest = copy_range(&self.buf, e, self.buf.len());
                self.buf = rest;
                proof {
                    assert(consumed@ =~= old(self).buffer().take(e as int));
                }
                Some(ExpectMatch { consumed, matched, winner: w })
            },
            None => None,
        }
    }
}

} // verus!
