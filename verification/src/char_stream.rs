//! A cursor over UTF-8 text that moves one character at a time and reports its
//! position as a byte offset.

use vstd::prelude::*;
use vstd::string::*;

use crate::parse_utils::{is_whitespace, whitespace_class};
use crate::text::{
    byte_len, lemma_byte_len_step, lemma_byte_len_take, lemma_split_point, split_after,
    split_first, str_byte_len, utf8_width,
};

verus! {

/// A read position inside an immutable piece of text.
///
/// The stream is modelled by the text it was made from (`source`) and the number
/// of characters already consumed (`position`); what is left to read is
/// `rest`, the source without its first `position` characters.
pub struct CharStream<'a> {
    full: &'a str,
    remaining: &'a str,
}

impl<'a> CharStream<'a> {
    /// The whole text the stream was created from.
    pub closed spec fn source(&self) -> Seq<char> {
        self.full@
    }

    /// The characters not consumed yet.
    pub closed spec fn rest(&self) -> Seq<char> {
        self.remaining@
    }

    /// The number of characters consumed so far.
    pub open spec fn position(&self) -> int {
        self.source().len() - self.rest().len()
    }

    /// The unread part is a suffix of the source.
    pub open spec fn wf(&self) -> bool {
        &&& 0 <= self.position() <= self.source().len()
        &&& self.rest() == self.source().skip(self.position())
    }

    /// The byte offset of the read position from the start of the source.
    pub open spec fn spec_byte_offset(&self) -> nat {
        byte_len(self.source().take(self.position()))
    }

    pub fn from_str(data: &'a str) -> (stream: CharStream<'a>)
        ensures
            stream.wf(),
            stream.source() == data@,
            stream.position() == 0,
    {
        assert(data@.skip(0) =~= data@);
        CharStream { remaining: data, full: data }
    }

    /// The next character, without consuming it; `None` at the end of the text.
    pub fn peek(&self) -> (c: Option<char>)
        ensures
            c == (if self.rest().len() == 0 {
                None
            } else {
                Some(self.rest()[0])
            }),
    {
        if self.remaining.is_empty() {
            return None;
        }
        Some(self.remaining.get_char(0))
    }

    /// Consumes one character; does nothing at the end of the text.
    pub fn advance(&mut self)
        requires
            old(self).wf(),
        ensures
            final(self).wf(),
            final(self).source() == old(self).source(),
            final(self).position() == (if old(self).rest().len() == 0 {
                old(self).position()
            } else {
                old(self).position() + 1
            }),
    {
        if !self.remaining.is_empty() {
            let (_, tail) = split_first(self.remaining);
            proof {
                assert(self.source().skip(self.position() + 1) =~= self.rest().drop_first());
            }
            self.remaining = tail;
        }
    }

    /// Consumes and returns one character; `None` at the end of the text.
    pub fn take(&mut self) -> (c: Option<char>)
        requires
            old(self).wf(),
        ensures
            final(self).wf(),
            final(self).source() == old(self).source(),
            c == (if old(self).rest().len() == 0 {
                None
            } else {
                Some(old(self).rest()[0])
            }),
            final(self).position() == (if old(self).rest().len() == 0 {
                old(self).position()
            } else {
                old(self).position() + 1
            }),
    {
        if self.remaining.is_empty() {
            return None;
        }
        let (c, tail) = split_first(self.remaining);
        proof {
            assert(self.source().skip(self.position() + 1) =~= self.rest().drop_first());
        }
        self.remaining = tail;
        Some(c)
    }

    /// Consumes characters for as long as `predicate` answers the opposite of
    /// `stop`, and returns them.
    fn take_run<F: Fn(char) -> bool>(&mut self, predicate: &F, stop: bool) -> (taken: &'a str)
        requires
            old(self).wf(),
            forall|c: char| call_requires(*predicate, (c,)),
        ensures
            final(self).wf(),
            final(self).source() == old(self).source(),
            final(self).position() == old(self).position() + taken@.len(),
            old(self).rest() == taken@ + final(self).rest(),
            forall|i: int|
                0 <= i < taken@.len() ==> call_ensures(
                    *predicate,
                    (#[trigger] taken@[i],),
                    !stop,
                ),
            final(self).rest().len() > 0 ==> call_ensures(
                *predicate,
                (final(self).rest()[0],),
                stop,
            ),
    {
        let whole = self.remaining;
        let mut cur = self.remaining;
        let limit = str_byte_len(whole);
        let mut n: usize = 0;
        let ghost mut k: int = 0;
        proof {
            assert(whole@.skip(0) =~= whole@);
            assert(whole@.take(0) =~= Seq::<char>::empty());
        }
        loop
            invariant
                0 <= k <= whole@.len(),
                cur@ == whole@.skip(k),
                n == byte_len(whole@.take(k)),
                limit == byte_len(whole@),
                forall|c: char| call_requires(*predicate, (c,)),
                forall|i: int|
                    0 <= i < k ==> call_ensures(*predicate, (#[trigger] whole@[i],), !stop),
            ensures
                0 <= k <= whole@.len(),
                n == byte_len(whole@.take(k)),
                forall|i: int|
                    0 <= i < k ==> call_ensures(*predicate, (#[trigger] whole@[i],), !stop),
                k < whole@.len() ==> call_ensures(*predicate, (whole@[k],), stop),
            decreases whole@.len() - k,
        {
            if cur.is_empty() {
                break;
            }
            let (c, tail) = split_first(cur);
            if predicate(c) == stop {
                break;
            }
            let w = utf8_width(c);
            proof {
                lemma_byte_len_step(whole@, k);
                lemma_split_point(whole@, k + 1);
                assert(whole@.skip(k + 1) =~= whole@.skip(k).drop_first());
            }
            assert(n + w <= limit);
            n = n + w;
            cur = tail;
            proof {
                k = k + 1;
            }
        }
        let (taken, left) = split_after(whole, n, Ghost(k));
        proof {
            let p = self.position();
            assert(self.source().skip(p + k) =~= whole@.skip(k));
            assert(whole@ =~= whole@.take(k) + whole@.skip(k));
        }
        self.remaining = left;
        taken
    }

    /// Consumes characters up to, and not including, the first one that
    /// `predicate` accepts, or up to the end of the text, and returns them.
    pub fn take_until(&mut self, predicate: impl Fn(char) -> bool) -> (taken: &'a str)
        requires
            old(self).wf(),
            forall|c: char| call_requires(predicate, (c,)),
        ensures
            final(self).wf(),
            final(self).source() == old(self).source(),
            final(self).position() == old(self).position() + taken@.len(),
            old(self).rest() == taken@ + final(self).rest(),
            forall|i: int|
                0 <= i < taken@.len() ==> call_ensures(predicate, (#[trigger] taken@[i],), false),
            final(self).rest().len() > 0 ==> call_ensures(
                predicate,
                (final(self).rest()[0],),
                true,
            ),
    {
        self.take_run(&predicate, true)
    }

    /// Consumes the longest run of characters that `predicate` accepts, and
    /// returns it.
    pub fn take_while(&mut self, predicate: impl Fn(char) -> bool) -> (taken: &'a str)
        requires
            old(self).wf(),
            forall|c: char| call_requires(predicate, (c,)),
        ensures
            final(self).wf(),
            final(self).source() == old(self).source(),
            final(self).position() == old(self).position() + taken@.len(),
            old(self).rest() == taken@ + final(self).rest(),
            forall|i: int|
                0 <= i < taken@.len() ==> call_ensures(predicate, (#[trigger] taken@[i],), true),
            final(self).rest().len() > 0 ==> call_ensures(
                predicate,
                (final(self).rest()[0],),
                false,
            ),
    {
        self.take_run(&predicate, false)
    }

    /// Like `take_until`, discarding the characters.
    pub fn skip_until(&mut self, predicate: impl Fn(char) -> bool)
        requires
            old(self).wf(),
            forall|c: char| call_requires(predicate, (c,)),
        ensures
            final(self).wf(),
            final(self).source() == old(self).source(),
            old(self).position() <= final(self).position() <= old(self).source().len(),
            forall|i: int|
                old(self).position() <= i < final(self).position() ==> call_ensures(
                    predicate,
                    (#[trigger] old(self).source()[i],),
                    false,
                ),
            final(self).rest().len() > 0 ==> call_ensures(
                predicate,
                (final(self).rest()[0],),
                true,
            ),
    {
        let ghost before = self.position();
        let taken = self.take_until(predicate);
        proof {
            assert forall|i: int| before <= i < self.position() implies call_ensures(
                predicate,
                (#[trigger] self.source()[i],),
                false,
            ) by {
                assert(self.source()[i] == old(self).rest()[i - before]);
                assert(old(self).rest()[i - before] == taken@[i - before]);
            }
        }
    }

    /// Like `take_while`, discarding the characters.
    pub fn skip_while(&mut self, predicate: impl Fn(char) -> bool)
        requires
            old(self).wf(),
            forall|c: char| call_requires(predicate, (c,)),
        ensures
            final(self).wf(),
            final(self).source() == old(self).source(),
            old(self).position() <= final(self).position() <= old(self).source().len(),
            forall|i: int|
                old(self).position() <= i < final(self).position() ==> call_ensures(
                    predicate,
                    (#[trigger] old(self).source()[i],),
                    true,
                ),
            final(self).rest().len() > 0 ==> call_ensures(
                predicate,
                (final(self).rest()[0],),
                false,
            ),
    {
        let ghost before = self.position();
        let taken = self.take_while(predicate);
        proof {
            assert forall|i: int| before <= i < self.position() implies call_ensures(
                predicate,
                (#[trigger] self.source()[i],),
                true,
            ) by {
                assert(self.source()[i] == old(self).rest()[i - before]);
                assert(old(self).rest()[i - before] == taken@[i - before]);
            }
        }
    }

    /// Consumes blanks up to the next character that is not one.
    pub fn skip_whitespace(&mut self)
        requires
            old(self).wf(),
        ensures
            final(self).wf(),
            final(self).source() == old(self).source(),
            final(self).position() == blank_run_end(old(self).source(), old(self).position()),
    {
        let ghost before = self.position();
        self.skip_while(is_whitespace);
        proof {
            lemma_run_end_unique(self.source(), before, self.position(), whitespace_class());
        }
    }

    /// The byte offset of the read position from the start of the text.
    pub fn byte_offset(&self) -> (offset: usize)
        requires
            self.wf(),
        ensures
            offset == self.spec_byte_offset(),
    {
        proof {
            lemma_byte_len_take(self.source(), self.position());
        }
        str_byte_len(self.full) - str_byte_len(self.remaining)
    }

    /// The text left to read.
    pub fn unread(&self) -> (text: &'a str)
        ensures
            text@ == self.rest(),
    {
        self.remaining
    }

    /// The number of bytes left to read.
    pub fn remaining(&self) -> (n: usize)
        ensures
            n == byte_len(self.rest()),
    {
        str_byte_len(self.remaining)
    }
}

/// The end of the longest run of characters satisfying `pred` that starts at
/// index `from` of `s`: the first index at or after `from` whose character
/// fails `pred`, or the length of `s`.
pub open spec fn run_end(s: Seq<char>, from: int, pred: spec_fn(char) -> bool) -> int
    decreases s.len() - from,
{
    if 0 <= from < s.len() && pred(s[from]) {
        run_end(s, from + 1, pred)
    } else {
        from
    }
}

/// Where the blanks that start at index `from` end.
pub open spec fn blank_run_end(s: Seq<char>, from: int) -> int {
    run_end(s, from, whitespace_class())
}

/// A run is identified by its two defining properties: every character in it
/// satisfies the predicate, and the character after it, if any, does not.
pub proof fn lemma_run_end_unique(s: Seq<char>, from: int, to: int, pred: spec_fn(char) -> bool)
    requires
        0 <= from <= to <= s.len(),
        forall|i: int| from <= i < to ==> pred(#[trigger] s[i]),
        to < s.len() ==> !pred(s[to]),
    ensures
        run_end(s, from, pred) == to,
    decreases to - from,
{
    if from < to {
        lemma_run_end_unique(s, from + 1, to, pred);
    }
}

/// The properties of a run's end: it lies between the start and the end of
/// the text, everything before it satisfies the predicate, and it is maximal.
pub proof fn lemma_run_end_properties(s: Seq<char>, from: int, pred: spec_fn(char) -> bool)
    requires
        0 <= from <= s.len(),
    ensures
        from <= run_end(s, from, pred) <= s.len(),
        forall|i: int| from <= i < run_end(s, from, pred) ==> pred(#[trigger] s[i]),
        run_end(s, from, pred) < s.len() ==> !pred(s[run_end(s, from, pred)]),
    decreases s.len() - from,
{
    if from < s.len() && pred(s[from]) {
        lemma_run_end_properties(s, from + 1, pred);
    }
}

} // verus!
