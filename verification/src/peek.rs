//! A peekable cursor over characters: items are handed out one at a time,
//! the next item can be inspected without being taken, and a run of items
//! satisfying a predicate can be taken in one call.

use vstd::prelude::*;

use crate::lexer::is_digit_char;

verus! {

/// The first position at or after `i` that does not hold a decimal digit.
pub open spec fn digit_run_end(s: Seq<char>, i: int) -> int
    decreases s.len() - i,
        when 0 <= i <= s.len()
{
    if i < s.len() && is_digit_char(s[i]) {
        digit_run_end(s, i + 1)
    } else {
        i
    }
}

/// A cursor over a vector of characters with non-consuming lookahead.
pub struct TakeWhilePeek {
    items: Vec<char>,
    pos: usize,
}

impl TakeWhilePeek {
    /// The characters the cursor walks over.
    pub closed spec fn items(&self) -> Seq<char> {
        self.items@
    }

    /// How many characters have been taken.
    pub closed spec fn mark(&self) -> int {
        self.pos as int
    }

    pub closed spec fn wf(&self) -> bool {
        self.pos <= self.items.len()
    }

    pub fn new(items: Vec<char>) -> (c: Self)
        ensures
            c.wf(),
            c.items() == items@,
            c.mark() == 0,
    {
        TakeWhilePeek { items, pos: 0 }
    }

    /// Looks at the next character without taking it.
    pub fn peek(&self) -> (r: Option<char>)
        requires
            self.wf(),
        ensures
            if self.mark() < self.items().len() {
                r == Option::Some(self.items()[self.mark()])
            } else {
                r is None
            },
    {
        if self.pos < self.items.len() {
            Option::Some(self.items[self.pos])
        } else {
            Option::None
        }
    }

    /// Takes the next character, if any.
    pub fn next(&mut self) -> (r: Option<char>)
        requires
            old(self).wf(),
        ensures
            final(self).wf(),
            final(self).items() == old(self).items(),
            if old(self).mark() < old(self).items().len() {
                r == Option::Some(old(self).items()[old(self).mark()]) && final(self).mark()
                    == old(self).mark() + 1
            } else {
                r is None && final(self).mark() == old(self).mark()
            },
    {
        if self.pos < self.items.len() {
            let c = self.items[self.pos];
            self.pos = self.pos + 1;
            Option::Some(c)
        } else {
            Option::None
        }
    }

    /// Takes characters while they are decimal digits, by peeking before
    /// each step, and returns the run that was taken.
    pub fn take_while_digits(&mut self) -> (r: Vec<char>)
        requires
            old(self).wf(),
        ensures
            final(self).wf(),
            final(self).items() == old(self).items(),
            final(self).mark() == digit_run_end(old(self).items(), old(self).mark()),
            r@ == old(self).items().subrange(old(self).mark(), final(self).mark()),
    {
        let mut run: Vec<char> = Vec::new();
        loop
            invariant
                self.wf(),
                self.items() == old(self).items(),
                old(self).mark() <= self.mark() <= self.items().len(),
                digit_run_end(self.items(), old(self).mark()) == digit_run_end(
                    self.items(),
                    self.mark(),
                ),
                run@ == self.items().subrange(old(self).mark(), self.mark()),
            ensures
                self.wf(),
                self.items() == old(self).items(),
                self.mark() == digit_run_end(self.items(), old(self).mark()),
                run@ == self.items().subrange(old(self).mark(), self.mark()),
            decreases self.items().len() - self.mark(),
        {
            match self.peek() {
                Option::Some(c) => {
                    if crate::lexer::digit_char(c) {
                        let ghost before = self.mark();
                        self.next();
                        run.push(c);
                        proof {
                            assert(run@ =~= self.items().subrange(old(self).mark(), self.mark()));
                        }
                    } else {
                        break ;
                    }
                },
                Option::None => {
                    break ;
                },
            }
        }
        run
    }
}

} // verus!
