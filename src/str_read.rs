use vstd::prelude::*;
use crate::forward_peekable::ForwardPeekable;
use crate::position::{byte_offset, lemma_line_col_bounds, line_col, position_at, Position};
use crate::text::push_char;

verus! {

/// The character at index `i` of `s`, if there is one.
pub open spec fn char_at(s: Seq<char>, i: int) -> Option<char> {
    if 0 <= i < s.len() {
        Some(s[i])
    } else {
        None
    }
}

/// Relies on `str::char_indices`: every character of the text, with the byte offset
/// at which it starts.
#[verifier::external_body]
fn char_indices(s: &str) -> (r: Vec<(usize, char)>)
    ensures
        r@.len() == s@.len(),
        forall|i: int|
            0 <= i < r@.len() ==> (#[trigger] r@[i]).1 == s@[i] && r@[i].0 as int == byte_offset(
                s@,
                i,
            ),
{
    s.char_indices().collect()
}

/// Reads a text one character at a time, keeping track of the position reached.
pub struct StrRead {
    position: Position,
    len: usize,
    iter: ForwardPeekable<(usize, char)>,
    input: Ghost<Seq<char>>,
}

impl StrRead {
    /// The whole text being read.
    pub closed spec fn input(&self) -> Seq<char> {
        self.input@
    }

    /// How many characters have been consumed.
    pub closed spec fn offset(&self) -> int {
        self.input@.len() - self.iter@.len()
    }

    pub closed spec fn wf(&self) -> bool {
        &&& self.iter@.len() <= self.input@.len() < usize::MAX
        &&& forall|j: int|
            0 <= j < self.iter@.len() ==> (#[trigger] self.iter@[j]).1 == self.input@[self.offset()
                + j] && self.iter@[j].0 as int == byte_offset(self.input@, self.offset() + j)
        &&& self.len == byte_offset(self.input@, self.input@.len() as int) as usize
        &&& self.position == position_at(self.input@, self.offset())
    }

    pub proof fn lemma_offset(&self)
        requires
            self.wf(),
        ensures
            0 <= self.offset() <= self.input().len() < usize::MAX,
    {
    }

    pub fn new(input: &str) -> (r: StrRead)
        requires
            input@.len() < usize::MAX,
        ensures
            r.wf(),
            r.input() == input@,
            r.offset() == 0,
    {
        let items = char_indices(input);
        let len = input.len();
        proof {
            assert(input@.take(input@.len() as int) =~= input@);
            assert(input@.take(0) =~= Seq::<char>::empty());
        }
        StrRead {
            position: Position::start(),
            len,
            iter: ForwardPeekable::new(items),
            input: Ghost(input@),
        }
    }

    /// The position reached so far.
    pub fn position(&self) -> (r: &Position)
        requires
            self.wf(),
        ensures
            *r == position_at(self.input(), self.offset()),
    {
        &self.position
    }

    /// The next character, left unconsumed.
    pub fn peek_char(&self) -> (r: Option<char>)
        requires
            self.wf(),
        ensures
            r == char_at(self.input(), self.offset()),
    {
        self.peek_nth_char(0)
    }

    /// The character `n` places ahead (`0` is the next one), left unconsumed.
    pub fn peek_nth_char(&self, n: usize) -> (r: Option<char>)
        requires
            self.wf(),
        ensures
            r == char_at(self.input(), self.offset() + n),
    {
        match self.iter.peek_nth(n) {
            Some(item) => Some(item.1),
            None => None,
        }
    }

    /// The next `n` characters, or those that are left if fewer, left unconsumed.
    pub fn peek_count(&self, n: usize) -> (r: String)
        requires
            self.wf(),
        ensures
            r@ == self.input().subrange(
                self.offset(),
                if self.offset() + n <= self.input().len() {
                    self.offset() + n
                } else {
                    self.input().len() as int
                },
            ),
    {
        let ghost s = self.input();
        let ghost k = self.offset();
        let mut r = String::new();
        let mut i: usize = 0;
        while i < n
            invariant
                self.wf(),
                i <= n,
                k + i <= s.len(),
                s == self.input(),
                k == self.offset(),
                r@ == s.subrange(k, k + i),
            decreases n - i,
        {
            match self.peek_nth_char(i) {
                Some(c) => {
                    push_char(&mut r, c);
                    i = i + 1;
                    assert(r@ =~= s.subrange(k, k + i));
                },
                None => {
                    return r;
                },
            }
        }
        r
    }

    /// Consumes the next character, if any, and moves the position past it.
    pub fn consume_char(&mut self) -> (r: Option<char>)
        requires
            old(self).wf(),
        ensures
            final(self).wf(),
            final(self).input() == old(self).input(),
            r == char_at(old(self).input(), old(self).offset()),
            final(self).offset() == if r is Some {
                old(self).offset() + 1
            } else {
                old(self).offset()
            },
    {
        let ghost s = self.input();
        let ghost k = self.offset();
        match self.iter.next() {
            None => None,
            Some(item) => {
                let c = item.1;
                proof {
                    assert(old(self).iter@[0] == item);
                    lemma_line_col_bounds(s, k);
                    lemma_line_col_bounds(s, k + 1);
                    assert forall|j: int| 0 <= j < self.iter@.len() implies (#[trigger] self.iter@[j]).1
                        == s[self.offset() + j] && self.iter@[j].0 as int == byte_offset(
                        s,
                        self.offset() + j,
                    ) by {
                        assert(self.iter@[j] == old(self).iter@[j + 1]);
                    }
                }
                let index = match self.iter.peek() {
                    Some(next) => next.0,
                    None => self.len,
                };
                if c == '\n' {
                    self.position.line = self.position.line + 1;
                    self.position.col = 1;
                } else {
                    self.position.col = self.position.col + 1;
                }
                self.position.index = index;
                Some(c)
            },
        }
    }

    /// Consumes characters for as long as `predicate` holds of them, and returns them.
    pub fn consume_while<P: Fn(char) -> bool>(&mut self, predicate: P) -> (r: String)
        requires
            old(self).wf(),
            forall|c: char| predicate.requires((c,)),
        ensures
            final(self).wf(),
            final(self).input() == old(self).input(),
            old(self).offset() <= final(self).offset() <= old(self).input().len(),
            r@ == old(self).input().subrange(old(self).offset(), final(self).offset()),
            forall|j: int|
                old(self).offset() <= j < final(self).offset() ==> predicate.ensures(
                    (#[trigger] old(self).input()[j],),
                    true,
                ),
            final(self).offset() < old(self).input().len() ==> predicate.ensures(
                (old(self).input()[final(self).offset()],),
                false,
            ),
    {
        let ghost s = self.input();
        let ghost start = self.offset();
        let mut r = String::new();
        loop
            invariant
                self.wf(),
                s == self.input(),
                s == old(self).input(),
                start == old(self).offset(),
                0 <= start <= self.offset() <= s.len(),
                r@ == s.subrange(start, self.offset()),
                forall|c: char| predicate.requires((c,)),
                forall|j: int|
                    start <= j < self.offset() ==> predicate.ensures((#[trigger] s[j],), true),
            decreases s.len() - self.offset(),
        {
            match self.peek_char() {
                None => {
                    return r;
                },
                Some(c) => {
                    if !predicate(c) {
                        return r;
                    }
                    let ghost k = self.offset();
                    let ghost before = r@;
                    self.consume_char();
                    push_char(&mut r, c);
                    assert(r@ =~= s.subrange(start, k + 1));
                },
            }
        }
    }
}

} // verus!
