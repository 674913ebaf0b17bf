use crate::production::ProductionError;
use vstd::prelude::*;

verus! {

/// A stream with a cursor that can be saved and moved back.
pub trait Cursorable {
    /// The cursor.
    spec fn position(&self) -> int;

    /// The number of items of the stream.
    spec fn length(&self) -> int;

    /// The cursor lies within the stream.
    spec fn ok(&self) -> bool;

    fn cursor(&self) -> (r: usize)
        ensures
            r == self.position(),
    ;

    /// Moves the cursor to `c`, such as a position saved before.
    fn set_cursor(&mut self, c: usize)
        requires
            old(self).ok(),
            c <= old(self).length(),
        ensures
            final(self).ok(),
            final(self).position() == c,
            final(self).length() == old(self).length(),
    ;
}

/// A stream whose items can be read ahead of the cursor.
pub trait Peekab: Cursorable {
    type Item;

    /// The items of the stream.
    spec fn items(&self) -> Seq<Self::Item>;

    /// The item `offset` places after the cursor, without moving it.
    fn peek_n(&self, offset: usize) -> (r: Result<Self::Item, ProductionError<()>>)
        requires
            self.ok(),
        ensures
            self.position() + offset < self.items().len() ==> r == Ok::<Self::Item, ProductionError<()>>(
                self.items()[self.position() + offset],
            ),
            self.position() + offset >= self.items().len() ==> (r matches Err(ProductionError::EndStream)),
    ;
}

/// A cursor over a buffered sequence of tokens of any kind.
#[derive(Debug)]
pub struct BufferIter<T> {
    buffer: Vec<T>,
    buffer_next_pos: usize,
}

impl<T: Copy> BufferIter<T> {
    /// The tokens.
    pub closed spec fn tokens(&self) -> Seq<T> {
        self.buffer@
    }

    /// The cursor.
    pub closed spec fn pos(&self) -> int {
        self.buffer_next_pos as int
    }

    pub closed spec fn wf(&self) -> bool {
        self.buffer_next_pos <= self.buffer.len()
    }

    pub fn new(src: Vec<T>) -> (r: Self)
        ensures
            r.wf(),
            r.tokens() == src@,
            r.pos() == 0,
    {
        BufferIter { buffer: src, buffer_next_pos: 0 }
    }

    /// The token at the cursor, which then moves past it.
    pub fn next(&mut self) -> (r: Option<T>)
        requires
            old(self).wf(),
        ensures
            final(self).wf(),
            final(self).tokens() == old(self).tokens(),
            old(self).pos() < old(self).tokens().len() ==> r == Some(old(self).tokens()[old(self).pos()])
                && final(self).pos() == old(self).pos() + 1,
            old(self).pos() >= old(self).tokens().len() ==> r is None && final(self).pos() == old(self).pos(),
    {
        if self.buffer_next_pos < self.buffer.len() {
            let t = self.buffer[self.buffer_next_pos];
            self.buffer_next_pos = self.buffer_next_pos + 1;
            Some(t)
        } else {
            None
        }
    }

    /// The tokens from the cursor on; the cursor stays where it is.
    pub fn tail(&self) -> (r: Vec<T>)
        requires
            self.wf(),
        ensures
            r@ == self.tokens().subrange(self.pos(), self.tokens().len() as int),
    {
        let mut r: Vec<T> = Vec::new();
        let mut i: usize = self.buffer_next_pos;
        while i < self.buffer.len()
            invariant
                self.buffer_next_pos <= i <= self.buffer.len(),
                r@ == self.buffer@.subrange(self.buffer_next_pos as int, i as int),
            decreases self.buffer.len() - i,
        {
            r.push(self.buffer[i]);
            i += 1;
            assert(r@ =~= self.buffer@.subrange(self.buffer_next_pos as int, i as int));
        }
        r
    }
}

impl<T: Copy> Cursorable for BufferIter<T> {
    open spec fn position(&self) -> int {
        self.pos()
    }

    open spec fn length(&self) -> int {
        self.tokens().len() as int
    }

    open spec fn ok(&self) -> bool {
        self.wf()
    }

    fn cursor(&self) -> (r: usize) {
        self.buffer_next_pos
    }

    fn set_cursor(&mut self, c: usize) {
        self.buffer_next_pos = c;
    }
}

impl<T: Copy> Peekab for BufferIter<T> {
    type Item = T;

    open spec fn items(&self) -> Seq<T> {
        self.tokens()
    }

    fn peek_n(&self, offset: usize) -> (r: Result<T, ProductionError<()>>) {
        if offset < self.buffer.len() - self.buffer_next_pos {
            Ok(self.buffer[self.buffer_next_pos + offset])
        } else {
            Err(ProductionError::EndStream)
        }
    }
}

} // verus!
