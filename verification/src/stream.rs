//! The engine paired with a byte channel.
//!
//! Neither adapter touches its channel: whoever owns the adapter reads and writes
//! through [`Reader::get_mut`] and [`Writer::get_mut`]. The adapters say what is
//! done to the bytes on their way through, and keep the cursor between chunks.

use vstd::prelude::*;
use vstd::slice::slice_to_vec;
use crate::cipher::Xorcism;
use crate::keystream::Keystream;

verus! {

/// An engine and the source whose bytes it transforms as they are read.
pub struct Reader<'a, R> {
    xorr: Xorcism<'a>,
    reader: R,
}

/// An engine and the sink for which it transforms bytes before they are written.
pub struct Writer<'a, W> {
    xorr: Xorcism<'a>,
    writer: W,
}

impl<'a> Xorcism<'a> {
    /// Pairs the engine, cursor and all, with a source to read from.
    pub fn reader<R>(self, reader: R) -> (adapter: Reader<'a, R>)
        ensures
            adapter.engine() == self@,
            adapter.engine().wf(),
            adapter.source() == reader,
    {
        let _ = self.cursor();
        Reader { xorr: self, reader }
    }

    /// Pairs the engine, cursor and all, with a sink to write to.
    pub fn writer<W>(self, writer: W) -> (adapter: Writer<'a, W>)
        ensures
            adapter.engine() == self@,
            adapter.engine().wf(),
            adapter.sink() == writer,
    {
        let _ = self.cursor();
        Writer { xorr: self, writer }
    }
}

impl<'a, R> Reader<'a, R> {
    /// The keystream of the adapter's engine.
    pub closed spec fn engine(&self) -> Keystream {
        self.xorr@
    }

    /// The source.
    pub closed spec fn source(&self) -> R {
        self.reader
    }

    /// The source, to read from. The engine stays as it is.
    pub fn get_mut(&mut self) -> (source: &mut R)
        ensures
            *source == old(self).source(),
            final(self).source() == *final(source),
            final(self).engine() == old(self).engine(),
    {
        &mut self.reader
    }

    /// Completes a read: `outcome` is what the source answered when it was asked
    /// to fill `buf`.
    ///
    /// After `Ok(count)` the first `count` bytes of `buf`, those that the source
    /// has filled, are transformed and the cursor moves on by `count`; the rest of
    /// `buf` is left alone. A count of 0, the end of the stream, changes nothing.
    /// After an error nothing is touched. Either way `outcome` is handed back as
    /// it came.
    pub fn after_read<E>(&mut self, buf: &mut [u8], outcome: Result<usize, E>) -> (res: Result<
        usize,
        E,
    >)
        requires
            outcome matches Ok(count) ==> count <= old(buf)@.len(),
        ensures
            res == outcome,
            final(self).source() == old(self).source(),
            final(self).engine().wf(),
            match outcome {
                Ok(count) => {
                    &&& final(buf)@ == old(self).engine().apply(old(buf)@.take(count as int))
                        + old(buf)@.skip(count as int)
                    &&& final(self).engine() == old(self).engine().advance(count as nat)
                },
                Err(_) => {
                    &&& final(buf)@ == old(buf)@
                    &&& final(self).engine() == old(self).engine()
                },
            },
    {
        match outcome {
            Ok(count) => {
                let (filled, _rest) = buf.split_at_mut(count);
                self.xorr.munge_in_place(filled);
                Ok(count)
            },
            Err(e) => {
                let _ = self.xorr.cursor();
                Err(e)
            },
        }
    }
}

impl<'a, W> Writer<'a, W> {
    /// The keystream of the adapter's engine.
    pub closed spec fn engine(&self) -> Keystream {
        self.xorr@
    }

    /// The sink.
    pub closed spec fn sink(&self) -> W {
        self.writer
    }

    /// The sink, to write to and to flush. The engine stays as it is.
    pub fn get_mut(&mut self) -> (sink: &mut W)
        ensures
            *sink == old(self).sink(),
            final(self).sink() == *final(sink),
            final(self).engine() == old(self).engine(),
    {
        &mut self.writer
    }

    /// Prepares a write: returns the transformed copy of `buf` that is to be
    /// handed to the sink. `buf` itself is only read.
    ///
    /// The cursor moves on by the whole length of `buf`, and stays there even if
    /// the sink then accepts fewer bytes than it was offered.
    pub fn before_write(&mut self, buf: &[u8]) -> (staged: Vec<u8>)
        ensures
            staged@ == old(self).engine().apply(buf@),
            staged@.len() == buf@.len(),
            final(self).engine() == old(self).engine().advance(buf@.len()),
            final(self).engine().wf(),
            final(self).sink() == old(self).sink(),
    {
        let mut staged = slice_to_vec(buf);
        self.xorr.munge_in_place(staged.as_mut_slice());
        staged
    }
}

} // verus!
