//! Byte buffers: a fixed-size buffer, the buffer of an HTTP request, and the
//! buffer of an HTTP response with its queue of output instructions.
use vstd::prelude::*;

verus! {

/// A fixed-size byte buffer, such as a buffer pool hands out for one
/// connection; the bytes in `position..end` are the data held, and writes
/// go after them into the room left.
pub struct Buffer {
    memory: Vec<u8>,
    position: usize,
    end: usize,
}

impl Buffer {
    #[verifier::type_invariant]
    spec fn well_formed(&self) -> bool {
        self.position <= self.end <= self.memory@.len()
    }

    /// The data held.
    pub closed spec fn spec_data(&self) -> Seq<u8> {
        self.memory@.subrange(self.position as int, self.end as int)
    }

    /// Room left after the data.
    pub closed spec fn spec_space(&self) -> nat {
        (self.memory@.len() - self.end) as nat
    }

    pub closed spec fn spec_capacity(&self) -> nat {
        self.memory@.len()
    }

    /// An empty buffer of `capacity` bytes.
    pub fn with_capacity(capacity: usize) -> (r: Buffer)
        ensures
            r.spec_data() == Seq::<u8>::empty(),
            r.spec_space() == capacity,
            r.spec_capacity() == capacity,
    {
        let memory: Vec<u8> = vec![0u8; capacity];
        let r = Buffer { memory, position: 0, end: 0 };
        assert(r.spec_data() =~= Seq::<u8>::empty());
        r
    }

    pub fn data(&self) -> (r: &[u8])
        ensures
            r@ == self.spec_data(),
    {
        proof {
            use_type_invariant(self);
        }
        &self.memory.as_slice()[self.position..self.end]
    }

    pub fn available_data(&self) -> (r: usize)
        ensures
            r == self.spec_data().len(),
    {
        proof {
            use_type_invariant(self);
        }
        self.end - self.position
    }

    pub fn available_space(&self) -> (r: usize)
        ensures
            r == self.spec_space(),
    {
        proof {
            use_type_invariant(self);
        }
        self.memory.len() - self.end
    }

    /// Appends as much of `data` as there is room for; returns how much.
    pub fn write(&mut self, data: &[u8]) -> (r: usize)
        ensures
            r == if data@.len() <= old(self).spec_space() {
                data@.len()
            } else {
                old(self).spec_space()
            },
            final(self).spec_data() == old(self).spec_data() + data@.subrange(0, r as int),
            final(self).spec_space() == old(self).spec_space() - r,
            final(self).spec_capacity() == old(self).spec_capacity(),
    {
        proof {
            use_type_invariant(&*self);
        }
        let space = self.memory.len() - self.end;
        let cnt = if data.len() <= space {
            data.len()
        } else {
            space
        };
        let ghost old_memory = self.memory@;
        let start = self.end;
        let mut i: usize = 0;
        while i < cnt
            invariant
                i <= cnt <= data@.len(),
                start == self.end,
                start + cnt <= self.memory.len(),
                self.memory@.len() == old_memory.len(),
                self.position <= self.end <= self.memory@.len(),
                self.position == old(self).position,
                start == old(self).end,
                forall|k: int| 0 <= k < start ==> self.memory@[k] == old_memory[k],
                forall|k: int| 0 <= k < i ==> self.memory@[start + k] == data@[k],
            decreases cnt - i,
        {
            self.memory[start + i] = data[i];
            i = i + 1;
        }
        self.end = start + cnt;
        assert(self.spec_data() =~= old(self).spec_data() + data@.subrange(0, cnt as int));
        cnt
    }

    /// Empties the buffer.
    pub fn reset(&mut self)
        ensures
            final(self).spec_data() == Seq::<u8>::empty(),
            final(self).spec_space() == old(self).spec_capacity(),
            final(self).spec_capacity() == old(self).spec_capacity(),
    {
        proof {
            use_type_invariant(&*self);
        }
        self.position = 0;
        self.end = 0;
        assert(self.spec_data() =~= Seq::<u8>::empty());
    }
}


/// Where the unparsed bytes start in `data`, whose first byte is at
/// `buffer_position` in the stream, once `parsed_position` bytes of the
/// stream were parsed.
pub open spec fn unparsed_start(data_len: nat, buffer_position: usize, parsed_position: usize) -> int {
    if data_len <= parsed_position - buffer_position {
        data_len as int
    } else {
        parsed_position - buffer_position
    }
}

/// The buffer of an HTTP request, with how far it was parsed.
pub struct HttpBuffer {
    /// Position in the stream of the first byte of the buffer.
    pub buffer_position: usize,
    /// Position in the stream up to which the data was parsed.
    pub parsed_position: usize,
    pub start_parsing_position: usize,
    pub buffer: Buffer,
}

impl HttpBuffer {
    /// The bytes of the buffer that are not parsed yet.
    pub open spec fn spec_unparsed(&self) -> Seq<u8> {
        let d = self.buffer.spec_data();
        d.subrange(unparsed_start(d.len(), self.buffer_position, self.parsed_position), d.len() as int)
    }

    pub fn with_buffer(buffer: Buffer) -> (r: HttpBuffer)
        ensures
            r.buffer_position == 0,
            r.parsed_position == 0,
            r.start_parsing_position == 0,
            r.buffer == buffer,
    {
        HttpBuffer { buffer_position: 0, parsed_position: 0, start_parsing_position: 0, buffer }
    }

    /// What holds of the positions: the parsed position is never before the
    /// start of the buffer.
    pub fn check_invariant(&self)
        requires
            self.buffer_position <= self.parsed_position,
    {
    }

    pub fn unparsed_data(&self) -> (r: &[u8])
        requires
            self.buffer_position <= self.parsed_position,
        ensures
            r@ == self.spec_unparsed(),
    {
        let data = self.buffer.data();
        let offset = self.parsed_position - self.buffer_position;
        let start = if data.len() <= offset {
            data.len()
        } else {
            offset
        };
        &data[start..data.len()]
    }

    pub fn consume_parsed_data(&mut self, size: usize)
        requires
            old(self).parsed_position + size <= usize::MAX,
        ensures
            final(self).parsed_position == old(self).parsed_position + size,
            final(self).buffer_position == old(self).buffer_position,
            final(self).start_parsing_position == old(self).start_parsing_position,
            final(self).buffer == old(self).buffer,
    {
        self.parsed_position = self.parsed_position + size;
    }

    /// Appends what fits of `buf` to the buffer; returns how much.
    pub fn write(&mut self, buf: &[u8]) -> (r: usize)
        ensures
            r == if buf@.len() <= old(self).buffer.spec_space() {
                buf@.len()
            } else {
                old(self).buffer.spec_space()
            },
            final(self).buffer.spec_data() == old(self).buffer.spec_data() + buf@.subrange(0, r as int),
            final(self).buffer.spec_space() == old(self).buffer.spec_space() - r,
            final(self).buffer.spec_capacity() == old(self).buffer.spec_capacity(),
            final(self).buffer_position == old(self).buffer_position,
            final(self).parsed_position == old(self).parsed_position,
            final(self).start_parsing_position == old(self).start_parsing_position,
    {
        self.buffer.write(buf)
    }

    /// Makes the buffer empty and unparsed, for another use.
    pub fn reset(&mut self)
        ensures
            final(self).buffer_position == 0,
            final(self).parsed_position == 0,
            final(self).start_parsing_position == 0,
            final(self).buffer.spec_data() == Seq::<u8>::empty(),
            final(self).buffer.spec_space() == old(self).buffer.spec_capacity(),
            final(self).buffer.spec_capacity() == old(self).buffer.spec_capacity(),
    {
        self.parsed_position = 0;
        self.buffer_position = 0;
        self.start_parsing_position = 0;
        self.buffer.reset();
    }
}

/// A request buffer of `capacity` bytes, empty and unparsed.
pub fn http_buf_with_capacity(capacity: usize) -> (r: HttpBuffer)
    ensures
        r.buffer_position == 0,
        r.parsed_position == 0,
        r.start_parsing_position == 0,
        r.buffer.spec_data() == Seq::<u8>::empty(),
        r.buffer.spec_space() == capacity,
        r.buffer.spec_capacity() == capacity,
        r.spec_unparsed() == Seq::<u8>::empty(),
{
    let r = HttpBuffer::with_buffer(Buffer::with_capacity(capacity));
    assert(r.spec_unparsed() =~= Seq::<u8>::empty());
    r
}

/// An instruction on what to send out of a response buffer.
#[derive(Debug, Clone, PartialEq)]
pub enum OutputElement {
    /// Send the next bytes of the buffer.
    Slice(usize),
    /// Skip the next bytes of the buffer.
    Delete(usize),
    /// Send these bytes.
    Insert(Vec<u8>),
}

/// Mathematical model of an [`OutputElement`].
pub enum OutputElementV {
    Slice(usize),
    Delete(usize),
    Insert(Seq<u8>),
}

impl View for OutputElement {
    type V = OutputElementV;

    open spec fn view(&self) -> OutputElementV {
        match self {
            OutputElement::Slice(n) => OutputElementV::Slice(*n),
            OutputElement::Delete(n) => OutputElementV::Delete(*n),
            OutputElement::Insert(v) => OutputElementV::Insert(v@),
        }
    }
}

/// The buffer of an HTTP response, with how far it was parsed and the queue
/// of what is to be sent out of it: bytes of the buffer to hand on or to
/// drop, and bytes of the proxy's own to insert between them.
pub struct BufferQueue {
    /// Position in the stream of the first byte of the buffer.
    pub buffer_position: usize,
    /// Position in the stream up to which the data was parsed.
    pub parsed_position: usize,
    /// Position in the stream from which parsing resumes.
    pub start_parsing_position: usize,
    pub buffer: Buffer,
    pub output_queue: Vec<OutputElement>,
}

/// Mathematical model of a [`BufferQueue`].
pub struct BufferQueueV {
    pub buffer_position: usize,
    pub parsed_position: usize,
    pub start_parsing_position: usize,
    pub data: Seq<u8>,
    /// Room left in the buffer after its data.
    pub space: nat,
    pub capacity: nat,
    pub output: Seq<OutputElementV>,
}

impl View for BufferQueue {
    type V = BufferQueueV;

    open spec fn view(&self) -> BufferQueueV {
        BufferQueueV {
            buffer_position: self.buffer_position,
            parsed_position: self.parsed_position,
            start_parsing_position: self.start_parsing_position,
            data: self.buffer.spec_data(),
            space: self.buffer.spec_space(),
            capacity: self.buffer.spec_capacity(),
            output: self.output_queue@.map_values(|e: OutputElement| e@),
        }
    }
}

impl BufferQueueV {
    pub open spec fn wf(self) -> bool {
        self.buffer_position <= self.parsed_position
    }

    pub open spec fn unparsed_start(self) -> int {
        unparsed_start(self.data.len(), self.buffer_position, self.parsed_position)
    }

    /// The bytes of the buffer that are not parsed yet.
    pub open spec fn unparsed(self) -> Seq<u8> {
        self.data.subrange(self.unparsed_start(), self.data.len() as int)
    }

    /// Marks `n` more bytes as parsed; `None` where the position would overflow.
    pub open spec fn consume(self, n: usize) -> Option<BufferQueueV> {
        if self.parsed_position + n > usize::MAX {
            None
        } else {
            let p = (self.parsed_position + n) as usize;
            Some(
                BufferQueueV {
                    parsed_position: p,
                    start_parsing_position: if self.start_parsing_position < p {
                        p
                    } else {
                        self.start_parsing_position
                    },
                    ..self
                },
            )
        }
    }

    pub open spec fn push(self, e: OutputElementV) -> BufferQueueV {
        BufferQueueV { output: self.output.push(e), ..self }
    }
}

impl BufferQueue {
    pub fn with_buffer(buffer: Buffer) -> (r: BufferQueue)
        ensures
            r@ == (BufferQueueV {
                buffer_position: 0,
                parsed_position: 0,
                start_parsing_position: 0,
                data: buffer.spec_data(),
                space: buffer.spec_space(),
                capacity: buffer.spec_capacity(),
                output: Seq::empty(),
            }),
    {
        let r = BufferQueue {
            buffer_position: 0,
            parsed_position: 0,
            start_parsing_position: 0,
            buffer,
            output_queue: Vec::new(),
        };
        assert(r@.output =~= Seq::<OutputElementV>::empty());
        r
    }

    /// Appends what fits of `data` to the buffer; returns how much.
    pub fn write(&mut self, data: &[u8]) -> (r: usize)
        ensures
            r == if data@.len() <= old(self).buffer.spec_space() {
                data@.len()
            } else {
                old(self).buffer.spec_space()
            },
            final(self)@ == (BufferQueueV {
                data: old(self)@.data + data@.subrange(0, r as int),
                space: (old(self)@.space - r) as nat,
                ..old(self)@
            }),
    {
        self.buffer.write(data)
    }

    pub fn unparsed_data(&self) -> (r: &[u8])
        requires
            self@.wf(),
        ensures
            r@ == self@.unparsed(),
    {
        let data = self.buffer.data();
        let offset = self.parsed_position - self.buffer_position;
        let start = if data.len() <= offset {
            data.len()
        } else {
            offset
        };
        &data[start..data.len()]
    }

    /// How many bytes of the buffer are not parsed yet.
    pub fn available_input_data(&self) -> (r: usize)
        requires
            self@.wf(),
        ensures
            r == self@.unparsed().len(),
    {
        let len = self.buffer.available_data();
        let offset = self.parsed_position - self.buffer_position;
        if len <= offset {
            0
        } else {
            len - offset
        }
    }

    pub fn consume_parsed_data(&mut self, size: usize)
        requires
            old(self)@.consume(size) is Some,
        ensures
            final(self)@ == old(self)@.consume(size)->0,
            final(self).buffer == old(self).buffer,
    {
        self.parsed_position = self.parsed_position + size;
        if self.start_parsing_position < self.parsed_position {
            self.start_parsing_position = self.parsed_position;
        }
    }

    fn push_output(&mut self, e: OutputElement)
        ensures
            final(self)@ == old(self)@.push(e@),
            final(self).buffer == old(self).buffer,
    {
        self.output_queue.push(e);
        assert(self.output_queue@.map_values(|e: OutputElement| e@) =~= old(
            self,
        ).output_queue@.map_values(|e: OutputElement| e@).push(e@));
    }

    /// Sends these bytes before what follows.
    pub fn insert_output(&mut self, v: Vec<u8>)
        ensures
            final(self)@ == old(self)@.push(OutputElementV::Insert(v@)),
            final(self).buffer == old(self).buffer,
    {
        self.push_output(OutputElement::Insert(v));
    }

    /// Sends the next `count` bytes of the buffer.
    pub fn slice_output(&mut self, count: usize)
        ensures
            final(self)@ == old(self)@.push(OutputElementV::Slice(count)),
            final(self).buffer == old(self).buffer,
    {
        self.push_output(OutputElement::Slice(count));
    }

    /// Skips the next `count` bytes of the buffer.
    pub fn delete_output(&mut self, count: usize)
        ensures
            final(self)@ == old(self)@.push(OutputElementV::Delete(count)),
            final(self).buffer == old(self).buffer,
    {
        self.push_output(OutputElement::Delete(count));
    }
}

/// What is written to a buffer whose parsed part lies within its data is
/// read back at the end of its unparsed data.
pub proof fn law_written_data_is_unparsed(before: HttpBuffer, after: HttpBuffer, written: Seq<u8>)
    requires
        before.buffer_position <= before.parsed_position,
        before.parsed_position - before.buffer_position <= before.buffer.spec_data().len(),
        after.buffer_position == before.buffer_position,
        after.parsed_position == before.parsed_position,
        after.buffer.spec_data() == before.buffer.spec_data() + written,
    ensures
        after.spec_unparsed() == before.spec_unparsed() + written,
{
    assert(after.spec_unparsed() =~= before.spec_unparsed() + written);
}

/// Marking `n` bytes as parsed takes exactly those bytes off the front of
/// the unparsed data.
pub proof fn law_consumed_data_leaves(before: HttpBuffer, after: HttpBuffer, n: usize)
    requires
        before.buffer_position <= before.parsed_position,
        n <= before.spec_unparsed().len(),
        after.buffer_position == before.buffer_position,
        after.parsed_position == before.parsed_position + n,
        after.buffer.spec_data() == before.buffer.spec_data(),
    ensures
        after.spec_unparsed() == before.spec_unparsed().subrange(n as int, before.spec_unparsed().len() as int),
{
    assert(after.spec_unparsed() =~= before.spec_unparsed().subrange(
        n as int,
        before.spec_unparsed().len() as int,
    ));
}

/// The same for a response buffer: consuming `n` unparsed bytes takes them
/// off the front of its unparsed data, and leaves its data and output alone.
pub proof fn law_queue_consumed_data_leaves(q: BufferQueueV, n: usize)
    requires
        q.wf(),
        n <= q.unparsed().len(),
        q.parsed_position + n <= usize::MAX,
    ensures
        q.consume(n) matches Some(r) && r.unparsed() == q.unparsed().subrange(n as int, q.unparsed().len() as int)
            && r.data == q.data && r.output == q.output && r.wf(),
{
    let r = q.consume(n)->0;
    assert(r.unparsed() =~= q.unparsed().subrange(n as int, q.unparsed().len() as int));
}

} // verus!
