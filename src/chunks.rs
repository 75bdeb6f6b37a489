//! Chunks of an output file: which lines went to which bytes.
use vstd::prelude::*;

verus! {

/// Lines `r.0 ..= r.1` of the output were written to bytes `b.0 .. b.1`
/// (`b.1` is one past the chunk's last byte).
#[derive(Debug, Clone, Copy, PartialEq, Eq)]
pub struct Chunk {
    pub r: (usize, usize),
    pub b: (usize, usize),
}

/// Groups written lines into chunks of `chunk_size` lines.
#[derive(Debug, Clone, PartialEq, Eq)]
pub struct ChunkFactory {
    pub chunk_size: usize,
    pub current_byte_index: usize,
    pub lines_in_chunk: usize,
    pub bytes_in_chunk: usize,
}

impl ChunkFactory {
    pub open spec fn new_spec(chunk_size: usize, current_byte_index: usize) -> Self {
        ChunkFactory { chunk_size, current_byte_index, lines_in_chunk: 0, bytes_in_chunk: 0 }
    }

    /// A factory whose first chunk starts at output byte `current_byte_index`.
    pub fn new(chunk_size: usize, current_byte_index: usize) -> (r: Self)
        ensures
            r == Self::new_spec(chunk_size, current_byte_index),
    {
        ChunkFactory { chunk_size, current_byte_index, lines_in_chunk: 0, bytes_in_chunk: 0 }
    }

    /// Records one more line of `added_bytes` bytes; `current_line_nr` is the
    /// number of lines written so far, this one included. When the chunk
    /// reaches `chunk_size` lines it is returned and a new one begins.
    pub fn add_bytes(&mut self, current_line_nr: usize, added_bytes: usize) -> (c: Option<Chunk>)
        requires
            old(self).lines_in_chunk < current_line_nr,
            old(self).current_byte_index + old(self).bytes_in_chunk + added_bytes <= usize::MAX,
        ensures
            final(self).chunk_size == old(self).chunk_size,
            old(self).lines_in_chunk + 1 >= old(self).chunk_size ==> {
                &&& c == Some(Chunk {
                    r: ((current_line_nr - old(self).lines_in_chunk - 1) as usize, (current_line_nr - 1) as usize),
                    b: (old(self).current_byte_index, (old(self).current_byte_index + old(self).bytes_in_chunk + added_bytes) as usize),
                })
                &&& final(self).current_byte_index == old(self).current_byte_index + old(self).bytes_in_chunk + added_bytes
                &&& final(self).lines_in_chunk == 0
                &&& final(self).bytes_in_chunk == 0
            },
            old(self).lines_in_chunk + 1 < old(self).chunk_size ==> {
                &&& c.is_none()
                &&& final(self).current_byte_index == old(self).current_byte_index
                &&& final(self).lines_in_chunk == old(self).lines_in_chunk + 1
                &&& final(self).bytes_in_chunk == old(self).bytes_in_chunk + added_bytes
            },
    {
        self.lines_in_chunk = self.lines_in_chunk + 1;
        self.bytes_in_chunk = self.bytes_in_chunk + added_bytes;
        if self.lines_in_chunk >= self.chunk_size {
            let end = self.current_byte_index + self.bytes_in_chunk;
            let chunk = Chunk {
                r: (current_line_nr - self.lines_in_chunk, current_line_nr - 1),
                b: (self.current_byte_index, end),
            };
            self.current_byte_index = end;
            self.lines_in_chunk = 0;
            self.bytes_in_chunk = 0;
            Some(chunk)
        } else {
            None
        }
    }

    /// The chunk of the lines not yet in one, if there are any, or an empty
    /// chunk when `create_chunk_anyway` (a run that wrote nothing).
    pub fn create_last_chunk(&mut self, current_line_nr: usize, create_chunk_anyway: bool) -> (c: Option<Chunk>)
        requires
            old(self).lines_in_chunk <= current_line_nr,
            old(self).current_byte_index + old(self).bytes_in_chunk <= usize::MAX,
        ensures
            final(self).chunk_size == old(self).chunk_size,
            old(self).lines_in_chunk > 0 || create_chunk_anyway ==> {
                &&& c == Some(Chunk {
                    r: ((current_line_nr - old(self).lines_in_chunk) as usize,
                        if current_line_nr == 0 { 0usize } else { (current_line_nr - 1) as usize }),
                    b: (old(self).current_byte_index, (old(self).current_byte_index + old(self).bytes_in_chunk) as usize),
                })
                &&& final(self).current_byte_index == old(self).current_byte_index + old(self).bytes_in_chunk
                &&& final(self).lines_in_chunk == 0
                &&& final(self).bytes_in_chunk == 0
            },
            !(old(self).lines_in_chunk > 0 || create_chunk_anyway) ==> c.is_none() && *final(self) == *old(self),
    {
        if self.lines_in_chunk > 0 || create_chunk_anyway {
            let last_line = if current_line_nr == 0 { 0 } else { current_line_nr - 1 };
            let end = self.current_byte_index + self.bytes_in_chunk;
            let chunk = Chunk { r: (current_line_nr - self.lines_in_chunk, last_line), b: (self.current_byte_index, end) };
            self.current_byte_index = end;
            self.lines_in_chunk = 0;
            self.bytes_in_chunk = 0;
            Some(chunk)
        } else {
            None
        }
    }
}

} // verus!
