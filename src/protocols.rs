use vstd::prelude::*;

verus! {

/// Why a byte buffer could not be read as a frame.
#[derive(Debug, PartialEq, Eq, Clone, Copy)]
pub enum ParseError {
    MissingBytes,
    InvalidFieldValue { field: &'static str, value: usize },
}

/// Big-endian bytes of a 16-bit value.
pub open spec fn be16(v: u16) -> Seq<u8> {
    seq![(v / 256) as u8, (v % 256) as u8]
}

/// The 16-bit value of two big-endian bytes.
pub open spec fn be16_value(hi: u8, lo: u8) -> int {
    hi as int * 256 + lo as int
}

/// Big-endian bytes of a 32-bit value.
pub open spec fn be32(v: u32) -> Seq<u8> {
    seq![
        (v / 0x100_0000) as u8,
        ((v / 0x1_0000) % 256) as u8,
        ((v / 256) % 256) as u8,
        (v % 256) as u8,
    ]
}

/// A cursor over a copy of a byte buffer.
pub(crate) struct Parser {
    pub(crate) data: Vec<u8>,
    pub(crate) pos: usize,
}

impl Parser {
    pub(crate) open spec fn wf(&self) -> bool {
        self.pos <= self.data@.len()
    }

    /// The bytes not consumed yet.
    pub(crate) open spec fn rest(&self) -> Seq<u8> {
        self.data@.subrange(self.pos as int, self.data@.len() as int)
    }

    pub(crate) fn build(data: &[u8]) -> (p: Parser)
        ensures
            p.wf(),
            p.rest() == data@,
    {
        let mut copy: Vec<u8> = Vec::new();
        let mut i: usize = 0;
        while i < data.len()
            invariant
                i <= data@.len(),
                copy@ == data@.subrange(0, i as int),
            decreases data@.len() - i,
        {
            copy.push(data[i]);
            i = i + 1;
        }
        assert(copy@ == data@.subrange(0, data@.len() as int));
        Parser { data: copy, pos: 0 }
    }

    /// Takes the next `n` bytes, or fails with `MissingBytes` and consumes nothing.
    pub(crate) fn parse_chunk(&mut self, n: usize) -> (r: Result<Vec<u8>, ParseError>)
        requires
            old(self).wf(),
        ensures
            final(self).wf(),
            n <= old(self).rest().len() ==> r is Ok && r->Ok_0@ == old(self).rest().take(n as int)
                && final(self).rest() == old(self).rest().skip(n as int),
            n > old(self).rest().len() ==> r == Err::<Vec<u8>, ParseError>(ParseError::MissingBytes)
                && final(self).rest() == old(self).rest(),
    {
        if n > self.data.len() - self.pos {
            return Err(ParseError::MissingBytes);
        }
        let mut chunk: Vec<u8> = Vec::new();
        let start = self.pos;
        let mut i: usize = 0;
        while i < n
            invariant
                self.data@ == old(self).data@,
                start == old(self).pos,
                start + n <= self.data@.len() <= usize::MAX,
                i <= n,
                chunk@ == self.data@.subrange(start as int, start + i),
            decreases n - i,
        {
            chunk.push(self.data[start + i]);
            i = i + 1;
        }
        self.pos = start + n;
        assert(chunk@ =~= old(self).rest().take(n as int));
        assert(self.rest() =~= old(self).rest().skip(n as int));
        Ok(chunk)
    }

    pub(crate) fn next_u8(&mut self) -> (r: Option<u8>)
        requires
            old(self).wf(),
        ensures
            final(self).wf(),
            old(self).rest().len() == 0 ==> r is None && final(self).rest() == old(self).rest(),
            old(self).rest().len() > 0 ==> r == Some(old(self).rest()[0])
                && final(self).rest() == old(self).rest().skip(1),
    {
        if self.pos < self.data.len() {
            let b = self.data[self.pos];
            self.pos = self.pos + 1;
            assert(self.rest() =~= old(self).rest().skip(1));
            Some(b)
        } else {
            None
        }
    }

    /// Reads a big-endian 16-bit value.
    pub(crate) fn parse_u16(&mut self) -> (r: Result<u16, ParseError>)
        requires
            old(self).wf(),
        ensures
            final(self).wf(),
            old(self).rest().len() >= 2 ==> r is Ok && r->Ok_0 as int == be16_value(
                old(self).rest()[0],
                old(self).rest()[1],
            ) && final(self).rest() == old(self).rest().skip(2),
            old(self).rest().len() < 2 ==> r == Err::<u16, ParseError>(ParseError::MissingBytes),
    {
        let bytes = self.parse_chunk(2)?;
        let v: u16 = (bytes[0] as u16) * 256 + (bytes[1] as u16);
        Ok(v)
    }

    /// Everything not consumed yet.
    pub(crate) fn collect(self) -> (r: Vec<u8>)
        requires
            self.wf(),
        ensures
            r@ == self.rest(),
    {
        let mut out: Vec<u8> = Vec::new();
        let mut i: usize = self.pos;
        while i < self.data.len()
            invariant
                self.pos <= i <= self.data@.len(),
                out@ == self.data@.subrange(self.pos as int, i as int),
            decreases self.data@.len() - i,
        {
            out.push(self.data[i]);
            i = i + 1;
        }
        out
    }
}

/// Appends the big-endian bytes of `value`.
pub fn write_u16(writer: &mut Vec<u8>, value: u16)
    ensures
        final(writer)@ == old(writer)@ + be16(value),
{
    writer.push((value / 256) as u8);
    writer.push((value % 256) as u8);
    assert(final(writer)@ =~= old(writer)@ + be16(value));
}

/// Appends the big-endian bytes of `value`.
pub fn write_u32(writer: &mut Vec<u8>, value: u32)
    ensures
        final(writer)@ == old(writer)@ + be32(value),
{
    writer.push((value / 0x100_0000) as u8);
    writer.push(((value / 0x1_0000) % 256) as u8);
    writer.push(((value / 256) % 256) as u8);
    writer.push((value % 256) as u8);
    assert(final(writer)@ =~= old(writer)@ + be32(value));
}

/// Appends `data`.
pub fn write_bytes(writer: &mut Vec<u8>, data: &[u8])
    ensures
        final(writer)@ == old(writer)@ + data@,
{
    let ghost start = writer@;
    let mut i: usize = 0;
    while i < data.len()
        invariant
            i <= data@.len(),
            writer@ == start + data@.subrange(0, i as int),
        decreases data@.len() - i,
    {
        writer.push(data[i]);
        i = i + 1;
    }
    assert(data@.subrange(0, data@.len() as int) =~= data@);
}

} // verus!
