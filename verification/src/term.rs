use vstd::prelude::*;

verus! {

/// How standard output is written: straight to the terminal, or kept in a
/// buffer.
#[derive(Clone, Copy, Debug, PartialEq, Eq)]
pub enum WriteMode {
    Immediate,
    Buffered,
}

/// Standard output. In buffered mode the bytes stay in `buffer`; in
/// immediate mode they wait in `pending` for the caller to send to the
/// terminal.
pub struct Stdout {
    pub mode: WriteMode,
    pub buffer: Vec<u8>,
    pub pending: Vec<u8>,
}

pub struct StdoutV {
    pub mode: WriteMode,
    pub buffer: Seq<u8>,
    pub pending: Seq<u8>,
}

impl View for Stdout {
    type V = StdoutV;

    open spec fn view(&self) -> StdoutV {
        StdoutV { mode: self.mode, buffer: self.buffer@, pending: self.pending@ }
    }
}

/// `out` after writing `bytes`.
pub open spec fn written(out: StdoutV, bytes: Seq<u8>) -> StdoutV {
    match out.mode {
        WriteMode::Buffered => StdoutV { buffer: out.buffer + bytes, ..out },
        WriteMode::Immediate => StdoutV { pending: out.pending + bytes, ..out },
    }
}

fn append_bytes(out: &mut Vec<u8>, v: &[u8])
    ensures
        final(out)@ == old(out)@ + v@,
{
    let mut i: usize = 0;
    while i < v.len()
        invariant
            i <= v@.len(),
            out@ == old(out)@ + v@.take(i as int),
        decreases v@.len() - i,
    {
        out.push(v[i]);
        proof {
            assert(v@.take(i + 1) =~= v@.take(i as int).push(v@[i as int]));
        }
        i = i + 1;
    }
    proof {
        assert(v@.take(i as int) =~= v@);
    }
}

impl Stdout {
    pub fn new(mode: WriteMode) -> (s: Stdout)
        ensures
            s@.mode == mode,
            s@.buffer.len() == 0,
            s@.pending.len() == 0,
    {
        Stdout { mode, buffer: Vec::new(), pending: Vec::new() }
    }

    /// Writes all of `bytes`.
    pub fn write_all(&mut self, bytes: &[u8])
        ensures
            final(self)@ == written(old(self)@, bytes@),
    {
        match self.mode {
            WriteMode::Buffered => append_bytes(&mut self.buffer, bytes),
            WriteMode::Immediate => append_bytes(&mut self.pending, bytes),
        }
    }

    /// What buffered mode has kept so far.
    pub fn buffer(&self) -> (b: &[u8])
        ensures
            b@ == self@.buffer,
    {
        self.buffer.as_slice()
    }

    /// Hands over the bytes that wait for the terminal, leaving none.
    pub fn take_pending(&mut self) -> (b: Vec<u8>)
        ensures
            b@ == old(self)@.pending,
            final(self)@ == (StdoutV { pending: Seq::empty(), ..old(self)@ }),
    {
        let mut b: Vec<u8> = Vec::new();
        std::mem::swap(&mut b, &mut self.pending);
        b
    }
}

} // verus!
