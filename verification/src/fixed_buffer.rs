//! A bounded append-only byte buffer for diagnostic text: it accepts UTF-8
//! bytes until an 8 KiB budget is full, and reports overflow to the caller
//! so that output can fall back to the serial channel.
use vstd::prelude::*;
use vstd::string::StringSliceAdditionalSpecFns;

verus! {

pub const BUFFER_SIZE: usize = 8192;

/// A byte buffer that accepts appends up to a fixed total size.
pub struct FixedBuffer {
    contents: Vec<u8>,
}

impl View for FixedBuffer {
    type V = Seq<u8>;

    closed spec fn view(&self) -> Seq<u8> {
        self.contents@
    }
}

impl FixedBuffer {
    pub open spec fn wf(&self) -> bool {
        self@.len() <= BUFFER_SIZE
    }

    /// An empty buffer.
    pub fn new() -> (r: FixedBuffer)
        ensures
            r.wf(),
            r@ == Seq::<u8>::empty(),
    {
        let r = FixedBuffer { contents: Vec::new() };
        proof {
            assert(r@ =~= Seq::<u8>::empty());
        }
        r
    }

    pub fn len(&self) -> (r: usize)
        ensures
            r == self@.len(),
    {
        self.contents.len()
    }

    /// The bytes written so far.
    pub fn as_bytes(&self) -> (r: &[u8])
        ensures
            r@ == self@,
    {
        self.contents.as_slice()
    }

    /// Append the UTF-8 bytes of `s` if they fit in the remaining budget;
    /// report failure and leave the buffer unchanged if they do not.
    pub fn write_str(&mut self, s: &str) -> (ok: bool)
        requires
            old(self).wf(),
        ensures
            final(self).wf(),
            ok <==> old(self)@.len() + s.spec_bytes().len() <= BUFFER_SIZE,
            ok ==> final(self)@ == old(self)@ + s.spec_bytes(),
            !ok ==> final(self)@ == old(self)@,
    {
        let bytes = s.as_bytes();
        if bytes.len() > BUFFER_SIZE - self.contents.len() {
            return false;
        }
        let len = bytes.len();
        let mut k: usize = 0;
        proof {
            assert(self@ =~= old(self)@ + bytes@.take(0));
        }
        while k < len
            invariant
                len == bytes@.len(),
                k <= len,
                bytes@ == s.spec_bytes(),
                self@.len() == old(self)@.len() + k,
                self@.len() <= BUFFER_SIZE,
                old(self)@.len() + len <= BUFFER_SIZE,
                self@ == old(self)@ + bytes@.take(k as int),
            decreases len - k,
        {
            let b = bytes[k];
            self.contents.push(b);
            proof {
                assert(self@ =~= old(self)@ + bytes@.take(k + 1));
            }
            k = k + 1;
        }
        proof {
            assert(old(self)@ + bytes@.take(len as int) =~= old(self)@ + s.spec_bytes());
        }
        true
    }
}

} // verus!
