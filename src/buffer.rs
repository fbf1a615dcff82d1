//! A growable byte buffer with a read cursor.
//!
//! Writes append at the end; reads consume from the cursor onwards and fail
//! with [`CodecError::Underflow`] rather than run past the written bytes.
use vstd::prelude::*;

use crate::error::CodecError;
use crate::wire::{
    be_bytes, be_value, bool_bytes, bool_of_bytes, fits_signed, int_bytes, int_of_bytes,
    lemma_be_value_bound, lemma_int_of_bytes_fits, lemma_pow256_mono, lemma_pow256_values,
    pow256, twos,
};

verus! {

/// The bytes written so far, and how many of them have been read.
pub struct ByteBuffer {
    data: Vec<u8>,
    read_pos: usize,
}

/// `256` to the power `n`, for `n` of at most eight bytes.
fn modulus(n: usize) -> (r: u128)
    requires
        n <= 8,
    ensures
        r == pow256(n as nat),
{
    let mut r: u128 = 1;
    let mut i: usize = 0;
    while i < n
        invariant
            i <= n <= 8,
            r == pow256(i as nat),
        decreases n - i,
    {
        proof {
            lemma_pow256_mono((i + 1) as nat, 8);
            lemma_pow256_values();
        }
        r = r * 256;
        i = i + 1;
    }
    r
}

impl ByteBuffer {
    /// Every byte written so far, read or not.
    pub closed spec fn bytes(&self) -> Seq<u8> {
        self.data@
    }

    /// How many of the bytes have been read.
    pub closed spec fn position(&self) -> nat {
        self.read_pos as nat
    }

    /// The read cursor never passes the written bytes.
    pub open spec fn wf(&self) -> bool {
        self.position() <= self.bytes().len()
    }

    /// The bytes that the next reads will consume.
    pub open spec fn unread(&self) -> Seq<u8> {
        self.bytes().skip(self.position() as int)
    }

    /// An empty buffer.
    pub fn new() -> (r: ByteBuffer)
        ensures
            r.wf(),
            r.bytes() == Seq::<u8>::empty(),
            r.position() == 0,
    {
        ByteBuffer { data: Vec::new(), read_pos: 0 }
    }

    /// A buffer holding `data`, with nothing read yet.
    pub fn from_bytes(data: Vec<u8>) -> (r: ByteBuffer)
        ensures
            r.wf(),
            r.bytes() == data@,
            r.position() == 0,
    {
        ByteBuffer { data, read_pos: 0 }
    }

    /// Every byte written so far, read or not.
    pub fn as_slice(&self) -> (r: &[u8])
        ensures
            r@ == self.bytes(),
    {
        self.data.as_slice()
    }

    /// The number of bytes written so far.
    pub fn len(&self) -> (r: usize)
        ensures
            r == self.bytes().len(),
    {
        self.data.len()
    }

    /// The number of bytes already read.
    pub fn read_position(&self) -> (r: usize)
        ensures
            r == self.position(),
    {
        self.read_pos
    }

    /// The number of bytes not read yet.
    pub fn remaining(&self) -> (r: usize)
        requires
            self.wf(),
        ensures
            r == self.unread().len(),
    {
        self.data.len() - self.read_pos
    }

    /// Appends the low `n` base-256 digits of `u`, most significant first.
    fn push_unsigned(&mut self, u: u64, n: usize)
        requires
            n <= 8,
        ensures
            final(self).bytes() == old(self).bytes() + be_bytes(u as nat, n as nat),
            final(self).position() == old(self).position(),
    {
        let mut tail: Vec<u8> = Vec::new();
        let mut rest: u64 = u;
        let mut i: usize = 0;
        while i < n
            invariant
                i <= n,
                be_bytes(u as nat, n as nat) == be_bytes(rest as nat, (n - i) as nat) + tail@,
            decreases n - i,
        {
            let ghost old_tail = tail@;
            tail.insert(0, (rest % 256) as u8);
            assert(be_bytes(rest as nat, (n - i) as nat) + old_tail =~= be_bytes(
                (rest / 256) as nat,
                (n - i - 1) as nat,
            ) + tail@);
            rest = rest / 256;
            i = i + 1;
        }
        assert(be_bytes(rest as nat, 0) + tail@ =~= tail@);
        self.data.append(&mut tail);
    }

    /// Consumes `n` bytes and returns the number they spell in base 256.
    fn take_unsigned(&mut self, n: usize) -> (r: u64)
        requires
            old(self).wf(),
            n <= 8,
            n <= old(self).unread().len(),
        ensures
            final(self).wf(),
            r == be_value(old(self).unread().take(n as int)),
            final(self).bytes() == old(self).bytes(),
            final(self).position() == old(self).position() + n,
    {
        let start = self.read_pos;
        let len = self.data.len();
        let mut acc: u64 = 0;
        let mut i: usize = 0;
        while i < n
            invariant
                i <= n <= 8,
                start + n <= len,
                len == self.data@.len(),
                acc == be_value(self.data@.subrange(start as int, start + i)),
            decreases n - i,
        {
            let ghost prev = self.data@.subrange(start as int, start + i);
            let b = self.data[start + i];
            proof {
                let next = self.data@.subrange(start as int, start + i + 1);
                assert(next.drop_last() =~= prev);
                lemma_be_value_bound(next);
                lemma_pow256_mono((i + 1) as nat, 8);
                lemma_pow256_values();
            }
            acc = acc * 256 + b as u64;
            i = i + 1;
        }
        assert(self.data@.subrange(start as int, start + n) =~= old(self).unread().take(n as int));
        self.read_pos = start + n;
        acc
    }

    /// Appends `x` as `n` big-endian two's-complement bytes.
    fn push_signed(&mut self, x: i64, n: usize)
        requires
            1 <= n <= 8,
            fits_signed(x as int, n as nat),
        ensures
            final(self).bytes() == old(self).bytes() + int_bytes(x as int, n as nat),
            final(self).position() == old(self).position(),
    {
        let m = modulus(n);
        proof {
            lemma_pow256_mono(n as nat, 8);
            lemma_pow256_values();
        }
        let u: u64 = if x >= 0 {
            x as u64
        } else {
            (x as i128 + m as i128) as u64
        };
        assert(u == twos(x as int, n as nat));
        self.push_unsigned(u, n);
    }

    /// Consumes `n` big-endian two's-complement bytes and returns their value.
    fn take_signed(&mut self, n: usize) -> (r: i64)
        requires
            old(self).wf(),
            1 <= n <= 8,
            n <= old(self).unread().len(),
        ensures
            final(self).wf(),
            r == int_of_bytes(old(self).unread().take(n as int)),
            final(self).bytes() == old(self).bytes(),
            final(self).position() == old(self).position() + n,
    {
        let m = modulus(n);
        let u = self.take_unsigned(n);
        proof {
            lemma_be_value_bound(old(self).unread().take(n as int));
            lemma_pow256_mono(n as nat, 8);
            lemma_pow256_mono(1, n as nat);
            lemma_pow256_values();
        }
        if (u as u128) < m / 2 {
            u as i64
        } else {
            (u as i128 - m as i128) as i64
        }
    }

    /// Consumes `n` signed bytes, or reports an underflow and consumes nothing.
    fn read_signed(&mut self, n: usize) -> (r: Result<i64, CodecError>)
        requires
            old(self).wf(),
            1 <= n <= 8,
        ensures
            final(self).wf(),
            final(self).bytes() == old(self).bytes(),
            match r {
                Ok(v) => n <= old(self).unread().len() && v == int_of_bytes(
                    old(self).unread().take(n as int),
                ) && final(self).position() == old(self).position() + n,
                Err(e) => n > old(self).unread().len() && e == CodecError::Underflow
                    && final(self).position() == old(self).position(),
            },
    {
        if self.remaining() < n {
            Err(CodecError::Underflow)
        } else {
            Ok(self.take_signed(n))
        }
    }

    /// Appends one byte: `1` for true, `0` for false.
    pub fn write_bool(&mut self, b: bool)
        ensures
            final(self).bytes() == old(self).bytes() + bool_bytes(b),
            final(self).position() == old(self).position(),
    {
        self.data.push(if b { 1u8 } else { 0u8 });
        assert(final(self).bytes() =~= old(self).bytes() + bool_bytes(b));
    }

    /// Consumes one byte; any byte but `0` reads as true.
    pub fn read_bool(&mut self) -> (r: Result<bool, CodecError>)
        requires
            old(self).wf(),
        ensures
            final(self).wf(),
            final(self).bytes() == old(self).bytes(),
            match r {
                Ok(v) => 1 <= old(self).unread().len() && v == bool_of_bytes(
                    old(self).unread().take(1),
                ) && final(self).position() == old(self).position() + 1,
                Err(e) => old(self).unread().len() < 1 && e == CodecError::Underflow
                    && final(self).position() == old(self).position(),
            },
    {
        if self.remaining() < 1 {
            Err(CodecError::Underflow)
        } else {
            let len = self.data.len();
            let b = self.data[self.read_pos];
            assert(self.read_pos < len);
            self.read_pos = self.read_pos + 1;
            Ok(b != 0)
        }
    }

    /// Appends a signed byte.
    pub fn write_byte(&mut self, v: i8)
        ensures
            final(self).bytes() == old(self).bytes() + int_bytes(v as int, 1),
            final(self).position() == old(self).position(),
    {
        proof {
            lemma_pow256_values();
        }
        self.push_signed(v as i64, 1);
    }

    /// Consumes a signed byte.
    pub fn read_byte(&mut self) -> (r: Result<i8, CodecError>)
        requires
            old(self).wf(),
        ensures
            final(self).wf(),
            final(self).bytes() == old(self).bytes(),
            match r {
                Ok(v) => 1 <= old(self).unread().len() && v == int_of_bytes(
                    old(self).unread().take(1),
                ) && final(self).position() == old(self).position() + 1,
                Err(e) => old(self).unread().len() < 1 && e == CodecError::Underflow
                    && final(self).position() == old(self).position(),
            },
    {
        match self.read_signed(1) {
            Ok(v) => {
                proof {
                    lemma_int_of_bytes_fits(old(self).unread().take(1));
                    lemma_pow256_values();
                }
                Ok(v as i8)
            },
            Err(e) => Err(e),
        }
    }

    /// Appends a 16-bit signed integer, big-endian.
    pub fn write_short(&mut self, v: i16)
        ensures
            final(self).bytes() == old(self).bytes() + int_bytes(v as int, 2),
            final(self).position() == old(self).position(),
    {
        proof {
            lemma_pow256_values();
        }
        self.push_signed(v as i64, 2);
    }

    /// Consumes a 16-bit signed integer, big-endian.
    pub fn read_short(&mut self) -> (r: Result<i16, CodecError>)
        requires
            old(self).wf(),
        ensures
            final(self).wf(),
            final(self).bytes() == old(self).bytes(),
            match r {
                Ok(v) => 2 <= old(self).unread().len() && v == int_of_bytes(
                    old(self).unread().take(2),
                ) && final(self).position() == old(self).position() + 2,
                Err(e) => old(self).unread().len() < 2 && e == CodecError::Underflow
                    && final(self).position() == old(self).position(),
            },
    {
        match self.read_signed(2) {
            Ok(v) => {
                proof {
                    lemma_int_of_bytes_fits(old(self).unread().take(2));
                    lemma_pow256_values();
                }
                Ok(v as i16)
            },
            Err(e) => Err(e),
        }
    }

    /// Appends a 32-bit signed integer, big-endian.
    pub fn write_int(&mut self, v: i32)
        ensures
            final(self).bytes() == old(self).bytes() + int_bytes(v as int, 4),
            final(self).position() == old(self).position(),
    {
        proof {
            lemma_pow256_values();
        }
        self.push_signed(v as i64, 4);
    }

    /// Consumes a 32-bit signed integer, big-endian.
    pub fn read_int(&mut self) -> (r: Result<i32, CodecError>)
        requires
            old(self).wf(),
        ensures
            final(self).wf(),
            final(self).bytes() == old(self).bytes(),
            match r {
                Ok(v) => 4 <= old(self).unread().len() && v == int_of_bytes(
                    old(self).unread().take(4),
                ) && final(self).position() == old(self).position() + 4,
                Err(e) => old(self).unread().len() < 4 && e == CodecError::Underflow
                    && final(self).position() == old(self).position(),
            },
    {
        match self.read_signed(4) {
            Ok(v) => {
                proof {
                    lemma_int_of_bytes_fits(old(self).unread().take(4));
                    lemma_pow256_values();
                }
                Ok(v as i32)
            },
            Err(e) => Err(e),
        }
    }

    /// Appends a 64-bit signed integer, big-endian.
    pub fn write_long(&mut self, v: i64)
        ensures
            final(self).bytes() == old(self).bytes() + int_bytes(v as int, 8),
            final(self).position() == old(self).position(),
    {
        proof {
            lemma_pow256_values();
        }
        self.push_signed(v, 8);
    }

    /// Consumes a 64-bit signed integer, big-endian.
    pub fn read_long(&mut self) -> (r: Result<i64, CodecError>)
        requires
            old(self).wf(),
        ensures
            final(self).wf(),
            final(self).bytes() == old(self).bytes(),
            match r {
                Ok(v) => 8 <= old(self).unread().len() && v == int_of_bytes(
                    old(self).unread().take(8),
                ) && final(self).position() == old(self).position() + 8,
                Err(e) => old(self).unread().len() < 8 && e == CodecError::Underflow
                    && final(self).position() == old(self).position(),
            },
    {
        self.read_signed(8)
    }
}

} // verus!
