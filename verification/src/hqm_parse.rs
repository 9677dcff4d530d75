//! Reading and writing the bit-packed messages of the protocol.
use crate::bits::{
    align, align_pos, bit, bits_value, byte_count, bytes_bits, lemma_bits_value_bound,
    lemma_pack_unique, low_bits, pack, pad_bytes, put_bits, put_byte, put_bytes, put_u32,
    stream_bit, stream_bits, stream_byte, stream_value,
};
use vstd::arithmetic::div_mod::lemma_basic_div;
use vstd::arithmetic::power2::{lemma2_to64, lemma_pow2_strictly_increases, lemma_pow2_unfold, pow2};
use vstd::bits::{lemma_u32_shr_is_div, lemma_u8_shr_is_div};
use vstd::prelude::*;

verus! {

/// `s` followed by a coordinate of `n` bits.
///
/// Two bits choose the form. A coordinate close to its old value is sent as the
/// difference, in two's complement, in 3, 6 or 12 bits. Any other is sent whole.
#[verifier::opaque]
pub open spec fn put_pos(s: Seq<bool>, n: nat, v: u32, old_v: Option<u32>) -> Seq<bool> {
    let (tag, width, field) = pos_form(n, v, old_v);
    put_bits(put_bits(s, 2, tag), width, field)
}

/// The form that a coordinate is sent in: the two bits that choose it, the
/// width of the field that follows, and the field.
pub open spec fn pos_form(n: nat, v: u32, old_v: Option<u32>) -> (nat, nat, nat) {
    let whole = (3nat, n, v as nat);
    match old_v {
        Some(o) => {
            let diff = v - o;
            if -4 <= diff <= 3 {
                (0, 3, (diff % 8) as nat)
            } else if -32 <= diff <= 31 {
                (1, 6, (diff % 64) as nat)
            } else if -2048 <= diff <= 2047 {
                (2, 12, (diff % 4096) as nat)
            } else {
                whole
            }
        },
        None => whole,
    }
}

/// Chooses the form that a coordinate is sent in.
fn choose_pos_form(n: u8, v: u32, old_v: Option<u32>) -> (form: (u32, u8, u32))
    requires
        n <= 32,
    ensures
        (form.0 as nat, form.1 as nat, form.2 as nat) == pos_form(n as nat, v, old_v),
        form.1 <= 32,
{
    match old_v {
        Some(o) => {
            let diff: i64 = v as i64 - o as i64;
            if -4 <= diff && diff <= 3 {
                (0, 3, ((diff + 8) % 8) as u32)
            } else if -32 <= diff && diff <= 31 {
                (1, 6, ((diff + 64) % 64) as u32)
            } else if -2048 <= diff && diff <= 2047 {
                (2, 12, ((diff + 4096) % 4096) as u32)
            } else {
                (3, n, v)
            }
        },
        None => (3, n, v),
    }
}

/// A coordinate takes two bits and its field.
pub broadcast proof fn lemma_put_pos_len(s: Seq<bool>, n: nat, v: u32, old_v: Option<u32>)
    ensures
        #[trigger] put_pos(s, n, v, old_v).len() == s.len() + 2 + pos_form(n, v, old_v).1,
{
    reveal(put_pos);
}

/// Writes bits into a buffer of fixed size.
pub struct HQMMessageWriter {
    pub buf: Vec<u8>,
    /// Index of the byte that the next bit goes to.
    pub pos: usize,
    /// Bits of that byte that are already written.
    pub bit_pos: u8,
}

impl HQMMessageWriter {
    /// What has been written so far.
    pub open spec fn bits(self) -> Seq<bool> {
        Seq::new(
            (8 * self.pos + self.bit_pos) as nat,
            |i: int| bit(self.buf@[i / 8] as nat, (i % 8) as nat),
        )
    }

    /// The write position lies within the buffer, and the bits of the current
    /// byte that are not written yet are zero.
    pub open spec fn wf(self) -> bool {
        &&& self.bit_pos < 8
        &&& self.pos <= self.buf@.len()
        &&& self.bit_pos > 0 ==> self.pos < self.buf@.len()
        &&& self.bit_pos > 0 ==> self.buf@[self.pos as int] < pow2(self.bit_pos as nat)
    }

    /// The number of bits that the buffer can hold.
    pub open spec fn capacity(self) -> nat {
        8 * self.buf@.len()
    }

    /// After `pre`, the writer holds `s`. The bytes behind what is written are untouched.
    pub open spec fn wrote(self, pre: Self, s: Seq<bool>) -> bool {
        &&& self.wf()
        &&& self.bits() =~= s
        &&& self.buf@.len() == pre.buf@.len()
        &&& forall|k: int|
            byte_count(s.len()) <= k < pre.buf@.len() ==> #[trigger] self.buf@[k] == pre.buf@[k]
    }

    /// A writer at the start of `buf`.
    pub fn new(buf: Vec<u8>) -> (w: Self)
        ensures
            w.wf(),
            w.buf@ == buf@,
            w.bits() =~= Seq::<bool>::empty(),
    {
        HQMMessageWriter { buf, pos: 0, bit_pos: 0 }
    }

    /// Writes one bit.
    fn write_bit(&mut self, b: bool)
        requires
            old(self).wf(),
            old(self).bits().len() < old(self).capacity(),
        ensures
            final(self).wrote(*old(self), old(self).bits().push(b)),
    {
        let ghost pre = *self;
        let bp: u8 = self.bit_pos;
        let cur: u8 = if bp == 0 {
            0
        } else {
            self.buf[self.pos]
        };
        let add: u8 = if b {
            1
        } else {
            0
        };
        let new: u8 = cur | (add << bp);
        let ghost pos0: int = self.pos as int;
        assert(self.buf.len() <= usize::MAX);
        proof {
            lemma2_to64();
            assert(cur < pow2(bp as nat));
            lemma_set_bit(cur, b, bp);
        }
        self.buf.set(self.pos, new);
        if bp == 7 {
            self.bit_pos = 0;
            self.pos = self.pos + 1;
        } else {
            self.bit_pos = bp + 1;
        }
        proof {
            let s = pre.bits().push(b);
            assert(self.bits().len() == s.len());
            assert forall|i: int| 0 <= i < s.len() implies self.bits()[i] == s[i] by {
                if i / 8 == pos0 {
                    assert(0 <= i % 8 <= bp);
                } else {
                    assert(i / 8 < pos0);
                    assert(self.buf@[i / 8] == pre.buf@[i / 8]);
                }
            }
        }
    }

    /// Writes the `n` low bits of `v`.
    pub fn write_bits(&mut self, n: u8, v: u32)
        requires
            old(self).wf(),
            n <= 32,
            put_bits(old(self).bits(), n as nat, v as nat).len() <= old(self).capacity(),
        ensures
            final(self).wrote(*old(self), put_bits(old(self).bits(), n as nat, v as nat)),
    {
        let ghost pre = *self;
        let mut i: u8 = 0;
        assert(pre.bits() + low_bits(v as nat, 0) =~= pre.bits());
        while i < n
            invariant
                i <= n <= 32,
                pre.wf(),
                pre.bits().len() + n <= pre.capacity(),
                self.wrote(pre, pre.bits() + low_bits(v as nat, i as nat)),
            decreases n - i,
        {
            let ghost mid = *self;
            let b: bool = (v >> i) % 2 == 1;
            proof {
                lemma_u32_shr_is_div(v, i as u32);
                assert(v >> i == v >> (i as u32)) by (bit_vector)
                    requires
                        i < 32,
                ;
                assert(b == bit(v as nat, i as nat));
            }
            self.write_bit(b);
            i = i + 1;
            assert(mid.bits().push(b) =~= pre.bits() + low_bits(v as nat, i as nat));
        }
    }

    /// Skips to the next byte boundary.
    fn align(&mut self)
        requires
            old(self).wf(),
        ensures
            final(self).wrote(*old(self), align(old(self).bits())),
    {
        let ghost pre = *self;
        assert(self.buf.len() <= usize::MAX);
        if self.bit_pos > 0 {
            self.bit_pos = 0;
            self.pos = self.pos + 1;
        }
        proof {
            let s = align(pre.bits());
            assert forall|i: int| 0 <= i < s.len() implies self.bits()[i] == s[i] by {
                if i >= pre.bits().len() {
                    lemma_high_bits_zero(
                        pre.buf@[pre.pos as int] as nat,
                        pre.bit_pos as nat,
                        (i % 8) as nat,
                    );
                }
            }
        }
    }

    /// Writes a byte at the next byte boundary.
    pub fn write_byte_aligned(&mut self, v: u8)
        requires
            old(self).wf(),
            put_byte(old(self).bits(), v).len() <= old(self).capacity(),
        ensures
            final(self).wrote(*old(self), put_byte(old(self).bits(), v)),
    {
        self.align();
        self.write_bits(8, v as u32);
    }

    /// Writes a 32-bit value at the next byte boundary.
    pub fn write_u32_aligned(&mut self, v: u32)
        requires
            old(self).wf(),
            put_u32(old(self).bits(), v).len() <= old(self).capacity(),
        ensures
            final(self).wrote(*old(self), put_u32(old(self).bits(), v)),
    {
        self.align();
        self.write_bits(32, v);
    }

    /// Writes some bytes at the next byte boundary.
    pub fn write_bytes_aligned(&mut self, v: &[u8])
        requires
            old(self).wf(),
            put_bytes(old(self).bits(), v@).len() <= old(self).capacity(),
        ensures
            final(self).wrote(*old(self), put_bytes(old(self).bits(), v@)),
    {
        let n: usize = v.len();
        assert(pad_bytes(v@, n as nat) =~= v@);
        self.write_bytes_aligned_padded(n, v);
    }

    /// Writes `n` bytes at the next byte boundary: those of `v`, cut or followed by zeros.
    pub fn write_bytes_aligned_padded(&mut self, n: usize, v: &[u8])
        requires
            old(self).wf(),
            put_bytes(old(self).bits(), pad_bytes(v@, n as nat)).len() <= old(self).capacity(),
        ensures
            final(self).wrote(*old(self), put_bytes(old(self).bits(), pad_bytes(v@, n as nat))),
    {
        let ghost pre = *self;
        let ghost padded = pad_bytes(v@, n as nat);
        self.align();
        let mut i: usize = 0;
        assert(align(pre.bits()) + bytes_bits(padded.take(0)) =~= align(pre.bits()));
        while i < n
            invariant
                i <= n,
                pre.wf(),
                padded == pad_bytes(v@, n as nat),
                align(pre.bits()).len() + 8 * n <= pre.capacity(),
                self.wrote(pre, align(pre.bits()) + bytes_bits(padded.take(i as int))),
            decreases n - i,
        {
            let ghost mid = *self;
            let b: u8 = if i < v.len() {
                v[i]
            } else {
                0
            };
            self.write_bits(8, b as u32);
            proof {
                assert(padded.take(i + 1) =~= padded.take(i as int).push(b));
                lemma_bytes_bits_push(padded.take(i as int), b);
                assert(self.bits() =~= align(pre.bits()) + bytes_bits(padded.take(i + 1)));
            }
            i = i + 1;
        }
        assert(padded.take(n as int) =~= padded);
    }

    /// Writes a coordinate of `n` bits, as a difference where it is close to `old_v`.
    pub fn write_pos(&mut self, n: u8, v: u32, old_v: Option<u32>)
        requires
            old(self).wf(),
            n <= 32,
            put_pos(old(self).bits(), n as nat, v, old_v).len() <= old(self).capacity(),
        ensures
            final(self).wrote(*old(self), put_pos(old(self).bits(), n as nat, v, old_v)),
    {
        let (tag, width, field) = choose_pos_form(n, v, old_v);
        proof {
            reveal(put_pos);
        }
        self.write_bits(2, tag);
        self.write_bits(width, field);
    }

    /// The bytes that hold what is written are those of the bit string.
    pub proof fn lemma_written(self)
        requires
            self.wf(),
        ensures
            byte_count(self.bits().len()) <= self.buf@.len(),
            self.buf@.take(byte_count(self.bits().len()) as int) =~= pack(self.bits()),
    {
        let s = self.bits();
        let n = byte_count(s.len());
        let bytes = self.buf@.take(n as int);
        assert(bytes_bits(bytes) =~= align(s)) by {
            assert forall|i: int| 0 <= i < 8 * n implies bytes_bits(bytes)[i] == align(s)[i] by {
                if i >= s.len() {
                    lemma_high_bits_zero(
                        self.buf@[self.pos as int] as nat,
                        self.bit_pos as nat,
                        (i % 8) as nat,
                    );
                }
            }
        }
        lemma_pack_unique(s, bytes);
    }

    /// The number of bytes that hold what is written.
    pub fn get_bytes_written(&self) -> (n: usize)
        requires
            self.wf(),
        ensures
            n == byte_count(self.bits().len()),
            n <= self.buf@.len(),
            self.buf@.take(n as int) =~= pack(self.bits()),
    {
        assert(self.buf.len() <= usize::MAX);
        proof {
            self.lemma_written();
        }
        if self.bit_pos > 0 {
            self.pos + 1
        } else {
            self.pos
        }
    }

    /// The index of the byte that the next bit goes to.
    pub fn get_pos(&self) -> (n: usize)
        requires
            self.wf(),
        ensures
            n == self.bits().len() / 8,
            n <= self.buf@.len(),
    {
        self.pos
    }
}

/// Reads bits from a message. Past the end of the message there are zeros.
pub struct HQMMessageReader<'a> {
    pub buf: &'a [u8],
    /// Index of the byte that the next bit comes from.
    pub pos: usize,
    /// Bits of that byte that are already read.
    pub bit_pos: u8,
}

impl<'a> HQMMessageReader<'a> {
    /// The bit position that is read next.
    pub open spec fn at(self) -> nat {
        (8 * self.pos + self.bit_pos) as nat
    }

    pub open spec fn wf(self) -> bool {
        self.bit_pos < 8
    }

    /// `pre` has been advanced to bit position `p`.
    pub open spec fn moved(self, pre: Self, p: nat) -> bool {
        &&& self.wf()
        &&& self.buf == pre.buf
        &&& self.at() == p
    }

    /// A reader at the start of `buf`.
    pub fn new(buf: &'a [u8]) -> (r: Self)
        ensures
            r.wf(),
            r.buf == buf,
            r.at() == 0,
    {
        HQMMessageReader { buf, pos: 0, bit_pos: 0 }
    }

    fn safe_get_byte(&self, pos: usize) -> (b: u8)
        ensures
            b == stream_byte(self.buf@, pos as int),
    {
        if pos < self.buf.len() {
            self.buf[pos]
        } else {
            0
        }
    }

    fn read_bit(&mut self) -> (b: bool)
        requires
            old(self).wf(),
            old(self).pos < usize::MAX,
        ensures
            final(self).moved(*old(self), old(self).at() + 1),
            b == stream_bit(old(self).buf@, old(self).at() as int),
    {
        let bp: u8 = self.bit_pos;
        let byte: u8 = self.safe_get_byte(self.pos);
        let b: bool = (byte >> bp) % 2 == 1;
        proof {
            lemma_u8_shr_is_div(byte, bp);
            let ghost k: int = 8 * self.pos + bp;
            assert(k / 8 == self.pos && k % 8 == bp);
            if self.pos >= self.buf@.len() {
                assert(0u8 >> bp == 0) by (bit_vector);
            }
        }
        if bp == 7 {
            self.bit_pos = 0;
            self.pos = self.pos + 1;
        } else {
            self.bit_pos = bp + 1;
        }
        b
    }

    /// Reads a value of `n` bits.
    pub fn read_bits(&mut self, n: u8) -> (v: u32)
        requires
            old(self).wf(),
            n <= 32,
            old(self).at() + n <= 8 * usize::MAX,
        ensures
            final(self).moved(*old(self), old(self).at() + n as nat),
            v == stream_value(old(self).buf@, old(self).at(), n as nat),
            v < pow2(n as nat),
    {
        let ghost pre = *self;
        let ghost all = stream_bits(pre.buf@, pre.at(), n as nat);
        let mut res: u64 = 0;
        let mut unit: u64 = 1;
        let mut i: u8 = 0;
        proof {
            lemma2_to64();
        }
        while i < n
            invariant
                i <= n <= 32,
                pre.at() + n <= 8 * usize::MAX,
                all == stream_bits(pre.buf@, pre.at(), n as nat),
                self.moved(pre, pre.at() + i as nat),
                unit == pow2(i as nat),
                unit <= 0x1_0000_0000,
                res < unit,
                res == bits_value(all.take(i as int)),
            decreases n - i,
        {
            let b: bool = self.read_bit();
            proof {
                assert(all.take(i + 1).drop_last() =~= all.take(i as int));
                assert(b == all[i as int]);
                lemma_pow2_unfold((i + 1) as nat);
                lemma2_to64();
                if i < 31 {
                    lemma_pow2_strictly_increases((i + 1) as nat, 32);
                }
            }
            if b {
                res = res + unit;
            }
            unit = unit * 2;
            i = i + 1;
        }
        assert(all.take(n as int) =~= all);
        proof {
            lemma_bits_value_bound(all);
            reveal(stream_value);
        }
        res as u32
    }

    /// Skips to the next byte boundary.
    fn align(&mut self)
        requires
            old(self).wf(),
            old(self).pos < usize::MAX,
        ensures
            final(self).moved(*old(self), align_pos(old(self).at())),
    {
        if self.bit_pos > 0 {
            self.bit_pos = 0;
            self.pos = self.pos + 1;
        }
    }

    /// Reads the byte at the next byte boundary.
    pub fn read_byte_aligned(&mut self) -> (v: u8)
        requires
            old(self).wf(),
            old(self).pos < usize::MAX - 1,
        ensures
            final(self).moved(*old(self), align_pos(old(self).at()) + 8),
            v == stream_byte(old(self).buf@, byte_count(old(self).at()) as int),
    {
        self.align();
        let v: u8 = self.safe_get_byte(self.pos);
        self.pos = self.pos + 1;
        v
    }

    /// Reads `n` bytes from the next byte boundary on.
    pub fn read_bytes_aligned(&mut self, n: usize) -> (v: Vec<u8>)
        requires
            old(self).wf(),
            old(self).pos + n < usize::MAX,
        ensures
            final(self).moved(*old(self), align_pos(old(self).at()) + 8 * n as nat),
            v@ =~= Seq::new(
                n as nat,
                |i: int| stream_byte(old(self).buf@, byte_count(old(self).at()) + i),
            ),
    {
        let ghost pre = *self;
        self.align();
        let mut v: Vec<u8> = Vec::new();
        let mut i: usize = 0;
        while i < n
            invariant
                i <= n,
                self.pos + n <= usize::MAX,
                self.pos == byte_count(pre.at()),
                self.moved(pre, align_pos(pre.at())),
                v@ =~= Seq::new(
                    i as nat,
                    |j: int| stream_byte(pre.buf@, byte_count(pre.at()) + j),
                ),
            decreases n - i,
        {
            v.push(self.safe_get_byte(self.pos + i));
            i = i + 1;
        }
        self.pos = self.pos + n;
        v
    }

    /// Reads a 16-bit value from the next byte boundary on.
    pub fn read_u16_aligned(&mut self) -> (v: u16)
        requires
            old(self).wf(),
            old(self).pos < usize::MAX - 2,
        ensures
            final(self).moved(*old(self), align_pos(old(self).at()) + 16),
            v == stream_value(old(self).buf@, align_pos(old(self).at()), 16),
    {
        self.align();
        proof {
            lemma2_to64();
        }
        self.read_bits(16) as u16
    }

    /// Reads a 32-bit value from the next byte boundary on.
    pub fn read_u32_aligned(&mut self) -> (v: u32)
        requires
            old(self).wf(),
            old(self).pos < usize::MAX - 4,
        ensures
            final(self).moved(*old(self), align_pos(old(self).at()) + 32),
            v == stream_value(old(self).buf@, align_pos(old(self).at()), 32),
    {
        self.align();
        self.read_bits(32)
    }

    /// Reads the bit pattern of a single-precision number from the next byte boundary on.
    pub fn read_f32_aligned(&mut self) -> (v: u32)
        requires
            old(self).wf(),
            old(self).pos < usize::MAX - 4,
        ensures
            final(self).moved(*old(self), align_pos(old(self).at()) + 32),
            v == stream_value(old(self).buf@, align_pos(old(self).at()), 32),
    {
        self.read_u32_aligned()
    }
}

proof fn lemma_set_bit(cur: u8, b: bool, bp: u8)
    requires
        bp < 8,
        cur < pow2(bp as nat),
    ensures
        ({
            let add: u8 = if b {
                1
            } else {
                0
            };
            let new = cur | (add << bp);
            &&& forall|k: nat| k < bp ==> bit(new as nat, k) == bit(cur as nat, k)
            &&& bit(new as nat, bp as nat) == b
            &&& bp < 7 ==> new < pow2((bp + 1) as nat)
        }),
{
    lemma2_to64();
    let add: u8 = if b {
        1
    } else {
        0
    };
    let new = cur | (add << bp);
    assert(1u8 << bp == pow2(bp as nat)) by {
        vstd::bits::lemma_u8_shl_is_mul(1, bp);
    }
    assert forall|k: nat| k < bp implies bit(new as nat, k) == bit(cur as nat, k) by {
        let j = k as u8;
        lemma_u8_shr_is_div(new, j);
        lemma_u8_shr_is_div(cur, j);
        assert((cur | (add << bp)) >> j & 1 == cur >> j & 1) by (bit_vector)
            requires
                j < bp < 8,
        ;
        let x = new >> j;
        let y = cur >> j;
        assert(x & 1 == x % 2 && y & 1 == y % 2) by (bit_vector);
    }
    lemma_u8_shr_is_div(new, bp);
    assert((cur | (add << bp)) >> bp == add) by (bit_vector)
        requires
            bp < 8,
            cur < 1u8 << bp,
            add <= 1,
    ;
    if bp < 7 {
        let next: u8 = (bp + 1) as u8;
        vstd::bits::lemma_u8_shl_is_mul(1, next);
        assert((cur | (add << bp)) < 1u8 << next) by (bit_vector)
            requires
                bp < 7,
                next == bp + 1,
                cur < 1u8 << bp,
                add <= 1,
        ;
    }
}

proof fn lemma_high_bits_zero(v: nat, n: nat, k: nat)
    requires
        v < pow2(n),
        n <= k,
    ensures
        !bit(v, k),
{
    if n < k {
        lemma_pow2_strictly_increases(n, k);
    }
    lemma_basic_div(v as int, pow2(k) as int);
}

proof fn lemma_bytes_bits_push(bytes: Seq<u8>, b: u8)
    ensures
        bytes_bits(bytes.push(b)) =~= bytes_bits(bytes) + low_bits(b as nat, 8),
{
}

} // verus!
