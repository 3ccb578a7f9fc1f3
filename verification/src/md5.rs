//! Streaming MD5 digest engine.
//!
//! The mathematical model is given by `md5_digest`: the standard MD5
//! rounds over 64-byte blocks of the message followed by the standard
//! length padding. The engine `Md5` ingests bytes incrementally through
//! `update` and is consumed by `finalize`; its view is the sequence of
//! all bytes ingested so far, and the digest is a function of that view
//! alone.

use vstd::prelude::*;

use crate::hex::{hex_of_bytes, spec_hex};

verus! {

/// Left rotation of a 32-bit word by `s` bits, `0 < s < 32`.
pub open spec fn rotl32(x: u32, s: u32) -> u32
    recommends
        0 < s < 32,
{
    (x << s) | (x >> (32 - s) as u32)
}

/// The per-round boolean function of MD5 for step `i` of `0..64`.
pub open spec fn md5_f(i: int, b: u32, c: u32, d: u32) -> u32 {
    if i < 16 {
        (b & c) | (!b & d)
    } else if i < 32 {
        (d & b) | (!d & c)
    } else if i < 48 {
        b ^ c ^ d
    } else {
        c ^ (b | !d)
    }
}

/// The message-word index used by step `i` of `0..64`.
pub open spec fn md5_g(i: int) -> int {
    if i < 16 {
        i
    } else if i < 32 {
        (5 * i + 1) % 16
    } else if i < 48 {
        (3 * i + 5) % 16
    } else {
        (7 * i) % 16
    }
}

/// The left-rotation amount used by step `i` of `0..64`, from the fixed
/// 4x4 table of the algorithm.
pub open spec fn md5_s(i: int) -> u32 {
    let row = i / 16;
    let col = i % 4;
    if row == 0 {
        if col == 0 {
            7
        } else if col == 1 {
            12
        } else if col == 2 {
            17
        } else {
            22
        }
    } else if row == 1 {
        if col == 0 {
            5
        } else if col == 1 {
            9
        } else if col == 2 {
            14
        } else {
            20
        }
    } else if row == 2 {
        if col == 0 {
            4
        } else if col == 1 {
            11
        } else if col == 2 {
            16
        } else {
            23
        }
    } else {
        if col == 0 {
            6
        } else if col == 1 {
            10
        } else if col == 2 {
            15
        } else {
            21
        }
    }
}

/// The additive constant used by step `i` of `0..64`.
pub open spec fn md5_k(i: int) -> u32 {
    if i == 0 {
        0xd76aa478
    } else if i == 1 {
        0xe8c7b756
    } else if i == 2 {
        0x242070db
    } else if i == 3 {
        0xc1bdceee
    } else if i == 4 {
        0xf57c0faf
    } else if i == 5 {
        0x4787c62a
    } else if i == 6 {
        0xa8304613
    } else if i == 7 {
        0xfd469501
    } else if i == 8 {
        0x698098d8
    } else if i == 9 {
        0x8b44f7af
    } else if i == 10 {
        0xffff5bb1
    } else if i == 11 {
        0x895cd7be
    } else if i == 12 {
        0x6b901122
    } else if i == 13 {
        0xfd987193
    } else if i == 14 {
        0xa679438e
    } else if i == 15 {
        0x49b40821
    } else if i == 16 {
        0xf61e2562
    } else if i == 17 {
        0xc040b340
    } else if i == 18 {
        0x265e5a51
    } else if i == 19 {
        0xe9b6c7aa
    } else if i == 20 {
        0xd62f105d
    } else if i == 21 {
        0x02441453
    } else if i == 22 {
        0xd8a1e681
    } else if i == 23 {
        0xe7d3fbc8
    } else if i == 24 {
        0x21e1cde6
    } else if i == 25 {
        0xc33707d6
    } else if i == 26 {
        0xf4d50d87
    } else if i == 27 {
        0x455a14ed
    } else if i == 28 {
        0xa9e3e905
    } else if i == 29 {
        0xfcefa3f8
    } else if i == 30 {
        0x676f02d9
    } else if i == 31 {
        0x8d2a4c8a
    } else if i == 32 {
        0xfffa3942
    } else if i == 33 {
        0x8771f681
    } else if i == 34 {
        0x6d9d6122
    } else if i == 35 {
        0xfde5380c
    } else if i == 36 {
        0xa4beea44
    } else if i == 37 {
        0x4bdecfa9
    } else if i == 38 {
        0xf6bb4b60
    } else if i == 39 {
        0xbebfbc70
    } else if i == 40 {
        0x289b7ec6
    } else if i == 41 {
        0xeaa127fa
    } else if i == 42 {
        0xd4ef3085
    } else if i == 43 {
        0x04881d05
    } else if i == 44 {
        0xd9d4d039
    } else if i == 45 {
        0xe6db99e5
    } else if i == 46 {
        0x1fa27cf8
    } else if i == 47 {
        0xc4ac5665
    } else if i == 48 {
        0xf4292244
    } else if i == 49 {
        0x432aff97
    } else if i == 50 {
        0xab9423a7
    } else if i == 51 {
        0xfc93a039
    } else if i == 52 {
        0x655b59c3
    } else if i == 53 {
        0x8f0ccc92
    } else if i == 54 {
        0xffeff47d
    } else if i == 55 {
        0x85845dd1
    } else if i == 56 {
        0x6fa87e4f
    } else if i == 57 {
        0xfe2ce6e0
    } else if i == 58 {
        0xa3014314
    } else if i == 59 {
        0x4e0811a1
    } else if i == 60 {
        0xf7537e82
    } else if i == 61 {
        0xbd3af235
    } else if i == 62 {
        0x2ad7d2bb
    } else {
        0xeb86d391
    }
}

/// The little-endian 32-bit message word `j` of `0..16` of a 64-byte block.
pub open spec fn le_word(block: Seq<u8>, j: int) -> u32
    recommends
        block.len() == 64,
        0 <= j < 16,
{
    (block[4 * j] + block[4 * j + 1] * 0x100 + block[4 * j + 2] * 0x10000 + block[4 * j + 3]
        * 0x1000000) as u32
}

/// One MD5 step applied to the rotating state `(a, b, c, d)`.
pub open spec fn md5_round(st: (u32, u32, u32, u32), block: Seq<u8>, i: int) -> (u32, u32, u32, u32)
    recommends
        block.len() == 64,
        0 <= i < 64,
{
    let (a, b, c, d) = st;
    let f = md5_f(i, b, c, d);
    let sum = a.wrapping_add(f).wrapping_add(md5_k(i)).wrapping_add(le_word(block, md5_g(i)));
    let nb = b.wrapping_add(rotl32(sum, md5_s(i)));
    (d, nb, b, c)
}

/// The state after the first `n` MD5 steps on one block.
pub open spec fn md5_steps(st: (u32, u32, u32, u32), block: Seq<u8>, n: int) -> (u32, u32, u32, u32)
    decreases n,
{
    if n <= 0 {
        st
    } else {
        md5_round(md5_steps(st, block, n - 1), block, n - 1)
    }
}

/// The MD5 compression function: 64 steps on one 64-byte block, then a
/// wrapping addition of the incoming state.
pub open spec fn md5_compress(st: (u32, u32, u32, u32), block: Seq<u8>) -> (u32, u32, u32, u32)
    recommends
        block.len() == 64,
{
    let e = md5_steps(st, block, 64);
    (st.0.wrapping_add(e.0), st.1.wrapping_add(e.1), st.2.wrapping_add(e.2), st.3.wrapping_add(
        e.3,
    ))
}

/// The state after compressing every 64-byte block of `bytes` in order.
pub open spec fn md5_blocks(st: (u32, u32, u32, u32), bytes: Seq<u8>) -> (u32, u32, u32, u32)
    decreases bytes.len(),
{
    if bytes.len() < 64 {
        st
    } else {
        md5_blocks(md5_compress(st, bytes.take(64)), bytes.skip(64))
    }
}

/// The fixed initial state words A, B, C, D.
pub open spec fn md5_init() -> (u32, u32, u32, u32) {
    (0x67452301u32, 0xefcdab89u32, 0x98badcfeu32, 0x10325476u32)
}

/// The number of zero bytes the padding inserts for a message of `l` bytes.
pub open spec fn pad_zero_count(l: nat) -> nat {
    if l % 64 <= 55 {
        (55 - l % 64) as nat
    } else {
        (119 - l % 64) as nat
    }
}

/// The little-endian bytes of a 64-bit word, least significant first.
pub open spec fn u64_le(x: u64) -> Seq<u8> {
    seq![
        (x as int % 0x100) as u8,
        (x as int / 0x100 % 0x100) as u8,
        (x as int / 0x10000 % 0x100) as u8,
        (x as int / 0x1000000 % 0x100) as u8,
        (x as int / 0x100000000 % 0x100) as u8,
        (x as int / 0x10000000000 % 0x100) as u8,
        (x as int / 0x1000000000000 % 0x100) as u8,
        (x as int / 0x100000000000000 % 0x100) as u8,
    ]
}

/// The little-endian bytes of a 32-bit word, least significant first.
pub open spec fn u32_le(x: u32) -> Seq<u8> {
    seq![
        (x as int % 0x100) as u8,
        (x as int / 0x100 % 0x100) as u8,
        (x as int / 0x10000 % 0x100) as u8,
        (x as int / 0x1000000 % 0x100) as u8,
    ]
}

/// The standard MD5 padding for a message of `l` bytes: one `0x80` byte,
/// zeros up to 56 modulo 64, then the message bit length as 64 bits
/// little-endian.
pub open spec fn md5_padding(l: nat) -> Seq<u8>
    recommends
        8 * l <= u64::MAX,
{
    seq![0x80u8] + Seq::new(pad_zero_count(l), |i: int| 0u8) + u64_le((8 * l) as u64)
}

/// The MD5 digest of a byte sequence: the four state words after
/// compressing the padded message, serialized little-endian.
pub open spec fn md5_digest(bytes: Seq<u8>) -> Seq<u8>
    recommends
        8 * bytes.len() <= u64::MAX,
{
    let st = md5_blocks(md5_init(), bytes + md5_padding(bytes.len()));
    u32_le(st.0) + u32_le(st.1) + u32_le(st.2) + u32_le(st.3)
}

/// The largest message length the engine accepts, in bytes; it leaves
/// room for the padding while `8 * length` still fits in 64 bits.
pub open spec fn max_message_len() -> nat {
    0x1000_0000_0000_0000
}

/// Streaming MD5 engine: bytes not yet forming a complete block, the
/// running bit length, and the four state words.
pub struct Md5 {
    buffer: Vec<u8>,
    bit_len: u64,
    a: u32,
    b: u32,
    c: u32,
    d: u32,
    processed: Ghost<Seq<u8>>,
}

impl View for Md5 {
    type V = Seq<u8>;

    /// The view of an engine is the sequence of all bytes ingested so far.
    closed spec fn view(&self) -> Seq<u8> {
        self.processed@ + self.buffer@
    }
}

impl Md5 {
    /// Engine invariant: the state words reflect every complete block
    /// ingested, the buffer holds the remainder, and the bit length
    /// counter holds eight times the total byte count.
    pub closed spec fn wf(&self) -> bool {
        &&& self.processed@.len() % 64 == 0
        &&& self.buffer@.len() < 64
        &&& (self.a, self.b, self.c, self.d) == md5_blocks(md5_init(), self.processed@)
        &&& self.bit_len == 8 * self@.len()
        &&& 8 * self@.len() <= u64::MAX
    }

    /// A fresh engine with the standard initial state and no bytes ingested.
    pub fn new() -> (r: Self)
        ensures
            r.wf(),
            r@ =~= Seq::<u8>::empty(),
    {
        let r = Md5 {
            buffer: Vec::new(),
            bit_len: 0,
            a: 0x67452301,
            b: 0xefcdab89,
            c: 0x98badcfe,
            d: 0x10325476,
            processed: Ghost(Seq::empty()),
        };
        proof {
            assert(r.processed@ + r.buffer@ =~= Seq::<u8>::empty());
        }
        r
    }

    /// Runs the 64 MD5 steps over the full buffer and folds the result
    /// into the state words.
    fn compress(&mut self)
        requires
            old(self).buffer@.len() == 64,
        ensures
            (final(self).a, final(self).b, final(self).c, final(self).d) == md5_compress(
                (old(self).a, old(self).b, old(self).c, old(self).d),
                old(self).buffer@,
            ),
            final(self).buffer@ == old(self).buffer@,
            final(self).bit_len == old(self).bit_len,
            final(self).processed@ == old(self).processed@,
    {
        let ghost st0 = (self.a, self.b, self.c, self.d);
        let ghost block = self.buffer@;
        let mut a = self.a;
        let mut b = self.b;
        let mut c = self.c;
        let mut d = self.d;
        let mut i: usize = 0;
        while i < 64
            invariant
                i <= 64,
                self.buffer@.len() == 64,
                self.buffer@ == block,
                (a, b, c, d) == md5_steps(st0, block, i as int),
            decreases 64 - i,
        {
            let f: u32 = if i < 16 {
                (b & c) | (!b & d)
            } else if i < 32 {
                (d & b) | (!d & c)
            } else if i < 48 {
                b ^ c ^ d
            } else {
                c ^ (b | !d)
            };
            let g: usize = if i < 16 {
                i
            } else if i < 32 {
                (5 * i + 1) % 16
            } else if i < 48 {
                (3 * i + 5) % 16
            } else {
                (7 * i) % 16
            };
            assert(f == md5_f(i as int, b, c, d));
            assert(g == md5_g(i as int));
            let m: u32 = (self.buffer[4 * g] as u32) + (self.buffer[4 * g + 1] as u32) * 0x100 + (
            self.buffer[4 * g + 2] as u32) * 0x10000 + (self.buffer[4 * g + 3] as u32) * 0x1000000;
            assert(m == le_word(block, g as int));
            let k = md5_k_at(i);
            let s = md5_s_at(i);
            let sum = a.wrapping_add(f).wrapping_add(k).wrapping_add(m);
            let nb = b.wrapping_add((sum << s) | (sum >> 32 - s));
            let temp = d;
            d = c;
            c = b;
            b = nb;
            a = temp;
            i = i + 1;
            assert((a, b, c, d) == md5_steps(st0, block, i as int));
        }
        self.a = self.a.wrapping_add(a);
        self.b = self.b.wrapping_add(b);
        self.c = self.c.wrapping_add(c);
        self.d = self.d.wrapping_add(d);
    }

    /// Appends `input` to the message, compressing each complete 64-byte
    /// block as it forms; the only bound asked for is that the bit length
    /// counter cannot overflow.
    fn absorb(&mut self, input: &[u8])
        requires
            old(self).wf(),
            8 * (old(self)@.len() + input@.len()) <= u64::MAX,
        ensures
            final(self).wf(),
            final(self)@ == old(self)@ + input@,
    {
        let ghost old_view = self@;
        self.bit_len = self.bit_len + (input.len() as u64) * 8;
        let mut i: usize = 0;
        while i < input.len()
            invariant
                i <= input@.len(),
                self.processed@.len() % 64 == 0,
                self.buffer@.len() < 64,
                (self.a, self.b, self.c, self.d) == md5_blocks(md5_init(), self.processed@),
                self.processed@ + self.buffer@ == old_view + input@.take(i as int),
                8 * (old_view.len() + input@.len()) <= u64::MAX,
                self.bit_len == 8 * (old_view.len() + input@.len()),
            decreases input@.len() - i,
        {
            let ghost pre_buf = self.buffer@;
            let ghost pre_proc = self.processed@;
            self.buffer.push(input[i]);
            i = i + 1;
            assert(self.processed@ + self.buffer@ == old_view + input@.take(i as int)) by {
                assert(pre_proc + pre_buf.push(input@[i - 1]) =~= (pre_proc + pre_buf).push(
                    input@[i - 1],
                ));
                assert(old_view + input@.take(i as int) =~= (old_view + input@.take(
                    i - 1,
                )).push(input@[i - 1]));
            }
            if self.buffer.len() == 64 {
                let ghost block = self.buffer@;
                self.compress();
                proof {
                    lemma_md5_blocks_snoc(md5_init(), self.processed@, block);
                    self.processed@ = self.processed@ + block;
                }
                self.buffer.clear();
                assert(self.processed@ + self.buffer@ =~= self.processed@);
            }
        }
        assert(input@.take(input@.len() as int) =~= input@);
        assert(self@ =~= old(self)@ + input@);
    }

    /// Appends `input` to the message, compressing each complete 64-byte
    /// block as it forms. The view grows by exactly `input`; the buffered
    /// remainder always stays shorter than a block.
    pub fn update(&mut self, input: &[u8])
        requires
            old(self).wf(),
            old(self)@.len() + input@.len() <= max_message_len(),
        ensures
            final(self).wf(),
            final(self)@ == old(self)@ + input@,
    {
        self.absorb(input);
    }

    /// Appends zero bytes one at a time until the buffered length
    /// reaches 56 modulo 64.
    fn pad_zeros(&mut self)
        requires
            old(self).wf(),
            8 * (old(self)@.len() + 64) <= u64::MAX,
        ensures
            final(self).wf(),
            final(self)@ == old(self)@ + Seq::new(zeros_to_56(old(self)@.len()), |i: int| 0u8),
            final(self)@.len() % 64 == 56,
    {
        let ghost base = self@;
        let ghost target = zeros_to_56(base.len());
        let mut zero: Vec<u8> = Vec::new();
        zero.push(0x00);
        assert(zero@ =~= seq![0u8]);
        assert(self@ =~= base + Seq::new(0nat, |i: int| 0u8));
        let mut j: usize = 0;
        while self.buffer_len() != 56
            invariant
                self.wf(),
                zero@ =~= seq![0u8],
                j <= target,
                target == zeros_to_56(base.len()),
                target < 64,
                8 * (base.len() + 64) <= u64::MAX,
                self@ =~= base + Seq::new(j as nat, |i: int| 0u8),
            decreases target - j,
        {
            proof {
                assert(self.buffer_view().len() == self@.len() % 64);
                assert(self@.len() == base.len() + j);
                lemma_zeros_to_56_bound(base.len(), j as nat);
            }
            self.absorb(zero.as_slice());
            j = j + 1;
            proof {
                let pre = base + Seq::new((j - 1) as nat, |i: int| 0u8);
                assert(pre + seq![0u8] =~= base + Seq::new(j as nat, |i: int| 0u8));
            }
        }
        proof {
            assert(self.buffer_view().len() == self@.len() % 64);
            assert(self@.len() == base.len() + j);
            lemma_zeros_to_56_exact(base.len(), j as nat);
        }
    }

    /// Appends the standard padding: the `0x80` marker, zero bytes until
    /// the buffered length reaches 56 modulo 64, then the 64-bit
    /// little-endian bit length. Afterwards no bytes stay buffered.
    fn apply_padding(&mut self)
        requires
            old(self).wf(),
            old(self)@.len() <= max_message_len(),
        ensures
            final(self).wf(),
            final(self)@ == old(self)@ + md5_padding(old(self)@.len()),
            final(self).buffer_view() == Seq::<u8>::empty(),
            final(self).processed_view() == final(self)@,
    {
        let ghost msg = self@;
        let tail = le64_bytes(self.bit_len);
        proof {
            assert(self.bit_len == (8 * msg.len()) as u64);
        }
        let mut marker: Vec<u8> = Vec::new();
        marker.push(0x80);
        assert(marker@ =~= seq![0x80u8]);
        self.absorb(marker.as_slice());
        self.pad_zeros();
        self.absorb(tail.as_slice());
        proof {
            assert((msg + seq![0x80u8]).len() == msg.len() + 1);
            lemma_padding_assembly(msg, tail@);
            assert(self@ == msg + md5_padding(msg.len()));
            lemma_block_aligned_buffer(self);
        }
    }

    /// Consumes the engine: applies the standard padding and serializes
    /// the four state words little-endian. The result is the 16-byte MD5
    /// digest of everything ingested.
    pub fn finalize(self) -> (r: Vec<u8>)
        requires
            self.wf(),
            self@.len() <= max_message_len(),
        ensures
            r@ == md5_digest(self@),
    {
        let ghost msg = self@;
        let mut this = self;
        this.apply_padding();
        let mut r: Vec<u8> = Vec::new();
        le32_push(&mut r, this.a);
        le32_push(&mut r, this.b);
        le32_push(&mut r, this.c);
        le32_push(&mut r, this.d);
        proof {
            let st = md5_blocks(md5_init(), msg + md5_padding(msg.len()));
            assert(this.processed_view() == this@);
            assert((this.a, this.b, this.c, this.d) == st);
            assert(r@ =~= u32_le(st.0) + u32_le(st.1) + u32_le(st.2) + u32_le(st.3));
        }
        r
    }

    /// The number of bytes currently buffered, waiting for a full block.
    pub fn buffer_len(&self) -> (n: usize)
        ensures
            n == self.buffer_view().len(),
    {
        self.buffer.len()
    }

    /// The buffered remainder, for reasoning about the engine's progress.
    pub closed spec fn buffer_view(&self) -> Seq<u8> {
        self.buffer@
    }

    /// The bytes already folded into the state words.
    pub closed spec fn processed_view(&self) -> Seq<u8> {
        self.processed@
    }
}

/// Invariant connecting the pieces of the view: the buffered remainder
/// has length `view length modulo 64`.
pub proof fn lemma_md5_wf_buffer(m: &Md5)
    requires
        m.wf(),
    ensures
        m.buffer_view().len() == m@.len() % 64,
        m@ == m.processed_view() + m.buffer_view(),
{
}

/// Compressing the blocks of `bytes + block` equals compressing the
/// blocks of `bytes` and then the one extra `block`.
pub proof fn lemma_md5_blocks_snoc(st: (u32, u32, u32, u32), bytes: Seq<u8>, block: Seq<u8>)
    requires
        bytes.len() % 64 == 0,
        block.len() == 64,
    ensures
        md5_blocks(st, bytes + block) == md5_compress(md5_blocks(st, bytes), block),
    decreases bytes.len(),
{
    if bytes.len() == 0 {
        assert(bytes + block =~= block);
        assert(md5_blocks(st, bytes) == st);
        assert(block.take(64) =~= block);
        assert(block.skip(64) =~= Seq::<u8>::empty());
        assert(md5_blocks(st, block) == md5_blocks(md5_compress(st, block.take(64)), block.skip(
            64,
        )));
        assert(md5_blocks(md5_compress(st, block), block.skip(64)) == md5_compress(st, block));
    } else {
        let rest = bytes.skip(64);
        assert(rest.len() % 64 == 0);
        assert((bytes + block).take(64) =~= bytes.take(64));
        assert((bytes + block).skip(64) =~= rest + block);
        lemma_md5_blocks_snoc(md5_compress(st, bytes.take(64)), rest, block);
        assert(md5_blocks(st, bytes + block) == md5_blocks(
            md5_compress(st, (bytes + block).take(64)),
            (bytes + block).skip(64),
        ));
        assert(md5_blocks(st, bytes) == md5_blocks(md5_compress(st, bytes.take(64)), rest));
    }
}

/// The number of zero bytes needed to bring a length of `n` bytes to
/// 56 modulo 64.
pub open spec fn zeros_to_56(n: nat) -> nat {
    if n % 64 <= 56 {
        (56 - n % 64) as nat
    } else {
        (120 - n % 64) as nat
    }
}

/// While the buffered length has not reached 56 modulo 64, fewer zero
/// bytes have been added than the padding requires.
proof fn lemma_zeros_to_56_bound(n: nat, j: nat)
    requires
        j < 64,
        (n + j) % 64 != 56,
        j <= zeros_to_56(n),
    ensures
        j < zeros_to_56(n),
{
}

/// When the buffered length reaches 56 modulo 64, exactly the required
/// number of zero bytes has been added.
proof fn lemma_zeros_to_56_exact(n: nat, j: nat)
    requires
        j <= zeros_to_56(n),
        (n + j) % 64 == 56,
    ensures
        j == zeros_to_56(n),
{
}

/// The zero count of the padding equals the zeros needed after the
/// `0x80` marker byte.
proof fn lemma_zeros_after_marker(l: nat)
    ensures
        zeros_to_56(l + 1) == pad_zero_count(l),
{
}

/// An engine whose view length is a multiple of the block size holds no
/// buffered bytes: everything has been folded into the state words.
proof fn lemma_block_aligned_buffer(m: &Md5)
    requires
        m.wf(),
        m@.len() % 64 == 0,
    ensures
        m.buffer_view() == Seq::<u8>::empty(),
        m.processed_view() == m@,
{
    assert(m.buffer_view().len() == m@.len() % 64);
    assert(m.buffer_view() =~= Seq::<u8>::empty());
    assert(m@ =~= m.processed_view() + m.buffer_view());
    assert(m.processed_view() =~= m@);
}

/// A message followed by the marker, the zero run, and the bit-length
/// bytes is the message followed by its padding, and its length is a
/// multiple of the block size.
proof fn lemma_padding_assembly(msg: Seq<u8>, bit_tail: Seq<u8>)
    requires
        bit_tail == u64_le((8 * msg.len()) as u64),
        8 * msg.len() <= u64::MAX,
    ensures
        ((msg + seq![0x80u8]) + Seq::new(zeros_to_56(msg.len() + 1), |i: int| 0u8)) + bit_tail
            == msg + md5_padding(msg.len()),
        (msg + md5_padding(msg.len())).len() % 64 == 0,
{
    lemma_zeros_after_marker(msg.len());
    assert(((msg + seq![0x80u8]) + Seq::new(zeros_to_56(msg.len() + 1), |i: int| 0u8)) + bit_tail
        =~= msg + md5_padding(msg.len()));
    let l = msg.len();
    assert((l + 1 + pad_zero_count(l)) % 64 == 56);
    assert((msg + md5_padding(msg.len())).len() == l + 1 + pad_zero_count(l) + 8);
}

/// The eight little-endian bytes of a 64-bit word.
fn le64_bytes(x: u64) -> (r: Vec<u8>)
    ensures
        r@ == u64_le(x),
{
    let mut r: Vec<u8> = Vec::new();
    r.push((x % 0x100) as u8);
    r.push((x / 0x100 % 0x100) as u8);
    r.push((x / 0x10000 % 0x100) as u8);
    r.push((x / 0x1000000 % 0x100) as u8);
    r.push((x / 0x100000000 % 0x100) as u8);
    r.push((x / 0x10000000000 % 0x100) as u8);
    r.push((x / 0x1000000000000 % 0x100) as u8);
    r.push((x / 0x100000000000000 % 0x100) as u8);
    assert(r@ =~= u64_le(x));
    r
}

/// Appends the four little-endian bytes of a 32-bit word.
fn le32_push(r: &mut Vec<u8>, x: u32)
    ensures
        final(r)@ == old(r)@ + u32_le(x),
{
    r.push((x % 0x100) as u8);
    r.push((x / 0x100 % 0x100) as u8);
    r.push((x / 0x10000 % 0x100) as u8);
    r.push((x / 0x1000000 % 0x100) as u8);
    assert(r@ =~= old(r)@ + u32_le(x));
}

/// The MD5 step constant table, as executable code.
fn md5_k_at(i: usize) -> (r: u32)
    requires
        i < 64,
    ensures
        r == md5_k(i as int),
{
    if i == 0 {
        0xd76aa478
    } else if i == 1 {
        0xe8c7b756
    } else if i == 2 {
        0x242070db
    } else if i == 3 {
        0xc1bdceee
    } else if i == 4 {
        0xf57c0faf
    } else if i == 5 {
        0x4787c62a
    } else if i == 6 {
        0xa8304613
    } else if i == 7 {
        0xfd469501
    } else if i == 8 {
        0x698098d8
    } else if i == 9 {
        0x8b44f7af
    } else if i == 10 {
        0xffff5bb1
    } else if i == 11 {
        0x895cd7be
    } else if i == 12 {
        0x6b901122
    } else if i == 13 {
        0xfd987193
    } else if i == 14 {
        0xa679438e
    } else if i == 15 {
        0x49b40821
    } else if i == 16 {
        0xf61e2562
    } else if i == 17 {
        0xc040b340
    } else if i == 18 {
        0x265e5a51
    } else if i == 19 {
        0xe9b6c7aa
    } else if i == 20 {
        0xd62f105d
    } else if i == 21 {
        0x02441453
    } else if i == 22 {
        0xd8a1e681
    } else if i == 23 {
        0xe7d3fbc8
    } else if i == 24 {
        0x21e1cde6
    } else if i == 25 {
        0xc33707d6
    } else if i == 26 {
        0xf4d50d87
    } else if i == 27 {
        0x455a14ed
    } else if i == 28 {
        0xa9e3e905
    } else if i == 29 {
        0xfcefa3f8
    } else if i == 30 {
        0x676f02d9
    } else if i == 31 {
        0x8d2a4c8a
    } else if i == 32 {
        0xfffa3942
    } else if i == 33 {
        0x8771f681
    } else if i == 34 {
        0x6d9d6122
    } else if i == 35 {
        0xfde5380c
    } else if i == 36 {
        0xa4beea44
    } else if i == 37 {
        0x4bdecfa9
    } else if i == 38 {
        0xf6bb4b60
    } else if i == 39 {
        0xbebfbc70
    } else if i == 40 {
        0x289b7ec6
    } else if i == 41 {
        0xeaa127fa
    } else if i == 42 {
        0xd4ef3085
    } else if i == 43 {
        0x04881d05
    } else if i == 44 {
        0xd9d4d039
    } else if i == 45 {
        0xe6db99e5
    } else if i == 46 {
        0x1fa27cf8
    } else if i == 47 {
        0xc4ac5665
    } else if i == 48 {
        0xf4292244
    } else if i == 49 {
        0x432aff97
    } else if i == 50 {
        0xab9423a7
    } else if i == 51 {
        0xfc93a039
    } else if i == 52 {
        0x655b59c3
    } else if i == 53 {
        0x8f0ccc92
    } else if i == 54 {
        0xffeff47d
    } else if i == 55 {
        0x85845dd1
    } else if i == 56 {
        0x6fa87e4f
    } else if i == 57 {
        0xfe2ce6e0
    } else if i == 58 {
        0xa3014314
    } else if i == 59 {
        0x4e0811a1
    } else if i == 60 {
        0xf7537e82
    } else if i == 61 {
        0xbd3af235
    } else if i == 62 {
        0x2ad7d2bb
    } else {
        0xeb86d391
    }
}

/// The MD5 rotation table, as executable code; every amount lies
/// strictly between 0 and 32.
fn md5_s_at(i: usize) -> (r: u32)
    requires
        i < 64,
    ensures
        r == md5_s(i as int),
        0 < r < 32,
{
    let row = i / 16;
    let col = i % 4;
    if row == 0 {
        if col == 0 {
            7
        } else if col == 1 {
            12
        } else if col == 2 {
            17
        } else {
            22
        }
    } else if row == 1 {
        if col == 0 {
            5
        } else if col == 1 {
            9
        } else if col == 2 {
            14
        } else {
            20
        }
    } else if row == 2 {
        if col == 0 {
            4
        } else if col == 1 {
            11
        } else if col == 2 {
            16
        } else {
            23
        }
    } else {
        if col == 0 {
            6
        } else if col == 1 {
            10
        } else if col == 2 {
            15
        } else {
            21
        }
    }
}

/// Hashes one buffer to its 32-character lowercase hexadecimal MD5
/// digest string.
pub fn str(input: &[u8]) -> (r: String)
    requires
        input@.len() <= max_message_len(),
    ensures
        r@ == spec_hex(md5_digest(input@)),
{
    let mut md5 = Md5::new();
    md5.update(input);
    assert(md5@ =~= input@);
    let digest = md5.finalize();
    hex_of_bytes(&digest)
}

/// The concatenation of a sequence of chunks.
pub open spec fn concat_chunks(chunks: Seq<Seq<u8>>) -> Seq<u8>
    decreases chunks.len(),
{
    if chunks.len() == 0 {
        Seq::empty()
    } else {
        concat_chunks(chunks.drop_last()) + chunks.last()
    }
}

/// Streaming law: feeding the chunks one `update` at a time hashes
/// their concatenation, so any chunking of a byte sequence produces the
/// digest of the whole.
pub fn str_chunked(chunks: &Vec<Vec<u8>>) -> (r: String)
    requires
        concat_chunks(chunks@.map_values(|c: Vec<u8>| c@)).len() <= max_message_len(),
    ensures
        r@ == spec_hex(md5_digest(concat_chunks(chunks@.map_values(|c: Vec<u8>| c@)))),
{
    let ghost cs = chunks@.map_values(|c: Vec<u8>| c@);
    let mut md5 = Md5::new();
    let mut i: usize = 0;
    proof {
        assert(md5@ =~= concat_chunks(cs.take(0)));
    }
    while i < chunks.len()
        invariant
            i <= chunks@.len(),
            cs == chunks@.map_values(|c: Vec<u8>| c@),
            concat_chunks(cs).len() <= max_message_len(),
            md5.wf(),
            md5@ == concat_chunks(cs.take(i as int)),
        decreases chunks@.len() - i,
    {
        proof {
            lemma_concat_chunks_prefix(cs, i as int);
            assert(cs.take(i + 1).drop_last() =~= cs.take(i as int));
            assert(cs.take(i + 1).last() == cs[i as int]);
        }
        md5.update(chunks[i].as_slice());
        i = i + 1;
        proof {
            assert(md5@ =~= concat_chunks(cs.take(i as int)));
        }
    }
    proof {
        assert(cs.take(cs.len() as int) =~= cs);
    }
    let digest = md5.finalize();
    hex_of_bytes(&digest)
}

/// A prefix of the chunks concatenates to a prefix of the whole: its
/// length never exceeds the total.
proof fn lemma_concat_chunks_prefix(cs: Seq<Seq<u8>>, i: int)
    requires
        0 <= i <= cs.len(),
    ensures
        concat_chunks(cs.take(i)).len() + (if i < cs.len() {
            cs[i].len()
        } else {
            0
        }) <= concat_chunks(cs).len(),
    decreases cs.len() - i,
{
    if i < cs.len() {
        lemma_concat_chunks_prefix(cs, i + 1);
        assert(cs.take(i + 1).drop_last() =~= cs.take(i));
        assert(cs.take(i + 1).last() == cs[i]);
    } else {
        assert(cs.take(i) =~= cs);
    }
}

/// Hashes a buffer with a salt appended after it; the digest is that of
/// the concatenation `input + salt`.
pub fn salt(input: &[u8], suffix: &[u8]) -> (r: String)
    requires
        input@.len() + suffix@.len() <= max_message_len(),
    ensures
        r@ == spec_hex(md5_digest(input@ + suffix@)),
{
    let mut md5 = Md5::new();
    md5.update(input);
    md5.update(suffix);
    assert(md5@ =~= input@ + suffix@);
    let digest = md5.finalize();
    hex_of_bytes(&digest)
}

} // verus!
