//! Row reordering and bit-packing of the index buffer into 32-bit words,
//! with the inverse (decode-time) extraction and its correctness proofs.

use vstd::prelude::*;

use vstd::arithmetic::div_mod::{
    lemma_div_denominator, lemma_div_multiples_vanish, lemma_fundamental_div_mod,
    lemma_fundamental_div_mod_converse,
};
use vstd::arithmetic::power2::{lemma2_to64, lemma_pow2_adds, pow2};

verus! {

/// Whether `b` is a bit-width that the planner can produce for a packable
/// palette: a power of two dividing 32, at most 16.
pub open spec fn valid_bits(b: nat) -> bool {
    b == 1 || b == 2 || b == 4 || b == 8 || b == 16
}

/// How many indices fit in one 32-bit word at `b` bits each.
pub open spec fn chunk_len(b: nat) -> nat {
    32nat / b
}

/// The value of one chunk read as a little-endian base-`2^b` numeral:
/// `chunk[0]` lands at bit offset 0, `chunk[j]` at bit offset `b * j`.
pub open spec fn word_of(chunk: Seq<u32>, b: nat) -> nat
    decreases chunk.len(),
{
    if chunk.len() == 0 {
        0
    } else {
        (chunk[0] as nat) + pow2(b) * word_of(chunk.drop_first(), b)
    }
}

/// A chunk of base-`2^b` digits is worth less than `2^(b * len)`.
pub proof fn lemma_word_of_bound(chunk: Seq<u32>, b: nat)
    requires
        forall|j: int| 0 <= j < chunk.len() ==> (chunk[j] as nat) < pow2(b),
    ensures
        word_of(chunk, b) < pow2(b * chunk.len()),
    decreases chunk.len(),
{
    if chunk.len() == 0 {
        lemma2_to64();
    } else {
        let rest = chunk.drop_first();
        assert(forall|j: int| 0 <= j < rest.len() ==> (rest[j] as nat) < pow2(b));
        lemma_word_of_bound(rest, b);
        lemma_pow2_adds(b, b * rest.len());
        assert(b + b * rest.len() == b * chunk.len()) by (nonlinear_arith)
            requires
                rest.len() + 1 == chunk.len(),
        ;
        assert(pow2(b) * word_of(rest, b) <= pow2(b) * (pow2(b * rest.len()) - 1))
            by (nonlinear_arith)
            requires
                word_of(rest, b) <= pow2(b * rest.len()) - 1,
                pow2(b) >= 0,
        ;
        assert(pow2(b) * (pow2(b * rest.len()) - 1) == pow2(b) * pow2(b * rest.len()) - pow2(b))
            by (nonlinear_arith);
    }
}

/// Digit extraction: dividing the word by `2^(b*j)` and keeping the low `b`
/// bits recovers `chunk[j]` exactly.
pub proof fn lemma_word_of_digit(chunk: Seq<u32>, b: nat, j: int)
    requires
        b >= 1,
        forall|t: int| 0 <= t < chunk.len() ==> (chunk[t] as nat) < pow2(b),
        0 <= j < chunk.len(),
    ensures
        (word_of(chunk, b) / pow2(b * j as nat)) % pow2(b) == chunk[j] as nat,
    decreases j,
{
    let w = word_of(chunk, b) as int;
    let rest = chunk.drop_first();
    let c0 = chunk[0] as int;
    let p = pow2(b) as int;
    assert(forall|t: int| 0 <= t < rest.len() ==> (rest[t] as nat) < pow2(b));
    vstd::arithmetic::power2::lemma_pow2_pos(b);
    assert(w == (word_of(rest, b) as int) * p + c0) by (nonlinear_arith)
        requires
            w == c0 + p * (word_of(rest, b) as int),
    ;
    lemma_fundamental_div_mod_converse(w, p, word_of(rest, b) as int, c0);
    if j == 0 {
        lemma2_to64();
        assert(b * 0nat == 0) by (nonlinear_arith);
        assert(pow2(b * 0nat) == 1);
        lemma_div_multiples_vanish(w, 1);
    } else {
        lemma_word_of_digit(rest, b, j - 1);
        lemma_pow2_adds(b, b * ((j - 1) as nat));
        assert(b + b * ((j - 1) as nat) == b * (j as nat)) by (nonlinear_arith)
            requires
                j >= 1,
        ;
        vstd::arithmetic::power2::lemma_pow2_pos(b * ((j - 1) as nat));
        lemma_div_denominator(w, p, pow2(b * ((j - 1) as nat)) as int);
        assert(w / p == word_of(rest, b) as int);
        assert((w / p) / (pow2(b * ((j - 1) as nat)) as int) == w / (pow2(b * (j as nat)) as int));
        assert(rest[j - 1] == chunk[j]);
    }
}

/// The `k`-th run of `size` consecutive indices, zero-padded past the end of
/// the buffer.
pub open spec fn chunk_at(buffer: Seq<u32>, size: nat, k: int) -> Seq<u32> {
    Seq::new(size, |j: int| if k * (size as int) + j < buffer.len() {
        buffer[k * (size as int) + j]
    } else {
        0u32
    })
}

/// How many chunks of `size` the buffer fills, the last one possibly
/// partial.
pub open spec fn num_chunks(len: nat, size: nat) -> nat
    recommends
        size >= 1,
{
    len / size + (if len % size == 0 {
        0nat
    } else {
        1nat
    })
}

/// One packed word: the chunk folded at `b` bits per index. With
/// `reverse_each_chunk` the chunk's first index lands at bit offset 0
/// (decode shift `j * b`); without it the fold runs forward, so the first
/// index lands at the highest used offset (decode shift `(size-1-j) * b`).
pub open spec fn word32(chunk: Seq<u32>, b: nat, reverse_each_chunk: bool) -> u32 {
    if reverse_each_chunk {
        word_of(chunk, b) as u32
    } else {
        word_of(chunk.reverse(), b) as u32
    }
}

/// The whole packed word sequence for a (possibly row-reordered) index
/// buffer.
pub open spec fn packed_words(buffer: Seq<u32>, b: nat, reverse_each_chunk: bool) -> Seq<u32> {
    Seq::new(
        num_chunks(buffer.len(), chunk_len(b)),
        |k: int| word32(chunk_at(buffer, chunk_len(b), k), b, reverse_each_chunk),
    )
}

/// What the generated shader computes for pixel position `i` of the ordered
/// buffer: select the word, shift by the offset the chunk-order policy
/// dictates, and mask to `b` bits.
pub open spec fn unpacked_index(
    words: Seq<u32>,
    b: nat,
    reverse_each_chunk: bool,
    i: int,
) -> u32 {
    let size = chunk_len(b) as int;
    let k = i / size;
    let j = i % size;
    let sh = if reverse_each_chunk {
        b * j as nat
    } else {
        b * ((size - 1 - j) as nat)
    };
    (((words[k] as nat) / pow2(sh)) % pow2(b)) as u32
}

/// Pack/unpack inverse: for every bit width the planner can choose, either
/// chunk-order policy, and every in-range position, applying the matching
/// decode-time shift/mask formula to the packed words reproduces the
/// original index exactly.
pub proof fn lemma_pack_unpack(buffer: Seq<u32>, b: nat, reverse_each_chunk: bool, i: int)
    requires
        valid_bits(b),
        forall|t: int| 0 <= t < buffer.len() ==> (buffer[t] as nat) < pow2(b),
        0 <= i < buffer.len(),
    ensures
        unpacked_index(packed_words(buffer, b, reverse_each_chunk), b, reverse_each_chunk, i)
            == buffer[i],
{
    let size = chunk_len(b) as int;
    let k = i / size;
    let j = i % size;
    vstd::arithmetic::div_mod::lemma_mod_bound(i, size);
    assert(0 <= k) by {
        vstd::arithmetic::div_mod::lemma_div_is_ordered(0, i, size);
    }
    let chunk = chunk_at(buffer, chunk_len(b), k);
    assert(forall|t: int| 0 <= t < chunk.len() ==> (chunk[t] as nat) < pow2(b)) by {
        lemma2_to64();
    }
    lemma_fundamental_div_mod(i, size);
    assert(k * size + j == i);
    assert(chunk[j] == buffer[i]);
    // The word index is in range.
    assert(k < num_chunks(buffer.len(), chunk_len(b))) by {
        let len = buffer.len() as int;
        let q = len / size;
        let r = len % size;
        lemma_fundamental_div_mod(len, size);
        vstd::arithmetic::div_mod::lemma_mod_bound(len, size);
        if k >= num_chunks(buffer.len(), chunk_len(b)) {
            assert(k * size + j >= (num_chunks(buffer.len(), chunk_len(b)) as int) * size)
                by (nonlinear_arith)
                requires
                    k >= num_chunks(buffer.len(), chunk_len(b)),
                    size >= 1,
                    j >= 0,
            ;
            if r == 0 {
                assert((num_chunks(buffer.len(), chunk_len(b)) as int) * size == q * size);
            } else {
                assert((num_chunks(buffer.len(), chunk_len(b)) as int) * size == (q + 1) * size);
                assert((q + 1) * size == q * size + size) by (nonlinear_arith);
            }
        }
    }
    let words = packed_words(buffer, b, reverse_each_chunk);
    lemma_word_of_bound(chunk, b);
    lemma_word_of_bound(chunk.reverse(), b);
    assert(b * chunk.len() == 32) by {
        lemma_bits_times_chunk(b);
    }
    lemma2_to64();
    if reverse_each_chunk {
        assert(words[k] as nat == word_of(chunk, b));
        lemma_word_of_digit(chunk, b, j);
    } else {
        assert(chunk.reverse().len() == size);
        assert(words[k] as nat == word_of(chunk.reverse(), b));
        lemma_word_of_digit(chunk.reverse(), b, size - 1 - j);
        assert(chunk.reverse()[size - 1 - j] == chunk[j]);
    }
}

/// `b * (32 / b) == 32` for every valid bit width.
pub proof fn lemma_bits_times_chunk(b: nat)
    requires
        valid_bits(b),
    ensures
        b * chunk_len(b) == 32,
        1 <= chunk_len(b) <= 32,
{
}

/// A position below `len` falls in a chunk index below `num_chunks(len)`.
proof fn lemma_chunk_index_bound(i: int, len: int, size: int)
    requires
        0 <= i < len,
        size >= 1,
    ensures
        0 <= i / size < num_chunks(len as nat, size as nat),
        0 <= i % size < size,
{
    vstd::arithmetic::div_mod::lemma_mod_bound(i, size);
    assert(0 <= i / size) by {
        vstd::arithmetic::div_mod::lemma_div_is_ordered(0, i, size);
    }
    let k = i / size;
    let j = i % size;
    lemma_fundamental_div_mod(i, size);
    let q = len / size;
    let r = len % size;
    lemma_fundamental_div_mod(len, size);
    vstd::arithmetic::div_mod::lemma_mod_bound(len, size);
    let nc = num_chunks(len as nat, size as nat) as int;
    assert((len as nat) == len && (size as nat) == size);
    assert(r == 0 ==> nc == q);
    assert(r != 0 ==> nc == q + 1);
    if k >= nc {
        assert(false) by (nonlinear_arith)
            requires
                i == size * k + j,
                j >= 0,
                len == size * q + r,
                0 <= r < size,
                size >= 1,
                k >= nc,
                r == 0 ==> nc == q,
                r != 0 ==> nc == q + 1,
                i < len,
        ;
    }
}

fn exec_num_chunks(len: usize, size: usize) -> (r: usize)
    requires
        size >= 1,
    ensures
        r == num_chunks(len as nat, size as nat),
{
    let q = len / size;
    if len % size != 0 {
        proof {
            lemma_fundamental_div_mod(len as int, size as int);
            assert(size >= 2);
            assert((size as int) * (q as int) >= 2 * (q as int)) by (nonlinear_arith)
                requires
                    size >= 2,
                    q >= 0,
            ;
        }
        q + 1
    } else {
        q
    }
}

fn pow2_multiplier(bits: usize) -> (r: u32)
    requires
        valid_bits(bits as nat),
    ensures
        r as nat == pow2(bits as nat),
{
    proof {
        lemma2_to64();
    }
    match bits {
        1 => 2,
        2 => 4,
        4 => 16,
        8 => 256,
        _ => 65536,
    }
}

fn pow2_u32(e: usize) -> (r: u32)
    requires
        e <= 31,
    ensures
        r as nat == pow2(e as nat),
{
    let mut r: u32 = 1;
    let mut t: usize = 0;
    proof {
        lemma2_to64();
    }
    while t < e
        invariant
            t <= e,
            e <= 31,
            r as nat == pow2(t as nat),
        decreases e - t,
    {
        proof {
            lemma2_to64();
            vstd::arithmetic::power2::lemma_pow2_strictly_increases(t as nat, 31);
            vstd::arithmetic::power2::lemma_pow2_unfold((t + 1) as nat);
        }
        r = r * 2;
        t += 1;
    }
    r
}

/// Folds the (already row-ordered) index buffer into packed 32-bit words,
/// `chunk_len(bits)` indices per word, zero-padding the final chunk, in the
/// fold order that `reverse_each_chunk` selects.
pub fn pack_buffer(buffer: &Vec<u32>, bits: usize, reverse_each_chunk: bool) -> (r: Vec<u32>)
    requires
        valid_bits(bits as nat),
        forall|t: int| 0 <= t < buffer@.len() ==> (buffer@[t] as nat) < pow2(bits as nat),
    ensures
        r@ == packed_words(buffer@, bits as nat, reverse_each_chunk),
{
    let ghost b = bits as nat;
    let len = buffer.len();
    let size = 32 / bits;
    proof {
        lemma_bits_times_chunk(b);
    }
    let mult: u32 = pow2_multiplier(bits);
    let nchunks = exec_num_chunks(len, size);
    let mut words: Vec<u32> = Vec::new();
    let mut k: usize = 0;
    while k < nchunks
        invariant
            b == bits as nat,
            valid_bits(b),
            size == chunk_len(b),
            1 <= size <= 32,
            b * (size as nat) == 32,
            mult as nat == pow2(b),
            len == buffer@.len(),
            forall|t: int| 0 <= t < buffer@.len() ==> (buffer@[t] as nat) < pow2(b),
            nchunks == num_chunks(len as nat, size as nat),
            k <= nchunks,
            words@ == packed_words(buffer@, b, reverse_each_chunk).take(k as int),
        decreases nchunks - k,
    {
        let ghost chunk = chunk_at(buffer@, size as nat, k as int);
        let ghost d = if reverse_each_chunk {
            chunk
        } else {
            chunk.reverse()
        };
        proof {
            assert forall|t: int| 0 <= t < d.len() implies (d[t] as nat) < pow2(b) by {
                vstd::arithmetic::power2::lemma_pow2_pos(b);
            }
        }
        // The chunk's base position lies strictly inside the buffer.
        proof {
            lemma_fundamental_div_mod(len as int, size as int);
            vstd::arithmetic::div_mod::lemma_mod_bound(len as int, size as int);
            assert(((len / size) as int - 1) * (size as int) == ((len / size) as int) * (size
                as int) - (size as int)) by (nonlinear_arith);
            if len % size == 0 {
                assert((k as int) * (size as int) <= ((len / size) as int - 1) * (size as int))
                    by (nonlinear_arith)
                    requires
                        k as int <= (len / size) as int - 1,
                        size >= 1,
                ;
            } else {
                assert((k as int) * (size as int) <= ((len / size) as int) * (size as int))
                    by (nonlinear_arith)
                    requires
                        k as int <= (len / size) as int,
                        size >= 1,
                ;
            }
        }
        let base = k * size;
        assert(base < len);
        let mut word: u32 = 0;
        let mut t: usize = 0;
        while t < size
            invariant
                b == bits as nat,
                valid_bits(b),
                size == chunk_len(b),
                1 <= size <= 32,
                b * (size as nat) == 32,
                mult as nat == pow2(b),
                len == buffer@.len(),
                forall|tt: int| 0 <= tt < buffer@.len() ==> (buffer@[tt] as nat) < pow2(b),
                forall|tt: int| 0 <= tt < d.len() ==> (d[tt] as nat) < pow2(b),
                chunk == chunk_at(buffer@, size as nat, k as int),
                d == (if reverse_each_chunk {
                    chunk
                } else {
                    chunk.reverse()
                }),
                base == (k as int) * (size as int),
                base < len,
                t <= size,
                word as nat == word_of(d.skip((size - t) as int), b),
            decreases size - t,
        {
            let idx = if reverse_each_chunk {
                size - 1 - t
            } else {
                t
            };
            let e: u32 = if idx < len - base {
                buffer[base + idx]
            } else {
                0
            };
            proof {
                assert(chunk[idx as int] == e);
                assert(d[(size - t - 1) as int] == chunk[idx as int]);
                // No overflow: the running word stays under `2^(b*(t+1))`.
                let rest = d.skip((size - t) as int);
                lemma_word_of_bound(rest, b);
                assert(b * rest.len() == b * (t as nat)) by (nonlinear_arith)
                    requires
                        rest.len() == t as nat,
                ;
                lemma_pow2_adds(b * (t as nat), b);
                assert((word as nat) * pow2(b) <= (pow2(b * (t as nat)) - 1) * pow2(b))
                    by (nonlinear_arith)
                    requires
                        word as nat <= pow2(b * (t as nat)) - 1,
                        pow2(b) >= 0,
                ;
                assert((pow2(b * (t as nat)) - 1) * pow2(b) == pow2(b * (t as nat)) * pow2(b)
                    - pow2(b)) by (nonlinear_arith);
                assert(b * (t as nat) + b == b * ((t + 1) as nat)) by (nonlinear_arith);
                assert(b * ((t + 1) as nat) <= 32) by (nonlinear_arith)
                    requires
                        t as nat + 1 <= size as nat,
                        b * (size as nat) == 32,
                        b >= 1,
                ;
                vstd::arithmetic::power2::lemma_pow2_strictly_increases(b * ((t + 1) as nat), 33);
                if b * ((t + 1) as nat) < 32 {
                    vstd::arithmetic::power2::lemma_pow2_strictly_increases(
                        b * ((t + 1) as nat),
                        32,
                    );
                }
                lemma2_to64();
                // The new word is the next suffix value, definitionally.
                let snext = d.skip((size - t - 1) as int);
                assert(snext.drop_first() =~= rest);
                assert(word_of(snext, b) == (snext[0] as nat) + pow2(b) * word_of(rest, b));
            }
            word = word * mult + e;
            t += 1;
        }
        proof {
            assert(d.skip(0) =~= d);
            lemma_word_of_bound(d, b);
            assert(b * d.len() == 32) by (nonlinear_arith)
                requires
                    d.len() == size as nat,
                    b * (size as nat) == 32,
            ;
            lemma2_to64();
            assert(word as nat == word_of(d, b));
            assert(word == word32(chunk, b, reverse_each_chunk));
        }
        words.push(word);
        k += 1;
        proof {
            assert(words@ =~= packed_words(buffer@, b, reverse_each_chunk).take(k as int));
        }
    }
    proof {
        assert(words@ =~= packed_words(buffer@, b, reverse_each_chunk));
    }
    words
}

/// Applies the decode-time shift/mask formula to every position, recovering
/// the index sequence from the packed words.
pub fn unpack_buffer(words: &Vec<u32>, bits: usize, reverse_each_chunk: bool, count: usize) -> (r:
    Vec<u32>)
    requires
        valid_bits(bits as nat),
        num_chunks(count as nat, chunk_len(bits as nat)) <= words@.len(),
    ensures
        r@.len() == count,
        forall|i: int|
            0 <= i < count ==> r@[i] == unpacked_index(
                words@,
                bits as nat,
                reverse_each_chunk,
                i,
            ),
{
    let ghost b = bits as nat;
    let size = 32 / bits;
    proof {
        lemma_bits_times_chunk(b);
    }
    let mult: u32 = pow2_multiplier(bits);
    let mut out: Vec<u32> = Vec::new();
    let mut i: usize = 0;
    while i < count
        invariant
            b == bits as nat,
            valid_bits(b),
            size == chunk_len(b),
            1 <= size <= 32,
            b * (size as nat) == 32,
            mult as nat == pow2(b),
            num_chunks(count as nat, chunk_len(b)) <= words@.len(),
            i <= count,
            out@.len() == i,
            forall|t: int|
                0 <= t < i ==> out@[t] == unpacked_index(words@, b, reverse_each_chunk, t),
        decreases count - i,
    {
        proof {
            lemma_chunk_index_bound(i as int, count as int, size as int);
        }
        let k = i / size;
        let j = i % size;
        let sh = if reverse_each_chunk {
            bits * j
        } else {
            bits * (size - 1 - j)
        };
        proof {
            assert(bits * j <= bits * (size - 1)) by (nonlinear_arith)
                requires
                    0 <= j <= size - 1,
                    bits >= 1,
            ;
            assert(bits * (size - 1 - j) <= bits * (size - 1)) by (nonlinear_arith)
                requires
                    0 <= size - 1 - j <= size - 1,
                    bits >= 1,
            ;
            assert((bits as int) * ((size - 1) as int) == 32 - bits) by (nonlinear_arith)
                requires
                    (bits as int) * (size as int) == 32,
            ;
        }
        let divisor = pow2_u32(sh);
        proof {
            vstd::arithmetic::power2::lemma_pow2_pos(sh as nat);
            vstd::arithmetic::power2::lemma_pow2_pos(b);
        }
        let v = (words[k] / divisor) % mult;
        proof {
            assert(v == unpacked_index(words@, b, reverse_each_chunk, i as int));
        }
        out.push(v);
        i += 1;
    }
    out
}

/// The buffer with its rows in reversed vertical order: entry `(x, y)` of
/// the result is entry `(x, height - 1 - y)` of the input.
pub open spec fn rows_reversed(buffer: Seq<u32>, width: nat, height: nat) -> Seq<u32>
    recommends
        width >= 1,
        buffer.len() == width * height,
{
    Seq::new(
        buffer.len(),
        |i: int|
            buffer[(height - 1 - i / (width as int)) * (width as int) + i % (width as int)],
    )
}

/// The buffer in the order the emitted text lists it: rows flipped when
/// `reverse_rows` is set, decode order otherwise.
pub open spec fn ordered_buffer(
    buffer: Seq<u32>,
    width: nat,
    height: nat,
    reverse_rows: bool,
) -> Seq<u32> {
    if reverse_rows {
        rows_reversed(buffer, width, height)
    } else {
        buffer
    }
}

/// Produces the row order that the buffer is emitted in.
pub fn reorder_rows(buffer: &Vec<u32>, width: u32, height: u32, reverse_rows: bool) -> (r: Vec<
    u32,
>)
    requires
        width >= 1,
        height >= 1,
        buffer@.len() == (width as nat) * (height as nat),
    ensures
        r@ == ordered_buffer(buffer@, width as nat, height as nat, reverse_rows),
        r@.len() == buffer@.len(),
{
    let len = buffer.len();
    let mut out: Vec<u32> = Vec::new();
    if !reverse_rows {
        let mut i: usize = 0;
        while i < len
            invariant
                len == buffer@.len(),
                i <= len,
                out@ == buffer@.take(i as int),
            decreases len - i,
        {
            out.push(buffer[i]);
            proof {
                assert(out@ =~= buffer@.take(i + 1));
            }
            i += 1;
        }
        proof {
            assert(out@ =~= buffer@);
        }
    } else {
        let w = width as usize;
        let h = height as usize;
        let mut row: usize = 0;
        while row < h
            invariant
                w == width as nat,
                h == height as nat,
                w >= 1,
                h >= 1,
                len == buffer@.len(),
                len == (width as nat) * (height as nat),
                row <= h,
                out@.len() == (row as int) * (w as int),
                forall|i: int|
                    0 <= i < out@.len() ==> out@[i] == rows_reversed(
                        buffer@,
                        width as nat,
                        height as nat,
                    )[i],
            decreases h - row,
        {
            let src_row = h - 1 - row;
            let mut col: usize = 0;
            proof {
                assert((src_row as int) * (w as int) + (w as int) <= (h as int) * (w as int))
                    by (nonlinear_arith)
                    requires
                        src_row as int <= (h as int) - 1,
                        w >= 1,
                ;
                assert((h as int) * (w as int) == (width as int) * (height as int))
                    by (nonlinear_arith)
                    requires
                        h == height as int && w == width as int,
                ;
                assert((row as int) * (w as int) + (w as int) <= (h as int) * (w as int))
                    by (nonlinear_arith)
                    requires
                        row as int <= (h as int) - 1,
                        w >= 1,
                ;
            }
            while col < w
                invariant
                    w == width as nat,
                    h == height as nat,
                    w >= 1,
                    h >= 1,
                    len == buffer@.len(),
                    len == (width as nat) * (height as nat),
                    row < h,
                    col <= w,
                    src_row == h - 1 - row,
                    (src_row as int) * (w as int) + (w as int) <= len,
                    (row as int) * (w as int) + (w as int) <= (h as int) * (w as int),
                    out@.len() == (row as int) * (w as int) + (col as int),
                    forall|i: int|
                        0 <= i < out@.len() ==> out@[i] == rows_reversed(
                            buffer@,
                            width as nat,
                            height as nat,
                        )[i],
                decreases w - col,
            {
                let src = src_row * w + col;
                out.push(buffer[src]);
                proof {
                    let i0 = (row as int) * (w as int) + (col as int);
                    lemma_fundamental_div_mod_converse(i0, w as int, row as int, col as int);
                    assert(rows_reversed(buffer@, width as nat, height as nat)[i0] == buffer@[(
                    h - 1 - row) as int * (w as int) + (col as int)]);
                }
                col += 1;
            }
            proof {
                assert(((row + 1) as int) * (w as int) == (row as int) * (w as int) + (w as int))
                    by (nonlinear_arith);
            }
            row += 1;
        }
        proof {
            assert(out@.len() == (h as int) * (w as int));
            assert((h as int) * (w as int) == len) by (nonlinear_arith)
                requires
                    len == (width as nat) * (height as nat),
                    h == height as int && w == width as int,
            ;
            assert(out@ =~= rows_reversed(buffer@, width as nat, height as nat));
        }
    }
    out
}

/// The largest value in the sequence.
pub open spec fn seq_max(s: Seq<u32>) -> u32
    recommends
        s.len() >= 1,
    decreases s.len(),
{
    if s.len() <= 1 {
        if s.len() == 0 {
            0u32
        } else {
            s[0]
        }
    } else {
        let m = seq_max(s.drop_last());
        if s.last() > m {
            s.last()
        } else {
            m
        }
    }
}

/// The largest packed word; decides whether the emitted array can use plain
/// (signed) integer literals.
pub fn max_word(v: &Vec<u32>) -> (r: u32)
    requires
        v@.len() >= 1,
    ensures
        r == seq_max(v@),
{
    let mut m = v[0];
    let mut i: usize = 1;
    proof {
        assert(v@.take(1).len() == 1);
        assert(v@.take(1)[0] == v@[0]);
    }
    while i < v.len()
        invariant
            1 <= i <= v@.len(),
            m == seq_max(v@.take(i as int)),
        decreases v@.len() - i,
    {
        let x = v[i];
        proof {
            let t = v@.take(i + 1);
            assert(t.drop_last() =~= v@.take(i as int));
            assert(t.last() == v@[i as int]);
        }
        if x > m {
            m = x;
        }
        i += 1;
    }
    proof {
        assert(v@.take(v@.len() as int) =~= v@);
    }
    m
}

} // verus!
