use vstd::prelude::*;

use crate::config::Endian;
use vstd::arithmetic::div_mod::{lemma_div_denominator, lemma_mod_breakdown};

verus! {

/// 256 to the `n`: how many values `n` bytes can hold.
pub open spec fn pow256(n: nat) -> int
    decreases n,
{
    if n == 0 {
        1
    } else {
        256 * pow256((n - 1) as nat)
    }
}

/// The low-order `n` bytes of `w`, least significant byte first.
pub open spec fn le_bytes(w: u64, n: nat) -> Seq<u8>
    decreases n,
{
    if n == 0 {
        Seq::empty()
    } else {
        seq![(w % 256) as u8] + le_bytes(w / 256, (n - 1) as nat)
    }
}

/// The value a byte sequence denotes, least significant byte first.
pub open spec fn le_value(s: Seq<u8>) -> int
    decreases s.len(),
{
    if s.len() == 0 {
        0
    } else {
        s[0] + 256 * le_value(s.drop_first())
    }
}

/// The bytes of `w` truncated to word size `n`, in the given byte order.
pub open spec fn word_bytes(w: u64, n: nat, e: Endian) -> Seq<u8> {
    match e {
        Endian::Little => le_bytes(w, n),
        Endian::Big => le_bytes(w, n).reverse(),
    }
}

/// The value a word-sized byte sequence denotes in the given byte order.
pub open spec fn word_value(s: Seq<u8>, e: Endian) -> int {
    match e {
        Endian::Little => le_value(s),
        Endian::Big => le_value(s.reverse()),
    }
}

/// A chromosome serialized allele by allele at word size `n`.
pub open spec fn pack_bytes(words: Seq<u64>, n: nat, e: Endian) -> Seq<u8>
    decreases words.len(),
{
    if words.len() == 0 {
        Seq::empty()
    } else {
        word_bytes(words[0], n, e) + pack_bytes(words.drop_first(), n, e)
    }
}

pub proof fn lemma_pow256_pos(n: nat)
    ensures
        pow256(n) >= 1,
    decreases n,
{
    if n > 0 {
        lemma_pow256_pos((n - 1) as nat);
    }
}

proof fn lemma_le_bytes_len(w: u64, n: nat)
    ensures
        le_bytes(w, n).len() == n,
    decreases n,
{
    if n > 0 {
        lemma_le_bytes_len(w / 256, (n - 1) as nat);
    }
}

/// Decoding undoes encoding, up to truncation at the word size.
proof fn lemma_le_roundtrip(w: u64, n: nat)
    ensures
        le_value(le_bytes(w, n)) == w as int % pow256(n),
    decreases n,
{
    lemma_pow256_pos(n);
    if n == 0 {
        assert(w as int % 1 == 0);
    } else {
        lemma_le_roundtrip(w / 256, (n - 1) as nat);
        lemma_le_bytes_len(w / 256, (n - 1) as nat);
        let s = le_bytes(w, n);
        assert(s.drop_first() =~= le_bytes(w / 256, (n - 1) as nat));
        lemma_pow256_pos((n - 1) as nat);
        lemma_mod_breakdown(w as int, 256, pow256((n - 1) as nat));
    }
}

/// Every decoded value fits in the word size.
proof fn lemma_le_value_bound(s: Seq<u8>)
    ensures
        0 <= le_value(s) < pow256(s.len()),
    decreases s.len(),
{
    if s.len() == 0 {
    } else {
        lemma_le_value_bound(s.drop_first());
        let rest = le_value(s.drop_first());
        let p = pow256((s.len() - 1) as nat);
        assert(256 * rest <= 256 * (p - 1)) by (nonlinear_arith)
            requires
                rest <= p - 1,
        ;
    }
}

/// The packed form of `k` words occupies exactly `k` times the word size.
pub proof fn lemma_pack_bytes_len(words: Seq<u64>, n: nat, e: Endian)
    ensures
        pack_bytes(words, n, e).len() == words.len() * n,
    decreases words.len(),
{
    if words.len() == 0 {
    } else {
        lemma_pack_bytes_len(words.drop_first(), n, e);
        lemma_le_bytes_len(words[0], n);
        assert((words.len() - 1) * n == words.len() * n - n) by (nonlinear_arith);
    }
}

/// Round trip of one word: decoding its bytes, in either byte order,
/// gives the word reduced modulo the word size.
pub proof fn lemma_word_roundtrip(w: u64, n: nat, e: Endian)
    ensures
        word_bytes(w, n, e).len() == n,
        word_value(word_bytes(w, n, e), e) == w as int % pow256(n),
{
    lemma_le_bytes_len(w, n);
    lemma_le_roundtrip(w, n);
    match e {
        Endian::Little => {},
        Endian::Big => {
            assert(le_bytes(w, n).reverse().reverse() =~= le_bytes(w, n));
        },
    }
}

/// Packing round trip over a whole chromosome: the buffer is exactly
/// `words.len() * n` bytes, and the `i`th word-sized chunk decodes back
/// to the `i`th allele truncated to the word size.
pub proof fn lemma_pack_roundtrip(words: Seq<u64>, n: nat, e: Endian)
    requires
        n > 0,
    ensures
        pack_bytes(words, n, e).len() == words.len() * n,
        forall|i: int|
            0 <= i < words.len() ==> word_value(
                #[trigger] pack_bytes(words, n, e).subrange(i * n, i * n + n),
                e,
            ) == words[i] as int % pow256(n),
    decreases words.len(),
{
    lemma_pack_bytes_len(words, n, e);
    if words.len() > 0 {
        let rest = words.drop_first();
        lemma_pack_roundtrip(rest, n, e);
        lemma_pack_bytes_len(rest, n, e);
        lemma_word_roundtrip(words[0], n, e);
        let whole = pack_bytes(words, n, e);
        assert(whole.subrange(0, n as int) =~= word_bytes(words[0], n, e));
        assert forall|i: int| 0 <= i < words.len() implies word_value(
            #[trigger] whole.subrange(i * n, i * n + n),
            e,
        ) == words[i] as int % pow256(n) by {
            if i == 0 {
            } else {
                let j = i - 1;
                assert(0 <= j < rest.len());
                assert(j * n == i * n - n) by (nonlinear_arith)
                    requires
                        j == i - 1,
                ;
                assert(0 <= j * n && j * n + n <= rest.len() * n) by (nonlinear_arith)
                    requires
                        0 <= j < rest.len(),
                        n > 0,
                ;
                assert(whole.subrange(i * n, i * n + n) =~= pack_bytes(rest, n, e).subrange(
                    j * n,
                    j * n + n,
                ));
                assert(word_value(pack_bytes(rest, n, e).subrange(j * n, j * n + n), e)
                    == rest[j] as int % pow256(n));
            }
        }
    }
}

/// Encode one word in `word_size` bytes of the given byte order; the
/// machine layout of one allele on the target.
pub fn write_integer(endian: Endian, word_size: usize, word: u64) -> (r: Vec<u8>)
    requires
        word_size == 2 || word_size == 4 || word_size == 8,
    ensures
        r@ == word_bytes(word, word_size as nat, endian),
        r@.len() == word_size,
{
    let le = le_write(word, word_size);
    match endian {
        Endian::Little => le,
        Endian::Big => {
            let mut be: Vec<u8> = Vec::new();
            let mut j: usize = word_size;
            while j > 0
                invariant
                    j <= word_size,
                    le@.len() == word_size,
                    le@ == le_bytes(word, word_size as nat),
                    be@ =~= le@.subrange(j as int, word_size as int).reverse(),
                decreases j,
            {
                j = j - 1;
                let b = le[j];
                be.push(b);
                proof {
                    assert(le@.subrange(j as int, word_size as int).reverse() =~= le@.subrange(
                        j + 1,
                        word_size as int,
                    ).reverse().push(le@[j as int]));
                }
            }
            proof {
                assert(le@.subrange(0, word_size as int) =~= le@);
            }
            be
        },
    }
}

/// The little-endian bytes of `word`, built least significant first,
/// mirroring the shape of `le_bytes`.
fn le_write(word: u64, n: usize) -> (r: Vec<u8>)
    ensures
        r@ =~= le_bytes(word, n as nat),
        r@.len() == n,
    decreases n,
{
    if n == 0 {
        Vec::new()
    } else {
        let mut v = le_write(word / 256, n - 1);
        v.insert(0, (word % 256) as u8);
        proof {
            assert(v@ =~= le_bytes(word, n as nat));
        }
        v
    }
}

/// Decode the word stored at `offset` in `bytes`, in the given byte order.
pub fn read_word_at(bytes: &Vec<u8>, offset: usize, endian: Endian, word_size: usize) -> (r: u64)
    requires
        word_size == 2 || word_size == 4 || word_size == 8,
        offset + word_size <= bytes@.len(),
    ensures
        r as int == word_value(bytes@.subrange(offset as int, offset + word_size), endian),
{
    let bytes_len = bytes.len();
    let chunk_ghost = Ghost(bytes@.subrange(offset as int, offset + word_size));
    proof {
        assert(offset + word_size <= bytes_len);
        lemma_le_value_bound(chunk_ghost@);
        lemma_le_value_bound(chunk_ghost@.reverse());
        lemma_pow256_unfold_to_8();
    }
    match endian {
        Endian::Little => {
            // Horner evaluation from the most significant byte down.
            let mut val: u64 = 0;
            let mut j: usize = word_size;
            while j > 0
                invariant
                    j <= word_size,
                    word_size <= 8,
                    offset + word_size <= bytes@.len(),
                    bytes@.len() == bytes_len,
                    chunk_ghost@ == bytes@.subrange(offset as int, offset + word_size),
                    val as int == le_value(chunk_ghost@.subrange(j as int, word_size as int)),
                    (val as int) < pow256((word_size - j) as nat),
                decreases j,
            {
                proof {
                    lemma_le_value_bound(chunk_ghost@.subrange(j - 1, word_size as int));
                    lemma_pow256_unfold_to_8();
                    assert(chunk_ghost@.subrange(j - 1, word_size as int).drop_first()
                        =~= chunk_ghost@.subrange(j as int, word_size as int));
                }
                j = j - 1;
                let b = bytes[offset + j];
                assert(b == chunk_ghost@.subrange(j as int, word_size as int)[0]
                    == chunk_ghost@[j as int]);
                val = val * 256 + (b as u64);
            }
            proof {
                assert(chunk_ghost@.subrange(0, word_size as int) =~= chunk_ghost@);
            }
            val
        },
        Endian::Big => {
            // Most significant byte first: straight Horner evaluation.
            let mut val: u64 = 0;
            let mut j: usize = 0;
            while j < word_size
                invariant
                    j <= word_size,
                    word_size <= 8,
                    offset + word_size <= bytes@.len(),
                    bytes@.len() == bytes_len,
                    chunk_ghost@ == bytes@.subrange(offset as int, offset + word_size),
                    val as int == le_value(chunk_ghost@.subrange(0, j as int).reverse()),
                    (val as int) < pow256(j as nat),
                decreases word_size - j,
            {
                let b = bytes[offset + j];
                proof {
                    lemma_le_value_bound(chunk_ghost@.subrange(0, j as int).reverse());
                    lemma_pow256_unfold_to_8();
                    lemma_reverse_snoc(chunk_ghost@.subrange(0, j as int), chunk_ghost@[j as int]);
                    assert(chunk_ghost@.subrange(0, j + 1) =~= chunk_ghost@.subrange(
                        0,
                        j as int,
                    ).push(chunk_ghost@[j as int]));
                }
                val = val * 256 + (b as u64);
                j = j + 1;
            }
            proof {
                assert(chunk_ghost@.subrange(0, word_size as int) =~= chunk_ghost@);
            }
            val
        },
    }
}

/// Reversing after a push puts the pushed element in front.
proof fn lemma_reverse_snoc(s: Seq<u8>, b: u8)
    ensures
        s.push(b).reverse() =~= seq![b] + s.reverse(),
        le_value(s.push(b).reverse()) == b + 256 * le_value(s.reverse()),
{
    assert(s.push(b).reverse() =~= seq![b] + s.reverse());
    assert((seq![b] + s.reverse()).drop_first() =~= s.reverse());
}

/// The byte-count table up to the largest supported word.
proof fn lemma_pow256_unfold_to_8()
    ensures
        pow256(0) == 1,
        pow256(1) == 0x100,
        pow256(2) == 0x1_0000,
        pow256(3) == 0x100_0000,
        pow256(4) == 0x1_0000_0000,
        pow256(5) == 0x100_0000_0000,
        pow256(6) == 0x1_0000_0000_0000,
        pow256(7) == 0x100_0000_0000_0000,
        pow256(8) == 0x1_0000_0000_0000_0000,
{
    assert(pow256(1) == 256 * pow256(0));
    assert(pow256(2) == 256 * pow256(1));
    assert(pow256(3) == 256 * pow256(2));
    assert(pow256(4) == 256 * pow256(3));
    assert(pow256(5) == 256 * pow256(4));
    assert(pow256(6) == 256 * pow256(5));
    assert(pow256(7) == 256 * pow256(6));
    assert(pow256(8) == 256 * pow256(7));
}

/// Decode a word from the front of `bytes`, if enough bytes are there;
/// what the dereference mutation reads out of live memory.
pub fn read_integer(bytes: &Vec<u8>, endian: Endian, word_size: usize) -> (r: Option<u64>)
    requires
        word_size == 2 || word_size == 4 || word_size == 8,
    ensures
        match r {
            Some(v) => bytes@.len() >= word_size && v as int == word_value(
                bytes@.subrange(0, word_size as int),
                endian,
            ),
            None => bytes@.len() < word_size,
        },
{
    if bytes.len() < word_size {
        None
    } else {
        Some(read_word_at(bytes, 0, endian, word_size))
    }
}

/// Serialize a whole chromosome, allele by allele, at the given word
/// size and byte order.
pub fn pack_words(words: &Vec<u64>, word_size: usize, endian: Endian) -> (r: Vec<u8>)
    requires
        word_size == 2 || word_size == 4 || word_size == 8,
        words@.len() * word_size <= usize::MAX,
    ensures
        r@ =~= pack_bytes(words@, word_size as nat, endian),
        r@.len() == words@.len() * word_size,
{
    let mut out: Vec<u8> = Vec::new();
    let mut i: usize = 0;
    proof {
        lemma_pack_bytes_len(words@, word_size as nat, endian);
    }
    while i < words.len()
        invariant
            i <= words@.len(),
            word_size == 2 || word_size == 4 || word_size == 8,
            words@.len() * word_size <= usize::MAX,
            out@ =~= pack_bytes(words@.subrange(0, i as int), word_size as nat, endian),
            out@.len() == i * word_size,
        decreases words@.len() - i,
    {
        let word_buf = write_integer(endian, word_size, words[i]);
        let mut k: usize = 0;
        proof {
            assert(i * word_size + word_size <= words@.len() * word_size) by (nonlinear_arith)
                requires
                    i < words@.len(),
                    word_size > 0,
            ;
        }
        while k < word_buf.len()
            invariant
                k <= word_buf@.len(),
                out@.len() + word_buf@.len() - k <= usize::MAX,
                out@ =~= pack_bytes(words@.subrange(0, i as int), word_size as nat, endian)
                    + word_buf@.subrange(0, k as int),
            decreases word_buf@.len() - k,
        {
            let b = word_buf[k];
            out.push(b);
            k = k + 1;
            proof {
                assert(word_buf@.subrange(0, k as int) =~= word_buf@.subrange(
                    0,
                    k - 1,
                ).push(word_buf@[k - 1]));
            }
        }
        i = i + 1;
        proof {
            assert(word_buf@.subrange(0, word_buf@.len() as int) =~= word_buf@);
            lemma_pack_snoc(words@, i as int, word_size as nat, endian);
            lemma_pack_bytes_len(words@.subrange(0, i as int), word_size as nat, endian);
        }
    }
    proof {
        assert(words@.subrange(0, words@.len() as int) =~= words@);
    }
    out
}

/// Packing one more word appends its bytes to the packed prefix.
proof fn lemma_pack_snoc(words: Seq<u64>, i: int, n: nat, e: Endian)
    requires
        0 < i <= words.len(),
    ensures
        pack_bytes(words.subrange(0, i), n, e) =~= pack_bytes(words.subrange(0, i - 1), n, e)
            + word_bytes(words[i - 1], n, e),
    decreases i,
{
    lemma_le_bytes_len(words[i - 1], n);
    if i == 1 {
        assert(pack_bytes(words.subrange(0, 1), n, e) =~= word_bytes(words[0], n, e)
            + pack_bytes(words.subrange(0, 1).drop_first(), n, e));
        assert(words.subrange(0, 1).drop_first() =~= Seq::<u64>::empty());
        assert(words.subrange(0, 0) =~= Seq::<u64>::empty());
    } else {
        let tail = words.drop_first();
        lemma_pack_snoc(tail, i - 1, n, e);
        assert(words.subrange(0, i).drop_first() =~= tail.subrange(0, i - 1));
        assert(words.subrange(0, i - 1).drop_first() =~= tail.subrange(0, i - 2));
        lemma_pack_bytes_len(words.subrange(0, i), n, e);
        lemma_pack_bytes_len(words.subrange(0, i - 1), n, e);
        lemma_pack_bytes_len(tail.subrange(0, i - 1), n, e);
        lemma_pack_bytes_len(tail.subrange(0, i - 2), n, e);
    }
}

/// Split a packed buffer back into its words: the inverse of `pack_words`
/// up to truncation at the word size.
pub fn unpack_words(bytes: &Vec<u8>, word_size: usize, endian: Endian) -> (r: Vec<u64>)
    requires
        word_size == 2 || word_size == 4 || word_size == 8,
    ensures
        r@.len() == bytes@.len() as int / word_size as int,
        forall|i: int|
            0 <= i < r@.len() ==> r@[i] as int == word_value(
                bytes@.subrange(i * word_size, i * word_size + word_size),
                endian,
            ),
{
    let bytes_len = bytes.len();
    let count = bytes_len / word_size;
    let mut out: Vec<u64> = Vec::new();
    let mut i: usize = 0;
    while i < count
        invariant
            i <= count,
            bytes@.len() == bytes_len,
            word_size == 2 || word_size == 4 || word_size == 8,
            count == bytes@.len() as int / word_size as int,
            out@.len() == i,
            forall|j: int|
                0 <= j < i ==> out@[j] as int == word_value(
                    bytes@.subrange(j * word_size, j * word_size + word_size),
                    endian,
                ),
        decreases count - i,
    {
        proof {
            assert(i * word_size + word_size <= bytes@.len()) by (nonlinear_arith)
                requires
                    0 <= i < count,
                    word_size > 0,
                    count == bytes@.len() as int / word_size as int,
            ;
        }
        let w = read_word_at(bytes, i * word_size, endian, word_size);
        out.push(w);
        i = i + 1;
    }
    out
}

} // verus!
