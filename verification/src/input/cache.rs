//! Content hashes of the inputs and the format of the normalization cache.

use vstd::prelude::*;
use vstd::arithmetic::div_mod::{lemma_mod_multiples_vanish, lemma_mul_mod_noop_left, lemma_small_mod};
use crate::input::{InputError, InputErrorView};
use crate::input::organelle_bin::le_value;

verus! {

/// The value that a content hash starts from.
pub const FNV_OFFSET: u64 = 0xcbf29ce484222325;

/// The multiplier of the content hash.
pub const FNV_PRIME: u64 = 0x100000001b3;

/// The hash after one more byte: the byte is xored into the low bits, and
/// the result is multiplied by the prime, modulo 2 to the 64.
pub open spec fn fnv64_step(h: u64, b: u8) -> u64 {
    (((h ^ (b as u64)) as nat * FNV_PRIME as nat) % 0x1_0000_0000_0000_0000) as u64
}

/// The hash `h` after the bytes of `data`, taken in order.
pub open spec fn fnv64_fold(h: u64, data: Seq<u8>) -> u64
    decreases data.len(),
{
    if data.len() == 0 {
        h
    } else {
        fnv64_step(fnv64_fold(h, data.drop_last()), data.last())
    }
}

/// The content hash of a byte sequence.
pub open spec fn fnv64(data: Seq<u8>) -> u64 {
    fnv64_fold(FNV_OFFSET, data)
}

/// Hashing in pieces gives the hash of the whole.
pub proof fn lemma_fnv64_fold_concat(h: u64, first: Seq<u8>, second: Seq<u8>)
    ensures
        fnv64_fold(fnv64_fold(h, first), second) == fnv64_fold(h, first + second),
    decreases second.len(),
{
    if second.len() == 0 {
        assert(first + second =~= first);
    } else {
        lemma_fnv64_fold_concat(h, first, second.drop_last());
        assert((first + second).drop_last() =~= first + second.drop_last());
        assert((first + second).last() == second.last());
    }
}

/// A running content hash.
pub struct Fnv64 {
    hash: u64,
}

impl View for Fnv64 {
    type V = u64;

    closed spec fn view(&self) -> u64 {
        self.hash
    }
}

impl Fnv64 {
    /// A hash that has taken no byte yet.
    pub fn new() -> (hasher: Fnv64)
        ensures
            hasher@ == FNV_OFFSET,
    {
        Fnv64 { hash: FNV_OFFSET }
    }

    /// Takes the bytes of `data` into the hash.
    pub fn update(&mut self, data: &[u8])
        ensures
            final(self)@ == fnv64_fold(old(self)@, data@),
    {
        let mut h: u64 = self.hash;
        let mut i: usize = 0;
        proof {
            assert(data@.take(0) =~= Seq::<u8>::empty());
        }
        while i < data.len()
            invariant
                i <= data.len(),
                h == fnv64_fold(old(self)@, data@.take(i as int)),
            decreases data.len() - i,
        {
            proof {
                assert(data@.take(i + 1).drop_last() =~= data@.take(i as int));
            }
            h = (h ^ (data[i] as u64)).wrapping_mul(FNV_PRIME);
            i += 1;
        }
        proof {
            assert(data@.take(i as int) =~= data@);
        }
        self.hash = h;
    }

    /// The hash of all the bytes taken so far.
    pub fn finish(&self) -> (h: u64)
        ensures
            h == self@,
    {
        self.hash
    }
}

/// The content hash of a buffer.
pub fn hash_bytes(data: &[u8]) -> (h: u64)
    ensures
        h == fnv64(data@),
{
    let mut hasher = Fnv64::new();
    hasher.update(data);
    hasher.finish()
}

/// The inverse of the prime modulo 2 to the 64.
pub open spec fn fnv_prime_inverse() -> nat {
    0xce965057aff6957b
}

/// Multiplying by the prime loses nothing: the factor comes back by
/// multiplying with the inverse of the prime.
pub proof fn lemma_fnv_multiply_invertible(x: u64)
    ensures
        ((((x as nat * FNV_PRIME as nat) % 0x1_0000_0000_0000_0000) * fnv_prime_inverse())
            % 0x1_0000_0000_0000_0000) == x,
{
    let m: int = 0x1_0000_0000_0000_0000;
    let p: int = FNV_PRIME as int;
    let q: int = fnv_prime_inverse() as int;
    let k: int = 0xce9650590f;
    assert(p * q == 1 + k * m);
    lemma_mul_mod_noop_left(x as int * p, q, m);
    assert((x as int * p) * q == x as int + (x as int * k) * m) by (nonlinear_arith)
        requires
            p * q == 1 + k * m,
    ;
    lemma_mod_multiples_vanish(x as int * k, x as int, m);
    lemma_small_mod(x as nat, m as nat);
}

/// The hash after a byte tells both the hash before it and the byte, if
/// either is known: two steps with one result that started from the same
/// hash took the same byte, and two that took the same byte started from
/// the same hash.
pub proof fn lemma_fnv64_step_injective(a: u64, x: u8, b: u64, y: u8)
    requires
        fnv64_step(a, x) == fnv64_step(b, y),
        a == b || x == y,
    ensures
        a == b,
        x == y,
{
    let u: u64 = a ^ (x as u64);
    let v: u64 = b ^ (y as u64);
    lemma_fnv_multiply_invertible(u);
    lemma_fnv_multiply_invertible(v);
    assert(u == v);
    let p = x as u64;
    let q = y as u64;
    assert(a ^ p == b ^ q && (a == b || p == q) ==> a == b && p == q) by (bit_vector);
}

/// The content hash tells any change of a single byte: two byte sequences
/// of one length that differ in exactly one place have different hashes.
pub proof fn lemma_fnv64_detects_byte_change(h: u64, a: Seq<u8>, b: Seq<u8>, at: int)
    requires
        a.len() == b.len(),
        0 <= at < a.len(),
        a[at] != b[at],
        forall|i: int| 0 <= i < a.len() && i != at ==> a[i] == b[i],
    ensures
        fnv64_fold(h, a) != fnv64_fold(h, b),
    decreases a.len(),
{
    if at == a.len() - 1 {
        assert(a.drop_last() =~= b.drop_last());
    } else {
        lemma_fnv64_detects_byte_change(h, a.drop_last(), b.drop_last(), at);
        assert(a.last() == b.last());
    }
    if fnv64_fold(h, a) == fnv64_fold(h, b) {
        lemma_fnv64_step_injective(
            fnv64_fold(h, a.drop_last()),
            a.last(),
            fnv64_fold(h, b.drop_last()),
            b.last(),
        );
    }
}

/// Whether the bits are those of a 32-bit float that is not a number.
pub open spec fn float_bits_nan(bits: u32) -> bool {
    bits & 0x7fff_ffff > 0x7f80_0000
}

/// Whether two 32-bit floats, given by their bits, are equal as numbers:
/// neither is not-a-number, and the bits are the same or both are a zero.
pub open spec fn float_bits_equal(a: u32, b: u32) -> bool {
    !float_bits_nan(a) && !float_bits_nan(b) && (a == b || (a | b) & 0x7fff_ffff == 0)
}

/// Compares two 32-bit floats, given by their bits, as numbers.
pub fn float_bits_eq(a: u32, b: u32) -> (r: bool)
    ensures
        r == float_bits_equal(a, b),
{
    !(a & 0x7fff_ffff > 0x7f80_0000) && !(b & 0x7fff_ffff > 0x7f80_0000) && (a == b || (a | b)
        & 0x7fff_ffff == 0)
}

/// The fingerprint of a cache: everything that the cached values depend
/// on. The scale is a 32-bit float, held by its bits.
#[derive(Debug, Clone, Copy, PartialEq, Eq, Structural)]
pub struct CacheMeta {
    pub n_cells: u32,
    pub n_genes: u32,
    pub hash_mtx: u64,
    pub hash_features: u64,
    pub hash_barcodes: u64,
    pub hash_gene_index: u64,
    pub scale_bits: u32,
    pub log1p: bool,
}

/// The cached values: for each cell its library size, its count of non-zero
/// entries, and its pairs of gene identifier and normalized value. Library
/// sizes and values are 32-bit floats, held by their bits.
#[derive(Debug, Clone)]
pub struct CachedNormalizedData {
    pub libsizes: Vec<u32>,
    pub nnz: Vec<u32>,
    pub columns: Vec<Vec<(u32, u32)>>,
}

/// Cached values as sequences.
pub struct CachedNormalizedModel {
    pub libsizes: Seq<u32>,
    pub nnz: Seq<u32>,
    pub columns: Seq<Seq<(u32, u32)>>,
}

impl View for CachedNormalizedData {
    type V = CachedNormalizedModel;

    open spec fn view(&self) -> CachedNormalizedModel {
        CachedNormalizedModel {
            libsizes: self.libsizes@,
            nnz: self.nnz@,
            columns: self.columns@.map_values(|col: Vec<(u32, u32)>| col@),
        }
    }
}

impl CachedNormalizedModel {
    /// Whether the values are those of `n_cells` cells, with the count of
    /// each cell being the length of its column.
    pub open spec fn fits(self, n_cells: nat) -> bool {
        &&& self.libsizes.len() == n_cells
        &&& self.nnz.len() == n_cells
        &&& self.columns.len() == n_cells
        &&& forall|i: int| 0 <= i < n_cells ==> self.nnz[i] == (#[trigger] self.columns[i]).len()
    }
}

/// The version of the cache format.
pub const CACHE_VERSION: u32 = 1;

/// The length of the fixed part of a cache file: magic, version and
/// fingerprint.
pub const CACHE_HEADER_BYTES: usize = 60;

/// The magic of a cache file: `KIRAQC2` and a zero byte.
pub open spec fn cache_magic() -> Seq<u8> {
    seq![0x4Bu8, 0x49u8, 0x52u8, 0x41u8, 0x51u8, 0x43u8, 0x32u8, 0x00u8]
}

/// The message of a read that met the end of the bytes.
pub open spec fn short_read() -> InputErrorView {
    InputErrorView::Io("failed to fill whole buffer"@)
}

/// The fingerprint that stands in the fixed part of a cache file. The flag
/// is set where its byte is not zero; the three bytes after it say nothing.
pub open spec fn stored_meta(bytes: Seq<u8>) -> CacheMeta {
    CacheMeta {
        scale_bits: le_value(bytes, 12, 4) as u32,
        log1p: bytes[16] != 0,
        n_cells: le_value(bytes, 20, 4) as u32,
        n_genes: le_value(bytes, 24, 4) as u32,
        hash_mtx: le_value(bytes, 28, 8) as u64,
        hash_features: le_value(bytes, 36, 8) as u64,
        hash_barcodes: le_value(bytes, 44, 8) as u64,
        hash_gene_index: le_value(bytes, 52, 8) as u64,
    }
}

/// Whether a stored fingerprint is the wanted one, field by field; the
/// scales are compared as numbers.
pub open spec fn meta_matches(stored: CacheMeta, wanted: CacheMeta) -> bool {
    &&& float_bits_equal(stored.scale_bits, wanted.scale_bits)
    &&& stored.log1p == wanted.log1p
    &&& stored.n_cells == wanted.n_cells
    &&& stored.n_genes == wanted.n_genes
    &&& stored.hash_mtx == wanted.hash_mtx
    &&& stored.hash_features == wanted.hash_features
    &&& stored.hash_barcodes == wanted.hash_barcodes
    &&& stored.hash_gene_index == wanted.hash_gene_index
}

/// The sum of the first `i` counts.
pub open spec fn counts_before(nnz: Seq<u32>, i: int) -> nat
    decreases i,
{
    if i <= 0 {
        0
    } else {
        counts_before(nnz, i - 1) + nnz[i - 1] as nat
    }
}

/// The 32-bit number that stands `index` numbers after byte `base`.
pub open spec fn word_at(bytes: Seq<u8>, base: int, index: int) -> u32 {
    le_value(bytes, base + 4 * index, 4) as u32
}

/// The values that stand after the fixed part of a cache file for
/// `n_cells` cells: the library sizes, then the counts, then the pairs of
/// each cell in cell order, as many as its count.
pub open spec fn stored_data(bytes: Seq<u8>, n_cells: nat) -> CachedNormalizedModel {
    let base = CACHE_HEADER_BYTES as int;
    let nnz = Seq::new(n_cells, |i: int| word_at(bytes, base, n_cells + i));
    CachedNormalizedModel {
        libsizes: Seq::new(n_cells, |i: int| word_at(bytes, base, i)),
        nnz,
        columns: Seq::new(
            n_cells,
            |i: int|
                Seq::new(
                    nnz[i] as nat,
                    |k: int|
                        (
                            word_at(bytes, base, 2 * n_cells + 2 * (counts_before(nnz, i) + k)),
                            word_at(bytes, base, 2 * n_cells + 2 * (counts_before(nnz, i) + k) + 1),
                        ),
                ),
        ),
    }
}

/// What the bytes of a cache file give to a reader that wants the
/// fingerprint `wanted`: the cached values where magic, version and every
/// field of the fingerprint match; nothing where one does not; and a failed
/// read where the bytes end before what is being read.
pub open spec fn cache_outcome(bytes: Seq<u8>, wanted: CacheMeta) -> Result<
    Option<CachedNormalizedModel>,
    InputErrorView,
> {
    if bytes.len() < 8 {
        Err(short_read())
    } else if bytes.take(8) != cache_magic() {
        Ok(None)
    } else if bytes.len() < 12 {
        Err(short_read())
    } else if le_value(bytes, 8, 4) != CACHE_VERSION {
        Ok(None)
    } else if bytes.len() < CACHE_HEADER_BYTES {
        Err(short_read())
    } else if !meta_matches(stored_meta(bytes), wanted) {
        Ok(None)
    } else {
        let n = stored_meta(bytes).n_cells as nat;
        if bytes.len() < CACHE_HEADER_BYTES + 8 * n {
            Err(short_read())
        } else {
            let data = stored_data(bytes, n);
            if bytes.len() < CACHE_HEADER_BYTES + 8 * n + 8 * counts_before(data.nnz, n as int) {
                Err(short_read())
            } else {
                Ok(Some(data))
            }
        }
    }
}

/// The `width` bytes of `v`, least significant first.
pub open spec fn le_bytes(v: nat, width: nat) -> Seq<u8>
    decreases width,
{
    if width == 0 {
        Seq::empty()
    } else {
        seq![(v % 256) as u8] + le_bytes(v / 256, (width - 1) as nat)
    }
}

/// 256 to the power of `width`.
pub open spec fn pow256(width: nat) -> nat
    decreases width,
{
    if width == 0 {
        1
    } else {
        256 * pow256((width - 1) as nat)
    }
}

/// A number written in `width` bytes takes `width` bytes.
pub proof fn lemma_le_bytes_len(v: nat, width: nat)
    ensures
        le_bytes(v, width).len() == width,
    decreases width,
{
    if width > 0 {
        lemma_le_bytes_len(v / 256, (width - 1) as nat);
    }
}

/// Bytes written least significant first read back as the number written.
pub proof fn lemma_le_bytes_read_back(s: Seq<u8>, at: int, v: nat, width: nat)
    requires
        0 <= at,
        at + width <= s.len(),
        s.subrange(at, at + width) == le_bytes(v, width),
        v < pow256(width),
    ensures
        le_value(s, at, width) == v,
    decreases width,
{
    if width > 0 {
        lemma_le_bytes_len(v / 256, (width - 1) as nat);
        assert(s[at] == s.subrange(at, at + width)[0]);
        let rest = le_bytes(v / 256, (width - 1) as nat);
        assert(s.subrange(at + 1, at + 1 + (width - 1)) =~= rest) by {
            assert forall|i: int| 0 <= i < width - 1 implies s[at + 1 + i] == #[trigger] rest[i] by {
                assert(s.subrange(at, at + width)[i + 1] == s[at + 1 + i]);
            }
        }
        lemma_le_bytes_read_back(s, at + 1, v / 256, (width - 1) as nat);
    }
}

/// The bytes of a sequence of 32-bit numbers, each least significant byte
/// first.
pub open spec fn words_bytes(ws: Seq<u32>) -> Seq<u8>
    decreases ws.len(),
{
    if ws.len() == 0 {
        Seq::empty()
    } else {
        words_bytes(ws.drop_last()) + le_bytes(ws.last() as nat, 4)
    }
}

/// The numbers of a column: gene and value of each pair in turn.
pub open spec fn column_words(col: Seq<(u32, u32)>) -> Seq<u32>
    decreases col.len(),
{
    if col.len() == 0 {
        Seq::empty()
    } else {
        column_words(col.drop_last()).push(col.last().0).push(col.last().1)
    }
}

/// The numbers of all columns, in cell order.
pub open spec fn columns_words(cols: Seq<Seq<(u32, u32)>>) -> Seq<u32>
    decreases cols.len(),
{
    if cols.len() == 0 {
        Seq::empty()
    } else {
        columns_words(cols.drop_last()) + column_words(cols.last())
    }
}

/// The fixed part of a cache file with fingerprint `meta`.
pub open spec fn meta_bytes(meta: CacheMeta) -> Seq<u8> {
    cache_magic() + le_bytes(CACHE_VERSION as nat, 4) + le_bytes(meta.scale_bits as nat, 4) + seq![
        if meta.log1p { 1u8 } else { 0u8 },
        0u8,
        0u8,
        0u8,
    ] + le_bytes(meta.n_cells as nat, 4) + le_bytes(meta.n_genes as nat, 4) + u64_bytes(
        meta.hash_mtx,
    ) + u64_bytes(meta.hash_features) + u64_bytes(meta.hash_barcodes) + u64_bytes(
        meta.hash_gene_index,
    )
}

/// The bytes of a cache file: the fixed part, the library sizes, the
/// counts, and the pairs of every cell in cell order.
pub open spec fn cache_bytes(meta: CacheMeta, data: CachedNormalizedModel) -> Seq<u8> {
    meta_bytes(meta) + words_bytes(data.libsizes) + words_bytes(data.nnz) + words_bytes(
        columns_words(data.columns),
    )
}

/// Appends one byte.
pub fn write_u8(w: &mut Vec<u8>, v: u8)
    ensures
        final(w)@ == old(w)@.push(v),
{
    w.push(v);
}

/// Appends a 32-bit number, least significant byte first.
pub fn write_u32(w: &mut Vec<u8>, v: u32)
    ensures
        final(w)@ == old(w)@ + le_bytes(v as nat, 4),
{
    w.push((v % 256) as u8);
    w.push((v / 256 % 256) as u8);
    w.push((v / 65536 % 256) as u8);
    w.push((v / 16777216 % 256) as u8);
    proof {
        reveal_with_fuel(le_bytes, 5);
        assert(final(w)@ =~= old(w)@ + le_bytes(v as nat, 4));
    }
}

/// The eight bytes of a 64-bit number, least significant first: the bytes
/// of its low half, then those of its high half.
pub open spec fn u64_bytes(v: u64) -> Seq<u8> {
    le_bytes(v as nat % 0x1_0000_0000, 4) + le_bytes(v as nat / 0x1_0000_0000, 4)
}

/// Appends a 64-bit number, least significant byte first.
pub fn write_u64(w: &mut Vec<u8>, v: u64)
    ensures
        final(w)@ == old(w)@ + u64_bytes(v),
{
    let low: u32 = (v % 0x1_0000_0000) as u32;
    let high: u32 = (v / 0x1_0000_0000) as u32;
    write_u32(w, low);
    write_u32(w, high);
    proof {
        assert(final(w)@ =~= old(w)@ + u64_bytes(v));
    }
}

/// The bytes of numbers one after another are the bytes of the first and
/// then the bytes of the second.
pub proof fn lemma_words_bytes_concat(a: Seq<u32>, b: Seq<u32>)
    ensures
        words_bytes(a + b) == words_bytes(a) + words_bytes(b),
    decreases b.len(),
{
    if b.len() == 0 {
        assert(a + b =~= a);
        assert(words_bytes(a) + words_bytes(b) =~= words_bytes(a));
    } else {
        lemma_words_bytes_concat(a, b.drop_last());
        assert((a + b).drop_last() =~= a + b.drop_last());
        assert((a + b).last() == b.last());
        assert(words_bytes(a + b) =~= words_bytes(a) + words_bytes(b));
    }
}

/// Appends 32-bit numbers, each least significant byte first.
pub fn write_words(w: &mut Vec<u8>, ws: &[u32])
    ensures
        final(w)@ == old(w)@ + words_bytes(ws@),
{
    let mut i: usize = 0;
    proof {
        assert(ws@.take(0) =~= Seq::<u32>::empty());
        assert(w@ =~= old(w)@ + words_bytes(ws@.take(0)));
    }
    while i < ws.len()
        invariant
            i <= ws.len(),
            w@ == old(w)@ + words_bytes(ws@.take(i as int)),
        decreases ws.len() - i,
    {
        let ghost before = w@;
        write_u32(w, ws[i]);
        proof {
            assert(ws@.take(i + 1).drop_last() =~= ws@.take(i as int));
            assert(w@ =~= old(w)@ + words_bytes(ws@.take(i + 1)));
        }
        i += 1;
    }
    proof {
        assert(ws@.take(i as int) =~= ws@);
    }
}

/// Appends the pairs of a column: gene, then value, for each pair.
pub fn write_column(w: &mut Vec<u8>, col: &[(u32, u32)])
    ensures
        final(w)@ == old(w)@ + words_bytes(column_words(col@)),
{
    let mut k: usize = 0;
    proof {
        assert(col@.take(0) =~= Seq::<(u32, u32)>::empty());
        assert(w@ =~= old(w)@ + words_bytes(column_words(col@.take(0))));
    }
    while k < col.len()
        invariant
            k <= col.len(),
            w@ == old(w)@ + words_bytes(column_words(col@.take(k as int))),
        decreases col.len() - k,
    {
        let pair: (u32, u32) = col[k];
        write_u32(w, pair.0);
        write_u32(w, pair.1);
        proof {
            let before = column_words(col@.take(k as int));
            let after = column_words(col@.take(k + 1));
            assert(col@.take(k + 1).drop_last() =~= col@.take(k as int));
            assert(after == before.push(pair.0).push(pair.1));
            assert(after.drop_last() =~= before.push(pair.0));
            assert(before.push(pair.0).drop_last() =~= before);
            assert(words_bytes(before.push(pair.0)) == words_bytes(before) + le_bytes(
                pair.0 as nat,
                4,
            ));
            assert(words_bytes(after) == words_bytes(before.push(pair.0)) + le_bytes(
                pair.1 as nat,
                4,
            ));
            assert(w@ =~= old(w)@ + words_bytes(after));
        }
        k += 1;
    }
    proof {
        assert(col@.take(k as int) =~= col@);
    }
}

/// Appends the fixed part of a cache file: magic, version and fingerprint.
#[verifier::rlimit(30)]
pub fn write_meta(w: &mut Vec<u8>, meta: &CacheMeta)
    ensures
        final(w)@ == old(w)@ + meta_bytes(*meta),
{
    write_u8(w, 0x4B);
    write_u8(w, 0x49);
    write_u8(w, 0x52);
    write_u8(w, 0x41);
    write_u8(w, 0x51);
    write_u8(w, 0x43);
    write_u8(w, 0x32);
    write_u8(w, 0x00);
    proof {
        assert(w@ =~= old(w)@ + cache_magic());
    }
    write_u32(w, CACHE_VERSION);
    write_u32(w, meta.scale_bits);
    write_u8(w, if meta.log1p { 1 } else { 0 });
    write_u8(w, 0);
    write_u8(w, 0);
    write_u8(w, 0);
    write_u32(w, meta.n_cells);
    write_u32(w, meta.n_genes);
    write_u64(w, meta.hash_mtx);
    write_u64(w, meta.hash_features);
    write_u64(w, meta.hash_barcodes);
    write_u64(w, meta.hash_gene_index);
    proof {
        assert(w@ =~= old(w)@ + meta_bytes(*meta));
    }
}

/// Appends a cache file to `w`: magic and version, the fingerprint, the
/// library sizes, the counts, and the pairs of every cell in cell order.
pub fn write_normalized_cache(w: &mut Vec<u8>, meta: &CacheMeta, data: &CachedNormalizedData)
    ensures
        final(w)@ == old(w)@ + cache_bytes(*meta, data@),
{
    write_meta(w, meta);
    write_words(w, data.libsizes.as_slice());
    write_words(w, data.nnz.as_slice());
    let ghost start = w@;
    let ghost cols = data@.columns;
    let mut i: usize = 0;
    proof {
        assert(cols.take(0) =~= Seq::<Seq<(u32, u32)>>::empty());
        assert(w@ =~= start + words_bytes(columns_words(cols.take(0))));
    }
    while i < data.columns.len()
        invariant
            i <= data.columns.len(),
            cols == data@.columns,
            w@ == start + words_bytes(columns_words(cols.take(i as int))),
        decreases data.columns.len() - i,
    {
        write_column(w, data.columns[i].as_slice());
        proof {
            assert(cols.take(i + 1).drop_last() =~= cols.take(i as int));
            assert(cols.take(i + 1).last() == data.columns@[i as int]@);
            lemma_words_bytes_concat(
                columns_words(cols.take(i as int)),
                column_words(data.columns@[i as int]@),
            );
            assert(w@ =~= start + words_bytes(columns_words(cols.take(i + 1))));
        }
        i += 1;
    }
    proof {
        assert(cols.take(i as int) =~= cols);
        assert(w@ =~= old(w)@ + cache_bytes(*meta, data@));
    }
}

/// A failed read at the end of the bytes.
pub fn short_read_error() -> (e: InputError)
    ensures
        e@ == short_read(),
{
    InputError::Io("failed to fill whole buffer".to_owned())
}

/// Reads the byte at `pos` and moves `pos` past it.
pub fn read_u8(bytes: &[u8], pos: &mut usize) -> (r: Result<u8, InputError>)
    ensures
        match r {
            Ok(v) => *old(pos) + 1 <= bytes.len() && *final(pos) == *old(pos) + 1 && v == bytes@[*old(
                pos,
            ) as int],
            Err(e) => *old(pos) + 1 > bytes.len() && *final(pos) == *old(pos) && e@ == short_read(),
        },
{
    let at: usize = *pos;
    if at >= bytes.len() {
        return Err(short_read_error());
    }
    *pos = at + 1;
    Ok(bytes[at])
}

/// Reads the 32-bit little-endian number at `pos` and moves `pos` past it.
pub fn read_u32(bytes: &[u8], pos: &mut usize) -> (r: Result<u32, InputError>)
    ensures
        match r {
            Ok(v) => *old(pos) + 4 <= bytes.len() && *final(pos) == *old(pos) + 4 && v == le_value(
                bytes@,
                *old(pos) as int,
                4,
            ),
            Err(e) => *old(pos) + 4 > bytes.len() && *final(pos) == *old(pos) && e@ == short_read(),
        },
{
    let at: usize = *pos;
    if at > bytes.len() || bytes.len() - at < 4 {
        return Err(short_read_error());
    }
    *pos = at + 4;
    Ok(crate::input::organelle_bin::read_u32(bytes, at))
}

/// Reads the 64-bit little-endian number at `pos` and moves `pos` past it.
pub fn read_u64(bytes: &[u8], pos: &mut usize) -> (r: Result<u64, InputError>)
    ensures
        match r {
            Ok(v) => *old(pos) + 8 <= bytes.len() && *final(pos) == *old(pos) + 8 && v == le_value(
                bytes@,
                *old(pos) as int,
                8,
            ),
            Err(e) => *old(pos) + 8 > bytes.len() && *final(pos) == *old(pos) && e@ == short_read(),
        },
{
    let at: usize = *pos;
    if at > bytes.len() || bytes.len() - at < 8 {
        return Err(short_read_error());
    }
    *pos = at + 8;
    Ok(crate::input::organelle_bin::read_u64(bytes, at))
}

/// The sum of the counts grows with the number of counts taken.
pub proof fn lemma_counts_before_ordered(nnz: Seq<u32>, i: int, j: int)
    requires
        0 <= i <= j,
    ensures
        counts_before(nnz, i) <= counts_before(nnz, j),
    decreases j - i,
{
    if i < j {
        lemma_counts_before_ordered(nnz, i, j - 1);
    }
}

/// Reads `n` 32-bit numbers from `pos` on and moves `pos` past them.
pub fn read_words(bytes: &[u8], pos: &mut usize, n: u32) -> (r: Result<Vec<u32>, InputError>)
    ensures
        match r {
            Ok(ws) => {
                &&& *old(pos) + 4 * n <= bytes.len()
                &&& *final(pos) == *old(pos) + 4 * n
                &&& ws@ == Seq::new(n as nat, |i: int| word_at(bytes@, *old(pos) as int, i))
            },
            Err(e) => *old(pos) + 4 * n > bytes.len() && e@ == short_read(),
        },
{
    let mut ws: Vec<u32> = Vec::new();
    let mut i: u32 = 0;
    while i < n
        invariant
            i <= n,
            *pos == *old(pos) + 4 * i,
            *pos <= bytes.len() || i == 0,
            ws@.len() == i,
            forall|j: int| 0 <= j < i ==> ws@[j] == word_at(bytes@, *old(pos) as int, j),
        decreases n - i,
    {
        match read_u32(bytes, pos) {
            Ok(v) => {
                ws.push(v);
            },
            Err(e) => {
                return Err(e);
            },
        }
        i += 1;
    }
    proof {
        assert(ws@ =~= Seq::new(n as nat, |i: int| word_at(bytes@, *old(pos) as int, i)));
    }
    if *pos > bytes.len() {
        return Err(short_read_error());
    }
    Ok(ws)
}

/// Reads a cache file for a reader that wants the fingerprint `meta`. The
/// cached values come back only where magic, version and every field of the
/// fingerprint match; a file for another fingerprint gives nothing, and a
/// file that ends early fails the read.
pub fn read_normalized_cache(bytes: &[u8], meta: &CacheMeta) -> (r: Result<
    Option<CachedNormalizedData>,
    InputError,
>)
    ensures
        match r {
            Ok(Some(data)) => cache_outcome(bytes@, *meta) == Ok::<
                Option<CachedNormalizedModel>,
                InputErrorView,
            >(Some(data@)),
            Ok(None) => cache_outcome(bytes@, *meta) == Ok::<
                Option<CachedNormalizedModel>,
                InputErrorView,
            >(None),
            Err(e) => cache_outcome(bytes@, *meta) == Err::<
                Option<CachedNormalizedModel>,
                InputErrorView,
            >(e@),
        },
{
    if bytes.len() < 8 {
        return Err(short_read_error());
    }
    if bytes[0] != 0x4B || bytes[1] != 0x49 || bytes[2] != 0x52 || bytes[3] != 0x41 || bytes[4]
        != 0x51 || bytes[5] != 0x43 || bytes[6] != 0x32 || bytes[7] != 0x00 {
        proof {
            let head = bytes@.take(8);
            assert(head[0] == bytes@[0] && head[1] == bytes@[1] && head[2] == bytes@[2] && head[3]
                == bytes@[3] && head[4] == bytes@[4] && head[5] == bytes@[5] && head[6]
                == bytes@[6] && head[7] == bytes@[7]);
        }
        return Ok(None);
    }
    proof {
        assert(bytes@.take(8) =~= cache_magic());
    }
    let mut pos: usize = 8;
    let version: u32 = match read_u32(bytes, &mut pos) {
        Ok(v) => v,
        Err(e) => { return Err(e); },
    };
    if version != CACHE_VERSION {
        return Ok(None);
    }
    if bytes.len() < CACHE_HEADER_BYTES {
        return Err(short_read_error());
    }
    let scale_bits: u32 = crate::input::organelle_bin::read_u32(bytes, 12);
    let stored = CacheMeta {
        scale_bits,
        log1p: bytes[16] != 0,
        n_cells: crate::input::organelle_bin::read_u32(bytes, 20),
        n_genes: crate::input::organelle_bin::read_u32(bytes, 24),
        hash_mtx: crate::input::organelle_bin::read_u64(bytes, 28),
        hash_features: crate::input::organelle_bin::read_u64(bytes, 36),
        hash_barcodes: crate::input::organelle_bin::read_u64(bytes, 44),
        hash_gene_index: crate::input::organelle_bin::read_u64(bytes, 52),
    };
    if !float_bits_eq(stored.scale_bits, meta.scale_bits) || stored.log1p != meta.log1p
        || stored.n_cells != meta.n_cells || stored.n_genes != meta.n_genes || stored.hash_mtx
        != meta.hash_mtx || stored.hash_features != meta.hash_features || stored.hash_barcodes
        != meta.hash_barcodes || stored.hash_gene_index != meta.hash_gene_index {
        return Ok(None);
    }
    let n: u32 = stored.n_cells;
    pos = CACHE_HEADER_BYTES;
    let libsizes: Vec<u32> = match read_words(bytes, &mut pos, n) {
        Ok(ws) => ws,
        Err(e) => { return Err(e); },
    };
    let nnz: Vec<u32> = match read_words(bytes, &mut pos, n) {
        Ok(ws) => ws,
        Err(e) => { return Err(e); },
    };
    let ghost model = stored_data(bytes@, n as nat);
    proof {
        assert(libsizes@ =~= model.libsizes);
        assert(nnz@ =~= model.nnz) by {
            assert forall|i: int| 0 <= i < n implies nnz@[i] == model.nnz[i] by {
                assert(word_at(bytes@, 60 + 4 * n, i) == word_at(bytes@, 60, n + i));
            }
        }
    }
    let mut columns: Vec<Vec<(u32, u32)>> = Vec::new();
    let mut i: usize = 0;
    while i < nnz.len()
        invariant
            i <= nnz.len(),
            nnz@.len() == n,
            nnz@ == model.nnz,
            model == stored_data(bytes@, n as nat),
            pos == 60 + 8 * n + 8 * counts_before(model.nnz, i as int),
            pos <= bytes.len(),
            columns@.len() == i,
            forall|c: int| 0 <= c < i ==> (#[trigger] columns@[c])@ == model.columns[c],
            cache_outcome(bytes@, *meta) == (if bytes@.len() < 60 + 8 * n + 8 * counts_before(
                model.nnz,
                n as int,
            ) {
                Err::<Option<CachedNormalizedModel>, InputErrorView>(short_read())
            } else {
                Ok::<Option<CachedNormalizedModel>, InputErrorView>(Some(model))
            }),
        decreases nnz.len() - i,
    {
        let count: u32 = nnz[i];
        let ghost start = counts_before(model.nnz, i as int);
        let mut col: Vec<(u32, u32)> = Vec::new();
        let mut k: u32 = 0;
        while k < count
            invariant
                k <= count,
                i < nnz@.len(),
                count == model.nnz[i as int],
                nnz@.len() == n,
                start == counts_before(model.nnz, i as int),
                pos == 60 + 8 * n + 8 * (start + k),
                pos <= bytes.len(),
                col@.len() == k,
                forall|j: int|
                    0 <= j < k ==> col@[j] == (
                        word_at(bytes@, 60, 2 * n + 2 * (start + j)),
                        word_at(bytes@, 60, 2 * n + 2 * (start + j) + 1),
                    ),
                cache_outcome(bytes@, *meta) == (if bytes@.len() < 60 + 8 * n + 8 * counts_before(
                    model.nnz,
                    n as int,
                ) {
                    Err::<Option<CachedNormalizedModel>, InputErrorView>(short_read())
                } else {
                    Ok::<Option<CachedNormalizedModel>, InputErrorView>(Some(model))
                }),
            decreases count - k,
        {
            proof {
                lemma_counts_before_ordered(model.nnz, i + 1, n as int);
                assert(counts_before(model.nnz, i + 1) == start + count);
            }
            let gene: u32 = match read_u32(bytes, &mut pos) {
                Ok(v) => v,
                Err(e) => { return Err(e); },
            };
            let value: u32 = match read_u32(bytes, &mut pos) {
                Ok(v) => v,
                Err(e) => { return Err(e); },
            };
            col.push((gene, value));
            k += 1;
        }
        proof {
            assert(col@ =~= model.columns[i as int]);
            assert(counts_before(model.nnz, i + 1) == start + count);
        }
        columns.push(col);
        i += 1;
    }
    let data = CachedNormalizedData { libsizes, nnz, columns };
    proof {
        assert(data@.columns =~= model.columns);
    }
    Ok(Some(data))
}

/// Every number takes four bytes.
pub proof fn lemma_words_bytes_len(ws: Seq<u32>)
    ensures
        words_bytes(ws).len() == 4 * ws.len(),
    decreases ws.len(),
{
    if ws.len() > 0 {
        lemma_words_bytes_len(ws.drop_last());
        lemma_le_bytes_len(ws.last() as nat, 4);
    }
}

/// A number written among others after a head reads back at its place.
pub proof fn lemma_word_read_back(head: Seq<u8>, ws: Seq<u32>, tail: Seq<u8>, i: int)
    requires
        0 <= i < ws.len(),
    ensures
        word_at(head + words_bytes(ws) + tail, head.len() as int, i) == ws[i],
    decreases ws.len(),
{
    let all = head + words_bytes(ws) + tail;
    lemma_words_bytes_len(ws);
    lemma_words_bytes_len(ws.drop_last());
    lemma_le_bytes_len(ws.last() as nat, 4);
    if i == ws.len() - 1 {
        let at = head.len() + 4 * i;
        assert(all.subrange(at, at + 4) =~= le_bytes(ws[i] as nat, 4));
        assert(pow256(4) == 0x1_0000_0000) by {
            reveal_with_fuel(pow256, 5);
        }
        lemma_le_bytes_read_back(all, at, ws[i] as nat, 4);
    } else {
        lemma_word_read_back(head, ws.drop_last(), le_bytes(ws.last() as nat, 4) + tail, i);
        assert(all =~= head + words_bytes(ws.drop_last()) + (le_bytes(ws.last() as nat, 4) + tail));
    }
}

/// Pair `k` of a column stands at the places `2k` and `2k + 1` of its
/// numbers.
pub proof fn lemma_column_words_index(col: Seq<(u32, u32)>, k: int)
    requires
        0 <= k < col.len(),
    ensures
        column_words(col).len() == 2 * col.len(),
        column_words(col)[2 * k] == col[k].0,
        column_words(col)[2 * k + 1] == col[k].1,
    decreases col.len(),
{
    lemma_column_words_len(col);
    lemma_column_words_len(col.drop_last());
    if k < col.len() - 1 {
        lemma_column_words_index(col.drop_last(), k);
    }
}

/// A column has two numbers for each pair.
pub proof fn lemma_column_words_len(col: Seq<(u32, u32)>)
    ensures
        column_words(col).len() == 2 * col.len(),
    decreases col.len(),
{
    if col.len() > 0 {
        lemma_column_words_len(col.drop_last());
    }
}

/// Where every count is the length of its column, the numbers of the
/// columns are twice as many as the counts sum to.
pub proof fn lemma_columns_words_len(cols: Seq<Seq<(u32, u32)>>, nnz: Seq<u32>)
    requires
        cols.len() <= nnz.len(),
        forall|i: int| 0 <= i < cols.len() ==> nnz[i] == (#[trigger] cols[i]).len(),
    ensures
        columns_words(cols).len() == 2 * counts_before(nnz, cols.len() as int),
    decreases cols.len(),
{
    if cols.len() > 0 {
        lemma_columns_words_len(cols.drop_last(), nnz);
        lemma_column_words_len(cols.last());
        assert(nnz[cols.len() - 1] == cols[cols.len() - 1].len());
    }
}

/// Pair `k` of cell `i` stands, among the numbers of all columns, after the
/// pairs of the cells before it.
pub proof fn lemma_columns_words_index(cols: Seq<Seq<(u32, u32)>>, nnz: Seq<u32>, i: int, k: int)
    requires
        cols.len() <= nnz.len(),
        forall|c: int| 0 <= c < cols.len() ==> nnz[c] == (#[trigger] cols[c]).len(),
        0 <= i < cols.len(),
        0 <= k < cols[i].len(),
    ensures
        2 * (counts_before(nnz, i) + k) + 1 < columns_words(cols).len(),
        columns_words(cols)[2 * (counts_before(nnz, i) + k)] == cols[i][k].0,
        columns_words(cols)[2 * (counts_before(nnz, i) + k) + 1] == cols[i][k].1,
    decreases cols.len(),
{
    lemma_columns_words_len(cols, nnz);
    lemma_columns_words_len(cols.drop_last(), nnz);
    lemma_column_words_len(cols.last());
    assert(nnz[cols.len() - 1] == cols[cols.len() - 1].len());
    if i == cols.len() - 1 {
        lemma_column_words_index(cols.last(), k);
    } else {
        lemma_columns_words_index(cols.drop_last(), nnz, i, k);
        lemma_counts_before_ordered(nnz, i + 1, cols.len() - 1);
        assert(nnz[i] == cols[i].len());
        assert(cols.drop_last()[i] == cols[i]);
    }
}

/// The fixed part of a cache file has its length, and reads back as the
/// magic, the version and the fingerprint that were written, whatever
/// follows it.
pub proof fn lemma_meta_bytes_read_back(meta: CacheMeta, tail: Seq<u8>)
    ensures
        meta_bytes(meta).len() == CACHE_HEADER_BYTES,
        (meta_bytes(meta) + tail).take(8) == cache_magic(),
        le_value(meta_bytes(meta) + tail, 8, 4) == CACHE_VERSION,
        stored_meta(meta_bytes(meta) + tail) == meta,
{
    let all = meta_bytes(meta) + tail;
    lemma_le_bytes_len(CACHE_VERSION as nat, 4);
    lemma_le_bytes_len(meta.scale_bits as nat, 4);
    lemma_le_bytes_len(meta.n_cells as nat, 4);
    lemma_le_bytes_len(meta.n_genes as nat, 4);
    lemma_le_bytes_len(meta.hash_mtx as nat % 0x1_0000_0000, 4);
    lemma_le_bytes_len(meta.hash_mtx as nat / 0x1_0000_0000, 4);
    lemma_le_bytes_len(meta.hash_features as nat % 0x1_0000_0000, 4);
    lemma_le_bytes_len(meta.hash_features as nat / 0x1_0000_0000, 4);
    lemma_le_bytes_len(meta.hash_barcodes as nat % 0x1_0000_0000, 4);
    lemma_le_bytes_len(meta.hash_barcodes as nat / 0x1_0000_0000, 4);
    lemma_le_bytes_len(meta.hash_gene_index as nat % 0x1_0000_0000, 4);
    lemma_le_bytes_len(meta.hash_gene_index as nat / 0x1_0000_0000, 4);
    assert(pow256(4) == 0x1_0000_0000) by {
        reveal_with_fuel(pow256, 5);
    }
    assert(all.take(8) =~= cache_magic());
    lemma_field_read_back(all, 8, CACHE_VERSION as nat);
    lemma_field_read_back(all, 12, meta.scale_bits as nat);
    lemma_field_read_back(all, 20, meta.n_cells as nat);
    lemma_field_read_back(all, 24, meta.n_genes as nat);
    lemma_hash_read_back(all, 28, meta.hash_mtx);
    lemma_hash_read_back(all, 36, meta.hash_features);
    lemma_hash_read_back(all, 44, meta.hash_barcodes);
    lemma_hash_read_back(all, 52, meta.hash_gene_index);
    assert(all[16] == (if meta.log1p { 1u8 } else { 0u8 }));
}

/// A 32-bit field reads back as it was written.
proof fn lemma_field_read_back(all: Seq<u8>, at: int, v: nat)
    requires
        0 <= at,
        at + 4 <= all.len(),
        v < 0x1_0000_0000,
        all.subrange(at, at + 4) =~= le_bytes(v, 4),
    ensures
        le_value(all, at, 4) == v,
{
    assert(pow256(4) == 0x1_0000_0000) by {
        reveal_with_fuel(pow256, 5);
    }
    lemma_le_bytes_read_back(all, at, v, 4);
}

/// A 64-bit field reads back as it was written.
proof fn lemma_hash_read_back(all: Seq<u8>, at: int, h: u64)
    requires
        0 <= at,
        at + 8 <= all.len(),
        all.subrange(at, at + 8) =~= u64_bytes(h),
    ensures
        le_value(all, at, 8) == h,
{
    let low = h as nat % 0x1_0000_0000;
    let high = h as nat / 0x1_0000_0000;
    lemma_le_bytes_len(low, 4);
    lemma_le_bytes_len(high, 4);
    assert(all.subrange(at, at + 4) =~= le_bytes(low, 4)) by {
        assert forall|i: int| 0 <= i < 4 implies all[at + i] == #[trigger] le_bytes(low, 4)[i] by {
            assert(all.subrange(at, at + 8)[i] == all[at + i]);
        }
    }
    assert(all.subrange(at + 4, at + 8) =~= le_bytes(high, 4)) by {
        assert forall|i: int| 0 <= i < 4 implies all[at + 4 + i] == #[trigger] le_bytes(high, 4)[i] by {
            assert(all.subrange(at, at + 8)[i + 4] == all[at + 4 + i]);
        }
    }
    lemma_field_read_back(all, at, low);
    lemma_field_read_back(all, at + 4, high);
    assert(le_value(all, at, 8) == le_value(all, at, 4) + 0x1_0000_0000 * le_value(all, at + 4, 4))
        by {
        reveal_with_fuel(le_value, 5);
    }
}

/// The numbers that follow the fixed part of a cache file.
pub open spec fn cache_words(data: CachedNormalizedModel) -> Seq<u32> {
    data.libsizes + data.nnz + columns_words(data.columns)
}

/// A cache file is its fixed part and then its numbers, four bytes each.
pub proof fn lemma_cache_bytes_layout(meta: CacheMeta, data: CachedNormalizedModel)
    ensures
        cache_bytes(meta, data) == meta_bytes(meta) + words_bytes(cache_words(data)),
        cache_bytes(meta, data).len() == CACHE_HEADER_BYTES + 4 * cache_words(data).len(),
        meta_bytes(meta).len() == CACHE_HEADER_BYTES,
{
    lemma_words_bytes_concat(data.libsizes, data.nnz);
    lemma_words_bytes_concat(data.libsizes + data.nnz, columns_words(data.columns));
    lemma_words_bytes_len(cache_words(data));
    lemma_meta_bytes_read_back(meta, Seq::<u8>::empty());
    assert(cache_bytes(meta, data) =~= meta_bytes(meta) + words_bytes(cache_words(data)));
}

/// Number `i` of a cache file reads back as it was written.
pub proof fn lemma_cache_word_read_back(meta: CacheMeta, data: CachedNormalizedModel, i: int)
    requires
        0 <= i < cache_words(data).len(),
    ensures
        word_at(cache_bytes(meta, data), CACHE_HEADER_BYTES as int, i) == cache_words(data)[i],
{
    lemma_cache_bytes_layout(meta, data);
    lemma_word_read_back(meta_bytes(meta), cache_words(data), Seq::<u8>::empty(), i);
    assert(cache_bytes(meta, data) =~= meta_bytes(meta) + words_bytes(cache_words(data))
        + Seq::<u8>::empty());
}

/// The library sizes and the counts of a cache file read back as they were
/// written.
pub proof fn lemma_cache_stats_read_back(meta: CacheMeta, data: CachedNormalizedModel)
    requires
        data.fits(meta.n_cells as nat),
    ensures
        stored_data(cache_bytes(meta, data), meta.n_cells as nat).libsizes == data.libsizes,
        stored_data(cache_bytes(meta, data), meta.n_cells as nat).nnz == data.nnz,
{
    let n = meta.n_cells as nat;
    let stored = stored_data(cache_bytes(meta, data), n);
    assert forall|i: int| 0 <= i < n implies stored.libsizes[i] == data.libsizes[i] by {
        lemma_cache_word_read_back(meta, data, i);
    }
    assert forall|i: int| 0 <= i < n implies stored.nnz[i] == data.nnz[i] by {
        lemma_cache_word_read_back(meta, data, n + i);
    }
    assert(stored.libsizes =~= data.libsizes);
    assert(stored.nnz =~= data.nnz);
}

/// Pair `k` of cell `i` of a cache file reads back as it was written.
pub proof fn lemma_cache_pair_read_back(
    meta: CacheMeta,
    data: CachedNormalizedModel,
    i: int,
    k: int,
)
    requires
        data.fits(meta.n_cells as nat),
        0 <= i < meta.n_cells,
        0 <= k < data.columns[i].len(),
    ensures
        word_at(
            cache_bytes(meta, data),
            CACHE_HEADER_BYTES as int,
            2 * meta.n_cells + 2 * (counts_before(data.nnz, i) + k),
        ) == data.columns[i][k].0,
        word_at(
            cache_bytes(meta, data),
            CACHE_HEADER_BYTES as int,
            2 * meta.n_cells + 2 * (counts_before(data.nnz, i) + k) + 1,
        ) == data.columns[i][k].1,
{
    let n = meta.n_cells as nat;
    let at = 2 * (counts_before(data.nnz, i) + k);
    lemma_columns_words_index(data.columns, data.nnz, i, k);
    lemma_cache_word_read_back(meta, data, 2 * n + at);
    lemma_cache_word_read_back(meta, data, 2 * n + at + 1);
}

/// The pairs of a cache file read back as they were written.
pub proof fn lemma_cache_columns_read_back(meta: CacheMeta, data: CachedNormalizedModel)
    requires
        data.fits(meta.n_cells as nat),
    ensures
        stored_data(cache_bytes(meta, data), meta.n_cells as nat).columns == data.columns,
{
    let n = meta.n_cells as nat;
    let stored = stored_data(cache_bytes(meta, data), n);
    lemma_cache_stats_read_back(meta, data);
    assert forall|i: int| 0 <= i < n implies stored.columns[i] == data.columns[i] by {
        assert(data.nnz[i] == data.columns[i].len());
        assert forall|k: int| 0 <= k < data.columns[i].len() implies stored.columns[i][k]
            == data.columns[i][k] by {
            lemma_cache_pair_read_back(meta, data, i, k);
        }
        assert(stored.columns[i] =~= data.columns[i]);
    }
    assert(stored.columns =~= data.columns);
}

/// What was written is what is read: a cache file written for a
/// fingerprint and read for the same fingerprint gives back the values
/// written, bit for bit. The values must be those of as many cells as the
/// fingerprint names, and the scale must be a number.
pub proof fn lemma_cache_round_trip(meta: CacheMeta, data: CachedNormalizedModel)
    requires
        data.fits(meta.n_cells as nat),
        !float_bits_nan(meta.scale_bits),
    ensures
        cache_outcome(cache_bytes(meta, data), meta) == Ok::<
            Option<CachedNormalizedModel>,
            InputErrorView,
        >(Some(data)),
{
    let n = meta.n_cells as nat;
    let bytes = cache_bytes(meta, data);
    lemma_cache_bytes_layout(meta, data);
    lemma_meta_bytes_read_back(meta, words_bytes(cache_words(data)));
    lemma_columns_words_len(data.columns, data.nnz);
    lemma_cache_stats_read_back(meta, data);
    lemma_cache_columns_read_back(meta, data);
    assert(float_bits_equal(meta.scale_bits, meta.scale_bits));
    assert(meta_matches(stored_meta(bytes), meta));
    assert(cache_words(data).len() == 2 * n + 2 * counts_before(data.nnz, n as int));
    let stored = stored_data(bytes, n);
    assert(stored.libsizes == data.libsizes);
    assert(stored.nnz == data.nnz);
    assert(stored.columns == data.columns);
    assert(stored == data);
}

/// A cache written for one fingerprint gives nothing to a reader that
/// wants another: a fingerprint that differs in any field, be it a content
/// hash that a changed input byte has changed, is a miss.
pub proof fn lemma_cache_invalidated_by_mismatch(
    written: CacheMeta,
    data: CachedNormalizedModel,
    wanted: CacheMeta,
)
    requires
        !meta_matches(written, wanted),
    ensures
        cache_outcome(cache_bytes(written, data), wanted) == Ok::<
            Option<CachedNormalizedModel>,
            InputErrorView,
        >(None),
{
    lemma_cache_bytes_layout(written, data);
    lemma_meta_bytes_read_back(written, words_bytes(cache_words(data)));
}

/// Changing one byte of an input changes its content hash, and with it the
/// fingerprint: a cache written before the change is a miss after it.
pub proof fn lemma_changed_input_invalidates_cache(
    before: Seq<u8>,
    after: Seq<u8>,
    at: int,
    written: CacheMeta,
    data: CachedNormalizedModel,
    wanted: CacheMeta,
)
    requires
        before.len() == after.len(),
        0 <= at < before.len(),
        before[at] != after[at],
        forall|i: int| 0 <= i < before.len() && i != at ==> before[i] == after[i],
        written.hash_mtx == fnv64(before),
        wanted.hash_mtx == fnv64(after),
    ensures
        fnv64(before) != fnv64(after),
        cache_outcome(cache_bytes(written, data), wanted) == Ok::<
            Option<CachedNormalizedModel>,
            InputErrorView,
        >(None),
{
    lemma_fnv64_detects_byte_change(FNV_OFFSET, before, after, at);
    lemma_cache_invalidated_by_mismatch(written, data, wanted);
}

/// The name of the cache file.
pub open spec fn cache_file_name() -> Seq<char> {
    "kira_nuclearqc.normcache"@
}

/// The path of the cache file: in the directory that holds the matrix
/// file, as [`crate::paths::parent_path`] finds it. For a path without a
/// directory above it, as `/`, the cache file lies in the working directory.
pub fn cache_path_default(mtx_path: &str) -> (path: String)
    ensures
        path@ == crate::paths::sibling_path(mtx_path@, cache_file_name()),
{
    crate::paths::sibling(mtx_path, "kira_nuclearqc.normcache")
}

} // verus!
