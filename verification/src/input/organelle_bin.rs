//! Reader for the memory-mappable binary container.

use vstd::prelude::*;
use vstd::utf8::{decode_utf8, valid_utf8};
use crate::input::{string_views, InputError, InputErrorView};
use crate::text::{decimal, push_decimal, utf8_to_string};

verus! {

/// The fixed length of the header.
pub const HEADER_BYTES: usize = 256;

/// Where the header checksum stands in the header.
pub const HEADER_CRC_OFFSET: usize = 120;

/// The value of the endianness tag.
pub const ENDIAN_TAG: u32 = 0x1234_5678;

/// The header of the container, with the fields that follow its fixed
/// opening (magic, version, endianness tag and header size).
#[derive(Debug, Clone, Copy, PartialEq, Eq, Structural)]
pub struct HeaderV1 {
    pub n_genes: u64,
    pub n_cells: u64,
    pub nnz: u64,
    pub genes_table_offset: u64,
    pub genes_table_bytes: u64,
    pub barcodes_table_offset: u64,
    pub barcodes_table_bytes: u64,
    pub col_ptr_offset: u64,
    pub row_idx_offset: u64,
    pub values_u32_offset: u64,
    pub n_blocks: u64,
    pub blocks_offset: u64,
    pub file_bytes: u64,
    pub header_crc64: u64,
    pub data_crc64: u64,
}

/// The little-endian number in the `width` bytes of `s` from `at`.
pub open spec fn le_value(s: Seq<u8>, at: int, width: nat) -> nat
    decreases width,
{
    if width == 0 {
        0
    } else {
        s[at] as nat + 256 * le_value(s, at + 1, (width - 1) as nat)
    }
}

/// Reads the 16-bit little-endian number at `offset`.
pub fn read_u16(bytes: &[u8], offset: usize) -> (v: u16)
    requires
        offset + 2 <= bytes.len(),
    ensures
        v == le_value(bytes@, offset as int, 2),
{
    proof {
        reveal_with_fuel(le_value, 3);
    }
    let b0: u16 = bytes[offset] as u16;
    let b1: u16 = bytes[offset + 1] as u16;
    b0 + b1 * 256
}

/// Reads the 32-bit little-endian number at `offset`.
pub fn read_u32(bytes: &[u8], offset: usize) -> (v: u32)
    requires
        offset + 4 <= bytes.len(),
    ensures
        v == le_value(bytes@, offset as int, 4),
{
    proof {
        reveal_with_fuel(le_value, 5);
    }
    let b0: u32 = bytes[offset] as u32;
    let b1: u32 = bytes[offset + 1] as u32;
    let b2: u32 = bytes[offset + 2] as u32;
    let b3: u32 = bytes[offset + 3] as u32;
    b0 + 256 * (b1 + 256 * (b2 + 256 * b3))
}

/// Reads the 64-bit little-endian number at `offset`.
pub fn read_u64(bytes: &[u8], offset: usize) -> (v: u64)
    requires
        offset + 8 <= bytes.len(),
    ensures
        v == le_value(bytes@, offset as int, 8),
{
    proof {
        reveal_with_fuel(le_value, 5);
        assert(le_value(bytes@, offset as int, 8) == le_value(bytes@, offset as int, 4)
            + 0x1_0000_0000 * le_value(bytes@, offset + 4, 4));
    }
    let low: u64 = read_u32(bytes, offset) as u64;
    let high: u64 = read_u32(bytes, offset + 4) as u64;
    low + 0x1_0000_0000 * high
}

/// The header fields as they stand in the first 256 bytes.
pub open spec fn header_of(bytes: Seq<u8>) -> HeaderV1 {
    HeaderV1 {
        n_genes: le_value(bytes, 16, 8) as u64,
        n_cells: le_value(bytes, 24, 8) as u64,
        nnz: le_value(bytes, 32, 8) as u64,
        genes_table_offset: le_value(bytes, 40, 8) as u64,
        genes_table_bytes: le_value(bytes, 48, 8) as u64,
        barcodes_table_offset: le_value(bytes, 56, 8) as u64,
        barcodes_table_bytes: le_value(bytes, 64, 8) as u64,
        col_ptr_offset: le_value(bytes, 72, 8) as u64,
        row_idx_offset: le_value(bytes, 80, 8) as u64,
        values_u32_offset: le_value(bytes, 88, 8) as u64,
        n_blocks: le_value(bytes, 96, 8) as u64,
        blocks_offset: le_value(bytes, 104, 8) as u64,
        file_bytes: le_value(bytes, 112, 8) as u64,
        header_crc64: le_value(bytes, 120, 8) as u64,
        data_crc64: le_value(bytes, 128, 8) as u64,
    }
}

/// Whether the first four bytes spell `KORG`.
pub open spec fn magic_ok(bytes: Seq<u8>) -> bool {
    bytes[0] == 0x4B && bytes[1] == 0x4F && bytes[2] == 0x52 && bytes[3] == 0x47
}

/// The bytes that the header checksum is taken over: the header with the
/// checksum field itself set to zero.
pub open spec fn checksum_input(bytes: Seq<u8>) -> Seq<u8> {
    Seq::new(
        HEADER_BYTES as nat,
        |i: int|
            if HEADER_CRC_OFFSET <= i < HEADER_CRC_OFFSET + 8 {
                0u8
            } else {
                bytes[i]
            },
    )
}

/// The header of a container, or the first rule of its fixed opening that
/// the bytes break: length, magic, version, endianness tag, header size.
pub open spec fn parse_header_outcome(bytes: Seq<u8>) -> Result<HeaderV1, InputErrorView> {
    if bytes.len() < HEADER_BYTES {
        Err(InputErrorView::InvalidInput("kira-organelle.bin too small"@))
    } else if !magic_ok(bytes) {
        Err(InputErrorView::InvalidInput("invalid magic; expected KORG"@))
    } else if le_value(bytes, 4, 2) != 1 || le_value(bytes, 6, 2) != 0 {
        Err(
            InputErrorView::InvalidInput(
                "unsupported version: "@ + decimal(le_value(bytes, 4, 2)) + "."@ + decimal(
                    le_value(bytes, 6, 2),
                ),
            ),
        )
    } else if le_value(bytes, 8, 4) != ENDIAN_TAG {
        Err(InputErrorView::InvalidInput("unsupported endianness tag"@))
    } else if le_value(bytes, 12, 4) != HEADER_BYTES {
        Err(InputErrorView::InvalidInput("invalid header_size; expected 256"@))
    } else {
        Ok(header_of(bytes))
    }
}

/// The first rule that a header breaks against the bytes it was read from:
/// the declared file size is the length, there are no extension blocks, the
/// data checksum is zero, and the header checksum is present and is the
/// checksum of the header.
pub open spec fn validate_header_outcome(header: HeaderV1, bytes: Seq<u8>) -> Result<
    (),
    InputErrorView,
> {
    if bytes.len() < HEADER_BYTES {
        Err(InputErrorView::InvalidInput("kira-organelle.bin too small"@))
    } else if header.file_bytes != bytes.len() {
        Err(InputErrorView::InvalidInput("file_bytes does not match file length"@))
    } else if header.n_blocks != 0 {
        Err(InputErrorView::InvalidInput("unsupported optional blocks in header"@))
    } else if header.blocks_offset != 0 {
        Err(InputErrorView::InvalidInput("blocks_offset must be zero when n_blocks=0"@))
    } else if header.data_crc64 != 0 {
        Err(InputErrorView::InvalidInput("data_crc64 not supported in v1"@))
    } else if header.header_crc64 == 0 {
        Err(InputErrorView::InvalidInput("header_crc64 missing or zero"@))
    } else if crc64_spec(checksum_input(bytes)) != header.header_crc64 {
        Err(InputErrorView::InvalidInput("header_crc64 mismatch"@))
    } else {
        Ok(())
    }
}

/// Whether a result is the expected outcome.
pub open spec fn result_is<T>(r: Result<T, InputError>, expected: Result<T, InputErrorView>) -> bool {
    match r {
        Ok(v) => expected == Ok::<T, InputErrorView>(v),
        Err(e) => expected == Err::<T, InputErrorView>(e@),
    }
}

/// Reads the header and checks its fixed opening.
pub fn parse_header(bytes: &[u8]) -> (r: Result<HeaderV1, InputError>)
    ensures
        result_is(r, parse_header_outcome(bytes@)),
{
    if bytes.len() < HEADER_BYTES {
        return Err(InputError::invalid("kira-organelle.bin too small"));
    }
    if bytes[0] != 0x4B || bytes[1] != 0x4F || bytes[2] != 0x52 || bytes[3] != 0x47 {
        return Err(InputError::invalid("invalid magic; expected KORG"));
    }
    let version_major: u16 = read_u16(bytes, 4);
    let version_minor: u16 = read_u16(bytes, 6);
    if version_major != 1 || version_minor != 0 {
        let mut msg: String = String::from_str("unsupported version: ");
        push_decimal(&mut msg, version_major as u64);
        msg.append(".");
        push_decimal(&mut msg, version_minor as u64);
        return Err(InputError::InvalidInput(msg));
    }
    if read_u32(bytes, 8) != ENDIAN_TAG {
        return Err(InputError::invalid("unsupported endianness tag"));
    }
    if read_u32(bytes, 12) != 256 {
        return Err(InputError::invalid("invalid header_size; expected 256"));
    }
    Ok(
        HeaderV1 {
            n_genes: read_u64(bytes, 16),
            n_cells: read_u64(bytes, 24),
            nnz: read_u64(bytes, 32),
            genes_table_offset: read_u64(bytes, 40),
            genes_table_bytes: read_u64(bytes, 48),
            barcodes_table_offset: read_u64(bytes, 56),
            barcodes_table_bytes: read_u64(bytes, 64),
            col_ptr_offset: read_u64(bytes, 72),
            row_idx_offset: read_u64(bytes, 80),
            values_u32_offset: read_u64(bytes, 88),
            n_blocks: read_u64(bytes, 96),
            blocks_offset: read_u64(bytes, 104),
            file_bytes: read_u64(bytes, 112),
            header_crc64: read_u64(bytes, 120),
            data_crc64: read_u64(bytes, 128),
        },
    )
}

/// The header bytes with the checksum field set to zero.
pub fn header_checksum_input(bytes: &[u8]) -> (hdr: Vec<u8>)
    requires
        bytes.len() >= HEADER_BYTES,
    ensures
        hdr@ == checksum_input(bytes@),
{
    let mut hdr: Vec<u8> = Vec::new();
    let mut i: usize = 0;
    while i < HEADER_BYTES
        invariant
            i <= HEADER_BYTES <= bytes.len(),
            hdr@.len() == i,
            forall|k: int| 0 <= k < i ==> hdr@[k] == checksum_input(bytes@)[k],
        decreases HEADER_BYTES - i,
    {
        if HEADER_CRC_OFFSET <= i && i < HEADER_CRC_OFFSET + 8 {
            hdr.push(0);
        } else {
            hdr.push(bytes[i]);
        }
        i += 1;
    }
    proof {
        assert(hdr@ =~= checksum_input(bytes@));
    }
    hdr
}

/// Checks a header against the bytes it was read from.
pub fn validate_header(header: &HeaderV1, bytes: &[u8]) -> (r: Result<(), InputError>)
    ensures
        result_is(r, validate_header_outcome(*header, bytes@)),
{
    if bytes.len() < HEADER_BYTES {
        return Err(InputError::invalid("kira-organelle.bin too small"));
    }
    if header.file_bytes != bytes.len() as u64 {
        return Err(InputError::invalid("file_bytes does not match file length"));
    }
    if header.n_blocks != 0 {
        return Err(InputError::invalid("unsupported optional blocks in header"));
    }
    if header.blocks_offset != 0 {
        return Err(InputError::invalid("blocks_offset must be zero when n_blocks=0"));
    }
    if header.data_crc64 != 0 {
        return Err(InputError::invalid("data_crc64 not supported in v1"));
    }
    if header.header_crc64 == 0 {
        return Err(InputError::invalid("header_crc64 missing or zero"));
    }
    let hdr: Vec<u8> = header_checksum_input(bytes);
    let crc: u64 = crc64_ecma(hdr.as_slice());
    if crc != header.header_crc64 {
        return Err(InputError::invalid("header_crc64 mismatch"));
    }
    Ok(())
}

/// The offset table entry `i` of a string table.
pub open spec fn table_offset(tbl: Seq<u8>, i: int) -> nat {
    le_value(tbl, 4 + 4 * i, 4)
}

/// The bytes of a string table after the count and the `count + 1` offsets.
pub open spec fn table_blob(tbl: Seq<u8>, count: nat) -> Seq<u8> {
    tbl.skip(4 + 4 * (count as int + 1))
}

/// The bytes of string `i` of a string table.
pub open spec fn table_string_bytes(tbl: Seq<u8>, count: nat, i: int) -> Seq<u8> {
    table_blob(tbl, count).subrange(table_offset(tbl, i) as int, table_offset(tbl, i + 1) as int)
}

/// The strings of the table that occupies `table_bytes` bytes from `offset`,
/// or the first rule that the table breaks: it lies inside the file and has
/// room for a count and one offset; the count is the expected one; the
/// offsets fit the table; the last offset does not pass the end of the blob;
/// the offsets do not decrease; every string is well-formed UTF-8.
pub open spec fn string_table_outcome(
    bytes: Seq<u8>,
    offset: nat,
    table_bytes: nat,
    expected_count: nat,
) -> Result<Seq<Seq<char>>, InputErrorView> {
    if offset + table_bytes > bytes.len() || table_bytes < 8 {
        Err(InputErrorView::InvalidInput("string table out of bounds"@))
    } else {
        let tbl = bytes.subrange(offset as int, offset as int + table_bytes as int);
        let count = le_value(tbl, 0, 4);
        if count != expected_count {
            Err(InputErrorView::InvalidInput("string table count mismatch"@))
        } else if 4 + 4 * (count + 1) > tbl.len() {
            Err(InputErrorView::InvalidInput("string table offsets out of bounds"@))
        } else if table_offset(tbl, count as int) > table_blob(tbl, count).len() {
            Err(InputErrorView::InvalidInput("string table blob length mismatch"@))
        } else if exists|i: int|
            0 <= i < count && table_offset(tbl, i) > #[trigger] table_offset(tbl, i + 1) {
            Err(InputErrorView::InvalidInput("string table offsets not monotonic"@))
        } else if exists|i: int|
            0 <= i < count && !valid_utf8(#[trigger] table_string_bytes(tbl, count, i)) {
            Err(InputErrorView::InvalidInput("invalid utf-8 in string table"@))
        } else {
            Ok(Seq::new(count, |i: int| decode_utf8(table_string_bytes(tbl, count, i))))
        }
    }
}

/// Offsets that do not decrease from one to the next do not decrease at all.
pub proof fn lemma_table_offsets_ordered(tbl: Seq<u8>, count: nat, i: int, j: int)
    requires
        forall|k: int| 0 <= k < count ==> table_offset(tbl, k) <= #[trigger] table_offset(tbl, k + 1),
        0 <= i <= j <= count,
    ensures
        table_offset(tbl, i) <= table_offset(tbl, j),
    decreases j - i,
{
    if i < j {
        lemma_table_offsets_ordered(tbl, count, i, j - 1);
        assert(table_offset(tbl, j - 1) <= table_offset(tbl, (j - 1) + 1));
    }
}

/// Reads a string table.
#[verifier::loop_isolation(false)]
pub fn parse_string_table(bytes: &[u8], offset: u64, table_bytes: u64, expected_count: u64) -> (r:
    Result<Vec<String>, InputError>)
    ensures
        match r {
            Ok(strings) => string_table_outcome(
                bytes@,
                offset as nat,
                table_bytes as nat,
                expected_count as nat,
            ) == Ok::<Seq<Seq<char>>, InputErrorView>(string_views(strings@)),
            Err(e) => string_table_outcome(
                bytes@,
                offset as nat,
                table_bytes as nat,
                expected_count as nat,
            ) == Err::<Seq<Seq<char>>, InputErrorView>(e@),
        },
{
    if offset as u128 + table_bytes as u128 > bytes.len() as u128 || table_bytes < 8 {
        return Err(InputError::invalid("string table out of bounds"));
    }
    let from: usize = offset as usize;
    let to: usize = (offset + table_bytes) as usize;
    let tbl: &[u8] = vstd::slice::slice_subrange(bytes, from, to);
    let count: u32 = read_u32(tbl, 0);
    if count as u64 != expected_count {
        return Err(InputError::invalid("string table count mismatch"));
    }
    let head: u64 = 4 + 4 * (count as u64 + 1);
    if head > tbl.len() as u64 {
        return Err(InputError::invalid("string table offsets out of bounds"));
    }
    let blob: &[u8] = vstd::slice::slice_subrange(tbl, head as usize, tbl.len());
    proof {
        assert(blob@ =~= table_blob(tbl@, count as nat));
    }
    let n: usize = count as usize;
    if read_u32(tbl, 4 + 4 * n) as u64 > blob.len() as u64 {
        return Err(InputError::invalid("string table blob length mismatch"));
    }
    let mut i: usize = 0;
    while i < n
        invariant
            i <= n,
            n == count,
            4 + 4 * (n + 1) <= tbl.len(),
            forall|k: int| 0 <= k < i ==> table_offset(tbl@, k) <= #[trigger] table_offset(tbl@, k + 1),
        decreases n - i,
    {
        if read_u32(tbl, 4 + 4 * i) > read_u32(tbl, 4 + 4 * (i + 1)) {
            proof {
                assert(table_offset(tbl@, i as int) > table_offset(tbl@, i + 1));
            }
            return Err(InputError::invalid("string table offsets not monotonic"));
        }
        i += 1;
    }
    let mut out: Vec<String> = Vec::new();
    i = 0;
    while i < n
        invariant
            i <= n,
            n == count,
            4 + 4 * (n + 1) <= tbl.len(),
            blob@ == table_blob(tbl@, count as nat),
            table_offset(tbl@, n as int) <= blob@.len(),
            forall|k: int| 0 <= k < n ==> table_offset(tbl@, k) <= #[trigger] table_offset(tbl@, k + 1),
            out@.len() == i,
            forall|k: int|
                0 <= k < i ==> valid_utf8(#[trigger] table_string_bytes(tbl@, count as nat, k))
                    && out@[k]@ == decode_utf8(table_string_bytes(tbl@, count as nat, k)),
        decreases n - i,
    {
        let start: usize = read_u32(tbl, 4 + 4 * i) as usize;
        let end: usize = read_u32(tbl, 4 + 4 * (i + 1)) as usize;
        proof {
            assert(table_offset(tbl@, i as int) <= table_offset(tbl@, i + 1));
            lemma_table_offsets_ordered(tbl@, count as nat, i + 1, n as int);
        }
        let piece: &[u8] = vstd::slice::slice_subrange(blob, start, end);
        match utf8_to_string(piece) {
            Some(s) => {
                out.push(s);
            },
            None => {
                proof {
                    assert(!valid_utf8(table_string_bytes(tbl@, count as nat, i as int)));
                }
                return Err(InputError::invalid("invalid utf-8 in string table"));
            },
        }
        i += 1;
    }
    proof {
        assert(string_views(out@) =~= Seq::new(
            count as nat,
            |i: int| decode_utf8(table_string_bytes(tbl@, count as nat, i)),
        ));
    }
    Ok(out)
}

/// The `len` little-endian numbers of `width` bytes each from `offset`, or
/// why they cannot be had: their size in bytes passes what the machine can
/// index, or they pass the end of the bytes.
pub open spec fn le_array_outcome(bytes: Seq<u8>, offset: nat, len: nat, width: nat) -> Result<
    Seq<nat>,
    bool,
> {
    if len * width > usize::MAX {
        Err(true)
    } else if offset + len * width > bytes.len() {
        Err(false)
    } else {
        Ok(Seq::new(len, |i: int| le_value(bytes, offset + width * i, width)))
    }
}

/// Reads `len` 32-bit little-endian numbers from `offset`.
pub fn read_u32_vec(bytes: &[u8], offset: u64, len: u64) -> (r: Result<Vec<u32>, InputError>)
    ensures
        match r {
            Ok(v) => le_array_outcome(bytes@, offset as nat, len as nat, 4) == Ok::<Seq<nat>, bool>(
                v@.map_values(|x: u32| x as nat),
            ),
            Err(e) => match le_array_outcome(bytes@, offset as nat, len as nat, 4) {
                Ok(_) => false,
                Err(too_large) => e@ == InputErrorView::InvalidInput(
                    if too_large {
                        "u32 size overflow"@
                    } else {
                        "u32 vector out of bounds"@
                    },
                ),
            },
        },
{
    if len as u128 * 4 > usize::MAX as u128 {
        return Err(InputError::invalid("u32 size overflow"));
    }
    if offset as u128 + len as u128 * 4 > bytes.len() as u128 {
        return Err(InputError::invalid("u32 vector out of bounds"));
    }
    let base: usize = offset as usize;
    let n: usize = len as usize;
    let mut out: Vec<u32> = Vec::new();
    let mut i: usize = 0;
    while i < n
        invariant
            i <= n,
            base + 4 * n <= bytes.len(),
            out@.len() == i,
            forall|k: int| 0 <= k < i ==> out@[k] == le_value(bytes@, base + 4 * k, 4),
        decreases n - i,
    {
        out.push(read_u32(bytes, base + 4 * i));
        i += 1;
    }
    proof {
        assert(out@.map_values(|x: u32| x as nat) =~= Seq::new(
            len as nat,
            |i: int| le_value(bytes@, offset as nat + 4 * i, 4),
        ));
    }
    Ok(out)
}

/// Reads `len` 64-bit little-endian numbers from `offset`.
pub fn read_u64_vec(bytes: &[u8], offset: u64, len: u64) -> (r: Result<Vec<u64>, InputError>)
    ensures
        match r {
            Ok(v) => le_array_outcome(bytes@, offset as nat, len as nat, 8) == Ok::<Seq<nat>, bool>(
                v@.map_values(|x: u64| x as nat),
            ),
            Err(e) => match le_array_outcome(bytes@, offset as nat, len as nat, 8) {
                Ok(_) => false,
                Err(too_large) => e@ == InputErrorView::InvalidInput(
                    if too_large {
                        "u64 size overflow"@
                    } else {
                        "u64 vector out of bounds"@
                    },
                ),
            },
        },
{
    if len as u128 * 8 > usize::MAX as u128 {
        return Err(InputError::invalid("u64 size overflow"));
    }
    if offset as u128 + len as u128 * 8 > bytes.len() as u128 {
        return Err(InputError::invalid("u64 vector out of bounds"));
    }
    let base: usize = offset as usize;
    let n: usize = len as usize;
    let mut out: Vec<u64> = Vec::new();
    let mut i: usize = 0;
    while i < n
        invariant
            i <= n,
            base + 8 * n <= bytes.len(),
            out@.len() == i,
            forall|k: int| 0 <= k < i ==> out@[k] == le_value(bytes@, base + 8 * k, 8),
        decreases n - i,
    {
        out.push(read_u64(bytes, base + 8 * i));
        i += 1;
    }
    proof {
        assert(out@.map_values(|x: u64| x as nat) =~= Seq::new(
            len as nat,
            |i: int| le_value(bytes@, offset as nat + 8 * i, 8),
        ));
    }
    Ok(out)
}

/// The sparse matrix of a container, as its three flat arrays.
#[derive(Debug, Clone)]
pub struct CscView {
    pub n_genes: usize,
    pub n_cells: usize,
    pub nnz: usize,
    pub col_ptr: Vec<u64>,
    pub row_idx: Vec<u32>,
    pub values: Vec<u32>,
}

/// The first fault of a column that spans `start..end`, looked for from
/// `k` on: a row that is no gene, or a row that does not exceed the one
/// before it in the column.
pub open spec fn column_fault(row_idx: Seq<u32>, n_genes: nat, start: int, end: int, k: int)
    -> Option<Seq<char>>
    decreases end - k,
{
    if k >= end {
        None
    } else if row_idx[k] >= n_genes {
        Some("row_idx out of bounds"@)
    } else if k > start && row_idx[k] <= row_idx[k - 1] {
        Some("row_idx not strictly increasing within column"@)
    } else {
        column_fault(row_idx, n_genes, start, end, k + 1)
    }
}

/// The first fault of the columns from `cell` on.
pub open spec fn columns_fault(
    col_ptr: Seq<u64>,
    row_idx: Seq<u32>,
    n_genes: nat,
    n_cells: nat,
    cell: int,
) -> Option<Seq<char>>
    decreases n_cells - cell,
{
    if cell < 0 || cell >= n_cells {
        None
    } else {
        match column_fault(
            row_idx,
            n_genes,
            col_ptr[cell] as int,
            col_ptr[cell + 1] as int,
            col_ptr[cell] as int,
        ) {
            Some(msg) => Some(msg),
            None => columns_fault(col_ptr, row_idx, n_genes, n_cells, cell + 1),
        }
    }
}

/// A sparse matrix as mathematical values.
pub struct CscModel {
    pub n_genes: nat,
    pub n_cells: nat,
    pub nnz: nat,
    pub col_ptr: Seq<u64>,
    pub row_idx: Seq<u32>,
    pub values: Seq<u32>,
}

impl CscModel {
    /// The invariant of a compressed sparse column structure: the column
    /// pointers run from zero to the number of entries without decreasing,
    /// every row is a gene, and rows ascend strictly inside a column.
    #[verifier::opaque]
    pub open spec fn wf(self) -> bool {
        &&& self.col_ptr.len() == self.n_cells + 1
        &&& self.row_idx.len() == self.nnz
        &&& self.values.len() == self.nnz
        &&& self.col_ptr[0] == 0
        &&& self.col_ptr[self.n_cells as int] == self.nnz
        &&& forall|c: int| 0 <= c < self.n_cells ==> self.col_ptr[c] <= #[trigger] self.col_ptr[c + 1]
        &&& forall|k: int| 0 <= k < self.nnz ==> #[trigger] self.row_idx[k] < self.n_genes
        &&& forall|c: int, k: int|
            #![trigger self.col_ptr[c], self.row_idx[k]]
            0 <= c < self.n_cells && self.col_ptr[c] < k < self.col_ptr[c + 1] ==> self.row_idx[k
                - 1] < self.row_idx[k]
    }

    /// The first rule that the structure breaks, in the order in which the
    /// rules are checked; nothing for a structure that keeps them all.
    pub open spec fn first_fault(self) -> Option<Seq<char>> {
        if self.col_ptr.len() != self.n_cells + 1 {
            Some("col_ptr length mismatch"@)
        } else if self.row_idx.len() != self.nnz || self.values.len() != self.nnz {
            Some("row_idx/values length mismatch"@)
        } else if self.col_ptr[0] != 0 {
            Some("col_ptr[0] must be 0"@)
        } else if self.col_ptr[self.n_cells as int] != self.nnz {
            Some("col_ptr[n_cells] must equal nnz"@)
        } else if exists|c: int|
            0 <= c < self.n_cells && self.col_ptr[c] > #[trigger] self.col_ptr[c + 1] {
            Some("col_ptr not monotonic"@)
        } else {
            columns_fault(self.col_ptr, self.row_idx, self.n_genes, self.n_cells, 0)
        }
    }
}

impl View for CscView {
    type V = CscModel;

    open spec fn view(&self) -> CscModel {
        CscModel {
            n_genes: self.n_genes as nat,
            n_cells: self.n_cells as nat,
            nnz: self.nnz as nat,
            col_ptr: self.col_ptr@,
            row_idx: self.row_idx@,
            values: self.values@,
        }
    }
}

impl CscView {
    /// The invariant of the structure; see [`CscModel::wf`].
    pub open spec fn wf(&self) -> bool {
        self@.wf()
    }
}

/// Column pointers that do not decrease from one to the next do not
/// decrease at all.
pub proof fn lemma_col_ptr_ordered(col_ptr: Seq<u64>, n_cells: nat, i: int, j: int)
    requires
        col_ptr.len() == n_cells + 1,
        forall|c: int| 0 <= c < n_cells ==> col_ptr[c] <= #[trigger] col_ptr[c + 1],
        0 <= i <= j <= n_cells,
    ensures
        col_ptr[i] <= col_ptr[j],
    decreases j - i,
{
    if i < j {
        lemma_col_ptr_ordered(col_ptr, n_cells, i, j - 1);
        assert(col_ptr[j - 1] <= col_ptr[(j - 1) + 1]);
    }
}

/// Whether the rows of the column that spans `start..end` are genes and
/// ascend strictly.
pub open spec fn column_ok(row_idx: Seq<u32>, n_genes: nat, start: int, end: int) -> bool {
    &&& forall|j: int| start <= j < end ==> #[trigger] row_idx[j] < n_genes
    &&& forall|j: int| start < j < end ==> row_idx[j - 1] < #[trigger] row_idx[j]
}

/// Checks the rows of one column.
pub fn validate_column(row_idx: &[u32], n_genes: usize, start: usize, end: usize) -> (r: Result<
    (),
    InputError,
>)
    requires
        start <= end <= row_idx.len(),
    ensures
        match r {
            Ok(_) => column_ok(row_idx@, n_genes as nat, start as int, end as int) && column_fault(
                row_idx@,
                n_genes as nat,
                start as int,
                end as int,
                start as int,
            ) is None,
            Err(e) => !column_ok(row_idx@, n_genes as nat, start as int, end as int)
                && column_fault(row_idx@, n_genes as nat, start as int, end as int, start as int)
                is Some && e@ == InputErrorView::InvalidInput(
                column_fault(row_idx@, n_genes as nat, start as int, end as int, start as int)->0,
            ),
        },
{
    let mut k: usize = start;
    while k < end
        invariant
            start <= k <= end <= row_idx.len(),
            column_fault(row_idx@, n_genes as nat, start as int, end as int, start as int)
                == column_fault(row_idx@, n_genes as nat, start as int, end as int, k as int),
            column_ok(row_idx@, n_genes as nat, start as int, k as int),
        decreases end - k,
    {
        if row_idx[k] as u64 >= n_genes as u64 {
            return Err(InputError::invalid("row_idx out of bounds"));
        }
        if k > start && row_idx[k] <= row_idx[k - 1] {
            proof {
                assert(!(row_idx@[k - 1] < row_idx@[k as int]));
            }
            return Err(InputError::invalid("row_idx not strictly increasing within column"));
        }
        k += 1;
    }
    Ok(())
}

/// Checks the invariant of a compressed sparse column structure.
pub fn validate_csc(csc: &CscView) -> (r: Result<(), InputError>)
    ensures
        match r {
            Ok(_) => csc.wf() && csc@.first_fault() is None,
            Err(e) => !csc.wf() && csc@.first_fault() is Some && e@ == InputErrorView::InvalidInput(
                csc@.first_fault()->0,
            ),
        },
{
    proof {
        reveal(CscModel::wf);
    }
    let pointers: usize = csc.col_ptr.len();
    if csc.n_cells == usize::MAX || pointers != csc.n_cells + 1 {
        return Err(InputError::invalid("col_ptr length mismatch"));
    }
    if csc.row_idx.len() != csc.nnz || csc.values.len() != csc.nnz {
        return Err(InputError::invalid("row_idx/values length mismatch"));
    }
    if csc.col_ptr[0] != 0 {
        return Err(InputError::invalid("col_ptr[0] must be 0"));
    }
    if csc.col_ptr[csc.n_cells] != csc.nnz as u64 {
        return Err(InputError::invalid("col_ptr[n_cells] must equal nnz"));
    }
    let ghost n_genes = csc.n_genes as nat;
    let ghost n_cells = csc.n_cells as nat;
    let mut i: usize = 1;
    while i < csc.col_ptr.len()
        invariant
            1 <= i <= csc.col_ptr@.len(),
            csc.col_ptr@.len() == csc.n_cells + 1,
            forall|c: int| 0 <= c < i - 1 ==> csc.col_ptr@[c] <= #[trigger] csc.col_ptr@[c + 1],
        ensures
            i == csc.col_ptr@.len() || (i < csc.col_ptr@.len() && csc.col_ptr@[i - 1]
                > csc.col_ptr@[i as int]),
        decreases csc.col_ptr@.len() - i,
    {
        if csc.col_ptr[i - 1] > csc.col_ptr[i] {
            break ;
        }
        i += 1;
    }
    if i < csc.col_ptr.len() {
        proof {
            assert(csc.col_ptr@[i - 1] > csc.col_ptr@[(i - 1) + 1]);
        }
        return Err(InputError::invalid("col_ptr not monotonic"));
    }
    let mut cell: usize = 0;
    let mut fault: Option<InputError> = None;
    while cell < csc.n_cells && fault.is_none()
        invariant
            cell <= csc.n_cells,
            n_genes == csc.n_genes,
            n_cells == csc.n_cells,
            csc.col_ptr@.len() == n_cells + 1,
            csc.row_idx@.len() == csc.nnz,
            csc.col_ptr@[n_cells as int] == csc.nnz,
            forall|c: int| 0 <= c < n_cells ==> csc.col_ptr@[c] <= #[trigger] csc.col_ptr@[c + 1],
            match fault {
                None => {
                    &&& columns_fault(csc.col_ptr@, csc.row_idx@, n_genes, n_cells, 0)
                        == columns_fault(csc.col_ptr@, csc.row_idx@, n_genes, n_cells, cell as int)
                    &&& forall|c: int|
                        0 <= c < cell ==> column_ok(
                            csc.row_idx@,
                            n_genes,
                            #[trigger] csc.col_ptr@[c] as int,
                            csc.col_ptr@[c + 1] as int,
                        )
                },
                Some(e) => {
                    &&& columns_fault(csc.col_ptr@, csc.row_idx@, n_genes, n_cells, 0) is Some
                    &&& e@ == InputErrorView::InvalidInput(
                        columns_fault(csc.col_ptr@, csc.row_idx@, n_genes, n_cells, 0)->0,
                    )
                    &&& cell < n_cells
                    &&& !column_ok(
                        csc.row_idx@,
                        n_genes,
                        csc.col_ptr@[cell as int] as int,
                        csc.col_ptr@[cell + 1] as int,
                    )
                },
            },
        decreases csc.n_cells - cell + (if fault.is_none() { 1int } else { 0 }),
    {
        proof {
            lemma_col_ptr_ordered(csc.col_ptr@, n_cells, cell + 1, n_cells as int);
            assert(csc.col_ptr@[cell as int] <= csc.col_ptr@[cell + 1]);
        }
        let start: usize = csc.col_ptr[cell] as usize;
        let end: usize = csc.col_ptr[cell + 1] as usize;
        match validate_column(csc.row_idx.as_slice(), csc.n_genes, start, end) {
            Ok(_) => {
                cell += 1;
            },
            Err(e) => {
                fault = Some(e);
            },
        }
    }
    match fault {
        Some(e) => {
            proof {
                lemma_column_fault_breaks_invariant(csc@, cell as int);
            }
            Err(e)
        },
        None => {
            proof {
                lemma_columns_ok_give_invariant(csc@);
            }
            Ok(())
        },
    }
}

/// A column with a fault breaks the invariant of the whole structure.
pub proof fn lemma_column_fault_breaks_invariant(csc: CscModel, cell: int)
    requires
        0 <= cell < csc.n_cells,
        csc.col_ptr.len() == csc.n_cells + 1,
        csc.col_ptr[csc.n_cells as int] == csc.nnz,
        forall|c: int| 0 <= c < csc.n_cells ==> csc.col_ptr[c] <= #[trigger] csc.col_ptr[c + 1],
        !column_ok(
            csc.row_idx,
            csc.n_genes,
            csc.col_ptr[cell] as int,
            csc.col_ptr[cell + 1] as int,
        ),
    ensures
        !csc.wf(),
{
    reveal(CscModel::wf);
    let start = csc.col_ptr[cell] as int;
    let end = csc.col_ptr[cell + 1] as int;
    lemma_col_ptr_ordered(csc.col_ptr, csc.n_cells, cell + 1, csc.n_cells as int);
    if exists|j: int| start <= j < end && !(#[trigger] csc.row_idx[j] < csc.n_genes) {
        let j = choose|j: int| start <= j < end && !(#[trigger] csc.row_idx[j] < csc.n_genes);
        assert(0 <= j < csc.nnz);
    } else {
        let j = choose|j: int| start < j < end && !(csc.row_idx[j - 1] < #[trigger] csc.row_idx[j]);
        assert(csc.col_ptr[cell] < j < csc.col_ptr[cell + 1]);
    }
}

/// Columns without fault, between pointers in order, make the invariant.
pub proof fn lemma_columns_ok_give_invariant(csc: CscModel)
    requires
        csc.col_ptr.len() == csc.n_cells + 1,
        csc.row_idx.len() == csc.nnz,
        csc.values.len() == csc.nnz,
        csc.col_ptr[0] == 0,
        csc.col_ptr[csc.n_cells as int] == csc.nnz,
        forall|c: int| 0 <= c < csc.n_cells ==> csc.col_ptr[c] <= #[trigger] csc.col_ptr[c + 1],
        forall|c: int|
            0 <= c < csc.n_cells ==> column_ok(
                csc.row_idx,
                csc.n_genes,
                #[trigger] csc.col_ptr[c] as int,
                csc.col_ptr[c + 1] as int,
            ),
    ensures
        csc.wf(),
{
    reveal(CscModel::wf);
    assert forall|k: int| 0 <= k < csc.nnz implies #[trigger] csc.row_idx[k] < csc.n_genes by {
        lemma_column_of_position(csc.col_ptr, csc.n_cells, k, csc.n_cells as int);
        let c = choose|c: int| 0 <= c < csc.n_cells && csc.col_ptr[c] <= k < #[trigger] csc.col_ptr[c + 1];
        assert(column_ok(
            csc.row_idx,
            csc.n_genes,
            csc.col_ptr[c] as int,
            csc.col_ptr[c + 1] as int,
        ));
    }
    assert forall|c: int, k: int|
        #![trigger csc.col_ptr[c], csc.row_idx[k]]
        0 <= c < csc.n_cells && csc.col_ptr[c] < k < csc.col_ptr[c + 1] implies csc.row_idx[k - 1]
            < csc.row_idx[k] by {
        assert(column_ok(
            csc.row_idx,
            csc.n_genes,
            csc.col_ptr[c] as int,
            csc.col_ptr[c + 1] as int,
        ));
    }
}

/// Every position below a pointer lies in a column before it.
pub proof fn lemma_column_of_position(col_ptr: Seq<u64>, n_cells: nat, k: int, upto: int)
    requires
        col_ptr.len() == n_cells + 1,
        col_ptr[0] == 0,
        0 <= upto <= n_cells,
        0 <= k < col_ptr[upto],
    ensures
        exists|c: int| 0 <= c < upto && col_ptr[c] <= k < #[trigger] col_ptr[c + 1],
    decreases upto,
{
    if upto > 0 {
        if k < col_ptr[upto - 1] {
            lemma_column_of_position(col_ptr, n_cells, k, upto - 1);
        } else {
            assert(col_ptr[upto - 1] <= k < col_ptr[(upto - 1) + 1]);
        }
    }
}

/// The contents of a container.
#[derive(Debug, Clone)]
pub struct OrganelleBin {
    pub header: HeaderV1,
    pub genes: Vec<String>,
    pub barcodes: Vec<String>,
    pub csc: CscView,
}

/// The contents of a container as mathematical values.
pub struct OrganelleBinView {
    pub header: HeaderV1,
    pub genes: Seq<Seq<char>>,
    pub barcodes: Seq<Seq<char>>,
    pub csc: CscModel,
}

impl View for OrganelleBin {
    type V = OrganelleBinView;

    open spec fn view(&self) -> OrganelleBinView {
        OrganelleBinView {
            header: self.header,
            genes: string_views(self.genes@),
            barcodes: string_views(self.barcodes@),
            csc: self.csc@,
        }
    }
}

/// The error of an array that cannot be had.
pub open spec fn array_error(too_large: bool, size_message: Seq<char>, bounds_message: Seq<char>)
    -> InputErrorView {
    InputErrorView::InvalidInput(
        if too_large {
            size_message
        } else {
            bounds_message
        },
    )
}

/// The 64-bit numbers of an array that was read.
pub open spec fn as_u64s(s: Seq<nat>) -> Seq<u64> {
    s.map_values(|x: nat| x as u64)
}

/// The 32-bit numbers of an array that was read.
pub open spec fn as_u32s(s: Seq<nat>) -> Seq<u32> {
    s.map_values(|x: nat| x as u32)
}

/// What the bytes of a container hold before the matrix is checked: the
/// header, the two string tables and the three arrays, or the first rule
/// that the bytes break.
pub open spec fn container_parts(bytes: Seq<u8>) -> Result<OrganelleBinView, InputErrorView> {
    match parse_header_outcome(bytes) {
        Err(e) => Err(e),
        Ok(header) => match validate_header_outcome(header, bytes) {
            Err(e) => Err(e),
            Ok(_) => match string_table_outcome(
                bytes,
                header.genes_table_offset as nat,
                header.genes_table_bytes as nat,
                header.n_genes as nat,
            ) {
                Err(e) => Err(e),
                Ok(genes) => match string_table_outcome(
                    bytes,
                    header.barcodes_table_offset as nat,
                    header.barcodes_table_bytes as nat,
                    header.n_cells as nat,
                ) {
                    Err(e) => Err(e),
                    Ok(barcodes) => match le_array_outcome(
                        bytes,
                        header.col_ptr_offset as nat,
                        header.n_cells as nat + 1,
                        8,
                    ) {
                        Err(big) => Err(
                            array_error(big, "u64 size overflow"@, "u64 vector out of bounds"@),
                        ),
                        Ok(col_ptr) => match le_array_outcome(
                            bytes,
                            header.row_idx_offset as nat,
                            header.nnz as nat,
                            4,
                        ) {
                            Err(big) => Err(
                                array_error(big, "u32 size overflow"@, "u32 vector out of bounds"@),
                            ),
                            Ok(row_idx) => match le_array_outcome(
                                bytes,
                                header.values_u32_offset as nat,
                                header.nnz as nat,
                                4,
                            ) {
                                Err(big) => Err(
                                    array_error(
                                        big,
                                        "u32 size overflow"@,
                                        "u32 vector out of bounds"@,
                                    ),
                                ),
                                Ok(values) => Ok(
                                    OrganelleBinView {
                                        header,
                                        genes,
                                        barcodes,
                                        csc: CscModel {
                                            n_genes: header.n_genes as nat,
                                            n_cells: header.n_cells as nat,
                                            nnz: header.nnz as nat,
                                            col_ptr: as_u64s(col_ptr),
                                            row_idx: as_u32s(row_idx),
                                            values: as_u32s(values),
                                        },
                                    },
                                ),
                            },
                        },
                    },
                },
            },
        },
    }
}

/// What the bytes of a container hold: its contents, with a matrix that
/// keeps the invariant, or the first rule that the bytes break.
pub open spec fn container_outcome(bytes: Seq<u8>) -> Result<OrganelleBinView, InputErrorView> {
    match container_parts(bytes) {
        Err(e) => Err(e),
        Ok(parts) => match parts.csc.first_fault() {
            Some(msg) => Err(InputErrorView::InvalidInput(msg)),
            None => Ok(parts),
        },
    }
}

/// Reads a container from the bytes of its file. Every rule of the format
/// is checked before anything is handed out: a container that comes back
/// has a matrix that keeps the invariant, and bytes that break a rule give
/// the error of the first rule broken and nothing else.
pub fn read_organelle_bin(bytes: &[u8]) -> (r: Result<OrganelleBin, InputError>)
    ensures
        match r {
            Ok(bin) => container_outcome(bytes@) == Ok::<OrganelleBinView, InputErrorView>(bin@)
                && bin.csc.wf(),
            Err(e) => container_outcome(bytes@) == Err::<OrganelleBinView, InputErrorView>(e@),
        },
{
    let header: HeaderV1 = match parse_header(bytes) {
        Ok(h) => h,
        Err(e) => { return Err(e); },
    };
    match validate_header(&header, bytes) {
        Ok(_) => {},
        Err(e) => { return Err(e); },
    }
    let genes: Vec<String> = match parse_string_table(
        bytes,
        header.genes_table_offset,
        header.genes_table_bytes,
        header.n_genes,
    ) {
        Ok(v) => v,
        Err(e) => { return Err(e); },
    };
    let barcodes: Vec<String> = match parse_string_table(
        bytes,
        header.barcodes_table_offset,
        header.barcodes_table_bytes,
        header.n_cells,
    ) {
        Ok(v) => v,
        Err(e) => { return Err(e); },
    };
    proof {
        // Both counts were read from 32 bits.
        assert(string_views(genes@).len() == header.n_genes);
        assert(string_views(barcodes@).len() == header.n_cells);
    }
    let col_ptr: Vec<u64> = match read_u64_vec(bytes, header.col_ptr_offset, header.n_cells + 1) {
        Ok(v) => v,
        Err(e) => { return Err(e); },
    };
    let row_idx: Vec<u32> = match read_u32_vec(bytes, header.row_idx_offset, header.nnz) {
        Ok(v) => v,
        Err(e) => { return Err(e); },
    };
    let values: Vec<u32> = match read_u32_vec(bytes, header.values_u32_offset, header.nnz) {
        Ok(v) => v,
        Err(e) => { return Err(e); },
    };
    proof {
        assert(row_idx@.map_values(|x: u32| x as nat).len() == header.nnz);
        assert(col_ptr@ =~= as_u64s(col_ptr@.map_values(|x: u64| x as nat)));
        assert(row_idx@ =~= as_u32s(row_idx@.map_values(|x: u32| x as nat)));
        assert(values@ =~= as_u32s(values@.map_values(|x: u32| x as nat)));
    }
    let csc = CscView {
        n_genes: genes.len(),
        n_cells: barcodes.len(),
        nnz: row_idx.len(),
        col_ptr,
        row_idx,
        values,
    };
    match validate_csc(&csc) {
        Ok(_) => {},
        Err(e) => { return Err(e); },
    }
    Ok(OrganelleBin { header, genes, barcodes, csc })
}

/// Generator polynomial of the header checksum (ECMA-182, most significant bit first).
pub const CRC64_POLY: u64 = 0x42F0_E1EB_A9EA_3693;

/// One shift of the checksum register: the top bit leaves, and where it was
/// set the polynomial is folded in.
pub open spec fn crc64_shift(crc: u64) -> u64 {
    if crc & 0x8000_0000_0000_0000u64 != 0 {
        (crc << 1u64) ^ CRC64_POLY
    } else {
        crc << 1u64
    }
}

/// The register after `n` shifts.
pub open spec fn crc64_shifts(crc: u64, n: nat) -> u64
    decreases n,
{
    if n == 0 {
        crc
    } else {
        crc64_shift(crc64_shifts(crc, (n - 1) as nat))
    }
}

/// The register after one message byte: the byte enters at the top, then
/// eight shifts.
pub open spec fn crc64_byte(crc: u64, b: u8) -> u64 {
    crc64_shifts(crc ^ ((b as u64) << 56u64), 8)
}

/// The checksum of a byte sequence: the register starts at zero and takes
/// the bytes in order; nothing is reflected and nothing is xored at the end.
pub open spec fn crc64_spec(bytes: Seq<u8>) -> u64
    decreases bytes.len(),
{
    if bytes.len() == 0 {
        0
    } else {
        crc64_byte(crc64_spec(bytes.drop_last()), bytes.last())
    }
}

/// Computes the CRC-64/ECMA-182 checksum of `bytes`.
pub fn crc64_ecma(bytes: &[u8]) -> (crc: u64)
    ensures
        crc == crc64_spec(bytes@),
{
    let mut crc: u64 = 0;
    let mut i: usize = 0;
    while i < bytes.len()
        invariant
            i <= bytes.len(),
            crc == crc64_spec(bytes@.take(i as int)),
        decreases bytes.len() - i,
    {
        let b = bytes[i];
        let ghost before = crc;
        crc = crc ^ ((b as u64) << 56);
        let mut k: u8 = 0;
        while k < 8
            invariant
                k <= 8,
                crc == crc64_shifts(before ^ ((b as u64) << 56u64), k as nat),
            decreases 8 - k,
        {
            if (crc & 0x8000_0000_0000_0000) != 0 {
                crc = (crc << 1) ^ CRC64_POLY;
            } else {
                crc = crc << 1;
            }
            k += 1;
        }
        proof {
            assert(bytes@.take(i + 1).drop_last() =~= bytes@.take(i as int));
        }
        i += 1;
    }
    proof {
        assert(bytes@.take(i as int) =~= bytes@);
    }
    crc
}

/// Two registers that are equal after a shift were equal before it.
pub proof fn lemma_crc64_shift_injective(a: u64, b: u64)
    requires
        crc64_shift(a) == crc64_shift(b),
    ensures
        a == b,
{
    assert((if a & 0x8000_0000_0000_0000u64 != 0 {
        (a << 1u64) ^ 0x42F0_E1EB_A9EA_3693u64
    } else {
        a << 1u64
    }) == (if b & 0x8000_0000_0000_0000u64 != 0 {
        (b << 1u64) ^ 0x42F0_E1EB_A9EA_3693u64
    } else {
        b << 1u64
    }) ==> a == b) by (bit_vector);
}

/// Two registers that are equal after `n` shifts were equal before them.
pub proof fn lemma_crc64_shifts_injective(a: u64, b: u64, n: nat)
    requires
        crc64_shifts(a, n) == crc64_shifts(b, n),
    ensures
        a == b,
    decreases n,
{
    if n > 0 {
        lemma_crc64_shift_injective(crc64_shifts(a, (n - 1) as nat), crc64_shifts(b, (n - 1) as nat));
        lemma_crc64_shifts_injective(a, b, (n - 1) as nat);
    }
}

/// The register after a byte tells both the register before it and the
/// byte: two steps with the same result started from the same register with
/// the same byte, if either the registers or the bytes were the same.
pub proof fn lemma_crc64_byte_injective(a: u64, x: u8, b: u64, y: u8)
    requires
        crc64_byte(a, x) == crc64_byte(b, y),
        a == b || x == y,
    ensures
        a == b,
        x == y,
{
    lemma_crc64_shifts_injective(a ^ ((x as u64) << 56u64), b ^ ((y as u64) << 56u64), 8);
    let p = x as u64;
    let q = y as u64;
    assert(a ^ (p << 56u64) == b ^ (q << 56u64) && p < 256 && q < 256 && (a == b || p == q) ==> a
        == b && p == q) by (bit_vector);
}

/// The checksum tells any change of a single byte: two byte sequences of
/// one length that differ in exactly one place have different checksums.
pub proof fn lemma_crc64_detects_byte_change(a: Seq<u8>, b: Seq<u8>, at: int)
    requires
        a.len() == b.len(),
        0 <= at < a.len(),
        a[at] != b[at],
        forall|i: int| 0 <= i < a.len() && i != at ==> a[i] == b[i],
    ensures
        crc64_spec(a) != crc64_spec(b),
    decreases a.len(),
{
    if at == a.len() - 1 {
        assert(a.drop_last() =~= b.drop_last());
        if crc64_spec(a) == crc64_spec(b) {
            lemma_crc64_byte_injective(
                crc64_spec(a.drop_last()),
                a.last(),
                crc64_spec(b.drop_last()),
                b.last(),
            );
        }
    } else {
        lemma_crc64_detects_byte_change(a.drop_last(), b.drop_last(), at);
        assert(a.last() == b.last());
        if crc64_spec(a) == crc64_spec(b) {
            lemma_crc64_byte_injective(
                crc64_spec(a.drop_last()),
                a.last(),
                crc64_spec(b.drop_last()),
                b.last(),
            );
        }
    }
}

/// A number read from bytes depends on those bytes only.
pub proof fn lemma_le_value_same(a: Seq<u8>, b: Seq<u8>, at: int, width: nat)
    requires
        forall|k: int| at <= k < at + width ==> a[k] == b[k],
    ensures
        le_value(a, at, width) == le_value(b, at, width),
    decreases width,
{
    if width > 0 {
        lemma_le_value_same(a, b, at + 1, (width - 1) as nat);
    }
}

/// Whether `changed` is `bytes` with the one byte at `at` replaced by
/// another.
pub open spec fn differs_at(bytes: Seq<u8>, changed: Seq<u8>, at: int) -> bool {
    &&& changed.len() == bytes.len()
    &&& 0 <= at < bytes.len()
    &&& changed[at] != bytes[at]
    &&& forall|i: int| 0 <= i < bytes.len() && i != at ==> changed[i] == bytes[i]
}

/// Whether the header in `bytes` passes every check that comes before the
/// comparison of the checksum.
pub open spec fn passes_before_checksum(bytes: Seq<u8>) -> bool {
    let header = header_of(bytes);
    &&& parse_header_outcome(bytes) is Ok
    &&& header.file_bytes == bytes.len()
    &&& header.n_blocks == 0
    &&& header.blocks_offset == 0
    &&& header.data_crc64 == 0
    &&& header.header_crc64 != 0
}

/// In a container that reads, a change of any single header byte outside
/// the checksum field makes the read fail, for the stored checksum is no
/// longer the checksum of the header. Where the changed header still passes
/// the checks that come first, the failure is the checksum mismatch.
pub proof fn lemma_header_byte_change_fails_read(bytes: Seq<u8>, changed: Seq<u8>, at: int)
    requires
        container_outcome(bytes) is Ok,
        differs_at(bytes, changed, at),
        0 <= at < HEADER_BYTES,
        !(HEADER_CRC_OFFSET <= at < HEADER_CRC_OFFSET + 8),
    ensures
        crc64_spec(checksum_input(changed)) != header_of(changed).header_crc64,
        container_outcome(changed) is Err,
        passes_before_checksum(changed) ==> container_outcome(changed) == Err::<
            OrganelleBinView,
            InputErrorView,
        >(InputErrorView::InvalidInput("header_crc64 mismatch"@)),
{
    let before = checksum_input(bytes);
    let after = checksum_input(changed);
    assert(after[at] != before[at]);
    assert forall|i: int| 0 <= i < before.len() && i != at implies before[i] == after[i] by {}
    lemma_crc64_detects_byte_change(before, after, at);
    lemma_le_value_same(bytes, changed, 120, 8);
}

} // verus!
