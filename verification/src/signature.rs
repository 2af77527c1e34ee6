//! Reference headers: the sixteen bytes that a plain asset of each kind begins
//! with, and the key that follows from them.
//!
//! A PNG always begins with the same bytes. An Ogg stream and an M4A file do
//! not: two bytes of the stream's serial number, and the size of the first box,
//! differ from file to file, and they are recovered from parts of the
//! encrypted asset that the transform left as they were.

use vstd::prelude::*;
use crate::transform::{has_marker, lemma_xor_header_opens, starts_with_marker, xor_header};
use crate::{Error, FileType, HEADER_LENGTH};

verus! {

/// The first sixteen bytes of every PNG: its signature, then the length and
/// the type of the `IHDR` chunk.
pub const PNG_HEADER: [u8; 16] = [
    0x89, 0x50, 0x4e, 0x47, 0x0d, 0x0a, 0x1a, 0x0a, 0x00, 0x00, 0x00, 0x0d, 0x49, 0x48, 0x44, 0x52,
];

/// The first sixteen bytes of an Ogg stream, but for its last two, which
/// belong to the serial number of the stream: `OggS`, version 0, the flag of
/// a first page, and a granule position of zero.
pub const OGG_HEADER: [u8; 16] = [79, 103, 103, 83, 0, 2, 0, 0, 0, 0, 0, 0, 0, 0, 0, 0];

/// The first sixteen bytes of an M4A file with a first box of 28 bytes: the
/// size of that box, `ftyp`, the brand `M4A ` and its minor version.
pub const M4A_HEADER: [u8; 16] = [0, 0, 0, 28, 102, 116, 121, 112, 77, 52, 65, 32, 0, 0, 2, 0];

/// Length of the fixed part of an Ogg page header.
pub const OGG_PAGE_HEADER_SIZE: usize = 27;

/// Length that is read for the segment table of an Ogg page, whatever the
/// number of its entries.
pub const OGG_SEGMENT_TABLE_SIZE: usize = 255;

/// The greatest length of an Ogg page: its header, 255 table entries and a
/// payload of 255 bytes for each.
pub const OGG_MAX_PAGE_LENGTH: usize = 65307;

/// Where the serial number of the stream stands in an Ogg page header.
pub const OGG_SERIALNO_POS: usize = 14;

/// Where the number of segments stands in an Ogg page header.
pub const OGG_SEGMENT_COUNT_POS: usize = 26;

/// Length of the part of an M4A payload that is searched for a box type.
pub const M4A_SCAN_LENGTH: usize = 64;

/// Length of a box type, and of the size in front of it.
pub const M4A_CHUNK_SIZE: usize = 4;

/// The sum of the entries of a segment table.
pub open spec fn segment_sum(table: Seq<u8>) -> int
    decreases table.len(),
{
    if table.len() == 0 {
        0
    } else {
        segment_sum(table.drop_last()) + table.last() as int
    }
}

/// The little-endian number in the four bytes at `at`.
pub open spec fn le_u32_at(data: Seq<u8>, at: int) -> u32
    recommends
        0 <= at && at + 4 <= data.len(),
{
    (data[at] as int + 0x100 * data[at + 1] as int + 0x1_0000 * data[at + 2] as int + 0x100_0000
        * data[at + 3] as int) as u32
}

/// The four bytes of `x`, most significant first.
pub open spec fn be_u32(x: u32) -> Seq<u8> {
    seq![
        (x as int / 0x100_0000) as u8,
        (x as int / 0x1_0000 % 0x100) as u8,
        (x as int / 0x100 % 0x100) as u8,
        (x as int % 0x100) as u8,
    ]
}

/// The page that begins at `start` can be read: `file` holds its header and,
/// behind it, a segment table of full length.
pub open spec fn ogg_page_in_reach(file: Seq<u8>, start: int) -> bool {
    0 <= start && start + OGG_PAGE_HEADER_SIZE + OGG_SEGMENT_TABLE_SIZE <= file.len()
}

/// The number of segments of the page that begins at `start`.
pub open spec fn ogg_segment_count(file: Seq<u8>, start: int) -> int {
    file[start + OGG_SEGMENT_COUNT_POS] as int
}

/// The length of the page that begins at `start`: its header, its segment
/// table, and the payload, which is as long as the entries of the table say.
pub open spec fn ogg_page_len(file: Seq<u8>, start: int) -> int {
    let count = ogg_segment_count(file, start);
    let table = file.subrange(
        start + OGG_PAGE_HEADER_SIZE,
        start + OGG_PAGE_HEADER_SIZE + count,
    );
    OGG_PAGE_HEADER_SIZE + count + segment_sum(table)
}

/// The serial number of the stream, as the page that begins at `start` gives it.
pub open spec fn ogg_serialno(file: Seq<u8>, start: int) -> u32 {
    le_u32_at(file, start + OGG_SERIALNO_POS)
}

/// Where the second page of the stream in `file` begins. The first begins
/// right behind the marker.
pub open spec fn ogg_second_page(file: Seq<u8>) -> int {
    HEADER_LENGTH + ogg_page_len(file, HEADER_LENGTH as int)
}

/// The first sixteen bytes of an Ogg stream with serial number `serialno`: of
/// the number's four bytes the header holds the two low ones, low byte first.
pub open spec fn ogg_header_with(serialno: u32) -> Seq<u8> {
    OGG_HEADER@.update(14, (serialno as int % 0x100) as u8).update(
        15,
        (serialno as int / 0x100 % 0x100) as u8,
    )
}

/// The reference header of the Ogg asset in `file`, with the serial number
/// that its second page gives; `None` where the first two pages cannot be read.
pub open spec fn ogg_reference(file: Seq<u8>) -> Option<Seq<u8>> {
    if !ogg_page_in_reach(file, HEADER_LENGTH as int) {
        None
    } else if !ogg_page_in_reach(file, ogg_second_page(file)) {
        None
    } else {
        Some(ogg_header_with(ogg_serialno(file, ogg_second_page(file))))
    }
}

/// `chunk` is one of the box types that follow the first box of an M4A file:
/// `moov`, `mdat`, `free`, `skip`, `wide` or `pnot`.
pub open spec fn is_box_type(chunk: Seq<u8>) -> bool {
    ||| chunk == seq![0x6du8, 0x6f, 0x6f, 0x76]
    ||| chunk == seq![0x6du8, 0x64, 0x61, 0x74]
    ||| chunk == seq![0x66u8, 0x72, 0x65, 0x65]
    ||| chunk == seq![0x73u8, 0x6b, 0x69, 0x70]
    ||| chunk == seq![0x77u8, 0x69, 0x64, 0x65]
    ||| chunk == seq![0x70u8, 0x6e, 0x6f, 0x74]
}

/// The chunk of four bytes with index `i`.
pub open spec fn chunk_at(window: Seq<u8>, i: int) -> Seq<u8> {
    window.subrange(M4A_CHUNK_SIZE * i, M4A_CHUNK_SIZE * i + M4A_CHUNK_SIZE)
}

/// The index of the first chunk that is a box type, among those from `from`
/// up to `n`, if there is one.
pub open spec fn first_box_type(window: Seq<u8>, from: int, n: int) -> Option<int>
    decreases n - from,
{
    if from >= n {
        None
    } else if is_box_type(chunk_at(window, from)) {
        Some(from)
    } else {
        first_box_type(window, from + 1, n)
    }
}

/// The first sixteen bytes of an M4A file, given the index of the chunk that
/// holds the type of its second box. The chunk in front of that one is the
/// size field of the second box, so where it stands is the size of the first.
/// Without an index the header is left as it is.
pub open spec fn m4a_header_with(box_type: Option<int>) -> Seq<u8> {
    match box_type {
        Some(i) => be_u32((M4A_CHUNK_SIZE * (i - 1)) as u32) + M4A_HEADER@.skip(
            M4A_CHUNK_SIZE as int,
        ),
        None => M4A_HEADER@,
    }
}

/// The reference header of an M4A asset whose payload begins with `window`.
/// Where several chunks are box types the first decides. The chunk with index
/// zero has none in front of it and is not looked at.
pub open spec fn m4a_reference(window: Seq<u8>) -> Seq<u8> {
    m4a_header_with(first_box_type(window, 1, (M4A_SCAN_LENGTH / M4A_CHUNK_SIZE) as int))
}

/// The reference header of the encrypted asset `file` of kind `file_type`;
/// `None` where `file` is too short to tell.
pub open spec fn reference_header(file: Seq<u8>, file_type: FileType) -> Option<Seq<u8>> {
    match file_type {
        FileType::PNG => Some(PNG_HEADER@),
        FileType::OGG => ogg_reference(file),
        FileType::M4A => if file.len() < HEADER_LENGTH + M4A_SCAN_LENGTH {
            None
        } else {
            Some(
                m4a_reference(
                    file.subrange(HEADER_LENGTH as int, HEADER_LENGTH + M4A_SCAN_LENGTH),
                ),
            )
        },
    }
}

/// The encrypted header of `file`: the sixteen bytes behind the marker.
pub open spec fn encrypted_header(file: Seq<u8>) -> Seq<u8>
    recommends
        file.len() >= 2 * HEADER_LENGTH,
{
    file.subrange(HEADER_LENGTH as int, 2 * HEADER_LENGTH)
}

/// The key that encrypted `file`, an asset of kind `file_type`: the encrypted
/// header XOR-ed against the reference header, byte for byte.
pub open spec fn derived_key(file: Seq<u8>, file_type: FileType) -> Result<Seq<u8>, Error> {
    if !has_marker(file) {
        Err(Error::InvalidHeader)
    } else if file.len() < 2 * HEADER_LENGTH {
        Err(Error::UnexpectedEOF)
    } else {
        match reference_header(file, file_type) {
            Some(reference) => Ok(xor_header(reference, encrypted_header(file))),
            None => Err(Error::UnexpectedEOF),
        }
    }
}

/// What `first_box_type` finds: the least index from `from` up to `n` of a
/// chunk that is a box type; and nothing only where there is no such chunk.
pub proof fn lemma_first_box_type(window: Seq<u8>, from: int, n: int)
    ensures
        match first_box_type(window, from, n) {
            Some(i) => {
                &&& from <= i < n
                &&& is_box_type(chunk_at(window, i))
                &&& forall|j: int| from <= j < i ==> !is_box_type(#[trigger] chunk_at(window, j))
            },
            None => forall|j: int| from <= j < n ==> !is_box_type(#[trigger] chunk_at(window, j)),
        },
    decreases n - from,
{
    if from < n && !is_box_type(chunk_at(window, from)) {
        lemma_first_box_type(window, from + 1, n);
    }
}

/// The reference header of an Ogg asset is the fixed header with two bytes
/// taken over as they stand in the second page: the first two of its serial
/// number.
pub proof fn lemma_ogg_reference_bytes(file: Seq<u8>)
    requires
        ogg_reference(file) is Some,
    ensures
        ogg_reference(file)->0.len() == HEADER_LENGTH,
        forall|i: int| 0 <= i < 14 ==> ogg_reference(file)->0[i] == OGG_HEADER@[i],
        ogg_reference(file)->0[14] == file[ogg_second_page(file) + OGG_SERIALNO_POS],
        ogg_reference(file)->0[15] == file[ogg_second_page(file) + OGG_SERIALNO_POS + 1],
{
    let at = ogg_second_page(file) + OGG_SERIALNO_POS;
    let b0 = file[at] as int;
    let b1 = file[at + 1] as int;
    let b2 = file[at + 2] as int;
    let b3 = file[at + 3] as int;
    let n = b0 + 0x100 * b1 + 0x1_0000 * b2 + 0x100_0000 * b3;
    assert(n % 0x100 == b0 && n / 0x100 % 0x100 == b1) by (nonlinear_arith)
        requires
            n == b0 + 0x100 * b1 + 0x1_0000 * b2 + 0x100_0000 * b3,
            0 <= b0 < 0x100,
            0 <= b1 < 0x100,
            0 <= b2 < 0x100,
            0 <= b3 < 0x100,
    ;
}

/// Every reference header is sixteen bytes long.
pub proof fn lemma_reference_header_len(file: Seq<u8>, file_type: FileType)
    requires
        reference_header(file, file_type) is Some,
    ensures
        reference_header(file, file_type)->0.len() == HEADER_LENGTH,
{
    if file_type == FileType::M4A {
        let window = file.subrange(HEADER_LENGTH as int, HEADER_LENGTH + M4A_SCAN_LENGTH);
        lemma_first_box_type(window, 1, (M4A_SCAN_LENGTH / M4A_CHUNK_SIZE) as int);
    }
}

/// The key that was derived from an asset opens it: XOR-ed against that key,
/// the encrypted header becomes the reference header of the asset.
pub proof fn lemma_derived_key_opens_header(file: Seq<u8>, file_type: FileType)
    requires
        derived_key(file, file_type) is Ok,
    ensures
        xor_header(derived_key(file, file_type)->Ok_0, encrypted_header(file)) == reference_header(
            file,
            file_type,
        )->0,
{
    lemma_reference_header_len(file, file_type);
    lemma_xor_header_opens(reference_header(file, file_type)->0, encrypted_header(file));
}

/// The sum of a table grows by the entry that is added behind it.
proof fn lemma_segment_sum_push(file: Seq<u8>, from: int, n: int)
    requires
        0 <= from,
        0 <= n,
        from + n < file.len(),
    ensures
        segment_sum(file.subrange(from, from + n + 1)) == segment_sum(file.subrange(from, from + n))
            + file[from + n] as int,
{
    let longer = file.subrange(from, from + n + 1);
    assert(longer.drop_last() =~= file.subrange(from, from + n));
}

/// Reads the page of an Ogg stream that begins at `start`: the serial number
/// of the stream and the length of the page, behind which the next one begins.
/// `None` where `file` ends before the header and a segment table of full
/// length were read.
pub fn read_ogg_page_serialno(file: &[u8], start: usize) -> (r: Option<(u32, usize)>)
    ensures
        r == (if ogg_page_in_reach(file@, start as int) {
            Some((ogg_serialno(file@, start as int), ogg_page_len(file@, start as int) as usize))
        } else {
            None
        }),
        ogg_page_in_reach(file@, start as int) ==> OGG_PAGE_HEADER_SIZE <= ogg_page_len(
            file@,
            start as int,
        ) <= OGG_MAX_PAGE_LENGTH,
{
    if start > file.len() || file.len() - start < OGG_PAGE_HEADER_SIZE + OGG_SEGMENT_TABLE_SIZE {
        return None;
    }
    let segment_count: usize = file[start + OGG_SEGMENT_COUNT_POS] as usize;
    let table: usize = start + OGG_PAGE_HEADER_SIZE;
    let mut body_length: usize = 0;
    let mut i: usize = 0;
    while i < segment_count
        invariant
            i <= segment_count <= 255,
            table + OGG_SEGMENT_TABLE_SIZE <= file@.len() <= usize::MAX,
            body_length == segment_sum(file@.subrange(table as int, table + i)),
            body_length <= 255 * i,
        decreases segment_count - i,
    {
        proof {
            lemma_segment_sum_push(file@, table as int, i as int);
        }
        body_length += file[table + i] as usize;
        i += 1;
    }
    let b0: u32 = file[start + OGG_SERIALNO_POS] as u32;
    let b1: u32 = file[start + OGG_SERIALNO_POS + 1] as u32;
    let b2: u32 = file[start + OGG_SERIALNO_POS + 2] as u32;
    let b3: u32 = file[start + OGG_SERIALNO_POS + 3] as u32;
    let serialno: u32 = b0 | (b1 << 8) | (b2 << 16) | (b3 << 24);
    assert(serialno == b0 + 0x100 * b1 + 0x1_0000 * b2 + 0x100_0000 * b3) by (bit_vector)
        requires
            b0 < 0x100,
            b1 < 0x100,
            b2 < 0x100,
            b3 < 0x100,
            serialno == b0 | (b1 << 8) | (b2 << 16) | (b3 << 24),
    ;
    Some((serialno, OGG_PAGE_HEADER_SIZE + segment_count + body_length))
}

/// Builds the reference header of the Ogg asset in `file`. The first page is
/// read to find the second, and the second for the serial number.
pub fn ogg_header(file: &[u8]) -> (r: Option<[u8; 16]>)
    ensures
        r is Some <==> ogg_reference(file@) is Some,
        r is Some ==> r->0@ == ogg_reference(file@)->0,
{
    let first_len = match read_ogg_page_serialno(file, HEADER_LENGTH) {
        Some((_, len)) => len,
        None => {
            return None;
        },
    };
    let serialno = match read_ogg_page_serialno(file, HEADER_LENGTH + first_len) {
        Some((serialno, _)) => serialno,
        None => {
            return None;
        },
    };
    let low_bits: u32 = serialno & 0xff;
    let high_bits: u32 = (serialno >> 8) & 0xff;
    assert(low_bits == serialno % 0x100 && high_bits == serialno / 0x100 % 0x100) by (bit_vector)
        requires
            low_bits == serialno & 0xff,
            high_bits == (serialno >> 8) & 0xff,
    ;
    let low: u8 = low_bits as u8;
    let high: u8 = high_bits as u8;
    let mut header: [u8; 16] = OGG_HEADER;
    header[14] = low;
    header[15] = high;
    Some(header)
}

/// Whether the four bytes at `at` are a box type.
fn is_box_type_at(file: &[u8], at: usize) -> (b: bool)
    requires
        at + M4A_CHUNK_SIZE <= file@.len(),
    ensures
        b == is_box_type(file@.subrange(at as int, at + M4A_CHUNK_SIZE)),
{
    let c0 = file[at];
    let c1 = file[at + 1];
    let c2 = file[at + 2];
    let c3 = file[at + 3];
    assert(file@.subrange(at as int, at + M4A_CHUNK_SIZE) =~= seq![c0, c1, c2, c3]);
    let moov = c0 == 0x6d && c1 == 0x6f && c2 == 0x6f && c3 == 0x76;
    let mdat = c0 == 0x6d && c1 == 0x64 && c2 == 0x61 && c3 == 0x74;
    let free = c0 == 0x66 && c1 == 0x72 && c2 == 0x65 && c3 == 0x65;
    let skip = c0 == 0x73 && c1 == 0x6b && c2 == 0x69 && c3 == 0x70;
    let wide = c0 == 0x77 && c1 == 0x69 && c2 == 0x64 && c3 == 0x65;
    let pnot = c0 == 0x70 && c1 == 0x6e && c2 == 0x6f && c3 == 0x74;
    moov || mdat || free || skip || wide || pnot
}

/// The four bytes of `size`, most significant first.
fn be_bytes(size: u32) -> (r: [u8; 4])
    ensures
        r@ == be_u32(size),
{
    let s0: u32 = size >> 24;
    let s1: u32 = (size >> 16) & 0xff;
    let s2: u32 = (size >> 8) & 0xff;
    let s3: u32 = size & 0xff;
    assert(s0 == size / 0x100_0000 && s1 == size / 0x1_0000 % 0x100 && s2 == size / 0x100 % 0x100
        && s3 == size % 0x100) by (bit_vector)
        requires
            s0 == size >> 24,
            s1 == (size >> 16) & 0xff,
            s2 == (size >> 8) & 0xff,
            s3 == size & 0xff,
    ;
    [s0 as u8, s1 as u8, s2 as u8, s3 as u8]
}

/// Builds the reference header of the M4A asset in `file`, whose payload must
/// hold the 64 bytes that are searched. The search ends at the first box type.
pub fn m4a_header(file: &[u8]) -> (r: [u8; 16])
    requires
        file@.len() >= HEADER_LENGTH + M4A_SCAN_LENGTH,
    ensures
        r@ == m4a_reference(file@.subrange(HEADER_LENGTH as int, HEADER_LENGTH + M4A_SCAN_LENGTH)),
{
    let ghost window = file@.subrange(HEADER_LENGTH as int, HEADER_LENGTH + M4A_SCAN_LENGTH);
    let ghost chunks = (M4A_SCAN_LENGTH / M4A_CHUNK_SIZE) as int;
    let mut header: [u8; 16] = M4A_HEADER;
    let mut i: usize = 1;
    while i < M4A_SCAN_LENGTH / M4A_CHUNK_SIZE
        invariant
            1 <= i <= chunks,
            chunks == M4A_SCAN_LENGTH / M4A_CHUNK_SIZE,
            file@.len() >= HEADER_LENGTH + M4A_SCAN_LENGTH,
            window == file@.subrange(HEADER_LENGTH as int, HEADER_LENGTH + M4A_SCAN_LENGTH),
            header@ == M4A_HEADER@,
            first_box_type(window, 1, chunks) == first_box_type(window, i as int, chunks),
        decreases M4A_SCAN_LENGTH / M4A_CHUNK_SIZE - i,
    {
        let at: usize = HEADER_LENGTH + i * M4A_CHUNK_SIZE;
        assert(chunk_at(window, i as int) =~= file@.subrange(at as int, at + M4A_CHUNK_SIZE));
        if is_box_type_at(file, at) {
            let size = be_bytes(((i - 1) * M4A_CHUNK_SIZE) as u32);
            header[0] = size[0];
            header[1] = size[1];
            header[2] = size[2];
            header[3] = size[3];
            return header;
        }
        i += 1;
    }
    header
}

/// Builds the reference header of the encrypted asset `file` of kind
/// `file_type`.
pub fn build_reference_header(file: &[u8], file_type: FileType) -> (r: Option<[u8; 16]>)
    ensures
        r is Some <==> reference_header(file@, file_type) is Some,
        r is Some ==> r->0@ == reference_header(file@, file_type)->0,
{
    match file_type {
        FileType::PNG => Some(PNG_HEADER),
        FileType::OGG => ogg_header(file),
        FileType::M4A => {
            if file.len() < HEADER_LENGTH + M4A_SCAN_LENGTH {
                None
            } else {
                Some(m4a_header(file))
            }
        },
    }
}

/// The key that turns the encrypted header of `file` into `reference`: the
/// two XOR-ed, byte for byte. `file` must hold the marker and a whole
/// encrypted header.
pub fn key_from_reference(reference: &[u8; 16], file: &[u8]) -> (key: [u8; 16])
    requires
        file@.len() >= 2 * HEADER_LENGTH,
    ensures
        key@ == xor_header(reference@, encrypted_header(file@)),
{
    let mut key: [u8; 16] = [0u8; 16];
    let mut i: usize = 0;
    while i < HEADER_LENGTH
        invariant
            i <= HEADER_LENGTH,
            file@.len() >= 2 * HEADER_LENGTH,
            forall|j: int| 0 <= j < i ==> key@[j] == file@[HEADER_LENGTH + j] ^ reference@[j],
        decreases HEADER_LENGTH - i,
    {
        key[i] = reference[i] ^ file[HEADER_LENGTH + i];
        proof {
            let a = reference@[i as int];
            let b = file@[HEADER_LENGTH + i];
            assert(a ^ b == b ^ a) by (bit_vector);
        }
        i += 1;
    }
    key
}

/// Recovers the key that encrypted `file`, an asset of kind `file_type`.
pub fn derive_key(file: &[u8], file_type: FileType) -> (r: Result<[u8; 16], Error>)
    ensures
        match derived_key(file@, file_type) {
            Ok(key) => r is Ok && r->Ok_0@ == key,
            Err(e) => r is Err && r->Err_0 == e,
        },
{
    if !starts_with_marker(file) {
        return Err(Error::InvalidHeader);
    }
    if file.len() < 2 * HEADER_LENGTH {
        return Err(Error::UnexpectedEOF);
    }
    match build_reference_header(file, file_type) {
        Some(reference) => Ok(key_from_reference(&reference, file)),
        None => Err(Error::UnexpectedEOF),
    }
}

} // verus!
