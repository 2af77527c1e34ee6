use rpgm_asset_decrypter_lib::signature::{
    build_reference_header, derive_key, m4a_header, ogg_header, read_ogg_page_serialno,
    M4A_HEADER, OGG_HEADER, OGG_MAX_PAGE_LENGTH, PNG_HEADER,
};
use rpgm_asset_decrypter_lib::{Decrypter, Error, FileType, RPGM_HEADER};

const DEFAULT_KEY_BYTES: [u8; 16] = [
    0xd4, 0x1d, 0x8c, 0xd9, 0x8f, 0x00, 0xb2, 0x04, 0xe9, 0x80, 0x09, 0x98, 0xec, 0xf8, 0x42, 0x7e,
];

fn ogg_page(flags: u8, serial: u32, sequence: u32, segments: &[u8]) -> Vec<u8> {
    let mut page = vec![b'O', b'g', b'g', b'S', 0, flags];
    page.extend_from_slice(&[0u8; 8]);
    page.extend_from_slice(&serial.to_le_bytes());
    page.extend_from_slice(&sequence.to_le_bytes());
    page.extend_from_slice(&[0u8; 4]);
    page.push(segments.len() as u8);
    page.extend_from_slice(segments);
    for segment in segments {
        for i in 0..*segment {
            page.push(i);
        }
    }
    page
}

fn seal(plain: &[u8], key: &[u8; 16]) -> Vec<u8> {
    let mut file = RPGM_HEADER.to_vec();
    file.extend_from_slice(plain);
    for i in 0..16 {
        file[16 + i] ^= key[i];
    }
    file
}

// An encrypted Ogg asset whose first page has the given segment table.
fn ogg_asset(serial: u32, first_segments: &[u8]) -> Vec<u8> {
    let mut plain = ogg_page(2, serial, 0, first_segments);
    plain.extend(ogg_page(0, serial, 1, &[255, 255, 0]));
    seal(&plain, &DEFAULT_KEY_BYTES)
}

// An encrypted M4A asset with the given chunks of four bytes behind the marker.
fn m4a_asset(chunks: &[(usize, &[u8; 4])]) -> Vec<u8> {
    let mut file = RPGM_HEADER.to_vec();
    for i in 0..64u8 {
        file.push(0x80 | i);
    }
    for (index, chunk) in chunks {
        file[16 + 4 * index..16 + 4 * index + 4].copy_from_slice(*chunk);
    }
    file
}

fn key_of(reference: &[u8; 16], file: &[u8]) -> [u8; 16] {
    let mut key = [0u8; 16];
    for i in 0..16 {
        key[i] = reference[i] ^ file[16 + i];
    }
    key
}

#[test]
fn reference_constants() {
    assert_eq!(&PNG_HEADER[..8], b"\x89PNG\r\n\x1a\n");
    assert_eq!(&PNG_HEADER[8..], &[0, 0, 0, 13, b'I', b'H', b'D', b'R']);
    assert_eq!(&OGG_HEADER[..6], &[b'O', b'g', b'g', b'S', 0, 2]);
    assert_eq!(&OGG_HEADER[6..], &[0u8; 10]);
    assert_eq!(&M4A_HEADER[..4], &[0, 0, 0, 28]);
    assert_eq!(&M4A_HEADER[4..12], b"ftypM4A ");
    assert_eq!(&M4A_HEADER[12..], &[0, 0, 2, 0]);
    assert_eq!(OGG_MAX_PAGE_LENGTH, 27 + 255 + 255 * 255);
}

#[test]
fn ogg_page_is_read() {
    let mut data = ogg_page(2, 0x1234_5678, 0, &[30]);
    data.resize(400, 0);
    assert_eq!(read_ogg_page_serialno(&data, 0), Some((0x1234_5678, 27 + 1 + 30)));

    let mut data = vec![0xeeu8; 5];
    data.extend(ogg_page(0, 0xfedc_ba98, 7, &[255, 255, 3, 0, 9]));
    data.resize(1000, 0);
    assert_eq!(read_ogg_page_serialno(&data, 5), Some((0xfedc_ba98, 27 + 5 + 522)));

    let mut data = ogg_page(0, 1, 0, &[]);
    data.resize(282, 0xff);
    assert_eq!(read_ogg_page_serialno(&data, 0), Some((1, 27)));
}

#[test]
fn ogg_page_of_greatest_length() {
    let mut data = ogg_page(0, 0xffff_ffff, 0, &[255; 255]);
    assert_eq!(data.len(), OGG_MAX_PAGE_LENGTH);
    assert_eq!(read_ogg_page_serialno(&data, 0), Some((0xffff_ffff, OGG_MAX_PAGE_LENGTH)));
    data.truncate(282);
    assert_eq!(read_ogg_page_serialno(&data, 0), Some((0xffff_ffff, 65307)));
}

#[test]
fn ogg_page_needs_a_whole_table() {
    let mut data = ogg_page(2, 0x1234_5678, 0, &[30]);
    assert_eq!(data.len(), 58);
    assert_eq!(read_ogg_page_serialno(&data, 0), None);
    data.resize(281, 0);
    assert_eq!(read_ogg_page_serialno(&data, 0), None);
    data.push(0);
    assert_eq!(read_ogg_page_serialno(&data, 0), Some((0x1234_5678, 58)));
    assert_eq!(read_ogg_page_serialno(&data, 1), None);
    assert_eq!(read_ogg_page_serialno(&data, 282), None);
    assert_eq!(read_ogg_page_serialno(&data, 283), None);
    assert_eq!(read_ogg_page_serialno(&data, usize::MAX), None);
    assert_eq!(read_ogg_page_serialno(&[], 0), None);
}

#[test]
fn ogg_serial_number_with_one_segment() {
    let file = ogg_asset(0x1234_5678, &[30]);
    let mut expected = OGG_HEADER;
    expected[14] = 0x78;
    expected[15] = 0x56;
    assert_eq!(ogg_header(&file), Some(expected));
    assert_eq!(derive_key(&file, FileType::OGG), Ok(DEFAULT_KEY_BYTES));
    let mut decrypter = Decrypter::new();
    assert_eq!(
        decrypter.set_key_from_file(&file, FileType::OGG),
        Ok("d41d8cd98f00b204e9800998ecf8427e")
    );
}

#[test]
fn ogg_serial_number_with_a_full_table() {
    let file = ogg_asset(0xa1b2_c3d4, &[1; 255]);
    let mut expected = OGG_HEADER;
    expected[14] = 0xd4;
    expected[15] = 0xc3;
    assert_eq!(ogg_header(&file), Some(expected));
    assert_eq!(derive_key(&file, FileType::OGG), Ok(DEFAULT_KEY_BYTES));
    let mut decrypter = Decrypter::new();
    assert_eq!(
        decrypter.set_key_from_file(&file, FileType::OGG),
        Ok("d41d8cd98f00b204e9800998ecf8427e")
    );
}

#[test]
fn ogg_serial_number_comes_from_the_second_page() {
    // The two pages disagree: the second decides.
    let mut plain = ogg_page(2, 0x1111_1111, 0, &[4, 200]);
    plain.extend(ogg_page(0, 0x0000_beef, 1, &[255, 255]));
    let file = seal(&plain, &[0u8; 16]);
    let mut expected = OGG_HEADER;
    expected[14] = 0xef;
    expected[15] = 0xbe;
    assert_eq!(build_reference_header(&file, FileType::OGG), Some(expected));
    let mut key = [0u8; 16];
    key[14] = 0x11 ^ 0xef;
    key[15] = 0x11 ^ 0xbe;
    assert_eq!(derive_key(&file, FileType::OGG), Ok(key));
}

#[test]
fn ogg_asset_that_ends_early() {
    let file = ogg_asset(0x1234_5678, &[30]);
    let second_page = 16 + 58;
    // The second page, and a table of full length behind its header, must be there.
    assert_eq!(derive_key(&file[..second_page + 282], FileType::OGG), Ok(DEFAULT_KEY_BYTES));
    assert_eq!(
        derive_key(&file[..second_page + 281], FileType::OGG),
        Err(Error::UnexpectedEOF)
    );
    assert_eq!(ogg_header(&file[..second_page + 281]), None);
    assert_eq!(derive_key(&file[..16 + 282], FileType::OGG), Err(Error::UnexpectedEOF));
    assert_eq!(derive_key(&file[..16 + 281], FileType::OGG), Err(Error::UnexpectedEOF));
    assert_eq!(derive_key(&file[..32], FileType::OGG), Err(Error::UnexpectedEOF));
    assert_eq!(derive_key(&file[..31], FileType::OGG), Err(Error::UnexpectedEOF));
    let mut decrypter = Decrypter::new();
    assert_eq!(decrypter.decrypt(&file[..100], FileType::OGG), Err(Error::UnexpectedEOF));
    assert_eq!(decrypter.key(), None);
    let mut buffer = file[..100].to_vec();
    assert_eq!(
        decrypter.decrypt_in_place(&mut buffer, FileType::OGG),
        Err(Error::UnexpectedEOF)
    );
    assert_eq!(buffer, &file[..100]);
}

#[test]
fn m4a_box_size_from_a_type_at_chunk_two() {
    let file = m4a_asset(&[(2, b"mdat")]);
    let expected = [0, 0, 0, 4, 102, 116, 121, 112, 77, 52, 65, 32, 0, 0, 2, 0];
    assert_eq!(m4a_header(&file), expected);
    assert_eq!(build_reference_header(&file, FileType::M4A), Some(expected));
    assert_eq!(derive_key(&file, FileType::M4A), Ok(key_of(&expected, &file)));
}

#[test]
fn m4a_box_size_of_a_usual_file() {
    // `ftyp` is 28 bytes long, then comes `moov`.
    for tag in [b"moov", b"mdat", b"free", b"skip", b"wide", b"pnot"] {
        let file = m4a_asset(&[(8, tag)]);
        assert_eq!(m4a_header(&file), M4A_HEADER);
    }
    let file = m4a_asset(&[(9, b"free")]);
    assert_eq!(&m4a_header(&file)[..4], &[0, 0, 0, 32]);
    let file = m4a_asset(&[(15, b"wide")]);
    assert_eq!(&m4a_header(&file)[..4], &[0, 0, 0, 56]);
    let file = m4a_asset(&[(1, b"skip")]);
    assert_eq!(&m4a_header(&file)[..4], &[0, 0, 0, 0]);
    assert_eq!(&m4a_header(&file)[4..], &M4A_HEADER[4..]);
}

#[test]
fn m4a_first_box_type_decides() {
    let file = m4a_asset(&[(2, b"mdat"), (5, b"moov"), (11, b"free")]);
    assert_eq!(&m4a_header(&file)[..4], &[0, 0, 0, 4]);
    assert_eq!(&m4a_header(&file)[4..], &M4A_HEADER[4..]);
    let file = m4a_asset(&[(11, b"free"), (3, b"pnot")]);
    assert_eq!(&m4a_header(&file)[..4], &[0, 0, 0, 8]);
    // `ftyp`, a short `free`, then `mdat`: the size of `ftyp` is where `free` begins.
    let file = m4a_asset(&[(8, b"free"), (10, b"mdat")]);
    assert_eq!(m4a_header(&file), M4A_HEADER);
}

#[test]
fn m4a_key_with_two_box_types() {
    let mut file = vec![0u8; 80];
    file[..16].copy_from_slice(&RPGM_HEADER);
    file[24..28].copy_from_slice(b"mdat");
    file[36..40].copy_from_slice(b"moov");
    let mut decrypter = Decrypter::new();
    let key = decrypter.set_key_from_file(&file, FileType::M4A).unwrap();
    assert_eq!(&key[..8], "00000004");
    assert_eq!(key, "00000004667479702050205400000200");
    let plain = decrypter.decrypt(&file, FileType::M4A).unwrap();
    assert_eq!(&plain[..4], &[0, 0, 0, 4]);
    assert_eq!(&plain[4..12], b"ftypM4A ");
    assert_eq!(&plain[16..], &file[32..]);
}

#[test]
fn m4a_decrypt_gives_the_size_of_the_first_box() {
    for first in 1..16usize {
        for later in first + 1..16usize {
            let file = m4a_asset(&[(first, b"wide"), (later, b"skip")]);
            let mut decrypter = Decrypter::new();
            let plain = decrypter.decrypt(&file, FileType::M4A).unwrap();
            assert_eq!(&plain[..4], &(4 * (first as u32 - 1)).to_be_bytes());
            assert_eq!(&plain[4..12], b"ftypM4A ");
            assert_eq!(&plain[12..16], &[0, 0, 2, 0]);
            assert_eq!(&plain[16..], &file[32..]);
        }
    }
    let file = m4a_asset(&[]);
    let plain = rpgm_asset_decrypter_lib::decrypt(&file, FileType::M4A).unwrap();
    assert_eq!(&plain[..4], &[0, 0, 0, 28]);
    assert_eq!(&plain[4..12], b"ftypM4A ");
}

#[test]
fn m4a_without_a_box_type() {
    let file = m4a_asset(&[]);
    assert_eq!(m4a_header(&file), M4A_HEADER);
    assert_eq!(derive_key(&file, FileType::M4A), Ok(key_of(&M4A_HEADER, &file)));
    // Nearly a box type, and one that is not aligned.
    let file = m4a_asset(&[(4, b"moow"), (6, b"Mdat"), (7, b"xmoo"), (8, b"vxxx")]);
    assert_eq!(m4a_header(&file), M4A_HEADER);
    // One behind the part that is searched.
    let mut file = m4a_asset(&[]);
    file.extend_from_slice(b"moov");
    assert_eq!(m4a_header(&file), M4A_HEADER);
}

#[test]
fn m4a_box_type_in_the_first_chunk_is_passed_over() {
    let file = m4a_asset(&[(0, b"moov")]);
    assert_eq!(m4a_header(&file), M4A_HEADER);
    let file = m4a_asset(&[(0, b"moov"), (3, b"mdat")]);
    assert_eq!(&m4a_header(&file)[..4], &[0, 0, 0, 8]);
}

#[test]
fn m4a_asset_that_ends_early() {
    let file = m4a_asset(&[(8, b"moov")]);
    assert_eq!(file.len(), 80);
    assert!(derive_key(&file, FileType::M4A).is_ok());
    assert_eq!(derive_key(&file[..79], FileType::M4A), Err(Error::UnexpectedEOF));
    assert_eq!(build_reference_header(&file[..79], FileType::M4A), None);
    assert_eq!(derive_key(&file[..32], FileType::M4A), Err(Error::UnexpectedEOF));
    assert_eq!(derive_key(&file[..20], FileType::M4A), Err(Error::UnexpectedEOF));
    let mut decrypter = Decrypter::new();
    assert_eq!(decrypter.decrypt(&file[..79], FileType::M4A), Err(Error::UnexpectedEOF));
    assert_eq!(decrypter.key(), None);
}

#[test]
fn png_reference_is_constant() {
    assert_eq!(build_reference_header(&[], FileType::PNG), Some(PNG_HEADER));
    assert_eq!(build_reference_header(&[1, 2, 3], FileType::PNG), Some(PNG_HEADER));
}

#[test]
fn png_key() {
    let mut file = RPGM_HEADER.to_vec();
    file.extend_from_slice(&[
        0x89, 0x41, 0x6c, 0x74, 0x49, 0x5f, 0x7c, 0x7d, 0x88, 0x99, 0xaa, 0xb6, 0x85, 0x95, 0xaa,
        0xad,
    ]);
    assert_eq!(
        derive_key(&file, FileType::PNG),
        Ok([
            0x00, 0x11, 0x22, 0x33, 0x44, 0x55, 0x66, 0x77, 0x88, 0x99, 0xaa, 0xbb, 0xcc, 0xdd,
            0xee, 0xff
        ])
    );
    let mut decrypter = Decrypter::new();
    assert_eq!(
        decrypter.set_key_from_file(&file, FileType::PNG),
        Ok("00112233445566778899aabbccddeeff")
    );
    assert_eq!(decrypter.key(), Some("00112233445566778899aabbccddeeff"));
}

#[test]
fn derive_key_errors() {
    for file_type in [FileType::PNG, FileType::OGG, FileType::M4A] {
        assert_eq!(derive_key(&[], file_type), Err(Error::InvalidHeader));
        assert_eq!(derive_key(&[0u8; 500], file_type), Err(Error::InvalidHeader));
        assert_eq!(derive_key(&RPGM_HEADER, file_type), Err(Error::UnexpectedEOF));
        let mut file = RPGM_HEADER.to_vec();
        file.extend_from_slice(&[0u8; 15]);
        assert_eq!(derive_key(&file, file_type), Err(Error::UnexpectedEOF));
    }
}

#[test]
fn failed_derivation_keeps_the_key() {
    let mut decrypter = Decrypter::new();
    decrypter.set_key_from_str("150f15e73422e0a5ba5b59f997fc2350").unwrap();
    assert_eq!(
        decrypter.set_key_from_file(&RPGM_HEADER, FileType::PNG),
        Err(Error::UnexpectedEOF)
    );
    assert_eq!(decrypter.set_key_from_file(&[1, 2, 3], FileType::OGG), Err(Error::InvalidHeader));
    assert_eq!(decrypter.key(), Some("150f15e73422e0a5ba5b59f997fc2350"));
}
