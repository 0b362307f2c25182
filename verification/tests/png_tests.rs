use pngme::chunk::{Chunk, ChunkError};
use pngme::chunk_type::{ChunkType, ChunkTypeError};
use pngme::png::{Png, PngError, STANDARD_HEADER};

fn chunk(chunk_type: &str, data: &str) -> Chunk {
    Chunk::from_strings(chunk_type, data).unwrap()
}

fn testing_chunks() -> Vec<Chunk> {
    vec![
        chunk("FrSt", "I am the first chunk"),
        chunk("miDl", "I am another chunk"),
        chunk("LASt", "I am the last chunk"),
    ]
}

fn testing_bytes() -> Vec<u8> {
    let mut bytes = STANDARD_HEADER.to_vec();
    for chunk in testing_chunks() {
        bytes.extend_from_slice(&chunk.as_bytes());
    }
    bytes
}

fn types_of(png: &Png) -> Vec<String> {
    png.chunks()
        .iter()
        .map(|chunk| chunk.chunk_type().to_string())
        .collect()
}

#[test]
fn signature_is_the_png_magic() {
    assert_eq!(STANDARD_HEADER, [0x89, b'P', b'N', b'G', 0x0d, 0x0a, 0x1a, 0x0a]);
}

#[test]
fn from_chunks_keeps_the_order() {
    let png = Png::from_chunks(testing_chunks());
    assert_eq!(png.chunks().len(), 3);
    assert_eq!(types_of(&png), vec!["FrSt", "miDl", "LASt"]);
}

#[test]
fn parse_reads_every_chunk_in_order() {
    let png = Png::try_from(&testing_bytes()[..]).unwrap();
    assert_eq!(types_of(&png), vec!["FrSt", "miDl", "LASt"]);
    assert_eq!(
        png.chunks()[1].data_as_string().unwrap(),
        "I am another chunk"
    );
}

#[test]
fn parse_of_the_signature_alone_is_an_empty_document() {
    let png = Png::try_from(&STANDARD_HEADER[..]).unwrap();
    assert_eq!(png.chunks().len(), 0);
    assert_eq!(png.as_bytes(), STANDARD_HEADER.to_vec());
}

#[test]
fn parse_rejects_a_wrong_signature() {
    let mut bytes = testing_bytes();
    bytes[0] = 13;
    assert_eq!(
        Png::try_from(&bytes[..]).err(),
        Some(PngError::SignatureMismatch)
    );
    let mut bytes = testing_bytes();
    bytes[7] = 0;
    assert_eq!(
        Png::try_from(&bytes[..]).err(),
        Some(PngError::SignatureMismatch)
    );
    assert_eq!(Png::try_from(&[]).err(), Some(PngError::SignatureMismatch));
    assert_eq!(
        Png::try_from(&STANDARD_HEADER[..7]).err(),
        Some(PngError::SignatureMismatch)
    );
}

#[test]
fn parse_rejects_a_stream_that_ends_inside_a_chunk() {
    let bytes = testing_bytes();
    for cut in [1, 3, 11, 12, 20] {
        assert_eq!(
            Png::try_from(&bytes[..bytes.len() - cut]).err(),
            Some(PngError::TruncatedStream)
        );
    }
    let mut bytes = testing_bytes();
    bytes.extend_from_slice(&[0, 0, 0]);
    assert_eq!(
        Png::try_from(&bytes[..]).err(),
        Some(PngError::TruncatedStream)
    );
}

#[test]
fn parse_surfaces_the_error_of_a_chunk() {
    let mut bytes = testing_bytes();
    let last = bytes.len() - 1;
    bytes[last] ^= 1;
    let expected = chunk("LASt", "I am the last chunk").crc();
    assert_eq!(
        Png::try_from(&bytes[..]).err(),
        Some(PngError::InvalidChunk {
            source: ChunkError::InvalidCRCValue(expected ^ 1, expected)
        })
    );

    let mut bytes = testing_bytes();
    bytes[8 + 4] = b'1';
    assert_eq!(
        Png::try_from(&bytes[..]).err(),
        Some(PngError::InvalidChunk {
            source: ChunkError::InvalidChunk {
                source: ChunkTypeError::InvalidCharacter(0, b'1')
            }
        })
    );
}

#[test]
fn serialize_inverts_parse() {
    let bytes = testing_bytes();
    let png = Png::try_from(&bytes[..]).unwrap();
    assert_eq!(png.as_bytes(), bytes);
}

#[test]
fn parse_inverts_serialize() {
    let png = Png::from_chunks(testing_chunks());
    let bytes = png.as_bytes();
    assert_eq!(&bytes[..8], &STANDARD_HEADER);
    let back = Png::try_from(&bytes[..]).unwrap();
    assert_eq!(back.chunks().len(), 3);
    for (a, b) in png.chunks().iter().zip(back.chunks().iter()) {
        assert_eq!(a.as_bytes(), b.as_bytes());
    }
    assert_eq!(back.as_bytes(), bytes);
}

#[test]
fn lookup_after_mutation() {
    let mut png = Png::from_chunks(testing_chunks());
    assert!(png.chunk_by_type("teSt").is_none());

    png.append_chunk(chunk("teSt", "hello"));
    assert_eq!(png.chunks().len(), 4);
    assert_eq!(
        png.chunk_by_type("teSt").unwrap().data_as_string().unwrap(),
        "hello"
    );

    png.append_chunk(chunk("teSt", "world"));
    assert_eq!(png.chunks().len(), 5);
    assert_eq!(
        png.chunk_by_type("teSt").unwrap().data_as_string().unwrap(),
        "hello"
    );

    let removed = png.remove_chunk("teSt").unwrap();
    assert_eq!(removed.data_as_string().unwrap(), "hello");
    assert_eq!(png.chunks().len(), 4);
    assert_eq!(
        png.chunk_by_type("teSt").unwrap().data_as_string().unwrap(),
        "world"
    );
    assert_eq!(types_of(&png), vec!["FrSt", "miDl", "LASt", "teSt"]);
}

#[test]
fn remove_keeps_the_order_of_the_others() {
    let mut png = Png::from_chunks(vec![
        chunk("aaaa", "1"),
        chunk("teSt", "2"),
        chunk("bbbb", "3"),
        chunk("teSt", "4"),
        chunk("cccc", "5"),
    ]);
    let removed = png.remove_chunk("teSt").unwrap();
    assert_eq!(removed.data(), b"2");
    assert_eq!(types_of(&png), vec!["aaaa", "bbbb", "teSt", "cccc"]);
    let data: Vec<String> = png
        .chunks()
        .iter()
        .map(|chunk| chunk.data_as_string().unwrap())
        .collect();
    assert_eq!(data, vec!["1", "3", "4", "5"]);
}

#[test]
fn remove_of_an_absent_type_reports_not_found() {
    let mut png = Png::from_chunks(testing_chunks());
    let before = png.as_bytes();
    assert_eq!(png.remove_chunk("teSt").err(), Some(PngError::NotFound));
    assert_eq!(png.remove_chunk("frst").err(), Some(PngError::NotFound));
    assert_eq!(png.remove_chunk("").err(), Some(PngError::NotFound));
    assert_eq!(png.as_bytes(), before);

    let mut empty = Png::from_chunks(Vec::new());
    assert_eq!(empty.remove_chunk("teSt").err(), Some(PngError::NotFound));
}

#[test]
fn lookup_compares_the_whole_text_with_case() {
    let png = Png::from_chunks(testing_chunks());
    assert_eq!(
        png.chunk_by_type("miDl").unwrap().chunk_type(),
        &ChunkType::from_str("miDl").unwrap()
    );
    assert!(png.chunk_by_type("midl").is_none());
    assert!(png.chunk_by_type("miD").is_none());
    assert!(png.chunk_by_type("miDl ").is_none());
    assert!(png.chunk_by_type("not a type").is_none());
}

#[test]
fn chunks_shows_the_live_list() {
    let mut png = Png::from_chunks(Vec::new());
    assert!(png.chunks().is_empty());
    png.append_chunk(chunk("teSt", "hello"));
    assert_eq!(png.chunks().len(), 1);
    png.append_chunk(chunk("teSt", "hello"));
    assert_eq!(png.chunks().len(), 2);
    png.remove_chunk("teSt").unwrap();
    assert_eq!(png.chunks().len(), 1);
}

#[test]
fn text_chunks_lists_the_chunks_that_hold_text() {
    let code = ChunkType::from_str("teSt").unwrap();
    let png = Png::from_chunks(vec![
        chunk("IHDR", "header"),
        Chunk::new(code, vec![0xff, 0xfe]),
        chunk("teSt", ""),
        chunk("teSt", "h\u{e9}llo"),
        Chunk::new(code, vec![b'o', b'k', 0x80]),
        chunk("IEND", "x"),
    ]);
    assert_eq!(
        png.text_chunks(),
        vec![
            (0, String::from("header")),
            (3, String::from("h\u{e9}llo")),
            (5, String::from("x")),
        ]
    );
    assert!(Png::from_chunks(Vec::new()).text_chunks().is_empty());
}
