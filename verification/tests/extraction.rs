use std::io::{Cursor, Write};

use docufind::doc::{
    extract_doc, extract_text_direct, extract_text_fallback, extract_text_via_clx,
};
use docufind::encodings::decode_text;
use docufind::extract::{extract_content, extract_file_content, extract_text};
use docufind::office::{
    docx_text_from_events, extract_docx, extract_pptx, extract_xlsx, slide_entry_name,
    xlsx_text_from_events,
};
use docufind::xml::{read_events, XmlEvent, XmlTag};

// ---------------------------------------------------------------------------
// Building files in memory
// ---------------------------------------------------------------------------

fn zip_of(parts: &[(&str, &str)]) -> Vec<u8> {
    let mut writer = zip::ZipWriter::new(Cursor::new(Vec::new()));
    for (name, body) in parts {
        writer
            .start_file(*name, zip::write::SimpleFileOptions::default())
            .unwrap();
        writer.write_all(body.as_bytes()).unwrap();
    }
    writer.finish().unwrap().into_inner()
}

fn compound_of(streams: &[(&str, &[u8])]) -> Vec<u8> {
    let mut compound = cfb::CompoundFile::create(Cursor::new(Vec::new())).unwrap();
    for (name, data) in streams {
        let mut stream = compound.create_stream(name).unwrap();
        stream.write_all(data).unwrap();
    }
    compound.flush().unwrap();
    compound.into_inner().into_inner()
}

fn utf16le(text: &str) -> Vec<u8> {
    text.encode_utf16().flat_map(|u| u.to_le_bytes()).collect()
}

fn put_u32(data: &mut [u8], at: usize, value: u32) {
    data[at..at + 4].copy_from_slice(&value.to_le_bytes());
}

fn put_u16(data: &mut [u8], at: usize, value: u16) {
    data[at..at + 2].copy_from_slice(&value.to_le_bytes());
}

/// A `WordDocument` stream: a block of 1472 bytes of zeros, and `body`
/// behind it.
fn word_stream(body: &[u8]) -> Vec<u8> {
    let mut data = vec![0u8; 1472];
    data.extend_from_slice(body);
    data
}

const SENTENCE: &str = "This is the text of a document that is long enough to count as text.";

// ---------------------------------------------------------------------------
// XML events
// ---------------------------------------------------------------------------

fn text_event(text: &str) -> XmlEvent {
    XmlEvent::Text(Some(text.to_string()))
}

fn start(local: &str) -> XmlEvent {
    XmlEvent::Start(XmlTag {
        name: local.as_bytes().to_vec(),
        local_name: local.as_bytes().to_vec(),
        attributes: Vec::new(),
    })
}

fn end(local: &str) -> XmlEvent {
    XmlEvent::End {
        name: local.as_bytes().to_vec(),
        local_name: local.as_bytes().to_vec(),
    }
}

#[test]
fn events_of_a_small_document() {
    let xml = br#"<?xml version="1.0"?><a:doc xmlns:a="urn:x"><a:p k="v" a:n='w'>one &amp; two</a:p><a:e/>  <!-- c --></a:doc>"#;
    let events = read_events(xml);
    assert_eq!(events.len(), 8);
    assert!(matches!(events[0], XmlEvent::Other));
    match &events[1] {
        XmlEvent::Start(tag) => {
            assert_eq!(tag.name, b"a:doc");
            assert_eq!(tag.local_name, b"doc");
            assert_eq!(tag.attributes.len(), 1);
        }
        other => panic!("unexpected {:?}", other),
    }
    match &events[2] {
        XmlEvent::Start(tag) => {
            assert_eq!(tag.local_name, b"p");
            assert_eq!(tag.attributes.len(), 2);
            let first = tag.attributes[0].as_ref().unwrap();
            assert_eq!(first.key, b"k");
            assert_eq!(first.value, b"v");
            let second = tag.attributes[1].as_ref().unwrap();
            assert_eq!(second.key, b"n");
            assert_eq!(second.value, b"w");
        }
        other => panic!("unexpected {:?}", other),
    }
    match &events[3] {
        XmlEvent::Text(Some(text)) => assert_eq!(text, "one & two"),
        other => panic!("unexpected {:?}", other),
    }
    match &events[4] {
        XmlEvent::End { name, local_name } => {
            assert_eq!(name, b"a:p");
            assert_eq!(local_name, b"p");
        }
        other => panic!("unexpected {:?}", other),
    }
    match &events[5] {
        XmlEvent::Empty(tag) => assert_eq!(tag.local_name, b"e"),
        other => panic!("unexpected {:?}", other),
    }
    assert!(matches!(events[6], XmlEvent::Other));
    match &events[7] {
        XmlEvent::End { name, local_name } => {
            assert_eq!(name, b"a:doc");
            assert_eq!(local_name, b"doc");
        }
        other => panic!("unexpected {:?}", other),
    }
}

#[test]
fn events_stop_at_a_fault() {
    let events = read_events(b"<a><b>text</a>");
    // The end tag does not close the open element: the reader stops there.
    assert_eq!(events.len(), 3);
    assert!(matches!(events[2], XmlEvent::Text(_)));
}

#[test]
fn events_of_nothing() {
    assert!(read_events(b"").is_empty());
    assert!(read_events(b"   ").is_empty());
}

#[test]
fn text_with_a_bad_escape_is_kept_as_missing() {
    let events = read_events(b"<a>x &nosuch; y</a>");
    assert_eq!(events.len(), 3);
    assert!(matches!(events[1], XmlEvent::Text(None)));
}

// ---------------------------------------------------------------------------
// Word-processor documents
// ---------------------------------------------------------------------------

#[test]
fn docx_text_joins_the_pieces_with_blanks() {
    let events = vec![
        start("p"),
        text_event("Hello"),
        end("p"),
        text_event("World"),
        XmlEvent::Text(None),
        XmlEvent::Other,
    ];
    assert_eq!(
        docx_text_from_events(&events),
        Some("Hello World".to_string())
    );
}

#[test]
fn docx_without_text_gives_nothing() {
    assert_eq!(docx_text_from_events(&vec![start("p"), end("p")]), None);
    assert_eq!(docx_text_from_events(&Vec::new()), None);
}

#[test]
fn docx_with_only_blank_text_gives_empty_text() {
    assert_eq!(
        docx_text_from_events(&vec![text_event(" ")]),
        Some(String::new())
    );
}

#[test]
fn docx_from_an_archive() {
    let file = zip_of(&[
        ("[Content_Types].xml", "<Types/>"),
        (
            "word/document.xml",
            "<w:document xmlns:w=\"urn:w\"><w:body>\
             <w:p><w:r><w:t>Annual report</w:t></w:r></w:p>\
             <w:p><w:r><w:t>Budget &amp; plan</w:t></w:r><w:r><w:t>2024</w:t></w:r></w:p>\
             </w:body></w:document>",
        ),
    ]);
    assert_eq!(
        extract_docx(&file),
        Some("Annual report Budget & plan 2024".to_string())
    );
}

#[test]
fn docx_without_main_part_gives_nothing() {
    let file = zip_of(&[("word/other.xml", "<a>text</a>")]);
    assert_eq!(extract_docx(&file), None);
}

#[test]
fn docx_test_extract_nonexistent_file() {
    // A file that does not exist has no bytes to hand over.
    let result = extract_docx(&[]);
    assert!(result.is_none());
}

#[test]
fn docx_that_is_no_archive_gives_nothing() {
    assert_eq!(extract_docx(b"this is not a zip archive"), None);
}

// ---------------------------------------------------------------------------
// Spreadsheets
// ---------------------------------------------------------------------------

#[test]
fn xlsx_text_takes_what_stands_in_items() {
    let events = vec![
        start("sst"),
        text_event("outside"),
        start("si"),
        start("t"),
        text_event("Alpha"),
        end("t"),
        end("si"),
        start("si"),
        text_event("Be"),
        text_event("ta"),
        end("si"),
        end("sst"),
    ];
    assert_eq!(
        xlsx_text_from_events(&events),
        Some("Alpha Beta".to_string())
    );
}

#[test]
fn xlsx_from_an_archive() {
    let file = zip_of(&[(
        "xl/sharedStrings.xml",
        "<sst><si><t>Revenue</t></si><si><t>Cost</t></si><si><r><t>Net</t></r><r><t>Sum</t></r></si></sst>",
    )]);
    assert_eq!(extract_xlsx(&file), Some("Revenue Cost NetSum".to_string()));
}

#[test]
fn xlsx_without_strings_gives_nothing() {
    let file = zip_of(&[("xl/workbook.xml", "<workbook/>")]);
    assert_eq!(extract_xlsx(&file), None);
    let file = zip_of(&[("xl/sharedStrings.xml", "<sst></sst>")]);
    assert_eq!(extract_xlsx(&file), None);
}

#[test]
fn xlsx_test_extract_nonexistent_file() {
    // A file that does not exist has no bytes to hand over.
    let result = extract_xlsx(&[]);
    assert!(result.is_none());
}

// ---------------------------------------------------------------------------
// Presentations
// ---------------------------------------------------------------------------

#[test]
fn slide_names_count_in_decimal() {
    assert_eq!(slide_entry_name(1), "ppt/slides/slide1.xml");
    assert_eq!(slide_entry_name(9), "ppt/slides/slide9.xml");
    assert_eq!(slide_entry_name(10), "ppt/slides/slide10.xml");
    assert_eq!(slide_entry_name(2047), "ppt/slides/slide2047.xml");
    assert_eq!(
        slide_entry_name(4294967295),
        "ppt/slides/slide4294967295.xml"
    );
}

#[test]
fn pptx_reads_the_slides_in_order() {
    let file = zip_of(&[
        ("ppt/slides/slide2.xml", "<p:sld><a:t>Second</a:t></p:sld>"),
        (
            "ppt/slides/slide1.xml",
            "<p:sld><a:t>First</a:t><a:t>slide</a:t></p:sld>",
        ),
    ]);
    assert_eq!(
        extract_pptx(&file),
        Some("First slide \nSecond".to_string())
    );
}

#[test]
fn pptx_stops_at_the_first_gap() {
    let file = zip_of(&[
        ("ppt/slides/slide1.xml", "<p:sld><a:t>One</a:t></p:sld>"),
        ("ppt/slides/slide3.xml", "<p:sld><a:t>Three</a:t></p:sld>"),
    ]);
    assert_eq!(extract_pptx(&file), Some("One".to_string()));
}

#[test]
fn pptx_with_slides_without_text_gives_empty_text() {
    let file = zip_of(&[("ppt/slides/slide1.xml", "<p:sld/>")]);
    assert_eq!(extract_pptx(&file), Some(String::new()));
}

#[test]
fn pptx_without_slides_gives_nothing() {
    let file = zip_of(&[("ppt/presentation.xml", "<p/>")]);
    assert_eq!(extract_pptx(&file), None);
}

#[test]
fn pptx_test_extract_nonexistent_file() {
    // A file that does not exist has no bytes to hand over.
    let result = extract_pptx(&[]);
    assert!(result.is_none());
}

// ---------------------------------------------------------------------------
// Plain text
// ---------------------------------------------------------------------------

#[test]
fn text_is_read_as_utf8() {
    assert_eq!(
        extract_text("héllo wörld".as_bytes()),
        Some("héllo wörld".to_string())
    );
    assert_eq!(extract_text(b""), Some(String::new()));
}

#[test]
fn text_that_is_not_utf8_gives_nothing() {
    assert_eq!(extract_text(&[0x68, 0xE9, 0x6C]), None);
    assert_eq!(extract_text(&[0xFF]), None);
}

#[test]
fn text_test_extract_nonexistent_file() {
    // Nothing can be read of a file that does not exist; what could not be
    // read is not valid text either.
    let result = extract_text(&[0xFF, 0xFE, 0xFD]);
    assert!(result.is_none());
}

// ---------------------------------------------------------------------------
// Old binary documents
// ---------------------------------------------------------------------------

#[test]
fn fallback_takes_a_stream_that_is_all_text() {
    let data = utf16le(SENTENCE);
    assert_eq!(extract_text_fallback(&data), Some(SENTENCE.to_string()));
}

#[test]
fn fallback_needs_more_than_fifty_bytes() {
    let short = "x".repeat(50);
    assert_eq!(extract_text_fallback(&utf16le(&short)), None);
    let enough = "x".repeat(51);
    assert_eq!(extract_text_fallback(&utf16le(&enough)), Some(enough));
}

#[test]
fn fallback_scans_for_runs() {
    // A lone high half at the start makes the stream as a whole undecodable,
    // so that the scan for runs decides.
    let mut data = vec![0x00, 0xD8];
    data.extend(utf16le("first run of text in the stream"));
    data.extend([0x00, 0x00, 0x01, 0x00]);
    data.extend(utf16le("ab"));
    data.extend([0x00, 0x00]);
    data.extend(utf16le("second run that follows it"));
    assert_eq!(
        extract_text_fallback(&data),
        Some("first run of text in the stream second run that follows it".to_string())
    );
}

#[test]
fn fallback_of_noise_gives_nothing() {
    assert_eq!(extract_text_fallback(&[0u8; 200]), None);
    assert_eq!(extract_text_fallback(&[]), None);
}

#[test]
fn direct_text_lies_between_the_bounds() {
    let body = utf16le(SENTENCE);
    let mut data = word_stream(&body);
    data.extend_from_slice(&[0u8; 40]);
    put_u32(&mut data, 0x18, 1472);
    put_u32(&mut data, 0x1C, 1472 + body.len() as u32);
    assert_eq!(extract_text_direct(&data), Some(SENTENCE.to_string()));
}

#[test]
fn direct_text_in_windows_1252() {
    let text = "Caf\u{E9} au lait, cr\u{E8}me br\u{FB}l\u{E9}e and more words here";
    let body: Vec<u8> = text.chars().map(|c| c as u32 as u8).collect();
    // An odd number of bytes with a lone half at the end keeps UTF-16 out.
    let mut body = body;
    body.extend_from_slice(&[0x00, 0xD8]);
    let mut data = word_stream(&body);
    put_u32(&mut data, 0x18, 1472);
    put_u32(&mut data, 0x1C, 1472 + body.len() as u32);
    let got = extract_text_direct(&data).unwrap();
    assert!(got.starts_with("Caf\u{E9} au lait"), "got {:?}", got);
}

#[test]
fn direct_text_with_bad_bounds_scans_the_stream() {
    let data = utf16le(SENTENCE);
    // Bounds of zero: the stream is scanned as a whole.
    assert_eq!(extract_text_direct(&data), extract_text_fallback(&data));
    assert!(extract_text_direct(&data).is_some());
}

#[test]
fn direct_text_that_does_not_read_as_text_gives_nothing() {
    // Marks without a letter among them, in either encoding.
    let body = utf16le(&"!".repeat(32));
    let mut data = word_stream(&body);
    put_u32(&mut data, 0x18, 1472);
    put_u32(&mut data, 0x1C, 1472 + 64);
    assert_eq!(extract_text_direct(&data), None);
}

#[test]
fn text_by_way_of_the_table() {
    let body = utf16le("Table text and some more behind it");
    let mut data = word_stream(&body);
    put_u32(&mut data, 0x18, 1472);
    // Ten characters are counted.
    put_u32(&mut data, 0x4C, 10);
    let table = [0u8; 16];
    assert_eq!(
        extract_text_via_clx(Some(&table), 4, 8, &data),
        Some("Table text".to_string())
    );
    // More characters than there are: what the stream holds.
    put_u32(&mut data, 0x4C, 1000);
    assert_eq!(
        extract_text_via_clx(Some(&table), 4, 8, &data),
        Some("Table text and some more behind it".to_string())
    );
}

#[test]
fn text_by_way_of_the_table_needs_the_table() {
    let body = utf16le("Table text");
    let mut data = word_stream(&body);
    put_u32(&mut data, 0x18, 1472);
    put_u32(&mut data, 0x4C, 10);
    let table = [0u8; 16];
    assert_eq!(extract_text_via_clx(None, 4, 8, &data), None);
    assert_eq!(extract_text_via_clx(Some(&table), 4, 0, &data), None);
    assert_eq!(extract_text_via_clx(Some(&table), 16, 8, &data), None);
    put_u32(&mut data, 0x4C, 0);
    assert_eq!(extract_text_via_clx(Some(&table), 4, 8, &data), None);
    put_u32(&mut data, 0x4C, 10);
    put_u32(&mut data, 0x18, 0);
    assert_eq!(extract_text_via_clx(Some(&table), 4, 8, &data), None);
}

#[test]
fn text_by_way_of_the_table_past_the_end_is_empty() {
    let mut data = word_stream(&[]);
    put_u32(&mut data, 0x18, 5000);
    put_u32(&mut data, 0x4C, 10);
    let table = [0u8; 16];
    assert_eq!(
        extract_text_via_clx(Some(&table), 4, 8, &data),
        Some(String::new())
    );
}

#[test]
fn doc_by_way_of_the_table() {
    let body = utf16le(SENTENCE);
    let mut word = word_stream(&body);
    put_u32(&mut word, 0x18, 1472);
    put_u32(&mut word, 0x4C, SENTENCE.chars().count() as u32);
    put_u32(&mut word, 0x1A2, 0);
    put_u32(&mut word, 0x1A6, 16);
    // Bit 9 of the flags: the table is in `1Table`.
    put_u16(&mut word, 0x0A, 0x0200);
    let file = compound_of(&[("/WordDocument", &word), ("/1Table", &[0u8; 32])]);
    assert_eq!(extract_doc(&file), Some(SENTENCE.to_string()));
}

#[test]
fn doc_uses_the_table_that_the_flags_name() {
    let body = utf16le("short");
    let mut word = word_stream(&body);
    put_u32(&mut word, 0x18, 1472);
    put_u32(&mut word, 0x4C, 5);
    put_u32(&mut word, 0x1A6, 16);
    // The flags name `0Table`, and only `1Table` is there: the table way
    // gives nothing, and the other ways find too little.
    let file = compound_of(&[("/WordDocument", &word), ("/1Table", &[0u8; 32])]);
    assert_eq!(extract_doc(&file), None);
    let file = compound_of(&[("/WordDocument", &word), ("/0Table", &[0u8; 32])]);
    assert_eq!(extract_doc(&file), Some("short".to_string()));
}

#[test]
fn doc_by_the_bounds() {
    let body = utf16le(SENTENCE);
    let mut word = word_stream(&body);
    put_u32(&mut word, 0x18, 1472);
    put_u32(&mut word, 0x1C, 1472 + body.len() as u32);
    let file = compound_of(&[("/WordDocument", &word)]);
    assert_eq!(extract_doc(&file), Some(SENTENCE.to_string()));
}

#[test]
fn doc_by_the_text_stream() {
    let mut word = word_stream(&utf16le(&"!".repeat(32)));
    put_u32(&mut word, 0x18, 1472);
    put_u32(&mut word, 0x1C, 1472 + 64);
    let file = compound_of(&[
        ("/WordDocument", &word),
        ("/Text", &utf16le(SENTENCE)),
    ]);
    assert_eq!(extract_doc(&file), Some(SENTENCE.to_string()));
}

#[test]
fn doc_with_a_short_stream_gives_nothing() {
    let file = compound_of(&[("/WordDocument", &utf16le(SENTENCE))]);
    assert_eq!(extract_doc(&file), None);
}

#[test]
fn doc_without_the_stream_gives_nothing() {
    let file = compound_of(&[("/Other", &[0u8; 2000])]);
    assert_eq!(extract_doc(&file), None);
}

#[test]
fn doc_that_is_no_compound_file_gives_nothing() {
    assert_eq!(extract_doc(b"plain bytes"), None);
    assert_eq!(extract_doc(&[]), None);
    assert_eq!(extract_doc(&vec![0u8; 4096]), None);
}

// ---------------------------------------------------------------------------
// Decoding
// ---------------------------------------------------------------------------

#[test]
fn decode_text_prefers_utf16() {
    assert_eq!(
        decode_text(&utf16le("readable words")),
        Some("readable words".to_string())
    );
}

#[test]
fn decode_text_takes_utf8_next() {
    // The bytes 61 D8 80 62 begin with a lone high half when read as
    // UTF-16, and are valid UTF-8.
    let text = "a\u{0600}bcdefgh readable words";
    assert_eq!(decode_text(text.as_bytes()), Some(text.to_string()));
}

#[test]
fn decode_text_reads_ascii_pairs_as_utf16() {
    // Two bytes of ASCII make one unit of UTF-16, and the units read as text.
    let got = decode_text(b"plain ascii text of even length!").unwrap();
    assert_eq!(got.chars().count(), 16);
    assert_eq!(got.chars().next(), Some('\u{6C70}'));
}

#[test]
fn decode_text_falls_back_to_a_code_page() {
    // 61 D8 62 63 begins with a lone high half as UTF-16 and is no UTF-8;
    // in Windows-1256 the byte D8 is the letter tah.
    let bytes: Vec<u8> = b"a\xD8bcdefgh and more text".to_vec();
    assert_eq!(
        decode_text(&bytes),
        Some("a\u{0637}bcdefgh and more text".to_string())
    );
}

#[test]
fn decode_text_ends_with_windows_1252() {
    // Too short to read as text in any encoding: what Windows-1252 gives.
    assert_eq!(decode_text(&[0xE9]), Some("\u{E9}".to_string()));
    assert_eq!(decode_text(&[]), Some(String::new()));
}

// ---------------------------------------------------------------------------
// Any kind of file
// ---------------------------------------------------------------------------

#[test]
fn content_goes_by_the_extension() {
    let docx = zip_of(&[("word/document.xml", "<w:t>in a docx</w:t>")]);
    let xlsx = zip_of(&[("xl/sharedStrings.xml", "<si><t>in a sheet</t></si>")]);
    let pptx = zip_of(&[("ppt/slides/slide1.xml", "<a:t>on a slide</a:t>")]);
    assert_eq!(extract_content(&docx, "docx"), Some("in a docx".to_string()));
    assert_eq!(extract_content(&xlsx, "xlsx"), Some("in a sheet".to_string()));
    assert_eq!(extract_content(&pptx, "pptx"), Some("on a slide".to_string()));
    assert_eq!(extract_content(b"notes", "txt"), Some("notes".to_string()));
    assert_eq!(extract_content(b"# notes", "md"), Some("# notes".to_string()));
    // The same bytes under another extension are read another way.
    assert_eq!(extract_content(&docx, "xlsx"), None);
    assert_eq!(extract_content(&docx, "doc"), None);
    assert_eq!(extract_content(b"notes", "docx"), None);
}

#[test]
fn content_of_unknown_extensions_is_nothing() {
    assert_eq!(extract_content(b"notes", "pdf"), None);
    assert_eq!(extract_content(b"notes", ""), None);
    // The extension is taken as it is written.
    assert_eq!(extract_content(b"notes", "TXT"), None);
}

#[test]
fn file_content_goes_by_the_path() {
    assert_eq!(
        extract_file_content("C:\\docs\\Notes.TXT", b"hello"),
        Ok("hello".to_string())
    );
    assert_eq!(
        extract_file_content("/docs/readme.md", b"hello"),
        Ok("hello".to_string())
    );
    assert_eq!(
        extract_file_content("/docs/archive.tar.gz", b"hello"),
        Err("Failed to extract content".to_string())
    );
    assert_eq!(
        extract_file_content("/docs/noextension", b"hello"),
        Err("Failed to extract content".to_string())
    );
    assert_eq!(
        extract_file_content("/docs.txt/file", b"hello"),
        Err("Failed to extract content".to_string())
    );
}
