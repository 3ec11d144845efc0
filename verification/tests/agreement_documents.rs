//! The readers of documents against the same reading done with the crates
//! and the standard library alone, over documents made at random.

use std::collections::HashMap;
use std::io::{BufReader, Cursor, Read, Write};

use quick_xml::events::Event;
use quick_xml::reader::Reader;

use docufind::content::{ContentSection, SectionType};
use docufind::doc::{extract_text_direct, extract_text_fallback};
use docufind::doc_text::{clean_extracted_text, is_readable_text, is_valid_utf16_char};
use docufind::docx::{parse_document_events, StyleInfo};
use docufind::headings::detect_heading_level;
use docufind::office::{extract_docx, extract_pptx, extract_xlsx};
use docufind::structured::{parse_metadata, parse_styles};
use docufind::xml::read_events;

struct Numbers(u64);

impl Numbers {
    fn next(&mut self) -> u64 {
        self.0 = self
            .0
            .wrapping_mul(6364136223846793005)
            .wrapping_add(1442695040888963407);
        self.0 >> 33
    }

    fn below(&mut self, n: usize) -> usize {
        (self.next() % n as u64) as usize
    }

    fn pick<'a>(&mut self, items: &[&'a str]) -> &'a str {
        items[self.below(items.len())]
    }

    fn text(&mut self, alphabet: &[&str], max_len: usize) -> String {
        let len = self.below(max_len + 1);
        (0..len).map(|_| alphabet[self.below(alphabet.len())]).collect()
    }
}

fn zip_of(parts: &[(String, String)]) -> Vec<u8> {
    let mut writer = zip::ZipWriter::new(Cursor::new(Vec::new()));
    for (name, body) in parts {
        writer
            .start_file(name.as_str(), zip::write::SimpleFileOptions::default())
            .unwrap();
        writer.write_all(body.as_bytes()).unwrap();
    }
    writer.finish().unwrap().into_inner()
}

// ---------------------------------------------------------------------------
// Headings
// ---------------------------------------------------------------------------

fn heading_with_std(style_id: &str, style_name: &str) -> Option<u8> {
    let id_lower = style_id.to_lowercase();
    let name_lower = style_name.to_lowercase();
    for level in 1..=6 {
        let patterns = [
            format!("heading{}", level),
            format!("heading {}", level),
            format!("h{}", level),
            format!("titre{}", level),
            format!("berschrift{}", level),
        ];
        for pattern in &patterns {
            if id_lower.contains(pattern) || name_lower.contains(pattern) {
                return Some(level);
            }
        }
    }
    if id_lower == "title" || name_lower == "title" {
        return Some(1);
    }
    if id_lower == "subtitle" || name_lower == "subtitle" {
        return Some(2);
    }
    None
}

#[test]
fn heading_levels_agree() {
    let mut numbers = Numbers(3);
    let parts: &[&str] = &[
        "heading", "Heading", "h", "H", "titre", "berschrift", "title", "Title", "subtitle", " ",
        "0", "1", "2", "3", "6", "7", "x", "Ü",
    ];
    for _ in 0..4000 {
        let id = numbers.text(parts, 3);
        let name = numbers.text(parts, 3);
        assert_eq!(
            detect_heading_level(&id, &name),
            heading_with_std(&id, &name),
            "{:?} {:?}",
            id,
            name
        );
    }
}

// ---------------------------------------------------------------------------
// Old binary documents
// ---------------------------------------------------------------------------

fn utf16_with_std(bytes: &[u8]) -> Option<String> {
    if bytes.len() < 2 {
        return None;
    }
    let units: Vec<u16> = bytes
        .chunks_exact(2)
        .map(|chunk| u16::from_le_bytes([chunk[0], chunk[1]]))
        .collect();
    String::from_utf16(&units).ok()
}

fn windows1252_with_crate(bytes: &[u8]) -> Option<String> {
    let (decoded, _, had_errors) = encoding_rs::WINDOWS_1252.decode(bytes);
    if had_errors {
        None
    } else {
        Some(decoded.into_owned())
    }
}

fn u32_at(data: &[u8], offset: usize) -> u32 {
    if offset + 4 > data.len() {
        return 0;
    }
    u32::from_le_bytes([data[offset], data[offset + 1], data[offset + 2], data[offset + 3]])
}

fn fallback_with_std(data: &[u8]) -> Option<String> {
    let mut result = String::new();
    if let Some(text) = utf16_with_std(data) {
        let cleaned = clean_extracted_text(&text);
        if cleaned.len() > 50 {
            return Some(cleaned);
        }
    }
    let mut i = 0;
    while i < data.len() {
        if i + 1 < data.len() {
            let char_val = u16::from_le_bytes([data[i], data[i + 1]]);
            if is_valid_utf16_char(char_val) {
                let start = i;
                while i + 1 < data.len() {
                    let cv = u16::from_le_bytes([data[i], data[i + 1]]);
                    if !is_valid_utf16_char(cv) {
                        break;
                    }
                    i += 2;
                }
                if i > start + 4 {
                    if let Some(text) = utf16_with_std(&data[start..i]) {
                        if !result.is_empty() && !result.ends_with('\n') && !result.ends_with(' ') {
                            result.push(' ');
                        }
                        result.push_str(&text);
                    }
                }
            } else {
                i += 1;
            }
        } else {
            i += 1;
        }
    }
    if result.len() > 50 {
        Some(clean_extracted_text(&result))
    } else {
        None
    }
}

fn direct_with_std(data: &[u8]) -> Option<String> {
    let fc_min = u32_at(data, 0x0018) as usize;
    let fc_mac = u32_at(data, 0x001C) as usize;
    if fc_min == 0 || fc_mac <= fc_min || fc_mac > data.len() {
        return fallback_with_std(data);
    }
    let region = &data[fc_min..fc_mac];
    if let Some(text) = utf16_with_std(region) {
        let cleaned = clean_extracted_text(&text);
        if !cleaned.is_empty() && is_readable_text(&cleaned) {
            return Some(cleaned);
        }
    }
    if let Some(text) = windows1252_with_crate(region) {
        let cleaned = clean_extracted_text(&text);
        if !cleaned.is_empty() && is_readable_text(&cleaned) {
            return Some(cleaned);
        }
    }
    None
}

fn stream_at_random(numbers: &mut Numbers) -> Vec<u8> {
    let mut data = Vec::new();
    let pieces = 1 + numbers.below(8);
    for _ in 0..pieces {
        match numbers.below(5) {
            0 => {
                let words = numbers.text(&["word ", "text ", "a", "\n", "مرحبا ", "é"], 30);
                data.extend(words.encode_utf16().flat_map(|u| u.to_le_bytes()));
            }
            1 => data.extend((0..numbers.below(9)).map(|_| 0u8)),
            2 => data.extend((0..numbers.below(9)).map(|_| numbers.below(256) as u8)),
            3 => data.extend_from_slice(&[0x00, 0xD8]),
            _ => data.extend(numbers.text(&["plain ", "ascii ", "x"], 20).into_bytes()),
        }
    }
    data
}

#[test]
fn the_scan_of_a_stream_agrees() {
    let mut numbers = Numbers(5);
    let mut with_text = 0;
    for _ in 0..1500 {
        let data = stream_at_random(&mut numbers);
        let got = extract_text_fallback(&data);
        assert_eq!(got, fallback_with_std(&data), "{:?}", data);
        if got.is_some() {
            with_text += 1;
        }
    }
    assert!(with_text > 100 && with_text < 1500, "{}", with_text);
}

#[test]
fn the_text_between_the_bounds_agrees() {
    let mut numbers = Numbers(9);
    let mut with_text = 0;
    for _ in 0..1500 {
        let mut data = vec![0u8; 0x20];
        data.extend(stream_at_random(&mut numbers));
        let len = data.len() as u32;
        let fc_min = numbers.below(len as usize + 4) as u32;
        let fc_mac = numbers.below(len as usize + 4) as u32;
        data[0x18..0x1C].copy_from_slice(&fc_min.to_le_bytes());
        data[0x1C..0x20].copy_from_slice(&fc_mac.to_le_bytes());
        let got = extract_text_direct(&data);
        assert_eq!(got, direct_with_std(&data), "{:?}", data);
        if got.is_some() {
            with_text += 1;
        }
    }
    assert!(with_text > 100 && with_text < 1500, "{}", with_text);
}

// ---------------------------------------------------------------------------
// Documents in XML
// ---------------------------------------------------------------------------

/// A part of a document at random: tags of the given kinds, closed in
/// order, with texts between them.
fn xml_at_random(numbers: &mut Numbers, tags: &[&str], attributes: &[&str], texts: &[&str]) -> String {
    let mut xml = String::new();
    let mut open: Vec<&str> = Vec::new();
    let steps = numbers.below(40);
    for _ in 0..steps {
        match numbers.below(7) {
            0 | 1 => {
                let tag = numbers.pick(tags);
                xml.push_str(&format!("<{}{}>", tag, numbers.pick(attributes)));
                open.push(tag);
            }
            2 => {
                let tag = numbers.pick(tags);
                xml.push_str(&format!("<{}{}/>", tag, numbers.pick(attributes)));
            }
            3 | 4 => {
                if let Some(tag) = open.pop() {
                    xml.push_str(&format!("</{}>", tag));
                }
            }
            _ => xml.push_str(numbers.pick(texts)),
        }
    }
    while let Some(tag) = open.pop() {
        xml.push_str(&format!("</{}>", tag));
    }
    xml
}

const TEXTS: &[&str] = &[
    "text", " spaced ", "a &amp; b", "&lt;tag&gt;", "  ", "line\nbreak", "é", "&bad;", "x",
];

fn texts_with_crate<R: Read>(source: R, after_each: &str) -> String {
    let mut content = String::new();
    let mut reader = Reader::from_reader(BufReader::new(source));
    reader.config_mut().trim_text(true);
    let mut buf = Vec::new();
    loop {
        match reader.read_event_into(&mut buf) {
            Ok(Event::Text(e)) => {
                if let Ok(text) = e.unescape() {
                    content.push_str(&text);
                    content.push_str(after_each);
                }
            }
            Ok(Event::Eof) => break,
            Err(_) => break,
            _ => {}
        }
        buf.clear();
    }
    content
}

fn docx_with_crates(file: &[u8]) -> Option<String> {
    let mut archive = zip::ZipArchive::new(Cursor::new(file)).ok()?;
    let mut content = String::new();
    if let Ok(document) = archive.by_name("word/document.xml") {
        content = texts_with_crate(document, " ");
    }
    if content.is_empty() {
        None
    } else {
        Some(content.trim().to_string())
    }
}

fn pptx_with_crates(file: &[u8]) -> Option<String> {
    let mut archive = zip::ZipArchive::new(Cursor::new(file)).ok()?;
    let mut content = String::new();
    let mut slide_num = 1;
    loop {
        let slide_name = format!("ppt/slides/slide{}.xml", slide_num);
        match archive.by_name(&slide_name) {
            Ok(slide) => {
                content.push_str(&texts_with_crate(slide, " "));
                content.push('\n');
                slide_num += 1;
            }
            Err(_) => break,
        }
    }
    if content.is_empty() {
        None
    } else {
        Some(content.trim().to_string())
    }
}

fn xlsx_with_crates(file: &[u8]) -> Option<String> {
    let mut archive = zip::ZipArchive::new(Cursor::new(file)).ok()?;
    let mut content = String::new();
    if let Ok(shared_strings) = archive.by_name("xl/sharedStrings.xml") {
        let mut reader = Reader::from_reader(BufReader::new(shared_strings));
        reader.config_mut().trim_text(true);
        let mut buf = Vec::new();
        let mut in_si = false;
        loop {
            match reader.read_event_into(&mut buf) {
                Ok(Event::Start(e)) => {
                    if e.local_name().as_ref() == b"si" {
                        in_si = true;
                    }
                }
                Ok(Event::End(e)) => {
                    if e.local_name().as_ref() == b"si" {
                        in_si = false;
                        content.push(' ');
                    }
                }
                Ok(Event::Text(e)) if in_si => {
                    if let Ok(text) = e.unescape() {
                        content.push_str(&text);
                    }
                }
                Ok(Event::Eof) => break,
                Err(_) => break,
                _ => {}
            }
            buf.clear();
        }
    }
    if content.is_empty() {
        None
    } else {
        Some(content.trim().to_string())
    }
}

#[test]
fn the_text_of_documents_agrees() {
    let mut numbers = Numbers(15);
    let tags: &[&str] = &["w:p", "w:r", "w:t", "a:t", "si", "t", "x:si", "sst"];
    let mut with_text = 0;
    for _ in 0..300 {
        let mut parts: Vec<(String, String)> = Vec::new();
        for name in [
            "word/document.xml",
            "xl/sharedStrings.xml",
            "ppt/slides/slide1.xml",
            "ppt/slides/slide2.xml",
            "ppt/slides/slide3.xml",
            "ppt/slides/slide5.xml",
        ] {
            if numbers.below(4) != 0 {
                parts.push((name.to_string(), xml_at_random(&mut numbers, tags, &[""], TEXTS)));
            }
        }
        let file = zip_of(&parts);
        assert_eq!(extract_docx(&file), docx_with_crates(&file), "{:?}", parts);
        assert_eq!(extract_xlsx(&file), xlsx_with_crates(&file), "{:?}", parts);
        assert_eq!(extract_pptx(&file), pptx_with_crates(&file), "{:?}", parts);
        if extract_docx(&file).is_some() && extract_xlsx(&file).is_some() {
            with_text += 1;
        }
    }
    assert!(with_text > 30, "{}", with_text);
}

#[test]
fn the_text_of_broken_documents_agrees() {
    let mut numbers = Numbers(21);
    for _ in 0..300 {
        // Pieces of markup in any order: most of it is not well formed.
        let xml = numbers.text(
            &["<w:t>", "</w:t>", "<si>", "</si>", "text", "<", ">", "&amp;", "&", "<a/>", " ", "\""],
            12,
        );
        let file = zip_of(&[
            ("word/document.xml".to_string(), xml.clone()),
            ("xl/sharedStrings.xml".to_string(), xml.clone()),
            ("ppt/slides/slide1.xml".to_string(), xml.clone()),
        ]);
        assert_eq!(extract_docx(&file), docx_with_crates(&file), "{:?}", xml);
        assert_eq!(extract_xlsx(&file), xlsx_with_crates(&file), "{:?}", xml);
        assert_eq!(extract_pptx(&file), pptx_with_crates(&file), "{:?}", xml);
    }
}

// ---------------------------------------------------------------------------
// Styles and metadata
// ---------------------------------------------------------------------------

fn styles_with_crate(xml: &str) -> Vec<(String, String, Option<u8>)> {
    let mut order: Vec<String> = Vec::new();
    let mut styles: HashMap<String, (String, Option<u8>)> = HashMap::new();
    let mut reader = Reader::from_reader(BufReader::new(xml.as_bytes()));
    reader.config_mut().trim_text(true);
    let mut buf = Vec::new();
    let mut current_id = String::new();
    let mut current_name = String::new();
    let mut in_style = false;
    loop {
        match reader.read_event_into(&mut buf) {
            Ok(Event::Start(e)) | Ok(Event::Empty(e)) => match e.local_name().as_ref() {
                b"style" => {
                    in_style = true;
                    for attr in e.attributes().filter_map(|a| a.ok()) {
                        if attr.key.local_name().as_ref() == b"styleId" {
                            current_id = String::from_utf8_lossy(&attr.value).to_string();
                        }
                    }
                }
                b"name" if in_style => {
                    for attr in e.attributes().filter_map(|a| a.ok()) {
                        if attr.key.local_name().as_ref() == b"val" {
                            current_name = String::from_utf8_lossy(&attr.value).to_string();
                        }
                    }
                }
                _ => {}
            },
            Ok(Event::End(e)) => {
                if e.local_name().as_ref() == b"style" && in_style {
                    if !current_id.is_empty() {
                        let level = heading_with_std(&current_id, &current_name);
                        order.push(current_id.clone());
                        styles.insert(current_id.clone(), (current_name.clone(), level));
                    }
                    current_id.clear();
                    current_name.clear();
                    in_style = false;
                }
            }
            Ok(Event::Eof) => break,
            Err(_) => break,
            _ => {}
        }
        buf.clear();
    }
    let mut ids: Vec<String> = Vec::new();
    for id in order {
        if !ids.contains(&id) {
            ids.push(id);
        }
    }
    ids.into_iter()
        .map(|id| {
            let (name, level) = styles[&id].clone();
            (id, name, level)
        })
        .collect()
}

/// The style that counts for each id: the last of that id in the list.
fn last_of_each(styles: &[StyleInfo]) -> Vec<(String, String, Option<u8>)> {
    let mut ids: Vec<String> = Vec::new();
    for s in styles {
        if !ids.contains(&s.id) {
            ids.push(s.id.clone());
        }
    }
    ids.into_iter()
        .map(|id| {
            let s = styles.iter().rev().find(|s| s.id == id).unwrap();
            (id, s.name.clone(), s.heading_level)
        })
        .collect()
}

const STYLE_ATTRIBUTES: &[&str] = &[
    "",
    " w:styleId=\"Heading1\"",
    " w:styleId=\"Body\"",
    " w:styleId=\"\"",
    " w:val=\"heading 2\"",
    " w:val=\"Normal\"",
    " w:val=\"Title\"",
    " w:styleId=\"A\" w:val=\"h3\"",
];

#[test]
fn styles_agree() {
    let mut numbers = Numbers(25);
    for _ in 0..1500 {
        let xml = xml_at_random(
            &mut numbers,
            &["w:style", "w:name", "w:styles", "w:other"],
            STYLE_ATTRIBUTES,
            &["", " "],
        );
        let got = parse_styles(&read_events(xml.as_bytes()));
        assert_eq!(last_of_each(&got), styles_with_crate(&xml), "{:?}", xml);
    }
}

fn metadata_with_crate(xml: &str) -> [Option<String>; 4] {
    let mut found: [Option<String>; 4] = [None, None, None, None];
    let mut reader = Reader::from_reader(BufReader::new(xml.as_bytes()));
    reader.config_mut().trim_text(true);
    let mut buf = Vec::new();
    let mut current_element = String::new();
    loop {
        match reader.read_event_into(&mut buf) {
            Ok(Event::Start(e)) => {
                current_element = String::from_utf8_lossy(e.local_name().as_ref()).to_string();
            }
            Ok(Event::Text(e)) => {
                if let Ok(text) = e.unescape() {
                    match current_element.as_str() {
                        "title" => found[0] = Some(text.to_string()),
                        "creator" => found[1] = Some(text.to_string()),
                        "created" => found[2] = Some(text.to_string()),
                        "modified" => found[3] = Some(text.to_string()),
                        _ => {}
                    }
                }
            }
            Ok(Event::Eof) => break,
            Err(_) => break,
            _ => {}
        }
        buf.clear();
    }
    found
}

#[test]
fn metadata_agrees() {
    let mut numbers = Numbers(27);
    for _ in 0..1500 {
        let xml = xml_at_random(
            &mut numbers,
            &["dc:title", "dc:creator", "dcterms:created", "dcterms:modified", "cp:other", "title"],
            &["", " a=\"b\""],
            TEXTS,
        );
        let got = parse_metadata(&read_events(xml.as_bytes()));
        assert_eq!(
            [got.title, got.author, got.created, got.modified],
            metadata_with_crate(&xml),
            "{:?}",
            xml
        );
    }
}

// ---------------------------------------------------------------------------
// The sections of a word-processor document
// ---------------------------------------------------------------------------

#[derive(Clone, Default, Debug, PartialEq)]
struct Style {
    bold: bool,
    italic: bool,
    underline: bool,
    strikethrough: bool,
    highlight: Option<String>,
}

#[derive(Clone, Debug, PartialEq)]
struct Section {
    kind: String,
    content: Option<String>,
    runs: Option<Vec<(String, Style)>>,
    children: Option<Vec<Section>>,
}

fn plain_section(kind: &str) -> Section {
    Section { kind: kind.to_string(), content: None, runs: None, children: None }
}

fn sections_with_crate(xml: &str, styles: &HashMap<String, Option<u8>>) -> Vec<Section> {
    let mut sections = Vec::new();
    let mut reader = Reader::from_reader(BufReader::new(xml.as_bytes()));
    reader.config_mut().trim_text(true);
    let mut buf = Vec::new();

    let mut in_paragraph = false;
    let mut in_run = false;
    let mut in_text = false;
    let mut in_table = false;
    let mut in_table_row = false;
    let mut in_table_cell = false;
    let mut in_list_item = false;
    let mut paragraph_style: Option<String> = None;
    let mut runs: Vec<(String, Style)> = Vec::new();
    let mut text = String::new();
    let mut style = Style::default();
    let mut list_depth: u8 = 0;
    let mut table_rows: Vec<Section> = Vec::new();
    let mut row_cells: Vec<Section> = Vec::new();

    loop {
        match reader.read_event_into(&mut buf) {
            Ok(Event::Start(e)) | Ok(Event::Empty(e)) => {
                let off = |values: &[&[u8]]| {
                    e.attributes().filter_map(|a| a.ok()).any(|a| {
                        a.key.local_name().as_ref() == b"val"
                            && values.iter().any(|v| a.value.as_ref() == *v)
                    })
                };
                match e.local_name().as_ref() {
                    b"p" => {
                        in_paragraph = true;
                        paragraph_style = None;
                        runs.clear();
                    }
                    b"pStyle" => {
                        if in_paragraph {
                            for attr in e.attributes().filter_map(|a| a.ok()) {
                                if attr.key.local_name().as_ref() == b"val" {
                                    paragraph_style =
                                        Some(String::from_utf8_lossy(&attr.value).to_string());
                                }
                            }
                        }
                    }
                    b"numPr" => in_list_item = true,
                    b"ilvl" => {
                        if in_list_item {
                            for attr in e.attributes().filter_map(|a| a.ok()) {
                                if attr.key.local_name().as_ref() == b"val" {
                                    list_depth =
                                        String::from_utf8_lossy(&attr.value).parse().unwrap_or(0);
                                }
                            }
                        }
                    }
                    b"r" => {
                        in_run = true;
                        style = Style::default();
                    }
                    b"b" => {
                        if in_run && !off(&[b"false", b"0"]) {
                            style.bold = true;
                        }
                    }
                    b"i" => {
                        if in_run && !off(&[b"false", b"0"]) {
                            style.italic = true;
                        }
                    }
                    b"u" => {
                        if in_run && !off(&[b"none"]) {
                            style.underline = true;
                        }
                    }
                    b"strike" => {
                        if in_run && !off(&[b"false", b"0"]) {
                            style.strikethrough = true;
                        }
                    }
                    b"highlight" => {
                        if in_run {
                            for attr in e.attributes().filter_map(|a| a.ok()) {
                                if attr.key.local_name().as_ref() == b"val"
                                    && attr.value.as_ref() != b"none"
                                {
                                    style.highlight =
                                        Some(String::from_utf8_lossy(&attr.value).to_string());
                                }
                            }
                        }
                    }
                    b"t" => {
                        in_text = true;
                        text.clear();
                    }
                    b"tbl" => {
                        in_table = true;
                        table_rows.clear();
                    }
                    b"tr" => {
                        if in_table {
                            in_table_row = true;
                            row_cells.clear();
                        }
                    }
                    b"tc" => {
                        if in_table_row {
                            in_table_cell = true;
                        }
                    }
                    b"lastRenderedPageBreak" | b"pageBreakBefore" => {
                        sections.push(plain_section("PageBreak"));
                    }
                    b"br" => {
                        let mut is_page_break = false;
                        for attr in e.attributes().filter_map(|a| a.ok()) {
                            if attr.key.local_name().as_ref() == b"type"
                                && attr.value.as_ref() == b"page"
                            {
                                is_page_break = true;
                                sections.push(plain_section("PageBreak"));
                            }
                        }
                        if !is_page_break {
                            if in_text {
                                text.push('\n');
                            } else if in_run {
                                runs.push(("\n".to_string(), style.clone()));
                            }
                        }
                    }
                    b"tab" => {
                        if in_run {
                            runs.push(("\t".to_string(), style.clone()));
                        }
                    }
                    b"noBreakHyphen" => {
                        if in_run {
                            runs.push(("-".to_string(), style.clone()));
                        }
                    }
                    b"softHyphen" => {
                        if in_run {
                            runs.push(("\u{00AD}".to_string(), style.clone()));
                        }
                    }
                    b"cr" => {
                        if in_run {
                            runs.push(("\n".to_string(), style.clone()));
                        }
                    }
                    _ => {}
                }
            }
            Ok(Event::Text(e)) => {
                if in_text {
                    if let Ok(piece) = e.unescape() {
                        text.push_str(&piece);
                    }
                }
            }
            Ok(Event::End(e)) => match e.local_name().as_ref() {
                b"t" => {
                    if in_text && !text.is_empty() {
                        runs.push((text.clone(), style.clone()));
                    }
                    in_text = false;
                }
                b"r" => in_run = false,
                b"p" => {
                    if in_paragraph && !runs.is_empty() {
                        let kind = if in_list_item {
                            format!("ListItem(false,{})", list_depth)
                        } else if let Some(ref id) = paragraph_style {
                            let level = match styles.get(id) {
                                Some(level) => *level,
                                None => heading_with_std(id, ""),
                            };
                            match level {
                                Some(level) => format!("Heading({})", level),
                                None => "Paragraph".to_string(),
                            }
                        } else {
                            "Paragraph".to_string()
                        };
                        let combined: String = runs.iter().map(|r| r.0.as_str()).collect();
                        let section = Section {
                            kind: if in_table_cell { "TableCell".to_string() } else { kind },
                            content: Some(combined),
                            runs: Some(runs.clone()),
                            children: None,
                        };
                        if in_table_cell {
                            row_cells.push(section);
                        } else {
                            sections.push(section);
                        }
                    }
                    in_paragraph = false;
                    in_list_item = false;
                    list_depth = 0;
                    runs.clear();
                }
                b"tc" => in_table_cell = false,
                b"tr" => {
                    if in_table_row && !row_cells.is_empty() {
                        table_rows.push(Section {
                            children: Some(row_cells.clone()),
                            ..plain_section("TableRow")
                        });
                    }
                    in_table_row = false;
                    row_cells.clear();
                }
                b"tbl" => {
                    if in_table && !table_rows.is_empty() {
                        sections.push(Section {
                            children: Some(table_rows.clone()),
                            ..plain_section("Table")
                        });
                    }
                    in_table = false;
                    table_rows.clear();
                }
                _ => {}
            },
            Ok(Event::Eof) => break,
            Err(_) => break,
            _ => {}
        }
        buf.clear();
    }
    sections
}

fn shown(section: &ContentSection) -> Section {
    let kind = match &section.section_type {
        SectionType::Heading { level } => format!("Heading({})", level),
        SectionType::Paragraph => "Paragraph".to_string(),
        SectionType::ListItem { ordered, depth } => format!("ListItem({},{})", ordered, depth),
        SectionType::Table => "Table".to_string(),
        SectionType::TableRow => "TableRow".to_string(),
        SectionType::TableCell => "TableCell".to_string(),
        SectionType::PageBreak => "PageBreak".to_string(),
        other => format!("{:?}", other),
    };
    assert!(section.properties.is_none());
    Section {
        kind,
        content: section.content.clone(),
        runs: section.runs.as_ref().map(|runs| {
            runs.iter()
                .map(|r| {
                    assert!(!r.style.superscript && !r.style.subscript);
                    assert!(r.style.color.is_none() && r.style.font_size.is_none());
                    (
                        r.text.clone(),
                        Style {
                            bold: r.style.bold,
                            italic: r.style.italic,
                            underline: r.style.underline,
                            strikethrough: r.style.strikethrough,
                            highlight: r.style.highlight.clone(),
                        },
                    )
                })
                .collect()
        }),
        children: section
            .children
            .as_ref()
            .map(|children| children.iter().map(shown).collect()),
    }
}

const BODY_TAGS: &[&str] = &[
    "w:p", "w:p", "w:r", "w:r", "w:t", "w:t", "w:pPr", "w:rPr", "w:pStyle", "w:numPr", "w:ilvl",
    "w:b", "w:i", "w:u", "w:strike", "w:highlight", "w:tbl", "w:tr", "w:tc", "w:br", "w:tab",
    "w:noBreakHyphen", "w:softHyphen", "w:cr", "w:lastRenderedPageBreak", "w:pageBreakBefore",
    "w:body", "br", "p",
];

const BODY_ATTRIBUTES: &[&str] = &[
    "",
    "",
    " w:val=\"Heading1\"",
    " w:val=\"Known\"",
    " w:val=\"Plain\"",
    " w:val=\"false\"",
    " w:val=\"0\"",
    " w:val=\"1\"",
    " w:val=\"none\"",
    " w:val=\"yellow\"",
    " w:val=\"3\"",
    " w:val=\"300\"",
    " w:type=\"page\"",
    " w:type=\"line\"",
    " w:type=\"page\" w:val=\"2\"",
    " val=\"false\" w:val=\"true\"",
];

#[test]
fn the_sections_of_documents_agree() {
    let mut numbers = Numbers(33);
    let listed = vec![
        StyleInfo { id: "Known".to_string(), name: "n".to_string(), heading_level: Some(4) },
        StyleInfo { id: "Plain".to_string(), name: "n".to_string(), heading_level: None },
        StyleInfo { id: "Heading1".to_string(), name: "n".to_string(), heading_level: Some(2) },
        StyleInfo { id: "Known".to_string(), name: "n".to_string(), heading_level: Some(5) },
    ];
    let mut by_id: HashMap<String, Option<u8>> = HashMap::new();
    for s in &listed {
        by_id.insert(s.id.clone(), s.heading_level);
    }
    let mut with_sections = 0;
    let mut with_tables = 0;
    let mut with_headings = 0;
    for round in 0..3000 {
        let xml = xml_at_random(&mut numbers, BODY_TAGS, BODY_ATTRIBUTES, TEXTS);
        let (styles, map): (Vec<StyleInfo>, HashMap<String, Option<u8>>) = if round % 2 == 0 {
            (
                listed
                    .iter()
                    .map(|s| StyleInfo {
                        id: s.id.clone(),
                        name: s.name.clone(),
                        heading_level: s.heading_level,
                    })
                    .collect(),
                by_id.clone(),
            )
        } else {
            (Vec::new(), HashMap::new())
        };
        let got: Vec<Section> = parse_document_events(&read_events(xml.as_bytes()), &styles)
            .iter()
            .map(shown)
            .collect();
        assert_eq!(got, sections_with_crate(&xml, &map), "{:?}", xml);
        if !got.is_empty() {
            with_sections += 1;
        }
        if got.iter().any(|s| s.kind == "Table") {
            with_tables += 1;
        }
        if got.iter().any(|s| s.kind.starts_with("Heading")) {
            with_headings += 1;
        }
    }
    assert!(with_sections > 300, "{}", with_sections);
    assert!(with_tables > 3, "{}", with_tables);
    assert!(with_headings > 3, "{}", with_headings);
}

// ---------------------------------------------------------------------------
// One file, one reading
// ---------------------------------------------------------------------------

#[test]
fn a_file_is_read_the_same_each_time() {
    let mut numbers = Numbers(41);
    let mut with_events = 0;
    for _ in 0..200 {
        let xml = xml_at_random(&mut numbers, BODY_TAGS, BODY_ATTRIBUTES, TEXTS);
        let once = read_events(xml.as_bytes());
        let again = read_events(xml.as_bytes());
        assert_eq!(format!("{:?}", once), format!("{:?}", again), "{:?}", xml);
        assert!(once.len() <= xml.len());
        if !once.is_empty() {
            with_events += 1;
        }
        let file = zip_of(&[
            ("word/document.xml".to_string(), xml.clone()),
            ("xl/sharedStrings.xml".to_string(), xml.clone()),
            ("ppt/slides/slide1.xml".to_string(), xml),
        ]);
        assert_eq!(extract_docx(&file), extract_docx(&file));
        assert_eq!(extract_xlsx(&file), extract_xlsx(&file));
        assert_eq!(extract_pptx(&file), extract_pptx(&file));
    }
    assert!(with_events > 100, "{}", with_events);
}
