use std::io::Write;
use tunnelclient::layout_zip::{extract_layout_xml, ExtractError};

/// Build a `.touchosc`-shaped container holding one named entry.
fn container(entry_name: &str, content: &[u8]) -> Vec<u8> {
    let mut writer = zip::ZipWriter::new(std::io::Cursor::new(Vec::new()));
    let options = zip::write::SimpleFileOptions::default()
        .compression_method(zip::CompressionMethod::Deflated);
    writer.start_file(entry_name, options).unwrap();
    writer.write_all(content).unwrap();
    writer.finish().unwrap().into_inner()
}

#[test]
fn extraction_recovers_the_document_and_names_what_went_wrong() {
    let xml = b"<layout version=\"18\"><tabpage/></layout>";
    assert_eq!(extract_layout_xml(&container("index.xml", xml)).unwrap(), xml);

    let err = extract_layout_xml(b"not a zip at all").unwrap_err();
    assert_eq!(err, ExtractError::NotZip);
    assert!(err.message().contains("not a valid ZIP archive"), "got: {}", err.message());

    let err = extract_layout_xml(&container("layout.xml", xml)).unwrap_err();
    assert_eq!(err, ExtractError::NoIndex);
    assert!(err.message().contains("no index.xml"), "got: {}", err.message());
}

#[test]
fn a_damaged_entry_is_reported_as_failing_to_decompress() {
    let xml = b"<layout version=\"18\"><tabpage/><tabpage/><tabpage/></layout>";
    let mut bytes = container("index.xml", xml);
    // Flip a byte in the compressed data, just past the local header and
    // the entry's name.
    let at = 30 + "index.xml".len() + 2;
    bytes[at] ^= 0xff;
    match extract_layout_xml(&bytes) {
        Err(ExtractError::Decompress) => {}
        other => panic!("a damaged entry came back as {other:?}"),
    }
    assert_eq!(ExtractError::Decompress.message(), "failed to decompress index.xml");
}
