use std::io::Write;

use stellatune_plugins::zip::{extract_zip, ExtractStep};

/// An archive entry to write: its name, and its bytes with the method and the
/// data as stored (`None` for a directory).
struct Item {
    name: rawzip::path::EntryPath<'static>,
    file: Option<(rawzip::CompressionMethod, Vec<u8>)>,
}

fn file(name: &str, method: rawzip::CompressionMethod, stored: Vec<u8>) -> Item {
    Item { name: rawzip::path::EntryPath::conformant(name.to_string()), file: Some((method, stored)) }
}

fn archive_of(items: Vec<Item>) -> Vec<u8> {
    let mut output = Vec::new();
    let mut archive = rawzip::ZipArchiveWriter::new(&mut output);
    for item in items {
        match item.file {
            None => {
                archive.new_dir(item.name).create().expect("dir entry");
            },
            Some((method, stored)) => {
                let (mut entry, config) =
                    archive.new_file(item.name).compression_method(method).start().expect("file entry");
                let mut writer = config.wrap(&mut entry);
                writer.write_all(&stored).expect("entry data");
                let (_, descriptor) = writer.finish().expect("entry end");
                entry.finish(descriptor).expect("entry finish");
            },
        }
    }
    archive.finish().expect("archive finish");
    output
}

fn deflated(data: &[u8]) -> Vec<u8> {
    let mut encoder = flate2::write::DeflateEncoder::new(Vec::new(), flate2::Compression::default());
    encoder.write_all(data).expect("deflate");
    encoder.finish().expect("deflate end")
}

fn describe(step: &ExtractStep) -> (bool, String, Vec<u8>) {
    match step {
        ExtractStep::CreateDir { path } => (true, path.clone(), Vec::new()),
        ExtractStep::WriteFile { path, bytes } => (false, path.clone(), bytes.clone()),
    }
}

#[test]
fn archive_entries_become_directories_and_files() {
    let text = b"hello plugin, hello plugin, hello plugin".to_vec();
    let bytes = archive_of(vec![
        Item { name: rawzip::path::EntryPath::conformant("lib/".to_string()), file: None },
        file("lib/a.txt", rawzip::CompressionMethod::STORE, b"stored".to_vec()),
        file("b.txt", rawzip::CompressionMethod::DEFLATE, deflated(&text)),
    ]);
    let extraction = extract_zip(&bytes, "/out", false);
    assert_eq!(extraction.result, Ok(()));
    let steps: Vec<(bool, String, Vec<u8>)> = extraction.steps.iter().map(describe).collect();
    assert_eq!(
        steps,
        vec![
            (true, "/out/lib/".to_string(), Vec::new()),
            (false, "/out/lib/a.txt".to_string(), b"stored".to_vec()),
            (false, "/out/b.txt".to_string(), text),
        ]
    );
    let windows = extract_zip(&bytes, "C:\\out", true);
    assert_eq!(describe(&windows.steps[1]).1, "C:\\out\\lib/a.txt");
}

#[test]
fn unsupported_method_stops_after_the_entries_before_it() {
    let bytes = archive_of(vec![
        file("a.txt", rawzip::CompressionMethod::STORE, b"a".to_vec()),
        file("b.bz2", rawzip::CompressionMethod::BZIP2, b"raw".to_vec()),
        file("c.txt", rawzip::CompressionMethod::STORE, b"c".to_vec()),
    ]);
    let extraction = extract_zip(&bytes, "/out", false);
    assert_eq!(extraction.steps.len(), 1);
    assert_eq!(extraction.result, Err("unsupported compression method: CompressionMethod::BZIP2".to_string()));
    let odd = archive_of(vec![file("d.bin", rawzip::CompressionMethod::new(77), b"d".to_vec())]);
    assert_eq!(
        extract_zip(&odd, "/out", false).result,
        Err("unsupported compression method: CompressionMethod(77)".to_string())
    );
}

#[test]
fn broken_deflate_data_names_the_entry() {
    let bytes = archive_of(vec![file("b.bin", rawzip::CompressionMethod::DEFLATE, vec![0xff, 0xff, 0xff, 0xff])]);
    let extraction = extract_zip(&bytes, "/out", false);
    assert!(extraction.steps.is_empty());
    let message = extraction.result.err().expect("broken deflate data");
    assert!(message.starts_with("extract (deflate) b.bin to /out/b.bin: "), "{message}");
}

#[test]
fn names_that_are_not_utf8_do_not_normalize() {
    let bytes = archive_of(vec![Item {
        name: rawzip::path::EntryPath::verbatim(vec![0xffu8, b'a']),
        file: Some((rawzip::CompressionMethod::STORE, b"x".to_vec())),
    }]);
    let message = extract_zip(&bytes, "/out", false).result.err().expect("bad name");
    assert!(message.starts_with("failed to normalize zip path: "), "{message}");
}

#[test]
fn names_are_normalized_before_they_are_joined() {
    let bytes = archive_of(vec![Item {
        name: rawzip::path::EntryPath::verbatim(b"../up/./x.txt".to_vec()),
        file: Some((rawzip::CompressionMethod::STORE, b"x".to_vec())),
    }]);
    let extraction = extract_zip(&bytes, "/out", false);
    assert_eq!(extraction.result, Ok(()));
    assert_eq!(describe(&extraction.steps[0]).1, "/out/up/x.txt");
}

#[test]
fn bytes_that_are_not_an_archive_are_refused() {
    let extraction = extract_zip(b"not a zip archive", "/out", false);
    assert!(extraction.steps.is_empty());
    let message = extraction.result.err().expect("not an archive");
    assert!(message.starts_with("invalid zip archive: "), "{message}");
}
