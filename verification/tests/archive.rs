use std::io::{Cursor, Write};

use ffmpeg_caster::archive::{entry_step, extract_zip_bytes, ExtractStep, ZipEntry};
use ffmpeg_caster::error::Error;
use zip::write::FileOptions;
use zip::{CompressionMethod, ZipWriter};

fn shown(step: ExtractStep) -> String {
    match step {
        ExtractStep::MakeDir(name) => format!("dir {name}"),
        ExtractStep::WriteFile(name, read, None, mode) => {
            format!("file {name} {} {mode:?}", String::from_utf8_lossy(&read))
        }
        ExtractStep::WriteFile(name, read, Some(e), _) => {
            format!("file {name} {}, then: {e}", String::from_utf8_lossy(&read))
        }
    }
}

fn extract(bytes: &[u8]) -> (Result<(), Error>, Vec<String>) {
    let (steps, result) = extract_zip_bytes(
        bytes,
        Vec::new(),
        |mut steps: Vec<String>, step: ExtractStep| {
            let outcome = match &step {
                ExtractStep::WriteFile(_, _, Some(e), _) => Err(Error::new(e)),
                _ => Ok(()),
            };
            steps.push(shown(step));
            (steps, outcome)
        },
    );
    (result, steps)
}

fn sample() -> Vec<u8> {
    let mut zip = ZipWriter::new(Cursor::new(Vec::new()));
    let stored = FileOptions::default().compression_method(CompressionMethod::Stored);
    let deflated = FileOptions::default()
        .compression_method(CompressionMethod::Deflated)
        .unix_permissions(0o755);
    zip.add_directory("bin/", stored).unwrap();
    zip.start_file("bin/ffmpeg", deflated).unwrap();
    zip.write_all("abc".repeat(100).as_bytes()).unwrap();
    zip.start_file("../evil", stored).unwrap();
    zip.write_all(b"no").unwrap();
    zip.start_file("/etc/evil", stored).unwrap();
    zip.write_all(b"no").unwrap();
    zip.start_file("a/../b.txt", stored).unwrap();
    zip.write_all(b"hello").unwrap();
    zip.finish().unwrap().into_inner()
}

#[test]
fn archives_are_extracted_in_order() {
    let (result, steps) = extract(&sample());
    assert!(result.is_ok());
    assert_eq!(
        steps,
        vec![
            "dir bin/".to_string(),
            format!("file bin/ffmpeg {} Some(33261)", "abc".repeat(100)),
            "file a/../b.txt hello Some(33188)".to_string(),
        ]
    );
}

#[test]
fn bytes_that_are_no_archive() {
    let (result, steps) = extract(b"this is no archive");
    assert_eq!(
        result.unwrap_err().message,
        "failed to read zip: invalid Zip archive: Invalid zip header"
    );
    assert!(steps.is_empty());
    let (result, _) = extract(&[0; 100]);
    assert_eq!(
        result.unwrap_err().message,
        "failed to read zip: invalid Zip archive: Could not find central directory end"
    );
}

#[test]
fn an_empty_archive() {
    let bytes = ZipWriter::new(Cursor::new(Vec::new()))
        .finish()
        .unwrap()
        .into_inner();
    let (result, steps) = extract(&bytes);
    assert!(result.is_ok());
    assert!(steps.is_empty());
}

#[test]
fn extraction_ends_at_the_first_failure() {
    let (steps, result) = extract_zip_bytes(&sample(), 0, |steps: i32, _: ExtractStep| {
        let outcome = if steps == 1 {
            Err(Error::new("disk full"))
        } else {
            Ok(())
        };
        (steps + 1, outcome)
    });
    assert_eq!(result.unwrap_err().message, "disk full");
    assert_eq!(steps, 2);
}

/// An archive of one stored entry, with these flags and this extra field.
fn one_entry(name: &str, flags: u16, extra: &[u8], content: &[u8], crc: u32) -> Vec<u8> {
    let mut fields = Vec::new();
    fields.extend_from_slice(&20u16.to_le_bytes());
    fields.extend_from_slice(&flags.to_le_bytes());
    fields.extend_from_slice(&[0; 6]);
    fields.extend_from_slice(&crc.to_le_bytes());
    fields.extend_from_slice(&(content.len() as u32).to_le_bytes());
    fields.extend_from_slice(&(content.len() as u32).to_le_bytes());
    fields.extend_from_slice(&(name.len() as u16).to_le_bytes());
    let mut zip = b"PK\x03\x04".to_vec();
    zip.extend_from_slice(&fields);
    zip.extend_from_slice(&0u16.to_le_bytes());
    zip.extend_from_slice(name.as_bytes());
    zip.extend_from_slice(content);
    let directory = zip.len() as u32;
    zip.extend_from_slice(b"PK\x01\x02");
    zip.extend_from_slice(&20u16.to_le_bytes());
    zip.extend_from_slice(&fields);
    zip.extend_from_slice(&(extra.len() as u16).to_le_bytes());
    zip.extend_from_slice(&[0; 14]);
    zip.extend_from_slice(name.as_bytes());
    zip.extend_from_slice(extra);
    let size = zip.len() as u32 - directory;
    zip.extend_from_slice(b"PK\x05\x06\0\0\0\0\x01\0\x01\0");
    zip.extend_from_slice(&size.to_le_bytes());
    zip.extend_from_slice(&directory.to_le_bytes());
    zip.extend_from_slice(&0u16.to_le_bytes());
    zip
}

#[test]
fn encrypted_entries_are_not_read() {
    let message = "failed to read zip entry 0: unsupported Zip archive: Password required to \
                   decrypt file";
    for content in [&b"short"[..], &[7; 20], &[200; 64]] {
        let (result, steps) = extract(&one_entry("x", 1, &[], content, 5));
        assert_eq!(result.unwrap_err().message, message);
        assert!(steps.is_empty());
    }
    // Described as encrypted in the extra field only.
    let aes = [0x01, 0x99, 7, 0, 2, 0, 0x41, 0x45, 3, 0, 0];
    let (result, _) = extract(&one_entry("x", 0, &aes, b"content", 0));
    assert_eq!(result.unwrap_err().message, message);
}

#[test]
fn a_wrong_checksum_ends_the_extraction() {
    let (result, steps) = extract(&one_entry("x", 0, &[], b"content", 1));
    assert_eq!(result.unwrap_err().message, "Invalid checksum");
    assert_eq!(steps, vec!["file x content, then: Invalid checksum"]);
    let (result, steps) = extract(&one_entry("empty", 0, &[], b"", 0));
    assert!(result.is_ok());
    assert_eq!(steps, vec!["file empty  None"]);
}

#[test]
fn entries_come_to_steps() {
    let entry = |name: &str, enclosed| {
        Ok(ZipEntry {
            name: name.to_string(),
            enclosed,
            mode: Some(0o644),
            read: vec![65],
            failure: None,
        })
    };
    assert_eq!(
        shown(entry_step(entry("f", true), 3).unwrap().unwrap()),
        "file f A Some(420)"
    );
    assert_eq!(
        shown(entry_step(entry("d/", true), 3).unwrap().unwrap()),
        "dir d/"
    );
    assert!(entry_step(entry("f", false), 3).unwrap().is_none());
    assert_eq!(
        entry_step(Err("odd".to_string()), 12).unwrap_err().message,
        "failed to read zip entry 12: odd"
    );
}

/// Whether an entry of this name is stored.
fn is_stored(name: &str) -> bool {
    let (result, steps) = extract(&one_entry(name, 0, &[], b"", 0));
    assert!(result.is_ok());
    !steps.is_empty()
}

#[test]
fn names_that_leave_the_directory_are_passed_over() {
    for name in ["", "a", "a/b", "a/", ".", "./a", "a//b", "a/..", "a/../b", "a/b/../..", "...", "a..b"] {
        assert!(is_stored(name), "{name}");
    }
    for name in ["/", "/a", "//a", "..", "../a", "a/../..", "a/../../b", "./..", "a\0b", "a//../.."] {
        assert!(!is_stored(name), "{name}");
    }
}
