use std::io::Write;

use frpc_client_app::archive::extract_from_tar_gz;
use frpc_client_app::archive::extract_from_zip;
use frpc_client_app::archive::extract_runtime_candidate_from_bytes;
use frpc_client_app::archive::find_tar_entry;
use frpc_client_app::archive::is_wanted;
use frpc_client_app::archive::ListedEntry;
use frpc_client_app::error::AppError;

fn zip_of(entries: &[(&str, &[u8])]) -> Vec<u8> {
    let mut writer = zip::ZipWriter::new(std::io::Cursor::new(Vec::new()));
    for (name, data) in entries {
        writer
            .start_file(*name, zip::write::SimpleFileOptions::default())
            .expect("an entry");
        writer.write_all(data).expect("its data");
    }
    writer.finish().expect("an archive").into_inner()
}

fn tar_gz_of(entries: &[(&str, &[u8])]) -> Vec<u8> {
    let encoder = flate2::write::GzEncoder::new(Vec::new(), flate2::Compression::default());
    let mut builder = tar::Builder::new(encoder);
    for (name, data) in entries {
        let mut header = tar::Header::new_gnu();
        header.set_size(data.len() as u64);
        header.set_mode(0o755);
        builder.append_data(&mut header, name, *data).expect("an entry");
    }
    builder.into_inner().expect("an archive").finish().expect("compressed")
}

#[test]
fn the_executable_is_taken_out_of_a_zip_archive() {
    let bytes = zip_of(&[
        ("frp_1/LICENSE", b"text"),
        ("frp_1/FRPC.exe", b"windows binary"),
        ("frp_1/frpc.exe", b"second"),
        ("frp_1/frpc", b"unix binary"),
    ]);
    assert_eq!(extract_from_zip(&bytes, "windows-x64").expect("found"), b"windows binary");
    assert_eq!(extract_from_zip(&bytes, "darwin-x64").expect("found"), b"unix binary");
    match extract_from_zip(&zip_of(&[("frps", b"x")]), "darwin-arm64") {
        Err(e) => assert_eq!(e.message(), "版本包中没有找到 frpc"),
        Ok(_) => panic!("not there"),
    }
    assert!(matches!(extract_from_zip(b"no archive", "darwin-x64"), Err(AppError::UnreadableZip)));
}

#[test]
fn a_directory_is_passed_over_by_its_name() {
    let mut writer = zip::ZipWriter::new(std::io::Cursor::new(Vec::new()));
    let options = zip::write::SimpleFileOptions::default();
    writer.add_directory("frpc_tools/", options).expect("a directory");
    writer.start_file("frpc_tools/frpc", options).expect("an entry");
    writer.write_all(b"binary").expect("its data");
    let bytes = writer.finish().expect("an archive").into_inner();
    assert_eq!(extract_from_zip(&bytes, "darwin-x64").expect("found"), b"binary");

    let bytes = tar_gz_of(&[("frp_1/", b""), ("frp_1/frpc", b"binary")]);
    assert_eq!(extract_from_tar_gz(&bytes, "darwin-x64").expect("found"), b"binary");
}

#[test]
fn a_damaged_zip_entry_cannot_be_extracted() {
    let data = [7u8; 64];
    let mut writer = zip::ZipWriter::new(std::io::Cursor::new(Vec::new()));
    let options = zip::write::SimpleFileOptions::default()
        .compression_method(zip::CompressionMethod::Stored);
    writer.start_file("frpc", options).expect("an entry");
    writer.write_all(&data).expect("its data");
    let mut bytes = writer.finish().expect("an archive").into_inner();
    let at = bytes.windows(64).position(|w| w == data).expect("stored");
    bytes[at] = 8;
    assert!(matches!(extract_from_zip(&bytes, "darwin-x64"), Err(AppError::ExtractionFailed)));
    // A local header without its signature cannot be opened.
    bytes[0] = 0;
    assert!(matches!(extract_from_zip(&bytes, "darwin-x64"), Err(AppError::UnreadableZipEntry)));
}

#[test]
fn the_executable_is_taken_out_of_a_tar_archive() {
    let bytes = tar_gz_of(&[
        ("frp_1/LICENSE", b"text"),
        ("frp_1/frpc", b"unix binary"),
        ("frp_1/frpc.exe", b"windows binary"),
    ]);
    assert_eq!(extract_from_tar_gz(&bytes, "darwin-arm64").expect("found"), b"unix binary");
    assert_eq!(extract_from_tar_gz(&bytes, "windows-x64").expect("found"), b"windows binary");
    match extract_from_tar_gz(&tar_gz_of(&[("frps", b"x")]), "windows-x64") {
        Err(e) => assert_eq!(e.message(), "版本包中没有找到 frpc.exe"),
        Ok(_) => panic!("not there"),
    }
    assert!(matches!(
        extract_from_tar_gz(b"no archive", "darwin-x64"),
        Err(AppError::UnreadableTarEntry)
    ));
}

#[test]
fn a_truncated_tar_archive_cannot_be_extracted() {
    let encoder = flate2::write::GzEncoder::new(Vec::new(), flate2::Compression::default());
    let mut builder = tar::Builder::new(encoder);
    let mut header = tar::Header::new_gnu();
    header.set_path("frpc").expect("a path");
    header.set_size(5000);
    header.set_cksum();
    builder.append(&header, std::io::empty()).expect("an entry");
    let bytes = builder.into_inner().expect("an archive").finish().expect("compressed");
    let cut = &bytes[..bytes.len() - 6];
    assert!(matches!(extract_from_tar_gz(cut, "darwin-x64"), Err(AppError::ExtractionFailed)));
}

#[test]
fn the_search_stops_at_the_first_hit_or_fault() {
    let named = |name: &str| ListedEntry::Named(Some(name.to_string()));
    let entries = vec![named("a"), ListedEntry::Named(None), named("FrPc"), ListedEntry::Unreadable];
    assert_eq!(find_tar_entry(&entries, "frpc").expect("found"), 2);
    let entries = vec![named("a"), ListedEntry::Unreadable, named("frpc")];
    assert!(matches!(find_tar_entry(&entries, "frpc"), Err(AppError::UnreadableTarEntry)));
    let entries = vec![ListedEntry::PathUnreadable, named("frpc")];
    match find_tar_entry(&entries, "frpc") {
        Err(e) => assert_eq!(e.message(), "读取 tar.gz 条目路径失败"),
        Ok(_) => panic!("a fault comes first"),
    }
    assert!(matches!(find_tar_entry(&vec![], "frpc"), Err(AppError::BinaryNotInArchive(_))));
    assert!(is_wanted(&Some("FRPC.EXE".to_string()), "frpc.exe"));
    assert!(!is_wanted(&None, "frpc"));
}

#[test]
fn a_candidate_carries_what_its_archive_tells() {
    let bytes = zip_of(&[("frp/frpc.exe", b"binary")]);
    let candidate =
        extract_runtime_candidate_from_bytes("frp_0.67.0_windows_amd64.zip", &bytes).expect("a runtime");
    assert_eq!(candidate.version, "v0.67.0");
    assert_eq!(candidate.platform, "windows-x64");
    assert_eq!(candidate.archive_name, "frp_0.67.0_windows_amd64.zip");
    assert_eq!(candidate.binary_bytes, b"binary");

    let bytes = tar_gz_of(&[("frp/frpc", b"binary")]);
    for name in ["frp_1_darwin_arm64.tar.gz", "frp_1_darwin_arm64.tgz"] {
        let candidate = extract_runtime_candidate_from_bytes(name, &bytes).expect("a runtime");
        assert_eq!(candidate.platform, "darwin-arm64");
        assert_eq!(candidate.binary_bytes, b"binary");
    }
}

#[test]
fn a_candidate_needs_a_release_name_and_a_known_file_type() {
    assert!(matches!(
        extract_runtime_candidate_from_bytes("other.zip", b""),
        Err(AppError::ArchiveNameFormat(_))
    ));
    assert!(matches!(
        extract_runtime_candidate_from_bytes("frp_1_linux_amd64.zip", b""),
        Err(AppError::UnsupportedPlatform)
    ));
    match extract_runtime_candidate_from_bytes("frp_1_darwin_amd64", b"") {
        Err(e) => assert_eq!(e.message(), "仅支持 .tar.gz、.tgz、.zip 版本包"),
        Ok(_) => panic!("no known type"),
    }
}
