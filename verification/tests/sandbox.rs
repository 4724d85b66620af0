use sigil_frontend_emp::eval::sandbox::{
    embed_count, embed_slice, import_format, resolve_from_parts, resolve_sandbox_path, walk_components, CaptureLedger,
    ImportFormat, PathPart, SandboxError,
};

#[test]
fn record_capture_appends_one_edge() {
    let mut ev = CaptureLedger::new();
    assert!(ev.captures.is_empty());
    let path = "some/file.bin";
    ev.record_capture(path, b"hello");
    assert_eq!(ev.captures.len(), 1);
    let edge = &ev.captures[0];
    assert_eq!(edge.path, path);
    assert_eq!(edge.len, 5);
    // SHA-256("hello"), a fixed known digest.
    assert_eq!(
        edge.hash,
        [
            0x2c, 0xf2, 0x4d, 0xba, 0x5f, 0xb0, 0xa3, 0x0e, 0x26, 0xe8, 0x3b, 0x2a, 0xc5, 0xb9,
            0xe2, 0x9e, 0x1b, 0x16, 0x1e, 0x5c, 0x1f, 0xa7, 0x42, 0x5e, 0x73, 0x04, 0x33, 0x62,
            0x93, 0x8b, 0x98, 0x24,
        ]
    );
}

#[test]
fn the_ledger_only_appends() {
    let mut ev = CaptureLedger::new();
    ev.record_capture("a.bin", b"");
    ev.record_capture("b.bin", b"abc");
    assert_eq!(ev.captures.len(), 2);
    assert_eq!(ev.captures[0].path, "a.bin");
    assert_eq!(ev.captures[0].len, 0);
    // SHA-256 of the empty string.
    assert_eq!(ev.captures[0].hash[..4], [0xe3, 0xb0, 0xc4, 0x42]);
    assert_eq!(ev.captures[1].path, "b.bin");
    assert_eq!(ev.captures[1].len, 3);
    assert_eq!(ev.captures[1].hash[..4], [0xba, 0x78, 0x16, 0xbf]);
}

#[test]
fn resolve_sandbox_path_without_root_errors() {
    let got = resolve_sandbox_path(None, "x.bin");
    assert!(got.is_err());
    assert!(got.unwrap_err().message().contains("[sandbox.no-root]"));
}

#[test]
fn resolve_sandbox_path_rejects_absolute() {
    let got = resolve_sandbox_path(Some("/tmp"), "/etc/passwd");
    assert!(got.is_err());
    assert!(got.unwrap_err().message().contains("[sandbox.path-escape]"));
}

#[test]
fn resolve_sandbox_path_rejects_dotdot_escape() {
    let got = resolve_sandbox_path(Some("/tmp"), "../etc/passwd");
    assert!(got.is_err());
    assert!(got.unwrap_err().message().contains("[sandbox.path-escape]"));
}

#[test]
fn relative_paths_resolve_lexically_below_the_root() {
    assert_eq!(
        resolve_sandbox_path(Some("/src"), "art/./tiles//a.bin"),
        Ok(vec!["art".to_string(), "tiles".to_string(), "a.bin".to_string()])
    );
    assert_eq!(
        resolve_sandbox_path(Some("/src"), "art/../b.bin"),
        Ok(vec!["b.bin".to_string()])
    );
    assert_eq!(
        resolve_sandbox_path(Some("/src"), "art/../../b.bin"),
        Err(SandboxError::PathEscape)
    );
    assert_eq!(resolve_sandbox_path(Some("/src"), "."), Ok(vec![]));
}

#[test]
fn the_walk_refuses_exactly_a_climb_above_the_root() {
    let n = |s: &str| PathPart::Normal(s.to_string());
    assert_eq!(
        walk_components(&[n("a"), PathPart::ParentDir, n("b"), PathPart::CurDir]),
        Ok(vec!["b".to_string()])
    );
    assert_eq!(
        walk_components(&[n("a"), PathPart::ParentDir, PathPart::ParentDir, n("b"), n("c")]),
        Err(SandboxError::PathEscape)
    );
    assert_eq!(walk_components(&[]), Ok(vec![]));
}

#[test]
fn embed_keeps_the_requested_slice() {
    let file: Vec<u8> = (0..10u8).collect();
    assert_eq!(embed_slice(&file, 0, None), Ok(file.clone()));
    assert_eq!(embed_slice(&file, 3, None), Ok(vec![3, 4, 5, 6, 7, 8, 9]));
    assert_eq!(embed_slice(&file, 3, Some(2)), Ok(vec![3, 4]));
    assert_eq!(embed_slice(&file, 10, None), Ok(vec![]));
    assert_eq!(embed_slice(&file, 4, Some(6)), Ok(vec![4, 5, 6, 7, 8, 9]));
    assert_eq!(
        embed_slice(&file, 11, None),
        Err("[embed.range] embed skip=11 exceeds file length 10".to_string())
    );
    assert_eq!(
        embed_slice(&file, 4, Some(7)),
        Err("[embed.range] embed slice skip=4 len=7 exceeds file length 10".to_string())
    );
    assert_eq!(
        embed_slice(&file, 0, Some(u64::MAX)),
        Err(format!("[embed.range] embed slice skip=0 len={} exceeds file length 10", u64::MAX))
    );
    let mut whole = embed_slice(&file, 0, Some(4)).unwrap();
    whole.extend(embed_slice(&file, 4, None).unwrap());
    assert_eq!(whole, file);
}

#[test]
fn embed_counts_fit_u64() {
    assert_eq!(embed_count("skip", 0), Ok(0));
    assert_eq!(embed_count("len", u64::MAX as i128), Ok(u64::MAX));
    assert_eq!(
        embed_count("skip", -1),
        Err("`skip` must be a non-negative value that fits u64, got -1".to_string())
    );
    assert_eq!(
        embed_count("len", u64::MAX as i128 + 1),
        Err("`len` must be a non-negative value that fits u64, got 18446744073709551616".to_string())
    );
}

#[test]
fn import_format_by_extension_ignoring_case() {
    assert_eq!(import_format(Some("json")), Ok(ImportFormat::Json));
    assert_eq!(import_format(Some("JSON")), Ok(ImportFormat::Json));
    assert_eq!(import_format(Some("Toml")), Ok(ImportFormat::Toml));
    let refused = Err("[import.format] import needs a .json or .toml file".to_string());
    assert_eq!(import_format(Some("yaml")), refused);
    assert_eq!(import_format(Some("jsonl")), refused);
    assert_eq!(import_format(Some("")), refused);
    assert_eq!(import_format(None), refused);
}

#[test]
fn resolution_from_parts_refuses_absolute_and_climbing_paths() {
    let parts = vec![PathPart::Normal("a".into()), PathPart::ParentDir, PathPart::Normal("b".into())];
    assert_eq!(resolve_from_parts(false, &parts), Ok(vec!["b".to_string()]));
    assert_eq!(resolve_from_parts(true, &parts), Err(SandboxError::PathEscape));
    assert_eq!(resolve_from_parts(false, &[PathPart::ParentDir]), Err(SandboxError::PathEscape));
}

#[test]
fn a_simple_file_name_resolves_to_itself() {
    assert_eq!(resolve_sandbox_path(Some("/src"), "x.bin"), Ok(vec!["x.bin".to_string()]));
}
