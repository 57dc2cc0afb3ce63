use mdfs_compiler::checkpoints::compute_mss_checkpoints;
use mdfs_compiler::{
    compile_parsed, compile_str, compile_str_with_manifest, default_output_path, parse_mdfs,
    resources_from_entries, CompileError, CompileErrorKind, ErrorCode, ManifestFile, RevSpec,
};

const HEAD: &str = "@title T\n@artist A\n@version 2.2\n";

fn err(src: &str) -> CompileError {
    compile_str(src).unwrap_err()
}

fn body_err(body: &str) -> CompileError {
    err(&format!("{HEAD}track: |\n  @bpm 120\n  @div 4\n{body}"))
}

#[test]
fn display_form_is_code_message_line() {
    let e = body_err("  ..X.....\n");
    assert_eq!(
        e.to_display_string(),
        "E4001: undefined step char (lane=2, char='X', context=..X.....) (line 7)"
    );
}

#[test]
fn kinds_follow_codes() {
    assert_eq!(CompileErrorKind::from_code(ErrorCode::E1004), CompileErrorKind::Parse);
    assert_eq!(CompileErrorKind::from_code(ErrorCode::E3204), CompileErrorKind::Parse);
    assert_eq!(CompileErrorKind::from_code(ErrorCode::E2004), CompileErrorKind::IO);
    assert_eq!(CompileErrorKind::from_code(ErrorCode::E4201), CompileErrorKind::Semantic);
    assert_eq!(CompileErrorKind::from_code(ErrorCode::E3003), CompileErrorKind::TimeMap);
    assert_eq!(CompileErrorKind::from_code(ErrorCode::E4102), CompileErrorKind::Validation);
    assert_eq!(ErrorCode::E3201.as_str(), "E3201");
}

#[test]
fn builders_set_their_field() {
    let e = body_err("  ...\n")
        .with_file("in.mdfs".to_string())
        .with_column(3)
        .with_step_index(4)
        .with_lane(5)
        .with_time_us(6)
        .with_context("ctx".to_string());
    assert_eq!(e.file.as_deref(), Some("in.mdfs"));
    assert_eq!(e.column, Some(3));
    assert_eq!(e.step_index, Some(4));
    assert_eq!(e.lane, Some(5));
    assert_eq!(e.time_us, Some(6));
    assert_eq!(e.context.as_deref(), Some("ctx"));
    assert_eq!(e.code, "E1101");
}

#[test]
fn content_before_track_is_e1101_at_its_line() {
    let e = err("@title T\nhello\ntrack: |\n");
    assert_eq!(e.code, "E1101");
    assert_eq!(e.line, 2);
    let m = err("@title T\n");
    assert_eq!(m.line, 0);
}

#[test]
fn unknown_header_directive_is_e1006() {
    let e = err("@title T\n@genre x\ntrack: |\n");
    assert_eq!(e.code, "E1006");
    assert_eq!(e.line, 2);
}

#[test]
fn header_directive_in_track_body_is_e1006() {
    let e = err(&format!("{HEAD}track: |\n  @title X\n"));
    assert_eq!(e.code, "E1006");
    assert_eq!(e.line, 5);
}

#[test]
fn empty_tag_is_e3204() {
    let e = err("@tags a,,b\ntrack: |\n");
    assert_eq!(e.code, "E3204");
    assert_eq!(e.kind, CompileErrorKind::Parse);
}

#[test]
fn empty_manifest_path_is_e2001() {
    let e = err("@sound_manifest\ntrack: |\n");
    assert_eq!(e.code, "E2001");
    assert_eq!(e.line, 1);
}

#[test]
fn manifest_without_base_dir_is_e2001() {
    let e = err(&format!("{HEAD}@sound_manifest s.json\ntrack: |\n"));
    assert_eq!(e.code, "E2001");
    assert_eq!(e.kind, CompileErrorKind::IO);
    assert_eq!(e.line, 4);
}

#[test]
fn manifest_that_is_not_an_object_is_e2003() {
    let src = format!("{HEAD}@sound_manifest s.json\ntrack: |\n");
    assert_eq!(compile_str_with_manifest(&src, b"[1,2]".to_vec()).unwrap_err().code, "E2003");
    assert_eq!(compile_str_with_manifest(&src, br#"{"K":1}"#.to_vec()).unwrap_err().code, "E2003");
    assert_eq!(compile_str_with_manifest(&src, br#"{" ":"a"}"#.to_vec()).unwrap_err().code, "E2003");
    assert_eq!(compile_str_with_manifest(&src, b"{".to_vec()).unwrap_err().code, "E2002");
}

#[test]
fn manifest_entries_are_checked() {
    let e = resources_from_entries(Err("bad".to_string()), 9).unwrap_err();
    assert_eq!(e.code, "E2002");
    assert_eq!(e.line, 9);
    assert!(e.message.contains("bad"));
    assert_eq!(resources_from_entries(Ok(None), 2).unwrap_err().code, "E2003");
    let blank = vec![("K".to_string(), Some("  ".to_string()))];
    assert_eq!(resources_from_entries(Ok(Some(blank)), 2).unwrap_err().code, "E2003");
    let missing = vec![("K".to_string(), None)];
    assert_eq!(resources_from_entries(Ok(Some(missing)), 2).unwrap_err().code, "E2003");
    let good = vec![("K".to_string(), Some("k.wav".to_string()))];
    let r = resources_from_entries(Ok(Some(good)), 2).unwrap();
    assert_eq!(r.get("K").as_deref(), Some("k.wav"));
}

#[test]
fn invalid_bpm_is_e3003() {
    for v in ["0", "abc", "-5", "0.0", ".", "1e3", "1.2.3", ""] {
        let e = err(&format!("{HEAD}track: |\n  @bpm {v}\n"));
        assert_eq!(e.code, "E3003", "bpm {v}");
        assert_eq!(e.line, 5);
    }
}

#[test]
fn invalid_div_is_e3004() {
    for v in ["0", "-1", "x", "4.5", "4294967296"] {
        let e = err(&format!("{HEAD}track: |\n  @div {v}\n"));
        assert_eq!(e.code, "E3004", "div {v}");
    }
}

#[test]
fn missing_metadata_is_reported_at_track_line() {
    let e = err("@artist A\n@version 1\n\ntrack: |\n");
    assert_eq!(e.code, "E3201");
    assert_eq!(e.line, 4);
    assert_eq!(err("@title T\n@version 1\ntrack: |\n").code, "E3202");
    assert_eq!(err("@title T\n@artist A\ntrack: |\n").code, "E3203");
}

#[test]
fn rev_spec_errors() {
    assert_eq!(body_err("  m....... @rev_every x\n").code, "E1005");
    assert_eq!(body_err("  m....... @rev_every 0\n").code, "E1005");
    assert_eq!(body_err("  m....... @rev_at\n").code, "E1004");
    assert_eq!(body_err("  m....... @rev_at 1\n").code, "E1004");
    assert_eq!(body_err("  m....... @rev_at 2,,3\n").code, "E1004");
    let e = body_err("  ..N..... K01\n");
    assert_eq!(e.code, "E1006");
    assert_eq!(e.context.as_deref(), Some("..N..... K01"));
}

#[test]
fn unclosed_sound_list_is_e1001() {
    assert_eq!(body_err("  ..N..... : [K01\n").code, "E1001");
}

#[test]
fn hold_kind_mismatch_is_e4101() {
    let e = body_err("  .l......\n  .h......\n");
    assert_eq!(e.code, "E4101");
    assert_eq!(e.line, 8);
    assert_eq!(body_err("  b.......\n  B.......\n").code, "E4101");
    assert_eq!(body_err("  m.......\n  M.......\n").code, "E4101");
    assert_eq!(body_err("  b.......\n  m.......\n").code, "E4101");
}

#[test]
fn bang_on_key_lane_is_e4003_and_hold_char_on_scratch_is_e4001() {
    assert_eq!(body_err("  ...!....\n").code, "E4003");
    assert_eq!(body_err("  h.......\n").code, "E4001");
    assert_eq!(body_err("  ......B.\n").code, "E4002");
}

#[test]
fn parse_keeps_track_lines_in_order() {
    let p = parse_mdfs(&format!("{HEAD}@tags a\n@sound_manifest s.json\ntrack: |\n  @bpm 120\n  ..N.....\n")).unwrap();
    assert_eq!(p.meta_line, 6);
    assert_eq!(p.track.len(), 2);
    assert_eq!(p.meta.sound_manifest.as_deref(), Some("s.json"));
    assert_eq!(p.meta.sound_manifest_line, Some(5));
}

#[test]
fn output_path_replaces_extension() {
    assert_eq!(default_output_path("song.mdfs"), "song.mdf.json");
    assert_eq!(default_output_path("dir/song.mdfs"), "dir/song.mdf.json");
    assert_eq!(default_output_path("dir.v2/song"), "dir.v2/song.mdf.json");
    assert_eq!(default_output_path(".hidden"), ".hidden.mdf.json");
    assert_eq!(default_output_path("a.b.c"), "a.b.mdf.json");
    assert_eq!(default_output_path(".."), "..");
}

#[test]
fn tap_on_scratch_lane_is_e4001() {
    let e = body_err("  N.......\n");
    assert_eq!(e.code, "E4001");
    assert_eq!(e.lane, Some(0));
    assert_eq!(e.message, "char not allowed on scratch lane (lane=0, char='N', context=N.......)");
}

#[test]
fn unreadable_manifest_names_its_file() {
    let p = parse_mdfs(&format!("{HEAD}@sound_manifest s.json\ntrack: |\n")).unwrap();
    let mf = ManifestFile::Unreadable { path: "dir/s.json".to_string(), reason: "gone".to_string() };
    let e = compile_parsed(p, &mf).unwrap_err();
    assert_eq!(e.code, "E2001");
    assert_eq!(e.line, 4);
    assert_eq!(e.file.as_deref(), Some("dir/s.json"));
    assert_eq!(e.message, "failed to read manifest dir/s.json: gone");
}

#[test]
fn exact_messages() {
    assert_eq!(err("@title T\n").message, "missing track: |");
    let e = body_err("  .l......\n");
    assert_eq!(e.message, "unclosed toggle (lane=1, start_line=7, start_time_us=0)");
    let s = body_err("  ..N..... : K01\n");
    assert_eq!(s.message, "sound_id referenced but no manifest loaded (sound_id=K01, lane=2)");
    let b = body_err("  ........ : K01\n");
    assert_eq!(b.message, "sound_id referenced but no manifest loaded (sound_id=K01)");
    assert_eq!(b.lane, None);
}

#[test]
fn mss_that_does_not_close_after_its_start_is_e4101() {
    let e = compute_mss_checkpoints(3, 3, 0, &vec![0, 1, 2, 3], &RevSpec::default(), &vec![], 9).unwrap_err();
    assert_eq!(e.code, "E4101");
    assert_eq!(e.line, 9);
    assert_eq!(e.message, "invalid MSS toggle range");
    let ok = compute_mss_checkpoints(0, 3, 30, &vec![0, 10, 20, 30], &RevSpec { every: Some(1), at: vec![] }, &vec![20], 9).unwrap();
    assert_eq!(ok, vec![10, 20]);
}
