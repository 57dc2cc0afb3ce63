use mdfs_compiler::{compile_str, compile_str_with_manifest, MdfChart, NoteKind};

const HEAD: &str = "@title T\n@artist A\n@version 2.2\n";

fn chart(body: &str) -> MdfChart {
    compile_str(&format!("{HEAD}track: |\n{body}")).unwrap()
}

fn end_of(kind: &NoteKind) -> Option<u64> {
    kind.end_time_us()
}

#[test]
fn minimal_tap_scenario_exact_values() {
    let c = chart("  @bpm 120\n  @div 4\n  ........\n  ..N.....\n");
    assert_eq!(c.notes.len(), 1);
    assert_eq!(c.notes[0].col, 2);
    assert_eq!(c.notes[0].time_us, 500000);
    assert!(matches!(c.notes[0].kind, NoteKind::Tap));
    assert_eq!(c.notes[0].sound_id, None);
    assert_eq!(c.meta.total_duration_us, 500000);
    assert_eq!(c.meta.title, "T");
    assert_eq!(c.meta.artist, "A");
    assert_eq!(c.meta.version, "2.2");
    assert!(c.bgm_events.is_empty());
    assert!(c.resources.is_empty());
}

#[test]
fn mss_rev_at_two_three_over_four_steps() {
    let c = chart("  @bpm 120\n  @div 4\n  m....... : [] @rev_at 2,3\n  ........\n  ........\n  m.......\n");
    assert_eq!(c.notes.len(), 1);
    match &c.notes[0].kind {
        NoteKind::MultiSpinScratch { end_time_us, reverse_checkpoints_us } => {
            assert_eq!(*end_time_us, 1500000);
            assert_eq!(reverse_checkpoints_us, &vec![500000, 1000000]);
        }
        _ => panic!("expected mss"),
    }
}

#[test]
fn mss_marker_and_rev_at_same_step_is_listed_once() {
    let c = chart("  @bpm 120\n  @div 4\n  m....... : [] @rev_at 2,3\n  !.......\n  ........\n  m.......\n");
    match &c.notes[0].kind {
        NoteKind::MultiSpinScratch { reverse_checkpoints_us, .. } => {
            assert_eq!(reverse_checkpoints_us, &vec![500000, 1000000]);
        }
        _ => panic!("expected mss"),
    }
}

#[test]
fn hmss_rev_every_skips_end_and_sorts() {
    let c = chart("  @bpm 120\n  @div 4\n  M....... @rev_every 2 @rev_at 3\n  ........\n  ........\n  ........\n  M.......\n");
    match &c.notes[0].kind {
        NoteKind::HellMultiSpinScratch { end_time_us, reverse_checkpoints_us } => {
            assert_eq!(*end_time_us, 2000000);
            assert_eq!(reverse_checkpoints_us, &vec![1000000]);
        }
        _ => panic!("expected hmss"),
    }
}

#[test]
fn mss_without_rev_has_no_checkpoints() {
    let c = chart("  @bpm 60\n  @div 4\n  m.......\n  m.......\n");
    match &c.notes[0].kind {
        NoteKind::MultiSpinScratch { end_time_us, reverse_checkpoints_us } => {
            assert_eq!(*end_time_us, 1000000);
            assert!(reverse_checkpoints_us.is_empty());
        }
        _ => panic!("expected mss"),
    }
}

#[test]
fn notes_come_out_in_time_order() {
    let c = chart("  @bpm 120\n  @div 4\n  .l......\n  ..N.....\n  .l.N....\n");
    let times: Vec<u64> = c.notes.iter().map(|n| n.time_us).collect();
    assert_eq!(times, vec![0, 500000, 1000000]);
    assert!(matches!(c.notes[0].kind, NoteKind::ChargeNote { end_time_us: 1000000 }));
    for w in c.notes.windows(2) {
        assert!(w[0].time_us <= w[1].time_us);
    }
}

#[test]
fn equal_times_keep_their_order() {
    let c = chart("  @bpm 120\n  @div 4\n  .h......\n  .h.N....\n");
    assert_eq!(c.notes.len(), 2);
    assert_eq!(c.notes[0].col, 1);
    assert_eq!(c.notes[1].col, 3);
    assert!(matches!(c.notes[0].kind, NoteKind::HellChargeNote { end_time_us: 500000 }));
}

#[test]
fn holds_end_after_they_start() {
    let c = chart("  @bpm 120\n  @div 4\n  b.l.....\n  ..l.....\n  b.......\n  B.......\n  B.......\n");
    assert_eq!(c.notes.len(), 3);
    for n in &c.notes {
        let e = end_of(&n.kind).unwrap();
        assert!(e > n.time_us);
    }
    assert!(matches!(c.notes[2].kind, NoteKind::HellBackSpinScratch { end_time_us: 2000000 }));
}

#[test]
fn sound_ids_are_manifest_keys() {
    let manifest = br#"{"K01":"kick.wav","S1":"s.wav","E":"e.wav"}"#.to_vec();
    let src = format!("{HEAD}@sound_manifest m.json\ntrack: |\n  @bpm 120\n  @div 4\n  b.N..... : [S1,-,K01,-,-,-,-,-]\n  ........ : E\n  b....... : [-,-,-,-,-,-,-,E]\n");
    let c = compile_str_with_manifest(&src, manifest).unwrap();
    assert_eq!(c.resources.len(), 3);
    for n in &c.notes {
        if let Some(id) = &n.sound_id {
            assert!(c.resources.get(id).is_some());
        }
    }
    for b in &c.bgm_events {
        assert!(c.resources.get(&b.sound_id).is_some());
    }
    assert_eq!(c.notes[0].sound_id.as_deref(), Some("K01"));
    assert_eq!(c.notes[1].sound_id.as_deref(), Some("S1"));
    assert_eq!(c.bgm_events.len(), 2);
    assert_eq!(c.bgm_events[0].sound_id, "E");
    assert_eq!(c.bgm_events[1].time_us, 1000000);
}

#[test]
fn total_duration_is_latest_end_including_bgm() {
    let manifest = br#"{"E":"e.wav"}"#.to_vec();
    let src = format!("{HEAD}@sound_manifest m.json\ntrack: |\n  @bpm 120\n  @div 4\n  .l......\n  .l......\n  ........\n  ........ : E\n");
    let c = compile_str_with_manifest(&src, manifest).unwrap();
    assert_eq!(c.meta.total_duration_us, 1500000);
    let c2 = chart("  @bpm 120\n  @div 4\n  .l......\n  ........\n  .l......\n");
    assert_eq!(c2.meta.total_duration_us, 1000000);
}

#[test]
fn empty_track_has_zero_duration() {
    let c = chart("");
    assert!(c.notes.is_empty());
    assert_eq!(c.meta.total_duration_us, 0);
    let c2 = chart("  @bpm 120\n  @div 4\n  ........\n");
    assert_eq!(c2.meta.total_duration_us, 0);
}

#[test]
fn exact_step_duration_values() {
    let c = chart("  @bpm 174.5\n  @div 16\n  ........\n  ..N.....\n");
    assert_eq!(c.notes[0].time_us, 85960);
    let c2 = chart("  @bpm +150\n  @div 3\n  ........\n  N.......\n".replace("N.......", ".N......").as_str());
    assert_eq!(c2.notes[0].time_us, 533333);
    let c3 = chart("  @bpm 7\n  @div 3\n  ........\n  .N......\n");
    assert_eq!(c3.notes[0].time_us, 11428571);
    let c4 = chart("  @bpm 120.000\n  @div 4\n  @bpm 240\n  ........\n  .N......\n");
    assert_eq!(c4.notes[0].time_us, 250000);
}

#[test]
fn tempo_changes_apply_to_later_steps() {
    let c = chart("  @bpm 120\n  @div 4\n  ........\n  @div 8\n  ........\n  .N......\n");
    assert_eq!(c.notes[0].time_us, 750000);
}

#[test]
fn comments_blank_lines_and_crlf_are_ignored() {
    let src = "# header\r\n@title T # name\r\n@artist A\r\n@version 2.2\r\n\r\ntrack: |\r\n  @bpm 120 # tempo\r\n  @div 4\r\n  ..N..... # tap\r\n";
    let c = compile_str(src).unwrap();
    assert_eq!(c.meta.title, "T");
    assert_eq!(c.notes.len(), 1);
    assert_eq!(c.notes[0].col, 2);
}

#[test]
fn tags_are_split_and_trimmed() {
    let c = compile_str("@title T\n@artist A\n@version 2.2\n@tags  training , hard,x \ntrack: |\n").unwrap();
    assert_eq!(c.meta.tags, vec!["training".to_string(), "hard".to_string(), "x".to_string()]);
}

#[test]
fn bgm_on_empty_step_with_single_sound() {
    let manifest = br#"{"SE":"se.wav"}"#.to_vec();
    let src = format!("{HEAD}@sound_manifest m.json\ntrack: |\n  @bpm 120\n  @div 4\n  ........\n  ........ : SE\n");
    let c = compile_str_with_manifest(&src, manifest).unwrap();
    assert!(c.notes.is_empty());
    assert_eq!(c.bgm_events.len(), 1);
    assert_eq!(c.bgm_events[0].time_us, 500000);
    assert_eq!(c.meta.total_duration_us, 500000);
}

#[test]
fn manifest_entries_reach_the_chart() {
    let manifest = br#"{ "K01" : "kick.wav", "B" : "b.wav" }"#.to_vec();
    let src = format!("{HEAD}@sound_manifest m.json\ntrack: |\n");
    let c = compile_str_with_manifest(&src, manifest).unwrap();
    assert_eq!(c.resources.len(), 2);
    assert_eq!(c.resources.get("K01").as_deref(), Some("kick.wav"));
    assert_eq!(c.resources.get("B").as_deref(), Some("b.wav"));
    assert_eq!(c.resources.get("C"), None);
}

#[test]
fn marker_outside_any_hold_is_e4003() {
    let e = compile_str(&format!("{HEAD}track: |\n  @bpm 120\n  @div 4\n  !.......\n")).unwrap_err();
    assert_eq!(e.code, "E4003");
    assert_eq!(e.lane, Some(0));
    assert_eq!(e.step_index, Some(0));
}

#[test]
fn marker_during_charge_hold_is_e4003() {
    let e = compile_str(&format!("{HEAD}track: |\n  @bpm 120\n  @div 4\n  .l......\n  !.......\n  .l......\n")).unwrap_err();
    assert_eq!(e.code, "E4003");
    assert_eq!(e.line, 8);
    assert_eq!(e.time_us, Some(500000));
}

#[test]
fn tap_then_hold_on_same_lane_in_later_step_is_fine() {
    let c = chart("  @bpm 120\n  @div 4\n  .N......\n  .l......\n  .l......\n");
    assert_eq!(c.notes.len(), 2);
}
