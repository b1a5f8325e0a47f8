use biliass::comment::{Comment, Config, MotionClass};
use biliass::error::DanmakuError;
use biliass::lane::{FixedPool, ScrollPool};
use biliass::normalize::normalize;
use biliass::pipeline::{any_degraded, layout_comments, process, write_track, WireFormat};
use biliass::proto::decode_protobuf;
use biliass::special::parse_special;
use biliass::writer::{escape_text, unescape_text, write_event, write_head};
use biliass::xml::decode_xml;

fn cfg() -> Config {
    Config {
        canvas_width: 1280,
        canvas_height: 720,
        row_height: 36,
        lane_cap: 20,
        base_font_size: 25,
        base_duration_scroll: 800,
        base_duration_fixed: 500,
        speed_num: 1,
        speed_den: 1,
        block_scroll: false,
        block_top: false,
        block_bottom: false,
        block_scripted: false,
        alpha_min: 0,
        alpha_max: 255,
        max_count: 1_000_000,
    }
}

fn count_events(track: &[u8]) -> usize {
    let pat = b"Dialogue: ";
    let mut n = 0;
    if track.len() >= pat.len() {
        for i in 0..=(track.len() - pat.len()) {
            if &track[i..i + pat.len()] == pat {
                n += 1;
            }
        }
    }
    n
}

#[test]
fn escape_roundtrip_recovers_payload() {
    let payload: Vec<u8> = b"a\\b{c}d\ne".to_vec();
    let escaped = escape_text(&payload);
    assert_eq!(escaped, b"a\\\\b\\{c\\}d\\Ne".to_vec());
    let back = unescape_text(&escaped).expect("escaped text must decode");
    assert_eq!(back, payload);
}

#[test]
fn unescape_rejects_dangling_backslash() {
    assert!(unescape_text(b"abc\\").is_none());
    assert!(unescape_text(b"ab\\qcd").is_none());
}

#[test]
fn special_keyframes_span_unit_interval() {
    // fractions declared 250..900: first is forced to 0, last to 1000
    let params = b"10,20,30,40,500,15,-15,3,250,1,2,600,3,4,900,5,6";
    let a = parse_special(params).expect("well-formed parameter string");
    assert_eq!(a.start_x, 10);
    assert_eq!(a.start_y, 20);
    assert_eq!(a.end_x, 30);
    assert_eq!(a.end_y, 40);
    assert_eq!(a.duration, 500);
    assert_eq!(a.rot_y, 15);
    assert_eq!(a.rot_z, -15);
    let fr: Vec<u32> = a.keyframes.iter().map(|k| k.fraction).collect();
    assert_eq!(fr, vec![0, 600, 1000]);
    for w in fr.windows(2) {
        assert!(w[0] <= w[1]);
    }
}

#[test]
fn special_rejects_non_monotonic_fractions() {
    let params = b"0,0,0,0,500,0,0,2,700,1,1,300,2,2";
    match parse_special(params) {
        Err(DanmakuError::SpecialCommentSyntax { raw }) => {
            assert_eq!(raw, params.to_vec());
        },
        other => panic!("expected a syntax error, got {:?}", other.is_ok()),
    }
}

#[test]
fn special_rejects_missing_required_fields() {
    assert!(parse_special(b"1,2,3").is_err());
    assert!(parse_special(b"").is_err());
    // degenerate but acceptable: stationary, no rotation, no keyframes
    let a = parse_special(b"5,6,5,6,100").expect("stationary scripted comment is fine");
    assert_eq!(a.start_x, a.end_x);
    assert_eq!(a.keyframes.len(), 0);
    assert_eq!(a.rot_y, 0);
}

#[test]
fn xml_two_fixed_top_same_time_get_distinct_lanes() {
    let input = b"<i><d p=\"0,5,25,16777215,7,1\">hello</d><d p=\"0,5,25,16777215,7,2\">world</d></i>";
    let (records, fails) = decode_xml(input).expect("structurally sound input");
    assert_eq!(records.len(), 2);
    assert!(fails.is_empty());
    let c = cfg();
    let (comments, nfails) = normalize(records, &c, false).expect("tolerant mode");
    assert!(nfails.is_empty());
    assert_eq!(comments.len(), 2);
    assert_eq!(comments[0].motion_class, MotionClass::FixedTop);
    let asg = layout_comments(&comments, &c);
    let a0 = asg[0].expect("fixed comments get lanes");
    let a1 = asg[1].expect("fixed comments get lanes");
    assert_ne!(a0.lane, a1.lane);
    assert!(!a0.degraded && !a1.degraded);
}

#[test]
fn xml_entities_decoded_in_content() {
    let input = b"<d p=\"10,1,25,255,7,9\">a&amp;b&lt;c&gt;d&quot;e</d>";
    let (records, fails) = decode_xml(input).expect("structurally sound input");
    assert!(fails.is_empty());
    assert_eq!(records.len(), 1);
    assert_eq!(records[0].content, b"a&b<c>d\"e".to_vec());
    assert_eq!(records[0].timeline_offset, 10);
    assert_eq!(records[0].mode_code, 1);
    assert_eq!(records[0].color, 255);
    assert_eq!(records[0].comment_id, Some(9));
}

#[test]
fn xml_truncated_element_is_fatal() {
    // the element opens but its attribute string never closes
    match decode_xml(b"<d p=\"0,1,25") {
        Err(DanmakuError::MalformedInput { index: 0 }) => {},
        other => panic!("expected whole-input failure, got ok={}", other.is_ok()),
    }
    // closing quote present but no '>' after it
    assert!(decode_xml(b"<d p=\"0,1,25,0,1,1\"x").is_err());
}

#[test]
fn xml_malformed_record_reported_not_fatal() {
    let input = b"<d p=\"0,1,25,0,1,1\">ok</d><d p=\"bad,attr\">broken</d><d p=\"5,1,25,0,1,2\">ok2</d>";
    let (records, fails) = decode_xml(input).expect("structurally sound input");
    assert_eq!(records.len(), 2);
    assert_eq!(fails.len(), 1);
    assert_eq!(fails[0].index, 1);
    assert!(matches!(fails[0].error, DanmakuError::MalformedInput { index: 1 }));
}

#[test]
fn protobuf_empty_input_gives_header_only_track() {
    let c = cfg();
    let out = process(b"", WireFormat::Protobuf, &c, false).expect("empty input is valid");
    let mut header = Vec::new();
    write_head(&c, &mut header);
    assert_eq!(out.track, header);
    assert_eq!(count_events(&out.track), 0);
    assert!(out.failures.is_empty());
    assert!(!out.degraded);
}

#[test]
fn protobuf_roundtrip_fields() {
    // one sub-message: field 1 (offset) = 300, field 2 (mode) = 5,
    // field 7 (content) = "hi"
    let elem: Vec<u8> = vec![0x08, 0xAC, 0x02, 0x10, 0x05, 0x3A, 0x02, b'h', b'i'];
    let mut input: Vec<u8> = vec![0x0A, elem.len() as u8];
    input.extend_from_slice(&elem);
    let (records, fails) = decode_protobuf(&input).expect("well-formed message");
    assert!(fails.is_empty());
    assert_eq!(records.len(), 1);
    assert_eq!(records[0].timeline_offset, 300);
    assert_eq!(records[0].mode_code, 5);
    assert_eq!(records[0].content, b"hi".to_vec());
    // defaults
    assert_eq!(records[0].color, 0xFF_FF_FF);
    assert_eq!(records[0].font_size, 0);
    assert_eq!(records[0].comment_id, None);
}

#[test]
fn protobuf_truncated_is_fatal() {
    // length-delimited field claims 10 bytes but only 1 follows
    let input: Vec<u8> = vec![0x0A, 0x0A, 0x01];
    match decode_protobuf(&input) {
        Err(DanmakuError::MalformedInput { index: 0 }) => {},
        other => panic!("expected fatal malformed input, got ok={}", other.is_ok()),
    }
}

#[test]
fn scripted_syntax_error_excluded_while_siblings_render() {
    let input = b"<d p=\"0,6,25,0,1,1\">1,2</d><d p=\"100,1,25,0,1,2\">fine</d>";
    let c = cfg();
    let out = process(input, WireFormat::Xml, &c, false).expect("tolerant mode");
    assert_eq!(out.failures.len(), 1);
    assert!(matches!(
        out.failures[0].error,
        DanmakuError::SpecialCommentSyntax { .. }
    ));
    assert_eq!(count_events(&out.track), 1);
}

#[test]
fn strict_mode_aborts_on_first_record_error() {
    // an unknown motion-class code aborts a strict run
    let input = b"<d p=\"0,9,25,0,1,1\">x</d><d p=\"100,1,25,0,1,2\">fine</d>";
    let c = cfg();
    assert!(process(input, WireFormat::Xml, &c, true).is_err());
}

#[test]
fn strict_mode_still_degrades_on_special_syntax_error() {
    // a scripted comment with a malformed parameter string is dropped and
    // reported, never fatal, even in strict mode
    let input = b"<d p=\"0,6,25,0,1,1\">1,2</d><d p=\"100,1,25,0,1,2\">fine</d>";
    let c = cfg();
    let out = process(input, WireFormat::Xml, &c, true).expect("degrades gracefully");
    assert_eq!(out.failures.len(), 1);
    assert!(matches!(
        out.failures[0].error,
        DanmakuError::SpecialCommentSyntax { .. }
    ));
    assert_eq!(count_events(&out.track), 1);
}

#[test]
fn unsupported_motion_class_reported() {
    let input = b"<d p=\"0,9,25,0,1,1\">x</d>";
    let (records, _) = decode_xml(input).expect("structurally sound input");
    let c = cfg();
    let (comments, fails) = normalize(records, &c, false).expect("tolerant mode");
    assert!(comments.is_empty());
    assert_eq!(fails.len(), 1);
    assert!(matches!(
        fails[0].error,
        DanmakuError::UnsupportedMotionClass { code: 9 }
    ));
}

#[test]
fn out_of_range_offset_is_malformed() {
    let input = b"<d p=\"99999999999,1,25,0,1,1\">x</d>";
    let (records, _) = decode_xml(input).expect("structurally sound input");
    let c = cfg();
    let (comments, fails) = normalize(records, &c, false).expect("tolerant mode");
    assert!(comments.is_empty());
    assert_eq!(fails.len(), 1);
    assert!(matches!(fails[0].error, DanmakuError::MalformedInput { .. }));
}

#[test]
fn header_bytes_exact() {
    let c = cfg();
    let mut out = Vec::new();
    write_head(&c, &mut out);
    assert_eq!(
        String::from_utf8(out).unwrap(),
        "[Script Info]\nScriptType: v4.00+\nPlayResX: 1280\nPlayResY: 720\n\n[Events]\n"
    );
}

#[test]
fn fixed_top_event_bytes_exact() {
    let c = cfg();
    let comment = Comment {
        timeline_offset: 0,
        motion_class: MotionClass::FixedTop,
        content: b"hi".to_vec(),
        font_size: 25,
        color: 0xFF_FF_FF,
        alpha: 255,
        sender_id: 7,
        comment_id: 1,
        duration: 500,
        animation: None,
    };
    let mut out = Vec::new();
    write_event(&comment, 0, &c, &mut out);
    assert_eq!(
        String::from_utf8(out).unwrap(),
        "Dialogue: 0,0:00:00.00,0:00:05.00,Danmaku,,0000,0000,0000,,{\\an8\\pos(640,0)\\fs25\\c&HFFFFFF&}hi\n"
    );
}

#[test]
fn scroll_event_escapes_reserved_bytes() {
    let c = cfg();
    let comment = Comment {
        timeline_offset: 100,
        motion_class: MotionClass::ScrollRightLeft,
        content: b"a{b}c\\d\ne".to_vec(),
        font_size: 25,
        color: 0x123456,
        alpha: 255,
        sender_id: 7,
        comment_id: 1,
        duration: 800,
        animation: None,
    };
    let mut out = Vec::new();
    write_event(&comment, 2, &c, &mut out);
    let s = String::from_utf8(out).unwrap();
    assert_eq!(
        s,
        "Dialogue: 0,0:00:01.00,0:00:09.00,Danmaku,,0000,0000,0000,,{\\an7\\move(1280,72,0,72)\\fs25\\c&H563412&}a\\{b\\}c\\\\d\\Ne\n"
    );
}

#[test]
fn thousand_scroll_comments_stay_under_cap_without_collisions() {
    // 1000 right-to-left comments uniformly over a 60-unit window, each
    // visible for one unit, lane cap 20
    let mut xml = Vec::new();
    xml.extend_from_slice(b"<i>");
    for i in 0..1000u64 {
        let offset = i * 60 / 1000;
        xml.extend_from_slice(
            format!("<d p=\"{},1,25,0,1,{}\">c{}</d>", offset, i + 1, i).as_bytes(),
        );
    }
    xml.extend_from_slice(b"</i>");
    let mut c = cfg();
    c.base_duration_scroll = 1;
    let (records, fails) = decode_xml(&xml).expect("structurally sound input");
    assert!(fails.is_empty());
    assert_eq!(records.len(), 1000);
    let (comments, nfails) = normalize(records, &c, false).expect("tolerant mode");
    assert!(nfails.is_empty());
    assert_eq!(comments.len(), 1000);
    let asg = layout_comments(&comments, &c);
    assert_eq!(asg.len(), 1000);
    assert!(!any_degraded(&asg));
    // never exceed 20 lanes
    for a in &asg {
        let a = a.expect("scroll comments get lanes");
        assert!(a.lane < 20);
        assert!(!a.degraded);
    }
    // zero collisions among same-direction comments sharing a lane
    let mut by_lane: Vec<Vec<(u64, u64)>> = vec![Vec::new(); 20];
    for (i, a) in asg.iter().enumerate() {
        let a = a.unwrap();
        by_lane[a.lane].push((comments[i].timeline_offset, comments[i].duration));
    }
    for lane in &by_lane {
        for x in 0..lane.len() {
            for y in (x + 1)..lane.len() {
                let (t0, d0) = lane[x];
                let (t1, d1) = lane[y];
                // visibility windows [t, t+d) must be disjoint
                assert!(t0 + d0 <= t1 || t1 + d1 <= t0);
            }
        }
    }
}

#[test]
fn opposite_directions_overlapping_get_distinct_lanes() {
    let c = cfg();
    let mk = |mc: MotionClass, t: u64, id: u64| Comment {
        timeline_offset: t,
        motion_class: mc,
        content: b"x".to_vec(),
        font_size: 25,
        color: 0,
        alpha: 255,
        sender_id: 1,
        comment_id: id,
        duration: 800,
        animation: None,
    };
    let comments = vec![
        mk(MotionClass::ScrollRightLeft, 0, 1),
        mk(MotionClass::ScrollLeftRight, 100, 2),
    ];
    let asg = layout_comments(&comments, &c);
    let a0 = asg[0].unwrap();
    let a1 = asg[1].unwrap();
    assert_ne!(a0.lane, a1.lane);
}

#[test]
fn fallback_ids_assigned_sequentially() {
    // two protobuf sub-messages without an identifier field get ids 0 and 1
    let elem0: Vec<u8> = vec![0x08, 0x05, 0x10, 0x01];
    let elem1: Vec<u8> = vec![0x08, 0x0A, 0x10, 0x01];
    let mut input: Vec<u8> = vec![0x0A, elem0.len() as u8];
    input.extend_from_slice(&elem0);
    input.push(0x0A);
    input.push(elem1.len() as u8);
    input.extend_from_slice(&elem1);
    let (records, fails) = decode_protobuf(&input).expect("well-formed message");
    assert!(fails.is_empty());
    assert_eq!(records.len(), 2);
    assert_eq!(records[0].comment_id, None);
    let c = cfg();
    let (comments, _) = normalize(records, &c, false).expect("tolerant mode");
    assert_eq!(
        comments.iter().map(|x| x.comment_id).collect::<Vec<_>>(),
        vec![0, 1]
    );
}

#[test]
fn comment_cap_drops_oldest() {
    let input = b"<d p=\"500,1,25,0,1,1\">old</d><d p=\"900,1,25,0,1,2\">new</d>";
    let (records, _) = decode_xml(input).expect("structurally sound input");
    let mut c = cfg();
    c.max_count = 1;
    let (comments, _) = normalize(records, &c, false).expect("tolerant mode");
    assert_eq!(comments.len(), 1);
    assert_eq!(comments[0].timeline_offset, 900);
}

#[test]
fn blocked_class_filtered_before_layout() {
    let input = b"<d p=\"0,5,25,0,1,1\">top</d><d p=\"0,1,25,0,1,2\">scroll</d>";
    let (records, _) = decode_xml(input).expect("structurally sound input");
    let mut c = cfg();
    c.block_top = true;
    let (comments, fails) = normalize(records, &c, false).expect("tolerant mode");
    assert!(fails.is_empty());
    assert_eq!(comments.len(), 1);
    assert_eq!(comments[0].motion_class, MotionClass::ScrollRightLeft);
}

#[test]
fn sorted_output_by_offset_then_id() {
    let input = b"<d p=\"900,1,25,0,1,5\">b</d><d p=\"100,1,25,0,1,9\">a</d><d p=\"100,1,25,0,1,3\">c</d>";
    let (records, _) = decode_xml(input).expect("structurally sound input");
    let c = cfg();
    let (comments, _) = normalize(records, &c, false).expect("tolerant mode");
    assert_eq!(comments.len(), 3);
    assert_eq!(
        comments
            .iter()
            .map(|x| (x.timeline_offset, x.comment_id))
            .collect::<Vec<_>>(),
        vec![(100, 3), (100, 9), (900, 5)]
    );
}

#[test]
fn degraded_mode_forced_placement_is_recorded() {
    let mut pool = FixedPool::new();
    let a0 = pool.allocate(1, 0, 500);
    assert_eq!(a0.lane, 0);
    assert!(!a0.degraded);
    let a1 = pool.allocate(1, 100, 500);
    assert_eq!(a1.lane, 0);
    assert!(a1.degraded);
}

#[test]
fn scroll_lane_reused_after_exit() {
    let mut pool = ScrollPool::new();
    let a0 = pool.allocate(20, 0, 800, true);
    assert_eq!(a0.lane, 0);
    let a1 = pool.allocate(20, 800, 800, true);
    assert_eq!(a1.lane, 0);
    assert!(!a1.degraded);
    let a2 = pool.allocate(20, 900, 800, true);
    assert_eq!(a2.lane, 1);
}

#[test]
fn track_render_matches_per_event_rendering() {
    let input = b"<d p=\"0,5,25,16777215,7,1\">hello</d>";
    let c = cfg();
    let (records, _) = decode_xml(input).expect("structurally sound input");
    let (comments, _) = normalize(records, &c, false).expect("tolerant mode");
    let asg = layout_comments(&comments, &c);
    let track = write_track(&comments, &asg, &c);
    let mut expected = Vec::new();
    write_head(&c, &mut expected);
    write_event(&comments[0], asg[0].unwrap().lane, &c, &mut expected);
    assert_eq!(track, expected);
}
