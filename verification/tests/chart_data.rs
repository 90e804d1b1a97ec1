use prpr::chart_order::draw_order;
use prpr::line_tree::{all_parents_in_range, find_parent_cycle, rpe_parent};
use prpr::anim::Anim;
use prpr::bin::{BinaryError, BinaryReader, BinaryWriter, F32Bits};
use prpr::chart::ChartSettings;
use prpr::judge::HitSound;
use prpr::keyframe::{Keyframe, TweenCode};
use prpr::note::{Note, NoteKind, F32_ONE_BITS};
use prpr::line::{JudgeLine, JudgeLineKind, UIElement};
use prpr::object::{AnimVector, CtrlObject, Object};

const ONE: F32Bits = F32Bits(0x3f80_0000);
const HALF: F32Bits = F32Bits(0x3f00_0000);

fn kf(time_ms: u32, value: F32Bits, tween: TweenCode) -> Keyframe<F32Bits> {
    Keyframe { time_ms, value, tween }
}

fn encode_anim(a: &Anim<F32Bits>) -> Vec<u8> {
    let mut w = BinaryWriter::new(Vec::new());
    w.write(a).unwrap();
    w.into_inner()
}

fn encode_note(n: &Note) -> Vec<u8> {
    let mut w = BinaryWriter::new(Vec::new());
    w.write(n).unwrap();
    w.into_inner()
}

fn segments(a: &Anim<F32Bits>) -> Vec<Vec<(u32, u32, TweenCode)>> {
    let mut out = Vec::new();
    let mut cur = Some(a);
    while let Some(x) = cur {
        out.push(x.keyframes.iter().map(|k| (k.time_ms, k.value.0, k.tween)).collect());
        cur = x.next.as_deref();
    }
    out
}

#[test]
fn keyframe_bytes() {
    let mut w = BinaryWriter::new(Vec::new());
    w.write(&kf(1500, ONE, TweenCode::Static(2))).unwrap();
    // delta 1500 as uleb, the f32 1.0 little endian, the tween id
    assert_eq!(w.into_inner(), vec![0xdc, 0x0b, 0x00, 0x00, 0x80, 0x3f, 0x02]);
}

#[test]
fn keyframe_times_are_deltas() {
    let mut w = BinaryWriter::new(Vec::new());
    w.write(&kf(100, ONE, TweenCode::Static(0))).unwrap();
    w.write(&kf(250, ONE, TweenCode::Static(0))).unwrap();
    let bytes = w.into_inner();
    assert_eq!(bytes[0], 100);
    assert_eq!(bytes[6], 150);
    let mut r = BinaryReader::new(bytes);
    let a = r.read::<Keyframe<F32Bits>>().unwrap();
    let b = r.read::<Keyframe<F32Bits>>().unwrap();
    assert_eq!((a.time_ms, b.time_ms), (100, 250));
}

#[test]
fn tween_codes_roundtrip() {
    let tweens = [
        TweenCode::Static(0),
        TweenCode::Static(32),
        TweenCode::Clamped(5, HALF, ONE),
        TweenCode::Bezier(F32Bits(1), F32Bits(2), F32Bits(3), F32Bits(4)),
    ];
    for tw in tweens {
        let mut w = BinaryWriter::new(Vec::new());
        w.write(&kf(7, HALF, tw)).unwrap();
        let mut r = BinaryReader::new(w.into_inner());
        let k = r.read::<Keyframe<F32Bits>>().unwrap();
        assert_eq!(k.tween, tw);
        assert_eq!(k.value, HALF);
        assert_eq!(k.time_ms, 7);
    }
}

#[test]
fn clamped_and_bezier_tags() {
    let mut w = BinaryWriter::new(Vec::new());
    w.write(&kf(0, ONE, TweenCode::Clamped(5, HALF, ONE))).unwrap();
    let bytes = w.into_inner();
    assert_eq!(bytes[5], 0x85);
    assert_eq!(bytes.len(), 1 + 4 + 9);
    let mut w = BinaryWriter::new(Vec::new());
    w.write(&kf(0, ONE, TweenCode::Bezier(ONE, ONE, ONE, ONE))).unwrap();
    let bytes = w.into_inner();
    assert_eq!(bytes[5], 0xc0);
    assert_eq!(bytes.len(), 1 + 4 + 17);
}

#[test]
fn other_tween_writes_nothing() {
    let mut w = BinaryWriter::new(Vec::new());
    w.write(&kf(0, ONE, TweenCode::Other)).unwrap();
    assert_eq!(w.into_inner().len(), 5);
}

#[test]
fn invalid_tweens_are_refused() {
    // tag bits 01
    let mut r = BinaryReader::new(vec![0x00, 0, 0, 0x80, 0x3f, 0x40]);
    assert_eq!(r.read::<Keyframe<F32Bits>>().err(), Some(BinaryError::InvalidTween));
    // a table id past the table
    let mut r = BinaryReader::new(vec![0x00, 0, 0, 0x80, 0x3f, 33]);
    assert_eq!(r.read::<Keyframe<F32Bits>>().err(), Some(BinaryError::InvalidTween));
    // a clamped id past the table, with its points present
    let mut bytes = vec![0x00, 0, 0, 0x80, 0x3f, 0x80 | 40];
    bytes.extend_from_slice(&[0; 8]);
    let mut r = BinaryReader::new(bytes);
    assert_eq!(r.read::<Keyframe<F32Bits>>().err(), Some(BinaryError::InvalidTween));
    // the same with its points missing
    let mut r = BinaryReader::new(vec![0x00, 0, 0, 0x80, 0x3f, 0x80 | 40, 0]);
    assert_eq!(r.read::<Keyframe<F32Bits>>().err(), Some(BinaryError::UnexpectedEof));
}

#[test]
fn empty_anim_bytes() {
    let a: Anim<F32Bits> = Anim::default();
    assert!(a.is_default());
    assert_eq!(encode_anim(&a), vec![1, 0]);
}

#[test]
fn anim_bytes_and_roundtrip() {
    let a = Anim::new(vec![
        kf(0, ONE, TweenCode::Static(2)),
        kf(1000, HALF, TweenCode::Static(0)),
    ]);
    let bytes = encode_anim(&a);
    assert_eq!(bytes[0], 2);
    assert_eq!(bytes[1], 2);
    assert_eq!(*bytes.last().unwrap(), 0);
    let mut r = BinaryReader::new(bytes.clone());
    let b = r.read::<Anim<F32Bits>>().unwrap();
    assert_eq!(segments(&b), segments(&a));
    assert_eq!(encode_anim(&b), bytes);
}

#[test]
fn anim_chain_keeps_each_first_list() {
    let mut first = Anim::new(vec![kf(0, ONE, TweenCode::Static(0))]);
    first.next = Some(Box::new(Anim::fixed(HALF)));
    let second = Anim::fixed(ONE);
    let third: Anim<F32Bits> = Anim::default();
    let c = Anim::chain(vec![first, second, third]);
    assert_eq!(
        segments(&c),
        vec![
            vec![(0, ONE.0, TweenCode::Static(0))],
            vec![(0, ONE.0, TweenCode::Static(0))],
            vec![],
        ]
    );
    let empty = Anim::<F32Bits>::chain(vec![]);
    assert!(empty.is_default());
}

#[test]
fn anim_chain_roundtrip_resets_time_per_list() {
    let c = Anim::chain(vec![
        Anim::new(vec![kf(500, ONE, TweenCode::Static(0)), kf(900, HALF, TweenCode::Static(0))]),
        Anim::default(),
        Anim::new(vec![kf(300, HALF, TweenCode::Bezier(ONE, HALF, ONE, HALF))]),
    ]);
    let bytes = encode_anim(&c);
    // the second list's first delta counts from zero again
    let mut r = BinaryReader::new(bytes.clone());
    let d = r.read::<Anim<F32Bits>>().unwrap();
    assert_eq!(segments(&d), segments(&c));
    assert_eq!(encode_anim(&d), bytes);
}

#[test]
fn invalid_anims_are_refused() {
    let mut r = BinaryReader::new(vec![0]);
    assert_eq!(r.read::<Anim<F32Bits>>().err(), Some(BinaryError::InvalidAnim));
    let mut r = BinaryReader::new(vec![2, 0, 0]);
    assert_eq!(r.read::<Anim<F32Bits>>().err(), Some(BinaryError::InvalidAnim));
    let mut r = BinaryReader::new(vec![1, 1]);
    assert_eq!(r.read::<Anim<F32Bits>>().err(), Some(BinaryError::UnexpectedEof));
}

#[test]
fn object_bytes() {
    let o = Object::new();
    assert!(o.is_default());
    let mut w = BinaryWriter::new(Vec::new());
    w.write(&o).unwrap();
    assert_eq!(w.into_inner(), vec![1, 0, 1, 0, 1, 0, 1, 0, 1, 0, 1, 0]);
}

#[test]
fn object_roundtrip_and_not_default() {
    let o = Object {
        alpha: Anim::fixed(HALF),
        scale: AnimVector(Anim::default(), Anim::fixed(ONE)),
        rotation: Anim::default(),
        translation: AnimVector(Anim::fixed(ONE), Anim::default()),
    };
    assert!(!o.is_default());
    let mut w = BinaryWriter::new(Vec::new());
    w.write(&o).unwrap();
    let bytes = w.into_inner();
    let mut r = BinaryReader::new(bytes.clone());
    let p = r.read::<Object>().unwrap();
    assert_eq!(segments(&p.alpha), segments(&o.alpha));
    assert_eq!(segments(&p.scale.1), segments(&o.scale.1));
    assert_eq!(segments(&p.translation.0), segments(&o.translation.0));
    let mut w = BinaryWriter::new(Vec::new());
    w.write(&p).unwrap();
    assert_eq!(w.into_inner(), bytes);
}

#[test]
fn ctrl_object_tag() {
    let c = CtrlObject {
        alpha: Anim::default(),
        size: Anim::fixed(ONE),
        pos: Anim::default(),
        y: Anim::default(),
    };
    let mut w = BinaryWriter::new(Vec::new());
    w.write(&c).unwrap();
    let bytes = w.into_inner();
    assert_eq!(bytes[0], 8);
    let mut r = BinaryReader::new(bytes);
    let d = r.read::<CtrlObject>().unwrap();
    assert_eq!(segments(&d.size), segments(&c.size));
    let mut r = BinaryReader::new(vec![7, 1, 0, 1, 0, 1, 0, 1, 0]);
    assert_eq!(r.read::<CtrlObject>().err(), Some(BinaryError::InvalidCtrlObject));
}

fn sample_note(kind: NoteKind, speed: F32Bits) -> Note {
    Note {
        object: Object::new(),
        kind,
        time_ms: 2500,
        height: HALF,
        speed,
        above: true,
        fake: false,
    }
}

#[test]
fn note_bytes_with_default_speed() {
    let bytes = encode_note(&sample_note(NoteKind::Click, F32Bits(F32_ONE_BITS)));
    let mut expected = vec![1, 0, 1, 0, 1, 0, 1, 0, 1, 0, 1, 0];
    expected.push(0); // click
    expected.extend_from_slice(&[0xc4, 0x13]); // 2500 ms
    expected.extend_from_slice(&[0x00, 0x00, 0x00, 0x3f]); // height 0.5
    expected.push(0); // default speed
    expected.push(1); // above
    expected.push(0); // not fake
    assert_eq!(bytes, expected);
}

#[test]
fn note_roundtrip_all_kinds() {
    let kinds = [
        NoteKind::Click,
        NoteKind::Hold { end_time: ONE, end_height: HALF },
        NoteKind::Flick,
        NoteKind::Drag,
    ];
    for kind in kinds {
        for speed in [ONE, HALF] {
            let n = sample_note(kind, speed);
            let bytes = encode_note(&n);
            let mut r = BinaryReader::new(bytes.clone());
            let m = r.read::<Note>().unwrap();
            assert_eq!(m.kind, kind);
            assert_eq!(m.time_ms, 2500);
            assert_eq!(m.height, HALF);
            assert_eq!(m.speed, speed);
            assert!(m.above);
            assert!(!m.fake);
            assert_eq!(encode_note(&m), bytes);
        }
    }
}

#[test]
fn note_speed_flag() {
    let with_speed = encode_note(&sample_note(NoteKind::Click, HALF));
    let without = encode_note(&sample_note(NoteKind::Click, ONE));
    assert_eq!(with_speed.len(), without.len() + 4);
}

#[test]
fn note_time_counts_from_object_time() {
    let mut n = sample_note(NoteKind::Drag, ONE);
    n.object.alpha = Anim::new(vec![kf(2000, ONE, TweenCode::Static(0))]);
    let bytes = encode_note(&n);
    let mut r = BinaryReader::new(bytes);
    let m = r.read::<Note>().unwrap();
    assert_eq!(m.time_ms, 2500);
}

#[test]
fn invalid_note_kind() {
    let mut bytes = vec![1, 0, 1, 0, 1, 0, 1, 0, 1, 0, 1, 0];
    bytes.push(4);
    let mut r = BinaryReader::new(bytes);
    assert_eq!(r.read::<Note>().err(), Some(BinaryError::InvalidNoteKind));
}

#[test]
fn chart_settings_bytes() {
    let s = ChartSettings { pe_alpha_extension: true, hold_partial_cover: false };
    let mut w = BinaryWriter::new(Vec::new());
    w.write(&s).unwrap();
    let bytes = w.into_inner();
    assert_eq!(bytes, vec![1, 0]);
    let mut r = BinaryReader::new(bytes);
    assert_eq!(r.read::<ChartSettings>(), Ok(s));
    let mut r = BinaryReader::new(vec![2, 1]);
    assert_eq!(
        r.read::<ChartSettings>(),
        Ok(ChartSettings { pe_alpha_extension: false, hold_partial_cover: true })
    );
}

#[test]
fn hit_sound_from_kind() {
    assert!(matches!(HitSound::default_from_kind(&NoteKind::Click), HitSound::Click));
    assert!(matches!(
        HitSound::default_from_kind(&NoteKind::Hold { end_time: ONE, end_height: ONE }),
        HitSound::Click
    ));
    assert!(matches!(HitSound::default_from_kind(&NoteKind::Flick), HitSound::Flick));
    assert!(matches!(HitSound::default_from_kind(&NoteKind::Drag), HitSound::Drag));
}

fn sample_line(kind: prpr::line::JudgeLineKind, notes: Vec<Note>) -> prpr::line::JudgeLine {
    prpr::line::JudgeLine {
        object: Object::new(),
        ctrl_obj: CtrlObject {
            alpha: Anim::default(),
            size: Anim::default(),
            pos: Anim::default(),
            y: Anim::default(),
        },
        kind,
        height: Anim::fixed(HALF),
        incline: Anim::default(),
        notes,
        color: Anim::default(),
        parent: Some(3),
        z_index: -2,
        show_below: true,
        attach_ui: Some(prpr::line::UIElement::Score),
    }
}

fn encode_line(l: &prpr::line::JudgeLine, w: &mut BinaryWriter) {
    l.write_binary(w).unwrap();
}

#[test]
fn judge_line_roundtrip() {
    let kinds = vec![
        JudgeLineKind::Normal,
        JudgeLineKind::Texture("line.png".to_string()),
        JudgeLineKind::Text(Anim::new(vec![Keyframe::new(0, "hi".to_string(), 0)])),
        JudgeLineKind::Paint(Anim::fixed(ONE)),
    ];
    for kind in kinds {
        let line = sample_line(kind, vec![sample_note(NoteKind::Click, ONE)]);
        let mut w = BinaryWriter::new(Vec::new());
        encode_line(&line, &mut w);
        let bytes = w.into_inner();
        let mut r = BinaryReader::new(bytes.clone());
        let back = JudgeLine::read_binary(&mut r).unwrap();
        assert_eq!(back.parent, Some(3));
        assert_eq!(back.z_index, -2);
        assert!(back.show_below);
        assert_eq!(back.attach_ui, Some(prpr::line::UIElement::Score));
        assert_eq!(back.notes.len(), 1);
        assert_eq!(back.notes[0].time_ms, 2500);
        let mut w = BinaryWriter::new(Vec::new());
        encode_line(&back, &mut w);
        assert_eq!(w.into_inner(), bytes);
    }
}

#[test]
fn judge_line_tail_bytes() {
    let mut line = sample_line(prpr::line::JudgeLineKind::Normal, vec![]);
    line.parent = None;
    line.attach_ui = None;
    let mut w = BinaryWriter::new(Vec::new());
    encode_line(&line, &mut w);
    let bytes = w.into_inner();
    // parent 0, show below 1, no element 0, control tag 8 and four empty
    // chains, empty incline, z index -2
    let tail = &bytes[bytes.len() - 18..];
    assert_eq!(tail, &[0, 1, 0, 8, 1, 0, 1, 0, 1, 0, 1, 0, 1, 0, 0xfe, 0xff, 0xff, 0xff][..]);
}

#[test]
fn judge_line_kind_errors() {
    let mut bytes = vec![1, 0, 1, 0, 1, 0, 1, 0, 1, 0, 1, 0];
    bytes.push(5);
    let mut r = BinaryReader::new(bytes);
    assert_eq!(
        prpr::line::JudgeLine::read_binary(&mut r).err(),
        Some(BinaryError::InvalidLineKind)
    );
}

#[test]
fn ui_element_codes() {
    for b in 0u8..=10 {
        match UIElement::from_u8(b) {
            Some(e) => assert_eq!(e.to_u8(), b),
            None => assert!(b == 0 || b > 7),
        }
    }
    assert_eq!(UIElement::from_u8(1), Some(UIElement::Bar));
    assert_eq!(UIElement::from_u8(7), Some(UIElement::Level));
}

#[test]
fn second_line_without_keyframes_reads_other_note_times() {
    // The writer keeps its running time across lines, the reader starts
    // each line from zero: a line whose object, kind and height hold no
    // keyframe is read with note times shifted by the previous line's end.
    let mut first = sample_line(prpr::line::JudgeLineKind::Normal, vec![]);
    first.incline = Anim::new(vec![kf(1000, ONE, TweenCode::Static(0))]);
    let mut second = sample_line(prpr::line::JudgeLineKind::Normal, vec![sample_note(NoteKind::Click, ONE)]);
    second.height = Anim::default();
    let mut w = BinaryWriter::new(Vec::new());
    encode_line(&first, &mut w);
    encode_line(&second, &mut w);
    let mut r = BinaryReader::new(w.into_inner());
    prpr::line::JudgeLine::read_binary(&mut r).unwrap();
    let back = prpr::line::JudgeLine::read_binary(&mut r).unwrap();
    assert_eq!(back.notes[0].time_ms, 1500);
}

#[test]
fn empty_chart_bytes() {
    let c = prpr::chart::ChartFile {
        offset: HALF,
        lines: vec![],
        settings: ChartSettings { pe_alpha_extension: false, hold_partial_cover: true },
    };
    let mut w = BinaryWriter::new(Vec::new());
    c.write_binary(&mut w).unwrap();
    let bytes = w.into_inner();
    assert_eq!(bytes, vec![0x00, 0x00, 0x00, 0x3f, 0, 0, 1]);
    let mut r = BinaryReader::new(bytes);
    let back = prpr::chart::ChartFile::read_binary(&mut r).unwrap();
    assert_eq!(back.offset, HALF);
    assert!(back.lines.is_empty());
    assert!(back.settings.hold_partial_cover);
}

#[test]
fn chart_roundtrip_with_lines() {
    let first = sample_line(JudgeLineKind::Normal, vec![sample_note(NoteKind::Flick, ONE)]);
    let mut second = sample_line(JudgeLineKind::Texture("t.png".to_string()), vec![sample_note(NoteKind::Drag, HALF)]);
    second.parent = Some(0);
    let c = prpr::chart::ChartFile {
        offset: ONE,
        lines: vec![first, second],
        settings: ChartSettings { pe_alpha_extension: true, hold_partial_cover: false },
    };
    let mut w = BinaryWriter::new(Vec::new());
    c.write_binary(&mut w).unwrap();
    let bytes = w.into_inner();
    let mut r = BinaryReader::new(bytes.clone());
    let back = prpr::chart::ChartFile::read_binary(&mut r).unwrap();
    assert_eq!(back.lines.len(), 2);
    assert_eq!(back.lines[1].parent, Some(0));
    assert_eq!(back.lines[1].notes[0].time_ms, 2500);
    assert_eq!(back.lines[1].notes[0].speed, HALF);
    let mut w = BinaryWriter::new(Vec::new());
    back.write_binary(&mut w).unwrap();
    assert_eq!(w.into_inner(), bytes);
}

#[test]
fn chart_truncated() {
    let mut r = BinaryReader::new(vec![0, 0, 0x80, 0x3f, 1]);
    assert_eq!(prpr::chart::ChartFile::read_binary(&mut r).err(), Some(BinaryError::UnexpectedEof));
}

#[test]
fn rpe_hitsound_names() {
    assert!(matches!(HitSound::from_rpe_name(Some("flick.mp3".to_string()), &NoteKind::Click), HitSound::Flick));
    assert!(matches!(HitSound::from_rpe_name(Some("tap.mp3".to_string()), &NoteKind::Drag), HitSound::Click));
    assert!(matches!(HitSound::from_rpe_name(Some("drag.mp3".to_string()), &NoteKind::Flick), HitSound::Drag));
    match HitSound::from_rpe_name(Some("boom.ogg".to_string()), &NoteKind::Click) {
        HitSound::Custom(name) => assert_eq!(name, "boom.ogg"),
        _ => panic!("expected a custom sound"),
    }
    assert!(matches!(HitSound::from_rpe_name(None, &NoteKind::Drag), HitSound::Drag));
    assert!(matches!(HitSound::from_rpe_name(None, &NoteKind::Flick), HitSound::Flick));
    assert!(matches!(HitSound::from_rpe_name(None, &NoteKind::Click), HitSound::Click));
}

#[test]
fn parent_cycles_are_found() {
    assert_eq!(find_parent_cycle(&vec![]), None);
    assert_eq!(find_parent_cycle(&vec![None, Some(0), Some(1)]), None);
    // 0 -> 1 -> 2 -> 1: from line 0 the parents come back to line 1
    assert_eq!(find_parent_cycle(&vec![Some(1), Some(2), Some(1)]), Some(1));
    // a line that is its own parent
    assert_eq!(find_parent_cycle(&vec![None, Some(1)]), Some(1));
    // 0 -> 1 -> 0
    assert_eq!(find_parent_cycle(&vec![Some(1), Some(0), None]), Some(0));
    assert_eq!(rpe_parent(None), None);
    assert_eq!(rpe_parent(Some(-1)), None);
    assert_eq!(rpe_parent(Some(3)), Some(3));
    assert_eq!(rpe_parent(Some(-2)), Some(u64::MAX - 1));
}

#[test]
fn parents_must_name_lines() {
    assert!(all_parents_in_range(&vec![None, Some(0), Some(1)]));
    assert!(!all_parents_in_range(&vec![None, Some(2)]));
    assert!(all_parents_in_range(&vec![]));
}

fn placed_line(z_index: i32, attach_ui: Option<prpr::line::UIElement>) -> prpr::line::JudgeLine {
    let mut l = sample_line(prpr::line::JudgeLineKind::Normal, Vec::new());
    l.z_index = z_index;
    l.attach_ui = attach_ui;
    l
}

#[test]
fn lines_draw_by_z_index_and_attach_to_ui() {
    let lines = vec![
        placed_line(3, None),
        placed_line(0, Some(prpr::line::UIElement::Bar)),
        placed_line(-1, None),
        placed_line(3, None),
        placed_line(0, None),
        placed_line(5, Some(prpr::line::UIElement::Level)),
        placed_line(1, Some(prpr::line::UIElement::Bar)),
    ];
    let d = draw_order(&lines);
    assert_eq!(d.order, vec![2, 4, 0, 3]);
    assert_eq!(d.attach_ui, [Some(6), None, None, None, None, None, Some(5)]);
    let d = draw_order(&vec![]);
    assert!(d.order.is_empty());
    assert_eq!(d.attach_ui, [None; 7]);
}
