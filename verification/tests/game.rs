use prpr::chart_files::{file_kind, info_candidate, pick_file, FileKind, InfoFormat};
use prpr::chart_format::{format_of_text, infer_chart_format, ChartFormat};
use prpr::config::{ChallengeModeColor, ClipType, Triple};
use prpr::dir::{Dir, DirError, DirPath, PathComponent};
use prpr::judge::{icon_index, JudgeInner, Judgement};
use prpr::platform::{available, button_to_id, MouseButton};
use prpr::replay::{replay_file_name, safe_file_name, PendingRecord, ReplayJudgement};
use prpr::request::RequestSlot;
use prpr::rpe::{parse_i32, rpe_line_kind, rpe_version, rpe_version_default, speed_easing_type, LineKindSource, VersionField};
use prpr::scene_stack::{ending_next_scene, game_next_scene, loading_next_scene, GameMode, NextScene, SceneStack, SceneWork};
use prpr::tween::{easing_from, StaticTween, TweenMajor, TweenMinor, TWEEN_COUNT};

#[test]
fn judge_commits_and_combo() {
    let mut j = JudgeInner::new(5);
    j.commit(Judgement::Perfect, false);
    j.commit(Judgement::Good, true);
    j.commit(Judgement::Good, false);
    assert_eq!(j.combo(), 3);
    assert_eq!(j.max_combo(), 3);
    j.commit(Judgement::Miss, false);
    assert_eq!(j.combo(), 0);
    assert_eq!(j.max_combo(), 3);
    j.commit(Judgement::Bad, false);
    assert_eq!(j.counts(), [1, 2, 1, 1]);
    assert_eq!(j.early_late(), (1, 1));
    assert_eq!(j.num_of_notes(), 5);
    j.reset();
    assert_eq!(j.counts(), [0, 0, 0, 0]);
    assert_eq!(j.combo(), 0);
    assert_eq!(j.max_combo(), 0);
    assert_eq!(j.num_of_notes(), 5);
}

#[test]
fn icon_thresholds() {
    assert_eq!(icon_index(0, false), 0);
    assert_eq!(icon_index(699_999, true), 0);
    assert_eq!(icon_index(700_000, false), 1);
    assert_eq!(icon_index(820_000, false), 2);
    assert_eq!(icon_index(880_000, false), 3);
    assert_eq!(icon_index(920_000, false), 4);
    assert_eq!(icon_index(960_000, false), 5);
    assert_eq!(icon_index(960_000, true), 6);
    assert_eq!(icon_index(1_000_000, false), 7);
    assert_eq!(icon_index(1_000_000, true), 7);
}

#[test]
fn replay_judgements() {
    assert_eq!(ReplayJudgement::from_commit(Ok(Judgement::Perfect)), ReplayJudgement::Perfect);
    assert_eq!(ReplayJudgement::from_commit(Ok(Judgement::Miss)), ReplayJudgement::Miss);
    let hold = ReplayJudgement::from_commit(Err(true));
    assert!(hold.is_hold_prejudge());
    for j in [Judgement::Perfect, Judgement::Good, Judgement::Bad, Judgement::Miss] {
        let r = ReplayJudgement::from_commit(Ok(j));
        assert_eq!(r.to_judgement(), Some(j));
        assert!(!r.is_hold_prejudge());
    }
}

#[test]
fn pending_record_is_taken_once() {
    let mut p = PendingRecord::new();
    assert!(!p.take_pending_record());
    p.set_pending_record(true);
    assert!(p.take_pending_record());
    assert!(!p.take_pending_record());
}

#[test]
fn chart_formats() {
    assert_eq!(format_of_text("{\"META\":{}}", "{\"META\":{}}"), ChartFormat::Rpe);
    assert_eq!(format_of_text("{\"judgeLineList\":[]}", "{\"judgeLineList\":[]}"), ChartFormat::Pgr);
    assert_eq!(format_of_text("bp 0 120", "bp 0 120"), ChartFormat::Pec);
    assert_eq!(infer_chart_format(Some(ChartFormat::Pec), b"{\"META\":1}"), ChartFormat::Pec);
    assert_eq!(infer_chart_format(None, b"  \n{\"META\":1}"), ChartFormat::Rpe);
    assert_eq!(infer_chart_format(None, b"{}"), ChartFormat::Pgr);
    assert_eq!(infer_chart_format(None, b"offset 0"), ChartFormat::Pec);
    assert_eq!(infer_chart_format(None, &[0xff, 0xfe, 0x00]), ChartFormat::Pbc);
}

#[test]
fn judge_counts_follow_the_sequence_of_commits() {
    let seq = [
        (Judgement::Perfect, false),
        (Judgement::Good, true),
        (Judgement::Bad, false),
        (Judgement::Perfect, false),
        (Judgement::Good, false),
        (Judgement::Perfect, false),
        (Judgement::Miss, false),
        (Judgement::Good, true),
    ];
    let mut j = JudgeInner::new(8);
    for (what, early) in seq {
        j.commit(what, early);
    }
    assert_eq!(j.counts(), [3, 3, 1, 1]);
    assert_eq!(j.combo(), 1);
    assert_eq!(j.max_combo(), 3);
    assert_eq!(j.early_late(), (2, 1));
    assert_eq!(j.num_of_notes(), 8);
}

#[test]
fn metadata_files_are_tried_in_order() {
    assert_eq!(info_candidate(0), Some((":info", InfoFormat::Yaml)));
    assert_eq!(info_candidate(1), Some(("info.yml", InfoFormat::Yaml)));
    assert_eq!(info_candidate(2), Some(("info.txt", InfoFormat::Text)));
    assert_eq!(info_candidate(3), Some(("info.csv", InfoFormat::Csv)));
    assert_eq!(info_candidate(4), None);
}

fn base_dir() -> Dir {
    Dir::new(DirPath { root: "/data".to_string(), names: vec!["charts".to_string()] }, true).ok().unwrap()
}

#[test]
fn dir_join_components() {
    let d = base_dir();
    let p = d
        .join_components(&[
            PathComponent::CurDir,
            PathComponent::Normal("a".to_string()),
            PathComponent::Normal("b".to_string()),
            PathComponent::ParentDir,
            PathComponent::Normal("c".to_string()),
        ])
        .unwrap();
    assert_eq!(p.root, "/data");
    assert_eq!(p.names, vec!["charts", "a", "c"]);
    assert_eq!(
        d.join_components(&[PathComponent::ParentDir]).err(),
        Some(DirError::PathTraversal)
    );
    assert_eq!(
        d.join_components(&[PathComponent::Normal("a".to_string()), PathComponent::ParentDir, PathComponent::ParentDir]).err(),
        Some(DirError::PathTraversal)
    );
    assert_eq!(d.join_components(&[PathComponent::Prefix]).err(), Some(DirError::PrefixInsideDir));
    let p = d.join_components(&[PathComponent::RootDir, PathComponent::Normal("x".to_string())]).unwrap();
    assert_eq!(p.names, vec!["charts", "x"]);
}

#[test]
fn dir_join_paths() {
    let d = base_dir();
    assert_eq!(d.join("a/b/../c").unwrap().names, vec!["charts", "a", "c"]);
    assert_eq!(d.join("../x").err(), Some(DirError::PathTraversal));
    assert_eq!(d.path_exists("a", true), Ok(true));
    assert_eq!(d.path_exists("a", false), Ok(false));
    assert_eq!(d.path_exists("..", true), Err(DirError::PathTraversal));
    assert!(d.open_dir("a", false).is_err());
    let sub = d.open_dir("a", true).ok().unwrap();
    assert_eq!(sub.path().names, vec!["charts", "a"]);
    assert!(Dir::new(DirPath { root: "/".to_string(), names: vec![] }, false).is_err());
}

#[test]
fn dir_plain_paths_always_join() {
    let d = base_dir();
    assert_eq!(d.join("").unwrap().names, vec!["charts"]);
    assert_eq!(d.join("x/y z/w.json").unwrap().names, vec!["charts", "x", "y z", "w.json"]);
    assert_eq!(d.open_dir("x/y", false).err(), Some(DirError::NotDir));
    assert_eq!(d.open_dir("x/y", true).ok().unwrap().path().names, vec!["charts", "x", "y"]);
    assert_eq!(d.path_exists("x/y", true), Ok(true));
}

#[test]
fn dir_climbing_paths_fail_everywhere() {
    let d = base_dir();
    assert_eq!(d.open_dir("../x", true).err(), Some(DirError::PathTraversal));
    assert_eq!(d.path_exists("../x", true), Err(DirError::PathTraversal));
    assert_eq!(d.path_exists("../x", false), Err(DirError::PathTraversal));
    assert_eq!(d.join("./a//b/").unwrap().names, vec!["charts", "a", "b"]);
    assert_eq!(d.join("/a").unwrap().names, vec!["charts", "a"]);
}

#[test]
fn rpe_line_kinds() {
    assert_eq!(rpe_line_kind("line.png", true, true, true, true), LineKindSource::Paint);
    assert_eq!(rpe_line_kind("line.png", false, true, true, false), LineKindSource::Text);
    assert_eq!(rpe_line_kind("line.png", false, false, true, true), LineKindSource::Normal);
    assert_eq!(rpe_line_kind("a.gif", true, true, true, true), LineKindSource::Gif);
    assert_eq!(rpe_line_kind("a.png", true, true, false, true), LineKindSource::CachedTexture);
    assert_eq!(rpe_line_kind("a.png", false, false, false, false), LineKindSource::LoadTexture);
    assert_eq!(rpe_line_kind("Line.png", true, false, false, false), LineKindSource::LoadTexture);
}

#[test]
fn rpe_defaults() {
    assert_eq!(rpe_version_default(), 160);
    assert_eq!(speed_easing_type(0), 1);
    assert_eq!(speed_easing_type(1), 1);
    assert_eq!(speed_easing_type(28), 28);
    assert_eq!(speed_easing_type(29), 1);
    assert_eq!(speed_easing_type(-3), 1);
}

#[test]
fn tween_ids() {
    assert_eq!(easing_from(TweenMajor::Plain, TweenMinor::In), 0);
    assert_eq!(easing_from(TweenMajor::Sine, TweenMinor::Out), 4);
    assert_eq!(easing_from(TweenMajor::Bounce, TweenMinor::InOut), TWEEN_COUNT - 1);
    let mut seen = std::collections::HashSet::new();
    for major in [
        TweenMajor::Plain,
        TweenMajor::Sine,
        TweenMajor::Quad,
        TweenMajor::Cubic,
        TweenMajor::Quart,
        TweenMajor::Quint,
        TweenMajor::Expo,
        TweenMajor::Circ,
        TweenMajor::Back,
        TweenMajor::Elastic,
        TweenMajor::Bounce,
    ] {
        for minor in [TweenMinor::In, TweenMinor::Out, TweenMinor::InOut] {
            assert!(seen.insert(easing_from(major, minor)));
        }
    }
    assert_eq!(seen.len(), TWEEN_COUNT as usize);
    assert_eq!(StaticTween(5).0, 5);
}

#[test]
fn config_values() {
    assert_eq!(Triple::default(), Triple(0, 0, 1));
    assert_ne!(ChallengeModeColor::Golden, ChallengeModeColor::Rainbow);
    assert_ne!(ClipType::Unclipped, ClipType::Scissor);
}

#[test]
fn chart_file_kinds() {

    assert_eq!(file_kind("chart.json"), FileKind::Chart);
    assert_eq!(file_kind("Chart.PEC"), FileKind::Chart);
    assert_eq!(file_kind("song.tar.mp3"), FileKind::Music);
    assert_eq!(file_kind("a.FLAC"), FileKind::Music);
    assert_eq!(file_kind("bg.JPeG"), FileKind::Illustration);
    assert_eq!(file_kind("bg.webp"), FileKind::Illustration);
    assert_eq!(file_kind("readme"), FileKind::Other);
    assert_eq!(file_kind("json"), FileKind::Other);
    assert_eq!(file_kind("x.mp3.txt"), FileKind::Other);
    assert_eq!(file_kind(".ogg"), FileKind::Music);
    assert_eq!(file_kind("trailing."), FileKind::Other);
}

#[test]
fn chart_file_picks() {

    let files: Vec<String> = ["info.yml", "b.PNG", "a.ogg", "c.jpg", "chart.json", "d.mp3"]
        .iter()
        .map(|s| s.to_string())
        .collect();
    assert_eq!(pick_file(None, &files, FileKind::Chart), Some("chart.json".to_string()));
    assert_eq!(pick_file(None, &files, FileKind::Music), Some("a.ogg".to_string()));
    assert_eq!(pick_file(None, &files, FileKind::Illustration), Some("b.PNG".to_string()));
    assert_eq!(pick_file(Some("given.wav".to_string()), &files, FileKind::Music), Some("given.wav".to_string()));
    assert_eq!(pick_file(None, &files[..1], FileKind::Music), None);
}

#[test]
fn scene_stack_overlay_and_pop() {
    let mut s: SceneStack<&str, u32> = SceneStack::new("menu");
    assert_eq!(s.len(), 1);
    s.overlay("song", 10);
    s.overlay("game", 25);
    assert_eq!(*s.top_mut(), "game");
    assert_eq!(s.pop(), 25);
    assert_eq!(*s.top_mut(), "song");
    s.replace_top("result");
    assert_eq!(*s.top_mut(), "result");
    assert_eq!(s.len(), 2);
    assert_eq!(s.pop(), 10);
    assert_eq!(*s.top_mut(), "menu");
    assert!(!s.should_exit());
    s.exit();
    assert!(s.should_exit());
}

#[test]
fn scene_stack_pop_n() {
    let mut s: SceneStack<u8, u32> = SceneStack::new(0);
    s.overlay(1, 100);
    s.overlay(2, 200);
    s.overlay(3, 300);
    assert_eq!(s.pop_n(2), vec![300, 200]);
    assert_eq!(s.len(), 2);
    assert_eq!(*s.top_mut(), 1);
    assert_eq!(s.pop_n(0), Vec::<u32>::new());
    *s.top_mut() = 9;
    assert_eq!(s.pop_n(1), vec![100]);
    assert_eq!(*s.top_mut(), 0);
}

#[test]
fn scene_stack_takes_its_part_of_requests() {
    let mut s: SceneStack<u8, u32> = SceneStack::new(0);
    s.overlay(1, 100);
    s.overlay(2, 200);
    let (ts, w) = s.take_next(NextScene::<u8, &str>::Stay);
    assert!(ts.is_empty() && matches!(w, SceneWork::Nothing));
    let (ts, w) = s.take_next(NextScene::<u8, &str>::Overlay(7));
    assert!(ts.is_empty() && matches!(w, SceneWork::EnterThenOverlay(7)));
    assert_eq!(s.len(), 3);
    let (ts, w) = s.take_next(NextScene::<u8, &str>::PopWithResult("done"));
    assert_eq!(ts, vec![200]);
    assert!(matches!(w, SceneWork::ResultThenEnterTop("done")));
    assert_eq!(*s.top_mut(), 1);
    let (ts, w) = s.take_next(NextScene::<u8, &str>::Replace(5));
    assert!(ts.is_empty() && matches!(w, SceneWork::EnterThenReplace(5)));
    assert_eq!(*s.top_mut(), 1);
    let (ts, w) = s.take_next(NextScene::<u8, &str>::PopN(1));
    assert_eq!(ts, vec![100]);
    assert!(matches!(w, SceneWork::EnterTop));
    assert_eq!(*s.top_mut(), 0);
    let (ts, w) = s.take_next(NextScene::<u8, &str>::Exit);
    assert!(ts.is_empty() && matches!(w, SceneWork::Nothing));
    assert!(s.should_exit());
}

#[test]
fn safe_chart_file_names() {
    assert_eq!(safe_file_name("Song: A/B?"), "Song_ A_B_");
    assert_eq!(safe_file_name("plain name"), "plain name");
    assert_eq!(safe_file_name("tab\there\u{7f}"), "tab_here_");
    assert_eq!(safe_file_name("<\"*|\\>"), "______");
    assert_eq!(safe_file_name("日本語"), "日本語");
}

#[test]
fn mouse_button_ids() {
    assert_eq!(button_to_id(MouseButton::Left), u64::MAX);
    assert_eq!(button_to_id(MouseButton::Middle), u64::MAX - 1);
    assert_eq!(button_to_id(MouseButton::Right), u64::MAX - 2);
    assert_eq!(button_to_id(MouseButton::Unknown), u64::MAX - 3);
}

#[test]
fn os_version_available() {
    assert!(available("14.0", "14.0"));
    assert!(available("13.4", "14.0"));
    assert!(!available("15", "14.7.1"));
    assert!(available("14", "14.7.1"));
    assert!(!available("14.7.1", "14"));
    assert!(available("", "1"));
    // digits are compared one by one, as characters
    assert!(!available("9", "10"));
}

#[test]
fn replay_file_names() {
    assert_eq!(replay_file_name(1700000000, "Song: A/B"), "1700000000_Song_ A_B.json");
    assert_eq!(replay_file_name(0, ""), "0_.json");
    assert_eq!(replay_file_name(-5, "x"), "-5_x.json");
    assert_eq!(replay_file_name(i64::MIN, "a"), "-9223372036854775808_a.json");
    assert_eq!(replay_file_name(i64::MAX, "a"), "9223372036854775807_a.json");
}

#[test]
fn ending_scene_choices() {
    let (n, pause) = ending_next_scene::<u8, &str>(true, 2, Some("rec"));
    assert!(matches!(n, NextScene::Stay) && !pause);
    let (n, pause) = ending_next_scene::<u8, &str>(false, 0, None);
    assert!(matches!(n, NextScene::Stay) && !pause);
    let (n, pause) = ending_next_scene::<u8, &str>(false, 1, Some("rec"));
    assert!(matches!(n, NextScene::Pop) && pause);
    let (n, pause) = ending_next_scene::<u8, &str>(false, 2, Some("rec"));
    assert!(matches!(n, NextScene::PopNWithResult(2, "rec")) && pause);
    let (n, _) = ending_next_scene::<u8, &str>(false, 2, None);
    assert!(matches!(n, NextScene::PopN(2)));
}

#[test]
fn game_scene_choices() {
    let mut pending: Option<NextScene<u8, i32>> = Some(NextScene::Overlay(7));
    let (n, reset) = game_next_scene(true, GameMode::TweakOffset, -1, &mut pending);
    assert!(matches!(n, NextScene::PopWithResult(-1)) && reset);
    assert!(pending.is_some());
    let (n, reset) = game_next_scene(true, GameMode::Normal, -1, &mut pending);
    assert!(matches!(n, NextScene::Pop) && reset);
    let (n, reset) = game_next_scene(false, GameMode::Normal, -1, &mut pending);
    assert!(matches!(n, NextScene::Overlay(7)) && reset);
    assert!(pending.is_none());
    let (n, reset) = game_next_scene(false, GameMode::View, -1, &mut pending);
    assert!(matches!(n, NextScene::Stay) && !reset);
}

#[test]
fn loading_scene_choices() {
    let mut pending: Option<NextScene<u8, i32>> = Some(NextScene::Replace(3));
    assert!(matches!(loading_next_scene(false, &mut pending), NextScene::Stay));
    assert!(pending.is_some());
    assert!(matches!(loading_next_scene(true, &mut pending), NextScene::Replace(3)));
    assert!(pending.is_none());
    assert!(matches!(loading_next_scene(true, &mut pending), NextScene::Stay));
    let mut pending: Option<NextScene<u8, i32>> = Some(NextScene::PopWithResult(9));
    assert!(matches!(loading_next_scene(false, &mut pending), NextScene::PopWithResult(9)));
    assert!(pending.is_none());
}

#[test]
fn parse_i32_agrees_with_std() {
    for s in [
        "0", "7", "+7", "-7", "00012", "-0", "2147483647", "2147483648", "-2147483648", "-2147483649",
        "99999999999999999999", "", "+", "-", " 1", "1 ", "1_000", "٣", "12a", "--1", "+-1",
    ] {
        assert_eq!(parse_i32(s), s.parse::<i32>().ok(), "{s:?}");
    }
}

#[test]
fn rpe_versions() {
    assert_eq!(rpe_version(&VersionField::Number(Some(150))), 150);
    assert_eq!(rpe_version(&VersionField::Number(Some(4_294_967_456))), 160);
    assert_eq!(rpe_version(&VersionField::Number(Some(-1))), -1);
    assert_eq!(rpe_version(&VersionField::Number(None)), 160);
    assert_eq!(rpe_version(&VersionField::Text("170".to_string())), 170);
    assert_eq!(rpe_version(&VersionField::Text("v170".to_string())), 160);
    assert_eq!(rpe_version(&VersionField::Other), 160);
}

#[test]
fn request_slot_round_trip() {
    let mut slot = RequestSlot::new();
    assert_eq!(slot.take(), None);
    slot.request("chart".to_string());
    assert_eq!(slot.take(), None);
    slot.deliver("/tmp/a.json".to_string());
    assert_eq!(slot.take(), Some(("chart".to_string(), "/tmp/a.json".to_string())));
    assert_eq!(slot.take(), None);
    slot.put_back("avatar".to_string(), "/tmp/me.png".to_string());
    assert_eq!(slot.take(), Some(("avatar".to_string(), "/tmp/me.png".to_string())));
    slot.deliver("late".to_string());
    slot.request("music".to_string());
    assert_eq!(slot.take(), None);
}
