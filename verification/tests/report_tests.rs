use example_report::model::{Kind, Platform, ScreenshotState};
use example_report::report::{FileNameError, Report, ScreenshotData, UnplacedShot};
use example_report::run::{
    FolderError, MalformedLine, RerunFile, Run, newest_folders, rerun_directories, rerun_file_kind,
};
use example_report::model::{Example, ExampleCategory, ImageUrl, SnapshotViewerUrl};
use example_report::table::Table;

fn platform_is(p: &Platform, name: &str) -> bool {
    p.to_string() == name
}

fn outcome(run: &Run, name: &str, platform: &Platform) -> Option<Kind> {
    run.results
        .get(&name.to_string())
        .and_then(|t: &Table<Platform, Kind>| t.get(platform).copied())
}

fn flaky(report: &Report, category: &str, name: &str) -> Option<bool> {
    report
        .examples
        .get(&example_report::model::ExampleId {
            category: category.to_string(),
            name: name.to_string(),
        })
        .copied()
}

fn blank_run() -> Run {
    Run::from_folder_parts("202401021530-abc", Some("2024-01-02 15:30".to_string()))
        .unwrap()
        .unwrap()
}

fn shot(example: &str, changed: ScreenshotState, tag: Option<&str>, zero: bool) -> ScreenshotData {
    ScreenshotData {
        example: example.to_string(),
        screenshot: ImageUrl(format!("img/{}", example)),
        changed,
        tag: tag.map(|t| t.to_string()),
        diff_is_zero: zero,
        snapshot_url: SnapshotViewerUrl(format!("view/{}", example)),
    }
}

#[test]
fn platform_names() {
    assert_eq!(Platform::Linux.to_string(), "Linux");
    assert_eq!(Platform::Macos.to_string(), "macOS");
    assert_eq!(Platform::Windows.to_string(), "Windows");
    assert_eq!(Platform::Mobile.to_string(), "Mobile");
    assert_eq!(Platform::Tag("webgpu-chromium".to_string()).to_string(), "webgpu-chromium");
}

#[test]
fn platform_parse() {
    assert!(matches!(Platform::from_str("Linux"), Ok(Platform::Linux)));
    assert!(matches!(Platform::from_str("macOS"), Ok(Platform::Macos)));
    assert!(matches!(Platform::from_str("Windows"), Ok(Platform::Windows)));
    assert!(matches!(Platform::from_str("mobile"), Ok(Platform::Mobile)));
    assert_eq!(Platform::from_str("Mobile").err(), Some("Mobile".to_string()));
    assert_eq!(Platform::from_str("linux").err(), Some("linux".to_string()));
}

#[test]
fn platform_round_trip_desktop() {
    for p in [Platform::Linux, Platform::Macos, Platform::Windows] {
        let back = Platform::from_str(&p.to_string()).unwrap();
        assert_eq!(back.to_string(), p.to_string());
    }
    assert!(Platform::from_str(&Platform::Mobile.to_string()).is_err());
}

#[test]
fn kind_parse() {
    assert_eq!(Kind::from_str("successes"), Ok(Kind::Successes));
    assert_eq!(Kind::from_str("failures"), Ok(Kind::Failures));
    assert_eq!(Kind::from_str("no_screenshots"), Ok(Kind::NoScreenshots));
    assert_eq!(Kind::from_str("pixeleagle"), Ok(Kind::PixelEagle));
    assert_eq!(Kind::from_str("Successes"), Err("Successes".to_string()));
    assert!(Kind::Failures.lists_examples());
    assert!(!Kind::PixelEagle.lists_examples());
}

#[test]
fn folder_names() {
    let run = Run::from_folder_name("202401021530-abc123").unwrap().unwrap();
    assert_eq!(run.date, "2024-01-02 15:30");
    assert_eq!(run.commit, "abc123");
    assert!(Run::from_folder_name(".DS_Store").unwrap().is_none());
    assert_eq!(Run::from_folder_name("notadate-abc").err(), Some(FolderError::UnreadableDate));
    assert_eq!(Run::from_folder_name("202401021530").err(), Some(FolderError::MissingCommit));
    assert_eq!(Run::from_folder_name("202413021530-abc").err(), Some(FolderError::UnreadableDate));
}

#[test]
fn folder_parts_given_date() {
    let run = Run::from_folder_parts("x-deadbeef-more", Some("when".to_string())).unwrap().unwrap();
    assert_eq!(run.date, "when");
    assert_eq!(run.commit, "deadbeef");
    assert!(run.results.entries().is_empty());
    assert_eq!(Run::from_folder_parts("x-deadbeef", None).err(), Some(FolderError::UnreadableDate));
    assert!(Run::from_folder_parts(".x", None).unwrap().is_none());
}

#[test]
fn classify_plain_files() {
    let mut report = Report::new();
    let (p, k) = report.classify_file("Linux-successes").unwrap().unwrap();
    assert!(platform_is(&p, "Linux") && k == Kind::Successes);
    let (p, k) = report.classify_file("mobile-pixeleagle").unwrap().unwrap();
    assert!(platform_is(&p, "Mobile") && k == Kind::PixelEagle);
    let (p, k) = report.classify_file("Windows-failures-extra").unwrap().unwrap();
    assert!(platform_is(&p, "Windows") && k == Kind::Failures);
    assert!(report.classify_file("macOS-status").unwrap().is_none());
    assert_eq!(report.classify_file("Plan9-successes").err(), Some(FileNameError::UnknownPlatform));
    assert_eq!(report.classify_file("Linux").err(), Some(FileNameError::MissingKind));
    assert!(report.wasm_platforms.to_vec().is_empty());
}

#[test]
fn classify_wasm_files() {
    let mut report = Report::new();
    let (p, k) = report.classify_file("wasm-webgpu-chromium-linux-pixeleagle").unwrap().unwrap();
    assert!(platform_is(&p, "webgpu-chromium-linux") && k == Kind::PixelEagle);
    assert_eq!(report.wasm_platforms.to_vec(), vec!["webgpu-chromium-linux".to_string()]);
    assert_eq!(report.classify_file("wasm-nodash").err(), Some(FileNameError::WasmWithoutKind));
    assert_eq!(report.classify_file("wasm-tag-bogus").err(), Some(FileNameError::UnknownWasmKind));
    assert_eq!(report.wasm_platforms.to_vec().len(), 1);
}

#[test]
fn outcome_lists_mark_examples() {
    let mut report = Report::new();
    let mut run = blank_run();
    let content = "2d/shapes - ok\r\n3d/lighting - 1s\n";
    report.record_outcomes(&mut run, &Platform::Linux, Kind::Failures, content).unwrap();
    assert_eq!(flaky(&report, "2d", "shapes"), Some(true));
    assert_eq!(flaky(&report, "3d", "lighting"), Some(true));
    assert_eq!(outcome(&run, "shapes", &Platform::Linux), Some(Kind::Failures));
    report.record_outcomes(&mut run, &Platform::Linux, Kind::Successes, "2d/shapes\n2d/text").unwrap();
    assert_eq!(flaky(&report, "2d", "shapes"), Some(true));
    assert_eq!(flaky(&report, "2d", "text"), Some(false));
    assert_eq!(outcome(&run, "shapes", &Platform::Linux), Some(Kind::Successes));
    assert_eq!(outcome(&run, "text", &Platform::Windows), None);
}

#[test]
fn outcome_list_with_bad_line_changes_nothing() {
    let mut report = Report::new();
    let mut run = blank_run();
    let r = report.record_outcomes(&mut run, &Platform::Linux, Kind::Successes, "2d/a\nnoslash\n2d/b");
    assert_eq!(r, Err(MalformedLine { index: 1 }));
    assert_eq!(flaky(&report, "2d", "a"), None);
    assert!(run.results.entries().is_empty());
}

#[test]
fn screenshots_are_placed() {
    let mut report = Report::new();
    report.classify_file("wasm-webgl2-firefox-pixeleagle").unwrap();
    let mut run = blank_run();
    let wasm = Platform::Tag("webgl2-firefox".to_string());
    let shots = vec![
        shot("2d/sprite.png", ScreenshotState::Changed, None, false),
        shot("3d/fog.png", ScreenshotState::Similar, None, false),
    ];
    report.record_screenshots(&mut run, &wasm, &shots).unwrap();
    assert_eq!(flaky(&report, "Wasm", "sprite"), Some(true));
    assert_eq!(flaky(&report, "Wasm", "fog"), Some(false));
    assert_eq!(outcome(&run, "sprite", &wasm), Some(Kind::Successes));

    let plain = vec![shot("ui/button.png", ScreenshotState::Changed, None, true)];
    report.record_screenshots(&mut run, &Platform::Linux, &plain).unwrap();
    assert_eq!(flaky(&report, "ui", "button"), Some(true));
    let stored = run.screenshots.get(&"button".to_string()).unwrap().get(&Platform::Linux).unwrap();
    assert_eq!(stored.state, ScreenshotState::Similar);
    assert_eq!(stored.image.0, "img/ui/button.png");
}

#[test]
fn mobile_screenshots_get_tags() {
    let mut report = Report::new();
    let mut run = blank_run();
    let shots = vec![
        shot("ios-iphone15-17", ScreenshotState::Similar, None, true),
        shot("scene", ScreenshotState::Similar, Some("android 14 / pixel8"), true),
    ];
    report.record_screenshots(&mut run, &Platform::Mobile, &shots).unwrap();
    let mut tags = report.mobile_platforms.to_vec();
    tags.sort();
    assert_eq!(tags, vec!["android 14 / pixel8".to_string(), "ios 17 / iphone15".to_string()]);
    assert_eq!(flaky(&report, "Mobile", "Bevy Mobile Example"), Some(false));
    assert_eq!(flaky(&report, "Mobile", "scene"), Some(false));
    let tagged = Platform::Tag("ios 17 / iphone15".to_string());
    assert_eq!(outcome(&run, "Bevy Mobile Example", &tagged), Some(Kind::Successes));
}

#[test]
fn unplaceable_screenshot_changes_nothing() {
    let mut report = Report::new();
    let mut run = blank_run();
    let shots = vec![
        shot("ok/one.png", ScreenshotState::Changed, None, false),
        shot("noslash.png", ScreenshotState::Changed, None, false),
    ];
    let r = report.record_screenshots(&mut run, &Platform::Macos, &shots);
    assert_eq!(r, Err(UnplacedShot { index: 1 }));
    assert_eq!(flaky(&report, "ok", "one"), None);
    let r = report.record_screenshots(&mut run, &Platform::Mobile, &vec![shot("a-b", ScreenshotState::Changed, None, false)]);
    assert_eq!(r, Err(UnplacedShot { index: 0 }));
}

#[test]
fn existing_outcome_is_kept_for_screenshot() {
    let mut report = Report::new();
    let mut run = blank_run();
    report.record_outcomes(&mut run, &Platform::Linux, Kind::Failures, "2d/sprite - x").unwrap();
    report
        .record_screenshots(&mut run, &Platform::Linux, &vec![shot("2d/sprite.png", ScreenshotState::Similar, None, false)])
        .unwrap();
    assert_eq!(outcome(&run, "sprite", &Platform::Linux), Some(Kind::Failures));
}

#[test]
fn rerun_files() {
    assert!(matches!(rerun_file_kind("successes"), RerunFile::Successes));
    match rerun_file_kind("sprite.log") {
        RerunFile::Log(name) => assert_eq!(name, "sprite"),
        _ => panic!("expected a log"),
    }
    assert!(matches!(rerun_file_kind("failures"), RerunFile::Other));
    let dirs = rerun_directories();
    assert_eq!(dirs.len(), 3);
    assert_eq!(dirs[0].1, "status-rerun-Linux");
    assert_eq!(dirs[1].1, "status-rerun-Windows");
    assert_eq!(dirs[2].1, "status-rerun-Macos");
}

#[test]
fn rerun_successes_and_logs() {
    let mut run = blank_run();
    run.record_rerun_successes(&Platform::Windows, "2d/a - fine\n").unwrap();
    assert_eq!(outcome(&run, "a", &Platform::Windows), Some(Kind::NoScreenshots));
    assert_eq!(run.record_rerun_successes(&Platform::Windows, "bad"), Err(MalformedLine { index: 0 }));
    run.record_rerun_log(&Platform::Macos, "a", "\u{1b}[31merror\u{1b}[0m [[0m0m");
    let log = run.logs.get(&"a".to_string()).unwrap().get(&"macOS".to_string()).unwrap();
    assert_eq!(log, "error [[0m0m");
    run.record_rerun_log(&Platform::Linux, "b", "\u{1b}[0m");
    assert_eq!(run.logs.get(&"b".to_string()).unwrap().get(&"Linux".to_string()).unwrap(), "");
    run.record_rerun_log(&Platform::Linux, "c", "keep [0m and [33m\u{1b}[33mwarn\u{1b}[2m");
    assert_eq!(
        run.logs.get(&"c".to_string()).unwrap().get(&"Linux".to_string()).unwrap(),
        "keep [0m and [33mwarn"
    );
}

#[test]
fn finish_settles_flakiness_and_order() {
    let mut report = Report::new();
    let mut run = blank_run();
    report.record_outcomes(&mut run, &Platform::Linux, Kind::NoScreenshots, "ui/b\n2d/z\n").unwrap();
    report.record_outcomes(&mut run, &Platform::Linux, Kind::Failures, "2d/y\n").unwrap();
    report
        .record_screenshots(&mut run, &Platform::Windows, &vec![shot("3d/x.png", ScreenshotState::Changed, None, false)])
        .unwrap();
    report.add_run(run);
    let collected = report.finish();
    let listed: Vec<(String, String, bool)> = collected
        .examples
        .iter()
        .map(|e| (e.category.0.clone(), e.name.clone(), e.flaky))
        .collect();
    assert_eq!(
        listed,
        vec![
            ("2d".to_string(), "y".to_string(), true),
            ("2d".to_string(), "z".to_string(), false),
            ("3d".to_string(), "x".to_string(), true),
            ("ui".to_string(), "b".to_string(), false),
        ]
    );
    assert_eq!(collected.runs.len(), 1);
}

#[test]
fn same_example_ignores_flakiness() {
    let a = Example { name: "x".to_string(), category: ExampleCategory("2d".to_string()), flaky: true };
    let b = Example { name: "x".to_string(), category: ExampleCategory("2d".to_string()), flaky: false };
    let c = Example { name: "x".to_string(), category: ExampleCategory("3d".to_string()), flaky: true };
    assert!(a == b);
    assert!(a != c);
}

#[test]
fn newest_folders_first() {
    let names: Vec<String> = ["202401010000-a", ".hidden", "202403010000-c", "202402010000-b"]
        .iter()
        .map(|s| s.to_string())
        .collect();
    assert_eq!(
        newest_folders(&names, 3),
        vec!["202403010000-c".to_string(), "202402010000-b".to_string(), "202401010000-a".to_string()]
    );
    assert_eq!(newest_folders(&names, 10).len(), 4);
    assert_eq!(newest_folders(&names, 10)[3], ".hidden");
    assert!(newest_folders(&names, 0).is_empty());
}

#[test]
fn rerun_success_keeps_screenshot_outcome() {
    let mut report = Report::new();
    let mut run = blank_run();
    report
        .record_screenshots(&mut run, &Platform::Linux, &vec![shot("2d/a.png", ScreenshotState::Changed, None, false)])
        .unwrap();
    run.record_rerun_successes(&Platform::Linux, "2d/a - ok").unwrap();
    assert_eq!(outcome(&run, "a", &Platform::Linux), Some(Kind::NoScreenshots));
    assert!(run.screenshots.get(&"a".to_string()).unwrap().get(&Platform::Linux).is_some());
}

#[test]
fn platform_equality_and_clone() {
    let tag = Platform::Tag("webgpu".to_string());
    assert!(tag.clone() == tag);
    assert!(Platform::Linux == Platform::Linux);
    assert!(Platform::Linux != Platform::Windows);
    assert!(Platform::Tag("a".to_string()) != Platform::Tag("b".to_string()));
}
