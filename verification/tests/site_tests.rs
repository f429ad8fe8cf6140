use example_report::model::{Kind, Platform, ScreenshotState};
use example_report::run::Run;
use example_report::screenshot::{
    ComparedScreenshot, Comparison, DifferentScreenshot, comparison_to_screenshot_data, decimal_string,
    project_url,
};
use example_report::site::{StringRun, sort_key, sort_key_of_lowercase, sort_wasm_platforms};
use example_report::text::{chars_of, lines_exec, remove_all_exec, string_of};

fn strings(v: &[&str]) -> Vec<String> {
    v.iter().map(|s| s.to_string()).collect()
}

#[test]
fn wasm_keys() {
    assert_eq!(sort_key_of_lowercase("webgpu-chromium-linux"), (0, 0, 3));
    assert_eq!(sort_key_of_lowercase("linux-webgl2-firefox"), (1, 1, 0));
    assert_eq!(sort_key_of_lowercase("macos-webkit"), (2, 2, 1));
    assert_eq!(sort_key_of_lowercase("windows-other"), (2, 3, 2));
    assert_eq!(sort_key("Linux-WebGPU-Chromium"), (0, 0, 0));
}

#[test]
fn wasm_platforms_in_display_order() {
    let sorted = sort_wasm_platforms(&strings(&[
        "windows-webgl2-firefox",
        "linux-webgpu-webkit",
        "linux-webgl2-chromium",
        "macos-webgpu-chromium",
        "linux-webgpu-chromium",
    ]));
    assert_eq!(
        sorted,
        strings(&[
            "linux-webgpu-chromium",
            "macos-webgpu-chromium",
            "linux-webgpu-webkit",
            "linux-webgl2-chromium",
            "windows-webgl2-firefox",
        ])
    );
}

#[test]
fn string_run_uses_platform_names() {
    let mut run = Run::from_folder_parts("202401021530-abc", Some("d".to_string())).unwrap().unwrap();
    let mut report = example_report::report::Report::new();
    report.record_outcomes(&mut run, &Platform::Macos, Kind::Failures, "2d/a\n").unwrap();
    report.record_outcomes(&mut run, &Platform::Tag("webgpu".to_string()), Kind::Successes, "2d/a\n").unwrap();
    run.record_rerun_log(&Platform::Linux, "a", "log");
    let s = StringRun::from(run);
    assert_eq!(s.date, "d");
    assert_eq!(s.commit, "abc");
    let per_platform = s.results.get(&"a".to_string()).unwrap();
    assert_eq!(per_platform.get(&"macOS".to_string()), Some(&Kind::Failures));
    assert_eq!(per_platform.get(&"webgpu".to_string()), Some(&Kind::Successes));
    assert_eq!(per_platform.entries().len(), 2);
    assert_eq!(s.logs.get(&"a".to_string()).unwrap().get(&"Linux".to_string()).unwrap(), "log");
}

#[test]
fn decimal_numbers() {
    assert_eq!(string_of(&decimal_string(0)), "0");
    assert_eq!(string_of(&decimal_string(7)), "7");
    assert_eq!(string_of(&decimal_string(1234)), "1234");
    assert_eq!(string_of(&decimal_string(u32::MAX)), "4294967295");
}

#[test]
fn project_address() {
    assert_eq!(project_url("B04F67C0"), "https://pixel-eagle.com/B04F67C0/");
}

#[test]
fn comparison_urls() {
    let comparison = Comparison {
        project_id: "proj".to_string(),
        from: 12,
        to: 345,
        new: vec![ComparedScreenshot { name: "2d/new.png".to_string(), hash: "h1".to_string() }],
        unchanged: vec![ComparedScreenshot { name: "2d/same.png".to_string(), hash: "h2".to_string() }],
        diff: vec![
            DifferentScreenshot { name: "3d/diff.png".to_string(), hash: "h3".to_string(), diff_is_zero: false },
            DifferentScreenshot { name: "3d/zero.png".to_string(), hash: "h4".to_string(), diff_is_zero: true },
        ],
    };
    let data = comparison_to_screenshot_data(&comparison);
    assert_eq!(data.len(), 4);
    assert_eq!(data[0].example, "2d/new.png");
    assert_eq!(data[0].screenshot.0, "https://pixel-eagle.com/files/proj/screenshot/h1");
    assert_eq!(data[0].changed, ScreenshotState::Changed);
    assert!(data[0].diff_is_zero);
    assert_eq!(
        data[0].snapshot_url.0,
        "https://pixel-eagle.com/project/proj/run/12/compare/345?screenshot=2d/new.png"
    );
    assert_eq!(data[1].screenshot.0, "https://pixel-eagle.com/proj/screenshot/h2");
    assert_eq!(data[1].changed, ScreenshotState::Similar);
    assert_eq!(data[2].screenshot.0, "https://pixel-eagle.com/proj/screenshot/h3");
    assert_eq!(data[2].changed, ScreenshotState::Changed);
    assert!(!data[2].diff_is_zero);
    assert!(data[3].diff_is_zero);
    assert!(data.iter().all(|d| d.tag.is_none()));
}

#[test]
fn lines_like_str_lines() {
    for text in ["a\nb\r\nc", "a\n\nb\n", "", "\n", "x\r", "one"] {
        let got: Vec<String> = lines_exec(&chars_of(text)).iter().map(|l| string_of(l)).collect();
        let want: Vec<String> = text.lines().map(|l| l.to_string()).collect();
        assert_eq!(got, want, "lines of {:?}", text);
    }
}

#[test]
fn remove_all_like_replace() {
    for (text, pat) in [("[[0m0m", "[0m"), ("aaa", "aa"), ("x[31my[31m", "[31m"), ("none", "zz")] {
        let got = string_of(&remove_all_exec(&chars_of(text), &chars_of(pat)));
        assert_eq!(got, text.replace(pat, ""), "{:?} without {:?}", text, pat);
    }
}
