use codex_usage_monitor::codex_locator::{
    begin_locate, candidate_paths, candidate_places, executable_name, judge_abilities,
    judge_version, CodexInstallation, LocateStart, LocateStep, LocatorPlatform, Search,
};
use codex_usage_monitor::error::AppError;

#[test]
fn explicit_nonexistent_path_is_not_reported_as_candidate() {
    let custom = "/definitely/not/a/real/codex-executable";
    let places = candidate_places(
        LocatorPlatform::Other,
        &Some(custom.to_owned()),
        &vec!["/usr/bin".to_owned()],
        &None,
        &vec![],
    );
    assert_eq!(places[0], custom);
    let is_file = places.iter().map(|place| place != custom).collect();
    let paths = candidate_paths(&places, &is_file);
    assert!(!paths.iter().any(|path| path == custom));
    assert_eq!(paths, vec!["/usr/bin/codex"]);
}

#[test]
fn every_place_is_looked_at_in_order() {
    let dirs = vec!["/b".to_owned(), "/a/".to_owned()];
    assert_eq!(
        candidate_places(
            LocatorPlatform::Mac,
            &Some(String::new()),
            &dirs,
            &Some("/Users/me".to_owned()),
            &vec![]
        ),
        vec![
            "/b/codex",
            "/a/codex",
            "/opt/homebrew/bin/codex",
            "/usr/local/bin/codex",
            "/Applications/ChatGPT.app/Contents/Resources/codex",
            "/Users/me/.local/bin/codex",
            "/Users/me/.npm-global/bin/codex",
            "/Users/me/.cargo/bin/codex",
        ]
    );
    assert_eq!(
        candidate_places(
            LocatorPlatform::Windows,
            &None,
            &vec![r"C:\bin".to_owned()],
            &None,
            &vec![r"C:\Local".to_owned(), r"C:\Roaming".to_owned()]
        ),
        vec![
            r"C:\bin\codex.exe",
            r"C:\Local\OpenAI\Codex\codex.exe",
            r"C:\Local\npm\codex.exe",
            r"C:\Local\Programs\Codex\codex.exe",
            r"C:\Roaming\OpenAI\Codex\codex.exe",
            r"C:\Roaming\npm\codex.exe",
            r"C:\Roaming\Programs\Codex\codex.exe",
        ]
    );
    assert_eq!(executable_name(LocatorPlatform::Windows), "codex.exe");
    assert_eq!(executable_name(LocatorPlatform::Other), "codex");
}

#[test]
fn no_candidate_is_kept_twice() {
    let places = vec!["/a".to_owned(), "/b".to_owned(), "/a".to_owned()];
    assert_eq!(
        candidate_paths(&places, &vec![true, true, true]),
        vec!["/a", "/b"]
    );
    assert_eq!(
        candidate_paths(&places, &vec![false, true, true]),
        vec!["/b", "/a"]
    );
}

#[test]
fn a_given_path_is_the_only_one() {
    assert_eq!(
        begin_locate(&Some("/x".to_owned()), true),
        Ok(LocateStart::Probe("/x".to_owned()))
    );
    assert_eq!(
        begin_locate(&Some("/x".to_owned()), false),
        Err(AppError::CodexUnavailable(
            "自定义路径不存在或不是文件：/x".to_owned()
        ))
    );
    assert_eq!(
        begin_locate(&Some(String::new()), false),
        Ok(LocateStart::Search)
    );
    assert_eq!(begin_locate(&None, false), Ok(LocateStart::Search));
}

#[test]
fn the_first_good_candidate_ends_the_search() {
    let mut search = Search::new(vec!["/a".to_owned(), "/b".to_owned()]);
    assert_eq!(search.step(), LocateStep::Probe("/a".to_owned()));
    assert_eq!(
        search.judged("/a", Err(AppError::Timeout("检测 /a".to_owned()))),
        LocateStep::Probe("/b".to_owned())
    );
    let found = || CodexInstallation {
        path: "/b".to_owned(),
        version: "1".to_owned(),
        supports_app_server: true,
    };
    assert_eq!(
        search.judged("/b", Ok(found())),
        LocateStep::Finish(Ok(found()))
    );
    let mut search = Search::new(vec!["/a".to_owned()]);
    search.step();
    assert_eq!(
        search.judged("/a", Err(AppError::NotLoggedIn)),
        LocateStep::Finish(Err(AppError::CodexUnavailable(
            "/a: 账号尚未登录".to_owned()
        )))
    );
    assert_eq!(
        Search::new(vec![]).step(),
        LocateStep::Finish(Err(AppError::CodexUnavailable(
            "PATH 和常见安装位置中均未找到 codex".to_owned()
        )))
    );
}

#[test]
fn programs_are_judged_by_version_and_abilities() {
    assert_eq!(
        judge_version("/a", true, Some(0), " codex-cli 1.2 \n").unwrap(),
        "codex-cli 1.2"
    );
    assert_eq!(
        judge_version("/a", true, Some(0), "\n"),
        Err(AppError::CodexUnavailable("版本命令没有返回版本号".to_owned()))
    );
    assert_eq!(
        judge_version("/a", false, Some(-3), "x"),
        Err(AppError::CodexUnavailable(
            "/a --version 退出码 Some(-3)".to_owned()
        ))
    );
    assert_eq!(
        judge_version("/a", false, None, "x"),
        Err(AppError::CodexUnavailable("/a --version 退出码 None".to_owned()))
    );
    let good = judge_abilities("/a", "v".to_owned(), true, "Run the app server").unwrap();
    assert_eq!(good.path, "/a");
    assert!(good.supports_app_server);
    let refused = Err(AppError::ProtocolIncompatible(
        "已检测到 v，但不支持 codex app-server".to_owned(),
    ));
    assert_eq!(
        judge_abilities("/a", "v".to_owned(), false, "app server"),
        refused
    );
    assert_eq!(
        judge_abilities("/a", "v".to_owned(), true, "app-server"),
        refused
    );
}
