use codex_usage_monitor::desktop_host::{
    advance_stop, all_absent, begin_stop, check_launch, classify_bundle, descendant_pids,
    is_macos_codex_bundle_id, is_msix_path, is_windows_codex_host_path, judge_aumid, judge_signal,
    packaged_shutdown, parse_process_list, read_windows_processes, restart_after_switch,
    stop_for_switch, BundleKind, HostPlatform, HostShutdown, LaunchTarget, ProcessInfo,
    RunningHost, Sighting, StopDecision, StopNext, StopStage,
};
use codex_usage_monitor::error::AppError;

#[test]
fn host_that_was_not_running_is_never_started() {
    let shutdown = HostShutdown {
        was_running: false,
        launch_target: None,
    };
    assert!(!restart_after_switch(&shutdown).unwrap());
}

#[test]
fn macos_bundle_id_check_excludes_ordinary_chatgpt() {
    assert!(is_macos_codex_bundle_id("com.openai.codex"));
    assert!(!is_macos_codex_bundle_id("com.openai.chat"));
    assert!(!is_macos_codex_bundle_id("com.example.ChatGPT"));
}

#[test]
fn windows_path_check_is_case_insensitive_and_needs_codex_evidence() {
    assert!(is_windows_codex_host_path(
        r"C:\Program Files\WindowsApps\OpenAI.Codex_1.0\ChatGPT.exe",
        false
    ));
    assert!(is_windows_codex_host_path(
        r"C:\Users\Me\AppData\Local\Programs\ChatGPT\ChatGPT.exe",
        true
    ));
    assert!(!is_windows_codex_host_path(
        r"C:\Program Files\WindowsApps\OpenAI.Chat_1.0\ChatGPT.exe",
        false
    ));
    assert!(is_windows_codex_host_path(
        r"C:\Program Files\WindowsApps\OpenAI.ChatGPT_2.0\ChatGPT.exe",
        true
    ));
    assert!(!is_windows_codex_host_path(r"C:\Tools\ChatGPT.exe", false));
}

fn process(pid: u32, parent_pid: u32, executable: &str) -> ProcessInfo {
    ProcessInfo {
        pid,
        parent_pid,
        name: String::new(),
        executable: executable.to_owned(),
        command_line: String::new(),
    }
}

fn mac(processes: Vec<ProcessInfo>, kinds: Vec<BundleKind>) -> Sighting {
    let embedded = processes.iter().map(|_| false).collect();
    Sighting {
        processes,
        kinds,
        embedded,
    }
}

fn windows(processes: Vec<ProcessInfo>, embedded: Vec<bool>) -> Sighting {
    let kinds = processes.iter().map(|_| BundleKind::Other).collect();
    Sighting {
        processes,
        kinds,
        embedded,
    }
}

const APP: &str = "/Applications/Codex.app/Contents/MacOS/Codex";
const SERVICE: &str = "/Applications/Codex.app/Contents/Resources/codex";

fn running() -> Sighting {
    mac(
        vec![
            process(1, 0, "/sbin/launchd"),
            process(20, 10, SERVICE),
            process(10, 1, APP),
            process(30, 20, "/bin/sh"),
            process(40, 1, "/Applications/ChatGPT.app/Contents/MacOS/ChatGPT"),
        ],
        vec![
            BundleKind::Other,
            BundleKind::Codex,
            BundleKind::Codex,
            BundleKind::Other,
            BundleKind::OrdinaryChat,
        ],
    )
}

fn host_of(sighting: &Sighting, platform: HostPlatform) -> RunningHost {
    match stop_for_switch(platform, sighting).unwrap() {
        StopDecision::Running(host) => host,
        other => panic!("unexpected {other:?}"),
    }
}

fn message(result: Result<StopDecision, AppError>) -> String {
    match result {
        Err(AppError::DesktopSwitch(detail)) => detail,
        other => panic!("unexpected {other:?}"),
    }
}

#[test]
fn bundles_are_told_by_their_identifier() {
    let id = |text: &str| Some(text.to_owned());
    assert_eq!(
        classify_bundle(&id("com.openai.codex"), false),
        BundleKind::Codex
    );
    assert_eq!(
        classify_bundle(&id("com.openai.chat"), true),
        BundleKind::OrdinaryChat
    );
    assert_eq!(
        classify_bundle(&id("com.example"), true),
        BundleKind::EmbeddedCodexOnly
    );
    assert_eq!(classify_bundle(&None, false), BundleKind::Other);
}

#[test]
fn process_lists_are_read_line_by_line() {
    let list = parse_process_list(
        "    1     0 /sbin/launchd\n 10 1 /Applications/A B.app/x\nnot a line\n7 3\n99999999999 1 /x\n",
    );
    assert_eq!(
        list,
        vec![
            process(1, 0, "/sbin/launchd"),
            process(10, 1, "/Applications/A B.app/x"),
        ]
    );
    let list = parse_process_list("1 0 /sbin/launchd");
    assert_eq!(list, vec![process(1, 0, "/sbin/launchd")]);
}

#[test]
fn a_padded_line_shows_the_running_host() {
    let list = parse_process_list(
        "  501     1 /Applications/ChatGPT.app/Contents/MacOS/ChatGPT\n",
    );
    assert_eq!(
        list,
        vec![process(501, 1, "/Applications/ChatGPT.app/Contents/MacOS/ChatGPT")]
    );
}

#[test]
fn windows_lists_are_read_entry_by_entry() {
    let list = read_windows_processes(
        &br#"[{"ProcessId": 4, "ParentProcessId": 0, "Name": "System", "ExecutablePath": null},
              {"ProcessId": 4294967296, "ParentProcessId": 0},
              {"ParentProcessId": 0},
              {"ProcessId": 9, "ParentProcessId": 4, "Name": "codex.exe",
               "ExecutablePath": "C:\\x\\codex.exe", "CommandLine": "codex app-server"}]"#
            .to_vec(),
    )
    .unwrap();
    assert_eq!(list.len(), 2);
    assert_eq!(list[0].name, "System");
    assert_eq!(list[0].executable, "");
    assert_eq!(list[1].command_line, "codex app-server");
    let one = read_windows_processes(&br#"{"ProcessId": 4, "ParentProcessId": 0}"#.to_vec()).unwrap();
    assert_eq!(one.len(), 1);
    assert_eq!(
        read_windows_processes(&b"oops".to_vec()),
        Err(AppError::DesktopSwitch(
            "Windows 进程列表格式无法解析".to_owned()
        ))
    );
}

#[test]
fn descendants_are_found_in_any_order() {
    let processes = vec![
        process(5, 4, ""),
        process(4, 3, ""),
        process(3, 2, ""),
        process(9, 8, ""),
        process(8, 9, ""),
        process(2, 1, ""),
    ];
    let mut found = descendant_pids(&processes, &vec![2]);
    found.sort();
    assert_eq!(found, vec![3, 4, 5]);
    assert!(descendant_pids(&processes, &vec![7]).is_empty());
    assert!(all_absent(&vec![1, 7], &processes));
    assert!(!all_absent(&vec![1, 8], &processes));
}

#[test]
fn a_first_look_tells_whether_the_application_runs() {
    let host = host_of(&running(), HostPlatform::Mac);
    assert_eq!(host.pids, vec![20, 10]);
    assert_eq!(host.bundle, "/Applications/Codex.app");
    assert!(host.descendants.contains(&30));
    assert!(!host.descendants.contains(&40));
    assert_eq!(
        stop_for_switch(HostPlatform::Mac, &mac(vec![], vec![])).unwrap(),
        StopDecision::NotRunning(HostShutdown {
            was_running: false,
            launch_target: None
        })
    );
    assert_eq!(
        message(stop_for_switch(
            HostPlatform::Unsupported,
            &mac(vec![], vec![])
        )),
        "当前平台不支持桌面账号切换"
    );
}

#[test]
fn what_cannot_be_told_is_left_alone() {
    assert_eq!(
        message(stop_for_switch(
            HostPlatform::Mac,
            &mac(vec![process(1, 0, "/opt/ChatGPT")], vec![BundleKind::Other])
        )),
        "检测到无法定位所属 .app 的 ChatGPT/Codex 候选进程；无法确认身份，请手动关闭 Codex 桌面宿主后重试"
    );
    assert_eq!(
        message(stop_for_switch(
            HostPlatform::Mac,
            &mac(
                vec![process(1, 0, "/A/X.app/y")],
                vec![BundleKind::EmbeddedCodexOnly]
            )
        )),
        "检测到内含 Codex CLI 但 Bundle ID 不是 com.openai.codex 的运行中应用：/A/X.app。为避免误关闭，请手动退出后重试"
    );
    assert_eq!(
        message(stop_for_switch(
            HostPlatform::Mac,
            &mac(
                vec![process(1, 0, "/A/X.app/y"), process(2, 0, "/B/X.app/y")],
                vec![BundleKind::Codex, BundleKind::Codex]
            )
        )),
        "同时检测到多个 com.openai.codex 桌面宿主安装实例；请手动全部退出后重试"
    );
    let mut hidden = process(1, 0, "");
    hidden.name = "ChatGPT.EXE".to_owned();
    assert_eq!(
        message(stop_for_switch(
            HostPlatform::Windows,
            &windows(vec![hidden], vec![false])
        )),
        "检测到无法读取完整路径的 ChatGPT/Codex 候选进程；无法确认身份，请手动关闭 Codex 桌面宿主后重试"
    );
}

#[test]
fn a_host_is_asked_told_and_forced_to_end() {
    let sighting = running();
    let host = host_of(&sighting, HostPlatform::Mac);
    let asked = begin_stop(&host);
    assert!(asked.signal.is_empty());
    assert!(!asked.force);
    assert_eq!(asked.wait_for, host.pids);
    assert_eq!(asked.wait_millis, 6_000);
    assert_eq!(asked.next, StopNext::Stage(StopStage::Asked));

    let told = advance_stop(&host, StopStage::Asked, &sighting);
    assert_eq!(told.signal, vec![20, 10]);
    assert!(!told.force);
    assert_eq!(told.wait_millis, 2_000);
    let forced = advance_stop(&host, StopStage::Terminated(vec![20, 10]), &sighting);
    assert!(forced.force);
    assert_eq!(forced.signal, vec![20, 10]);
    assert_eq!(
        advance_stop(&host, StopStage::Killed(vec![10]), &sighting).next,
        StopNext::Fail(AppError::DesktopSwitch(
            "已确认的 Codex 桌面宿主在有限等待后仍未退出".to_owned()
        ))
    );
    let gone = mac(vec![process(20, 1, SERVICE)], vec![BundleKind::Codex]);
    let ended = advance_stop(&host, StopStage::Killed(vec![10]), &gone);
    assert!(!ended.force);
    assert_eq!(ended.wait_millis, 0);
    assert_eq!(ended.next, StopNext::Stage(StopStage::Services));
    let services = advance_stop(&host, StopStage::Services, &gone);
    assert_eq!(services.signal, vec![20]);
    assert_eq!(
        services.next,
        StopNext::Stage(StopStage::ServicesTerminated(vec![20]))
    );
    let last = advance_stop(&host, StopStage::ServicesTerminated(vec![20]), &gone);
    assert!(last.force);
    assert_eq!(last.wait_millis, 0);
    assert_eq!(last.signal, vec![20]);
    assert_eq!(
        last.next,
        StopNext::Done(HostShutdown {
            was_running: true,
            launch_target: Some(LaunchTarget::MacBundle(
                "/Applications/Codex.app".to_owned()
            )),
        })
    );
}

#[test]
fn a_number_that_was_given_to_another_program_is_spared() {
    let host = host_of(&running(), HostPlatform::Mac);
    let reused = mac(vec![process(10, 1, "/bin/other")], vec![BundleKind::Other]);
    let next = advance_stop(&host, StopStage::Asked, &reused);
    assert!(next.signal.is_empty());
    assert!(!next.force);
    assert_eq!(next.wait_millis, 0);
    assert_eq!(next.next, StopNext::Stage(StopStage::Services));
    let changed = mac(vec![process(20, 1, "/bin/other")], vec![BundleKind::Other]);
    let next = advance_stop(&host, StopStage::ServicesTerminated(vec![20]), &changed);
    assert!(next.signal.is_empty());
    assert_eq!(
        next.next,
        StopNext::Fail(AppError::DesktopSwitch(
            "PID 20 的身份在结束 App Server 前发生变化".to_owned()
        ))
    );
}

#[test]
fn a_windows_host_is_started_again_as_it_came() {
    let path = r"C:\Users\Me\AppData\Local\Programs\ChatGPT\ChatGPT.exe";
    let mut service = process(2, 1, r"C:\Users\Me\AppData\Local\Programs\ChatGPT\resources\codex.exe");
    service.command_line = "codex.exe App-Server".to_owned();
    let mut stranger = process(3, 1, r"C:\Other\codex.exe");
    stranger.command_line = "codex.exe app-server".to_owned();
    let sighting = windows(
        vec![process(1, 0, path), service, stranger],
        vec![true, false, false],
    );
    let host = host_of(&sighting, HostPlatform::Windows);
    assert_eq!(host.pids, vec![1]);
    assert_eq!(host.executables, vec![path]);
    let forced = advance_stop(&host, StopStage::Asked, &sighting);
    assert!(forced.force);
    assert_eq!(forced.next, StopNext::Stage(StopStage::Killed(vec![1])));
    let services = advance_stop(&host, StopStage::Services, &sighting);
    assert_eq!(services.signal, vec![2]);
    assert!(services.force);
    assert_eq!(services.wait_millis, 0);
    assert_eq!(
        services.next,
        StopNext::Done(HostShutdown {
            was_running: true,
            launch_target: Some(LaunchTarget::WindowsExecutable(path.to_owned())),
        })
    );
    let packaged = r"C:\Program Files\WindowsApps\OpenAI.Codex_1.0\Codex.exe";
    assert!(is_msix_path(packaged));
    let sighting = windows(vec![process(1, 0, packaged)], vec![false]);
    let host = host_of(&sighting, HostPlatform::Windows);
    assert_eq!(
        advance_stop(&host, StopStage::Services, &sighting).next,
        StopNext::Resolve(packaged.to_owned())
    );
    assert_eq!(judge_aumid(true, " A!B \r\n").as_deref(), Some("A!B"));
    assert_eq!(judge_aumid(false, "A!B"), None);
    assert_eq!(judge_aumid(true, "  "), None);
    assert_eq!(
        packaged_shutdown(Some("A!B".to_owned())).launch_target,
        Some(LaunchTarget::WindowsAumid("A!B".to_owned()))
    );
    assert_eq!(packaged_shutdown(None).launch_target, None);
}

#[test]
fn signals_fail_only_where_the_program_still_runs() {
    let list = vec![process(5, 1, "")];
    assert!(judge_signal(HostPlatform::Mac, 5, true, &list).is_ok());
    assert!(judge_signal(HostPlatform::Mac, 6, false, &list).is_ok());
    assert_eq!(
        judge_signal(HostPlatform::Mac, 5, false, &list),
        Err(AppError::DesktopSwitch(
            "无法结束已确认的 Codex 桌面宿主进程 PID 5".to_owned()
        ))
    );
    assert_eq!(
        judge_signal(HostPlatform::Windows, 5, false, &list),
        Err(AppError::DesktopSwitch(
            "无法结束已确认的 Codex 进程 PID 5".to_owned()
        ))
    );
}

#[test]
fn only_a_confirmed_target_is_started() {
    let lost = HostShutdown {
        was_running: true,
        launch_target: None,
    };
    assert_eq!(
        restart_after_switch(&lost),
        Err(AppError::DesktopSwitch(
            "凭据已切换，但找不到经过身份确认的桌面宿主启动目标，请手动打开 Codex 桌面应用".to_owned()
        ))
    );
    let bundle = LaunchTarget::MacBundle("/A.app".to_owned());
    let program = LaunchTarget::WindowsExecutable("C:\\a.exe".to_owned());
    let package = LaunchTarget::WindowsAumid("A!B".to_owned());
    assert!(check_launch(&bundle, true).is_ok());
    assert_eq!(
        check_launch(&bundle, false),
        Err(AppError::DesktopSwitch(
            "桌面宿主启动前的 Bundle ID 复核失败".to_owned()
        ))
    );
    assert_eq!(
        check_launch(&program, false),
        Err(AppError::DesktopSwitch(
            "桌面宿主启动前的路径身份复核失败".to_owned()
        ))
    );
    assert!(check_launch(&package, false).is_ok());
    let shutdown = HostShutdown {
        was_running: true,
        launch_target: Some(bundle),
    };
    assert_eq!(restart_after_switch(&shutdown), Ok(true));
}
