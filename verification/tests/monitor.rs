use atraverse::monitor::collect::{Collector, Incident};
use atraverse::monitor::line::{
    attribute_package, classify, incident_fingerprint, is_log_start, IncidentKind,
};

#[test]
fn classifies_lines() {
    assert_eq!(
        classify("09-09 23:50:01.123  1234  1234 E AndroidRuntime: FATAL EXCEPTION: main"),
        Some((IncidentKind::Crash, true))
    );
    assert_eq!(
        classify("09-09 23:50:01.123  1234  1234 I am_crash: [1234,0,com.demo,0,java.lang.NullPointerException,Unknown]"),
        Some((IncidentKind::Crash, true))
    );
    assert_eq!(
        classify("09-09 23:50:01.123  1234  1234 E ActivityManager: ANR in com.demo"),
        Some((IncidentKind::Anr, true))
    );
    assert_eq!(
        classify("09-09 23:50:01.123  1234  1234 I am_anr  : [0,1234,com.demo,550026048,Input dispatching timed out]"),
        Some((IncidentKind::Anr, true))
    );
    assert_eq!(
        classify("09-09 23:50:01.123  1234  1300 E ActivityManager: Reason: Input dispatching timed out"),
        Some((IncidentKind::Anr, false))
    );
    assert_eq!(
        classify("09-09 23:50:01.123  1234  1234 F libc    : FATAL SIGNAL 11"),
        Some((IncidentKind::NativeCrash, true))
    );
    assert_eq!(
        classify("09-09 23:50:01.123  1234  1234 D okhttp: --> GET http"),
        None
    );
}

#[test]
fn detects_log_start() {
    assert!(is_log_start("09-09 23:50:01.123  1234  1234 E tag: x"));
    assert!(!is_log_start("    at com.demo.Main.onCreate(Main.java:12)"));
}

/// Feeds a log line by line, all at one moment, and collects what is reported.
fn collect(log: &str, package: &str) -> Vec<Incident> {
    let mut c = Collector::new(package);
    let mut got = Vec::new();
    for line in log.lines() {
        got.extend(c.feed(line, 0));
    }
    got.extend(c.finish(0));
    got
}

#[test]
fn collects_block_and_filters_package() {
    let log = "09-09 23:50:01.100   100   100 D other: noise\n\
               09-09 23:50:01.123  1234  1234 E AndroidRuntime: FATAL EXCEPTION: main\n\
               09-09 23:50:01.124  1234  1234 E AndroidRuntime: Process: com.demo, PID: 1234\n\
               09-09 23:50:01.125  1234  1234 E AndroidRuntime: java.lang.NullPointerException\n\
               09-09 23:50:03.000   100   100 D other: after\n";

    let got = collect(log, "com.demo");
    assert_eq!(
        got.len(),
        1,
        "应收集到 1 条崩溃: {:?}",
        got.iter().map(|x| x.kind).collect::<Vec<_>>()
    );
    assert_eq!(got[0].kind, IncidentKind::Crash);
    assert!(
        got[0].detail.contains("NullPointerException"),
        "堆栈未收集全"
    );
    assert!(got[0].detail.contains("Process: com.demo"));

    assert!(collect(log, "com.other").is_empty());
}

#[test]
fn separates_consecutive_crash_and_anr() {
    let log = "09-09 23:50:01.100  1234  1234 E AndroidRuntime: FATAL EXCEPTION: main\n\
               09-09 23:50:01.101  1234  1234 E AndroidRuntime: Process: com.demo, PID: 1234\n\
               09-09 23:50:01.102  1234  1234 E AndroidRuntime: \tat com.demo.Main.onClick(Main.java:42)\n\
               09-09 23:50:03.300  1234  1300 E ActivityManager: ANR in com.demo\n\
               09-09 23:50:03.301  1234  1300 E ActivityManager: PID: 1234\n\
               09-09 23:50:03.302  1234  1300 E ActivityManager: Reason: Input dispatching timed out\n";

    let got = collect(log, "com.demo");
    let kinds: Vec<IncidentKind> = got.iter().map(|x| x.kind).collect();
    assert_eq!(
        kinds,
        vec![IncidentKind::Crash, IncidentKind::Anr],
        "异常被错误合并: {:?}",
        kinds
    );
    assert!(got[0].detail.contains("Main.onClick"), "崩溃堆栈不完整");
    assert!(!got[0].detail.contains("ANR in"), "ANR 内容混进了崩溃块");
    assert!(
        got[1].detail.contains("Input dispatching timed out"),
        "ANR 详情不完整"
    );
}

#[test]
fn deduplicates_crash_across_log_channels() {
    let log = "09-09 23:50:01.100  1234  1234 E AndroidRuntime: FATAL EXCEPTION: main\n\
               09-09 23:50:01.101  1234  1234 E AndroidRuntime: Process: com.demo, PID: 1234\n\
               09-09 23:50:01.102  1234  1234 E AndroidRuntime: \tat com.demo.Main.onClick(Main.java:42)\n\
               09-09 23:50:01.102  1234  1234 E AndroidRuntime: Caused by: java.lang.NullPointerException\n\
               09-09 23:50:01.180  1234  1234 I am_crash: [1234,0,com.demo,0,java.lang.NullPointerException,Unknown]\n";

    let got = collect(log, "com.demo");
    assert_eq!(
        got.len(),
        1,
        "同一次崩溃被记了两次: {:?}",
        got.iter().map(|i| i.summary.clone()).collect::<Vec<_>>()
    );
    assert!(
        got[0].detail.contains("Main.onClick"),
        "应保留信息更全的那条（堆栈）"
    );
}

#[test]
fn keeps_distinct_crashes_within_dedup_window() {
    let log = "09-09 23:50:01.100  1234  1234 E AndroidRuntime: FATAL EXCEPTION: main\n\
               09-09 23:50:01.101  1234  1234 E AndroidRuntime: Process: com.demo, PID: 1234\n\
               09-09 23:50:01.102  1234  1234 E AndroidRuntime: java.lang.NullPointerException\n\
               09-09 23:50:02.900  1234  1234 E AndroidRuntime: FATAL EXCEPTION: main\n\
               09-09 23:50:02.901  1234  1234 E AndroidRuntime: Process: com.demo, PID: 1234\n\
               09-09 23:50:02.902  1234  1234 E AndroidRuntime: java.lang.IllegalStateException\n";

    let got = collect(log, "com.demo");
    assert_eq!(
        got.len(),
        2,
        "不同异常不应被合并: {:?}",
        got.iter().map(|i| i.summary.clone()).collect::<Vec<_>>()
    );
}

#[test]
fn extracts_incident_fingerprint() {
    assert_eq!(
        incident_fingerprint("E AndroidRuntime: java.lang.NullPointerException"),
        Some("java.lang.NullPointerException".to_string())
    );
    assert_eq!(
        incident_fingerprint("F libc    : FATAL SIGNAL 11 (SIGSEGV)"),
        Some("signal-11".to_string())
    );
    assert_eq!(
        incident_fingerprint(
            "I am_anr  : [0,1234,com.demo,550026048,Input dispatching timed out]"
        ),
        None
    );
}

#[test]
fn parses_crashing_package() {
    assert_eq!(
        attribute_package("E AndroidRuntime: Process: com.demo, PID: 1234"),
        Some("com.demo".to_string())
    );
    assert_eq!(
        attribute_package(
            "I am_crash: [1234,0,com.demo,0,java.lang.NullPointerException,Unknown]"
        ),
        Some("com.demo".to_string())
    );
    assert_eq!(
        attribute_package("E ActivityManager: ANR in com.demo (com.demo/.Main)"),
        Some("com.demo".to_string())
    );
    assert_eq!(
        attribute_package("F DEBUG: >>> com.demo <<<"),
        Some("com.demo".to_string())
    );
    assert_eq!(attribute_package("E AndroidRuntime: PID: 32613"), None);
}

#[test]
fn ignores_uiautomator_dump_crash() {
    let log = "09-16 23:44:17.719 32613 32613 E AndroidRuntime: FATAL EXCEPTION: main\n\
               09-16 23:44:17.719 32613 32613 E AndroidRuntime: PID: 32613\n\
               09-16 23:44:17.719 32613 32613 E AndroidRuntime: java.lang.IllegalStateException: UiAutomationService android.accessibilityservice.IAccessibilityServiceClient$Stub$Proxy@d827670already registered!\n\
               09-16 23:44:17.719 32613 32613 E AndroidRuntime: \tat com.android.uiautomator.core.UiAutomationShellWrapper.connect(UiAutomationShellWrapper.java:36)\n\
               09-16 23:44:17.719 32613 32613 E AndroidRuntime: \tat com.android.commands.uiautomator.DumpCommand.run(DumpCommand.java:78)\n\
               09-16 23:44:18.943 32132 32132 E ViewRootImpl: \tat com.ss.android.ugc.aweme.platform.collect.base.CollectClient.bind(SourceFile:84345063)\n\
               09-16 23:44:18.943 32132 32132 E ViewRootImpl: \tat com.ss.android.ugc.aweme.collection.FeedCollectPresenterV2.LJIILJJIL(SourceFile:34013286)\n";

    let got = collect(log, "com.ss.android.ugc.aweme");
    assert!(
        got.is_empty(),
        "dump 工具自己的崩溃被记成了被测应用崩溃: {:?}",
        got.iter().map(|i| i.summary.clone()).collect::<Vec<_>>()
    );
}

#[test]
fn still_reports_real_app_crash_among_noise() {
    let log = "09-16 23:44:18.943 32132 32132 E ViewRootImpl: \tat com.other.app.Thing.run(SourceFile:1)\n\
               09-16 23:44:19.100  1234  1234 E AndroidRuntime: FATAL EXCEPTION: main\n\
               09-16 23:44:19.101  1234  1234 E AndroidRuntime: Process: com.ss.android.ugc.aweme, PID: 1234\n\
               09-16 23:44:19.102  1234  1234 E AndroidRuntime: java.lang.NullPointerException\n\
               09-16 23:44:19.103  1234  1234 E AndroidRuntime: \tat com.ss.android.ugc.aweme.Main.onClick(Main.java:42)\n";

    let got = collect(log, "com.ss.android.ugc.aweme");
    assert_eq!(got.len(), 1, "真崩溃漏报了");
    assert!(got[0].detail.contains("Main.onClick"));
}

#[test]
fn does_not_attribute_other_app_crash() {
    let log = "09-16 23:44:19.100  1234  1234 E AndroidRuntime: FATAL EXCEPTION: main\n\
               09-16 23:44:19.101  1234  1234 E AndroidRuntime: Process: com.other.app, PID: 1234\n\
               09-16 23:44:19.102  1234  1234 E AndroidRuntime: java.lang.NullPointerException\n\
               09-16 23:44:19.103  1234  1234 E ActivityManager: Displayed com.ss.android.ugc.aweme/.Main\n";

    let got = collect(log, "com.ss.android.ugc.aweme");
    assert!(got.is_empty(), "别的应用崩溃被算到了目标应用");
}
