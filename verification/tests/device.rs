use atraverse::device::adb::{check_picture, dump_path, AdbDevice, DumpMode, DumpStep};
use atraverse::device::animation::{animation_settings, restore, switch_off};
use atraverse::device::command::{
    getprop, input_long_press, input_swipe, input_tap, input_text, launch, press_back, start,
};
use atraverse::device::local::LocalDevice;
use atraverse::device::mock::MockDevice;
use atraverse::device::reply::{
    is_running, launcher, parse_resumed_activity, screen_size, top_activity,
};
use atraverse::device::{target_for_abi, DeviceInfo};

#[test]
fn parses_resumed_activity() {
    let s = "topResumedActivity=ActivityRecord{8f2c1 u0 com.demo.app/.ui.MainActivity t42}";
    assert_eq!(
        parse_resumed_activity(s).unwrap(),
        "com.demo.app/.ui.MainActivity"
    );
}

#[test]
fn maps_abi() {
    assert_eq!(target_for_abi("arm64-v8a"), "aarch64-linux-android");
    assert_eq!(target_for_abi("armeabi-v7a"), "armv7-linux-androideabi");
    assert_eq!(target_for_abi("x86_64"), "x86_64-linux-android");
}

#[test]
fn newer_keys_count_first() {
    let s = "mResumedActivity: ActivityRecord{1 u0 a.b/.Old t1}\n  topResumedActivity=ActivityRecord{2 u0 a.b/.New t2}";
    assert_eq!(parse_resumed_activity(s).unwrap(), "a.b/.New");
    assert_eq!(
        parse_resumed_activity("mFocusedActivity: x} a.b/.C"),
        None
    );
    assert_eq!(
        top_activity("TASK\n  ACTIVITY com.x/.Main 3f pid=1\n"),
        "com.x/.Main"
    );
    assert_eq!(top_activity("nothing"), "");
}

#[test]
fn reads_sizes() {
    assert_eq!(
        screen_size("Physical size: 1080x2400\nOverride size: 720x1600\n"),
        Some((720, 1600))
    );
    assert_eq!(screen_size("error"), None);
    assert_eq!(screen_size("Physical size: 0x10"), None);
}

#[test]
fn finds_launcher_and_process() {
    assert_eq!(
        launcher("priority=0\n com.x/.Main \n").unwrap(),
        "com.x/.Main"
    );
    assert_eq!(launcher("No activity found"), None);
    assert!(is_running("1234 99\n", "", "", "com.x"));
    assert!(is_running("", "NAME\n com.x\n", "", "com.x"));
    assert!(!is_running("x", "NAME\ncom.xy\n", "com.x", "com.x"));
    assert!(is_running("", "", "u0 1 com.x", "com.x"));
    assert!(!is_running("", "", "", "com.x"));
}

#[test]
fn writes_commands() {
    assert_eq!(getprop("ro.x"), "getprop ro.x");
    assert_eq!(input_tap(3, -4), "input tap 3 -4");
    assert_eq!(input_swipe(1, 2, 3, 4, 500), "input swipe 1 2 3 4 500");
    assert_eq!(input_long_press(1, 2, 900), "input swipe 1 2 1 2 900");
    assert_eq!(press_back(), "input keyevent 4");
    assert_eq!(input_text("it's a b"), "input text 'it'\\''s%sa%sb'");
    assert_eq!(start("a/.B"), "am start -n a/.B -W");
    assert_eq!(launch("com.x", None, None), "com.x/.MainActivity");
    assert_eq!(launch("com.x", None, Some("com.x/.L")), "com.x/.L");
    assert_eq!(launch("com.x", Some(".B"), Some("com.x/.L")), "com.x/.B");
}

#[test]
fn describes_devices() {
    let d = DeviceInfo::fetch(
        "host",
        "",
        "Physical size: 540x1200",
        " Phone \n",
        "Maker",
        "13",
        "33\n",
        "arm64-v8a",
    );
    assert_eq!(
        d.display(),
        "Maker Phone (Android 13 / API 33 / 540x1200 / arm64-v8a / 本机)"
    );
    let unknown = DeviceInfo::fetch("host", "S1", "", "", "", "", "x", "");
    assert_eq!((unknown.width, unknown.height, unknown.sdk), (0, 0, 0));
    assert!(unknown.display().ends_with(" / S1)"));
}

#[test]
fn lists_devices() {
    let out = "List of devices attached\nemulator-5554\tdevice\nABC\tunauthorized\n\nXYZ device\n";
    let devs = AdbDevice::devices(out);
    assert_eq!(devs, vec!["emulator-5554", "XYZ"]);
    assert!(AdbDevice::new(Some("XYZ".to_string())).is_ready(&devs));
    assert!(!AdbDevice::new(Some("ABC".to_string())).is_ready(&devs));
    assert!(AdbDevice::new(None).is_ready(&devs));
    assert!(!AdbDevice::new(None).is_ready(&Vec::new()));
    assert_eq!(
        AdbDevice::new(Some("XYZ".to_string())).args(vec!["shell".to_string()]),
        vec!["-s", "XYZ", "shell"]
    );
    assert_eq!(
        AdbDevice::new(None).args(vec!["shell".to_string()]),
        vec!["shell"]
    );
}

#[test]
fn keeps_the_way_that_worked() {
    let xml = || Ok("<hierarchy/>".to_string());
    let mut d = AdbDevice::new(None);
    assert_eq!(d.first_way(), DumpMode::Tty);
    match d.tried_first(Err("no tty".to_string())) {
        DumpStep::TryFile(e) => assert_eq!(e, "no tty"),
        DumpStep::Finished(_) => panic!("the other way was not tried"),
    }
    let both = d.tried_file("no tty".to_string(), Err("no file".to_string()));
    assert_eq!(
        both.unwrap_err(),
        "uiautomator dump 失败：/dev/tty -> no tty；文件方式 -> no file"
    );
    assert_eq!(d.first_way(), DumpMode::Tty);
    assert!(d.tried_file("no tty".to_string(), xml()).is_ok());
    assert_eq!(d.first_way(), DumpMode::File);
    assert!(matches!(
        d.tried_first(Err("gone".to_string())),
        DumpStep::Finished(Err(_))
    ));
    assert!(AdbDevice::dump_to_tty("nope".to_string()).is_err());
    assert!(AdbDevice::dump_to_file("x<hierarchy".to_string()).is_ok());
    assert_eq!(
        AdbDevice::dump_to_file("nope".to_string()).unwrap_err(),
        "文件方式未返回控件树: nope"
    );
}

#[test]
fn checks_pictures() {
    let mut png = vec![0u8; 1024];
    png[0] = 0x89;
    png[1] = b'P';
    png[2] = b'N';
    png[3] = b'G';
    assert!(check_picture(png.clone()).is_ok());
    png.pop();
    assert_eq!(
        check_picture(png).unwrap_err(),
        "screencap 返回数据异常 (1023 字节)"
    );
}

#[test]
fn local_device_numbers_its_dumps() {
    let mut d = LocalDevice::new(7);
    assert_eq!(dump_path(7), "/data/local/tmp/.atraverse_dump_7.xml");
    assert_eq!(d.next_dump(), "/data/local/tmp/.atraverse_dump_7.xml");
    assert_eq!(d.next_dump(), "/data/local/tmp/.atraverse_dump_7.xml.2");
    assert_eq!(
        LocalDevice::reply("foo", String::new(), " foo: not found\n").unwrap_err(),
        "命令执行失败: foo -> foo: not found"
    );
    assert!(LocalDevice::reply("foo", "x".to_string(), "not found").is_ok());
    assert!(d.check_dump("<hierarchy".to_string()).is_ok());
    assert!(d.check_dump(String::new()).is_err());
}

#[test]
fn made_up_device_has_two_pages() {
    let mut d = MockDevice::new();
    assert_eq!(d.activity(), "com.demo/.Main");
    d.sh("input tap 10 150");
    assert_eq!(d.activity(), "com.demo/.Detail");
    d.sh("input keyevent 4");
    assert_eq!(d.activity(), "com.demo/.Main");
    d.sh("input swipe 1 2 3 4 300");
    assert!(d.xml().contains("条目A1"));
    assert_eq!(d.sh("getprop ro.product.model"), "MockPhone");
    assert_eq!(d.sh("wm size"), "Physical size: 540x1200");
    assert_eq!(
        d.sh("dumpsys activity activities"),
        "topResumedActivity=ActivityRecord{1 u0 com.demo/.Main t1}"
    );
    assert_eq!(d.sh("dumpsys dropbox --print x"), "dropbox: mock entry");
    assert_eq!(d.sh("pidof com.demo"), "1234");
    assert_eq!(d.sh("anything else"), "");
    assert_eq!(d.cmds.len(), 9);
    assert_eq!(
        MockDevice::with_log(vec!["x".to_string()]).log_lines,
        vec!["x"]
    );
}

#[test]
fn animations_are_put_back() {
    assert_eq!(animation_settings().len(), 3);
    assert_eq!(
        switch_off("window_animation_scale"),
        "settings put global window_animation_scale 0"
    );
    assert_eq!(restore("a", "1.0\n"), "settings put global a 1.0");
    assert_eq!(restore("a", "null\n"), "settings delete global a");
}
