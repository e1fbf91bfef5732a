use rats::level::LogLevel;
use rats::parser::{log_line, parse_death, parse_log_line, parse_start_proc, pid_death, pid_kill};

#[test]
fn test_parse_start_proc() {
    let str_log: &str = "I/ActivityManager( 2045): Start proc 10212:com.google.android.gms.ui/u0a102 for service {com.google.android.gms/com.google.android.gms.chimera.UiIntentOperationService}";
    let proc = parse_start_proc(str_log).unwrap();
    assert_eq!(proc.line_pid, "10212");
    assert_eq!(proc.line_package, "com.google.android.gms.ui");
    assert_eq!(proc.target.unwrap(), "service {com.google.android.gms/com.google.android.gms.chimera.UiIntentOperationService}");
}

#[test]
fn test_parse_start_proc_missing_pid() {
    let str_log: &str = "I/ActivityManager( 2045): Start proc :com.google.android.gms.ui/u0a102 for service {com.google.android.gms/com.google.android.gms.chimera.UiIntentOperationService}";
    let proc = parse_start_proc(str_log);
    assert!(proc.is_none());
}

#[test]
fn test_parse_death() {
    let str_log: &str = "Process com.example.urg (pid 7404) has died";
    let proc = parse_death("ActivityManager", str_log).unwrap();
    assert_eq!(proc.line_pid, "7404");
    assert_eq!(proc.line_package, "com.example.urg");
}

#[test]
fn test_parse_death_missing_pid() {
    let str_log: &str = "Process com.example.urg (pid ) has died";
    let proc = parse_death("ActivityManager", str_log);
    assert!(proc.is_none());
}

#[test]
fn test_parse_log_line() {
    let str_log: &str = "05-19 06:57:59.912  2045  2140 W AppOps  : Noting op not finished: uid 10102 pkg com.google.android.gms code 41 time=1589896674895 duration=0";

    let log = parse_log_line(str_log).unwrap();

    assert_eq!(log.level, LogLevel::WARN);
    assert_eq!(log.tag, "AppOps");
    assert_eq!(log.tid.unwrap().as_str(), "2140");
    assert_eq!(log.owner, "2045");
    assert_eq!(log.date.unwrap().as_str(), "05-19");
    assert_eq!(log.time.unwrap().as_str(), "06:57:59.912");
    assert_eq!(log.message, "Noting op not finished: uid 10102 pkg com.google.android.gms code 41 time=1589896674895 duration=0");
}

#[test]
fn test_parse_log_line_brief() {
    let str_log: &str =
        "E/GnssHAL_GnssInterface( 1800): gnssSvStatusCb: b: input svInfo.flags is 8";

    let log = parse_log_line(str_log).unwrap();

    assert_eq!(log.level, LogLevel::ERROR);
    assert_eq!(log.tag, "GnssHAL_GnssInterface");
    assert!(log.tid.is_none());
    assert_eq!(log.owner, "1800");
    assert!(log.date.is_none());
    assert!(log.time.is_none());
    assert_eq!(log.message, "gnssSvStatusCb: b: input svInfo.flags is 8");
}

#[test]
fn regex_log_line() {
    let str_log: &str = "05-19 06:57:59.912  2045  2140 W AppOps  : Noting op not finished: uid 10102 pkg com.google.android.gms code 41 time=1589896674895 duration=0";

    let log = log_line(str_log).unwrap();
    let date = log.date.unwrap();
    let time = log.time.unwrap();
    let tid = log.tid.unwrap();
    let level = log.level.to_string();

    assert_eq!(date, "05-19");
    assert_eq!(time, "06:57:59.912");
    assert_eq!(log.owner, "2045");
    assert_eq!(tid, "2140");
    assert_eq!(level, "W");
    assert_eq!(log.tag, "AppOps");
    assert_eq!(log.message.trim(), "Noting op not finished: uid 10102 pkg com.google.android.gms code 41 time=1589896674895 duration=0")
}

#[test]
fn regex_log_line_2() {
    let str_log: &str = "05-19 06:57:55.890  1800  2437 E GnssHAL_GnssInterface: gnssSvStatusCb: a: input svInfo.flags is 8";

    let log = log_line(str_log).unwrap();
    let date = log.date.unwrap();
    let time = log.time.unwrap();
    let tid = log.tid.unwrap();
    let level = log.level.to_string();

    assert_eq!(date, "05-19");
    assert_eq!(time, "06:57:55.890");
    assert_eq!(log.owner, "1800");
    assert_eq!(tid, "2437");
    assert_eq!(level, "E");
    assert_eq!(log.tag, "GnssHAL_GnssInterface");
    assert_eq!(log.message.trim(), "gnssSvStatusCb: a: input svInfo.flags is 8")
}

#[test]
fn regex_log_line_3() {
    let str_log: &str = "05-19 06:49:59.836  2045  5774 I ActivityTaskManager: START u0 {act=android.intent.action.MAIN cat=[android.intent.category.HOME] flg=0x10000000 cmp=com.google.android.apps.nexuslauncher/.NexusLauncherActivity (has extras)} from uid 10092";

    let log = log_line(str_log).unwrap();
    let date = log.date.unwrap();
    let time = log.time.unwrap();
    let tid = log.tid.unwrap();
    let level = log.level.to_string();

    assert_eq!(date, "05-19");
    assert_eq!(time, "06:49:59.836");
    assert_eq!(log.owner, "2045");
    assert_eq!(tid, "5774");
    assert_eq!(level, "I");
    assert_eq!(log.tag, "ActivityTaskManager");
    assert_eq!(log.message.trim(), "START u0 {act=android.intent.action.MAIN cat=[android.intent.category.HOME] flg=0x10000000 cmp=com.google.android.apps.nexuslauncher/.NexusLauncherActivity (has extras)} from uid 10092")
}

#[test]
fn regex_pid_start_5_1_brief() {
    let str_log: &str = "I/ActivityManager( 2045): Start proc 10212:com.google.android.gms.ui/u0a102 for service {com.google.android.gms/com.google.android.gms.chimera.UiIntentOperationService}";

    let proc = parse_start_proc(str_log).unwrap();

    assert_eq!(proc.line_pid, "10212");
    assert_eq!(proc.line_package.trim(), "com.google.android.gms.ui");
    assert_eq!(proc.target.unwrap(), "service {com.google.android.gms/com.google.android.gms.chimera.UiIntentOperationService}")
}

#[test]
fn regex_pid_start_5_1() {
    let str_log: &str = "05-18 22:25:17.632  2045  2074 I ActivityManager: Start proc 18990:com.example.test.dev/u0a136 for activity {com.example.test.dev/com.example.test.presentation.main.MainActivity}";

    let proc = parse_start_proc(str_log).unwrap();

    assert_eq!(proc.line_pid, "18990");
    assert_eq!(proc.line_package.trim(), "com.example.test.dev");
    assert_eq!(
        proc.target.unwrap(),
        "activity {com.example.test.dev/com.example.test.presentation.main.MainActivity}"
    )
}

#[test]
fn regex_pid_kill() {
    let str_log: &str =
        "Killing 8822:com.google.android.apps.maps/u0a120 (adj 985): empty for 2733s";

    let proc = pid_kill(str_log).unwrap();

    assert_eq!(proc.line_pid, "8822");
    assert_eq!(proc.line_package, "com.google.android.apps.maps");
}

#[test]
fn regex_pid_death() {
    let str_log: &str = "Process com.example.urg (pid 7404) has died";

    let proc = pid_death(str_log).unwrap();

    assert_eq!(proc.line_pid, "7404");
    assert_eq!(proc.line_package, "com.example.urg");
}
