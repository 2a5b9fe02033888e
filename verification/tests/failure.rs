use port_sweeper::failure::{
    report_exit_failure, report_launch_failure, report_termination_exit_failure,
    report_termination_launch_failure,
};

#[test]
fn a_tool_that_could_not_be_started() {
    assert_eq!(
        report_launch_failure("lsof", "No such file or directory (os error 2)"),
        "执行 lsof 失败: No such file or directory (os error 2)"
    );
    assert_eq!(report_launch_failure("netstat", ""), "执行 netstat 失败: ");
}

#[test]
fn a_tool_that_reported_failure() {
    assert_eq!(report_exit_failure("netstat", Some(1)), "netstat 返回非 0 状态码: 1");
    assert_eq!(report_exit_failure("lsof", Some(-3)), "lsof 返回非 0 状态码: -3");
    assert_eq!(report_exit_failure("lsof", Some(0)), "lsof 返回非 0 状态码: 0");
    assert_eq!(report_exit_failure("lsof", Some(i32::MAX)), "lsof 返回非 0 状态码: 2147483647");
    assert_eq!(report_exit_failure("lsof", Some(i32::MIN)), "lsof 返回非 0 状态码: -2147483648");
}

#[test]
fn a_tool_that_ended_without_an_exit_code() {
    assert_eq!(report_exit_failure("lsof", None), "lsof 返回非 0 状态码: -1");
    assert_eq!(
        report_termination_exit_failure("kill", "4321", None),
        "kill 返回非 0 状态码 (PID=4321): -1"
    );
}

#[test]
fn a_termination_tool_that_could_not_be_started() {
    assert_eq!(
        report_termination_launch_failure("taskkill", "4321", "program not found"),
        "执行 taskkill 失败 (PID=4321): program not found"
    );
}

#[test]
fn a_termination_tool_that_reported_failure() {
    assert_eq!(
        report_termination_exit_failure("taskkill", "4321", Some(128)),
        "taskkill 返回非 0 状态码 (PID=4321): 128"
    );
}

#[test]
fn a_termination_failure_names_the_process() {
    for id in ["4321", "1", "", "12 34", "进程"] {
        assert!(report_termination_exit_failure("kill", id, Some(1)).contains(id));
        assert!(report_termination_launch_failure("kill", id, "denied").contains(id));
    }
    assert!(report_termination_exit_failure("kill", "4321", Some(1)).contains("4321"));
}

#[test]
fn every_failure_names_the_tool() {
    for tool in ["netstat", "lsof", "taskkill", "kill"] {
        assert!(report_launch_failure(tool, "why").contains(tool));
        assert!(report_exit_failure(tool, Some(2)).contains(tool));
        assert!(report_termination_launch_failure(tool, "9", "why").contains(tool));
        assert!(report_termination_exit_failure(tool, "9", Some(2)).contains(tool));
    }
}
