use iyam_dsh::commands::{
    dsh_web_args, extract_args, node_options_require, npm_attempt_error, npm_install_dsh_args,
    npm_progress, plugin_add_args, plugin_add_error, pnpm_attempt_error, pnpm_install_args,
    pnpm_registries, reap_pid, taskkill_args, tasklist_args, tasklist_shows, unpacked_node_dir,
    ChildOutcome, PnpmAttempt,
};

fn s(x: &str) -> String {
    x.to_string()
}

fn v(xs: &[&str]) -> Vec<String> {
    xs.iter().map(|x| x.to_string()).collect()
}

#[test]
fn dsh_web_command_line() {
    assert_eq!(dsh_web_args("/h/bin.js", true), v(&["/h/bin.js", "web", "--no-open", "--port", "0"]));
    assert_eq!(dsh_web_args("/h/bin.js", false), v(&["/h/bin.js", "web", "--port", "0"]));
    assert_eq!(node_options_require("C:\\Users\\u\\.dsh\\set-taskbar-aumid.cjs"), "--require=\"C:/Users/u/.dsh/set-taskbar-aumid.cjs\"");
    assert_eq!(plugin_add_args("/h/bin.js"), v(&["/h/bin.js", "plugin", "--profile", "web", "add", "dshmarket"]));
}

#[test]
fn npm_command_lines() {
    assert_eq!(
        npm_install_dsh_args("/n/npm-cli.js", "0.1.2", "/h/.staging", "https://registry.npmjs.org"),
        v(&[
            "/n/npm-cli.js", "install", "-g", "@deepseek-ai/dsh@0.1.2", "--prefix", "/h/.staging", "--no-save",
            "--no-audit", "--no-fund", "--dangerously-allow-all-scripts", "--loglevel", "http", "--registry",
            "https://registry.npmjs.org",
        ])
    );
    assert_eq!(
        pnpm_install_args("/n/npm-cli.js", "/h/node/linux-x64", "https://registry.npmmirror.com"),
        v(&[
            "/n/npm-cli.js", "install", "-g", "pnpm@11", "--prefix", "/h/node/linux-x64", "--no-audit", "--no-fund",
            "--registry", "https://registry.npmmirror.com",
        ])
    );
    assert_eq!(
        pnpm_registries(),
        vec![
            "https://registry.npmmirror.com",
            "https://mirrors.cloud.tencent.com/npm/",
            "https://repo.huaweicloud.com/repository/npm/",
            "https://registry.npmjs.org",
        ]
    );
}

#[test]
fn npm_progress_moves_to_downloading_once() {
    assert_eq!(npm_progress(false, "npm http fetch GET 200"), (false, "resolving-deps"));
    assert_eq!(npm_progress(false, "npm timing reify:loadTrees"), (true, "downloading-deps"));
    assert_eq!(npm_progress(true, "anything"), (true, "downloading-deps"));
}

#[test]
fn attempt_errors() {
    assert_eq!(npm_attempt_error(ChildOutcome::Exited(true), "r"), None);
    assert_eq!(npm_attempt_error(ChildOutcome::Exited(false), "r"), Some(s("npm 退出码非零 (registry=r)")));
    assert_eq!(npm_attempt_error(ChildOutcome::WaitFailed, "r"), Some(s("无法等待 npm 进程 (registry=r)")));
    assert_eq!(npm_attempt_error(ChildOutcome::TimedOut, "r"), Some(s("npm install 超时（>900s，registry=r）")));
    assert_eq!(plugin_add_error(ChildOutcome::Exited(true)), None);
    assert_eq!(plugin_add_error(ChildOutcome::Exited(false)), Some(s("dsh plugin add 退出码非零")));
    assert_eq!(plugin_add_error(ChildOutcome::WaitFailed), Some(s("无法等待 dsh plugin add 进程")));
    assert_eq!(plugin_add_error(ChildOutcome::TimedOut), Some(s("dsh plugin add 超时（>300s）")));
    assert_eq!(pnpm_attempt_error("r", &PnpmAttempt::Succeeded), None);
    assert_eq!(pnpm_attempt_error("r", &PnpmAttempt::Failed(s("  boom\n"))), Some(s("r: boom")));
    assert_eq!(pnpm_attempt_error("r", &PnpmAttempt::NotRun(s("no such file "))), Some(s("r: no such file ")));
}

#[test]
fn archives_and_processes() {
    assert_eq!(extract_args("/tmp/a.tar.gz", "/h/node/._x"), v(&["-xf", "/tmp/a.tar.gz", "-C", "/h/node/._x"]));
    assert_eq!(unpacked_node_dir(&vec![(s("x.txt"), false), (s("node-v24"), true), (s("y"), true)]), Some(s("node-v24")));
    assert_eq!(unpacked_node_dir(&vec![(s("x.txt"), false)]), None);
    assert_eq!(unpacked_node_dir(&vec![]), None);
    assert_eq!(taskkill_args(4242), v(&["/F", "/T", "/PID", "4242"]));
    assert_eq!(tasklist_args(7), v(&["/FI", "PID eq 7", "/NH"]));
    assert!(tasklist_shows("node.exe   4242 Console", 4242));
    assert!(!tasklist_shows("INFO: No tasks are running", 4242));
    assert_eq!(reap_pid(" 4242\n"), Some(4242));
    assert_eq!(reap_pid("0"), None);
    assert_eq!(reap_pid("x"), None);
}
