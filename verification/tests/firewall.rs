use tallow_rust::config::Config;
use tallow_rust::firewall::{
    reset_rules, setup_firewall, CommandResult, FwCommand, SetupAction, SetupError, SetupStage,
};

fn config(has_ipv6: bool, nocreate: bool) -> Config {
    Config {
        ipt_path: "/usr/sbin/".to_string(),
        fwcmd_path: "/usr/bin".to_string(),
        expires: 7200,
        whitelist: vec!["127.0.0.1".to_string()],
        has_ipv6,
        nocreate,
        patterns_path: "/etc/tallow/patterns".to_string(),
    }
}

fn line(c: &FwCommand) -> String {
    let mut s = c.program.clone();
    for a in &c.args {
        s.push(' ');
        s.push_str(a);
    }
    s
}

/// Runs setup, answering each command with `answer`, and returns the command
/// lines issued and the outcome.
fn drive(cfg: &Config, answer: impl Fn(&FwCommand) -> CommandResult) -> (Vec<String>, Result<(), SetupError>) {
    let mut setup = setup_firewall(cfg);
    let mut issued = Vec::new();
    let mut action = setup.start();
    loop {
        match action {
            SetupAction::Run(cmd) => {
                issued.push(line(&cmd));
                let r = answer(&cmd);
                action = setup.advance(r);
            }
            SetupAction::Finish(r) => return (issued, r),
        }
    }
}

#[test]
fn reset_rules_lists_cleanup_commands() {
    let cmds: Vec<String> = reset_rules("/usr/bin/", "/usr/sbin", true).iter().map(line).collect();
    assert_eq!(
        cmds,
        vec![
            "/usr/bin/firewall-cmd --permanent --direct --remove-rule ipv4 filter INPUT 1 -m set --match-set tallow src -j DROP",
            "/usr/bin/firewall-cmd --permanent --delete-ipset=tallow",
            "/usr/bin/firewall-cmd --permanent --direct --remove-rule ipv6 filter INPUT 1 -m set --match-set tallow6 src -j DROP",
            "/usr/bin/firewall-cmd --permanent --delete-ipset=tallow6",
            "/usr/sbin/iptables -t filter -D INPUT -m set --match-set tallow src -j DROP",
            "/usr/sbin/ipset destroy tallow",
            "/usr/sbin/ip6tables -t filter -D INPUT -m set --match-set tallow6 src -j DROP",
            "/usr/sbin/ipset destroy tallow6",
        ]
    );
    let v4: Vec<String> = reset_rules("/a", "/b", false).iter().map(line).collect();
    assert_eq!(v4.len(), 4);
    assert!(v4.iter().all(|c| !c.contains("tallow6")));
}

#[test]
fn nocreate_runs_nothing() {
    let (issued, outcome) = drive(&config(true, true), |_| CommandResult::Failed);
    assert!(issued.is_empty());
    assert!(outcome.is_ok());
}

#[test]
fn firewalld_setup_when_probe_succeeds() {
    let (issued, outcome) = drive(&config(true, false), |_| CommandResult::Succeeded);
    assert!(outcome.is_ok());
    assert_eq!(issued.len(), 8 + 1 + 5);
    assert_eq!(issued[8], "/usr/bin/firewall-cmd --state");
    assert_eq!(
        &issued[9..],
        &[
            "/usr/bin/firewall-cmd --permanent --quiet --new-ipset=tallow --type=hash:ip --family=inet --option=timeout=7200",
            "/usr/bin/firewall-cmd --permanent --direct --quiet --add-rule ipv4 filter INPUT 1 -m set --match-set tallow src -j DROP",
            "/usr/bin/firewall-cmd --permanent --quiet --new-ipset=tallow6 --type=hash:ip --family=inet6 --option=timeout=7200",
            "/usr/bin/firewall-cmd --permanent --direct --quiet --add-rule ipv6 filter INPUT 1 -m set --match-set tallow6 src -j DROP",
            "/usr/bin/firewall-cmd --reload --quiet",
        ]
    );
}

#[test]
fn iptables_setup_when_probe_fails_and_reset_failures_are_ignored() {
    let (issued, outcome) = drive(&config(false, false), |c| {
        if c.args.iter().any(|a| a == "--state" || a == "-D" || a == "destroy") {
            CommandResult::NotRun("no such file".to_string())
        } else {
            CommandResult::Succeeded
        }
    });
    assert!(outcome.is_ok());
    assert_eq!(
        &issued[4..],
        &[
            "/usr/bin/firewall-cmd --state",
            "/usr/sbin/ipset -exist create tallow hash:ip family inet timeout 7200",
            "/usr/sbin/iptables -t filter -A INPUT -m set --match-set tallow src -j DROP",
        ]
    );
}

#[test]
fn failures_name_their_stage() {
    let cfg = config(true, false);
    let fail_on = |needle: &'static str, probe_ok: bool| {
        drive(&cfg, move |c| {
            let l = line(c);
            if l.ends_with("--state") {
                if probe_ok { CommandResult::Succeeded } else { CommandResult::Failed }
            } else if l.contains(needle) && !l.contains("--remove-rule") && !l.contains(" -D ") && !l.contains("destroy") {
                CommandResult::Failed
            } else {
                CommandResult::Succeeded
            }
        })
    };
    let stage_of = |r: Result<(), SetupError>| match r {
        Err(SetupError::CommandFailed(stage, cmd)) => (stage, line(&cmd)),
        _ => panic!("expected a failed command"),
    };
    let (issued, r) = fail_on("--new-ipset=tallow ", true);
    assert_eq!(issued.len(), 10);
    assert_eq!(stage_of(r).0, SetupStage::Firewalld);
    let (_, r) = fail_on("ipv6 filter", true);
    assert_eq!(stage_of(r).0, SetupStage::FirewalldIpv6);
    let (_, r) = fail_on("--reload", true);
    assert_eq!(
        stage_of(r),
        (SetupStage::FirewalldReload, "/usr/bin/firewall-cmd --reload --quiet".to_string())
    );
    let (_, r) = fail_on("family inet ", false);
    assert_eq!(stage_of(r).0, SetupStage::Iptables);
    let (_, r) = fail_on("ip6tables", false);
    assert_eq!(stage_of(r).0, SetupStage::IptablesIpv6);
}

#[test]
fn a_setup_command_that_cannot_start_aborts() {
    let (issued, r) = drive(&config(false, false), |c| {
        if line(c).contains("-exist create") {
            CommandResult::NotRun("permission denied".to_string())
        } else if line(c).ends_with("--state") {
            CommandResult::Failed
        } else {
            CommandResult::Succeeded
        }
    });
    assert_eq!(issued.last().unwrap(), "/usr/sbin/ipset -exist create tallow hash:ip family inet timeout 7200");
    match r {
        Err(SetupError::CommandNotRun(reason)) => assert_eq!(reason, "permission denied"),
        _ => panic!("expected an abort"),
    }
}
