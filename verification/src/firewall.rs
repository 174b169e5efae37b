//! The firewall commands that create, remove and fill the `tallow` sets, and
//! the decisions taken between them while the firewall is set up.

use vstd::prelude::*;
use crate::config::Config;
use crate::text::{concatenate, decimal, decimal_string, trim_end_slashes, trim_trailing_slashes};

verus! {

/// A program and its arguments, to be run by the caller.
pub struct FwCommand {
    pub program: String,
    pub args: Vec<String>,
}

/// What a command is: its program and its arguments, as character sequences.
pub type CommandView = (Seq<char>, Seq<Seq<char>>);

/// The character sequences of a list of strings.
pub open spec fn strings_view(v: Seq<String>) -> Seq<Seq<char>> {
    v.map_values(|s: String| s@)
}

impl View for FwCommand {
    type V = CommandView;

    open spec fn view(&self) -> CommandView {
        (self.program@, strings_view(self.args@))
    }
}

/// The views of a list of commands.
pub open spec fn commands_view(v: Seq<FwCommand>) -> Seq<CommandView> {
    v.map_values(|c: FwCommand| c@)
}

/// A command whose program is `program` and whose arguments are `args`.
pub fn make_command(program: String, args: &[&str]) -> (res: FwCommand)
    ensures
        res@ == (program@, args@.map_values(|a: &str| a@)),
{
    let mut out: Vec<String> = Vec::new();
    let mut i: usize = 0;
    while i < args.len()
        invariant
            i <= args@.len(),
            strings_view(out@) =~= args@.take(i as int).map_values(|a: &str| a@),
        decreases args@.len() - i,
    {
        let ghost before = out@;
        let a = String::from_str(args[i]);
        out.push(a);
        assert(strings_view(out@) =~= strings_view(before).push(args@[i as int]@));
        assert(args@.take(i + 1) =~= args@.take(i as int).push(args@[i as int]));
        i = i + 1;
    }
    assert(args@.take(args@.len() as int) =~= args@);
    FwCommand { program, args: out }
}

/// The path of the tool `name` (given with its leading `/`) in directory `dir`.
pub open spec fn tool_path(dir: Seq<char>, name: Seq<char>) -> Seq<char> {
    trim_trailing_slashes(dir) + name
}

pub(crate) fn tool(dir: &str, name: &str) -> (res: String)
    ensures
        res@ == tool_path(dir@, name@),
{
    concatenate(trim_end_slashes(dir), name)
}


/// The commands that remove the sets and rules of an earlier run, in the order
/// they are run: firewalld's, then those of iptables and ipset, each IPv4 first
/// and IPv6 where it is managed.
pub open spec fn reset_commands(fwcmd_path: Seq<char>, ipt_path: Seq<char>, has_ipv6: bool) -> Seq<CommandView> {
    let fwcmd = tool_path(fwcmd_path, "/firewall-cmd"@);
    let ipt = tool_path(ipt_path, "/iptables"@);
    let ip6t = tool_path(ipt_path, "/ip6tables"@);
    let ipset = tool_path(ipt_path, "/ipset"@);
    let fw_v4 = seq![
        (fwcmd, seq!["--permanent"@, "--direct"@, "--remove-rule"@, "ipv4"@, "filter"@, "INPUT"@, "1"@, "-m"@, "set"@, "--match-set"@, "tallow"@, "src"@, "-j"@, "DROP"@]),
        (fwcmd, seq!["--permanent"@, "--delete-ipset=tallow"@]),
    ];
    let fw_v6 = seq![
        (fwcmd, seq!["--permanent"@, "--direct"@, "--remove-rule"@, "ipv6"@, "filter"@, "INPUT"@, "1"@, "-m"@, "set"@, "--match-set"@, "tallow6"@, "src"@, "-j"@, "DROP"@]),
        (fwcmd, seq!["--permanent"@, "--delete-ipset=tallow6"@]),
    ];
    let ipt_v4 = seq![
        (ipt, seq!["-t"@, "filter"@, "-D"@, "INPUT"@, "-m"@, "set"@, "--match-set"@, "tallow"@, "src"@, "-j"@, "DROP"@]),
        (ipset, seq!["destroy"@, "tallow"@]),
    ];
    let ipt_v6 = seq![
        (ip6t, seq!["-t"@, "filter"@, "-D"@, "INPUT"@, "-m"@, "set"@, "--match-set"@, "tallow6"@, "src"@, "-j"@, "DROP"@]),
        (ipset, seq!["destroy"@, "tallow6"@]),
    ];
    fw_v4 + (if has_ipv6 { fw_v6 } else { seq![] }) + ipt_v4 + (if has_ipv6 { ipt_v6 } else { seq![] })
}

/// The commands that remove the `tallow` and `tallow6` sets and the rules that
/// use them, for the caller to run in order; what each of them reports is of
/// no consequence.
pub fn reset_rules(fwcmd_path: &str, ipt_path: &str, has_ipv6: bool) -> (res: Vec<FwCommand>)
    ensures
        commands_view(res@) == reset_commands(fwcmd_path@, ipt_path@, has_ipv6),
{
    let fwcmd = tool(fwcmd_path, "/firewall-cmd");
    let ipt = tool(ipt_path, "/iptables");
    let ip6t = tool(ipt_path, "/ip6tables");
    let ipset = tool(ipt_path, "/ipset");
    let mut out: Vec<FwCommand> = Vec::new();
    out.push(make_command(fwcmd.clone(), &["--permanent", "--direct", "--remove-rule", "ipv4", "filter", "INPUT", "1", "-m", "set", "--match-set", "tallow", "src", "-j", "DROP"]));
    out.push(make_command(fwcmd.clone(), &["--permanent", "--delete-ipset=tallow"]));
    if has_ipv6 {
        out.push(make_command(fwcmd.clone(), &["--permanent", "--direct", "--remove-rule", "ipv6", "filter", "INPUT", "1", "-m", "set", "--match-set", "tallow6", "src", "-j", "DROP"]));
        out.push(make_command(fwcmd.clone(), &["--permanent", "--delete-ipset=tallow6"]));
    }
    out.push(make_command(ipt, &["-t", "filter", "-D", "INPUT", "-m", "set", "--match-set", "tallow", "src", "-j", "DROP"]));
    out.push(make_command(ipset.clone(), &["destroy", "tallow"]));
    if has_ipv6 {
        out.push(make_command(ip6t, &["-t", "filter", "-D", "INPUT", "-m", "set", "--match-set", "tallow6", "src", "-j", "DROP"]));
        out.push(make_command(ipset, &["destroy", "tallow6"]));
    }
    assert(commands_view(out@) =~~= reset_commands(fwcmd_path@, ipt_path@, has_ipv6));
    out
}


pub(crate) fn with_arg(cmd: FwCommand, arg: String) -> (res: FwCommand)
    ensures
        res@ == (cmd@.0, cmd@.1.push(arg@)),
{
    let FwCommand { program, mut args } = cmd;
    let ghost before = args@;
    args.push(arg);
    assert(strings_view(args@) =~= strings_view(before).push(arg@));
    FwCommand { program, args }
}

/// The command that tells whether firewalld is running.
pub open spec fn probe_command(fwcmd_path: Seq<char>) -> CommandView {
    (tool_path(fwcmd_path, "/firewall-cmd"@), seq!["--state"@])
}

/// The commands that create the sets and drop rules through firewalld, then
/// reload it, in the order they are run.
pub open spec fn firewalld_commands(fwcmd_path: Seq<char>, expires: int, has_ipv6: bool) -> Seq<CommandView> {
    let fwcmd = tool_path(fwcmd_path, "/firewall-cmd"@);
    let timeout = "--option=timeout="@ + decimal(expires);
    let v4 = seq![
        (fwcmd, seq!["--permanent"@, "--quiet"@, "--new-ipset=tallow"@, "--type=hash:ip"@, "--family=inet"@, timeout]),
        (fwcmd, seq!["--permanent"@, "--direct"@, "--quiet"@, "--add-rule"@, "ipv4"@, "filter"@, "INPUT"@, "1"@, "-m"@, "set"@, "--match-set"@, "tallow"@, "src"@, "-j"@, "DROP"@]),
    ];
    let v6 = seq![
        (fwcmd, seq!["--permanent"@, "--quiet"@, "--new-ipset=tallow6"@, "--type=hash:ip"@, "--family=inet6"@, timeout]),
        (fwcmd, seq!["--permanent"@, "--direct"@, "--quiet"@, "--add-rule"@, "ipv6"@, "filter"@, "INPUT"@, "1"@, "-m"@, "set"@, "--match-set"@, "tallow6"@, "src"@, "-j"@, "DROP"@]),
    ];
    v4 + (if has_ipv6 { v6 } else { seq![] }) + seq![(fwcmd, seq!["--reload"@, "--quiet"@])]
}

/// The commands that create the sets with ipset and add the drop rules with
/// iptables and ip6tables, in the order they are run.
pub open spec fn iptables_commands(ipt_path: Seq<char>, expires: int, has_ipv6: bool) -> Seq<CommandView> {
    let ipt = tool_path(ipt_path, "/iptables"@);
    let ip6t = tool_path(ipt_path, "/ip6tables"@);
    let ipset = tool_path(ipt_path, "/ipset"@);
    let exp = decimal(expires);
    let v4 = seq![
        (ipset, seq!["-exist"@, "create"@, "tallow"@, "hash:ip"@, "family"@, "inet"@, "timeout"@, exp]),
        (ipt, seq!["-t"@, "filter"@, "-A"@, "INPUT"@, "-m"@, "set"@, "--match-set"@, "tallow"@, "src"@, "-j"@, "DROP"@]),
    ];
    let v6 = seq![
        (ipset, seq!["-exist"@, "create"@, "tallow6"@, "hash:ip"@, "family"@, "inet6"@, "timeout"@, exp]),
        (ip6t, seq!["-t"@, "filter"@, "-A"@, "INPUT"@, "-m"@, "set"@, "--match-set"@, "tallow6"@, "src"@, "-j"@, "DROP"@]),
    ];
    v4 + (if has_ipv6 { v6 } else { seq![] })
}

fn build_firewalld_commands(fwcmd_path: &str, expires: i32, has_ipv6: bool) -> (res: Vec<FwCommand>)
    ensures
        commands_view(res@) == firewalld_commands(fwcmd_path@, expires as int, has_ipv6),
{
    let fwcmd = tool(fwcmd_path, "/firewall-cmd");
    let timeout = concatenate("--option=timeout=", decimal_string(expires).as_str());
    let mut out: Vec<FwCommand> = Vec::new();
    out.push(with_arg(make_command(fwcmd.clone(), &["--permanent", "--quiet", "--new-ipset=tallow", "--type=hash:ip", "--family=inet"]), timeout.clone()));
    out.push(make_command(fwcmd.clone(), &["--permanent", "--direct", "--quiet", "--add-rule", "ipv4", "filter", "INPUT", "1", "-m", "set", "--match-set", "tallow", "src", "-j", "DROP"]));
    if has_ipv6 {
        out.push(with_arg(make_command(fwcmd.clone(), &["--permanent", "--quiet", "--new-ipset=tallow6", "--type=hash:ip", "--family=inet6"]), timeout));
        out.push(make_command(fwcmd.clone(), &["--permanent", "--direct", "--quiet", "--add-rule", "ipv6", "filter", "INPUT", "1", "-m", "set", "--match-set", "tallow6", "src", "-j", "DROP"]));
    }
    out.push(make_command(fwcmd, &["--reload", "--quiet"]));
    assert(commands_view(out@) =~~= firewalld_commands(fwcmd_path@, expires as int, has_ipv6));
    out
}

fn build_iptables_commands(ipt_path: &str, expires: i32, has_ipv6: bool) -> (res: Vec<FwCommand>)
    ensures
        commands_view(res@) == iptables_commands(ipt_path@, expires as int, has_ipv6),
{
    let ipt = tool(ipt_path, "/iptables");
    let ip6t = tool(ipt_path, "/ip6tables");
    let ipset = tool(ipt_path, "/ipset");
    let exp = decimal_string(expires);
    let mut out: Vec<FwCommand> = Vec::new();
    out.push(with_arg(make_command(ipset.clone(), &["-exist", "create", "tallow", "hash:ip", "family", "inet", "timeout"]), exp.clone()));
    out.push(make_command(ipt, &["-t", "filter", "-A", "INPUT", "-m", "set", "--match-set", "tallow", "src", "-j", "DROP"]));
    if has_ipv6 {
        out.push(with_arg(make_command(ipset, &["-exist", "create", "tallow6", "hash:ip", "family", "inet6", "timeout"]), exp));
        out.push(make_command(ip6t, &["-t", "filter", "-A", "INPUT", "-m", "set", "--match-set", "tallow6", "src", "-j", "DROP"]));
    }
    assert(commands_view(out@) =~~= iptables_commands(ipt_path@, expires as int, has_ipv6));
    out
}


/// What running a command came to.
pub enum CommandResult {
    /// It ran and exited with status zero.
    Succeeded,
    /// It ran and exited with another status.
    Failed,
    /// It could not be started; the reason is given.
    NotRun(String),
}

/// The group of setup commands a failed command belongs to.
#[derive(Clone, Copy, PartialEq, Eq, Structural, Debug)]
pub enum SetupStage {
    Firewalld,
    FirewalldIpv6,
    FirewalldReload,
    Iptables,
    IptablesIpv6,
}

/// Why firewall setup stopped.
pub enum SetupError {
    /// A setup command ran and failed.
    CommandFailed(SetupStage, FwCommand),
    /// A setup command could not be started.
    CommandNotRun(String),
}

/// What the caller does next during firewall setup.
pub enum SetupAction {
    /// Run this command and report how it went.
    Run(FwCommand),
    /// Setup is over, with this outcome.
    Finish(Result<(), SetupError>),
}

/// Where firewall setup stands.
#[derive(Clone, Copy, PartialEq, Eq, Structural, Debug)]
pub enum SetupPhase {
    /// Nothing has run yet.
    Start,
    /// The reset command with this index runs next, or the probe once all have run.
    Resetting(usize),
    /// The probe is running.
    Probing,
    /// Applying the firewalld commands (`true`) or the iptables ones (`false`);
    /// the count of those issued so far is given.
    Applying(bool, usize),
    /// Setup is over.
    Done,
}

/// What an action amounts to, as mathematical values.
pub enum Step {
    Run(CommandView),
    Succeed,
    Fail(SetupStage, CommandView),
    Abort(Seq<char>),
}

/// The step that an action stands for.
pub open spec fn step_of(a: SetupAction) -> Step {
    match a {
        SetupAction::Run(c) => Step::Run(c@),
        SetupAction::Finish(Ok(())) => Step::Succeed,
        SetupAction::Finish(Err(SetupError::CommandFailed(stage, c))) => Step::Fail(stage, c@),
        SetupAction::Finish(Err(SetupError::CommandNotRun(reason))) => Step::Abort(reason@),
    }
}

/// The firewall setup of one configuration: the commands it may run and
/// where it stands.
pub struct FirewallSetup {
    pub nocreate: bool,
    pub has_ipv6: bool,
    pub reset: Vec<FwCommand>,
    pub probe: FwCommand,
    pub firewalld: Vec<FwCommand>,
    pub iptables: Vec<FwCommand>,
    pub phase: SetupPhase,
}

/// The group a failing command of the chosen list belongs to, by its index.
pub open spec fn failure_stage(firewalld: bool, index: int, len: int) -> SetupStage {
    if firewalld {
        if index + 1 == len {
            SetupStage::FirewalldReload
        } else if index < 2 {
            SetupStage::Firewalld
        } else {
            SetupStage::FirewalldIpv6
        }
    } else if index < 2 {
        SetupStage::Iptables
    } else {
        SetupStage::IptablesIpv6
    }
}

impl FirewallSetup {
    /// The commands applied after the probe: firewalld's or the iptables ones.
    pub open spec fn chosen(&self, firewalld: bool) -> Seq<FwCommand> {
        if firewalld { self.firewalld@ } else { self.iptables@ }
    }

    /// The phase indices stay within the command lists.
    pub open spec fn well_formed(&self) -> bool {
        match self.phase {
            SetupPhase::Resetting(i) => i <= self.reset@.len(),
            SetupPhase::Applying(fw, n) => 1 <= n <= self.chosen(fw).len(),
            _ => true,
        }
    }

    /// Whether a command has been handed out and its result is awaited.
    pub open spec fn awaiting_result(&self) -> bool {
        self.phase is Resetting || self.phase is Probing || self.phase is Applying
    }

    /// The phase and step that come first.
    pub open spec fn first_step(&self) -> (SetupPhase, Step) {
        if self.nocreate {
            (SetupPhase::Done, Step::Succeed)
        } else if self.reset@.len() > 0 {
            (SetupPhase::Resetting(1), Step::Run(self.reset@[0]@))
        } else {
            (SetupPhase::Probing, Step::Run(self.probe@))
        }
    }

    /// The phase and step that follow `result`, the outcome of the command
    /// handed out last.
    pub open spec fn next_step(&self, result: CommandResult) -> (SetupPhase, Step) {
        match self.phase {
            SetupPhase::Resetting(i) => if i < self.reset@.len() {
                (SetupPhase::Resetting((i + 1) as usize), Step::Run(self.reset@[i as int]@))
            } else {
                (SetupPhase::Probing, Step::Run(self.probe@))
            },
            SetupPhase::Probing => {
                let fw = result is Succeeded;
                if self.chosen(fw).len() > 0 {
                    (SetupPhase::Applying(fw, 1), Step::Run(self.chosen(fw)[0]@))
                } else {
                    (SetupPhase::Done, Step::Succeed)
                }
            },
            SetupPhase::Applying(fw, n) => {
                let list = self.chosen(fw);
                match result {
                    CommandResult::NotRun(reason) => (SetupPhase::Done, Step::Abort(reason@)),
                    CommandResult::Failed => (
                        SetupPhase::Done,
                        Step::Fail(failure_stage(fw, n - 1, list.len() as int), list[n - 1]@),
                    ),
                    CommandResult::Succeeded => if n < list.len() {
                        (SetupPhase::Applying(fw, (n + 1) as usize), Step::Run(list[n as int]@))
                    } else {
                        (SetupPhase::Done, Step::Succeed)
                    },
                }
            },
            _ => (self.phase, Step::Succeed),
        }
    }
}

fn clone_command(c: &FwCommand) -> (res: FwCommand)
    ensures
        res@ == c@,
{
    let mut args: Vec<String> = Vec::new();
    let mut i: usize = 0;
    while i < c.args.len()
        invariant
            i <= c.args@.len(),
            strings_view(args@) =~= strings_view(c.args@.take(i as int)),
        decreases c.args@.len() - i,
    {
        let ghost before = args@;
        args.push(c.args[i].clone());
        assert(strings_view(args@) =~= strings_view(before).push(c.args@[i as int]@));
        assert(c.args@.take(i + 1) =~= c.args@.take(i as int).push(c.args@[i as int]));
        i = i + 1;
    }
    assert(c.args@.take(c.args@.len() as int) =~= c.args@);
    FwCommand { program: c.program.clone(), args }
}

/// The setup of `config`'s firewall: when `nocreate` is unset, remove what an
/// earlier run left, probe for firewalld, then create the sets and drop rules
/// through firewalld if it answered and through ipset and iptables if not.
pub fn setup_firewall(config: &Config) -> (res: FirewallSetup)
    ensures
        res.phase == SetupPhase::Start,
        res.nocreate == config.nocreate,
        res.has_ipv6 == config.has_ipv6,
        commands_view(res.reset@) == reset_commands(config.fwcmd_path@, config.ipt_path@, config.has_ipv6),
        res.probe@ == probe_command(config.fwcmd_path@),
        commands_view(res.firewalld@) == firewalld_commands(config.fwcmd_path@, config.expires as int, config.has_ipv6),
        commands_view(res.iptables@) == iptables_commands(config.ipt_path@, config.expires as int, config.has_ipv6),
{
    FirewallSetup {
        nocreate: config.nocreate,
        has_ipv6: config.has_ipv6,
        reset: reset_rules(config.fwcmd_path.as_str(), config.ipt_path.as_str(), config.has_ipv6),
        probe: make_command(tool(config.fwcmd_path.as_str(), "/firewall-cmd"), &["--state"]),
        firewalld: build_firewalld_commands(config.fwcmd_path.as_str(), config.expires, config.has_ipv6),
        iptables: build_iptables_commands(config.ipt_path.as_str(), config.expires, config.has_ipv6),
        phase: SetupPhase::Start,
    }
}

impl FirewallSetup {
    /// The first thing to do: finish at once when `nocreate` is set, else run
    /// the first reset command.
    pub fn start(&mut self) -> (res: SetupAction)
        requires
            old(self).phase == SetupPhase::Start,
        ensures
            (final(self).phase, step_of(res)) == old(self).first_step(),
            final(self).well_formed(),
            final(self).nocreate == old(self).nocreate,
            final(self).reset == old(self).reset,
            final(self).probe == old(self).probe,
            final(self).firewalld == old(self).firewalld,
            final(self).iptables == old(self).iptables,
    {
        if self.nocreate {
            self.phase = SetupPhase::Done;
            SetupAction::Finish(Ok(()))
        } else if self.reset.len() > 0 {
            self.phase = SetupPhase::Resetting(1);
            SetupAction::Run(clone_command(&self.reset[0]))
        } else {
            self.phase = SetupPhase::Probing;
            SetupAction::Run(clone_command(&self.probe))
        }
    }

    /// What to do once the command handed out last has run with `result`.
    pub fn advance(&mut self, result: CommandResult) -> (res: SetupAction)
        requires
            old(self).well_formed(),
            old(self).awaiting_result(),
        ensures
            (final(self).phase, step_of(res)) == old(self).next_step(result),
            final(self).well_formed(),
            final(self).nocreate == old(self).nocreate,
            final(self).reset == old(self).reset,
            final(self).probe == old(self).probe,
            final(self).firewalld == old(self).firewalld,
            final(self).iptables == old(self).iptables,
    {
        match self.phase {
            SetupPhase::Resetting(i) => {
                if i < self.reset.len() {
                    self.phase = SetupPhase::Resetting(i + 1);
                    SetupAction::Run(clone_command(&self.reset[i]))
                } else {
                    self.phase = SetupPhase::Probing;
                    SetupAction::Run(clone_command(&self.probe))
                }
            },
            SetupPhase::Probing => {
                let fw = match result {
                    CommandResult::Succeeded => true,
                    _ => false,
                };
                let len = if fw { self.firewalld.len() } else { self.iptables.len() };
                if len > 0 {
                    let first = if fw { clone_command(&self.firewalld[0]) } else { clone_command(&self.iptables[0]) };
                    self.phase = SetupPhase::Applying(fw, 1);
                    SetupAction::Run(first)
                } else {
                    self.phase = SetupPhase::Done;
                    SetupAction::Finish(Ok(()))
                }
            },
            SetupPhase::Applying(fw, n) => {
                let len = if fw { self.firewalld.len() } else { self.iptables.len() };
                match result {
                    CommandResult::NotRun(reason) => {
                        self.phase = SetupPhase::Done;
                        SetupAction::Finish(Err(SetupError::CommandNotRun(reason)))
                    },
                    CommandResult::Failed => {
                        let failed = if fw { clone_command(&self.firewalld[n - 1]) } else { clone_command(&self.iptables[n - 1]) };
                        let stage = if fw {
                            if n == len {
                                SetupStage::FirewalldReload
                            } else if n - 1 < 2 {
                                SetupStage::Firewalld
                            } else {
                                SetupStage::FirewalldIpv6
                            }
                        } else if n - 1 < 2 {
                            SetupStage::Iptables
                        } else {
                            SetupStage::IptablesIpv6
                        };
                        self.phase = SetupPhase::Done;
                        SetupAction::Finish(Err(SetupError::CommandFailed(stage, failed)))
                    },
                    CommandResult::Succeeded => {
                        if n < len {
                            let next = if fw { clone_command(&self.firewalld[n]) } else { clone_command(&self.iptables[n]) };
                            self.phase = SetupPhase::Applying(fw, n + 1);
                            SetupAction::Run(next)
                        } else {
                            self.phase = SetupPhase::Done;
                            SetupAction::Finish(Ok(()))
                        }
                    },
                }
            },
            _ => {
                SetupAction::Finish(Ok(()))
            },
        }
    }
}


/// Whether a command names the IPv6 set, alone or in a firewalld option.
pub open spec fn names_ipv6_set(c: CommandView) -> bool {
    c.1.contains("tallow6"@) || c.1.contains("--new-ipset=tallow6"@) || c.1.contains("--delete-ipset=tallow6"@)
}

/// Turning IPv6 support off drops exactly the commands that name the IPv6
/// set, and keeps the others, in their order: two of the four reset pairs'
/// commands, the two IPv6 firewalld commands before the reload, and the two
/// IPv6 iptables commands.
pub proof fn law_ipv6_commands_only_when_enabled(fwcmd_path: Seq<char>, ipt_path: Seq<char>, expires: int)
    ensures
        reset_commands(fwcmd_path, ipt_path, false) == reset_commands(fwcmd_path, ipt_path, true).take(2)
            + reset_commands(fwcmd_path, ipt_path, true).subrange(4, 6),
        firewalld_commands(fwcmd_path, expires, false) == firewalld_commands(fwcmd_path, expires, true).take(2)
            + firewalld_commands(fwcmd_path, expires, true).skip(4),
        iptables_commands(ipt_path, expires, false) == iptables_commands(ipt_path, expires, true).take(2),
        forall|i: int| 2 <= i < 4 ==> names_ipv6_set(#[trigger] reset_commands(fwcmd_path, ipt_path, true)[i]),
        forall|i: int| 6 <= i < 8 ==> names_ipv6_set(#[trigger] reset_commands(fwcmd_path, ipt_path, true)[i]),
        forall|i: int| 2 <= i < 4 ==> names_ipv6_set(#[trigger] firewalld_commands(fwcmd_path, expires, true)[i]),
        forall|i: int| 2 <= i < 4 ==> names_ipv6_set(#[trigger] iptables_commands(ipt_path, expires, true)[i]),
{
    let r = reset_commands(fwcmd_path, ipt_path, true);
    let f = firewalld_commands(fwcmd_path, expires, true);
    let t = iptables_commands(ipt_path, expires, true);
    assert(reset_commands(fwcmd_path, ipt_path, false) =~= r.take(2) + r.subrange(4, 6));
    assert(firewalld_commands(fwcmd_path, expires, false) =~= f.take(2) + f.skip(4));
    assert(iptables_commands(ipt_path, expires, false) =~= t.take(2));
    assert(r[2].1[10] == "tallow6"@);
    assert(r[3].1[1] == "--delete-ipset=tallow6"@);
    assert(r[6].1[7] == "tallow6"@);
    assert(r[7].1[1] == "tallow6"@);
    assert(f[2].1[2] == "--new-ipset=tallow6"@);
    assert(f[3].1[11] == "tallow6"@);
    assert(t[2].1[2] == "tallow6"@);
    assert(t[3].1[7] == "tallow6"@);
}

/// Each set is created for its own family: `tallow` for IPv4 (`inet`) and
/// `tallow6` for IPv6 (`inet6`), with the configured timeout, through ipset
/// as through firewalld.
pub proof fn law_sets_have_their_family(fwcmd_path: Seq<char>, ipt_path: Seq<char>, expires: int)
    ensures
        iptables_commands(ipt_path, expires, true)[0].1
            == seq!["-exist"@, "create"@, "tallow"@, "hash:ip"@, "family"@, "inet"@, "timeout"@, decimal(expires)],
        iptables_commands(ipt_path, expires, true)[2].1
            == seq!["-exist"@, "create"@, "tallow6"@, "hash:ip"@, "family"@, "inet6"@, "timeout"@, decimal(expires)],
        iptables_commands(ipt_path, expires, false)[0].1
            == seq!["-exist"@, "create"@, "tallow"@, "hash:ip"@, "family"@, "inet"@, "timeout"@, decimal(expires)],
        firewalld_commands(fwcmd_path, expires, true)[0].1 == seq![
            "--permanent"@, "--quiet"@, "--new-ipset=tallow"@, "--type=hash:ip"@, "--family=inet"@,
            "--option=timeout="@ + decimal(expires),
        ],
        firewalld_commands(fwcmd_path, expires, true)[2].1 == seq![
            "--permanent"@, "--quiet"@, "--new-ipset=tallow6"@, "--type=hash:ip"@, "--family=inet6"@,
            "--option=timeout="@ + decimal(expires),
        ],
        iptables_commands(ipt_path, expires, true)[1].0 == trim_trailing_slashes(ipt_path) + "/iptables"@,
        iptables_commands(ipt_path, expires, true)[3].0 == trim_trailing_slashes(ipt_path) + "/ip6tables"@,
        iptables_commands(ipt_path, expires, true)[1].1[7] == "tallow"@,
        iptables_commands(ipt_path, expires, true)[3].1[7] == "tallow6"@,
{
}

/// Every command list of `s` is shorter than the largest `usize`, as any
/// list held in memory is.
pub open spec fn lists_fit(s: FirewallSetup) -> bool {
    &&& s.reset@.len() < usize::MAX
    &&& s.firewalld@.len() < usize::MAX
    &&& s.iptables@.len() < usize::MAX
}

/// `s` in phase `p`.
pub open spec fn in_phase(s: FirewallSetup, p: SetupPhase) -> FirewallSetup {
    FirewallSetup { phase: p, ..s }
}

/// The steps taken from `s` when the commands handed out report `results`, in
/// order, until setup is over or the results run out.
pub open spec fn run_steps(s: FirewallSetup, results: Seq<CommandResult>) -> Seq<Step>
    decreases results.len(),
{
    if results.len() == 0 || !s.awaiting_result() {
        seq![]
    } else {
        let (p, st) = s.next_step(results[0]);
        seq![st] + run_steps(in_phase(s, p), results.drop_first())
    }
}

/// The whole course of setup from its start when the commands report `results`.
pub open spec fn setup_trace(s: FirewallSetup, results: Seq<CommandResult>) -> Seq<Step> {
    let (p, st) = s.first_step();
    seq![st] + run_steps(in_phase(s, p), results)
}

/// Running each of `cmds`, in order.
pub open spec fn runs(cmds: Seq<FwCommand>) -> Seq<Step> {
    cmds.map_values(|c: FwCommand| Step::Run(c@))
}

proof fn lemma_runs_cons(cmds: Seq<FwCommand>, i: int)
    requires
        0 <= i < cmds.len(),
    ensures
        runs(cmds.subrange(i, cmds.len() as int)) == seq![Step::Run(cmds[i]@)] + runs(cmds.subrange(i + 1, cmds.len() as int)),
{
    assert(runs(cmds.subrange(i, cmds.len() as int)) =~= seq![Step::Run(cmds[i]@)] + runs(cmds.subrange(i + 1, cmds.len() as int)));
}

proof fn lemma_reset_segment(s: FirewallSetup, i: int, results: Seq<CommandResult>)
    requires
        lists_fit(s),
        1 <= i <= s.reset@.len(),
        results.len() >= s.reset@.len() - i + 1,
    ensures
        run_steps(in_phase(s, SetupPhase::Resetting(i as usize)), results)
            == runs(s.reset@.subrange(i, s.reset@.len() as int)) + seq![Step::Run(s.probe@)]
                + run_steps(in_phase(s, SetupPhase::Probing), results.skip(s.reset@.len() - i + 1)),
    decreases s.reset@.len() - i,
{
    let r = s.reset@.len() as int;
    let t = in_phase(s, SetupPhase::Resetting(i as usize));
    if i < r {
        lemma_reset_segment(s, i + 1, results.drop_first());
        lemma_runs_cons(s.reset@, i);
        assert(in_phase(t, SetupPhase::Resetting((i + 1) as usize)) == in_phase(s, SetupPhase::Resetting((i + 1) as usize)));
        assert(results.drop_first().skip(r - (i + 1) + 1) =~= results.skip(r - i + 1));
        assert(run_steps(t, results) =~= runs(s.reset@.subrange(i, r)) + seq![Step::Run(s.probe@)]
            + run_steps(in_phase(s, SetupPhase::Probing), results.skip(r - i + 1)));
    } else {
        assert(s.reset@.subrange(i, r) =~= Seq::<FwCommand>::empty());
        assert(runs(s.reset@.subrange(i, r)) =~= Seq::<Step>::empty());
        assert(in_phase(t, SetupPhase::Probing) == in_phase(s, SetupPhase::Probing));
        assert(results.drop_first() =~= results.skip(1));
        assert(run_steps(t, results) =~= runs(s.reset@.subrange(i, r)) + seq![Step::Run(s.probe@)]
            + run_steps(in_phase(s, SetupPhase::Probing), results.skip(r - i + 1)));
    }
}

proof fn lemma_apply_segment(s: FirewallSetup, fw: bool, n: int, results: Seq<CommandResult>)
    requires
        lists_fit(s),
        1 <= n <= s.chosen(fw).len(),
        results.len() == s.chosen(fw).len() - n + 1,
        forall|j: int| 0 <= j < results.len() ==> #[trigger] results[j] is Succeeded,
    ensures
        run_steps(in_phase(s, SetupPhase::Applying(fw, n as usize)), results)
            == runs(s.chosen(fw).subrange(n, s.chosen(fw).len() as int)) + seq![Step::Succeed],
    decreases s.chosen(fw).len() - n,
{
    let list = s.chosen(fw);
    let l = list.len() as int;
    let t = in_phase(s, SetupPhase::Applying(fw, n as usize));
    assert(t.chosen(fw) == list);
    assert(results[0] is Succeeded);
    if n < l {
        let rest = results.drop_first();
        assert forall|j: int| 0 <= j < rest.len() implies #[trigger] rest[j] is Succeeded by {
            assert(rest[j] == results[j + 1]);
        }
        lemma_apply_segment(s, fw, n + 1, rest);
        lemma_runs_cons(list, n);
        assert(in_phase(t, SetupPhase::Applying(fw, (n + 1) as usize)) == in_phase(s, SetupPhase::Applying(fw, (n + 1) as usize)));
        assert(run_steps(t, results) =~= runs(list.subrange(n, l)) + seq![Step::Succeed]);
    } else {
        assert(runs(list.subrange(n, l)) =~= Seq::<Step>::empty());
        assert(t.next_step(results[0]) == (SetupPhase::Done, Step::Succeed));
        assert(run_steps(in_phase(t, SetupPhase::Done), results.drop_first()) == Seq::<Step>::empty());
        assert(run_steps(t, results) =~= runs(list.subrange(n, l)) + seq![Step::Succeed]);
    }
}

/// When no reset command is left to run, setup probes firewalld; the probe's
/// answer alone picks firewalld's commands or the iptables ones, and when each
/// of those succeeds they all run, in order, and setup succeeds.
proof fn lemma_probe_segment(s: FirewallSetup, results: Seq<CommandResult>)
    requires
        lists_fit(s),
        results.len() >= 1,
        results.len() == s.chosen(results[0] is Succeeded).len() + 1,
        forall|j: int| 1 <= j < results.len() ==> #[trigger] results[j] is Succeeded,
    ensures
        run_steps(in_phase(s, SetupPhase::Probing), results)
            == runs(s.chosen(results[0] is Succeeded)) + seq![Step::Succeed],
{
    let fw = results[0] is Succeeded;
    let list = s.chosen(fw);
    let t = in_phase(s, SetupPhase::Probing);
    assert(t.chosen(fw) == list);
    if list.len() > 0 {
        let rest = results.drop_first();
        assert forall|j: int| 0 <= j < rest.len() implies #[trigger] rest[j] is Succeeded by {
            assert(rest[j] == results[j + 1]);
        }
        lemma_apply_segment(s, fw, 1, rest);
        lemma_runs_cons(list, 0);
        assert(list.subrange(0, list.len() as int) =~= list);
        assert(in_phase(t, SetupPhase::Applying(fw, 1)) == in_phase(s, SetupPhase::Applying(fw, 1)));
        assert(run_steps(t, results) =~= runs(list) + seq![Step::Succeed]);
    } else {
        assert(runs(list) =~= Seq::<Step>::empty());
        assert(t.next_step(results[0]) == (SetupPhase::Done, Step::Succeed));
        assert(run_steps(in_phase(t, SetupPhase::Done), results.drop_first()) == Seq::<Step>::empty());
        assert(run_steps(t, results) =~= runs(list) + seq![Step::Succeed]);
    }
}

/// Unless `nocreate` is set, setup runs every reset command whatever each
/// reports, then the probe; the probe's success alone chooses firewalld's
/// commands over the iptables ones, and when each chosen command succeeds
/// they all run, in order, and setup succeeds.
pub proof fn law_setup_course(s: FirewallSetup, results: Seq<CommandResult>)
    requires
        lists_fit(s),
        s.phase == SetupPhase::Start,
        !s.nocreate,
        results.len() > s.reset@.len(),
        results.len() == s.reset@.len() + 1 + s.chosen(results[s.reset@.len() as int] is Succeeded).len(),
        forall|j: int| s.reset@.len() < j < results.len() ==> #[trigger] results[j] is Succeeded,
    ensures
        setup_trace(s, results) == runs(s.reset@) + seq![Step::Run(s.probe@)]
            + runs(s.chosen(results[s.reset@.len() as int] is Succeeded)) + seq![Step::Succeed],
{
    let r = s.reset@.len() as int;
    let tail = results.skip(r);
    assert(tail[0] == results[r]);
    assert forall|j: int| 1 <= j < tail.len() implies #[trigger] tail[j] is Succeeded by {
        assert(tail[j] == results[j + r]);
    }
    lemma_probe_segment(s, tail);
    if r > 0 {
        lemma_reset_segment(s, 1, results);
        lemma_runs_cons(s.reset@, 0);
        assert(s.reset@.subrange(0, r) =~= s.reset@);
        assert(setup_trace(s, results) =~= runs(s.reset@) + seq![Step::Run(s.probe@)]
            + runs(s.chosen(results[r] is Succeeded)) + seq![Step::Succeed]);
    } else {
        assert(runs(s.reset@) =~= Seq::<Step>::empty());
        assert(tail =~= results);
        assert(setup_trace(s, results) =~= runs(s.reset@) + seq![Step::Run(s.probe@)]
            + runs(s.chosen(results[r] is Succeeded)) + seq![Step::Succeed]);
    }
}

/// With `nocreate` set, setup finishes at once and successfully, without
/// running any command.
pub proof fn law_nocreate_runs_nothing(s: FirewallSetup, results: Seq<CommandResult>)
    requires
        s.phase == SetupPhase::Start,
        s.nocreate,
    ensures
        setup_trace(s, results) == seq![Step::Succeed],
{
    assert(setup_trace(s, results) =~= seq![Step::Succeed]);
}

/// A chosen setup command that fails or cannot be started ends setup at once
/// with an error that names it; nothing runs after it.
pub proof fn law_failure_stops_setup(s: FirewallSetup, fw: bool, n: int, result: CommandResult, more: Seq<CommandResult>)
    requires
        lists_fit(s),
        1 <= n <= s.chosen(fw).len(),
        !(result is Succeeded),
    ensures
        run_steps(in_phase(s, SetupPhase::Applying(fw, n as usize)), seq![result] + more) == seq![
            match result {
                CommandResult::NotRun(reason) => Step::Abort(reason@),
                _ => Step::Fail(failure_stage(fw, n - 1, s.chosen(fw).len() as int), s.chosen(fw)[n - 1]@),
            },
        ],
{
    let t = in_phase(s, SetupPhase::Applying(fw, n as usize));
    assert(t.chosen(fw) == s.chosen(fw));
    assert((seq![result] + more)[0] == result);
    assert((seq![result] + more).drop_first() =~= more);
    assert(run_steps(in_phase(t, SetupPhase::Done), more) == Seq::<Step>::empty());
    assert(run_steps(t, seq![result] + more) =~= seq![
        match result {
            CommandResult::NotRun(reason) => Step::Abort(reason@),
            _ => Step::Fail(failure_stage(fw, n - 1, s.chosen(fw).len() as int), s.chosen(fw)[n - 1]@),
        },
    ]);
}

} // verus!
