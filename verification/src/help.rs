//! The help text.

use vstd::prelude::*;

use crate::name::Prefix;
use crate::text::concat3;

verus! {

/// The help text up to the first mention of the prefix.
pub const HELP_USAGE: &'static str =
    "bgrun — run commands in the background as systemd user units

Usage:
  bgrun [--flags] [overrides] -- <cmd>      run in bg; name auto-derived
  bgrun add [NAME] [flags] [overrides] -- <cmd>   same, with a name
  bgrun list
  bgrun status <name>
  bgrun logs <name> [journalctl opts]
  bgrun stop <name> [name...]                stop units, keep the jobs
  bgrun resume <name> [name...]              start stopped units again
  bgrun remove <name> [name...]              stop + forget units
  bgrun clean                                forget failed ";

/// The help text between the two mentions of the prefix.
pub const HELP_BODY: &'static str =
    "-* units

The command must come after '--'. The job name defaults to the command's
basename. Everything between [NAME] and '--' is passed straight to
systemd-run, so you can override unit properties like WorkingDirectory:

  bgrun -- discord-overlay
  bgrun -- sleep 100
  bgrun add build -p WorkingDirectory=$HOME/project -- make
  bgrun add dl --working-directory=/tmp -pMemoryMax=1G -- wget URL
  bgrun add backup -- rsync -a ~/src/ /mnt/backup/

Flags (either form, in front of the overrides):
  --restart    restart the command when it exits non-zero
               (systemd's own limit still applies: 5 starts per 10s)
  --persist    write a unit file and enable it, so the job also runs at
               every boot. Only -p KEY=VALUE overrides can be persisted,
               and the name must not be taken by a running transient job.

Notes:
  - Units are transient (--collect): finished jobs disappear on their own;
    'clean' only clears units that exited non-zero.
  - '--persist' is the exception: it writes a real unit file under the
    systemd user unit directory, and 'bgrun remove' is what deletes it.
    Without that the job returns at every boot.
  - Jobs survive logout only if lingering is enabled:
      loginctl enable-linger $USER
    'bgrun add' warns when it is off.
  - Logs stay in the journal: view with 'bgrun logs <name>'.
  - Prefix is '";

/// The help text after the last mention of the prefix.
pub const HELP_END: &'static str =
    "' (override with BGRUN_PREFIX; letters, digits,
    '-' and '_' only).
";

/// The help text for a prefix.
pub open spec fn help_text(prefix: Seq<char>) -> Seq<char> {
    HELP_USAGE@ + prefix + HELP_BODY@ + prefix + HELP_END@
}

/// The help text, which names the prefix in force.
pub fn help(prefix: &Prefix) -> (res: String)
    ensures
        res@ == help_text(prefix@),
{
    let mut res = concat3(HELP_USAGE, prefix.as_str(), HELP_BODY);
    res.append(prefix.as_str());
    res.append(HELP_END);
    res
}

/// The help text, word for word: the usage of every command, what the flags do, what is
/// worth knowing of units, and the prefix, where it is spoken of.
pub proof fn help_is_spelled_out(prefix: Seq<char>)
    ensures
        help_text(prefix) == "bgrun — run commands in the background as systemd user units

Usage:
  bgrun [--flags] [overrides] -- <cmd>      run in bg; name auto-derived
  bgrun add [NAME] [flags] [overrides] -- <cmd>   same, with a name
  bgrun list
  bgrun status <name>
  bgrun logs <name> [journalctl opts]
  bgrun stop <name> [name...]                stop units, keep the jobs
  bgrun resume <name> [name...]              start stopped units again
  bgrun remove <name> [name...]              stop + forget units
  bgrun clean                                forget failed "@
            + prefix + "-* units

The command must come after '--'. The job name defaults to the command's
basename. Everything between [NAME] and '--' is passed straight to
systemd-run, so you can override unit properties like WorkingDirectory:

  bgrun -- discord-overlay
  bgrun -- sleep 100
  bgrun add build -p WorkingDirectory=$HOME/project -- make
  bgrun add dl --working-directory=/tmp -pMemoryMax=1G -- wget URL
  bgrun add backup -- rsync -a ~/src/ /mnt/backup/

Flags (either form, in front of the overrides):
  --restart    restart the command when it exits non-zero
               (systemd's own limit still applies: 5 starts per 10s)
  --persist    write a unit file and enable it, so the job also runs at
               every boot. Only -p KEY=VALUE overrides can be persisted,
               and the name must not be taken by a running transient job.

Notes:
  - Units are transient (--collect): finished jobs disappear on their own;
    'clean' only clears units that exited non-zero.
  - '--persist' is the exception: it writes a real unit file under the
    systemd user unit directory, and 'bgrun remove' is what deletes it.
    Without that the job returns at every boot.
  - Jobs survive logout only if lingering is enabled:
      loginctl enable-linger $USER
    'bgrun add' warns when it is off.
  - Logs stay in the journal: view with 'bgrun logs <name>'.
  - Prefix is '"@
            + prefix + "' (override with BGRUN_PREFIX; letters, digits,
    '-' and '_' only).
"@,
{
}

} // verus!
