//! Choosing the shell that a new terminal runs.

use vstd::prelude::*;

verus! {

/// The shell to run and its arguments: PowerShell 7 when it is installed,
/// then Windows PowerShell, then the command interpreter that `COMSPEC`
/// names (`cmd.exe` when it is not set).
pub fn select_shell(has_pwsh: bool, has_powershell: bool, comspec: Option<String>) -> (r: (
    String,
    Vec<String>,
))
    ensures
        has_pwsh ==> r.0@ == "pwsh.exe"@ && r.1@.len() == 1 && r.1@[0]@ == "-NoLogo"@,
        !has_pwsh && has_powershell ==> r.0@ == "powershell.exe"@ && r.1@.len() == 1
            && r.1@[0]@ == "-NoLogo"@,
        !has_pwsh && !has_powershell ==> r.1@.len() == 0 && r.0@ == match comspec {
            Some(c) => c@,
            None => "cmd.exe"@,
        },
{
    if has_pwsh {
        let mut args: Vec<String> = Vec::new();
        args.push(String::from_str("-NoLogo"));
        return (String::from_str("pwsh.exe"), args);
    }
    if has_powershell {
        let mut args: Vec<String> = Vec::new();
        args.push(String::from_str("-NoLogo"));
        return (String::from_str("powershell.exe"), args);
    }
    let shell = match comspec {
        Some(c) => c,
        None => String::from_str("cmd.exe"),
    };
    (shell, Vec::new())
}

} // verus!
