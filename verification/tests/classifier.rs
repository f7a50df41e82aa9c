use sfctl_ai::cmd_parse::{classify_cmd, CmdKind};

#[test]
fn test_classify_cmd() {
    assert_eq!(classify_cmd("Import-Module ServiceFabric"), CmdKind::Read);
    assert_eq!(classify_cmd("Restart-ServiceFabricNode"), CmdKind::Unknown);
    assert_eq!(
        classify_cmd("Connect-ServiceFabricCluster"),
        CmdKind::Unknown
    );
}

#[test]
fn classifier_scenario() {
    assert_eq!(classify_cmd("Get-Process"), CmdKind::Read);
    assert_eq!(classify_cmd("New-Item foo"), CmdKind::Write);
    assert_eq!(classify_cmd("Get-Process | Stop-Process"), CmdKind::Unknown);
}

#[test]
fn pipe_overrides_leading_verb() {
    assert_eq!(classify_cmd("Get-Process | Remove-Item x"), CmdKind::Unknown);
    assert_eq!(classify_cmd("Select-Object a | b"), CmdKind::Unknown);
    assert_eq!(classify_cmd("Set-Item a | Get-Item a"), CmdKind::Unknown);
}

#[test]
fn import_prefix_overrides_everything() {
    assert_eq!(
        classify_cmd("Import-Module Remove-Everything"),
        CmdKind::Read
    );
    assert_eq!(
        classify_cmd("Import-Module ServiceFabric | Out-Null"),
        CmdKind::Read
    );
}

#[test]
fn classification_trims_leading_whitespace() {
    assert_eq!(classify_cmd("   Get-Process"), CmdKind::Read);
    assert_eq!(classify_cmd("\t New-Item x"), CmdKind::Write);
    assert_eq!(classify_cmd("  "), CmdKind::Unknown);
}

#[test]
fn read_and_write_verbs() {
    assert_eq!(classify_cmd("Select-Object Name"), CmdKind::Read);
    assert_eq!(classify_cmd("Read-Host"), CmdKind::Read);
    assert_eq!(classify_cmd("Set-Location C:"), CmdKind::Write);
    assert_eq!(classify_cmd("Add-Content f x"), CmdKind::Write);
    assert_eq!(classify_cmd("Remove-Item f"), CmdKind::Write);
    assert_eq!(classify_cmd("Update-Module m"), CmdKind::Write);
    assert_eq!(classify_cmd("Write-Output hi"), CmdKind::Write);
    assert_eq!(classify_cmd("get-process"), CmdKind::Unknown);
    assert_eq!(classify_cmd(""), CmdKind::Unknown);
}
