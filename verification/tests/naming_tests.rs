use workshop_pipeline::installer::ModUpdater;

#[test]
fn mod_manager_test_sanitize_folder_name() {
    assert_eq!(ModUpdater::sanitize_folder_name("Test Mod"), "Test Mod");
    assert_eq!(ModUpdater::sanitize_folder_name("Test<Mod>"), "TestMod");
    assert_eq!(ModUpdater::sanitize_folder_name(""), "Mod");
    assert_eq!(ModUpdater::sanitize_folder_name("   "), "Mod");
}

#[test]
fn mod_manager_test_sanitize_folder_name_normal() {
    assert_eq!(ModUpdater::sanitize_folder_name("Test Mod"), "Test Mod");
    assert_eq!(ModUpdater::sanitize_folder_name("My Awesome Mod"), "My Awesome Mod");
}

#[test]
fn mod_manager_test_sanitize_folder_name_invalid_chars() {
    assert_eq!(ModUpdater::sanitize_folder_name("Test<Mod>"), "TestMod");
    assert_eq!(ModUpdater::sanitize_folder_name("Test:Mod"), "TestMod");
    assert_eq!(ModUpdater::sanitize_folder_name("Test/Mod"), "TestMod");
    assert_eq!(ModUpdater::sanitize_folder_name("Test\\Mod"), "TestMod");
    assert_eq!(ModUpdater::sanitize_folder_name("Test|Mod"), "TestMod");
    assert_eq!(ModUpdater::sanitize_folder_name("Test?Mod"), "TestMod");
    assert_eq!(ModUpdater::sanitize_folder_name("Test*Mod"), "TestMod");
}

#[test]
fn mod_manager_test_sanitize_folder_name_control_chars() {
    assert_eq!(ModUpdater::sanitize_folder_name("Test\x00Mod"), "TestMod");
    assert_eq!(ModUpdater::sanitize_folder_name("Test\nMod"), "TestMod");
    assert_eq!(ModUpdater::sanitize_folder_name("Test\tMod"), "TestMod");
}

#[test]
fn mod_manager_test_sanitize_folder_name_multiple_spaces() {
    assert_eq!(ModUpdater::sanitize_folder_name("Test    Mod"), "Test Mod");
    assert_eq!(ModUpdater::sanitize_folder_name("Test   Mod   Name"), "Test Mod Name");
}

#[test]
fn mod_manager_test_sanitize_folder_name_leading_trailing_dots() {
    assert_eq!(ModUpdater::sanitize_folder_name("...Test Mod..."), "Test Mod");
    assert_eq!(ModUpdater::sanitize_folder_name(".Test Mod."), "Test Mod");
}

#[test]
fn mod_manager_test_sanitize_folder_name_leading_trailing_spaces() {
    assert_eq!(ModUpdater::sanitize_folder_name("   Test Mod   "), "Test Mod");
    assert_eq!(ModUpdater::sanitize_folder_name(" Test Mod "), "Test Mod");
}

#[test]
fn mod_manager_test_sanitize_folder_name_empty() {
    assert_eq!(ModUpdater::sanitize_folder_name(""), "Mod");
    assert_eq!(ModUpdater::sanitize_folder_name("   "), "Mod");
    assert_eq!(ModUpdater::sanitize_folder_name("..."), "Mod");
}

#[test]
fn mod_manager_test_sanitize_folder_name_long() {
    let long_name = "A".repeat(300);
    let result = ModUpdater::sanitize_folder_name(&long_name);
    assert!(result.len() <= 200);
    assert!(!result.is_empty());
}

#[test]
fn mod_updater_test_sanitize_folder_name() {
    assert_eq!(ModUpdater::sanitize_folder_name("Test Mod"), "Test Mod");
    assert_eq!(ModUpdater::sanitize_folder_name("Test<Mod>"), "TestMod");
    assert_eq!(ModUpdater::sanitize_folder_name(""), "Mod");
    assert_eq!(ModUpdater::sanitize_folder_name("   "), "Mod");
}

#[test]
fn mod_updater_test_sanitize_folder_name_normal() {
    assert_eq!(ModUpdater::sanitize_folder_name("Test Mod"), "Test Mod");
    assert_eq!(ModUpdater::sanitize_folder_name("My Awesome Mod"), "My Awesome Mod");
}

#[test]
fn mod_updater_test_sanitize_folder_name_invalid_chars() {
    assert_eq!(ModUpdater::sanitize_folder_name("Test<Mod>"), "TestMod");
    assert_eq!(ModUpdater::sanitize_folder_name("Test:Mod"), "TestMod");
    assert_eq!(ModUpdater::sanitize_folder_name("Test/Mod"), "TestMod");
    assert_eq!(ModUpdater::sanitize_folder_name("Test\\Mod"), "TestMod");
    assert_eq!(ModUpdater::sanitize_folder_name("Test|Mod"), "TestMod");
    assert_eq!(ModUpdater::sanitize_folder_name("Test?Mod"), "TestMod");
    assert_eq!(ModUpdater::sanitize_folder_name("Test*Mod"), "TestMod");
}

#[test]
fn mod_updater_test_sanitize_folder_name_control_chars() {
    assert_eq!(ModUpdater::sanitize_folder_name("Test\x00Mod"), "TestMod");
    assert_eq!(ModUpdater::sanitize_folder_name("Test\nMod"), "TestMod");
    assert_eq!(ModUpdater::sanitize_folder_name("Test\tMod"), "TestMod");
}

#[test]
fn mod_updater_test_sanitize_folder_name_multiple_spaces() {
    assert_eq!(ModUpdater::sanitize_folder_name("Test    Mod"), "Test Mod");
    assert_eq!(ModUpdater::sanitize_folder_name("Test   Mod   Name"), "Test Mod Name");
}

#[test]
fn mod_updater_test_sanitize_folder_name_leading_trailing_dots() {
    assert_eq!(ModUpdater::sanitize_folder_name("...Test Mod..."), "Test Mod");
    assert_eq!(ModUpdater::sanitize_folder_name(".Test Mod."), "Test Mod");
}

#[test]
fn mod_updater_test_sanitize_folder_name_leading_trailing_spaces() {
    assert_eq!(ModUpdater::sanitize_folder_name("   Test Mod   "), "Test Mod");
    assert_eq!(ModUpdater::sanitize_folder_name(" Test Mod "), "Test Mod");
}

#[test]
fn mod_updater_test_sanitize_folder_name_empty() {
    assert_eq!(ModUpdater::sanitize_folder_name(""), "Mod");
    assert_eq!(ModUpdater::sanitize_folder_name("   "), "Mod");
    assert_eq!(ModUpdater::sanitize_folder_name("..."), "Mod");
}

#[test]
fn mod_updater_test_sanitize_folder_name_long() {
    let long_name = "A".repeat(300);
    let result = ModUpdater::sanitize_folder_name(&long_name);
    assert!(result.len() <= 200);
    assert!(!result.is_empty());
}
