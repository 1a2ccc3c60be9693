use rainmeter::host::RmGetType;
use rainmeter::host::RmLogLevel;

#[test]
fn log_level_codes_match_the_host_constants() {
    assert_eq!(RmLogLevel::LogError.code(), 1);
    assert_eq!(RmLogLevel::LogWarning.code(), 2);
    assert_eq!(RmLogLevel::LogNotice.code(), 3);
    assert_eq!(RmLogLevel::LogDebug.code(), 4);
}

#[test]
fn get_type_codes_match_the_host_constants() {
    assert_eq!(RmGetType::MeasureName.code(), 0);
    assert_eq!(RmGetType::Skin.code(), 1);
    assert_eq!(RmGetType::SettingsFile.code(), 2);
    assert_eq!(RmGetType::SkinName.code(), 3);
    assert_eq!(RmGetType::SkinWindowHandle.code(), 4);
}
