use std::path::PathBuf;

use code_profile_sync::editor::paths::{
    extensions_dir_for, user_dir_for, EnvVar, PathEnv, Platform,
};
use code_profile_sync::editor::product::Product;

fn product() -> Product {
    Product {
        name_short: "VSCodium".to_owned(),
        name_long: "VSCodium".to_owned(),
        application_name: "codium".to_owned(),
        data_folder_name: ".vscode-oss".to_owned(),
        quality: Some("stable".to_owned()),
        commit: Some("abc123".to_owned()),
    }
}

#[test]
fn derives_linux_paths_from_xdg_config_home() -> Result<(), EnvVar> {
    let vars = PathEnv {
        home: Some("/home/alice".to_owned()),
        xdg_config_home: Some("/xdg/config".to_owned()),
        ..PathEnv::default()
    };

    assert_eq!(
        user_dir_for(&product(), Platform::Linux, &vars)?.to_path_buf(),
        PathBuf::from("/xdg/config").join("VSCodium").join("User")
    );
    assert_eq!(
        extensions_dir_for(&product(), Platform::Linux, &vars)?.to_path_buf(),
        PathBuf::from("/home/alice").join(".vscode-oss").join("extensions")
    );
    Ok(())
}

#[test]
fn derives_linux_paths_from_home_when_xdg_is_empty() -> Result<(), EnvVar> {
    let vars = PathEnv {
        home: Some("/home/alice".to_owned()),
        xdg_config_home: Some(String::new()),
        ..PathEnv::default()
    };

    assert_eq!(
        user_dir_for(&product(), Platform::Linux, &vars)?.to_path_buf(),
        PathBuf::from("/home/alice")
            .join(".config")
            .join("VSCodium")
            .join("User")
    );
    Ok(())
}

#[test]
fn derives_macos_paths_from_home() -> Result<(), EnvVar> {
    let vars = PathEnv {
        home: Some("/Users/alice".to_owned()),
        ..PathEnv::default()
    };

    assert_eq!(
        user_dir_for(&product(), Platform::Macos, &vars)?.to_path_buf(),
        PathBuf::from("/Users/alice")
            .join("Library")
            .join("Application Support")
            .join("VSCodium")
            .join("User")
    );
    assert_eq!(
        extensions_dir_for(&product(), Platform::Macos, &vars)?.to_path_buf(),
        PathBuf::from("/Users/alice").join(".vscode-oss").join("extensions")
    );
    Ok(())
}

#[test]
fn derives_windows_paths_from_appdata_and_userprofile() -> Result<(), EnvVar> {
    let vars = PathEnv {
        user_profile: Some(r"C:\Users\alice".to_owned()),
        appdata: Some(r"C:\Users\alice\AppData\Roaming".to_owned()),
        ..PathEnv::default()
    };

    assert_eq!(
        user_dir_for(&product(), Platform::Windows, &vars)?.to_path_buf(),
        PathBuf::from(r"C:\Users\alice\AppData\Roaming")
            .join("VSCodium")
            .join("User")
    );
    assert_eq!(
        extensions_dir_for(&product(), Platform::Windows, &vars)?.to_path_buf(),
        PathBuf::from(r"C:\Users\alice").join(".vscode-oss").join("extensions")
    );
    Ok(())
}

#[test]
fn reports_missing_required_environment() {
    let vars = PathEnv::default();

    assert!(user_dir_for(&product(), Platform::Linux, &vars).is_err());
    assert!(user_dir_for(&product(), Platform::Macos, &vars).is_err());
    assert!(user_dir_for(&product(), Platform::Windows, &vars).is_err());
    assert!(extensions_dir_for(&product(), Platform::Windows, &vars).is_err());
}

#[test]
fn names_the_missing_variable() {
    let vars = PathEnv::default();
    assert_eq!(
        user_dir_for(&product(), Platform::Windows, &vars).err(),
        Some(EnvVar::AppData)
    );
    assert_eq!(
        extensions_dir_for(&product(), Platform::Windows, &vars).err(),
        Some(EnvVar::UserProfile)
    );
    assert_eq!(
        extensions_dir_for(&product(), Platform::Linux, &vars).err(),
        Some(EnvVar::Home)
    );
    assert_eq!(EnvVar::LocalAppData.name(), "LOCALAPPDATA");
    assert_eq!(EnvVar::Home.name(), "HOME");
}
