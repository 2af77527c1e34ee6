use rpgm_asset_decrypter_lib::{
    FileType, DECRYPTED_ASSETS_EXTS, ENCRYPTED_ASSET_EXTS, M4A_EXT, MV_M4A_EXT, MV_OGG_EXT,
    MV_PNG_EXT, MZ_M4A_EXT, MZ_OGG_EXT, MZ_PNG_EXT, OGG_EXT, PNG_EXT,
};

#[test]
fn kinds() {
    assert!(FileType::PNG.is_png());
    assert!(!FileType::PNG.is_ogg());
    assert!(!FileType::PNG.is_m4a());
    assert!(!FileType::OGG.is_png());
    assert!(FileType::OGG.is_ogg());
    assert!(!FileType::OGG.is_m4a());
    assert!(!FileType::M4A.is_png());
    assert!(!FileType::M4A.is_ogg());
    assert!(FileType::M4A.is_m4a());
}

#[test]
fn names() {
    assert_eq!(FileType::PNG.to_string(), "png");
    assert_eq!(FileType::OGG.to_string(), "ogg");
    assert_eq!(FileType::M4A.to_string(), "m4a");
}

#[test]
fn extensions() {
    assert_eq!(
        ENCRYPTED_ASSET_EXTS,
        ["rpgmvp", "rpgmvo", "rpgmvm", "png_", "ogg_", "m4a_"]
    );
    assert_eq!(DECRYPTED_ASSETS_EXTS, ["png", "ogg", "m4a"]);
    assert_eq!([PNG_EXT, OGG_EXT, M4A_EXT], DECRYPTED_ASSETS_EXTS);
}

#[test]
fn kind_of_an_extension() {
    assert_eq!(FileType::try_from(MV_PNG_EXT), Ok(FileType::PNG));
    assert_eq!(FileType::try_from(MZ_PNG_EXT), Ok(FileType::PNG));
    assert_eq!(FileType::try_from(MV_OGG_EXT), Ok(FileType::OGG));
    assert_eq!(FileType::try_from(MZ_OGG_EXT), Ok(FileType::OGG));
    assert_eq!(FileType::try_from(MV_M4A_EXT), Ok(FileType::M4A));
    assert_eq!(FileType::try_from(MZ_M4A_EXT), Ok(FileType::M4A));
    assert_eq!(FileType::try_from("rpgmvp"), Ok(FileType::PNG));
    assert_eq!(FileType::try_from("m4a_"), Ok(FileType::M4A));
}

#[test]
fn kind_of_an_unknown_extension() {
    for extension in ["png", "ogg", "m4a", "", "RPGMVP", "rpgmvp ", "rpgmv", "png__", "txt"] {
        assert_eq!(FileType::try_from(extension), Err("Extension not supported"));
    }
}

#[test]
fn every_encrypted_extension_has_a_kind() {
    for extension in ENCRYPTED_ASSET_EXTS {
        let file_type = FileType::try_from(extension).unwrap();
        let name = file_type.to_string();
        assert!(DECRYPTED_ASSETS_EXTS.contains(&name.as_str()));
    }
}
