use lispbm_lsp::builtin::Builtin;

const ALL: [Builtin; 17] = [
    Builtin::Lbm,
    Builtin::Array,
    Builtin::Crypt,
    Builtin::Display,
    Builtin::Dsp,
    Builtin::Dyn,
    Builtin::LbmImageFormat,
    Builtin::Math,
    Builtin::Mutex,
    Builtin::Random,
    Builtin::Runtime,
    Builtin::SetLib,
    Builtin::String,
    Builtin::Ttf,
    Builtin::Vesc,
    Builtin::VescWifi,
    Builtin::VescBle,
];

#[test]
fn builtin_file_names() {
    assert_eq!(Builtin::Lbm.to_string(), "lbm.builtin.ext.toml");
    assert_eq!(Builtin::LbmImageFormat.to_string(), "lbm-image-format.builtin.ext.toml");
    assert_eq!(Builtin::SetLib.to_string(), "set.builtin.ext.toml");
    assert_eq!(Builtin::VescWifi.file_name(), "vesc-wifi.builtin.ext.toml");
    assert_eq!(Builtin::VescBle.file_name(), "vesc-ble.builtin.ext.toml");
}

#[test]
fn builtin_from_filename_roundtrip() {
    for b in ALL.iter() {
        assert_eq!(Builtin::from_filename(&b.to_string()), Some(*b));
        assert!(b.to_string().ends_with(".builtin.ext.toml"));
    }
}

#[test]
fn builtin_from_filename_unknown() {
    assert_eq!(Builtin::from_filename("core.builtin.ext.toml"), None);
    assert_eq!(Builtin::from_filename("lbm"), None);
    assert_eq!(Builtin::from_filename(""), None);
    assert_eq!(Builtin::from_filename("LBM.builtin.ext.toml"), None);
}

#[test]
fn builtin_reference_document_paths() {
    assert_eq!(Builtin::Lbm.ref_path(), "builtin/lbmref.toml");
    assert_eq!(Builtin::Array.ref_path(), "builtin/arrayref.toml");
    assert_eq!(Builtin::LbmImageFormat.ref_path(), "builtin/lbm-image-format.toml");
    assert_eq!(Builtin::VescBle.ref_path(), "builtin/vesc-bleref.toml");
    let mut refs: Vec<&str> = ALL.iter().map(|b| b.ref_path()).collect();
    refs.sort();
    refs.dedup();
    assert_eq!(refs.len(), 17);
}
