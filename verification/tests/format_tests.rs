use serve_md::formats::{
    md_path_for, ConfigFormats, FormatError, GenericFormats, MatterFormats, PayloadFormats,
};
use serve_md::text::{replace_all, str_eq};

#[test]
fn payload_extension_mapping() {
    assert_eq!(PayloadFormats::try_from("html"), Ok(PayloadFormats::Html));
    assert_eq!(PayloadFormats::try_from("md"), Ok(PayloadFormats::Markdown));
    assert_eq!(PayloadFormats::try_from("json"), Ok(PayloadFormats::Json));
    assert_eq!(PayloadFormats::try_from("yaml"), Ok(PayloadFormats::Yaml));
    assert_eq!(PayloadFormats::try_from("toml"), Ok(PayloadFormats::Toml));
    assert_eq!(PayloadFormats::try_from("pickle"), Ok(PayloadFormats::Pickle));
    assert_eq!(PayloadFormats::try_from("cbor"), Ok(PayloadFormats::Cbor));
    assert_eq!(PayloadFormats::try_from("csv"), Ok(PayloadFormats::Csv));
    assert_eq!(PayloadFormats::try_from("postcard"), Ok(PayloadFormats::Postcard));
    assert_eq!(
        PayloadFormats::try_from("xxx"),
        Err(FormatError::UnsupportedExtension("xxx".to_string()))
    );
}

#[test]
fn config_extension_mapping() {
    assert_eq!(ConfigFormats::try_from("json"), Ok(ConfigFormats::Json));
    assert_eq!(ConfigFormats::try_from("toml"), Ok(ConfigFormats::Toml));
    assert_eq!(ConfigFormats::try_from("yaml"), Ok(ConfigFormats::Yaml));
    assert_eq!(
        ConfigFormats::try_from("ini"),
        Err(FormatError::UnsupportedExtension("ini".to_string()))
    );
}

#[test]
fn generic_codes_round_trip() {
    let all = [
        GenericFormats::Json,
        GenericFormats::Yaml,
        GenericFormats::Toml,
        GenericFormats::Csv,
        GenericFormats::Pickle,
        GenericFormats::Postcard,
        GenericFormats::Cbor,
    ];
    for f in all {
        assert_eq!(GenericFormats::try_from_code(f.code()), Ok(f));
    }
    assert_eq!(
        GenericFormats::try_from_code(77),
        Err(FormatError::UnrecognisedCode(77))
    );
    assert_eq!(GenericFormats::Json.code(), 3);
    assert_eq!(GenericFormats::Cbor.code(), 9);
}

#[test]
fn generic_counterparts() {
    assert_eq!(
        GenericFormats::try_from_payload(&PayloadFormats::Html),
        Err(FormatError::NotGeneric)
    );
    assert_eq!(
        GenericFormats::try_from_payload(&PayloadFormats::Markdown),
        Err(FormatError::NotGeneric)
    );
    assert_eq!(
        GenericFormats::try_from_payload(&PayloadFormats::Pickle),
        Ok(GenericFormats::Pickle)
    );
    assert_eq!(
        GenericFormats::try_from_matter(&MatterFormats::Refdef),
        Err(FormatError::NotGeneric)
    );
    assert_eq!(
        GenericFormats::try_from_matter(&MatterFormats::Yaml),
        Ok(GenericFormats::Yaml)
    );
}

#[test]
fn format_names() {
    assert_eq!(PayloadFormats::Markdown.as_str(), "md");
    assert_eq!(PayloadFormats::Pickle.as_str(), "pickle");
    assert_eq!(MatterFormats::Refdef.as_str(), "refdef");
    assert_eq!(GenericFormats::Cbor.as_str(), "cbor");
}

#[test]
fn payload_codes() {
    assert_eq!(PayloadFormats::Html.code(), 1);
    assert_eq!(PayloadFormats::Markdown.code(), 2);
    assert_eq!(PayloadFormats::Json.code(), 3);
    assert_eq!(MatterFormats::Refdef.code(), 0);
    assert_eq!(ConfigFormats::Yaml.code(), 4);
}

#[test]
fn md_path_for_replaces_every_extension_occurrence() {
    assert_eq!(md_path_for("notes.json", &PayloadFormats::Json), "notes.md");
    assert_eq!(md_path_for("a.html.html", &PayloadFormats::Html), "a.md.md");
    assert_eq!(md_path_for("plain", &PayloadFormats::Json), "plain");
}

#[test]
fn replace_all_scans_left_to_right_without_rescanning() {
    assert_eq!(replace_all("aaa", "aa", "b"), "ba");
    assert_eq!(replace_all("this is old", "old", "new"), "this is new");
    assert_eq!(replace_all("no match", "xyz", "q"), "no match");
}

#[test]
fn str_eq_compares_characters() {
    assert!(str_eq("", ""));
    assert!(str_eq("déjà", "déjà"));
    assert!(!str_eq("a", "ab"));
    assert!(!str_eq("abc", "abd"));
}
