use oneclient_app::domain::{BundleFile, ContentType, FileKind, ProviderId};
use oneclient_app::naming::{file_provider, tidy_file_name};

#[test]
fn a_versioned_jar_keeps_only_its_name() {
    assert_eq!(
        tidy_file_name("sodium-fabric-0.5.11+mc1.20.1.jar"),
        "sodium-fabric"
    );
    assert_eq!(tidy_file_name("EvergreenHUD-3.0.0.jar"), "EvergreenHUD");
    assert_eq!(tidy_file_name("Sodium-13.303x012"), "Sodium");
}

#[test]
fn a_name_without_a_version_survives_whole() {
    assert_eq!(tidy_file_name("OneConfig.jar"), "OneConfig");
    assert_eq!(tidy_file_name("PolyBlur"), "PolyBlur");
}

#[test]
fn a_leading_separator_is_not_a_version_cut() {
    assert_eq!(tidy_file_name("-1abc"), "-1abc");
}

#[test]
fn a_dotted_name_is_not_mistaken_for_an_extension() {
    assert_eq!(
        tidy_file_name("com.example.longextension"),
        "com.example.longextension"
    );
}

#[test]
fn mod_a_versioned_jar_keeps_only_its_name() {
    assert_eq!(
        tidy_file_name("sodium-fabric-0.5.11+mc1.20.1.jar"),
        "sodium-fabric"
    );
    assert_eq!(tidy_file_name("EvergreenHUD-3.0.0.jar"), "EvergreenHUD");
    assert_eq!(tidy_file_name("Sodium-13.303x012"), "Sodium");
}

#[test]
fn mod_a_name_without_a_version_survives_whole() {
    assert_eq!(tidy_file_name("OneConfig.jar"), "OneConfig");
    assert_eq!(tidy_file_name("PolyBlur"), "PolyBlur");
}

#[test]
fn mod_a_leading_separator_is_not_a_version_cut() {
    assert_eq!(tidy_file_name("-1abc"), "-1abc");
}

#[test]
fn mod_a_dotted_name_is_not_mistaken_for_an_extension() {
    assert_eq!(
        tidy_file_name("com.example.longextension"),
        "com.example.longextension"
    );
}

#[test]
fn an_underscore_or_plus_also_starts_a_version() {
    assert_eq!(tidy_file_name("fabric_api_0.92.jar"), "fabric_api");
    assert_eq!(tidy_file_name("iris+1.6.zip"), "iris");
}

#[test]
fn a_long_extension_is_kept() {
    assert_eq!(tidy_file_name("pack.mcmetaextra"), "pack.mcmetaextra");
    assert_eq!(tidy_file_name("pack.mcmetaex"), "pack");
}

#[test]
fn a_name_that_is_only_an_extension_is_kept() {
    assert_eq!(tidy_file_name(".jar"), ".jar");
    assert_eq!(tidy_file_name(""), "");
}

#[test]
fn a_separator_before_a_letter_is_not_a_cut() {
    assert_eq!(tidy_file_name("better-foliage.jar"), "better-foliage");
}

#[test]
fn extension_length_counts_bytes() {
    // "é" takes two bytes: five characters, ten bytes.
    assert_eq!(tidy_file_name("a.ééééé"), "a.ééééé");
    assert_eq!(tidy_file_name("a.éééé"), "a");
}

fn bundle_file(kind: FileKind) -> BundleFile {
    BundleFile {
        enabled: true,
        hidden: false,
        size: 1,
        content_type: ContentType::Mod,
        kind,
        effective_enabled: true,
        package_id: "p".to_string(),
        display_name: "p.jar".to_string(),
    }
}

#[test]
fn a_bundle_file_names_its_provider() {
    let managed = bundle_file(FileKind::Managed {
        provider: ProviderId::CurseForge,
        project_id: "p".to_string(),
        version_id: "v".to_string(),
    });
    assert_eq!(file_provider(&managed), ProviderId::CurseForge);
    assert_eq!(file_provider(&bundle_file(FileKind::External)), ProviderId::Local);
}
