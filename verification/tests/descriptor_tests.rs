use signing_bot::descriptor::DescriptorComponents;
use signing_bot::descriptor::MalformedSetupError;
use signing_bot::descriptor::SubstituteError;

const BLUEWALLET_FILE: &str = "# BlueWallet Multisig setup file
# this file contains only public keys and is safe to
# distribute among cosigners
#
Name: test5678
Policy: 2 of 3
Derivation: m/48'/0'/0'/2'
Format: P2WSH

EAB239AA: xpub6E2HG1bNB69EfRnM8vX2vCktifqLHnQH9Har7ZwWegwkss43rEa5EkJnCjiUKMnV5DRKQJUMCaiysNTq12RZ6cffhJbJtXp4atScMDF83SC

F843467D: xpub6EzLSnj1J7ZVK2o4HuU9pwyDfY6uF1wTpSH2g2dZy13oxqyXEJRb44PbeRrcXDaVLFhHq3MVxuzEfiRZBuCcETuNY7z2rNrNudBY7gZrWYu

16EFEC75: xpub6EFHgaRm1rd3AE8DmxXVncR4RcBsirn4ncDc2mW1oCThkQosh7Rdu6SdyugwWBZV97usQf5WwUn89UaH7bVRoZ5NY8sdwpt8H7Zi9ayhLk5

";

const MAIN_DESCRIPTOR: &str = "wsh(sortedmulti(2,[EAB239AA/48'/0'/0'/2']xpub6E2HG1bNB69EfRnM8vX2vCktifqLHnQH9Har7ZwWegwkss43rEa5EkJnCjiUKMnV5DRKQJUMCaiysNTq12RZ6cffhJbJtXp4atScMDF83SC/0/*,[F843467D/48'/0'/0'/2']xpub6EzLSnj1J7ZVK2o4HuU9pwyDfY6uF1wTpSH2g2dZy13oxqyXEJRb44PbeRrcXDaVLFhHq3MVxuzEfiRZBuCcETuNY7z2rNrNudBY7gZrWYu/0/*,[16EFEC75/48'/0'/0'/2']xpub6EFHgaRm1rd3AE8DmxXVncR4RcBsirn4ncDc2mW1oCThkQosh7Rdu6SdyugwWBZV97usQf5WwUn89UaH7bVRoZ5NY8sdwpt8H7Zi9ayhLk5/0/*))";

const CHANGE_DESCRIPTOR: &str = "wsh(sortedmulti(2,[EAB239AA/48'/0'/0'/2']xpub6E2HG1bNB69EfRnM8vX2vCktifqLHnQH9Har7ZwWegwkss43rEa5EkJnCjiUKMnV5DRKQJUMCaiysNTq12RZ6cffhJbJtXp4atScMDF83SC/1/*,[F843467D/48'/0'/0'/2']xpub6EzLSnj1J7ZVK2o4HuU9pwyDfY6uF1wTpSH2g2dZy13oxqyXEJRb44PbeRrcXDaVLFhHq3MVxuzEfiRZBuCcETuNY7z2rNrNudBY7gZrWYu/1/*,[16EFEC75/48'/0'/0'/2']xpub6EFHgaRm1rd3AE8DmxXVncR4RcBsirn4ncDc2mW1oCThkQosh7Rdu6SdyugwWBZV97usQf5WwUn89UaH7bVRoZ5NY8sdwpt8H7Zi9ayhLk5/1/*))";

#[test]
fn can_parse_bluewallet_file() {
    let descriptor = DescriptorComponents::from_bluewallet_export(BLUEWALLET_FILE)
        .unwrap()
        .into_main_descriptor();
    assert_eq!(descriptor, MAIN_DESCRIPTOR);
}

#[test]
fn renders_change_branch() {
    let descriptor = DescriptorComponents::from_bluewallet_export(BLUEWALLET_FILE)
        .unwrap()
        .into_change_descriptor();
    assert_eq!(descriptor, CHANGE_DESCRIPTOR);
}

#[test]
fn parse_retains_components() {
    let parsed = DescriptorComponents::from_bluewallet_export(BLUEWALLET_FILE).unwrap();
    assert_eq!(parsed.threshold, 2);
    assert_eq!(parsed.derivation, "m/48'/0'/0'/2'");
    assert_eq!(parsed.format.as_deref(), Some("P2WSH"));
    assert_eq!(parsed.keys.len(), 3);
    assert_eq!(parsed.keys[0].0, "EAB239AA");
    assert_eq!(parsed.keys[1].0, "F843467D");
    assert_eq!(parsed.keys[2].0, "16EFEC75");
}

#[test]
fn render_is_deterministic() {
    let parsed = DescriptorComponents::from_bluewallet_export(BLUEWALLET_FILE).unwrap();
    assert_eq!(parsed.into_main_descriptor(), parsed.into_main_descriptor());
    assert_eq!(parsed.into_change_descriptor(), parsed.into_change_descriptor());
}

#[test]
fn render_has_one_origin_per_cosigner_and_threshold_first() {
    let parsed = DescriptorComponents::from_bluewallet_export(BLUEWALLET_FILE).unwrap();
    let descriptor = parsed.into_main_descriptor();
    assert_eq!(descriptor.chars().filter(|c| *c == '[').count(), 3);
    assert!(descriptor.starts_with("wsh(sortedmulti(2,"));
}

#[test]
fn parse_rejects_missing_threshold() {
    let text = "Derivation: m/48'/0'/0'/2'
EAB239AA: xpub6E2HG
";
    assert_eq!(
        DescriptorComponents::from_bluewallet_export(text).unwrap_err(),
        MalformedSetupError::MissingThreshold
    );
}

#[test]
fn parse_rejects_duplicate_threshold() {
    let text = "Policy: 2 of 3
Policy: 1 of 3
Derivation: m/48'/0'/0'/2'
EAB239AA: xpub6E2HG
";
    assert_eq!(
        DescriptorComponents::from_bluewallet_export(text).unwrap_err(),
        MalformedSetupError::DuplicateThreshold
    );
}

#[test]
fn parse_rejects_missing_cosigners() {
    let text = "Policy: 2 of 3
Derivation: m/48'/0'/0'/2'
";
    assert_eq!(
        DescriptorComponents::from_bluewallet_export(text).unwrap_err(),
        MalformedSetupError::NoCosigners
    );
}

#[test]
fn parse_rejects_missing_derivation() {
    let text = "Policy: 1 of 2
EAB239AA: xpub6E2HG
";
    assert_eq!(
        DescriptorComponents::from_bluewallet_export(text).unwrap_err(),
        MalformedSetupError::MissingDerivation
    );
}

#[test]
fn parse_rejects_invalid_derivation() {
    let text = "Policy: 1 of 2
Derivation: 48'/0'/0'/2'
EAB239AA: xpub6E2HG
";
    assert_eq!(
        DescriptorComponents::from_bluewallet_export(text).unwrap_err(),
        MalformedSetupError::InvalidDerivation
    );
}

#[test]
fn parse_rejects_invalid_key_material() {
    let text = "Policy: 1 of 2
Derivation: m/48'/0'/0'/2'
EAB239AA: xpub6E2HG]bad
";
    assert_eq!(
        DescriptorComponents::from_bluewallet_export(text).unwrap_err(),
        MalformedSetupError::InvalidKeyMaterial
    );
}

#[test]
fn parse_rejects_duplicate_fingerprint() {
    let text = "Policy: 1 of 2
Derivation: m/48'/0'/0'/2'
EAB239AA: xpub6E2HG
EAB239AA: xpub6EzLSnj
";
    assert_eq!(
        DescriptorComponents::from_bluewallet_export(text).unwrap_err(),
        MalformedSetupError::DuplicateFingerprint
    );
}

#[test]
fn parse_rejects_threshold_out_of_range() {
    let text = "Policy: 3 of 3
Derivation: m/48'/0'/0'/2'
EAB239AA: xpub6E2HG
F843467D: xpub6EzLSnj
";
    assert_eq!(
        DescriptorComponents::from_bluewallet_export(text).unwrap_err(),
        MalformedSetupError::ThresholdOutOfRange
    );
}

#[test]
fn parse_rejects_zero_threshold() {
    let text = "Policy: 0 of 2
Derivation: m/48'/0'/0'/2'
EAB239AA: xpub6E2HG
F843467D: xpub6EzLSnj
";
    assert_eq!(
        DescriptorComponents::from_bluewallet_export(text).unwrap_err(),
        MalformedSetupError::ThresholdOutOfRange
    );
}

#[test]
fn parse_handles_crlf_line_endings() {
    let text = "Policy: 1 of 1\r\nDerivation: m/48'/0'/0'/2'\r\nEAB239AA: xpub6E2HG\r\n";
    let parsed = DescriptorComponents::from_bluewallet_export(text).unwrap();
    assert_eq!(parsed.threshold, 1);
    assert_eq!(parsed.derivation, "m/48'/0'/0'/2'");
    assert_eq!(parsed.keys, vec![("EAB239AA".to_string(), "xpub6E2HG".to_string())]);
}

#[test]
fn substitute_replaces_one_key_with_trimmed_record() {
    let parsed = DescriptorComponents::from_bluewallet_export(BLUEWALLET_FILE).unwrap();
    let record = "[f843467d/48'/0'/0'/2']xprv9xgqHN7yz9MwCkxsBPN5qetuNdQSUttZNKw1dcYTV4mkaAFiBVGQziHs3NRSWMkCzvgjEe3n9xV8oYywvM8at9yRqyaZVz6TYYhX98VjsUk/0/*";
    let substituted = parsed.substitute("f843467d", record).unwrap();
    assert_eq!(substituted.keys[0], parsed.keys[0]);
    assert_eq!(substituted.keys[2], parsed.keys[2]);
    assert_eq!(substituted.keys[1].0, "F843467D");
    assert_eq!(
        substituted.keys[1].1,
        "xprv9xgqHN7yz9MwCkxsBPN5qetuNdQSUttZNKw1dcYTV4mkaAFiBVGQziHs3NRSWMkCzvgjEe3n9xV8oYywvM8at9yRqyaZVz6TYYhX98VjsUk"
    );
    assert_eq!(substituted.threshold, parsed.threshold);
    assert_eq!(substituted.derivation, parsed.derivation);
}

#[test]
fn substitute_is_case_insensitive_and_order_independent() {
    let parsed = DescriptorComponents::from_bluewallet_export(BLUEWALLET_FILE).unwrap();
    let record_a = "[eab239aa/48'/0'/0'/2']xprvAAA111/0/*";
    let record_b = "[16efec75/48'/0'/0'/2']xprvBBB222/0/*";
    let ab = parsed
        .substitute("eab239aa", record_a)
        .unwrap()
        .substitute("16EFEC75", record_b)
        .unwrap();
    let ba = parsed
        .substitute("16efec75", record_b)
        .unwrap()
        .substitute("EAB239AA", record_a)
        .unwrap();
    assert_eq!(ab.keys, ba.keys);
    assert_eq!(ab.into_main_descriptor(), ba.into_main_descriptor());
    assert_eq!(ab.keys[0].1, "xprvAAA111");
    assert_eq!(ab.keys[2].1, "xprvBBB222");
}

#[test]
fn substitute_unknown_fingerprint_fails_and_leaves_setup_unchanged() {
    let parsed = DescriptorComponents::from_bluewallet_export(BLUEWALLET_FILE).unwrap();
    let before = parsed.into_main_descriptor();
    let err = parsed.substitute("00000000", "[x]xprvZZZ/0/*").unwrap_err();
    assert_eq!(err, SubstituteError::UnknownCosigner);
    assert_eq!(parsed.into_main_descriptor(), before);
}

#[test]
fn substitute_rejects_malformed_key_record() {
    let parsed = DescriptorComponents::from_bluewallet_export(BLUEWALLET_FILE).unwrap();
    let err = parsed.substitute("EAB239AA", "]]/").unwrap_err();
    assert_eq!(err, SubstituteError::MalformedKeyMaterial);
}

#[test]
fn substitute_trims_record_without_origin_or_suffix() {
    let parsed = DescriptorComponents::from_bluewallet_export(BLUEWALLET_FILE).unwrap();
    let substituted = parsed.substitute("EAB239AA", "xprvPlainRecord").unwrap();
    assert_eq!(substituted.keys[0].1, "xprvPlainRecord");
}
