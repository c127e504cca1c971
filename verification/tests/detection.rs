use aegisone_agent::detection::patterns;
use aegisone_agent::report::template::Template;

// ── Ransomware extensions ──────────────────────────────────────────────────────

#[test]
fn detects_known_ransomware_extensions() {
    let known = [
        ".locked", ".encrypted", ".crypt", ".ryk", ".clop",
        ".ransom", ".wcry", ".wncry", ".lck", ".cerber",
        ".locky", ".zepto", ".odin", ".micro", ".cryptolocker",
    ];
    for ext in known {
        assert!(
            patterns::is_ransomware_extension(ext, &[]),
            "should detect known extension: {ext}"
        );
    }
}

#[test]
fn ignores_legitimate_extensions() {
    let legit = [
        ".txt", ".docx", ".xlsx", ".pdf", ".jpg", ".png",
        ".mp4", ".zip", ".exe", ".dll", ".rs", ".py",
    ];
    for ext in legit {
        assert!(
            !patterns::is_ransomware_extension(ext, &[]),
            "should NOT flag legitimate extension: {ext}"
        );
    }
}

#[test]
fn case_insensitive_extension_matching() {
    assert!(patterns::is_ransomware_extension(".LOCKED", &[]));
    assert!(patterns::is_ransomware_extension(".Encrypted", &[]));
    assert!(patterns::is_ransomware_extension(".WNCRY", &[]));
}

#[test]
fn custom_extension_list_is_respected() {
    let custom = vec![".payme".to_string(), ".pwned".to_string()];
    assert!(patterns::is_ransomware_extension(".payme", &custom));
    assert!(patterns::is_ransomware_extension(".pwned", &custom));
    assert!(!patterns::is_ransomware_extension(".payme", &[]));
}

// ── Ransom notes ───────────────────────────────────────────────────────────────

#[test]
fn detects_known_ransom_note_filenames() {
    let notes = [
        "README.txt",
        "DECRYPT.txt",
        "HOW_TO_RECOVER.txt",
        "HOW_TO_DECRYPT.txt",
        "YOUR_FILES_ARE_ENCRYPTED.txt",
        "!!!RESTORE_FILES!!!.txt",
        "@WanaDecryptor@.exe",
    ];
    for note in notes {
        assert!(
            patterns::is_ransom_note(note, &[]),
            "should detect ransom note: {note}"
        );
    }
}

#[test]
fn does_not_flag_normal_filenames() {
    let normal = ["report.txt", "budget.xlsx", "photo.jpg", "README.md"];
    for name in normal {
        assert!(
            !patterns::is_ransom_note(name, &[]),
            "should NOT flag normal file: {name}"
        );
    }
}

#[test]
fn ransom_note_matching_is_case_insensitive() {
    assert!(patterns::is_ransom_note("readme.txt", &[]));
    assert!(patterns::is_ransom_note("decrypt.TXT", &[]));
}

// ── Shadow delete commands ─────────────────────────────────────────────────────

#[test]
fn detects_vssadmin_delete() {
    let cmd = "vssadmin delete shadows /all /quiet";
    assert!(
        patterns::is_shadow_deletion_command(cmd),
        "should detect vssadmin delete: {cmd}"
    );
}

#[test]
fn detects_wmic_shadowcopy_delete() {
    let cmd = "wmic shadowcopy delete";
    assert!(
        patterns::is_shadow_deletion_command(cmd),
        "should detect wmic shadowcopy delete: {cmd}"
    );
}

#[test]
fn detects_bcdedit_recovery_disable() {
    let cmd = "bcdedit /set {default} recoveryenabled no";
    assert!(
        patterns::is_shadow_deletion_command(cmd),
        "should detect bcdedit recovery disable: {cmd}"
    );
}

#[test]
fn detects_wbadmin_catalog_delete() {
    let cmd = "wbadmin delete catalog -quiet";
    assert!(
        patterns::is_shadow_deletion_command(cmd),
        "should detect wbadmin catalog delete: {cmd}"
    );
}

#[test]
fn does_not_flag_innocent_commands() {
    assert!(!patterns::is_shadow_deletion_command("notepad.exe"));
    assert!(!patterns::is_shadow_deletion_command("vssadmin list shadows"));
    assert!(!patterns::is_shadow_deletion_command("cmd /c dir"));
}

// ── Random-looking extension heuristic ────────────────────────────────────────

#[test]
fn flags_random_looking_extensions() {
    assert!(patterns::looks_random_extension(".a3x8"));
    assert!(patterns::looks_random_extension(".b4f9c2"));
    assert!(patterns::looks_random_extension(".x7k2m1"));
}

#[test]
fn does_not_flag_known_extensions_as_random() {
    assert!(!patterns::looks_random_extension(".docx"));
    assert!(!patterns::looks_random_extension(".pdf"));
    assert!(!patterns::looks_random_extension(".rs"));
    assert!(!patterns::looks_random_extension(".txt"));
}

#[test]
fn short_or_long_extensions_not_flagged() {
    assert!(!patterns::looks_random_extension(".ab"));
    assert!(!patterns::looks_random_extension(".abcdefghij"));
}

// ── Template engine ────────────────────────────────────────────────────────────

#[test]
fn renders_simple_variables() {
    let t = Template::new("Hello {{name}}, score is {{score}}.");
    let vars = vec![("name", "Alice".to_string()), ("score", "95".to_string())];
    let out = t.render(&vars, &[]);
    assert_eq!(out, "Hello Alice, score is 95.");
}

#[test]
fn detection_missing_placeholder_becomes_dash() {
    let t = Template::new("Value: {{missing}}");
    let out = t.render(&[], &[]);
    assert_eq!(out, "Value: —");
}

#[test]
fn multiple_occurrences_all_replaced() {
    let t = Template::new("{{x}} + {{x}} = ?");
    let vars = vec![("x", "1".to_string())];
    let out = t.render(&vars, &[]);
    assert_eq!(out, "1 + 1 = ?");
}

#[test]
fn incident_report_template_loads() {
    let t = Template::incident_report();
    let out = t.render(&[], &[]);
    assert!(!out.contains("{{"));
}

#[test]
fn shadow_deletion_survives_surrounding_text() {
    let bare = "vssadmin delete shadows /all";
    assert!(patterns::is_shadow_deletion_command(bare));
    assert!(patterns::is_shadow_deletion_command(&format!("cmd.exe /c {bare} /quiet & exit")));
    assert!(patterns::is_shadow_deletion_command(&format!("START {} ", bare.to_uppercase())));
    assert!(!patterns::is_shadow_deletion_command("cmd.exe /c vssadmin list shadows"));
}

#[test]
fn ascii_names_are_matched_letter_by_letter() {
    assert!(!patterns::is_ransom_note("report.txt", &[]));
    assert!(patterns::is_ransom_note("readme.TXT", &[]));
    assert!(!patterns::is_ransomware_extension(".txt", &[]));
    assert!(patterns::is_ransomware_extension(".WnCrY", &[]));
}
