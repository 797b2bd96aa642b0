use zed_lock::path::{path_sort_key, LockPath, Platform};
use zed_lock::policy::{
    descriptor_is_protected, unix_private_dir_mode, unix_private_file_mode,
    windows_attributes_indicate_reparse, FinalComponentOpenIntent, PathSecurityPolicy,
    FILE_ATTRIBUTE_REPARSE_POINT, SE_DACL_PROTECTED,
};
use zed_lock::sddl::{
    sddl_has_same_dacl_aces, sddl_is_protected_user_private, sddl_is_user_private,
    user_private_sddl,
};
use zed_lock::vetting::{
    refuse_parent_dir_components, require_protected_user_private_dacl, require_user_private_dacl,
    DaclFacts,
};

const SID: &str = "S-1-5-21-1-2-3-1001";

#[test]
fn private_is_the_default_fail_closed_policy() {
    assert_eq!(PathSecurityPolicy::default(), PathSecurityPolicy::Private);
    assert!(PathSecurityPolicy::Private.is_private());
    assert!(!PathSecurityPolicy::Shared.is_private());
}

#[test]
fn unix_mode_helpers_reject_group_and_other_access() {
    assert!(unix_private_file_mode(0o600));
    assert!(!unix_private_file_mode(0o640));
    assert!(!unix_private_file_mode(0o666));
    assert!(unix_private_dir_mode(0o700));
    assert!(unix_private_dir_mode(0o755));
    assert!(!unix_private_dir_mode(0o775));
    assert!(!unix_private_dir_mode(0o777));
}

#[test]
fn a_private_file_mode_needs_both_owner_bits() {
    assert!(unix_private_file_mode(0o700));
    assert!(!unix_private_file_mode(0o400));
    assert!(!unix_private_file_mode(0o200));
    assert!(!unix_private_file_mode(0o000));
    assert!(!unix_private_file_mode(0o601));
}

#[test]
fn every_private_file_mode_is_a_private_directory_mode() {
    for mode in 0..0o1000u32 {
        if unix_private_file_mode(mode) {
            assert!(unix_private_dir_mode(mode), "{mode:o}");
        }
        for bit in [0o001u32, 0o002, 0o004, 0o010, 0o020, 0o040] {
            assert!(!unix_private_file_mode(mode | bit));
        }
    }
}

#[test]
fn windows_reparse_attribute_classifier_is_stable() {
    assert!(!windows_attributes_indicate_reparse(0x20));
    assert!(windows_attributes_indicate_reparse(
        FILE_ATTRIBUTE_REPARSE_POINT
    ));
    assert!(windows_attributes_indicate_reparse(
        FILE_ATTRIBUTE_REPARSE_POINT | 0x10
    ));
}

#[test]
fn user_private_sddl_classifier_accepts_safe_inheritance_and_rejects_broad_trustees() {
    let sid = "S-1-5-21-1-2-3-1001";
    let private = user_private_sddl(sid);
    assert!(sddl_is_user_private(&private, sid));
    assert!(sddl_is_protected_user_private(&private, sid));

    let inherited = format!("D:AI(A;OICI;FA;;;{sid})(A;OICI;FA;;;SY)(A;OICI;FA;;;BA)");
    assert!(sddl_is_user_private(&inherited, sid));
    assert!(!sddl_is_protected_user_private(&inherited, sid));
    assert!(sddl_is_user_private(
        &format!("D:AI(A;ID;0x1f01ff;;;{sid})"),
        sid
    ));

    let inherited_with_broad_read = format!("D:AI(A;OICI;FA;;;{sid})(A;ID;0x1200a9;;;BU)");
    assert!(sddl_is_user_private(&inherited_with_broad_read, sid));
    assert!(!sddl_is_protected_user_private(
        &inherited_with_broad_read,
        sid
    ));
    assert!(!sddl_is_user_private(
        &format!("D:AI(A;OICI;FA;;;{sid})(A;ID;0x120116;;;BU)"),
        sid
    ));
    let hosted_windows_parent = "D:(A;OICIID;FA;;;SY)(A;OICIID;FA;;;BA)(A;OICIID;FA;;;LA)";
    assert!(sddl_is_user_private(hosted_windows_parent, sid));
    assert!(!sddl_is_protected_user_private(hosted_windows_parent, sid));
    assert!(!sddl_is_protected_user_private(
        "D:P(A;;FA;;;SY)(A;;FA;;;BA)(A;;FA;;;LA)",
        sid
    ));
    assert!(!sddl_is_user_private("D:(A;;FA;;;WD)", sid));
    let protected_with_broad_read = format!("D:P(A;;FA;;;{sid})(A;ID;FR;;;WD)");
    assert!(sddl_is_user_private(&protected_with_broad_read, sid));
    assert!(!sddl_is_protected_user_private(
        &protected_with_broad_read,
        sid
    ));
    assert!(!sddl_is_user_private("D:P(A;;FA;;;AU)", sid));
    assert!(!sddl_is_user_private("D:P(A;;FA;;;BU)", sid));
    assert!(!sddl_is_user_private("D:P(A;;FA;;;", sid));
    assert!(!sddl_is_user_private("", sid));
}

#[test]
fn private_sddl_is_exact() {
    assert_eq!(user_private_sddl("S-1-5-18"), "D:P(A;;FA;;;S-1-5-18)");
    assert!(sddl_is_user_private("D:P(A;;FA;;;SY)", "s-1-5-18"));
    assert!(!sddl_is_user_private(&user_private_sddl(SID), ""));
}

#[test]
fn deny_entries_pass_and_other_entry_types_do_not() {
    assert!(sddl_is_user_private(
        &format!("D:(D;;FA;;;WD)(A;;FA;;;{SID})"),
        SID
    ));
    assert!(sddl_is_user_private(
        &format!("d:(d;;fa;;;wd)(a;;fa;;;{SID})"),
        SID
    ));
    assert!(!sddl_is_user_private(
        &format!("D:(XA;;FR;;;WD)(A;;FA;;;{SID})"),
        SID
    ));
    assert!(!sddl_is_user_private(
        &format!("D:(D;;FA;;;{SID})"),
        SID
    ));
}

#[test]
fn an_entry_needs_exactly_six_fields() {
    assert!(!sddl_is_user_private(
        &format!("D:(A;;FA;;{SID})(A;;FA;;;{SID})"),
        SID
    ));
    assert!(!sddl_is_user_private(
        &format!("D:(A;;FA;;;{SID};)(A;;FA;;;{SID})"),
        SID
    ));
}

#[test]
fn an_entry_that_is_not_closed_is_refused() {
    let sid = "S-1-5-21-1";
    let unclosed = "D:)(A;;FA;;;S-1-5-21-1)(A;;FA;;;WD";
    assert!(!sddl_is_user_private(unclosed, sid));
    assert!(!sddl_is_protected_user_private(
        "D:P)(A;;FA;;;S-1-5-21-1)(A;;FA;;;WD",
        sid
    ));
    assert!(require_user_private_dacl(unclosed, sid).is_err());
    for sddl in [
        "D:((A;;FA;;;S-1-5-21-1))",
        "D:)(A;;FA;;;S-1-5-21-1",
        "D:(A;;FA;;;S-1-5-21-1))(",
        "D:(A;;FR;;;WD(A;;FA;;;S-1-5-21-1))",
    ] {
        assert!(!sddl_is_user_private(sddl, sid), "{sddl}");
    }
    assert!(sddl_is_user_private("D:(A;;FA;;;S-1-5-21-1)", sid));
}

#[test]
fn protection_is_one_control_bit() {
    assert_eq!(SE_DACL_PROTECTED, 0x1000);
    assert!(descriptor_is_protected(0x1000));
    assert!(descriptor_is_protected(0x9004));
    assert!(!descriptor_is_protected(0x8404));
    assert!(!descriptor_is_protected(0xefff));
}

#[test]
fn broad_rights_are_read_bit_by_bit_or_token_by_token() {
    let with = |rights: &str| format!("D:(A;;FA;;;{SID})(A;;{rights};;;AU)");
    for harmless in ["FR", "FRFX", "GRGX", "RCLCRPLO", "0x1200a9", "0X0", "0x+20", "", "fr"] {
        assert!(sddl_is_user_private(&with(harmless), SID), "{harmless}");
    }
    for harmful in [
        "FW", "FRFW", "WD", "F", "FRF", "0x2", "0x10000", "0x40000000", "0x", "0x+2", "0x-0", "0xzz",
        "0x1ffffffff", "\u{e9}",
    ] {
        assert!(!sddl_is_user_private(&with(harmful), SID), "{harmful}");
    }
    for trustee in ["wd", "S-1-1-0", "S-1-5-11", "S-1-5-32-545"] {
        assert!(!sddl_is_user_private(
            &format!("D:(A;;FA;;;{SID})(A;;FW;;;{trustee})"),
            SID
        ));
    }
    assert!(sddl_is_user_private(
        &format!("D:(A;;FA;;;{SID})(A;;FW;;;S-1-5-21-9-9-9-9)"),
        SID
    ));
}

#[test]
fn full_control_has_four_spellings() {
    for rights in ["FA", "ga", "0x1F01FF", "0x10000000"] {
        assert!(sddl_is_user_private(
            &format!("D:(A;;{rights};;;{SID})"),
            SID
        ));
    }
    assert!(!sddl_is_user_private(
        &format!("D:(A;;FRFW;;;{SID})"),
        SID
    ));
}

#[test]
fn a_protected_private_list_is_private() {
    for sddl in [
        format!("D:P(A;;FA;;;{SID})"),
        format!("D:PAI(A;;FA;;;{SID})"),
        format!("O:BAd:p(A;;FA;;;{SID})"),
        format!("D:PAR(A;;FA;;;{SID})(A;;FA;;;SY)"),
    ] {
        assert!(sddl_is_protected_user_private(&sddl, SID), "{sddl}");
        assert!(sddl_is_user_private(&sddl, SID), "{sddl}");
    }
    assert!(!sddl_is_protected_user_private(
        &format!("O:BAD:AI(A;;FA;;;{SID})"),
        SID
    ));
}

#[test]
fn canonical_dacl_comparison_ignores_only_control_flags() {
    let expected = "D:P(A;;FA;;;LA)";
    assert!(sddl_has_same_dacl_aces("D:PAI(A;;FA;;;LA)", expected));
    assert!(sddl_has_same_dacl_aces("D:PAR(A;;FA;;;la)", expected));
    assert!(!sddl_has_same_dacl_aces(
        "D:PAI(A;;FA;;;LA)(A;;FR;;;SY)",
        expected
    ));
    assert!(!sddl_has_same_dacl_aces("D:P", expected));
    assert!(!sddl_has_same_dacl_aces("O:LA(A;;FA;;;LA)", expected));
}

#[test]
fn production_open_intent_refuses_symlink_follow_and_weakened_variant_does_not() {
    let production = FinalComponentOpenIntent::for_policy(PathSecurityPolicy::Private);
    let weakened = FinalComponentOpenIntent {
        no_follow: false,
        create_exclusive_if_absent: true,
        owner_only_create_mode: true,
    };
    assert!(production.refuses_symlink_substitution());
    assert!(!weakened.refuses_symlink_substitution());
    assert_ne!(production, weakened);
    assert!(
        FinalComponentOpenIntent::for_policy(PathSecurityPolicy::Shared)
            .refuses_symlink_substitution()
    );
}

#[test]
fn parent_dir_components_are_rejected() {
    let error =
        refuse_parent_dir_components(&LockPath::from_text("foo/../bar.lock"), Platform::Unix)
            .unwrap_err();
    assert!(error.message(Platform::Unix).contains("`..`"));
}

#[test]
fn only_a_whole_component_counts_as_parent() {
    let refused = |path: &str, platform: Platform| {
        refuse_parent_dir_components(&LockPath::from_text(path), platform).is_err()
    };
    for path in ["..", "../a", "a/..", "/..", "a//../b"] {
        assert!(refused(path, Platform::Unix), "{path}");
    }
    for path in ["", ".", "a..b", "..a/b", "a/...", "a/b..", "a\\..\\b", "C:..", "./a"] {
        assert!(!refused(path, Platform::Unix), "{path}");
    }
    for path in ["a\\..\\b", "C:..", "c:..\\x", "a/../b"] {
        assert!(refused(path, Platform::Windows), "{path}");
    }
    for path in ["stream:..", "1:..", "C:a..", "C:\\a..\\b"] {
        assert!(!refused(path, Platform::Windows), "{path}");
    }
}

#[test]
fn windows_prefixes_are_not_components() {
    let refused = |path: &str| {
        refuse_parent_dir_components(&LockPath::from_text(path), Platform::Windows).is_err()
    };
    for path in [
        r"\\..\share\x",
        r"\\server\..\x",
        "//../share/x",
        r"\\.\..\x",
        r"\\?\..\x",
        r"\\?\UNC\..\share\x",
        r"\\?\UNC\server\..\x",
        r"\\?\C:\a/..\x",
        r"\\?\C:\a\../x",
        r"\\?\name/..",
        r"\\?\C:..",
    ] {
        assert!(!refused(path), "{path}");
    }
    for path in [
        r"\\server\share\..",
        r"\\server\share\a/../x",
        r"\\..",
        r"\\server\\..",
        "//?/C:/a/../x",
        r"\\.\COM1\..",
        r"\\?\name\..\x",
        r"\\?\C:\a\..\x",
        r"\\?\C:/..\x",
        r"\\?\UNC\server\share\..",
        r"\..",
    ] {
        assert!(refused(path), "{path}");
    }
    let unix = refuse_parent_dir_components(&LockPath::from_text("//../share/x"), Platform::Unix);
    assert!(unix.is_err());
}

#[test]
fn an_unpaired_surrogate_is_one_replacement_on_windows() {
    let path = LockPath::from_bytes(vec![b'A', 0xed, 0xa0, 0x80, b'B', 0xed, 0xbf, 0xbf]);
    assert_eq!(path.display(Platform::Windows), "A\u{fffd}B\u{fffd}");
    assert_eq!(path_sort_key(&path, Platform::Windows), "a\u{fffd}b\u{fffd}");
    assert_eq!(
        path.display(Platform::Unix),
        "A\u{fffd}\u{fffd}\u{fffd}B\u{fffd}\u{fffd}\u{fffd}"
    );
    let plain = LockPath::from_text("\u{d7ff}\u{e000}");
    assert_eq!(plain.display(Platform::Windows), "\u{d7ff}\u{e000}");
    let cut = LockPath::from_bytes(vec![0xed, 0xa0]);
    assert_eq!(cut.display(Platform::Windows), cut.display(Platform::Unix));
}

#[test]
fn sort_keys_ignore_case_only_on_windows() {
    let path = LockPath::from_text("/Temp/\u{c4}.LOCK");
    assert_eq!(path_sort_key(&path, Platform::Unix), "/Temp/\u{c4}.LOCK");
    assert_eq!(path_sort_key(&path, Platform::Other), "/Temp/\u{c4}.LOCK");
    assert_eq!(path_sort_key(&path, Platform::Windows), "/temp/\u{e4}.lock");
}

#[test]
fn ill_formed_paths_are_shown_with_replacements() {
    let path = LockPath::from_bytes(vec![b'a', 0xff, b'b']);
    assert_eq!(path.display(Platform::Unix), "a\u{fffd}b");
    assert_eq!(path.as_bytes(), &[b'a', 0xff, b'b']);
}

#[test]
fn parent_lists_have_to_be_private() {
    assert!(require_user_private_dacl(&user_private_sddl(SID), SID).is_ok());
    let error = require_user_private_dacl("D:(A;;FA;;;WD)", SID).unwrap_err();
    assert_eq!(
        error.message(Platform::Unix),
        "lock path DACL is not user-private; refusing under the private path policy"
    );
}

#[test]
fn lock_file_lists_have_to_be_protected_and_exact() {
    let facts = |sddl: &str, protected: bool| DaclFacts {
        sddl: sddl.to_owned(),
        canonical: user_private_sddl(SID),
        control: if protected { 0x9004 } else { 0x8404 },
    };
    let exact = format!("D:PAI(A;;FA;;;{SID})");
    assert!(require_protected_user_private_dacl(&facts(&exact, true)).is_ok());
    let unprotected = require_protected_user_private_dacl(&facts(&exact, false)).unwrap_err();
    assert_eq!(
        unprotected.message(Platform::Unix),
        "lock path DACL is not protected and user-private; refusing under the private path policy (descriptor_protected=false, exact_private_aces=true)"
    );
    let other = require_protected_user_private_dacl(&facts("D:P(A;;FA;;;SY)", true)).unwrap_err();
    assert!(other
        .message(Platform::Unix)
        .ends_with("(descriptor_protected=true, exact_private_aces=false)"));
}

#[test]
fn parents_are_those_of_the_path() {
    let parent = |path: &str, platform: Platform| -> Option<String> {
        LockPath::from_text(path)
            .parent(platform)
            .map(|parent| parent.display(platform))
    };
    for (path, expected) in [
        ("", None),
        ("/", None),
        ("//", None),
        ("a", Some("")),
        (".", Some("")),
        ("./", Some("")),
        ("./a", Some(".")),
        ("/a", Some("/")),
        ("//a", Some("/")),
        ("a/b", Some("a")),
        ("a//b", Some("a")),
        ("a/b/", Some("a")),
        ("a/b//", Some("a")),
        ("a/./b", Some("a")),
        ("a/b/.", Some("a")),
        ("/a/b/c", Some("/a/b")),
        ("..", Some("")),
        ("a/..", Some("a")),
        ("a\\b", Some("")),
    ] {
        assert_eq!(parent(path, Platform::Unix).as_deref(), expected, "{path}");
    }
    for (path, expected) in [
        (r"a\b", Some("a")),
        (r"a/b\c", Some("a/b")),
        ("C:", None),
        (r"C:\", None),
        ("C:a", Some("C:")),
        (r"C:\a", Some(r"C:\")),
        (r"C:\a\b", Some(r"C:\a")),
        (r"\\server\share", None),
        (r"\\server\share\a", Some(r"\\server\share\")),
        (r"\\?\C:\a", Some(r"\\?\C:\")),
        (r"\\?\C:\a/b", Some(r"\\?\C:\")),
        (r"\\?\C:\a\.", Some(r"\\?\C:\a")),
        (r"\\?\name\a\b", Some(r"\\?\name\a")),
    ] {
        assert_eq!(parent(path, Platform::Windows).as_deref(), expected, "{path}");
    }
}

#[test]
fn every_walk_up_a_path_ends() {
    let mut path = LockPath::from_text("/a//b/./c/d.lock");
    let mut steps = Vec::new();
    while let Some(parent) = path.parent(Platform::Unix) {
        assert!(parent.as_bytes().len() < path.as_bytes().len());
        assert!(path.as_bytes().starts_with(parent.as_bytes()));
        steps.push(parent.display(Platform::Unix));
        path = parent;
    }
    assert_eq!(steps, vec!["/a//b/./c", "/a//b", "/a", "/"]);
}

#[test]
fn unix_paths_are_read_like_those_of_the_standard_library() {
    let mut paths = vec![String::new()];
    let mut longest = vec![String::new()];
    for _ in 0..8 {
        let mut longer = Vec::new();
        for path in &longest {
            for letter in ["/", ".", "a"] {
                longer.push(format!("{path}{letter}"));
            }
        }
        paths.extend(longer.iter().cloned());
        longest = longer;
    }
    assert_eq!(paths.len(), 9841);
    for text in &paths {
        let path = LockPath::from_text(text);
        let std_path = std::path::Path::new(text);
        assert_eq!(
            path.parent(Platform::Unix).map(|parent| parent.display(Platform::Unix)),
            std_path.parent().map(|parent| parent.display().to_string()),
            "{text}"
        );
        assert_eq!(
            path.has_parent_dir(Platform::Unix),
            std_path
                .components()
                .any(|component| matches!(component, std::path::Component::ParentDir)),
            "{text}"
        );
    }
}
