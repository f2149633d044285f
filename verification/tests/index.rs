use pkg::error::Error;
use pkg::index::{
    check_against_index, check_manifest_freshness, freshness_state, get_repository_detail,
    index_enforcement_applies, record_manifest_serial, verify_repo_manifest,
};
use pkg::name_map::NameMap;
use pkg::package::{PackageName, Repository};

fn index(entries: &[(&str, &str)]) -> Repository {
    let mut packages = NameMap::new();
    for (k, v) in entries {
        packages.insert(k.to_string(), v.to_string());
    }
    Repository {
        build_id: "deadbeef".to_string(),
        packages,
        serial: 0,
        expires: 0,
    }
}

fn name(s: &str) -> PackageName {
    PackageName::new(s).unwrap()
}

/// Bytes whose header hash is not the one that the signed manifest names must be refused.
#[test]
fn substituted_payload_is_rejected() {
    let want = [0x11u8; 32];
    let idx = index(&[("base", &hex::encode(want))]);
    let err = check_against_index(&idx, &name("base"), [0x22u8; 32])
        .expect_err("a pkgar the manifest does not vouch for must not install");
    match err {
        Error::ManifestHashMismatch {
            package,
            expected,
            actual,
        } => {
            assert_eq!(package.as_str(), "base");
            assert_eq!(expected, hex::encode(want));
            assert_eq!(actual, hex::encode([0x22u8; 32]));
        }
        other => panic!("expected ManifestHashMismatch, got {other:?}"),
    }
}

/// The genuine package must still install, and an uppercase manifest entry is harmless.
#[test]
fn matching_payload_is_accepted() {
    let want = [0x11u8; 32];
    let idx = index(&[("base", &hex::encode(want).to_uppercase())]);
    assert!(check_against_index(&idx, &name("base"), want).is_ok());
}

/// The exemption that keeps image builds alive.
#[test]
fn index_is_enforced_only_for_a_pinned_key_and_a_real_remote() {
    assert!(
        index_enforcement_applies(true, true),
        "a pinned key plus a network remote is the case this milestone exists for"
    );
    assert!(
        !index_enforcement_applies(true, false),
        "an image build has the pinned key but no remotes and no repo.toml.sig yet; \
         enforcing here would fail every build on RepoManifestUnsigned"
    );
    assert!(
        !index_enforcement_applies(false, true),
        "with no pinned key the index is unauthenticated, so enforcing its hashes \
         would assert nothing"
    );
    assert!(!index_enforcement_applies(false, false));
}

/// A correctly signed old index must be refused.
#[test]
fn rollback_to_an_older_signed_index_is_refused() {
    match check_manifest_freshness(4, 0, 7, 1_000)
        .expect_err("an index below the watermark is a replay, however well signed")
    {
        Error::RepoManifestRollback { got, seen } => {
            assert_eq!((got, seen), (4, 7));
        }
        other => panic!("expected RepoManifestRollback, got {other:?}"),
    }
}

/// The serial equals the watermark, so only the expiry catches this one.
#[test]
fn frozen_index_at_the_watermark_is_caught_by_expiry() {
    match check_manifest_freshness(7, 500, 7, 1_000)
        .expect_err("an expired index must not be acted on")
    {
        Error::RepoManifestExpired { expires, now } => {
            assert_eq!((expires, now), (500, 1_000));
        }
        other => panic!("expected RepoManifestExpired, got {other:?}"),
    }
}

/// The current index must pass, and moving the serial forward must be allowed.
#[test]
fn current_index_passes_and_may_advance() {
    assert!(check_manifest_freshness(7, 2_000, 7, 1_000).is_ok());
    assert!(check_manifest_freshness(8, 2_000, 7, 1_000).is_ok());
}

/// No usable clock means that only the serial protects.
#[test]
fn without_a_clock_expiry_is_skipped_but_the_ratchet_holds() {
    assert!(
        check_manifest_freshness(7, 500, 7, 0).is_ok(),
        "now == 0 means no trustworthy clock; every index would look expired"
    );
    assert!(
        check_manifest_freshness(3, 500, 7, 0).is_err(),
        "the ratchet does not depend on a clock and must still refuse a rollback"
    );
}

/// An index without the fields, which reads as zeros, must keep working on a fresh machine.
#[test]
fn pre_v2ms15_index_without_fields_still_installs() {
    assert!(check_manifest_freshness(0, 0, 0, 1_000).is_ok());
}

/// Fail closed, not open, on a package the signed index does not list.
#[test]
fn unlisted_package_is_rejected() {
    let idx = index(&[("base", &hex::encode([0x11u8; 32]))]);
    match check_against_index(&idx, &name("evil"), [0x11u8; 32])
        .expect_err("an unlisted package must not install")
    {
        Error::PackageNotInManifest(p) => assert_eq!(p.as_str(), "evil"),
        other => panic!("expected PackageNotInManifest, got {other:?}"),
    }
}

/// A version in the place of a hash can never match a real header hash.
#[test]
fn non_hash_manifest_entry_never_matches() {
    let idx = index(&[("dev-essentials", "TODO")]);
    assert!(check_against_index(&idx, &name("dev-essentials"), [0u8; 32]).is_err());
}

#[test]
fn an_index_vouches_for_one_hash_only() {
    let mut hash = [0u8; 32];
    for i in 0..32u8 {
        hash[i as usize] = i * 8 + 1;
    }
    let idx = index(&[
        ("base", "0109111921293139414951596169717981899199A1A9B1B9C1C9D1D9E1E9F1F9"),
        ("short", "01091119"),
    ]);
    assert!(check_against_index(&idx, &name("base"), hash).is_ok());
    assert!(check_against_index(&idx, &name("short"), hash).is_err());
    for i in 0..32usize {
        let mut other = hash;
        other[i] ^= 0x10;
        assert!(check_against_index(&idx, &name("base"), other).is_err());
    }
}

#[test]
fn expiry_is_still_valid_at_its_second() {
    assert!(check_manifest_freshness(7, 1_000, 7, 1_000).is_ok());
    assert!(check_manifest_freshness(7, 1_000, 7, 1_001).is_err());
    assert!(check_manifest_freshness(u64::MAX, u64::MAX, u64::MAX, u64::MAX).is_ok());
}

#[test]
fn the_watermark_is_the_first_line_that_records_one() {
    assert_eq!(freshness_state(None, None), (0, 0));
    assert_eq!(freshness_state(Some("serial = 7\n"), Some(12)), (7, 12));
    assert_eq!(freshness_state(Some("x\nserial = a\nserial =  9 \nserial = 3\n"), None), (9, 0));
    // the prefix counts only at the start of a line, and with its blanks
    assert_eq!(freshness_state(Some(" serial = 7\nserial=8\n"), None), (0, 0));
    assert_eq!(freshness_state(Some("serial = +7"), None), (7, 0));
    assert_eq!(freshness_state(Some("serial = -7"), None), (0, 0));
    assert_eq!(freshness_state(Some("serial = 18446744073709551615\r\n"), None), (u64::MAX, 0));
    assert_eq!(freshness_state(Some("serial = 18446744073709551616\n"), None), (0, 0));
}

#[test]
fn what_is_recorded_is_read_back_and_never_lower() {
    for serial in [1u64, 9, 10, 12_345, u64::MAX] {
        let text = record_manifest_serial(serial, None).unwrap();
        assert_eq!(text, format!("serial = {serial}\n"));
        assert_eq!(freshness_state(Some(&text), None), (serial, 0));
        // the same or an older one is not recorded again
        assert_eq!(record_manifest_serial(serial, Some(&text)), None);
        assert_eq!(record_manifest_serial(serial - 1, Some(&text)), None);
    }
    assert_eq!(record_manifest_serial(0, None), None);
    assert_eq!(
        record_manifest_serial(8, Some("serial = 7\n")),
        Some("serial = 8\n".to_string())
    );
}

#[test]
fn an_index_is_accepted_if_it_is_fresh() {
    let trusted = || verify_repo_manifest("text".to_string(), None, None).unwrap();
    let at = |serial: u64, expires: u64| {
        let mut repo = index(&[("base", "00")]);
        repo.serial = serial;
        repo.expires = expires;
        repo
    };

    let state = "serial = 7\n";
    let newer = get_repository_detail(trusted(), Ok(at(8, 50)), Some(state), Some(50)).unwrap();
    assert_eq!(newer.record(), Some("serial = 8\n"));
    assert_eq!(newer.repository().serial, 8);
    assert_eq!(newer.into_repository().packages.get("base"), Some(&"00".to_string()));

    let same = get_repository_detail(trusted(), Ok(at(7, 0)), Some(state), Some(50)).unwrap();
    assert_eq!(same.record(), None);
    assert!(!same.expiry_skipped());

    assert!(matches!(
        get_repository_detail(trusted(), Ok(at(6, 0)), Some(state), Some(50)),
        Err(Error::RepoManifestRollback { got: 6, seen: 7 })
    ));
    assert!(matches!(
        get_repository_detail(trusted(), Ok(at(8, 49)), Some(state), Some(50)),
        Err(Error::RepoManifestExpired { expires: 49, now: 50 })
    ));
    let blind = get_repository_detail(trusted(), Ok(at(8, 49)), Some(state), None).unwrap();
    assert!(blind.expiry_skipped());
    let timeless = get_repository_detail(trusted(), Ok(at(8, 0)), Some(state), None).unwrap();
    assert!(!timeless.expiry_skipped());
    assert!(matches!(
        get_repository_detail(trusted(), Err(Error::TomlRead("bad".to_string())), None, None),
        Err(Error::TomlRead(_))
    ));
}

/// After an index was accepted and recorded, older ones are refused and it is accepted again.
#[test]
fn an_accepted_index_cannot_be_rolled_back() {
    let trusted = || verify_repo_manifest("text".to_string(), None, None).unwrap();
    let at = |serial: u64| {
        let mut repo = index(&[]);
        repo.serial = serial;
        repo
    };
    let first = get_repository_detail(trusted(), Ok(at(40)), None, None).unwrap();
    let state = first.record().unwrap().to_string();
    for older in 0..40 {
        assert!(get_repository_detail(trusted(), Ok(at(older)), Some(&state), None).is_err());
    }
    assert!(get_repository_detail(trusted(), Ok(at(40)), Some(&state), None).is_ok());
    assert!(get_repository_detail(trusted(), Ok(at(41)), Some(&state), None).is_ok());
}
