use ed25519_dalek::{Signer, SigningKey};
use pkg::error::Error;
use pkg::index::{manifest_refusal, pinned_manifest_key, verify_repo_manifest};
use pkg::manifest_sig::{
    field_hex, hex_decode, load_pinned_ed25519, signature_to_check, signature_verdict,
    verify_manifest_ed25519,
};

fn make_sig_toml(sk: &SigningKey, msg: &[u8]) -> String {
    let sig = sk.sign(msg);
    let hexsig: String = sig
        .to_bytes()
        .iter()
        .map(|b| format!("{:02x}", b))
        .collect();
    format!(
        "# hybrid signature\n[hybrid_signature]\nversion = 1\ned25519 = \"{hexsig}\"\nml_dsa_65 = \"00\"\n"
    )
}

#[test]
fn accepts_valid_rejects_tampered() {
    let sk = SigningKey::from_bytes(&[7u8; 32]);
    let pinned = sk.verifying_key().to_bytes();
    let manifest = b"build_id = \"x\"\n[packages]\nbase = \"blake3:ab\"\n";
    let sig = make_sig_toml(&sk, manifest);

    // valid manifest + valid sig + correct pinned key -> OK
    assert!(verify_manifest_ed25519(&pinned, manifest, &sig).is_ok());
    // tampered manifest -> rejected
    assert!(verify_manifest_ed25519(&pinned, b"tampered index", &sig).is_err());
    // wrong pinned key -> rejected
    let other = SigningKey::from_bytes(&[9u8; 32])
        .verifying_key()
        .to_bytes();
    assert!(verify_manifest_ed25519(&other, manifest, &sig).is_err());
    // malformed / missing sig -> rejected
    assert!(verify_manifest_ed25519(&pinned, manifest, "no ed25519 here").is_err());
    assert!(verify_manifest_ed25519(&pinned, manifest, "ed25519 = \"zz\"").is_err());
}

#[test]
fn load_pinned_parses_pubkey() {
    let toml = format!(
        "[public_keys]\ned25519 = \"{}\"\nml_dsa_65 = \"ff\"\n",
        "ab".repeat(32)
    );
    assert_eq!(load_pinned_ed25519(&toml), Some([0xab_u8; 32]));
    assert_eq!(load_pinned_ed25519("garbage = 1"), None);
    // wrong length ed25519 -> None
    assert_eq!(load_pinned_ed25519("ed25519 = \"abab\""), None);
}

#[test]
fn every_refusal_of_a_signature_has_its_reason() {
    let sk = SigningKey::from_bytes(&[7u8; 32]);
    let pinned = sk.verifying_key().to_bytes();
    let sig = make_sig_toml(&sk, b"index");
    // The y coordinate 2 belongs to no point of the curve.
    let mut no_key = [0u8; 32];
    no_key[0] = 2;
    assert_eq!(
        verify_manifest_ed25519(&no_key, b"index", &sig),
        Err("pinned manifest key is not a valid ed25519 key")
    );
    assert_eq!(
        verify_manifest_ed25519(&pinned, b"index", "# nothing\n"),
        Err("repo.toml.sig has no ed25519 field")
    );
    assert_eq!(
        verify_manifest_ed25519(&pinned, b"index", "ed25519 = \"abab\"\n"),
        Err("repo.toml.sig ed25519 is not 64 bytes")
    );
    assert_eq!(
        verify_manifest_ed25519(&pinned, b"other", &sig),
        Err("repo.toml signature does not match the pinned key")
    );
    assert_eq!(verify_manifest_ed25519(&pinned, b"index", &sig), Ok(()));
}

#[test]
fn what_follows_the_key_and_the_verdict() {
    let field = format!("ed25519 = \"{}\"", "01".repeat(64));
    assert_eq!(signature_to_check(true, &field), Ok([1u8; 64]));
    assert_eq!(
        signature_to_check(false, &field),
        Err("pinned manifest key is not a valid ed25519 key")
    );
    assert_eq!(signature_to_check(true, ""), Err("repo.toml.sig has no ed25519 field"));
    assert_eq!(
        signature_to_check(true, "ed25519 = 01"),
        Err("repo.toml.sig ed25519 is not 64 bytes")
    );
    assert_eq!(signature_verdict(true), Ok(()));
    assert_eq!(
        signature_verdict(false),
        Err("repo.toml signature does not match the pinned key")
    );
}

#[test]
fn hexadecimal_is_read_in_either_case_and_trimmed() {
    assert_eq!(hex_decode(" 00fFAb9\u{a0}0\n"), None);
    assert_eq!(hex_decode(" 00fFAb90\u{a0}\n"), Some(vec![0x00, 0xff, 0xab, 0x90]));
    assert_eq!(hex_decode(""), Some(vec![]));
    assert_eq!(hex_decode("abc"), None);
    assert_eq!(hex_decode("0g"), None);
    // two bytes of UTF-8, but no digits
    assert_eq!(hex_decode("\u{e9}"), None);
    assert_eq!(hex_decode("\u{ff11}0"), None);
}

/// Encoding what was decoded gives the small letters.
#[test]
fn hexadecimal_goes_both_ways() {
    let bytes = hex_decode("00fFAb9E").unwrap();
    assert_eq!(hex::encode(&bytes), "00ffab9e");
    assert_eq!(hex_decode(&hex::encode(&bytes)), Some(bytes));
}

#[test]
fn a_field_is_the_first_line_that_assigns_it() {
    let text = "# ed25519 = \"01\"\n[ed25519 = 02]\n\n other = 03\r\n  ed25519  = \" 0a0B\" \ned25519 = 04\n";
    assert_eq!(field_hex(text, "ed25519"), Some(vec![0x0a, 0x0b]));
    assert_eq!(field_hex(text, "other"), Some(vec![3]));
    assert_eq!(field_hex(text, "missing"), None);
    // the first assignment counts, also if it is no hexadecimal text
    assert_eq!(field_hex("k = x\nk = 01\n", "k"), None);
    // only the first equals sign separates
    assert_eq!(field_hex("k = 01=02\n", "k"), None);
    assert_eq!(field_hex("k = \"\"\n", "k"), Some(vec![]));
}

#[test]
fn comments_and_headers_do_not_matter() {
    let plain = "a = 01\nb = 02\n";
    let decorated = "a = 01\n  # b = 03\n\t[b = 04]\nb = 02\n";
    assert_eq!(field_hex(plain, "a"), field_hex(decorated, "a"));
    assert_eq!(field_hex(plain, "b"), field_hex(decorated, "b"));
}

#[test]
fn a_key_is_pinned_only_by_a_readable_key_file() {
    let file = format!("ed25519 = \"{}\"\n", "0c".repeat(32));
    assert_eq!(pinned_manifest_key(Some(&file)), Some([12u8; 32]));
    assert_eq!(pinned_manifest_key(Some("ed25519 = \"0c\"\n")), None);
    assert_eq!(pinned_manifest_key(None), None);
}

#[test]
fn a_pinned_key_asks_for_a_valid_signature() {
    let sk = SigningKey::from_bytes(&[3u8; 32]);
    let pinned = sk.verifying_key().to_bytes();
    let text = "build_id = \"\u{fc}\"\n";
    let sig = make_sig_toml(&sk, text.as_bytes());

    let trusted = verify_repo_manifest(text.to_string(), Some(pinned), Some(&sig)).unwrap();
    assert!(trusted.is_signed());
    assert_eq!(trusted.text(), text);

    assert!(matches!(
        verify_repo_manifest(text.to_string(), Some(pinned), None),
        Err(Error::RepoManifestUnsigned)
    ));
    assert!(matches!(
        verify_repo_manifest("build_id = \"u\"\n".to_string(), Some(pinned), Some(&sig)),
        Err(Error::RepoManifestSigInvalid("repo.toml signature does not match the pinned key"))
    ));
}

#[test]
fn without_a_pinned_key_the_index_is_taken_unsigned() {
    let trusted = verify_repo_manifest("x".to_string(), None, Some("whatever")).unwrap();
    assert!(!trusted.is_signed());
    assert_eq!(trusted.text(), "x");
}

#[test]
fn a_verdict_becomes_an_error() {
    assert!(manifest_refusal(Some(Ok(()))).is_ok());
    assert!(matches!(manifest_refusal(None), Err(Error::RepoManifestUnsigned)));
    assert!(matches!(
        manifest_refusal(Some(Err("why"))),
        Err(Error::RepoManifestSigInvalid("why"))
    ));
}
