//! When to trust the index of a repository, and what it says of an archive.
//!
//! A signature says who published an index, not that it is current. Two attacks live in that gap.
//! An older index that is still correctly signed would bring back a version with a known hole: the
//! serial catches that, because the client never goes below the highest one that it accepted. And
//! the newest index served forever would keep fixes away: its serial is never too low, so only its
//! expiry catches that.
use crate::error::Error;
use crate::hexadecimal::{
    decoded_hex, encode, law_decoded_hex_encodes, law_encoded_hex_decodes, small_hex,
};
use crate::manifest_sig::{
    field_bytes, load_pinned_ed25519, manifest_verdict, verify_manifest_ed25519,
};
use crate::number::{
    decimal, is_digit, law_other_texts_stand_for_no_number, law_written_number_reads_back,
    lemma_decimal_digits, number_of, read_number, write_number,
};
use crate::package::{PackageName, Repository};
use crate::repo_manager::key_bytes;
use crate::text::{
    ascii_small, eq_ignore_ascii_case, has_prefix, lemma_find_is, lines, lines_of, optional_text,
    same_but_for_ascii_case,
    strip_prefix, trim, trimmed, Edge,
};
use crate::text_laws::{all_edge, law_lines_end_at_line_feeds, law_trim_takes_off_the_ends};
use vstd::prelude::*;
use vstd::string::StringExecFns;
use vstd::utf8::encode_utf8;

verus! {

/// Whether an index with this serial and expiry is fresh enough, on a machine that accepted
/// `watermark` before. Without a clock (`now` is zero) or an expiry only the serial counts.
pub open spec fn is_fresh(serial: u64, expires: u64, watermark: u64, now: u64) -> bool {
    serial >= watermark && (expires == 0 || now == 0 || now <= expires)
}

/// Whether the index is fresh enough to act on.
pub fn check_manifest_freshness(serial: u64, expires: u64, watermark: u64, now: u64) -> (r: Result<
    (),
    Error,
>)
    ensures
        r is Ok <==> is_fresh(serial, expires, watermark, now),
        serial < watermark ==> r == Err::<(), Error>(
            Error::RepoManifestRollback { got: serial, seen: watermark },
        ),
        serial >= watermark && r is Err ==> r == Err::<(), Error>(
            Error::RepoManifestExpired { expires, now },
        ),
{
    if serial < watermark {
        return Err(Error::RepoManifestRollback { got: serial, seen: watermark });
    }
    if expires != 0 && now != 0 && now > expires {
        return Err(Error::RepoManifestExpired { expires, now });
    }
    Ok(())
}

/// Whether the signed index is enforced. Without a pinned key nothing authenticates it. And
/// without repositories on the network every byte comes from a directory that the operator chose,
/// as when an image is built, before there is a signature.
pub fn index_enforcement_applies(has_pinned_key: bool, has_remotes: bool) -> (r: bool)
    ensures
        r == (has_pinned_key && has_remotes),
{
    has_pinned_key && has_remotes
}

/// Whether the index vouches for an archive with this header hash: it lists the package with the
/// hash in hexadecimal, in whatever case.
pub open spec fn vouches_for(
    packages: Map<Seq<char>, Seq<char>>,
    package: Seq<char>,
    header_blake3: Seq<u8>,
) -> bool {
    packages.contains_key(package) && same_but_for_ascii_case(
        packages[package],
        small_hex(header_blake3),
    )
}

/// An index vouches for at most one header hash of a package.
pub proof fn law_index_vouches_for_one_hash(
    packages: Map<Seq<char>, Seq<char>>,
    package: Seq<char>,
    a: Seq<u8>,
    b: Seq<u8>,
)
    requires
        vouches_for(packages, package, a),
        vouches_for(packages, package, b),
    ensures
        a == b,
{
    law_encoded_hex_decodes(a, packages[package]);
    law_encoded_hex_decodes(b, packages[package]);
}

/// An entry that is not the hash in hexadecimal, such as a version, vouches for nothing.
pub proof fn law_other_entry_vouches_for_nothing(
    packages: Map<Seq<char>, Seq<char>>,
    package: Seq<char>,
    header_blake3: Seq<u8>,
)
    requires
        packages.contains_key(package),
        crate::hexadecimal::decoded_hex(packages[package]) != Some(header_blake3),
    ensures
        !vouches_for(packages, package, header_blake3),
{
    if vouches_for(packages, package, header_blake3) {
        law_encoded_hex_decodes(header_blake3, packages[package]);
    }
}

/// Compares the header hash of an archive with what the index says of the package. A package that
/// the index does not list is refused.
pub fn check_against_index(
    index: &Repository,
    package: &PackageName,
    header_blake3: [u8; 32],
) -> (r: Result<(), Error>)
    ensures
        r is Ok <==> vouches_for(index.packages@, package@, header_blake3@),
        !index.packages@.contains_key(package@) ==> (r matches Err(Error::PackageNotInManifest(p))
            && p@ == package@),
        index.packages@.contains_key(package@) && r is Err ==> (r matches Err(
            Error::ManifestHashMismatch { package: p, expected, actual },
        ) && p@ == package@ && expected@ == index.packages@[package@] && actual@ == small_hex(
            header_blake3@,
        )),
{
    match index.packages.get(package.as_str()) {
        None => Err(Error::PackageNotInManifest(package.clone())),
        Some(expected) => {
            let actual = encode(&header_blake3);
            if eq_ignore_ascii_case(expected.as_str(), actual.as_str()) {
                Ok(())
            } else {
                Err(
                    Error::ManifestHashMismatch {
                        package: package.clone(),
                        expected: expected.clone(),
                        actual,
                    },
                )
            }
        },
    }
}

/// The serial that a line of the state file records.
pub open spec fn line_serial(line: Seq<char>) -> Option<u64> {
    if has_prefix(line, "serial = "@) {
        number_of(trimmed(line.skip("serial = "@.len() as int), Edge::Blank))
    } else {
        None
    }
}

/// The serial of the first line that records one, or zero.
pub open spec fn first_serial(lines: Seq<Seq<char>>) -> u64
    decreases lines.len(),
{
    if lines.len() == 0 {
        0
    } else if let Some(n) = line_serial(lines[0]) {
        n
    } else {
        first_serial(lines.drop_first())
    }
}

/// The highest serial that was accepted, from the state file. Without a readable file it is zero.
pub open spec fn watermark_of(state: Option<Seq<char>>) -> u64 {
    match state {
        Some(text) => first_serial(lines_of(text)),
        None => 0,
    }
}

/// The text of an optional string.
pub open spec fn opt_text(s: Option<&str>) -> Option<Seq<char>> {
    match s {
        Some(t) => Some(t@),
        None => None,
    }
}

/// The content of a state file.
pub open spec fn state_text(serial: u64) -> Seq<char> {
    "serial = "@ + decimal(serial as nat) + "\n"@
}

/// The state file after an index with this serial was accepted: a higher serial is recorded, any
/// other leaves the file as it is.
pub open spec fn recorded(state: Option<Seq<char>>, serial: u64) -> Option<Seq<char>> {
    if serial <= watermark_of(state) {
        state
    } else {
        Some(state_text(serial))
    }
}

proof fn lemma_digits_are_not_trimmed(s: Seq<char>)
    requires
        crate::number::all_digits(s),
    ensures
        trimmed(s, Edge::Blank) == s,
{
    if s.len() > 0 {
        assert(is_digit(s[0]));
        assert(is_digit(s[s.len() - 1]));
    }
}

/// The watermark that was written is read back.
pub proof fn law_written_watermark_reads_back(serial: u64)
    ensures
        watermark_of(Some(state_text(serial))) == serial,
{
    reveal_strlit("serial = ");
    reveal_strlit("\n");
    let digits = decimal(serial as nat);
    let line = "serial = "@ + digits;
    let text = state_text(serial);
    lemma_decimal_digits(serial as nat);
    assert forall|i: int| 0 <= i < line.len() implies text[i] != '\n' by {
        if i >= 9 {
            assert(text[i] == digits[i - 9]);
            assert(is_digit(digits[i - 9]));
        } else {
            assert(text[i] == "serial = "@[i]);
        }
    }
    lemma_find_is(text, '\n', line.len() as int);
    assert(text.take(line.len() as int) =~= line);
    assert(line.last() == digits.last());
    assert(is_digit(digits[digits.len() - 1]));
    assert(text.skip(line.len() as int + 1) =~= Seq::<char>::empty());
    assert(lines_of(Seq::<char>::empty()) =~= Seq::empty());
    assert(lines_of(text) =~= seq![line]);
    assert(line.take(9) =~= "serial = "@);
    assert(line.skip(9) =~= digits);
    lemma_digits_are_not_trimmed(digits);
    law_written_number_reads_back(serial);
}

/// A state file is one line with the serial.
pub proof fn law_state_file_is_one_line(serial: u64)
    ensures
        lines_of(state_text(serial)) == seq!["serial = "@ + decimal(serial as nat)],
        state_text(serial).last() == '\n',
{
    reveal_strlit("serial = ");
    reveal_strlit("\n");
    let digits = decimal(serial as nat);
    let line = "serial = "@ + digits;
    lemma_decimal_digits(serial as nat);
    assert forall|i: int| 0 <= i < line.len() implies line[i] != '\n' by {
        if i >= 9 {
            assert(line[i] == digits[i - 9]);
            assert(is_digit(digits[i - 9]));
        } else {
            assert(line[i] == "serial = "@[i]);
        }
    }
    let none = Seq::<char>::empty();
    assert(is_digit(digits[digits.len() - 1]));
    assert(line.last() == digits.last());
    law_lines_end_at_line_feeds(line, none);
    law_lines_end_at_line_feeds(none, none);
    assert(state_text(serial) =~= line + seq!['\n'] + none);
    assert(seq![line] + lines_of(none) =~= seq![line]);
}

/// The watermark after an index was accepted is the higher one of its serial and the watermark
/// before. A serial that is not higher leaves the file as it is.
pub proof fn law_watermark_is_the_highest_serial(state: Option<Seq<char>>, serial: u64)
    ensures
        serial > watermark_of(state) ==> watermark_of(recorded(state, serial)) == serial
            && recorded(state, serial) is Some,
        serial <= watermark_of(state) ==> recorded(state, serial) == state,
{
    law_written_watermark_reads_back(serial);
}

/// The watermark never goes down, and it covers every index that was accepted.
pub proof fn law_watermark_never_goes_down(state: Option<Seq<char>>, serial: u64)
    ensures
        watermark_of(recorded(state, serial)) >= watermark_of(state),
        watermark_of(recorded(state, serial)) >= serial,
{
    law_written_watermark_reads_back(serial);
}

/// Once an index was accepted and recorded, every index with a lower serial is refused, whatever
/// it says of its expiry and whatever the clock says.
pub proof fn law_accepted_index_cannot_be_rolled_back(
    state: Option<Seq<char>>,
    serial: u64,
    older: u64,
    expires: u64,
    now: u64,
)
    requires
        older < serial,
    ensures
        !is_fresh(older, expires, watermark_of(recorded(state, serial)), now),
{
    law_watermark_never_goes_down(state, serial);
}

/// An index that was accepted and recorded is accepted again until it expires.
pub proof fn law_current_index_stays_acceptable(
    state: Option<Seq<char>>,
    serial: u64,
    expires: u64,
    now: u64,
    later: u64,
)
    requires
        is_fresh(serial, expires, watermark_of(state), now),
        expires == 0 || later <= expires,
    ensures
        is_fresh(serial, expires, watermark_of(recorded(state, serial)), later),
{
    law_written_watermark_reads_back(serial);
}

/// The newest index cannot be served forever: once its expiry has passed on a machine with a clock
/// it is refused, also by a machine that accepted it before, whose watermark is its serial.
pub proof fn law_frozen_index_is_refused(
    state: Option<Seq<char>>,
    serial: u64,
    expires: u64,
    now: u64,
)
    requires
        0 < expires < now,
    ensures
        !is_fresh(serial, expires, watermark_of(recorded(state, serial)), now),
{
}

/// An index is fresh exactly if its serial is not below the highest one that was accepted, and its
/// expiry, where it has one, has not passed on a machine with a clock. It is still fresh at the
/// second of its expiry.
pub proof fn law_index_is_fresh_until_it_expires(
    serial: u64,
    expires: u64,
    watermark: u64,
    now: u64,
)
    ensures
        is_fresh(serial, expires, watermark, now) <==> !(serial < watermark) && !(0 < expires < now),
        serial >= watermark ==> is_fresh(serial, expires, watermark, expires),
        serial >= watermark ==> is_fresh(serial, expires, watermark, 0),
        serial >= watermark ==> is_fresh(serial, 0, watermark, now),
{
}

/// An index vouches for exactly those archives that it lists with a text that decodes to the hash
/// of their header.
pub proof fn law_index_vouches_for_what_it_lists(
    packages: Map<Seq<char>, Seq<char>>,
    package: Seq<char>,
    header_blake3: Seq<u8>,
)
    ensures
        vouches_for(packages, package, header_blake3) <==> packages.contains_key(package)
            && decoded_hex(packages[package]) == Some(header_blake3),
{
    let s = packages[package];
    if vouches_for(packages, package, header_blake3) {
        law_encoded_hex_decodes(header_blake3, s);
    }
    if packages.contains_key(package) && decoded_hex(s) == Some(header_blake3) {
        law_decoded_hex_encodes(s);
        let t = small_hex(header_blake3);
        assert forall|i: int| 0 <= i < s.len() implies ascii_small(#[trigger] s[i]) == ascii_small(
            t[i],
        ) by {
            assert(t[i] == ascii_small(s[i]));
        }
    }
}

/// The first line that records a serial counts. A line records one if it begins with `serial = `
/// and a number stands after that, whatever blanks are around it; any other line is passed over. A
/// file without such a line records zero.
pub proof fn law_first_recorded_serial_counts(
    before: Seq<char>,
    digits: Seq<char>,
    after: Seq<char>,
    line: Seq<char>,
    rest: Seq<char>,
)
    requires
        all_edge(before, Edge::Blank),
        all_edge(after, Edge::Blank),
        !before.contains('\n'),
        !after.contains('\n'),
        after.len() > 0 ==> after.last() != '\r',
        !line.contains('\n'),
        line.len() > 0 ==> line.last() != '\r',
    ensures
        number_of(digits) matches Some(n) ==> watermark_of(
            Some("serial = "@ + before + digits + after + seq!['\n'] + rest),
        ) == n,
        line.len() < 9 || line.take(9) != "serial = "@ ==> watermark_of(
            Some(line + seq!['\n'] + rest),
        ) == watermark_of(Some(rest)),
        line.len() >= 9 && number_of(trimmed(line.skip(9), Edge::Blank)) is None ==> watermark_of(
            Some(line + seq!['\n'] + rest),
        ) == watermark_of(Some(rest)),
        watermark_of(Some(Seq::empty())) == 0,
        watermark_of(None) == 0,
{
    reveal_strlit("serial = ");
    let none = Seq::<char>::empty();
    law_lines_end_at_line_feeds(none, rest);
    assert(lines_of(none).len() == 0);
    law_lines_end_at_line_feeds(line, rest);
    let passed = seq![line] + lines_of(rest);
    assert(passed[0] == line);
    assert(passed.drop_first() =~= lines_of(rest));
    if number_of(digits) is Some {
        let field = "serial = "@ + before + digits + after;
        let all = seq![field] + lines_of(rest);
        assert forall|i: int| 0 <= i < digits.len() implies is_digit(#[trigger] digits[i])
            || digits[i] == '+' by {
            law_other_texts_stand_for_no_number(digits, i);
        }
        law_other_texts_stand_for_no_number(digits, 0);
        assert(digits.len() > 0);
        assert(is_digit(digits[0]) || digits[0] == '+');
        assert(is_digit(digits[digits.len() - 1]) || digits[digits.len() - 1] == '+');
        assert forall|i: int| 0 <= i < field.len() implies field[i] != '\n' by {
            let (a, b) = (9 + before.len() as int, 9 + before.len() as int + digits.len() as int);
            if i < 9 {
                assert(field[i] == "serial = "@[i]);
            } else if i < a {
                assert(field[i] == before[i - 9]);
                assert(before.contains(before[i - 9]));
            } else if i < b {
                assert(field[i] == digits[i - a]);
            } else {
                assert(field[i] == after[i - b]);
                assert(after.contains(after[i - b]));
            }
        }
        assert(field.last() == if after.len() > 0 {
            after.last()
        } else {
            digits.last()
        });
        law_lines_end_at_line_feeds(field, rest);
        assert("serial = "@ + before + digits + after + seq!['\n'] + rest =~= field + seq!['\n']
            + rest);
        assert(all[0] == field);
        assert(field.take(9) =~= "serial = "@);
        assert(field.skip(9) =~= before + digits + after);
        law_trim_takes_off_the_ends(before, digits, after, Edge::Blank);
    }
}

/// An index was verified with a key exactly if that key is the one that vouches for its manifest.
pub proof fn law_index_is_signed_for_its_own_key(index: AcceptedIndexView, key: Seq<u8>, e: Error)
    ensures
        signed_for(index, key) <==> index.manifest.key == Some(key) && exists|sig: Seq<char>|
            #[trigger] manifest_verdict(key, encode_utf8(index.manifest.text), sig) is Ok,
        refuses_signer(e, None) <==> e is RepoManifestUnsigned,
        refuses_signer(e, Some(key)) ==> (e matches Error::RepoManifestSigInvalid(why) && why@
            == "repo.toml signature does not match the pinned key"@),
{
}

/// The watermark and the time. Without a readable state file or a usable clock they are zero.
pub fn freshness_state(state: Option<&str>, clock: Option<u64>) -> (r: (u64, u64))
    ensures
        r.0 == watermark_of(opt_text(state)),
        r.1 == (if clock is Some {
            clock->0
        } else {
            0
        }),
{
    let mark: u64 = match state {
        Some(text) => read_watermark(text),
        None => 0,
    };
    (mark, clock.unwrap_or(0))
}

fn read_watermark(text: &str) -> (r: u64)
    ensures
        r == first_serial(lines_of(text@)),
{
    let all = lines(text);
    let ghost seqs = lines_of(text@);
    let mut i: usize = 0;
    assert(seqs.skip(0) =~= seqs);
    while i < all.len()
        invariant
            i <= all.len(),
            all@.map_values(|l: &str| l@) == seqs,
            first_serial(seqs) == first_serial(seqs.skip(i as int)),
            seqs == lines_of(text@),
        decreases all.len() - i,
    {
        assert(seqs[i as int] == all@[i as int]@);
        assert(seqs.skip(i as int)[0] == seqs[i as int]);
        assert(seqs.skip(i as int).drop_first() =~= seqs.skip(i + 1));
        if let Some(rest) = strip_prefix(all[i], "serial = ") {
            if let Some(n) = read_number(trim(rest, Edge::Blank)) {
                return n;
            }
        }
        i = i + 1;
    }
    0
}

/// What to write to the state file after an index with this serial was accepted, if anything: the
/// watermark is never lowered.
pub fn record_manifest_serial(serial: u64, state: Option<&str>) -> (r: Option<String>)
    ensures
        r is Some <==> serial > watermark_of(opt_text(state)),
        r matches Some(text) ==> text@ == state_text(serial),
        recorded(opt_text(state), serial) == (match r {
            Some(text) => Some(text@),
            None => opt_text(state),
        }),
{
    let (mark, _) = freshness_state(state, None);
    if serial <= mark {
        None
    } else {
        let mut text = "serial = ".to_owned();
        text.append(write_number(serial).as_str());
        text.append("\n");
        Some(text)
    }
}

/// The pinned key of the index, from the key file that the image ships, if it could be read.
pub fn pinned_manifest_key(key_file: Option<&str>) -> (r: Option<[u8; 32]>)
    ensures
        r is Some <==> (key_file matches Some(text) && (field_bytes(text@, "ed25519"@) matches Some(
            b,
        ) && b.len() == 32)),
        r matches Some(k) ==> (key_file matches Some(text) && field_bytes(text@, "ed25519"@)
            == Some(k@)),
{
    match key_file {
        Some(text) => load_pinned_ed25519(text),
        None => None,
    }
}

/// Whether some signature file makes the manifest good under the key.
pub open spec fn signed_by(key: Seq<u8>, manifest: Seq<char>) -> bool {
    exists|sig: Seq<char>| #[trigger]
        manifest_verdict(key, encode_utf8(manifest), sig) is Ok
}

/// The text of an index that may be parsed: its signature was verified with the pinned key, or no
/// key is pinned.
#[derive(Debug)]
pub struct TrustedManifest {
    text: String,
    key: Option<[u8; 32]>,
}

/// What a manifest says, and which key vouches for it.
pub struct TrustedManifestView {
    pub text: Seq<char>,
    pub key: Option<Seq<u8>>,
}

impl View for TrustedManifest {
    type V = TrustedManifestView;

    closed spec fn view(&self) -> TrustedManifestView {
        TrustedManifestView {
            text: self.text@,
            key: key_bytes(self.key),
        }
    }
}

impl TrustedManifest {
    #[verifier::type_invariant]
    spec fn wf(self) -> bool {
        self.key matches Some(k) ==> signed_by(k@, self.text@)
    }

    /// The text, which its key vouches for where it has one.
    pub fn text(&self) -> (r: &str)
        ensures
            r@ == self@.text,
            self@.key matches Some(k) ==> signed_by(k, r@),
    {
        proof {
            use_type_invariant(self);
        }
        self.text.as_str()
    }

    /// Whether the signature was verified. If not, the user should be warned.
    pub fn is_signed(&self) -> (r: bool)
        ensures
            r == (self@.key is Some),
    {
        self.key.is_some()
    }
}

/// The error for a verdict on the signature, where a key is pinned. Without a signature there is no
/// verdict.
pub fn manifest_refusal(verdict: Option<Result<(), &'static str>>) -> (r: Result<(), Error>)
    ensures
        r is Ok <==> (verdict matches Some(v) && v is Ok),
        verdict is None ==> r == Err::<(), Error>(Error::RepoManifestUnsigned),
        verdict matches Some(Err(why)) ==> r == Err::<(), Error>(
            Error::RepoManifestSigInvalid(why),
        ),
{
    match verdict {
        None => Err(Error::RepoManifestUnsigned),
        Some(Err(why)) => Err(Error::RepoManifestSigInvalid(why)),
        Some(Ok(_)) => Ok(()),
    }
}

/// Verifies the index with the pinned key. Without one it is taken as it is; with one a missing or
/// invalid signature is a failure. `signature` is the signature file, if it could be had.
pub fn verify_repo_manifest(
    manifest: String,
    pinned: Option<[u8; 32]>,
    signature: Option<&str>,
) -> (r: Result<TrustedManifest, Error>)
    ensures
        r is Ok <==> (pinned matches Some(k) ==> (signature matches Some(sig) && manifest_verdict(
            k@,
            encode_utf8(manifest@),
            sig@,
        ) is Ok)),
        r matches Ok(t) ==> t@ == (TrustedManifestView {
            text: manifest@,
            key: key_bytes(pinned),
        }),
        r is Err && signature is None ==> r matches Err(Error::RepoManifestUnsigned),
        r is Err && signature is Some ==> (r matches Err(Error::RepoManifestSigInvalid(why))
            && manifest_verdict(pinned->0@, encode_utf8(manifest@), signature->0@) == Err::<
            (),
            Seq<char>,
        >(why@)),
{
    match pinned {
        None => Ok(TrustedManifest { text: manifest, key: None }),
        Some(key) => {
            let verdict = match signature {
                None => None,
                Some(sig) => Some(
                    verify_manifest_ed25519(&key, manifest.as_str().as_bytes(), sig),
                ),
            };
            match manifest_refusal(verdict) {
                Ok(_) => Ok(TrustedManifest { text: manifest, key: Some(key) }),
                Err(e) => Err(e),
            }
        },
    }
}

/// An index that may be acted on: the manifest that it was parsed from is trusted, and it is fresh.
#[derive(Debug)]
pub struct AcceptedIndex {
    manifest: TrustedManifest,
    repository: Repository,
    record: Option<String>,
    expiry_skipped: bool,
}

/// What an accepted index is.
pub struct AcceptedIndexView {
    /// The manifest that it was parsed from.
    pub manifest: TrustedManifestView,
    pub repository: Repository,
    /// What is to be written to the state file, if anything.
    pub record: Option<Seq<char>>,
    /// Whether it has an expiry that could not be checked, for want of a clock.
    pub expiry_skipped: bool,
}

/// Whether the manifest of an index was verified with this key.
pub open spec fn signed_for(index: AcceptedIndexView, key: Seq<u8>) -> bool {
    index.manifest.key == Some(key) && signed_by(key, index.manifest.text)
}

impl View for AcceptedIndex {
    type V = AcceptedIndexView;

    closed spec fn view(&self) -> AcceptedIndexView {
        AcceptedIndexView {
            manifest: self.manifest@,
            repository: self.repository,
            record: optional_text(self.record),
            expiry_skipped: self.expiry_skipped,
        }
    }
}

/// Whether `e` says why a manifest that this key vouches for, if any, is not trusted under another.
pub open spec fn refuses_signer(e: Error, signer: Option<Seq<u8>>) -> bool {
    match signer {
        None => e is RepoManifestUnsigned,
        Some(_) => e matches Error::RepoManifestSigInvalid(why) && why@
            == "repo.toml signature does not match the pinned key"@,
    }
}

/// Whether two keys are equal.
fn same_key(a: &[u8; 32], b: &[u8; 32]) -> (r: bool)
    ensures
        r == (a@ == b@),
{
    let mut i: usize = 0;
    while i < 32
        invariant
            i <= 32,
            forall|k: int| 0 <= k < i ==> a@[k] == b@[k],
        decreases 32 - i,
    {
        if a[i] != b[i] {
            return false;
        }
        i = i + 1;
    }
    assert(a@ =~= b@);
    true
}

impl AcceptedIndex {
    /// What the index says.
    pub fn repository(&self) -> (r: &Repository)
        ensures
            *r == self@.repository,
            self@.manifest.key matches Some(k) ==> signed_by(k, self@.manifest.text),
    {
        proof {
            use_type_invariant(&self.manifest);
        }
        &self.repository
    }

    /// What is to be written to the state file, if anything.
    pub fn record(&self) -> (r: Option<&str>)
        ensures
            opt_text(r) == self@.record,
    {
        match &self.record {
            Some(text) => Some(text.as_str()),
            None => None,
        }
    }

    /// Whether the index has an expiry that could not be checked, for want of a clock. Then the
    /// user should be warned: only the serial protects.
    pub fn expiry_skipped(&self) -> (r: bool)
        ensures
            r == self@.expiry_skipped,
    {
        self.expiry_skipped
    }

    /// Whether the manifest was verified with this key, and if not, why it is not trusted under it.
    pub fn check_signer(&self, key: &[u8; 32]) -> (r: Result<(), Error>)
        ensures
            r is Ok <==> signed_for(self@, key@),
            r matches Err(e) ==> refuses_signer(e, self@.manifest.key),
    {
        proof {
            use_type_invariant(&self.manifest);
        }
        match self.manifest.key {
            None => Err(Error::RepoManifestUnsigned),
            Some(signer) => if same_key(&signer, key) {
                Ok(())
            } else {
                Err(
                    Error::RepoManifestSigInvalid(
                        "repo.toml signature does not match the pinned key",
                    ),
                )
            },
        }
    }

    /// Gives the index away.
    pub fn into_repository(self) -> (r: Repository)
        ensures
            r == self@.repository,
    {
        self.repository
    }
}

/// Accepts the index that was parsed from a trusted manifest, if it is fresh. `state` is the state
/// file, if it could be read, and `clock` the time, if it is known.
pub fn get_repository_detail(
    manifest: TrustedManifest,
    parsed: Result<Repository, Error>,
    state: Option<&str>,
    clock: Option<u64>,
) -> (r: Result<AcceptedIndex, Error>)
    ensures
        match parsed {
            Err(e) => r == Err::<AcceptedIndex, Error>(e),
            Ok(repo) => {
                let mark = watermark_of(opt_text(state));
                let now = if clock is Some {
                    clock->0
                } else {
                    0
                };
                &&& r is Ok <==> is_fresh(repo.serial, repo.expires, mark, now)
                &&& r matches Ok(accepted) ==> {
                    &&& accepted@.manifest == manifest@
                    &&& accepted@.repository == repo
                    &&& accepted@.record == (if repo.serial > mark {
                        Some(state_text(repo.serial))
                    } else {
                        None
                    })
                    &&& accepted@.expiry_skipped == (repo.expires != 0 && now == 0)
                }
                &&& repo.serial < mark ==> r == Err::<AcceptedIndex, Error>(
                    Error::RepoManifestRollback { got: repo.serial, seen: mark },
                )
                &&& repo.serial >= mark && r is Err ==> r == Err::<AcceptedIndex, Error>(
                    Error::RepoManifestExpired { expires: repo.expires, now },
                )
            },
        },
{
    match parsed {
        Err(e) => Err(e),
        Ok(repository) => {
            let (mark, now) = freshness_state(state, clock);
            match check_manifest_freshness(repository.serial, repository.expires, mark, now) {
                Err(e) => Err(e),
                Ok(_) => {
                    let record = record_manifest_serial(repository.serial, state);
                    let expiry_skipped = repository.expires != 0 && now == 0;
                    Ok(AcceptedIndex { manifest, repository, record, expiry_skipped })
                },
            }
        },
    }
}

} // verus!
