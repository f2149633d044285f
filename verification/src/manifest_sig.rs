//! The signature of the package index (`repo.toml`).
//!
//! The index lists the hash of every package, so a signature over it authenticates the whole
//! package set. The signature file holds an ed25519 layer, which is checked here against a public
//! key that is pinned in the image: a key that was fetched next to the index would prove nothing.
use crate::hexadecimal::{
    decode, decoded_hex, hex_bytes, is_hex, law_encoded_hex_decodes, small_hex,
};
use crate::text::{
    at_edge, find, lemma_find, lemma_find_is, lines, lines_of, same, split_once, starts_with, trim,
    trimmed, trimmed_end, Edge,
};
use crate::text_laws::{all_edge, law_lines_end_at_line_feeds, law_trim_takes_off_the_ends};
use vstd::array::array_fill_for_copy_types;
use vstd::prelude::*;

verus! {

/// The value that a line assigns to `key`: what follows the first `=`, trimmed. Blank lines,
/// comments and section headers assign nothing.
pub open spec fn line_value(line: Seq<char>, key: Seq<char>) -> Option<Seq<char>> {
    let l = trimmed(line, Edge::Blank);
    let eq = find(l, '=');
    if l.len() == 0 || l[0] == '#' || l[0] == '[' {
        None
    } else if eq < l.len() && trimmed(l.take(eq), Edge::Blank) == key {
        Some(trimmed(l.skip(eq + 1), Edge::Blank))
    } else {
        None
    }
}

/// The value of the first line that assigns one to `key`.
pub open spec fn first_value(lines: Seq<Seq<char>>, key: Seq<char>) -> Option<Seq<char>>
    decreases lines.len(),
{
    if lines.len() == 0 {
        None
    } else if line_value(lines[0], key) is Some {
        line_value(lines[0], key)
    } else {
        first_value(lines.drop_first(), key)
    }
}

/// The bytes of the field `key` of a signature or public key file: its value, without quotes,
/// read as hexadecimal.
pub open spec fn field_bytes(text: Seq<char>, key: Seq<char>) -> Option<Seq<u8>> {
    match first_value(lines_of(text), key) {
        Some(v) => decoded_hex(trimmed(trimmed(v, Edge::Quote), Edge::Blank)),
        None => None,
    }
}

/// Whether `VerifyingKey::from_bytes` accepts these bytes as an ed25519 public key.
pub uninterp spec fn ed25519_key_accepted(key: Seq<u8>) -> bool;

/// Whether `VerifyingKey::verify_strict` accepts the signature on the message under the key.
pub uninterp spec fn ed25519_strictly_accepted(
    key: Seq<u8>,
    message: Seq<u8>,
    signature: Seq<u8>,
) -> bool;

/// What checking the manifest against the pinned key says, with the reason for a refusal.
pub open spec fn manifest_verdict(
    pinned: Seq<u8>,
    manifest: Seq<u8>,
    sig_toml: Seq<char>,
) -> Result<(), Seq<char>> {
    let sig = field_bytes(sig_toml, "ed25519"@);
    if !ed25519_key_accepted(pinned) {
        Err("pinned manifest key is not a valid ed25519 key"@)
    } else if sig is None {
        Err("repo.toml.sig has no ed25519 field"@)
    } else if sig->0.len() != 64 {
        Err("repo.toml.sig ed25519 is not 64 bytes"@)
    } else if !ed25519_strictly_accepted(pinned, manifest, sig->0) {
        Err("repo.toml signature does not match the pinned key"@)
    } else {
        Ok(())
    }
}

/// Comments and section headers do not matter: a file with such a line says of every field what
/// it says without the line.
pub proof fn law_comments_and_headers_are_ignored(
    before: Seq<Seq<char>>,
    line: Seq<char>,
    after: Seq<Seq<char>>,
    key: Seq<char>,
)
    requires
        trimmed(line, Edge::Blank).len() > 0,
        trimmed(line, Edge::Blank)[0] == '#' || trimmed(line, Edge::Blank)[0] == '[',
    ensures
        first_value(before.push(line) + after, key) == first_value(before + after, key),
    decreases before.len(),
{
    let with = before.push(line) + after;
    let without = before + after;
    if before.len() == 0 {
        assert(with[0] == line);
        assert(with.drop_first() =~= without);
    } else {
        assert(with[0] == before[0] && without[0] == before[0]);
        assert(with.drop_first() =~= before.drop_first().push(line) + after);
        assert(without.drop_first() =~= before.drop_first() + after);
        law_comments_and_headers_are_ignored(before.drop_first(), line, after, key);
    }
}

/// A line `key = value` assigns the value to the key and to no other one, whatever blanks stand
/// before, between and after.
pub proof fn law_line_assigns_its_value(
    indent: Seq<char>,
    key: Seq<char>,
    before: Seq<char>,
    after: Seq<char>,
    value: Seq<char>,
    end: Seq<char>,
    other: Seq<char>,
)
    requires
        all_edge(indent, Edge::Blank),
        all_edge(before, Edge::Blank),
        all_edge(after, Edge::Blank),
        all_edge(end, Edge::Blank),
        key.len() > 0,
        key[0] != '#',
        key[0] != '[',
        !key.contains('='),
        !at_edge(Edge::Blank, key[0]),
        !at_edge(Edge::Blank, key.last()),
        value.len() > 0 ==> !at_edge(Edge::Blank, value[0]) && !at_edge(Edge::Blank, value.last()),
    ensures
        line_value(indent + key + before + seq!['='] + after + value + end, key) == Some(value),
        other != key ==> line_value(
            indent + key + before + seq!['='] + after + value + end,
            other,
        ) is None,
{
    let none = Seq::<char>::empty();
    let line = indent + key + before + seq!['='] + after + value + end;
    let (tail, rest) = if value.len() > 0 {
        (after + value, end)
    } else {
        (none, after + end)
    };
    let left = key + before;
    let l = left + seq!['='] + tail;
    assert forall|i: int| 0 <= i < rest.len() implies at_edge(Edge::Blank, #[trigger] rest[i]) by {
        if value.len() == 0 {
            if i < after.len() {
                assert(rest[i] == after[i]);
            } else {
                assert(rest[i] == end[i - after.len()]);
            }
        }
    }
    assert(line =~= indent + l + rest);
    assert(l[0] == key[0]);
    assert(l.last() == if value.len() > 0 {
        value.last()
    } else {
        '='
    });
    law_trim_takes_off_the_ends(indent, l, rest, Edge::Blank);
    assert forall|i: int| 0 <= i < left.len() implies l[i] != '=' by {
        if i < key.len() {
            assert(l[i] == key[i]);
            assert(key.contains(key[i]));
        } else {
            assert(l[i] == before[i - key.len()]);
            assert(at_edge(Edge::Blank, before[i - key.len()]));
        }
    }
    assert(l[left.len() as int] == '=');
    lemma_find_is(l, '=', left.len() as int);
    assert(l.take(left.len() as int) =~= none + key + before);
    law_trim_takes_off_the_ends(none, key, before, Edge::Blank);
    assert(l.skip(left.len() as int + 1) =~= tail);
    if value.len() > 0 {
        assert(tail =~= after + value + none);
        law_trim_takes_off_the_ends(after, value, none, Edge::Blank);
    } else {
        assert(tail =~= none + value + none);
        law_trim_takes_off_the_ends(none, value, none, Edge::Blank);
    }
}

/// A line without `=` assigns nothing.
pub proof fn law_line_without_a_value_assigns_nothing(line: Seq<char>, key: Seq<char>)
    requires
        !line.contains('='),
    ensures
        line_value(line, key) is None,
{
    let l = trimmed(line, Edge::Blank);
    lemma_trimmed_holds_no_more(line, Edge::Blank, '=');
    lemma_find(l, '=');
    if find(l, '=') < l.len() {
        assert(l.contains(l[find(l, '=')]));
    }
}

proof fn lemma_trimmed_holds_no_more(s: Seq<char>, edge: Edge, c: char)
    requires
        !s.contains(c),
    ensures
        !trimmed(s, edge).contains(c),
    decreases s.len(),
{
    if s.len() > 0 && at_edge(edge, s[0]) {
        assert forall|i: int| 0 <= i < s.drop_first().len() implies s.drop_first()[i] != c by {
            assert(s.drop_first()[i] == s[i + 1]);
            assert(s.contains(s[i + 1]));
        }
        lemma_trimmed_holds_no_more(s.drop_first(), edge, c);
    } else {
        lemma_trimmed_end_holds_no_more(s, edge, c);
    }
}

proof fn lemma_trimmed_end_holds_no_more(s: Seq<char>, edge: Edge, c: char)
    requires
        !s.contains(c),
    ensures
        !trimmed_end(s, edge).contains(c),
    decreases s.len(),
{
    if s.len() > 0 && at_edge(edge, s.last()) {
        assert forall|i: int| 0 <= i < s.drop_last().len() implies s.drop_last()[i] != c by {
            assert(s.drop_last()[i] == s[i]);
            assert(s.contains(s[i]));
        }
        lemma_trimmed_end_holds_no_more(s.drop_last(), edge, c);
    }
}

/// The first line that assigns a value counts: lines before it that assign none, and all lines
/// after it, do not matter.
pub proof fn law_first_assignment_counts(
    before: Seq<Seq<char>>,
    line: Seq<char>,
    after: Seq<Seq<char>>,
    key: Seq<char>,
)
    requires
        forall|i: int| 0 <= i < before.len() ==> line_value(#[trigger] before[i], key) is None,
    ensures
        line_value(line, key) is Some ==> first_value(before.push(line) + after, key)
            == line_value(line, key),
        line_value(line, key) is None ==> first_value(before.push(line) + after, key)
            == first_value(after, key),
        first_value(before, key) is None,
    decreases before.len(),
{
    let all = before.push(line) + after;
    if before.len() == 0 {
        assert(all[0] == line);
        assert(all.drop_first() =~= after);
    } else {
        assert(all[0] == before[0]);
        assert(all.drop_first() =~= before.drop_first().push(line) + after);
        assert forall|i: int| 0 <= i < before.drop_first().len() implies line_value(
            #[trigger] before.drop_first()[i],
            key,
        ) is None by {
            assert(before.drop_first()[i] == before[i + 1]);
        }
        law_first_assignment_counts(before.drop_first(), line, after, key);
    }
}

/// A field that was written as `key = "<hex>"` on a line of its own reads back, whatever lines
/// follow it. A line in front of it that assigns no value to the key does not matter.
pub proof fn law_written_field_reads_back(
    key: Seq<char>,
    bytes: Seq<u8>,
    line: Seq<char>,
    rest: Seq<char>,
)
    requires
        key.len() > 0,
        key[0] != '#',
        key[0] != '[',
        !key.contains('='),
        !key.contains('\n'),
        !at_edge(Edge::Blank, key[0]),
        !at_edge(Edge::Blank, key.last()),
        !line.contains('\n'),
        line.len() > 0 ==> line.last() != '\r',
    ensures
        field_bytes(
            key + " = \""@ + small_hex(bytes) + seq!['"', '\n'] + rest,
            key,
        ) == Some(bytes),
        line_value(line, key) is None ==> field_bytes(line + seq!['\n'] + rest, key)
            == field_bytes(rest, key),
        field_bytes(Seq::empty(), key) is None,
{
    let none = Seq::<char>::empty();
    let hex = small_hex(bytes);
    reveal_strlit(" = \"");
    let quoted = seq!['"'] + hex + seq!['"'];
    let blank = seq![' '];
    let field = key + " = \""@ + hex + seq!['"'];
    assert(field =~= none + key + blank + seq!['='] + blank + quoted + none);
    law_line_assigns_its_value(none, key, blank, blank, quoted, none, key);
    let text = key + " = \""@ + hex + seq!['"', '\n'] + rest;
    assert(text =~= field + seq!['\n'] + rest);
    assert forall|i: int| 0 <= i < hex.len() implies '0' <= #[trigger] hex[i] <= '9' || 'a' <= hex[i]
        <= 'f' by {
        let byte = bytes[i / 2] as int;
        assert(0 <= byte / 16 < 16 && 0 <= byte % 16 < 16);
    }
    assert forall|i: int| 0 <= i < field.len() implies field[i] != '\n' by {
        if i < key.len() {
            assert(field[i] == key[i]);
            assert(key.contains(key[i]));
        } else if i < key.len() + 4 {
            assert(field[i] == " = \""@[i - key.len()]);
        } else if i < key.len() + 4 + hex.len() {
            assert(field[i] == hex[i - key.len() - 4]);
        }
    }
    law_lines_end_at_line_feeds(field, rest);
    law_lines_end_at_line_feeds(line, rest);
    law_lines_end_at_line_feeds(none, rest);
    assert(field.last() == '"');
    let first = seq![field] + lines_of(rest);
    assert(first =~= Seq::<Seq<char>>::empty().push(field) + lines_of(rest));
    law_first_assignment_counts(Seq::empty(), field, lines_of(rest), key);
    assert(seq![line] + lines_of(rest) =~= Seq::<Seq<char>>::empty().push(line) + lines_of(rest));
    law_first_assignment_counts(Seq::empty(), line, lines_of(rest), key);
    if hex.len() > 0 {
        assert('0' <= hex[0] <= '9' || 'a' <= hex[0] <= 'f');
        assert('0' <= hex[hex.len() - 1] <= '9' || 'a' <= hex[hex.len() - 1] <= 'f');
    }
    law_trim_takes_off_the_ends(seq!['"'], hex, seq!['"'], Edge::Quote);
    assert(hex =~= none + hex + none);
    law_trim_takes_off_the_ends(none, hex, none, Edge::Blank);
    law_encoded_hex_decodes(bytes, hex);
}

/// The value of a field is read as hexadecimal without the quotes around it, and without blanks
/// inside them; the quotes may be missing. A value that is not hexadecimal gives no bytes.
pub proof fn law_quotes_and_blanks_around_a_value_do_not_matter(
    text: Seq<char>,
    key: Seq<char>,
    open_quotes: Seq<char>,
    before: Seq<char>,
    value: Seq<char>,
    after: Seq<char>,
    close_quotes: Seq<char>,
)
    requires
        all_edge(open_quotes, Edge::Quote),
        all_edge(before, Edge::Blank),
        all_edge(after, Edge::Blank),
        all_edge(close_quotes, Edge::Quote),
        value.len() > 0,
        !at_edge(Edge::Blank, value[0]) && value[0] != '"',
        !at_edge(Edge::Blank, value.last()) && value.last() != '"',
        first_value(lines_of(text), key) == Some(
            open_quotes + before + value + after + close_quotes,
        ),
    ensures
        field_bytes(text, key) == decoded_hex(value),
{
    let inner = before + value + after;
    assert(open_quotes + before + value + after + close_quotes =~= open_quotes + inner
        + close_quotes);
    if before.len() > 0 {
        assert(inner[0] == before[0]);
        assert(at_edge(Edge::Blank, before[0]));
    } else {
        assert(inner[0] == value[0]);
    }
    if after.len() > 0 {
        assert(inner.last() == after[after.len() - 1]);
        assert(at_edge(Edge::Blank, after[after.len() - 1]));
    } else {
        assert(inner.last() == value.last());
    }
    law_trim_takes_off_the_ends(open_quotes, inner, close_quotes, Edge::Quote);
    law_trim_takes_off_the_ends(before, value, after, Edge::Blank);
}

/// A field that no line assigns a value to has no bytes.
pub proof fn law_missing_field_has_no_bytes(text: Seq<char>, key: Seq<char>)
    requires
        forall|i: int|
            0 <= i < lines_of(text).len() ==> line_value(#[trigger] lines_of(text)[i], key) is None,
    ensures
        field_bytes(text, key) is None,
{
    law_first_assignment_counts(lines_of(text), Seq::empty(), Seq::empty(), key);
}

/// A manifest is accepted exactly under a key that is usable, with a signature field of 64 bytes
/// that is a strictly valid signature of its bytes under that key. Otherwise the first of these
/// that fails is told.
pub proof fn law_only_a_strictly_signed_manifest_is_accepted(
    pinned: Seq<u8>,
    manifest: Seq<u8>,
    sig_toml: Seq<char>,
)
    ensures
        manifest_verdict(pinned, manifest, sig_toml) is Ok <==> ed25519_key_accepted(pinned) && (
        field_bytes(sig_toml, "ed25519"@) matches Some(sig) && sig.len() == 64
            && ed25519_strictly_accepted(pinned, manifest, sig)),
        !ed25519_key_accepted(pinned) ==> manifest_verdict(pinned, manifest, sig_toml) == Err::<
            (),
            Seq<char>,
        >("pinned manifest key is not a valid ed25519 key"@),
        ed25519_key_accepted(pinned) && field_bytes(sig_toml, "ed25519"@) is None
            ==> manifest_verdict(pinned, manifest, sig_toml) == Err::<(), Seq<char>>(
            "repo.toml.sig has no ed25519 field"@,
        ),
        ed25519_key_accepted(pinned) ==> (field_bytes(sig_toml, "ed25519"@) matches Some(sig) ==> {
            &&& sig.len() != 64 ==> manifest_verdict(pinned, manifest, sig_toml) == Err::<
                (),
                Seq<char>,
            >("repo.toml.sig ed25519 is not 64 bytes"@)
            &&& sig.len() == 64 && !ed25519_strictly_accepted(pinned, manifest, sig)
                ==> manifest_verdict(pinned, manifest, sig_toml) == Err::<(), Seq<char>>(
                "repo.toml signature does not match the pinned key"@,
            )
        }),
{
}

/// Bytes as an array, where there are exactly as many.
fn exactly<const N: usize>(bytes: &Vec<u8>) -> (r: Option<[u8; N]>)
    ensures
        r is Some <==> bytes@.len() == N,
        r matches Some(a) ==> a@ == bytes@,
{
    if bytes.len() != N {
        return None;
    }
    let mut a: [u8; N] = array_fill_for_copy_types(0u8);
    let mut i: usize = 0;
    while i < N
        invariant
            i <= N == bytes.len(),
            forall|k: int| 0 <= k < i ==> a@[k] == bytes@[k],
        decreases N - i,
    {
        a[i] = bytes[i];
        i = i + 1;
    }
    assert(a@ =~= bytes@);
    Some(a)
}

/// Decodes hexadecimal text, after trimming white space.
pub fn hex_decode(s: &str) -> (r: Option<Vec<u8>>)
    ensures
        r is Some <==> is_hex(trimmed(s@, Edge::Blank)),
        r matches Some(v) ==> v@ == hex_bytes(trimmed(s@, Edge::Blank)),
{
    decode(trim(s, Edge::Blank))
}

/// The bytes of `key = "<hex>"` in a flat signature or public key file.
pub fn field_hex(text: &str, key: &str) -> (r: Option<Vec<u8>>)
    ensures
        r is Some <==> field_bytes(text@, key@) is Some,
        r matches Some(v) ==> field_bytes(text@, key@) == Some(v@),
{
    let all = lines(text);
    let ghost seqs = lines_of(text@);
    let mut i: usize = 0;
    assert(seqs.skip(0) =~= seqs);
    while i < all.len()
        invariant
            i <= all.len(),
            all@.map_values(|l: &str| l@) == seqs,
            seqs == lines_of(text@),
            first_value(seqs, key@) == first_value(seqs.skip(i as int), key@),
        decreases all.len() - i,
    {
        assert(seqs[i as int] == all@[i as int]@);
        assert(seqs.skip(i as int)[0] == seqs[i as int]);
        assert(seqs.skip(i as int).drop_first() =~= seqs.skip(i + 1));
        let line = trim(all[i], Edge::Blank);
        let skipped = line.is_empty() || starts_with(line, '#') || starts_with(line, '[');
        if !skipped {
            if let Some((k, v)) = split_once(line, '=') {
                if same(trim(k, Edge::Blank), key) {
                    return hex_decode(trim(trim(v, Edge::Blank), Edge::Quote));
                }
            }
        }
        i = i + 1;
    }
    None
}

/// Loads the pinned ed25519 key from the public key file that the image ships. `None` means that
/// no key is pinned.
pub fn load_pinned_ed25519(pub_toml: &str) -> (r: Option<[u8; 32]>)
    ensures
        r is Some <==> (field_bytes(pub_toml@, "ed25519"@) matches Some(b) && b.len() == 32),
        r matches Some(k) ==> field_bytes(pub_toml@, "ed25519"@) == Some(k@),
{
    match field_hex(pub_toml, "ed25519") {
        Some(bytes) => exactly::<32>(&bytes),
        None => None,
    }
}

/// `VerifyingKey::from_bytes`: whether the bytes are an ed25519 public key. Which points the
/// curve accepts is named, not spelled out.
#[verifier::external_body]
fn key_accepted(key: &[u8; 32]) -> (r: bool)
    ensures
        r == ed25519_key_accepted(key@),
{
    ed25519_dalek::VerifyingKey::from_bytes(key).is_ok()
}

/// `VerifyingKey::verify_strict`: whether the signature on the message is valid under a key that
/// `VerifyingKey::from_bytes` accepts. The signature scheme is named, not spelled out.
#[verifier::external_body]
fn strictly_accepted(key: &[u8; 32], message: &[u8], signature: &[u8; 64]) -> (r: bool)
    requires
        ed25519_key_accepted(key@),
    ensures
        r == ed25519_strictly_accepted(key@, message@, signature@),
{
    match ed25519_dalek::VerifyingKey::from_bytes(key) {
        Ok(vk) => vk.verify_strict(message, &ed25519_dalek::Signature::from_bytes(signature)).is_ok(),
        Err(_) => false,
    }
}

/// The signature to check, once it is known whether the pinned key is usable at all.
pub fn signature_to_check(key_usable: bool, sig_toml: &str) -> (r: Result<[u8; 64], &'static str>)
    ensures
        r is Ok <==> key_usable && (field_bytes(sig_toml@, "ed25519"@) matches Some(b) && b.len()
            == 64),
        r matches Ok(sig) ==> field_bytes(sig_toml@, "ed25519"@) == Some(sig@),
        r matches Err(why) ==> why@ == (if !key_usable {
            "pinned manifest key is not a valid ed25519 key"@
        } else if field_bytes(sig_toml@, "ed25519"@) is None {
            "repo.toml.sig has no ed25519 field"@
        } else {
            "repo.toml.sig ed25519 is not 64 bytes"@
        }),
{
    if !key_usable {
        return Err("pinned manifest key is not a valid ed25519 key");
    }
    match field_hex(sig_toml, "ed25519") {
        None => Err("repo.toml.sig has no ed25519 field"),
        Some(bytes) => match exactly::<64>(&bytes) {
            None => Err("repo.toml.sig ed25519 is not 64 bytes"),
            Some(sig) => Ok(sig),
        },
    }
}

/// The verdict on the manifest, once it is known whether the signature is valid.
pub fn signature_verdict(valid: bool) -> (r: Result<(), &'static str>)
    ensures
        r is Ok <==> valid,
        r matches Err(why) ==> why@ == "repo.toml signature does not match the pinned key"@,
{
    if valid {
        Ok(())
    } else {
        Err("repo.toml signature does not match the pinned key")
    }
}

/// Verifies the ed25519 layer of the signature file over the bytes of the manifest against the
/// pinned key, strictly: signatures that are not canonical are refused.
pub fn verify_manifest_ed25519(pinned: &[u8; 32], manifest: &[u8], sig_toml: &str) -> (r: Result<
    (),
    &'static str,
>)
    ensures
        r is Ok <==> manifest_verdict(pinned@, manifest@, sig_toml@) is Ok,
        r matches Err(why) ==> manifest_verdict(pinned@, manifest@, sig_toml@) == Err::<
            (),
            Seq<char>,
        >(why@),
{
    let usable = key_accepted(pinned);
    match signature_to_check(usable, sig_toml) {
        Ok(sig) => signature_verdict(strictly_accepted(pinned, manifest, &sig)),
        Err(why) => Err(why),
    }
}

} // verus!
