//! Downloads: where they go, and how they fail.
use crate::error::IoError;
use crate::number::{
    decimal, is_digit, law_decimal_is_injective, lemma_decimal_digits, write_number,
};
use reqwest::Error as ReqwestError;
use vstd::pervasive::unreached;
use vstd::prelude::*;
use vstd::string::StringExecFns;

verus! {

/// Where the bytes of a download go.
#[derive(Debug)]
pub enum DownloadBackendWriter<F> {
    ToFile(F),
    ToBuf(Vec<u8>),
}

impl<F> DownloadBackendWriter<F> {
    /// The buffer that was written.
    pub fn to_inner_buf(self) -> (r: Vec<u8>)
        requires
            self is ToBuf,
        ensures
            self == DownloadBackendWriter::<F>::ToBuf(r),
    {
        match self {
            DownloadBackendWriter::ToBuf(items) => items,
            DownloadBackendWriter::ToFile(_) => unreached(),
        }
    }

    /// The file that was written.
    pub fn to_inner_file(self) -> (r: F)
        requires
            self is ToFile,
        ensures
            self == DownloadBackendWriter::ToFile(r),
    {
        match self {
            DownloadBackendWriter::ToFile(file) => file,
            DownloadBackendWriter::ToBuf(_) => unreached(),
        }
    }
}

/// Why a download failed.
#[derive(Debug)]
pub enum DownloadError {
    Timeout,
    /// The host answered with this status.
    HttpStatus(u16),
    /// Any other failure of the HTTP client.
    Reqwest(String),
    IO(IoError),
    Other(String),
}

/// A failure of the HTTP client.
#[verifier::external_type_specification]
#[verifier::external_body]
pub struct ExReqwestError(ReqwestError);

/// Whether a failure of the HTTP client was a timeout.
pub uninterp spec fn reqwest_timed_out(err: ReqwestError) -> bool;

/// The status that a failure of the HTTP client gives, if any.
pub uninterp spec fn reqwest_status_code(err: ReqwestError) -> Option<u16>;

/// The text of a failure of the HTTP client.
pub uninterp spec fn reqwest_message(err: ReqwestError) -> Seq<char>;

/// `reqwest::Error::is_timeout`: whether a timeout is among the causes. Which of them count is
/// named, not spelled out.
pub assume_specification[ ReqwestError::is_timeout ](err: &ReqwestError) -> (r: bool)
    ensures
        r == reqwest_timed_out(*err),
;

/// `reqwest::Error::is_status`: whether the failure was made from a status. Exactly then it gives
/// one.
pub assume_specification[ ReqwestError::is_status ](err: &ReqwestError) -> (r: bool)
    ensures
        r == (reqwest_status_code(*err) is Some),
;

/// `reqwest::Error::status`, as a number.
#[verifier::external_body]
fn reqwest_status(err: &ReqwestError) -> (r: Option<u16>)
    ensures
        r == reqwest_status_code(*err),
{
    err.status().map(|s| s.as_u16())
}

/// The text of a `reqwest::Error`.
#[verifier::external_body]
fn reqwest_text(err: &ReqwestError) -> (r: String)
    ensures
        r@ == reqwest_message(*err),
{
    err.to_string()
}

/// The kind of a failure, from what the HTTP client says of it. A failure by status that does
/// not give the status counts as an internal error of the server.
pub open spec fn download_failure(
    e: DownloadError,
    timeout: bool,
    by_status: bool,
    status: Option<u16>,
    text: Seq<char>,
) -> bool {
    if timeout {
        e is Timeout
    } else if by_status {
        e == DownloadError::HttpStatus(
            if status is Some {
                status->0
            } else {
                500
            },
        )
    } else {
        e matches DownloadError::Reqwest(t) && t@ == text
    }
}

impl DownloadError {
    /// Sorts a failure by what the HTTP client says of it.
    pub fn classify(timeout: bool, by_status: bool, status: Option<u16>, text: String) -> (r: Self)
        ensures
            download_failure(r, timeout, by_status, status, text@),
    {
        if timeout {
            DownloadError::Timeout
        } else if by_status {
            DownloadError::HttpStatus(status.unwrap_or(500))
        } else {
            DownloadError::Reqwest(text)
        }
    }

    /// Sorts a failure of the HTTP client.
    pub fn from_reqwest(err: &ReqwestError) -> (r: Self)
        ensures
            download_failure(
                r,
                reqwest_timed_out(*err),
                reqwest_status_code(*err) is Some,
                reqwest_status_code(*err),
                reqwest_message(*err),
            ),
    {
        DownloadError::classify(
            err.is_timeout(),
            err.is_status(),
            reqwest_status(err),
            reqwest_text(err),
        )
    }
}

/// A mark that no other use gets: the process, and a number that the process gives only once.
pub open spec fn unique_mark(pid: u32, seq: u64) -> Seq<char> {
    "."@ + decimal(pid as nat) + "."@ + decimal(seq as nat)
}

/// What a file name gets appended while its download is under way.
pub open spec fn part_suffix_of(pid: u32, seq: u64) -> Seq<char> {
    unique_mark(pid, seq) + ".part"@
}

/// Two uses share a mark only if they share the process and the number.
pub proof fn law_marks_are_unique(pid1: u32, seq1: u64, pid2: u32, seq2: u64)
    requires
        unique_mark(pid1, seq1) == unique_mark(pid2, seq2),
    ensures
        pid1 == pid2,
        seq1 == seq2,
{
    reveal_strlit(".");
    let (p1, s1) = (decimal(pid1 as nat), decimal(seq1 as nat));
    let (p2, s2) = (decimal(pid2 as nat), decimal(seq2 as nat));
    let (m1, m2) = (unique_mark(pid1, seq1), unique_mark(pid2, seq2));
    lemma_decimal_digits(pid1 as nat);
    lemma_decimal_digits(pid2 as nat);
    let (k1, k2) = (p1.len() as int, p2.len() as int);
    assert(m1[1 + k1] == '.');
    assert(m2[1 + k2] == '.');
    if p1.len() < p2.len() {
        assert(m2[1 + k1] == p2[k1]);
        assert(is_digit(p2[k1]));
    } else if p2.len() < p1.len() {
        assert(m1[1 + k2] == p1[k2]);
        assert(is_digit(p1[k2]));
    }
    assert(p1 =~= m1.subrange(1, 1 + k1));
    assert(p2 =~= m2.subrange(1, 1 + k2));
    assert(s1 =~= m1.skip(2 + k1));
    assert(s2 =~= m2.skip(2 + k2));
    law_decimal_is_injective(pid1 as nat, pid2 as nat);
    law_decimal_is_injective(seq1 as nat, seq2 as nat);
}

/// Two downloads use the same temporary name for a file only if they are the same download.
pub proof fn law_temporary_names_are_unique(
    file: Seq<char>,
    pid1: u32,
    seq1: u64,
    pid2: u32,
    seq2: u64,
)
    requires
        file + part_suffix_of(pid1, seq1) == file + part_suffix_of(pid2, seq2),
    ensures
        pid1 == pid2,
        seq1 == seq2,
{
    let a = part_suffix_of(pid1, seq1);
    let b = part_suffix_of(pid2, seq2);
    assert(a =~= (file + a).skip(file.len() as int));
    assert(b =~= (file + b).skip(file.len() as int));
    let n = a.len() - ".part"@.len();
    assert(unique_mark(pid1, seq1) =~= a.take(n));
    assert(unique_mark(pid2, seq2) =~= b.take(n));
    law_marks_are_unique(pid1, seq1, pid2, seq2);
}

/// A temporary name is not the name of the file itself, so a download that is under way or failed
/// leaves the file as it was.
pub proof fn law_temporary_name_is_another(file: Seq<char>, pid: u32, seq: u64)
    ensures
        file + part_suffix_of(pid, seq) != file,
{
    reveal_strlit(".part");
    assert((file + part_suffix_of(pid, seq)).len() > file.len());
}

/// A failure is a timeout if the HTTP client says so. Otherwise it is the status that the host
/// answered with, whichever, where the failure comes from a status, and what the client says where
/// it does not.
pub proof fn law_failures_are_sorted_by_their_cause(
    e: DownloadError,
    timeout: bool,
    by_status: bool,
    status: Option<u16>,
    text: Seq<char>,
)
    requires
        download_failure(e, timeout, by_status, status, text),
    ensures
        e is Timeout <==> timeout,
        e is HttpStatus <==> !timeout && by_status,
        e is Reqwest <==> !timeout && !by_status,
        e matches DownloadError::HttpStatus(s) ==> (status matches Some(n) ==> s == n),
        e matches DownloadError::HttpStatus(s) ==> (status is None ==> s == 500),
        e matches DownloadError::Reqwest(t) ==> t@ == text,
{
}

/// A mark begins with a dot, so that a file with it is hidden, and a download that is under way
/// ends in `.part`.
pub proof fn law_how_temporary_files_are_named(pid: u32, seq: u64)
    ensures
        unique_mark(pid, seq).len() > 0,
        unique_mark(pid, seq)[0] == '.',
        ({
            let suffix = part_suffix_of(pid, seq);
            &&& suffix.len() >= 5
            &&& suffix.skip(suffix.len() - 5) == ".part"@
            &&& suffix.take(suffix.len() - 5) == unique_mark(pid, seq)
        }),
{
    reveal_strlit(".");
    reveal_strlit(".part");
    let suffix = part_suffix_of(pid, seq);
    assert(suffix.skip(suffix.len() - 5) =~= ".part"@);
    assert(suffix.take(suffix.len() - 5) =~= unique_mark(pid, seq));
}

/// A mark for the process `pid`, which gives the number `seq` only once.
pub fn mark(pid: u32, seq: u64) -> (r: String)
    ensures
        r@ == unique_mark(pid, seq),
{
    let mut r = ".".to_owned();
    r.append(write_number(pid as u64).as_str());
    r.append(".");
    r.append(write_number(seq).as_str());
    r
}

/// What to append to a file name while its download is under way, so that a reader sees either
/// the old file or the complete new one.
pub fn part_suffix(pid: u32, seq: u64) -> (r: String)
    ensures
        r@ == part_suffix_of(pid, seq),
{
    let mut r = mark(pid, seq);
    r.append(".part");
    r
}

/// What is left to do with the temporary file of a download.
#[derive(Debug)]
pub enum PartAction {
    /// Delete it, and report the failure: nothing may stay that looks like a finished download.
    Discard(DownloadError),
    /// Rename it into place.
    Publish,
}

/// What becomes of the temporary file once the download has ended.
pub fn after_download(result: Result<(), DownloadError>) -> (r: PartAction)
    ensures
        result matches Ok(_) ==> r is Publish,
        result matches Err(e) ==> r == PartAction::Discard(e),
{
    match result {
        Ok(_) => PartAction::Publish,
        Err(e) => PartAction::Discard(e),
    }
}

} // verus!
