//! The download directory, which must be a directory that only its owner can write into.
//!
//! Its default place is a fixed name below a directory that everyone can write into, and the names
//! of the files in it can be guessed. In a directory of someone else, or one that others can write
//! into, a link with such a name would turn a download into a write to wherever the link points.
use crate::error::{reports_io, wrap_io_err, wraps_io, Error, IoError, IoErrorKind};
use crate::number::{decimal, write_number};
use vstd::prelude::*;
use vstd::string::StringExecFns;

verus! {

/// What is known of a path, without following a link at its end.
#[derive(Clone, Copy, Debug)]
pub struct DirMeta {
    pub is_symlink: bool,
    pub is_dir: bool,
    pub uid: u32,
    pub mode: u32,
}

/// A step towards a private directory.
#[derive(Clone, Copy, Debug, PartialEq, Eq, Structural)]
pub enum DirOp {
    /// Create the directory and those above it.
    CreateAll,
    /// Set the permissions of the directory.
    SetMode(u32),
}

/// The mode of a directory that only its owner can use.
pub const OWNER_ONLY: u32 = 0o700;

/// The bits that let group or others write.
pub const SHARED_WRITE: u32 = 0o022;

/// A directory at the download path, in terms of what matters of it.
pub struct DirState {
    pub real: bool,
    pub uid: u32,
    pub mode: u32,
}

/// The directory after one step. One that was created belongs to whoever created it, with some
/// permissions.
pub open spec fn after_op(dir: Option<DirState>, op: DirOp, us: u32, umask_mode: u32) -> Option<
    DirState,
> {
    match (op, dir) {
        (DirOp::CreateAll, None) => Some(DirState { real: true, uid: us, mode: umask_mode }),
        (DirOp::CreateAll, Some(d)) => Some(d),
        (DirOp::SetMode(mode), Some(d)) => Some(DirState { mode, ..d }),
        (DirOp::SetMode(_), None) => None,
    }
}

/// The directory after a row of steps.
pub open spec fn after_ops(
    dir: Option<DirState>,
    ops: Seq<DirOp>,
    us: u32,
    umask_mode: u32,
) -> Option<DirState>
    decreases ops.len(),
{
    if ops.len() == 0 {
        dir
    } else {
        after_op(after_ops(dir, ops.drop_last(), us, umask_mode), ops.last(), us, umask_mode)
    }
}

/// What the file system holds at a path of which this is known.
pub open spec fn dir_of(meta: Result<DirMeta, IoError>) -> Option<DirState> {
    match meta {
        Ok(m) => Some(DirState { real: m.is_dir && !m.is_symlink, uid: m.uid, mode: m.mode }),
        Err(_) => None,
    }
}

/// The steps that make the path a private directory of ours, where it can become one.
pub open spec fn private_dir_ops(meta: Result<DirMeta, IoError>, us: u32) -> Option<Seq<DirOp>> {
    match meta {
        Err(e) => if e.kind == IoErrorKind::NotFound {
            Some(seq![DirOp::CreateAll, DirOp::SetMode(OWNER_ONLY)])
        } else {
            None
        },
        Ok(m) => if m.is_symlink || !m.is_dir || m.uid != us {
            None
        } else if m.mode & SHARED_WRITE != 0 {
            Some(seq![DirOp::SetMode(m.mode & !SHARED_WRITE)])
        } else {
            Some(Seq::empty())
        },
    }
}

/// The complaint about a directory that belongs to someone else.
pub open spec fn foreign_dir_message(uid: u32, us: u32) -> Seq<char> {
    "download path belongs to uid "@ + decimal(uid as nat) + ", not to us (uid "@ + decimal(
        us as nat,
    ) + "); refusing to use it"@
}

/// Whether `e` is the reason to refuse the path.
pub open spec fn refuses_dir(
    e: Error,
    path: Seq<char>,
    meta: Result<DirMeta, IoError>,
    us: u32,
) -> bool {
    match meta {
        Err(io) => reports_io(e, io, path, "Reading metadata"@),
        Ok(m) => e matches Error::IO(io, p, context) && p@ == path && if m.is_symlink || !m.is_dir {
            &&& io.kind == IoErrorKind::InvalidInput
            &&& io.message@
                == "download path is a symlink or not a directory; refusing to use it"@
            &&& context@ == "Checking dir"@
        } else {
            &&& io.kind == IoErrorKind::PermissionDenied
            &&& io.message@ == foreign_dir_message(m.uid, us)
            &&& context@ == "Checking owner"@
        },
    }
}

/// Where the path is accepted, it ends up as a directory that is no link, belongs to us, and that
/// neither group nor others can write into.
pub proof fn law_accepted_dir_becomes_private(
    meta: Result<DirMeta, IoError>,
    us: u32,
    umask_mode: u32,
)
    requires
        private_dir_ops(meta, us) is Some,
    ensures
        after_ops(dir_of(meta), private_dir_ops(meta, us)->0, us, umask_mode) matches Some(d)
            && d.real && d.uid == us && d.mode & SHARED_WRITE == 0,
{
    let ops = private_dir_ops(meta, us)->0;
    reveal_with_fuel(after_ops, 3);
    match meta {
        Err(_) => {
            assert(ops.drop_last().drop_last() =~= Seq::<DirOp>::empty());
            assert(ops.drop_last().last() == DirOp::CreateAll);
            assert(0o700u32 & 0o022u32 == 0) by (bit_vector);
        },
        Ok(m) => {
            let mode = m.mode;
            assert((mode & !0o022u32) & 0o022u32 == 0) by (bit_vector);
            if mode & SHARED_WRITE != 0 {
                assert(ops.drop_last() =~= Seq::<DirOp>::empty());
            }
        },
    }
}

/// A directory that is created is closed to everyone but its owner.
pub proof fn law_new_dir_is_owner_only(e: IoError, us: u32, umask_mode: u32)
    requires
        e.kind == IoErrorKind::NotFound,
    ensures
        private_dir_ops(Err::<DirMeta, IoError>(e), us) is Some,
        after_ops(None, private_dir_ops(Err::<DirMeta, IoError>(e), us)->0, us, umask_mode)
            matches Some(d) && d.mode == 0o700 && d.mode & 0o077 == 0,
{
    let ops = private_dir_ops(Err::<DirMeta, IoError>(e), us)->0;
    reveal_with_fuel(after_ops, 3);
    assert(ops.drop_last().drop_last() =~= Seq::<DirOp>::empty());
    assert(ops.drop_last().last() == DirOp::CreateAll);
    assert(0o700u32 & 0o077u32 == 0) by (bit_vector);
}

/// Tightening a directory takes nothing from its owner, and gives nothing to anyone.
pub proof fn law_tightening_only_removes_shared_write(m: DirMeta, us: u32, umask_mode: u32)
    requires
        private_dir_ops(Ok::<DirMeta, IoError>(m), us) is Some,
    ensures
        after_ops(
            dir_of(Ok::<DirMeta, IoError>(m)),
            private_dir_ops(Ok::<DirMeta, IoError>(m), us)->0,
            us,
            umask_mode,
        ) matches Some(d) && d.mode == m.mode & !SHARED_WRITE,
{
    let ops = private_dir_ops(Ok::<DirMeta, IoError>(m), us)->0;
    let mode = m.mode;
    reveal_with_fuel(after_ops, 3);
    assert(mode & 0o022u32 == 0 ==> mode & !0o022u32 == mode) by (bit_vector);
    if mode & SHARED_WRITE != 0 {
        assert(ops.drop_last() =~= Seq::<DirOp>::empty());
    }
}

/// A path is accepted exactly if there is nothing there, or a directory that is no link and belongs
/// to us. One that neither group nor others can write into is left as it is.
pub proof fn law_only_our_own_directory_is_accepted(
    meta: Result<DirMeta, IoError>,
    us: u32,
)
    ensures
        private_dir_ops(meta, us) is Some <==> match meta {
            Err(e) => e.kind is NotFound,
            Ok(m) => m.is_dir && !m.is_symlink && m.uid == us,
        },
        private_dir_ops(meta, us) matches Some(ops) ==> match meta {
            Err(_) => ops == seq![DirOp::CreateAll, DirOp::SetMode(0o700)],
            Ok(m) => {
                &&& m.mode & 0o022 == 0 ==> ops.len() == 0
                &&& m.mode & 0o022 != 0 ==> ops == seq![DirOp::SetMode(m.mode & !0o022u32)]
            },
        },
{
}

/// A directory that was made private needs nothing more: checking it again asks for no step.
pub proof fn law_private_dir_needs_no_step(m: DirMeta, us: u32, mode: u32)
    requires
        private_dir_ops(Ok::<DirMeta, IoError>(m), us) == Some(seq![DirOp::SetMode(mode)]),
    ensures
        private_dir_ops(Ok::<DirMeta, IoError>(DirMeta { mode, ..m }), us) == Some(
            Seq::<DirOp>::empty(),
        ),
{
    let old_mode = m.mode;
    let ops = private_dir_ops(Ok::<DirMeta, IoError>(m), us)->0;
    assert(ops[0] == DirOp::SetMode(mode));
    if old_mode & SHARED_WRITE == 0 {
        assert(ops.len() == 0);
    }
    assert(mode == old_mode & !SHARED_WRITE) by {
        assert(seq![DirOp::SetMode(old_mode & !SHARED_WRITE)][0] == DirOp::SetMode(mode));
    }
    assert((old_mode & !0o022u32) & 0o022u32 == 0) by (bit_vector);
}

/// A refusal says what is wrong with the path: it is a link or no directory, it belongs to someone
/// else, or it cannot be looked at.
pub proof fn law_refusal_says_what_is_wrong(
    e: Error,
    path: Seq<char>,
    meta: Result<DirMeta, IoError>,
    us: u32,
)
    requires
        refuses_dir(e, path, meta, us),
    ensures
        e matches Error::IO(io, p, context) && p@ == path && match meta {
            Err(cause) => io == cause && context@ == "Reading metadata"@,
            Ok(m) => if m.is_dir && !m.is_symlink {
                &&& io.kind is PermissionDenied
                &&& context@ == "Checking owner"@
                &&& io.message@ == "download path belongs to uid "@ + decimal(m.uid as nat)
                    + ", not to us (uid "@ + decimal(us as nat) + "); refusing to use it"@
            } else {
                &&& io.kind is InvalidInput
                &&& context@ == "Checking dir"@
            },
        },
{
}

/// A step that failed is told by what it was to do.
pub proof fn law_failed_step_is_told_by_its_name(mode: u32)
    ensures
        dir_op_context(DirOp::CreateAll) == "Creating dir"@,
        dir_op_context(DirOp::SetMode(mode)) == "Securing dir"@,
{
}

/// The steps that are left until a directory is private.
#[derive(Debug)]
pub struct DirSetup {
    path: String,
    left: Vec<DirOp>,
}

impl View for DirSetup {
    type V = (Seq<char>, Seq<DirOp>);

    closed spec fn view(&self) -> (Seq<char>, Seq<DirOp>) {
        (self.path@, self.left@)
    }
}

/// A directory that was found or made private. There is no other way to get one than to have
/// carried out the steps of `ensure_private_dir`.
#[derive(Debug)]
pub struct PrivateDir {
    path: String,
}

impl View for PrivateDir {
    type V = Seq<char>;

    /// The path of the directory.
    closed spec fn view(&self) -> Seq<char> {
        self.path@
    }
}

impl PrivateDir {
    /// The path of the directory.
    pub fn path(&self) -> (r: &str)
        ensures
            r@ == self@,
    {
        self.path.as_str()
    }
}

impl DirSetup {
    /// The next step, if one is left.
    pub fn next(&self) -> (r: Option<DirOp>)
        ensures
            r == (if self@.1.len() > 0 {
                Some(self@.1[0])
            } else {
                None
            }),
    {
        if self.left.len() > 0 {
            Some(self.left[0])
        } else {
            None
        }
    }

    /// Takes note of what the next step gave. One that failed is not done.
    pub fn answer(&mut self, done: Result<(), IoError>) -> (r: Result<(), Error>)
        requires
            old(self)@.1.len() > 0,
        ensures
            r is Ok <==> done is Ok,
            final(self)@.0 == old(self)@.0,
            final(self)@.1 == (if done is Ok {
                old(self)@.1.drop_first()
            } else {
                old(self)@.1
            }),
            done matches Err(io) ==> (r matches Err(e) && wraps_io(
                e,
                io,
                old(self)@.0,
                dir_op_context(old(self)@.1[0]),
            )),
    {
        match done {
            Ok(_) => {
                self.left.remove(0);
                assert(self@.1 =~= old(self)@.1.drop_first());
                Ok(())
            },
            Err(io) => Err(dir_op_failed(self.left[0], self.path.as_str(), io)),
        }
    }

    /// The directory, once no step is left.
    pub fn finish(self) -> (r: Option<PrivateDir>)
        ensures
            r is Some <==> self@.1.len() == 0,
            r matches Some(dir) ==> dir@ == self@.0,
    {
        if self.left.len() == 0 {
            Some(PrivateDir { path: self.path })
        } else {
            None
        }
    }
}

/// The steps that make `path` a directory only we can write into, or the reason to refuse it.
/// `meta` is what the file system says of the path, and `us` is our effective user.
///
/// Two things are checked, because either alone leaves a hole: a directory of someone else is
/// refused outright, and one that group or others can write into is tightened, since we own it.
pub fn ensure_private_dir(path: &str, us: u32, meta: Result<DirMeta, IoError>) -> (r: Result<
    DirSetup,
    Error,
>)
    ensures
        r is Ok <==> private_dir_ops(meta, us) is Some,
        r matches Ok(setup) ==> setup@ == (path@, private_dir_ops(meta, us)->0),
        r matches Err(e) ==> refuses_dir(e, path@, meta, us),
{
    match meta {
        Err(e) => {
            if e.kind == IoErrorKind::NotFound {
                let mut ops: Vec<DirOp> = Vec::new();
                ops.push(DirOp::CreateAll);
                ops.push(DirOp::SetMode(OWNER_ONLY));
                assert(ops@ =~= seq![DirOp::CreateAll, DirOp::SetMode(OWNER_ONLY)]);
                Ok(DirSetup { path: path.to_owned(), left: ops })
            } else {
                Err(Error::IO(e, path.to_owned(), "Reading metadata"))
            }
        },
        Ok(m) => {
            let mut ops: Vec<DirOp> = Vec::new();
            if m.is_symlink || !m.is_dir {
                let message =
                    "download path is a symlink or not a directory; refusing to use it".to_owned();
                Err(
                    Error::IO(
                        IoError { kind: IoErrorKind::InvalidInput, message },
                        path.to_owned(),
                        "Checking dir",
                    ),
                )
            } else if m.uid != us {
                let mut message = "download path belongs to uid ".to_owned();
                message.append(write_number(m.uid as u64).as_str());
                message.append(", not to us (uid ");
                message.append(write_number(us as u64).as_str());
                message.append("); refusing to use it");
                Err(
                    Error::IO(
                        IoError { kind: IoErrorKind::PermissionDenied, message },
                        path.to_owned(),
                        "Checking owner",
                    ),
                )
            } else {
                if m.mode & SHARED_WRITE != 0 {
                    ops.push(DirOp::SetMode(m.mode & !SHARED_WRITE));
                    assert(ops@ =~= seq![DirOp::SetMode(m.mode & !SHARED_WRITE)]);
                }
                Ok(DirSetup { path: path.to_owned(), left: ops })
            }
        },
    }
}

/// What was being done when a step failed.
pub open spec fn dir_op_context(op: DirOp) -> Seq<char> {
    match op {
        DirOp::CreateAll => "Creating dir"@,
        DirOp::SetMode(_) => "Securing dir"@,
    }
}

/// The error for a step that failed.
fn dir_op_failed(op: DirOp, path: &str, source: IoError) -> (r: Error)
    ensures
        wraps_io(r, source, path@, dir_op_context(op)),
{
    match op {
        DirOp::CreateAll => wrap_io_err(source, path, "Creating dir"),
        DirOp::SetMode(_) => wrap_io_err(source, path, "Securing dir"),
    }
}

} // verus!
