//! The file operations that wait to be carried out.
//!
//! Paths stand as their components, each as its bytes: that is how the queue tells them apart, so
//! `a//b` and `a/b` are one path.
use crate::text::optional_text;
use pkgar::{MergedTransaction, PackageFile, Transaction};
use vstd::prelude::*;

verus! {

/// A file operation: the target is replaced by the temporary file, or removed.
pub struct FileAction {
    pub temporary: Option<Seq<Seq<u8>>>,
    pub target: Seq<Seq<u8>>,
}

/// A file operation in the queue, with the archive that it came with.
pub struct QueuedAction {
    pub action: FileAction,
    pub origin: Option<Seq<char>>,
}

/// Two archives that would change the same file.
pub struct Clash {
    pub path: Seq<Seq<u8>>,
    pub former: Option<Seq<char>>,
    pub newer: Option<Seq<char>>,
}

/// The same as plain values.
#[derive(Debug)]
pub struct FileConflict {
    /// The components of the path.
    pub conflicted_path: Vec<Vec<u8>>,
    /// The archive whose operation is in the queue.
    pub former_src: Option<String>,
    /// The archive whose operation was left out.
    pub newer_src: Option<String>,
}

impl View for FileConflict {
    type V = Clash;

    open spec fn view(&self) -> Clash {
        Clash {
            path: self.conflicted_path@.map_values(|part: Vec<u8>| part@),
            former: optional_text(self.former_src),
            newer: optional_text(self.newer_src),
        }
    }
}

/// `pkgar::MergedTransaction`, the queue.
#[verifier::external_type_specification]
#[verifier::external_body]
pub struct ExMergedTransaction(MergedTransaction);

/// `pkgar::Transaction`, the file operations of one archive, or of the whole queue while they are
/// carried out.
#[verifier::external_type_specification]
#[verifier::external_body]
pub struct ExTransaction(Transaction);

/// `pkgar::PackageFile`, an archive or the header of one, opened with its key.
#[verifier::external_type_specification]
#[verifier::external_body]
pub struct ExPackageFile(PackageFile);

/// The file operations of the queue, in the order in which they came.
pub uninterp spec fn queued_actions(queue: MergedTransaction) -> Seq<QueuedAction>;

/// The clashes that the queue met, in the order in which they came.
pub uninterp spec fn met_clashes(queue: MergedTransaction) -> Seq<Clash>;

/// The file operations that a transaction still has to carry out, in the order of the queue. The
/// work starts at the end.
pub uninterp spec fn pending_actions(transaction: Transaction) -> Seq<FileAction>;

/// How many file operations a transaction has carried out.
pub uninterp spec fn committed_count(transaction: Transaction) -> nat;

/// The path of an archive, as text.
pub uninterp spec fn package_path(package: PackageFile) -> Seq<char>;

/// The hash in the header of an archive.
pub uninterp spec fn package_blake3(package: PackageFile) -> Seq<u8>;

/// The position of the operation on a path, or the length of the queue.
pub open spec fn holder(queue: Seq<QueuedAction>, target: Seq<Seq<u8>>) -> int
    decreases queue.len(),
{
    if queue.len() == 0 {
        0
    } else {
        let before = holder(queue.drop_last(), target);
        if before < queue.len() - 1 || queue.last().action.target == target {
            before
        } else {
            queue.len() as int
        }
    }
}

/// The queue after an operation came in: it is added unless there is one on its path.
pub open spec fn with_action(
    queue: Seq<QueuedAction>,
    action: FileAction,
    origin: Option<Seq<char>>,
) -> Seq<QueuedAction> {
    if holder(queue, action.target) < queue.len() {
        queue
    } else {
        queue.push(QueuedAction { action, origin })
    }
}

/// The clash that an operation meets, if any.
pub open spec fn clash_with(
    queue: Seq<QueuedAction>,
    action: FileAction,
    origin: Option<Seq<char>>,
) -> Seq<Clash> {
    let at = holder(queue, action.target);
    if at < queue.len() {
        seq![Clash { path: action.target, former: queue[at].origin, newer: origin }]
    } else {
        Seq::empty()
    }
}

/// The queue after the operations of an archive came in, one after the other.
pub open spec fn merged(
    queue: Seq<QueuedAction>,
    newer: Seq<FileAction>,
    origin: Option<Seq<char>>,
) -> Seq<QueuedAction>
    decreases newer.len(),
{
    if newer.len() == 0 {
        queue
    } else {
        with_action(merged(queue, newer.drop_last(), origin), newer.last(), origin)
    }
}

/// The clashes that the operations of an archive meet.
pub open spec fn clashes(
    queue: Seq<QueuedAction>,
    newer: Seq<FileAction>,
    origin: Option<Seq<char>>,
) -> Seq<Clash>
    decreases newer.len(),
{
    if newer.len() == 0 {
        Seq::empty()
    } else {
        clashes(queue, newer.drop_last(), origin) + clash_with(
            merged(queue, newer.drop_last(), origin),
            newer.last(),
            origin,
        )
    }
}

/// The path of an optional archive.
pub open spec fn origin_of(package: Option<&PackageFile>) -> Option<Seq<char>> {
    match package {
        Some(p) => Some(package_path(*p)),
        None => None,
    }
}

/// `MergedTransaction::new` gives an empty queue.
pub assume_specification[ MergedTransaction::new ]() -> (r: MergedTransaction)
    ensures
        queued_actions(r) == Seq::<QueuedAction>::empty(),
        met_clashes(r) == Seq::<Clash>::empty(),
;

/// `MergedTransaction::into_transaction` makes one transaction of the queue, of which nothing is
/// carried out yet.
pub assume_specification[ MergedTransaction::into_transaction ](queue: MergedTransaction) -> (r:
    Transaction)
    ensures
        pending_actions(r) == queued_actions(queue).map_values(|q: QueuedAction| q.action),
        committed_count(r) == 0,
;

/// `Transaction::pending_commit` counts what is still to be carried out.
pub assume_specification[ Transaction::pending_commit ](transaction: &Transaction) -> (r: usize)
    ensures
        r == pending_actions(*transaction).len(),
;

/// `Transaction::total_committed` counts what was carried out.
pub assume_specification[ Transaction::total_committed ](transaction: &Transaction) -> (r: usize)
    ensures
        r == committed_count(*transaction),
;

/// `MergedTransaction::merge` takes the operations of an archive into the queue. Where there is
/// one on the same path already, that one stays, and a clash is noted.
#[verifier::external_body]
pub(crate) fn merge(
    queue: &mut MergedTransaction,
    newer: Transaction,
    src: Option<&PackageFile>,
)
    ensures
        src matches Some(p) ==> queued_actions(*final(queue)) == merged(
            queued_actions(*old(queue)),
            pending_actions(newer),
            Some(package_path(*p)),
        ),
        src matches Some(p) ==> met_clashes(*final(queue)) == met_clashes(*old(queue)) + clashes(
            queued_actions(*old(queue)),
            pending_actions(newer),
            Some(package_path(*p)),
        ),
        src is None ==> queued_actions(*final(queue)) == merged(
            queued_actions(*old(queue)),
            pending_actions(newer),
            None,
        ),
        src is None ==> met_clashes(*final(queue)) == met_clashes(*old(queue)) + clashes(
            queued_actions(*old(queue)),
            pending_actions(newer),
            None,
        ),
{
    queue.merge(newer, src);
}

/// `MergedTransaction::get_possible_conflicts` lists the clashes that were met, with the paths cut
/// into their components.
#[verifier::external_body]
pub(crate) fn possible_conflicts(queue: &MergedTransaction) -> (r: Vec<FileConflict>)
    ensures
        r@.map_values(|c: FileConflict| c@) == met_clashes(*queue),
{
    queue.get_possible_conflicts().iter().map(
        |c|
            FileConflict {
                conflicted_path: c.conflicted_path.components().map(
                    |part| part.as_os_str().as_encoded_bytes().to_vec(),
                ).collect(),
                former_src: c.former_src.clone(),
                newer_src: c.newer_src.clone(),
            },
    ).collect()
}

/// `PackageSrc::header` of a `PackageFile` gives the header that was read and verified when the
/// file was opened. This is its hash.
#[verifier::external_body]
pub(crate) fn header_blake3(package: &PackageFile) -> (r: [u8; 32])
    ensures
        r@ == package_blake3(*package),
{
    pkgar_core::PackageSrc::header(package).blake3
}

/// Whether no two operations of a queue are on the same path.
pub open spec fn one_per_target(queue: Seq<QueuedAction>) -> bool {
    forall|i: int, j: int|
        0 <= i < j < queue.len() ==> (#[trigger] queue[i]).action.target != (
        #[trigger] queue[j]).action.target
}

proof fn lemma_holder(queue: Seq<QueuedAction>, target: Seq<Seq<u8>>)
    ensures
        0 <= holder(queue, target) <= queue.len(),
        holder(queue, target) < queue.len() ==> queue[holder(queue, target)].action.target
            == target,
        forall|i: int|
            0 <= i < holder(queue, target) ==> (#[trigger] queue[i]).action.target != target,
    decreases queue.len(),
{
    if queue.len() > 0 {
        lemma_holder(queue.drop_last(), target);
        assert forall|i: int| 0 <= i < holder(queue, target) implies (
        #[trigger] queue[i]).action.target != target by {
            if i < queue.len() - 1 {
                assert(queue.drop_last()[i] == queue[i]);
            }
        }
    }
}

/// However archives are merged, the queue never holds two operations on one path.
pub proof fn law_queue_changes_a_file_once(
    queue: Seq<QueuedAction>,
    newer: Seq<FileAction>,
    origin: Option<Seq<char>>,
)
    requires
        one_per_target(queue),
    ensures
        one_per_target(merged(queue, newer, origin)),
    decreases newer.len(),
{
    if newer.len() > 0 {
        law_queue_changes_a_file_once(queue, newer.drop_last(), origin);
        lemma_holder(merged(queue, newer.drop_last(), origin), newer.last().target);
    }
}

/// What is in the queue stays there, in its order, whatever is merged.
pub proof fn law_former_operations_stay(
    queue: Seq<QueuedAction>,
    newer: Seq<FileAction>,
    origin: Option<Seq<char>>,
)
    ensures
        queue.is_prefix_of(merged(queue, newer, origin)),
    decreases newer.len(),
{
    if newer.len() > 0 {
        law_former_operations_stay(queue, newer.drop_last(), origin);
    }
}

/// Whether a clash on a path is among those that were noted for an archive.
pub open spec fn clash_noted(
    noted: Seq<Clash>,
    path: Seq<Seq<u8>>,
    newer: Option<Seq<char>>,
) -> bool {
    exists|k: int|
        0 <= k < noted.len() && (#[trigger] noted[k]).path == path && noted[k].newer == newer
}

/// No operation of an archive is lost silently: each one is in the queue afterwards, or a clash on
/// its path was noted; and there are as many new ones and clashes together as operations.
pub proof fn law_nothing_is_lost_silently(
    queue: Seq<QueuedAction>,
    newer: Seq<FileAction>,
    origin: Option<Seq<char>>,
)
    ensures
        forall|i: int|
            0 <= i < newer.len() ==> merged(queue, newer, origin).contains(
                QueuedAction { action: #[trigger] newer[i], origin },
            ) || clash_noted(clashes(queue, newer, origin), newer[i].target, origin),
        merged(queue, newer, origin).len() + clashes(queue, newer, origin).len() == queue.len()
            + newer.len(),
    decreases newer.len(),
{
    if newer.len() > 0 {
        let shorter = newer.drop_last();
        let before = merged(queue, shorter, origin);
        let noted = clashes(queue, shorter, origin);
        let after = merged(queue, newer, origin);
        let all = clashes(queue, newer, origin);
        law_nothing_is_lost_silently(queue, shorter, origin);
        lemma_holder(before, newer.last().target);
        assert forall|i: int| 0 <= i < newer.len() implies after.contains(
            QueuedAction { action: #[trigger] newer[i], origin },
        ) || clash_noted(all, newer[i].target, origin) by {
            let item = QueuedAction { action: newer[i], origin };
            if i < newer.len() - 1 {
                assert(shorter[i] == newer[i]);
                if before.contains(item) {
                    let k = choose|k: int| 0 <= k < before.len() && before[k] == item;
                    assert(after[k] == item);
                } else {
                    let k = choose|k: int|
                        0 <= k < noted.len() && (#[trigger] noted[k]).path == newer[i].target
                            && noted[k].newer == origin;
                    assert(all[k] == noted[k]);
                }
            } else if holder(before, newer.last().target) < before.len() {
                assert(all[noted.len() as int].path == newer[i].target);
            } else {
                assert(after[before.len() as int] == item);
            }
        }
    }
}

/// A clash names both archives: the one whose operation on the path waits, and the one whose
/// operation was left out.
pub proof fn law_clash_names_both_archives(
    queue: Seq<QueuedAction>,
    newer: Seq<FileAction>,
    origin: Option<Seq<char>>,
    k: int,
)
    requires
        0 <= k < clashes(queue, newer, origin).len(),
    ensures
        ({
            let clash = clashes(queue, newer, origin)[k];
            &&& clash.newer == origin
            &&& exists|i: int| 0 <= i < newer.len() && (#[trigger] newer[i]).target == clash.path
            &&& exists|j: int|
                0 <= j < merged(queue, newer, origin).len() && (#[trigger] merged(
                    queue,
                    newer,
                    origin,
                )[j]).action.target == clash.path && merged(queue, newer, origin)[j].origin
                    == clash.former
        }),
    decreases newer.len(),
{
    let shorter = newer.drop_last();
    let before = merged(queue, shorter, origin);
    let noted = clashes(queue, shorter, origin);
    let after = merged(queue, newer, origin);
    let clash = clashes(queue, newer, origin)[k];
    law_former_operations_stay(before, seq![newer.last()], origin);
    lemma_holder(before, newer.last().target);
    if k < noted.len() {
        law_clash_names_both_archives(queue, shorter, origin, k);
        assert(noted[k] == clash);
        let i = choose|i: int| 0 <= i < shorter.len() && (#[trigger] shorter[i]).target == clash.path;
        assert(newer[i] == shorter[i]);
        let j = choose|j: int|
            0 <= j < before.len() && (#[trigger] before[j]).action.target == clash.path
                && before[j].origin == clash.former;
        assert(after[j] == before[j]);
    } else {
        let at = holder(before, newer.last().target);
        assert(newer[newer.len() - 1].target == clash.path);
        assert(after[at] == before[at]);
    }
}

/// An operation on a path that nothing before it is on is taken. One on a path that something waits
/// for already is not, and what waits stays as it is.
pub proof fn law_first_operation_on_a_path_is_taken(
    queue: Seq<QueuedAction>,
    newer: Seq<FileAction>,
    origin: Option<Seq<char>>,
    i: int,
)
    requires
        0 <= i < newer.len(),
    ensures
        (forall|k: int|
            0 <= k < queue.len() ==> (#[trigger] queue[k]).action.target != newer[i].target) && (
        forall|j: int| 0 <= j < i ==> (#[trigger] newer[j]).target != newer[i].target) ==> merged(
            queue,
            newer,
            origin,
        ).contains(QueuedAction { action: newer[i], origin }),
        (exists|k: int|
            0 <= k < queue.len() && (#[trigger] queue[k]).action.target == newer[i].target)
            ==> clash_noted(clashes(queue, newer, origin), newer[i].target, origin),
    decreases newer.len(),
{
    let shorter = newer.drop_last();
    let before = merged(queue, shorter, origin);
    let after = merged(queue, newer, origin);
    let noted = clashes(queue, shorter, origin);
    let all = clashes(queue, newer, origin);
    let target = newer[i].target;
    lemma_holder(before, newer.last().target);
    if i < newer.len() - 1 {
        law_first_operation_on_a_path_is_taken(queue, shorter, origin, i);
        assert(shorter[i] == newer[i]);
        assert(forall|j: int| 0 <= j < i ==> #[trigger] shorter[j] == newer[j]);
        let item = QueuedAction { action: newer[i], origin };
        if before.contains(item) {
            let k = choose|k: int| 0 <= k < before.len() && before[k] == item;
            assert(after[k] == item);
        }
        if clash_noted(noted, target, origin) {
            let k = choose|k: int|
                0 <= k < noted.len() && (#[trigger] noted[k]).path == target && noted[k].newer
                    == origin;
            assert(all[k] == noted[k]);
        }
    } else {
        let at = holder(before, target);
        if at < before.len() {
            assert(all[noted.len() as int].path == target);
            if (forall|k: int|
                0 <= k < queue.len() ==> (#[trigger] queue[k]).action.target != target) && (
            forall|j: int| 0 <= j < i ==> (#[trigger] newer[j]).target != target) {
                law_former_operations_stay(queue, shorter, origin);
                if at < queue.len() {
                    assert(queue[at] == before[at]);
                } else {
                    lemma_merged_from(queue, shorter, origin, at);
                    let j = choose|j: int|
                        0 <= j < shorter.len() && shorter[j] == before[at].action;
                    assert(newer[j] == shorter[j]);
                }
            }
        } else {
            assert(after[before.len() as int].action == newer[i]);
            if exists|k: int| 0 <= k < queue.len() && (#[trigger] queue[k]).action.target == target {
                let k = choose|k: int|
                    0 <= k < queue.len() && (#[trigger] queue[k]).action.target == target;
                law_former_operations_stay(queue, shorter, origin);
                assert(before[k] == queue[k]);
            }
        }
    }
}

/// What came to the queue came from the archive that was merged.
pub(crate) proof fn lemma_merged_from(
    queue: Seq<QueuedAction>,
    newer: Seq<FileAction>,
    origin: Option<Seq<char>>,
    k: int,
)
    requires
        queue.len() <= k < merged(queue, newer, origin).len(),
    ensures
        merged(queue, newer, origin)[k].origin == origin,
        newer.contains(merged(queue, newer, origin)[k].action),
    decreases newer.len(),
{
    let all = merged(queue, newer, origin);
    if newer.len() > 0 {
        let shorter = newer.drop_last();
        let before = merged(queue, shorter, origin);
        if k < before.len() {
            lemma_merged_from(queue, shorter, origin, k);
            let i = choose|i: int| 0 <= i < shorter.len() && shorter[i] == before[k].action;
            assert(newer[i] == shorter[i]);
        } else {
            assert(all[k].action == newer.last());
            assert(newer[newer.len() - 1] == newer.last());
        }
    }
}

/// Operations on distinct paths that come into an empty queue are all taken, and without a clash.
pub proof fn law_distinct_operations_are_all_queued(
    actions: Seq<FileAction>,
    origin: Option<Seq<char>>,
)
    requires
        forall|i: int, j: int|
            0 <= i < j < actions.len() ==> (#[trigger] actions[i]).target != (
            #[trigger] actions[j]).target,
    ensures
        merged(Seq::empty(), actions, origin) == actions.map_values(
            |a: FileAction| QueuedAction { action: a, origin },
        ),
        clashes(Seq::empty(), actions, origin) == Seq::<Clash>::empty(),
    decreases actions.len(),
{
    let all = merged(Seq::empty(), actions, origin);
    if actions.len() > 0 {
        let shorter = actions.drop_last();
        law_distinct_operations_are_all_queued(shorter, origin);
        let before = merged(Seq::empty(), shorter, origin);
        lemma_holder(before, actions.last().target);
        let at = holder(before, actions.last().target);
        if at < before.len() {
            assert(before[at].action == shorter[at]);
            assert(shorter[at] == actions[at]);
            assert(actions[actions.len() - 1].target != actions[at].target);
        }
        assert(all =~= before.push(QueuedAction { action: actions.last(), origin }));
    }
    assert(all =~= actions.map_values(|a: FileAction| QueuedAction { action: a, origin }));
}

} // verus!
