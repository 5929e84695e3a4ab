//! Tree planner, size estimator and overwrite detector: from a stat of the
//! source, a walk of its tree and the run's options to an ordered copy
//! plan, the byte total that seeds the progress display, and the list of
//! destinations an execution of the plan would overwrite.

use vstd::prelude::*;
use crate::arith::{sat_add, sat_add_u64};
use crate::cli::{spec_cli_patterns, Cli};
use crate::exclude::spec_excluded;
use crate::paths::{join_path, file_name_of, spec_file_name, spec_join};

verus! {

/// What kind of object a tree entry or plan item is.
#[derive(Clone, Copy, Debug, PartialEq, Eq, Structural)]
pub enum EntryKind {
    Directory,
    File,
}

/// What a stat of the source path reported: missing, a regular file with
/// its size in bytes, or a directory.
#[derive(Clone, Copy, Debug, PartialEq, Eq, Structural)]
pub enum SourceStat {
    Missing,
    File(u64),
    Directory,
}

/// One entry of the walked source tree, below the root: its path relative
/// to the source root, its kind, and its size in bytes (zero for a
/// directory). A walk hands entries over parent before child.
#[derive(Clone, Debug)]
pub struct TreeEntry {
    pub rel_path: String,
    pub kind: EntryKind,
    pub size: u64,
}

/// One unit of work: a directory to create or a file to transfer, with
/// its full source and destination paths.
#[derive(Clone, Debug)]
pub struct CopyPlanItem {
    pub source_path: String,
    pub destination_path: String,
    pub kind: EntryKind,
}

/// A plan item as the specifications see it.
#[verifier::ext_equal]
pub ghost struct PlanItemView {
    pub source_path: Seq<char>,
    pub destination_path: Seq<char>,
    pub kind: EntryKind,
}

impl DeepView for CopyPlanItem {
    type V = PlanItemView;

    open spec fn deep_view(&self) -> PlanItemView {
        PlanItemView {
            source_path: self.source_path@,
            destination_path: self.destination_path@,
            kind: self.kind,
        }
    }
}

/// Why a run ends without completing. `UserCancelled` is a normal
/// termination, every other variant is fatal.
#[derive(Clone, Copy, Debug, PartialEq, Eq, Structural)]
pub enum CopyError {
    /// The source is missing or inaccessible.
    SourceNotFound,
    /// The source is a directory and the recursive flag is off.
    NotRecursive,
    /// The source path has no extractable file or directory name.
    InvalidName,
    /// A read, write, metadata, permission or timestamp operation failed.
    IoFailure,
    /// The user declined the overwrite confirmation.
    UserCancelled,
}

/// The planner keeps a tree entry exactly when its full source path is
/// not excluded.
pub open spec fn entry_included(src: Seq<char>, patterns: Seq<Seq<char>>, e: TreeEntry) -> bool {
    !spec_excluded(spec_join(src, e.rel_path@), patterns)
}

/// The plan item a kept tree entry turns into: source and destination are
/// the entry's relative path under the source root and the resolved
/// destination root.
pub open spec fn item_of_entry(src: Seq<char>, root: Seq<char>, e: TreeEntry) -> PlanItemView {
    PlanItemView {
        source_path: spec_join(src, e.rel_path@),
        destination_path: spec_join(root, e.rel_path@),
        kind: e.kind,
    }
}

/// The items planned for the walked entries, in walk order, keeping
/// exactly the entries whose full source path is not excluded.
pub open spec fn spec_plan_entries(
    src: Seq<char>,
    root: Seq<char>,
    patterns: Seq<Seq<char>>,
    entries: Seq<TreeEntry>,
) -> Seq<PlanItemView>
    decreases entries.len(),
{
    if entries.len() == 0 {
        Seq::empty()
    } else {
        let init = spec_plan_entries(src, root, patterns, entries.drop_last());
        if entry_included(src, patterns, entries.last()) {
            init.push(item_of_entry(src, root, entries.last()))
        } else {
            init
        }
    }
}

/// The directory-creation item for the resolved destination root.
pub open spec fn root_item(src: Seq<char>, root: Seq<char>) -> PlanItemView {
    PlanItemView { source_path: src, destination_path: root, kind: EntryKind::Directory }
}

/// The whole planning rule. An excluded source yields an empty plan; a
/// missing source fails; a file goes to the destination itself, or under
/// it when the destination is a directory; a directory source demands the
/// recursive flag and yields the root directory item followed by one item
/// per kept entry, in walk order.
pub open spec fn spec_plan(
    src: Seq<char>,
    dst: Seq<char>,
    stat: SourceStat,
    dst_is_dir: bool,
    recursive: bool,
    entries: Seq<TreeEntry>,
    patterns: Seq<Seq<char>>,
) -> Result<Seq<PlanItemView>, CopyError> {
    if spec_excluded(src, patterns) {
        Ok(Seq::empty())
    } else {
        match stat {
            SourceStat::Missing => Err(CopyError::SourceNotFound),
            SourceStat::File(_) => {
                if dst_is_dir {
                    match spec_file_name(src) {
                        None => Err(CopyError::InvalidName),
                        Some(nm) => Ok(
                            seq![
                                PlanItemView {
                                    source_path: src,
                                    destination_path: spec_join(dst, nm),
                                    kind: EntryKind::File,
                                },
                            ],
                        ),
                    }
                } else {
                    Ok(
                        seq![
                            PlanItemView {
                                source_path: src,
                                destination_path: dst,
                                kind: EntryKind::File,
                            },
                        ],
                    )
                }
            },
            SourceStat::Directory => {
                if !recursive {
                    Err(CopyError::NotRecursive)
                } else if dst_is_dir {
                    match spec_file_name(src) {
                        None => Err(CopyError::InvalidName),
                        Some(nm) => Ok(
                            seq![root_item(src, spec_join(dst, nm))] + spec_plan_entries(
                                src,
                                spec_join(dst, nm),
                                patterns,
                                entries,
                            ),
                        ),
                    }
                } else {
                    Ok(
                        seq![root_item(src, dst)] + spec_plan_entries(src, dst, patterns, entries),
                    )
                }
            },
        }
    }
}

/// Builds the ordered copy plan for one run.
pub fn plan_copy(
    src: &str,
    dst: &str,
    stat: SourceStat,
    dst_is_dir: bool,
    recursive: bool,
    entries: &Vec<TreeEntry>,
    cli: &Cli,
) -> (r: Result<Vec<CopyPlanItem>, CopyError>)
    ensures
        ({
            let sp = spec_plan(
                src@,
                dst@,
                stat,
                dst_is_dir,
                recursive,
                entries@,
                spec_cli_patterns(cli),
            );
            match r {
                Ok(plan) => sp == Ok::<Seq<PlanItemView>, CopyError>(plan.deep_view()),
                Err(e) => sp == Err::<Seq<PlanItemView>, CopyError>(e),
            }
        }),
{
    let ghost patterns = spec_cli_patterns(cli);
    if cli.should_exclude(src) {
        let plan: Vec<CopyPlanItem> = Vec::new();
        proof {
            assert(plan.deep_view() =~= Seq::<PlanItemView>::empty());
        }
        return Ok(plan);
    }
    match stat {
        SourceStat::Missing => Err(CopyError::SourceNotFound),
        SourceStat::File(_) => {
            let dest: String = if dst_is_dir {
                match file_name_of(src) {
                    None => {
                        return Err(CopyError::InvalidName);
                    },
                    Some(nm) => join_path(dst, nm.as_str()),
                }
            } else {
                String::from_str(dst)
            };
            let mut plan: Vec<CopyPlanItem> = Vec::new();
            plan.push(
                CopyPlanItem {
                    source_path: String::from_str(src),
                    destination_path: dest,
                    kind: EntryKind::File,
                },
            );
            proof {
                let sp = spec_plan(src@, dst@, stat, dst_is_dir, recursive, entries@, patterns);
                assert(plan.deep_view() =~= sp.unwrap());
            }
            Ok(plan)
        },
        SourceStat::Directory => {
            if !recursive {
                return Err(CopyError::NotRecursive);
            }
            let root: String = if dst_is_dir {
                match file_name_of(src) {
                    None => {
                        return Err(CopyError::InvalidName);
                    },
                    Some(nm) => join_path(dst, nm.as_str()),
                }
            } else {
                String::from_str(dst)
            };
            let mut plan: Vec<CopyPlanItem> = Vec::new();
            plan.push(
                CopyPlanItem {
                    source_path: String::from_str(src),
                    destination_path: root.clone(),
                    kind: EntryKind::Directory,
                },
            );
            proof {
                assert(plan.deep_view() =~= seq![root_item(src@, root@)] + spec_plan_entries(
                    src@,
                    root@,
                    patterns,
                    entries@.take(0),
                ));
            }
            let mut idx: usize = 0;
            while idx < entries.len()
                invariant
                    idx <= entries.len(),
                    spec_cli_patterns(cli) == patterns,
                    plan.deep_view() =~= seq![root_item(src@, root@)] + spec_plan_entries(
                        src@,
                        root@,
                        patterns,
                        entries@.take(idx as int),
                    ),
                decreases entries.len() - idx,
            {
                let e = &entries[idx];
                let full = join_path(src, e.rel_path.as_str());
                let excluded = cli.should_exclude(full.as_str());
                proof {
                    assert(entries@.take(idx + 1).drop_last() =~= entries@.take(idx as int));
                    assert(entries@.take(idx + 1).last() == entries@[idx as int]);
                }
                if !excluded {
                    let dest = join_path(root.as_str(), e.rel_path.as_str());
                    let ghost prev = plan@;
                    let ghost prev_dv = plan.deep_view();
                    plan.push(
                        CopyPlanItem {
                            source_path: full,
                            destination_path: dest,
                            kind: e.kind,
                        },
                    );
                    proof {
                        let cur = entries@[idx as int];
                        let q = spec_plan_entries(src@, root@, patterns, entries@.take(idx as int));
                        let rhs = seq![root_item(src@, root@)] + spec_plan_entries(
                            src@,
                            root@,
                            patterns,
                            entries@.take(idx + 1),
                        );
                        assert(entry_included(src@, patterns, cur));
                        assert(spec_plan_entries(src@, root@, patterns, entries@.take(idx + 1))
                            == q.push(item_of_entry(src@, root@, cur)));
                        let item = item_of_entry(src@, root@, cur);
                        assert(prev_dv.len() == prev.len());
                        assert(prev_dv == seq![root_item(src@, root@)] + q);
                        assert(rhs.len() == plan@.len());
                        assert forall|j: int| 0 <= j < plan@.len() implies plan.deep_view()[j]
                            == rhs[j] by {
                            assert(plan.deep_view()[j] == plan@[j].deep_view());
                            if j < prev.len() {
                                assert(plan@[j] == prev[j]);
                                assert(prev_dv[j] == prev[j].deep_view());
                                assert(prev_dv[j] == (seq![root_item(src@, root@)] + q)[j]);
                                if j == 0 {
                                    assert(rhs[0] == root_item(src@, root@));
                                    assert(prev_dv[0] == root_item(src@, root@));
                                } else {
                                    assert(rhs[j] == q.push(item)[j - 1]);
                                    assert(q.push(item)[j - 1] == q[j - 1]);
                                    assert(prev_dv[j] == q[j - 1]);
                                }
                            } else {
                                assert(plan@[j].deep_view() == item);
                                assert(rhs[j] == q.push(item)[j - 1]);
                                assert(q.push(item)[j - 1] == item);
                            }
                        }
                        assert(plan.deep_view().len() == plan@.len());
                        assert(plan.deep_view() =~= rhs);
                    }
                } else {
                    proof {
                        assert(spec_plan_entries(src@, root@, patterns, entries@.take(idx + 1))
                            =~= spec_plan_entries(src@, root@, patterns, entries@.take(idx as int)));
                    }
                }
                idx += 1;
            }
            proof {
                assert(entries@.take(entries@.len() as int) =~= entries@);
            }
            Ok(plan)
        },
    }
}

/// The size a tree entry contributes to the estimate: its byte size when
/// it is a kept file, nothing otherwise.
pub open spec fn included_file_size(src: Seq<char>, patterns: Seq<Seq<char>>, e: TreeEntry) -> u64 {
    if e.kind == EntryKind::File && entry_included(src, patterns, e) {
        e.size
    } else {
        0
    }
}

/// The saturating sum of the sizes of the kept files among the walked
/// entries.
pub open spec fn spec_tree_size(
    src: Seq<char>,
    patterns: Seq<Seq<char>>,
    entries: Seq<TreeEntry>,
) -> u64
    decreases entries.len(),
{
    if entries.len() == 0 {
        0
    } else {
        sat_add(
            spec_tree_size(src, patterns, entries.drop_last()),
            included_file_size(src, patterns, entries.last()),
        )
    }
}

/// What the size estimator reports: the kept files of a walked directory
/// tree, a kept single file's size, and nothing for anything else.
pub open spec fn spec_total_size(
    src: Seq<char>,
    stat: SourceStat,
    recursive: bool,
    entries: Seq<TreeEntry>,
    patterns: Seq<Seq<char>>,
) -> u64 {
    match stat {
        SourceStat::Directory => {
            if recursive {
                spec_tree_size(src, patterns, entries)
            } else {
                0
            }
        },
        SourceStat::File(size) => {
            if !spec_excluded(src, patterns) {
                size
            } else {
                0
            }
        },
        SourceStat::Missing => 0,
    }
}

/// Sums the sizes of every file the planner would copy, honoring the same
/// exclusions; the result seeds the progress total before the transfer
/// begins.
pub fn get_total_size(
    src: &str,
    stat: SourceStat,
    recursive: bool,
    entries: &Vec<TreeEntry>,
    cli: &Cli,
) -> (r: u64)
    ensures
        r == spec_total_size(src@, stat, recursive, entries@, spec_cli_patterns(cli)),
{
    let ghost patterns = spec_cli_patterns(cli);
    match stat {
        SourceStat::Directory => {
            if !recursive {
                return 0;
            }
            let mut total: u64 = 0;
            let mut idx: usize = 0;
            while idx < entries.len()
                invariant
                    idx <= entries.len(),
                    spec_cli_patterns(cli) == patterns,
                    total == spec_tree_size(src@, patterns, entries@.take(idx as int)),
                decreases entries.len() - idx,
            {
                let e = &entries[idx];
                proof {
                    assert(entries@.take(idx + 1).drop_last() =~= entries@.take(idx as int));
                    assert(entries@.take(idx + 1).last() == entries@[idx as int]);
                }
                let is_file = match e.kind {
                    EntryKind::File => true,
                    EntryKind::Directory => false,
                };
                if is_file {
                    let full = join_path(src, e.rel_path.as_str());
                    if !cli.should_exclude(full.as_str()) {
                        total = sat_add_u64(total, e.size);
                    } else {
                        proof {
                            assert(included_file_size(src@, patterns, entries@[idx as int]) == 0);
                        }
                    }
                }
                idx += 1;
            }
            proof {
                assert(entries@.take(entries@.len() as int) =~= entries@);
            }
            total
        },
        SourceStat::File(size) => {
            if !cli.should_exclude(src) {
                size
            } else {
                0
            }
        },
        SourceStat::Missing => 0,
    }
}

/// Every kept file entry reappears in the planned items: the estimator
/// and the planner keep exactly the same entries, so the estimate is the
/// saturating sum over precisely the files the plan copies.
pub proof fn lemma_plan_keeps_entry(
    src: Seq<char>,
    root: Seq<char>,
    patterns: Seq<Seq<char>>,
    entries: Seq<TreeEntry>,
    i: int,
)
    requires
        0 <= i < entries.len(),
        entry_included(src, patterns, entries[i]),
    ensures
        spec_plan_entries(src, root, patterns, entries).contains(
            item_of_entry(src, root, entries[i]),
        ),
    decreases entries.len(),
{
    let p = spec_plan_entries(src, root, patterns, entries);
    if i == entries.len() - 1 {
        assert(p.last() == item_of_entry(src, root, entries[i]));
    } else {
        lemma_plan_keeps_entry(src, root, patterns, entries.drop_last(), i);
        let q = spec_plan_entries(src, root, patterns, entries.drop_last());
        let k = choose|k: int| 0 <= k < q.len() && q[k] == item_of_entry(src, root, entries[i]);
        assert(p[k] == item_of_entry(src, root, entries[i]));
    }
}

/// Conversely, every planned item comes from a kept entry: the plan holds
/// nothing the walk did not report and the exclusions did not keep.
pub proof fn lemma_plan_item_from_entry(
    src: Seq<char>,
    root: Seq<char>,
    patterns: Seq<Seq<char>>,
    entries: Seq<TreeEntry>,
    k: int,
)
    requires
        0 <= k < spec_plan_entries(src, root, patterns, entries).len(),
    ensures
        exists|i: int|
            0 <= i < entries.len() && entry_included(src, patterns, #[trigger] entries[i])
                && spec_plan_entries(src, root, patterns, entries)[k] == item_of_entry(
                src,
                root,
                entries[i],
            ),
    decreases entries.len(),
{
    let p = spec_plan_entries(src, root, patterns, entries);
    let q = spec_plan_entries(src, root, patterns, entries.drop_last());
    if k < q.len() {
        lemma_plan_item_from_entry(src, root, patterns, entries.drop_last(), k);
        let i = choose|i: int|
            0 <= i < entries.drop_last().len() && entry_included(
                src,
                patterns,
                #[trigger] entries.drop_last()[i],
            ) && q[k] == item_of_entry(src, root, entries.drop_last()[i]);
        assert(entries[i] == entries.drop_last()[i]);
        assert(p[k] == q[k]);
    } else {
        assert(entry_included(src, patterns, entries.last()));
        assert(p[k] == item_of_entry(src, root, entries[entries.len() - 1]));
    }
}

/// The position a walk entry's item takes in the planned items: the
/// count of kept entries before it.
pub open spec fn plan_pos(
    src: Seq<char>,
    root: Seq<char>,
    patterns: Seq<Seq<char>>,
    entries: Seq<TreeEntry>,
    i: int,
) -> int {
    spec_plan_entries(src, root, patterns, entries.take(i)).len() as int
}

proof fn lemma_plan_take_prefix(
    src: Seq<char>,
    root: Seq<char>,
    patterns: Seq<Seq<char>>,
    entries: Seq<TreeEntry>,
    i: int,
)
    requires
        0 <= i <= entries.len(),
    ensures
        plan_pos(src, root, patterns, entries, i) <= spec_plan_entries(
            src,
            root,
            patterns,
            entries,
        ).len(),
        spec_plan_entries(src, root, patterns, entries).subrange(
            0,
            plan_pos(src, root, patterns, entries, i),
        ) == spec_plan_entries(src, root, patterns, entries.take(i)),
    decreases entries.len() - i,
{
    let p = spec_plan_entries(src, root, patterns, entries);
    if i == entries.len() {
        assert(entries.take(i) =~= entries);
        assert(p.subrange(0, p.len() as int) =~= p);
    } else {
        lemma_plan_take_prefix(src, root, patterns, entries, i + 1);
        assert(entries.take(i + 1).drop_last() =~= entries.take(i));
        assert(entries.take(i + 1).last() == entries[i]);
        let qi = spec_plan_entries(src, root, patterns, entries.take(i));
        let qi1 = spec_plan_entries(src, root, patterns, entries.take(i + 1));
        assert(p.subrange(0, qi.len() as int) =~= qi) by {
            assert(forall|k: int|
                0 <= k < qi.len() ==> p.subrange(0, qi1.len() as int)[k] == #[trigger] p[k]);
            assert(forall|k: int| 0 <= k < qi.len() ==> qi1[k] == #[trigger] qi[k]);
        }
    }
}

proof fn lemma_plan_pos_step(
    src: Seq<char>,
    root: Seq<char>,
    patterns: Seq<Seq<char>>,
    entries: Seq<TreeEntry>,
    i: int,
)
    requires
        0 <= i < entries.len(),
    ensures
        plan_pos(src, root, patterns, entries, i) <= plan_pos(src, root, patterns, entries, i + 1),
        plan_pos(src, root, patterns, entries, i + 1) <= plan_pos(src, root, patterns, entries, i)
            + 1,
        entry_included(src, patterns, entries[i]) ==> plan_pos(src, root, patterns, entries, i + 1)
            == plan_pos(src, root, patterns, entries, i) + 1,
{
    assert(entries.take(i + 1).drop_last() =~= entries.take(i));
    assert(entries.take(i + 1).last() == entries[i]);
}

proof fn lemma_plan_pos_monotone(
    src: Seq<char>,
    root: Seq<char>,
    patterns: Seq<Seq<char>>,
    entries: Seq<TreeEntry>,
    a: int,
    b: int,
)
    requires
        0 <= a <= b <= entries.len(),
    ensures
        plan_pos(src, root, patterns, entries, a) <= plan_pos(src, root, patterns, entries, b),
    decreases b - a,
{
    if a < b {
        lemma_plan_pos_step(src, root, patterns, entries, a);
        lemma_plan_pos_monotone(src, root, patterns, entries, a + 1, b);
    }
}

/// A kept entry's item stands exactly at its plan position.
pub proof fn lemma_plan_item_at(
    src: Seq<char>,
    root: Seq<char>,
    patterns: Seq<Seq<char>>,
    entries: Seq<TreeEntry>,
    i: int,
)
    requires
        0 <= i < entries.len(),
        entry_included(src, patterns, entries[i]),
    ensures
        0 <= plan_pos(src, root, patterns, entries, i) < spec_plan_entries(
            src,
            root,
            patterns,
            entries,
        ).len(),
        spec_plan_entries(src, root, patterns, entries)[plan_pos(src, root, patterns, entries, i)]
            == item_of_entry(src, root, entries[i]),
{
    let p = spec_plan_entries(src, root, patterns, entries);
    let pos = plan_pos(src, root, patterns, entries, i);
    lemma_plan_take_prefix(src, root, patterns, entries, i + 1);
    assert(entries.take(i + 1).drop_last() =~= entries.take(i));
    assert(entries.take(i + 1).last() == entries[i]);
    let qi1 = spec_plan_entries(src, root, patterns, entries.take(i + 1));
    assert(qi1[pos] == item_of_entry(src, root, entries[i]));
    assert(p.subrange(0, qi1.len() as int)[pos] == p[pos]);
}

/// The plan keeps the walk's order: of two kept entries, the one the
/// walk reported first is planned first. With a depth-first walk this is
/// what puts every directory before its contents.
pub proof fn lemma_plan_preserves_walk_order(
    src: Seq<char>,
    root: Seq<char>,
    patterns: Seq<Seq<char>>,
    entries: Seq<TreeEntry>,
    i: int,
    j: int,
)
    requires
        0 <= i < j < entries.len(),
        entry_included(src, patterns, entries[i]),
        entry_included(src, patterns, entries[j]),
    ensures
        plan_pos(src, root, patterns, entries, i) < plan_pos(src, root, patterns, entries, j),
        spec_plan_entries(src, root, patterns, entries)[plan_pos(src, root, patterns, entries, i)]
            == item_of_entry(src, root, entries[i]),
        spec_plan_entries(src, root, patterns, entries)[plan_pos(src, root, patterns, entries, j)]
            == item_of_entry(src, root, entries[j]),
{
    lemma_plan_item_at(src, root, patterns, entries, i);
    lemma_plan_item_at(src, root, patterns, entries, j);
    lemma_plan_pos_step(src, root, patterns, entries, i);
    lemma_plan_pos_monotone(src, root, patterns, entries, i + 1, j);
}

/// Directories are created before anything beneath them: when the walk
/// reports a directory before an entry below it, a kept child forces the
/// directory to be kept too (any pattern that excludes the directory's
/// path also excludes the child's), and the plan creates the directory
/// first.
pub proof fn lemma_parent_directory_precedes_child(
    src: Seq<char>,
    root: Seq<char>,
    patterns: Seq<Seq<char>>,
    entries: Seq<TreeEntry>,
    i: int,
    j: int,
)
    requires
        0 <= i < j < entries.len(),
        entries[i].kind == EntryKind::Directory,
        entries[i].rel_path@.len() < entries[j].rel_path@.len(),
        entries[j].rel_path@.subrange(0, entries[i].rel_path@.len() as int) == entries[
            i
        ].rel_path@,
        entry_included(src, patterns, entries[j]),
    ensures
        entry_included(src, patterns, entries[i]),
        plan_pos(src, root, patterns, entries, i) < plan_pos(src, root, patterns, entries, j),
        spec_plan_entries(src, root, patterns, entries)[plan_pos(src, root, patterns, entries, i)]
            == item_of_entry(src, root, entries[i]),
        spec_plan_entries(src, root, patterns, entries)[plan_pos(src, root, patterns, entries, j)]
            == item_of_entry(src, root, entries[j]),
{
    let ri = entries[i].rel_path@;
    let rj = entries[j].rel_path@;
    let fi = spec_join(src, ri);
    let fj = spec_join(src, rj);
    assert(fj.subrange(0, fi.len() as int) =~= fi) by {
        assert(forall|t: int| 0 <= t < ri.len() ==> #[trigger] rj[t] == ri[t]) by {
            assert(forall|t: int|
                0 <= t < ri.len() ==> #[trigger] rj.subrange(0, ri.len() as int)[t] == rj[t]);
        }
    }
    crate::exclude::lemma_excluded_descendants(fi, fj, patterns);
    lemma_plan_preserves_walk_order(src, root, patterns, entries, i, j);
}

/// The estimator and the planner keep exactly the same entries: a walked
/// file's bytes count toward the estimate precisely when the plan holds
/// its copy item, so the estimate is the saturating sum over exactly the
/// files the plan copies.
pub proof fn lemma_estimator_plan_consistency(
    src: Seq<char>,
    root: Seq<char>,
    patterns: Seq<Seq<char>>,
    entries: Seq<TreeEntry>,
    i: int,
)
    requires
        0 <= i < entries.len(),
        entries[i].kind == EntryKind::File,
    ensures
        spec_plan_entries(src, root, patterns, entries).contains(
            item_of_entry(src, root, entries[i]),
        ) ==> included_file_size(src, patterns, entries[i]) == entries[i].size,
        !spec_plan_entries(src, root, patterns, entries).contains(
            item_of_entry(src, root, entries[i]),
        ) ==> included_file_size(src, patterns, entries[i]) == 0,
{
    let p = spec_plan_entries(src, root, patterns, entries);
    let it = item_of_entry(src, root, entries[i]);
    if p.contains(it) {
        if !entry_included(src, patterns, entries[i]) {
            let k = choose|k: int| 0 <= k < p.len() && p[k] == it;
            lemma_plan_item_from_entry(src, root, patterns, entries, k);
            let j = choose|j: int|
                0 <= j < entries.len() && entry_included(src, patterns, #[trigger] entries[j])
                    && p[k] == item_of_entry(src, root, entries[j]);
            let ri = entries[i].rel_path@;
            let rj = entries[j].rel_path@;
            assert(spec_join(src, rj) == spec_join(src, ri));
            assert(rj =~= ri) by {
                assert(forall|t: int|
                    0 <= t < ri.len() ==> spec_join(src, ri)[src.len() + 1 + t] == #[trigger] ri[
                        t
                    ]);
                assert(forall|t: int|
                    0 <= t < rj.len() ==> spec_join(src, rj)[src.len() + 1 + t] == #[trigger] rj[
                        t
                    ]);
            }
            assert(entry_included(src, patterns, entries[i]));
        }
    } else {
        if entry_included(src, patterns, entries[i]) {
            lemma_plan_keeps_entry(src, root, patterns, entries, i);
        }
    }
}

/// A destination that already exists and would be written over.
#[derive(Clone, Debug)]
pub struct FileToOverwrite {
    pub path: String,
    pub is_dir: bool,
}

/// An overwrite record as the specifications see it.
#[verifier::ext_equal]
pub ghost struct OverwriteView {
    pub path: Seq<char>,
    pub is_dir: bool,
}

impl DeepView for FileToOverwrite {
    type V = OverwriteView;

    open spec fn deep_view(&self) -> OverwriteView {
        OverwriteView { path: self.path@, is_dir: self.is_dir }
    }
}

/// The overwrite records of a plan, given which planned destinations
/// already exist, in plan order.
pub open spec fn spec_overwrites(plan: Seq<PlanItemView>, dest_exists: Seq<bool>) -> Seq<
    OverwriteView,
>
    decreases plan.len(),
{
    if plan.len() == 0 {
        Seq::empty()
    } else {
        let init = spec_overwrites(plan.drop_last(), dest_exists.drop_last());
        if dest_exists.last() {
            init.push(
                OverwriteView {
                    path: plan.last().destination_path,
                    is_dir: plan.last().kind == EntryKind::Directory,
                },
            )
        } else {
            init
        }
    }
}

/// Emits one record per plan item whose destination already exists on the
/// file system; `dest_exists[i]` reports the stat of item `i`'s
/// destination.
pub fn check_overwrites(plan: &Vec<CopyPlanItem>, dest_exists: &Vec<bool>) -> (r: Vec<
    FileToOverwrite,
>)
    requires
        dest_exists@.len() == plan@.len(),
    ensures
        r.deep_view() == spec_overwrites(plan.deep_view(), dest_exists@),
{
    let mut out: Vec<FileToOverwrite> = Vec::new();
    proof {
        assert(out.deep_view() =~= spec_overwrites(
            plan.deep_view().take(0),
            dest_exists@.take(0),
        ));
    }
    let mut idx: usize = 0;
    while idx < plan.len()
        invariant
            idx <= plan@.len(),
            dest_exists@.len() == plan@.len(),
            plan.deep_view().len() == plan@.len(),
            out.deep_view() =~= spec_overwrites(
                plan.deep_view().take(idx as int),
                dest_exists@.take(idx as int),
            ),
        decreases plan@.len() - idx,
    {
        proof {
            assert(plan.deep_view().take(idx + 1).drop_last() =~= plan.deep_view().take(
                idx as int,
            ));
            assert(dest_exists@.take(idx + 1).drop_last() =~= dest_exists@.take(idx as int));
            assert(plan.deep_view().take(idx + 1).last() == plan.deep_view()[idx as int]);
            assert(dest_exists@.take(idx + 1).last() == dest_exists@[idx as int]);
        }
        if dest_exists[idx] {
            let item = &plan[idx];
            let is_dir = match item.kind {
                EntryKind::Directory => true,
                EntryKind::File => false,
            };
            out.push(FileToOverwrite { path: item.destination_path.clone(), is_dir });
            proof {
                assert(out.deep_view() =~= spec_overwrites(
                    plan.deep_view().take(idx + 1),
                    dest_exists@.take(idx + 1),
                ));
            }
        }
        idx += 1;
    }
    proof {
        assert(plan.deep_view().take(plan@.len() as int) =~= plan.deep_view());
        assert(dest_exists@.take(plan@.len() as int) =~= dest_exists@);
    }
    out
}

} // verus!
