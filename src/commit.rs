//! Durable commit of the store file: write a temporary file beside the
//! target, make it durable, then rename it over the target. A reader, or a
//! restart after a crash at any point, sees the whole old file or the whole
//! new one.
use vstd::prelude::*;
use vstd::string::*;

verus! {

pub open spec fn ends_with(p: Seq<char>, suffix: Seq<char>) -> bool {
    p.len() >= suffix.len() && p.skip(p.len() - suffix.len()) == suffix
}

/// The path names a file: it is not empty, does not end in `/`, and its last
/// component is neither `.` nor `..`.
pub open spec fn names_file(p: Seq<char>) -> bool {
    &&& p.len() > 0
    &&& p.last() != '/'
    &&& p != "."@
    &&& p != ".."@
    &&& !ends_with(p, "/."@)
    &&& !ends_with(p, "/.."@)
}

pub open spec fn temp_path_of(target: Seq<char>) -> Seq<char> {
    target + ".tmp.dump"@
}

/// One step on the file system.
#[derive(Clone, Debug)]
pub enum FsAction {
    /// Create or truncate the file and write the contents.
    Write { path: String, contents: String },
    /// Make what was written to the file durable.
    Sync { path: String },
    /// Atomically replace `to` with `from`.
    Rename { from: String, to: String },
}

pub enum FsActionView {
    Write { path: Seq<char>, contents: Seq<char> },
    Sync { path: Seq<char> },
    Rename { from: Seq<char>, to: Seq<char> },
}

impl View for FsAction {
    type V = FsActionView;

    open spec fn view(&self) -> FsActionView {
        match self {
            FsAction::Write { path, contents } => FsActionView::Write {
                path: path@,
                contents: contents@,
            },
            FsAction::Sync { path } => FsActionView::Sync { path: path@ },
            FsAction::Rename { from, to } => FsActionView::Rename { from: from@, to: to@ },
        }
    }
}

/// The steps of committing `contents` to `target`.
pub open spec fn commit_plan(target: Seq<char>, contents: Seq<char>) -> Seq<FsActionView> {
    let temp = temp_path_of(target);
    seq![
        FsActionView::Write { path: temp, contents },
        FsActionView::Sync { path: temp },
        FsActionView::Rename { from: temp, to: target },
    ]
}

fn ends_with_str(p: &str, n: usize, suffix: &str) -> (r: bool)
    requires
        n == p@.len(),
    ensures
        r == ends_with(p@, suffix@),
{
    let m = suffix.unicode_len();
    if m > n {
        return false;
    }
    let mut i: usize = 0;
    while i < m
        invariant
            m <= n,
            n == p@.len(),
            m == suffix@.len(),
            i <= m,
            forall|j: int| 0 <= j < i ==> p@[n - m + j] == suffix@[j],
        decreases m - i,
    {
        if p.get_char(n - m + i) != suffix.get_char(i) {
            assert(p@.skip(n - m)[i as int] != suffix@[i as int]);
            return false;
        }
        i = i + 1;
    }
    assert(p@.skip(n - m) =~= suffix@);
    true
}

/// The temporary path for `target`: in the same directory, so that the
/// rename stays on one file system. `None` where `target` names no file.
pub fn temp_path(target: &str) -> (r: Option<String>)
    ensures
        match r {
            Some(t) => names_file(target@) && t@ == temp_path_of(target@),
            None => !names_file(target@),
        },
{
    let n = target.unicode_len();
    if n == 0 || target.get_char(n - 1) == '/' {
        return None;
    }
    if ends_with_str(target, n, "/.") || ends_with_str(target, n, "/..") {
        return None;
    }
    proof {
        reveal_strlit(".");
        reveal_strlit("..");
    }
    if n == 1 && target.get_char(0) == '.' {
        assert(target@ =~= "."@);
        return None;
    }
    if n == 2 && target.get_char(0) == '.' && target.get_char(1) == '.' {
        assert(target@ =~= ".."@);
        return None;
    }
    Some(String::from_str(target).concat(".tmp.dump"))
}

/// The steps that commit `contents` to `target`, or `None` where `target`
/// names no file.
pub fn commit_actions(target: &str, contents: String) -> (r: Option<Vec<FsAction>>)
    ensures
        match r {
            Some(v) => names_file(target@) && v@.map_values(|a: FsAction| a@) == commit_plan(
                target@,
                contents@,
            ),
            None => !names_file(target@),
        },
{
    let temp = match temp_path(target) {
        Some(t) => t,
        None => {
            return None;
        },
    };
    let mut v: Vec<FsAction> = Vec::new();
    v.push(FsAction::Write { path: temp.clone(), contents });
    v.push(FsAction::Sync { path: temp.clone() });
    v.push(FsAction::Rename { from: temp, to: String::from_str(target) });
    assert(v@.map_values(|a: FsAction| a@) =~= commit_plan(target@, contents@));
    Some(v)
}

/// What the file system holds: what survives a crash, and what was written
/// but not yet made durable.
pub struct DiskView {
    pub durable: Map<Seq<char>, Seq<char>>,
    pub pending: Map<Seq<char>, Seq<char>>,
}

pub open spec fn apply(disk: DiskView, a: FsActionView) -> DiskView {
    match a {
        FsActionView::Write { path, contents } => DiskView {
            pending: disk.pending.insert(path, contents),
            ..disk
        },
        FsActionView::Sync { path } => if disk.pending.contains_key(path) {
            DiskView {
                durable: disk.durable.insert(path, disk.pending[path]),
                pending: disk.pending.remove(path),
            }
        } else {
            disk
        },
        FsActionView::Rename { from, to } => if disk.durable.contains_key(from) {
            DiskView {
                durable: disk.durable.remove(from).insert(to, disk.durable[from]),
                ..disk
            }
        } else {
            disk
        },
    }
}

pub open spec fn apply_all(disk: DiskView, actions: Seq<FsActionView>) -> DiskView
    decreases actions.len(),
{
    if actions.len() == 0 {
        disk
    } else {
        apply(apply_all(disk, actions.drop_last()), actions.last())
    }
}

/// A crash after any number of the commit's steps: before the rename the
/// target holds exactly what it held before (present or absent), and after
/// it the target holds the new contents in full. What was pending at the
/// crash is lost.
pub proof fn lemma_commit_crash_safe(
    disk: DiskView,
    target: Seq<char>,
    contents: Seq<char>,
    k: int,
)
    requires
        names_file(target),
        0 <= k <= 3,
    ensures
        ({
            let after = apply_all(disk, commit_plan(target, contents).take(k)).durable;
            &&& k < 3 ==> after.contains_key(target) == disk.durable.contains_key(target)
            &&& k < 3 && disk.durable.contains_key(target) ==> after[target] == disk.durable[target]
            &&& k == 3 ==> after.contains_key(target) && after[target] == contents
        }),
{
    let plan = commit_plan(target, contents);
    let temp = temp_path_of(target);
    assert(temp.len() != target.len()) by {
        reveal_strlit(".tmp.dump");
    }
    assert(temp != target);
    assert(apply_all(disk, plan.take(0)) == disk);
    let d1 = apply_all(disk, plan.take(1));
    assert(plan.take(1).drop_last() =~= plan.take(0));
    assert(plan.take(2).drop_last() =~= plan.take(1));
    assert(plan.take(3).drop_last() =~= plan.take(2));
    assert(plan.take(1).last() == plan[0]);
    assert(plan.take(2).last() == plan[1]);
    assert(plan.take(3).last() == plan[2]);
    let d2 = apply_all(disk, plan.take(2));
    let d3 = apply_all(disk, plan.take(3));
    assert(d1.durable == disk.durable);
    assert(d1.pending.contains_key(temp) && d1.pending[temp] == contents);
    assert(d2.durable == disk.durable.insert(temp, contents));
    assert(d3.durable == d2.durable.remove(temp).insert(target, contents));
}

} // verus!
