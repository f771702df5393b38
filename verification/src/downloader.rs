//! The download phase's decisions: which entries become download tasks,
//! where each file goes, and when a response's status fails the task.
use vstd::prelude::*;

use crate::filename::{sanitize, spec_sanitize};
use crate::resolver::{spec_entry_views, spec_status_is_success, status_is_success, RenderUrlEntry};

verus! {

/// Why one download failed: the server answered with a non-success
/// status, or reading the body or writing the file failed. Each failure
/// is reported for its own task and never stops a sibling task.
#[derive(Clone, Copy, Debug, PartialEq, Eq, Structural)]
pub enum DownloadError {
    Http(u16),
    Io,
}

/// One unit of download work: fetch `url`, write the bytes to `dest`.
/// Created by the orchestrator, consumed exactly once.
pub struct DownloadTask {
    pub url: String,
    pub dest: String,
}

/// The views of a list of download tasks.
pub open spec fn spec_task_views(ts: Seq<DownloadTask>) -> Seq<(Seq<char>, Seq<char>)> {
    ts.map_values(|t: DownloadTask| (t.url@, t.dest@))
}

/// The destination of one downloaded asset: the sanitized node name with
/// a `.png` extension, inside the download directory.
pub open spec fn spec_png_destination(dir: Seq<char>, name: Seq<char>) -> Seq<char> {
    dir + "/"@ + spec_sanitize(name) + ".png"@
}

/// Builds the destination path `{dir}/{sanitizedName}.png`.
pub fn png_destination(dir: &str, name: &str) -> (r: String)
    ensures
        r@ == spec_png_destination(dir@, name@),
{
    let mut out = dir.to_owned();
    out.append("/");
    let sanitized = sanitize(name);
    out.append(sanitized.as_str());
    out.append(".png");
    out
}

/// The download plan: one task per entry whose URL is present, in order,
/// each aimed at the sanitized name inside the download directory.
/// Entries the service answered `null` for are passed over.
pub open spec fn spec_download_plan(
    entries: Seq<(Seq<char>, Option<Seq<char>>, Seq<char>)>,
    dir: Seq<char>,
) -> Seq<(Seq<char>, Seq<char>)>
    decreases entries.len(),
{
    if entries.len() == 0 {
        Seq::empty()
    } else {
        let rest = spec_download_plan(entries.subrange(0, entries.len() - 1), dir);
        let last = entries[entries.len() - 1];
        match last.1 {
            Some(url) => rest + seq![(url, spec_png_destination(dir, last.2))],
            None => rest,
        }
    }
}

/// Turns the resolved entries into download tasks: one task per entry
/// with a URL, none for the rest.
pub fn plan_downloads(entries: &Vec<RenderUrlEntry>, dir: &str) -> (r: Vec<DownloadTask>)
    ensures
        spec_task_views(r@) == spec_download_plan(spec_entry_views(entries@), dir@),
{
    let ghost views = spec_entry_views(entries@);
    let mut out: Vec<DownloadTask> = Vec::new();
    let mut i: usize = 0;
    while i < entries.len()
        invariant
            i <= entries@.len(),
            views == spec_entry_views(entries@),
            spec_task_views(out@) == spec_download_plan(views.subrange(0, i as int), dir@),
        decreases entries@.len() - i,
    {
        let ghost pre = out@;
        match &entries[i].url {
            Some(url) => {
                let dest = png_destination(dir, entries[i].name.as_str());
                out.push(DownloadTask { url: url.clone(), dest });
                proof {
                    assert(spec_task_views(out@) =~= spec_task_views(pre) + seq![
                        (views[i as int].1->0, spec_png_destination(dir@, views[i as int].2)),
                    ]);
                }
            },
            None => {},
        }
        proof {
            assert(views.subrange(0, i + 1).subrange(0, i as int) =~= views.subrange(0, i as int));
            assert(views.subrange(0, i + 1)[i as int] == views[i as int]);
            assert(spec_task_views(out@) =~= spec_download_plan(views.subrange(0, i + 1), dir@));
        }
        i = i + 1;
    }
    proof {
        assert(views.subrange(0, entries@.len() as int) =~= views);
    }
    out
}

/// Holds when two tasks of the plan aim at the same file. Sanitized names
/// are deliberately not de-duplicated — identity is the node id, and two
/// nodes may share a display name — so a plan can overwrite one file
/// twice; this predicate is what a caller may warn on.
pub open spec fn spec_has_duplicate_dest(tasks: Seq<DownloadTask>) -> bool {
    exists|i: int, j: int| 0 <= i < j < tasks.len() && tasks[i].dest@ == tasks[j].dest@
}

/// Tells whether two planned downloads target the same destination file,
/// so the caller can surface a collision warning before scheduling.
pub fn has_duplicate_dest(tasks: &Vec<DownloadTask>) -> (r: bool)
    ensures
        r == spec_has_duplicate_dest(tasks@),
{
    let n = tasks.len();
    let mut i: usize = 0;
    while i < n
        invariant
            i <= n,
            n == tasks@.len(),
            forall|a: int, b: int| 0 <= a < b < tasks@.len() && a < i ==> tasks@[a].dest@
                != tasks@[b].dest@,
        decreases n - i,
    {
        let mut j: usize = i + 1;
        while j < n
            invariant
                i < j <= n,
                n == tasks@.len(),
                forall|b: int| i < b < j ==> tasks@[i as int].dest@ != tasks@[b].dest@,
            decreases n - j,
        {
            if tasks[i].dest == tasks[j].dest {
                return true;
            }
            j = j + 1;
        }
        i = i + 1;
    }
    false
}

/// Decides one fetched response: a success status accepts the body, any
/// other status fails this one task with `DownloadError::Http(status)`.
pub fn accept_download(status: u16) -> (r: Result<(), DownloadError>)
    ensures
        spec_status_is_success(status) ==> r is Ok,
        !spec_status_is_success(status) ==> (r matches Err(e) && e == DownloadError::Http(status)),
{
    if status_is_success(status) {
        Ok(())
    } else {
        Err(DownloadError::Http(status))
    }
}

} // verus!
