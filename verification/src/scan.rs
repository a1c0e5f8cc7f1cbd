//! One scan cycle: extract the movement candidates from a two-level listing
//! of the scan root, relocate each candidate into its logical-day folder,
//! and report how many moves succeeded.
//!
//! The caller enumerates the filesystem (the scan root's immediate
//! subdirectories, and each one's entries) into plain [`ScanBucket`] values;
//! everything that follows — which entries are candidates, where each one
//! goes, and what the cycle reports — is decided here.

use vstd::prelude::*;
use vstd::string::StringExecFns;
use crate::classifier::classify;
use crate::control::TERMINATION_SENTINEL;

verus! {

/// One directory entry of a year-month bucket, as the caller listed it.
#[derive(Debug)]
pub struct FsEntry {
    /// The entry's file name (no directory part).
    pub name: String,
    /// Whether the entry is itself a directory.
    pub is_dir: bool,
    /// The entry's modification time in seconds since the Unix epoch, or
    /// nothing when the filesystem could not report one (a time before the
    /// epoch counts as unreportable).
    pub modified_epoch_secs: Option<u64>,
}

/// One immediate subdirectory of the scan root (a year-month bucket) with
/// its listed entries.
#[derive(Debug)]
pub struct ScanBucket {
    /// The bucket directory's path.
    pub path: String,
    /// The bucket's entries, in enumeration order.
    pub entries: Vec<FsEntry>,
}

/// A loose file found strictly two levels below the scan root, eligible for
/// relocation.
#[derive(Debug)]
pub struct Candidate {
    /// The bucket directory the file sits in.
    pub parent_dir: String,
    /// The file's name, kept across the move.
    pub file_name: String,
    /// The file's modification time, as in [`FsEntry`].
    pub modified_epoch_secs: Option<u64>,
}

/// The candidate a non-directory entry of `parent` gives rise to.
pub open spec fn candidate_of(parent: String, e: FsEntry) -> Candidate {
    Candidate { parent_dir: parent, file_name: e.name, modified_epoch_secs: e.modified_epoch_secs }
}

/// The candidates among `entries` of one bucket, in order: exactly the
/// non-directory entries.
pub open spec fn entry_candidates(parent: String, entries: Seq<FsEntry>) -> Seq<Candidate>
    decreases entries.len(),
{
    if entries.len() == 0 {
        Seq::empty()
    } else {
        let rest = entry_candidates(parent, entries.drop_last());
        if entries.last().is_dir {
            rest
        } else {
            rest.push(candidate_of(parent, entries.last()))
        }
    }
}

/// All candidates of a scan, bucket by bucket in order.
pub open spec fn all_candidates(buckets: Seq<ScanBucket>) -> Seq<Candidate>
    decreases buckets.len(),
{
    if buckets.len() == 0 {
        Seq::empty()
    } else {
        all_candidates(buckets.drop_last()) + entry_candidates(
            buckets.last().path,
            buckets.last().entries@,
        )
    }
}

/// Collect the movement candidates of one scan: every non-directory entry
/// of every bucket, in enumeration order. Directory entries — in particular
/// the date folders earlier cycles created — contribute nothing.
pub fn extract_candidates(buckets: &Vec<ScanBucket>) -> (r: Vec<Candidate>)
    ensures
        r@ == all_candidates(buckets@),
{
    let mut result: Vec<Candidate> = Vec::new();
    let mut i: usize = 0;
    while i < buckets.len()
        invariant
            i <= buckets@.len(),
            result@ == all_candidates(buckets@.take(i as int)),
        decreases buckets@.len() - i,
    {
        let bucket = &buckets[i];
        let mut j: usize = 0;
        while j < bucket.entries.len()
            invariant
                i < buckets@.len(),
                j <= bucket.entries@.len(),
                *bucket == buckets@[i as int],
                result@ == all_candidates(buckets@.take(i as int)) + entry_candidates(
                    bucket.path,
                    bucket.entries@.take(j as int),
                ),
            decreases bucket.entries@.len() - j,
        {
            let ghost sub = bucket.entries@.take(j as int);
            let ghost sub_next = bucket.entries@.take(j as int + 1);
            proof {
                assert(sub_next.drop_last() =~= sub);
                assert(sub_next.last() == bucket.entries@[j as int]);
            }
            let e = &bucket.entries[j];
            if !e.is_dir {
                result.push(
                    Candidate {
                        parent_dir: bucket.path.clone(),
                        file_name: e.name.clone(),
                        modified_epoch_secs: e.modified_epoch_secs,
                    },
                );
            }
            j += 1;
        }
        proof {
            assert(bucket.entries@.take(bucket.entries@.len() as int) =~= bucket.entries@);
            assert(buckets@.take(i as int + 1).drop_last() =~= buckets@.take(i as int));
            assert(buckets@.take(i as int + 1).last() == buckets@[i as int]);
        }
        i += 1;
    }
    proof {
        assert(buckets@.take(buckets@.len() as int) =~= buckets@);
    }
    result
}

/// Whether `c` arises from a non-directory entry listed in `buckets`.
pub open spec fn arises_from_file_entry(c: Candidate, buckets: Seq<ScanBucket>) -> bool {
    exists|i: int, j: int|
        0 <= i < buckets.len() && 0 <= j < buckets[i].entries@.len()
            && !buckets[i].entries@[j].is_dir && c == candidate_of(
            buckets[i].path,
            #[trigger] buckets[i].entries@[j],
        )
}

spec fn arises_from_file_in(c: Candidate, p: String, es: Seq<FsEntry>) -> bool {
    exists|j: int| 0 <= j < es.len() && !(#[trigger] es[j]).is_dir && c == candidate_of(p, es[j])
}

proof fn lemma_entry_candidates_from_files(p: String, es: Seq<FsEntry>)
    ensures
        forall|k: int|
            0 <= k < entry_candidates(p, es).len() ==> arises_from_file_in(
                #[trigger] entry_candidates(p, es)[k],
                p,
                es,
            ),
    decreases es.len(),
{
    if es.len() > 0 {
        let pre = es.drop_last();
        lemma_entry_candidates_from_files(p, pre);
        let rest = entry_candidates(p, pre);
        assert forall|k: int| 0 <= k < entry_candidates(p, es).len() implies arises_from_file_in(
            #[trigger] entry_candidates(p, es)[k],
            p,
            es,
        ) by {
            if k < rest.len() {
                assert(arises_from_file_in(rest[k], p, pre));
                let j = choose|j: int|
                    0 <= j < pre.len() && !(#[trigger] pre[j]).is_dir && rest[k] == candidate_of(
                        p,
                        pre[j],
                    );
                assert(es[j] == pre[j]);
                assert(entry_candidates(p, es)[k] == rest[k]);
                assert(0 <= j < es.len() && !es[j].is_dir && entry_candidates(p, es)[k]
                    == candidate_of(p, es[j]));
            } else {
                let j = es.len() - 1;
                assert(!es.last().is_dir);
                assert(es[j] == es.last());
                assert(entry_candidates(p, es)[k] == candidate_of(p, es[j]));
            }
        }
    }
}

/// Law: a scan never reaches below the two modeled levels. Every candidate
/// arises from a non-directory entry of some bucket, so the contents of a
/// date folder (a directory entry of its bucket) are never offered again as
/// candidates after a move.
pub proof fn lemma_candidates_are_loose_files(buckets: Seq<ScanBucket>)
    ensures
        forall|k: int|
            0 <= k < all_candidates(buckets).len() ==> arises_from_file_entry(
                #[trigger] all_candidates(buckets)[k],
                buckets,
            ),
    decreases buckets.len(),
{
    if buckets.len() > 0 {
        let pre = buckets.drop_last();
        let b = buckets.last();
        lemma_candidates_are_loose_files(pre);
        lemma_entry_candidates_from_files(b.path, b.entries@);
        let front = all_candidates(pre);
        let back = entry_candidates(b.path, b.entries@);
        assert forall|k: int| 0 <= k < all_candidates(buckets).len() implies arises_from_file_entry(
            #[trigger] all_candidates(buckets)[k],
            buckets,
        ) by {
            if k < front.len() {
                assert(arises_from_file_entry(front[k], pre));
                let (i, j) = choose|i: int, j: int|
                    0 <= i < pre.len() && 0 <= j < pre[i].entries@.len()
                        && !pre[i].entries@[j].is_dir && front[k] == candidate_of(
                        pre[i].path,
                        #[trigger] pre[i].entries@[j],
                    );
                assert(buckets[i] == pre[i]);
                assert(all_candidates(buckets)[k] == front[k]);
                assert(0 <= i < buckets.len() && 0 <= j < buckets[i].entries@.len()
                    && !buckets[i].entries@[j].is_dir && all_candidates(buckets)[k]
                    == candidate_of(buckets[i].path, buckets[i].entries@[j]));
            } else {
                assert(arises_from_file_in(back[k - front.len()], b.path, b.entries@));
                let j = choose|j: int|
                    0 <= j < b.entries@.len() && !(#[trigger] b.entries@[j]).is_dir && back[k
                        - front.len()] == candidate_of(b.path, b.entries@[j]);
                let i = buckets.len() - 1;
                assert(buckets[i] == b);
                assert(all_candidates(buckets)[k] == back[k - front.len()]);
                assert(0 <= i < buckets.len() && 0 <= j < buckets[i].entries@.len()
                    && !buckets[i].entries@[j].is_dir && all_candidates(buckets)[k]
                    == candidate_of(buckets[i].path, buckets[i].entries@[j]));
            }
        }
    }
}

/// How many of the per-candidate move outcomes succeeded.
pub open spec fn count_true(s: Seq<bool>) -> int
    decreases s.len(),
{
    if s.len() == 0 {
        0
    } else {
        count_true(s.drop_last()) + (if s.last() {
            1int
        } else {
            0int
        })
    }
}

/// The report value for a cycle that moved `n` files: the count itself,
/// saturated at the report type's maximum.
pub open spec fn report_of_count(n: int) -> int {
    if n > 127 {
        127
    } else {
        n
    }
}

proof fn lemma_count_true_bounds(s: Seq<bool>)
    ensures
        0 <= count_true(s) <= s.len(),
    decreases s.len(),
{
    if s.len() > 0 {
        lemma_count_true_bounds(s.drop_last());
    }
}

/// Law: a cycle report is the exact number of successful moves whenever
/// that number fits the report type; in particular N successes out of M
/// candidates report exactly N.
pub proof fn lemma_report_exact(outcomes: Seq<bool>)
    requires
        count_true(outcomes) <= 127,
    ensures
        report_of_count(count_true(outcomes)) == count_true(outcomes),
{
}

/// Law: no cycle report ever equals the termination sentinel: reports are
/// non-negative and the sentinel is negative, so the two are distinguished
/// by value alone.
pub proof fn lemma_report_never_sentinel(outcomes: Seq<bool>)
    ensures
        report_of_count(count_true(outcomes)) >= 0,
        report_of_count(count_true(outcomes)) != TERMINATION_SENTINEL as int,
{
    lemma_count_true_bounds(outcomes);
}

/// The report for a cycle whose per-candidate move outcomes were
/// `outcomes`: exactly the number of successful moves, saturated at the
/// report maximum.
pub fn report_for_outcomes(outcomes: &Vec<bool>) -> (r: i8)
    ensures
        r as int == report_of_count(count_true(outcomes@)),
        r >= 0,
{
    let mut n: i8 = 0;
    let mut k: usize = 0;
    while k < outcomes.len()
        invariant
            k <= outcomes@.len(),
            0 <= n <= 127,
            n as int == report_of_count(count_true(outcomes@.take(k as int))),
        decreases outcomes@.len() - k,
    {
        let ghost sub = outcomes@.take(k as int);
        let ghost sub_next = outcomes@.take(k as int + 1);
        proof {
            assert(sub_next.drop_last() =~= sub);
            assert(sub_next.last() == outcomes@[k as int]);
            lemma_count_true_bounds(sub);
        }
        if outcomes[k] && n < 127 {
            n = n + 1;
        }
        k += 1;
    }
    proof {
        assert(outcomes@.take(outcomes@.len() as int) =~= outcomes@);
    }
    n
}

pub open spec fn joined_path(a: Seq<char>, b: Seq<char>) -> Seq<char> {
    a + seq!['/'] + b
}

/// Join a directory path and a child name with a separator.
fn path_join(a: &str, b: &str) -> (r: String)
    ensures
        r@ == joined_path(a@, b@),
{
    let mut s = String::from_str(a);
    s.append("/");
    s.append(b);
    proof {
        reveal_strlit("/");
        assert(s@ =~= joined_path(a@, b@));
    }
    s
}

/// Relies on fs_extra::dir::create with erase = false: creates the directory
/// at `path` when none exists. The outcome is ignored — a failed create only
/// makes the following move fail, which the cycle tolerates.
#[verifier::external_body]
fn ensure_dir(path: &str) {
    let _ = fs_extra::dir::create(path, false);
}

/// Relies on fs_extra::file::move_file with default copy options: copies the
/// file at `from` to `to` and removes the original, returning whether that
/// succeeded. On failure the original file is left in place.
#[verifier::external_body]
fn move_file_exec(from: &str, to: &str) -> (moved: bool) {
    fs_extra::file::move_file(from, to, &fs_extra::file::CopyOptions::new()).is_ok()
}

/// Try to relocate one candidate: classify it by its modification time,
/// create the date folder beside it when missing, and move the file in,
/// keeping its name. Returns whether the move succeeded. A candidate whose
/// modification time is unreportable or unclassifiable is left in place and
/// counts as not moved; it is offered again on the next cycle.
fn process_candidate(c: &Candidate, date_line: &str) -> (moved: bool)
    ensures
        c.modified_epoch_secs is None ==> !moved,
        (c.modified_epoch_secs matches Some(s) && s > i64::MAX) ==> !moved,
{
    match c.modified_epoch_secs {
        None => false,
        Some(secs) => match classify(secs, date_line) {
            Err(_) => false,
            Ok(folder) => {
                let dest_dir = path_join(c.parent_dir.as_str(), folder.as_str());
                ensure_dir(dest_dir.as_str());
                let src = path_join(c.parent_dir.as_str(), c.file_name.as_str());
                let dest = path_join(dest_dir.as_str(), c.file_name.as_str());
                move_file_exec(src.as_str(), dest.as_str())
            },
        },
    }
}

/// Whether a per-candidate outcome record is possible at all: a candidate
/// without a reported modification time, or with one beyond the signed
/// 64-bit range, is never counted as moved.
pub open spec fn outcomes_admissible(outcomes: Seq<bool>, candidates: Seq<Candidate>) -> bool {
    forall|i: int|
        0 <= i < outcomes.len() && (candidates[i].modified_epoch_secs is None
            || (candidates[i].modified_epoch_secs matches Some(s) && s > i64::MAX))
            ==> !(#[trigger] outcomes[i])
}

/// One full scan cycle over an already-extracted candidate list: process
/// each candidate in order and report how many moves succeeded. The report
/// is never negative — an empty candidate list reports zero, not an error
/// and not the termination sentinel.
pub fn run_cycle(candidates: &Vec<Candidate>, date_line: &str) -> (r: i8)
    ensures
        r >= 0,
        exists|outcomes: Seq<bool>|
            outcomes.len() == candidates@.len() && outcomes_admissible(outcomes, candidates@)
                && r as int == report_of_count(#[trigger] count_true(outcomes)),
        candidates@.len() == 0 ==> r == 0,
{
    let mut outcomes: Vec<bool> = Vec::new();
    let mut i: usize = 0;
    while i < candidates.len()
        invariant
            i <= candidates@.len(),
            outcomes@.len() == i,
            outcomes_admissible(outcomes@, candidates@),
        decreases candidates@.len() - i,
    {
        let moved = process_candidate(&candidates[i], date_line);
        outcomes.push(moved);
        i += 1;
    }
    let r = report_for_outcomes(&outcomes);
    proof {
        assert(outcomes@.len() == candidates@.len() && r as int == report_of_count(
            count_true(outcomes@),
        ));
        if candidates@.len() == 0 {
            assert(outcomes@ =~= Seq::<bool>::empty());
        }
    }
    r
}

} // verus!
