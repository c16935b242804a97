//! The orchestrator's verified core: run statistics, worker batch assembly,
//! pairing of batch outcomes with work items, the duplicate-safe placement
//! protocol, and the scan eligibility filter.
use crate::filename::{spec_collision_counter, spec_get_extension, spec_walk};
use crate::metadata::{ExtractError, MediaDates};
use vstd::prelude::*;

verus! {

/// A worker's batch starts at this size ...
pub const INITIAL_BATCH_SIZE: usize = 50;

/// ... grows by this much after every dispatched batch ...
pub const BATCH_SIZE_INCREMENT: usize = 10;

/// ... and never beyond this cap.
pub const MAX_BATCH_SIZE: usize = 1000;

/// The collision walk's safety ceiling.
pub const MAX_COLLISION_COUNTER: u32 = 10000;

// ---------------------------------------------------------------------------
// Statistics
// ---------------------------------------------------------------------------
/// The run's counters and its list of `(source, duplicateOf)` pairs. Only
/// the single result-consuming thread mutates a value of this type.
#[derive(Debug)]
pub struct ProcessingStats {
    pub total_files: usize,
    pub moved: usize,
    pub copied: usize,
    pub skipped: usize,
    pub failed: usize,
    pub duplicates: Vec<(String, String)>,
}

impl Default for ProcessingStats {
    /// All counters zero, no duplicates recorded.
    fn default() -> (r: ProcessingStats)
        ensures
            r.total_files == 0,
            r.moved == 0,
            r.copied == 0,
            r.skipped == 0,
            r.failed == 0,
            r.duplicates@ == Seq::<(String, String)>::empty(),
    {
        ProcessingStats {
            total_files: 0,
            moved: 0,
            copied: 0,
            skipped: 0,
            failed: 0,
            duplicates: Vec::new(),
        }
    }
}

impl ProcessingStats {
    /// Records the total number of files found by the scan.
    pub fn set_total(&mut self, total: usize)
        ensures
            *final(self) == (ProcessingStats { total_files: total, ..*old(self) }),
    {
        self.total_files = total;
    }

    /// Records one same-volume move.
    pub fn record_moved(&mut self)
        requires
            old(self).moved < usize::MAX,
        ensures
            *final(self) == (ProcessingStats { moved: (old(self).moved + 1) as usize, ..*old(self) }),
    {
        self.moved = self.moved + 1;
    }

    /// Records one cross-volume copy.
    pub fn record_copied(&mut self)
        requires
            old(self).copied < usize::MAX,
        ensures
            *final(self) == (ProcessingStats { copied: (old(self).copied + 1) as usize, ..*old(self) }),
    {
        self.copied = self.copied + 1;
    }

    /// Records one terminal per-file failure.
    pub fn record_failed(&mut self)
        requires
            old(self).failed < usize::MAX,
        ensures
            *final(self) == (ProcessingStats { failed: (old(self).failed + 1) as usize, ..*old(self) }),
    {
        self.failed = self.failed + 1;
    }

    /// Records one skipped duplicate: the source and the file it duplicates.
    pub fn record_duplicate(&mut self, source: String, duplicate_of: String)
        requires
            old(self).skipped < usize::MAX,
        ensures
            final(self).skipped == old(self).skipped + 1,
            final(self).duplicates@ == old(self).duplicates@.push((source, duplicate_of)),
            final(self).total_files == old(self).total_files,
            final(self).moved == old(self).moved,
            final(self).copied == old(self).copied,
            final(self).failed == old(self).failed,
    {
        self.skipped = self.skipped + 1;
        self.duplicates.push((source, duplicate_of));
    }
}

/// The orchestrator's state: the output directory, the directory failure
/// records go to, and the run statistics.
pub struct Processor {
    pub output_dir: String,
    pub failed_cases_dir: String,
    pub stats: ProcessingStats,
}

impl Processor {
    /// Sets up an orchestrator writing into `output_dir`; failure records go
    /// into its `Failed Cases` subdirectory.
    pub fn new(output_dir: String) -> (r: Processor)
        ensures
            r.output_dir@ == output_dir@,
            r.failed_cases_dir@ == output_dir@ + "/Failed Cases"@,
            r.stats.total_files == 0 && r.stats.moved == 0 && r.stats.copied == 0
                && r.stats.skipped == 0 && r.stats.failed == 0,
            r.stats.duplicates@ == Seq::<(String, String)>::empty(),
    {
        let failed_cases_dir = output_dir.clone().concat("/Failed Cases");
        Processor { output_dir, failed_cases_dir, stats: ProcessingStats::default() }
    }
}

// ---------------------------------------------------------------------------
// Worker pool sizing and batch assembly
// ---------------------------------------------------------------------------
/// The number of workers for a machine with `cpus` available cores: half of
/// them, with a floor of one.
pub fn worker_count(cpus: usize) -> (r: usize)
    ensures
        r == if cpus / 2 >= 1 {
            cpus / 2
        } else {
            1usize
        },
{
    let half = cpus / 2;
    if half >= 1 {
        half
    } else {
        1
    }
}

/// The batch size after one successful dispatch: grown by the increment, up
/// to the cap.
pub fn next_batch_size(current: usize) -> (r: usize)
    requires
        current <= MAX_BATCH_SIZE,
    ensures
        r == if current + BATCH_SIZE_INCREMENT <= MAX_BATCH_SIZE {
            current + BATCH_SIZE_INCREMENT
        } else {
            MAX_BATCH_SIZE as int
        },
{
    if current + BATCH_SIZE_INCREMENT <= MAX_BATCH_SIZE {
        current + BATCH_SIZE_INCREMENT
    } else {
        MAX_BATCH_SIZE
    }
}

/// A worker's batch in the making: the items accumulated so far and the
/// size at which the batch is dispatched.
pub struct BatchAssembler {
    pub items: Vec<(String, bool)>,
    pub target: usize,
}

impl BatchAssembler {
    /// The batch never reaches its dispatch size without being flushed, and
    /// the dispatch size stays within its bounds.
    pub open spec fn wf(self) -> bool {
        self.items@.len() < self.target <= MAX_BATCH_SIZE
    }

    /// An empty batch with the initial dispatch size.
    pub fn new() -> (r: BatchAssembler)
        ensures
            r.wf(),
            r.items@ == Seq::<(String, bool)>::empty(),
            r.target == INITIAL_BATCH_SIZE,
    {
        BatchAssembler { items: Vec::new(), target: INITIAL_BATCH_SIZE }
    }

    /// Adds one work item. When the batch reaches its dispatch size it is
    /// handed back, emptied, and the dispatch size grows by the increment,
    /// up to the cap; otherwise the item is only accumulated.
    pub fn push(&mut self, path: String, should_move: bool) -> (r: Option<Vec<(String, bool)>>)
        requires
            old(self).wf(),
        ensures
            final(self).wf(),
            match r {
                Some(batch) => {
                    &&& batch@ == old(self).items@.push((path, should_move))
                    &&& batch@.len() == old(self).target
                    &&& final(self).items@ == Seq::<(String, bool)>::empty()
                    &&& final(self).target == if old(self).target + BATCH_SIZE_INCREMENT
                        <= MAX_BATCH_SIZE {
                        old(self).target + BATCH_SIZE_INCREMENT
                    } else {
                        MAX_BATCH_SIZE as int
                    }
                },
                None => {
                    &&& final(self).items@ == old(self).items@.push((path, should_move))
                    &&& final(self).items@.len() < old(self).target
                    &&& final(self).target == old(self).target
                },
            },
    {
        self.items.push((path, should_move));
        if self.items.len() >= self.target {
            let mut batch: Vec<(String, bool)> = Vec::new();
            core::mem::swap(&mut batch, &mut self.items);
            self.target = next_batch_size(self.target);
            Some(batch)
        } else {
            None
        }
    }

    /// Hands back whatever remains when the input stream ends: the partial
    /// batch, or nothing if it is empty.
    pub fn finish(&mut self) -> (r: Option<Vec<(String, bool)>>)
        requires
            old(self).wf(),
        ensures
            final(self).wf(),
            final(self).items@ == Seq::<(String, bool)>::empty(),
            match r {
                Some(batch) => batch@ == old(self).items@ && batch@.len() > 0,
                None => old(self).items@.len() == 0,
            },
    {
        if self.items.len() == 0 {
            None
        } else {
            let mut batch: Vec<(String, bool)> = Vec::new();
            core::mem::swap(&mut batch, &mut self.items);
            Some(batch)
        }
    }
}

// ---------------------------------------------------------------------------
// Pairing batch outcomes with work items
// ---------------------------------------------------------------------------
/// A work item whose metadata extraction succeeded, ready for placement.
pub struct ProcessedFile {
    pub dates: MediaDates,
    pub extension: String,
    pub should_move: bool,
}

/// What pairing one extraction outcome with its work item yields: a
/// successfully extracted file needs an extension; a failed one keeps its
/// error.
pub open spec fn spec_paired(
    path: Seq<char>,
    should_move: bool,
    outcome: Result<MediaDates, ExtractError>,
    r: Result<ProcessedFile, ExtractError>,
) -> bool {
    match outcome {
        Ok(md) => match r {
            Ok(pf) => pf.dates == md && Some(pf.extension@) == spec_get_extension(path)
                && pf.should_move == should_move,
            Err(e) => e is NoExtension && spec_get_extension(path) is None,
        },
        Err(e) => r matches Err(e2) && e2 == e,
    }
}

/// Pairs each work item of a dispatched batch with its extraction outcome:
/// a resolved file is completed with its extension, a file without one
/// becomes a failure, and extraction failures pass through.
pub fn pair_batch_results(
    batch_info: &Vec<(String, bool)>,
    outcomes: Vec<(String, Result<MediaDates, ExtractError>)>,
) -> (r: Vec<(String, Result<ProcessedFile, ExtractError>)>)
    requires
        outcomes@.len() == batch_info@.len(),
    ensures
        r@.len() == batch_info@.len(),
        forall|i: int| 0 <= i < r@.len() ==> (#[trigger] r@[i]).0@ == batch_info@[i].0@,
        forall|i: int|
            0 <= i < r@.len() ==> spec_paired(
                batch_info@[i].0@,
                batch_info@[i].1,
                outcomes@[i].1,
                (#[trigger] r@[i]).1,
            ),
{
    let ghost orig = outcomes@;
    let mut outcomes = outcomes;
    let n = batch_info.len();
    let mut out: Vec<(String, Result<ProcessedFile, ExtractError>)> = Vec::new();
    let mut i: usize = 0;
    while i < n
        invariant
            0 <= i <= n,
            n == batch_info@.len(),
            orig.len() == n,
            outcomes@ == orig.skip(i as int),
            out@.len() == i,
            forall|j: int| 0 <= j < i ==> (#[trigger] out@[j]).0@ == batch_info@[j].0@,
            forall|j: int|
                0 <= j < i ==> spec_paired(
                    batch_info@[j].0@,
                    batch_info@[j].1,
                    orig[j].1,
                    (#[trigger] out@[j]).1,
                ),
        decreases n - i,
    {
        proof {
            assert(outcomes@[0] == orig[i as int]);
        }
        let (_path, outcome) = outcomes.remove(0);
        proof {
            assert(outcomes@ =~= orig.skip(i + 1));
        }
        let should_move = batch_info[i].1;
        let res: Result<ProcessedFile, ExtractError> = match outcome {
            Ok(dates) => match crate::filename::get_extension(batch_info[i].0.as_str()) {
                Some(extension) => Ok(ProcessedFile { dates, extension, should_move }),
                None => Err(ExtractError::NoExtension),
            },
            Err(e) => Err(e),
        };
        out.push((batch_info[i].0.clone(), res));
        i = i + 1;
    }
    out
}

// ---------------------------------------------------------------------------
// The placement protocol
// ---------------------------------------------------------------------------
/// What the result consumer sees when it probes one candidate filename on
/// disk.
#[derive(Debug, Clone, Copy, PartialEq, Eq, Structural)]
pub enum DiskProbe {
    Absent,
    SameContent,
    DifferentContent,
    ReadFailed,
}

/// The consumer's next move in the collision walk.
#[derive(Debug, Clone, Copy, PartialEq, Eq, Structural)]
pub enum CollisionStep {
    UseCounter,
    Duplicate,
    Next(u32),
    Fail,
}

/// Decides one step of the collision walk: an absent candidate is the
/// target, identical content is a duplicate, different (or unreadable)
/// content sends the walk to the next counter, and past the safety ceiling
/// it fails.
pub fn collision_step(counter: u32, probe: DiskProbe) -> (r: CollisionStep)
    requires
        1 <= counter <= MAX_COLLISION_COUNTER,
    ensures
        r == match probe {
            DiskProbe::Absent => CollisionStep::UseCounter,
            DiskProbe::SameContent => CollisionStep::Duplicate,
            _ => if counter < MAX_COLLISION_COUNTER {
                CollisionStep::Next((counter + 1) as u32)
            } else {
                CollisionStep::Fail
            },
        },
{
    match probe {
        DiskProbe::Absent => CollisionStep::UseCounter,
        DiskProbe::SameContent => CollisionStep::Duplicate,
        _ => {
            if counter < MAX_COLLISION_COUNTER {
                CollisionStep::Next(counter + 1)
            } else {
                CollisionStep::Fail
            }
        },
    }
}

/// How a file leaves the transfer step.
#[derive(Debug, Clone, Copy, PartialEq, Eq, Structural)]
pub enum TransferAction {
    Rename,
    CopyThenDelete,
    SkipDuplicate,
}

/// Decides the transfer: a target that re-checks as holding the same
/// content is a duplicate to skip; otherwise a same-volume file is renamed
/// and a cross-volume file is copied, its source deleted only after the
/// copy succeeds.
pub fn transfer_decision(target_holds_same: Option<bool>, should_move: bool) -> (r: TransferAction)
    ensures
        r == if target_holds_same == Some(true) {
            TransferAction::SkipDuplicate
        } else if should_move {
            TransferAction::Rename
        } else {
            TransferAction::CopyThenDelete
        },
{
    if let Some(true) = target_holds_same {
        TransferAction::SkipDuplicate
    } else if should_move {
        TransferAction::Rename
    } else {
        TransferAction::CopyThenDelete
    }
}

/// How placement of one file's content ends.
#[derive(Debug, Clone, Copy, PartialEq, Eq, Structural)]
pub enum PlaceOutcome {
    Placed(u32),
    DuplicateOf(u32),
    TooManyCollisions,
}

/// The directory contents after placing `content`: unchanged for a
/// duplicate or a failure, extended by the new file otherwise.
pub open spec fn spec_place_disk(disk: Seq<Seq<u8>>, content: Seq<u8>) -> Seq<Seq<u8>> {
    match spec_collision_counter(disk, Some(content)) {
        Some(k) => if k == disk.len() + 1 {
            disk.push(content)
        } else {
            disk
        },
        None => disk,
    }
}

/// The reported outcome of placing `content`.
pub open spec fn spec_place_outcome(disk: Seq<Seq<u8>>, content: Seq<u8>) -> PlaceOutcome {
    match spec_collision_counter(disk, Some(content)) {
        Some(k) => if k == disk.len() + 1 {
            PlaceOutcome::Placed(k as u32)
        } else {
            PlaceOutcome::DuplicateOf(k as u32)
        },
        None => PlaceOutcome::TooManyCollisions,
    }
}

/// Places one file's content into the model of the files already occupying
/// its filename base: `dir[i]` is the content at counter `i + 1`. Identical
/// content found on the walk is a duplicate — the file is not written
/// again; otherwise the content takes the first free counter.
pub fn place_content(dir: &mut Vec<Vec<u8>>, content: Vec<u8>) -> (r: PlaceOutcome)
    ensures
        r == spec_place_outcome(old(dir).deep_view(), content@),
        final(dir).deep_view() == spec_place_disk(old(dir).deep_view(), content@),
        r matches PlaceOutcome::DuplicateOf(k) ==> 1 <= k <= old(dir)@.len() && old(
            dir,
        ).deep_view()[k - 1] == content@,
        r matches PlaceOutcome::Placed(k) ==> k == old(dir)@.len() + 1,
{
    let ghost disk = old(dir).deep_view();
    let ghost c = content@;
    let mut counter: u32 = 1;
    loop
        invariant
            1 <= counter <= 10001,
            counter - 1 <= disk.len(),
            dir == old(dir),
            disk == dir.deep_view(),
            c == content@,
            spec_walk(disk, Some(c), 1) == spec_walk(disk, Some(c), counter as int),
        decreases 10001 - counter,
    {
        if counter > MAX_COLLISION_COUNTER {
            return PlaceOutcome::TooManyCollisions;
        }
        if counter as usize > dir.len() {
            dir.push(content);
            proof {
                assert(dir.deep_view() =~~= disk.push(c));
            }
            return PlaceOutcome::Placed(counter);
        }
        proof {
            assert(disk[counter - 1] == dir@[counter - 1]@);
        }
        if crate::text::bytes_eq(&dir[(counter - 1) as usize], &content) {
            return PlaceOutcome::DuplicateOf(counter);
        }
        counter = counter + 1;
    }
}

/// A walk that ends on the newly placed slot finds that slot again over the
/// extended directory.
proof fn lemma_walk_after_push(disk: Seq<Seq<u8>>, c: Seq<u8>, k: int)
    requires
        1 <= k <= disk.len() + 1,
        spec_walk(disk, Some(c), k) == Some(disk.len() + 1int),
    ensures
        spec_walk(disk.push(c), Some(c), k) == Some(disk.len() + 1int),
    decreases disk.len() + 1 - k,
{
    let disk2 = disk.push(c);
    if k == disk.len() + 1 {
        assert(disk2[k - 1] == c);
        assert(k <= 10000);
    } else {
        assert(disk2[k - 1] == disk[k - 1]);
        lemma_walk_after_push(disk, c, k + 1);
    }
}

/// A walk that stops on an occupied slot stops on one holding the content
/// it was given.
proof fn lemma_walk_hit(disk: Seq<Seq<u8>>, c: Seq<u8>, j: int, k: int)
    requires
        1 <= j,
        spec_walk(disk, Some(c), j) == Some(k),
    ensures
        j <= k <= 10000,
        k <= disk.len() ==> disk[k - 1] == c,
        j <= disk.len() + 1 ==> k <= disk.len() + 1,
    decreases 10001 - j,
{
    if j <= 10000 && j <= disk.len() && !(disk[j - 1] == c) {
        lemma_walk_hit(disk, c, j + 1, k);
    }
}

/// Placing the same content twice leaves exactly one physical copy and
/// loses nothing: the second placement changes nothing, reports a duplicate
/// of the counter the first placement settled on, and that counter really
/// holds the content.
pub proof fn lemma_place_idempotent(disk: Seq<Seq<u8>>, content: Seq<u8>)
    requires
        spec_place_outcome(disk, content) is Placed || spec_place_outcome(disk, content)
            is DuplicateOf,
    ensures
        spec_place_disk(spec_place_disk(disk, content), content) == spec_place_disk(disk, content),
        spec_place_outcome(spec_place_disk(disk, content), content) == (match spec_place_outcome(
            disk,
            content,
        ) {
            PlaceOutcome::Placed(k) => PlaceOutcome::DuplicateOf(k),
            PlaceOutcome::DuplicateOf(k) => PlaceOutcome::DuplicateOf(k),
            PlaceOutcome::TooManyCollisions => PlaceOutcome::TooManyCollisions,
        }),
        spec_place_outcome(spec_place_disk(disk, content), content) matches
            PlaceOutcome::DuplicateOf(k) ==> 1 <= k <= spec_place_disk(disk, content).len()
            && spec_place_disk(disk, content)[k - 1] == content,
{
    match spec_place_outcome(disk, content) {
        PlaceOutcome::Placed(k) => {
            let d1 = disk.push(content);
            lemma_walk_hit(disk, content, 1, disk.len() as int + 1);
            lemma_walk_after_push(disk, content, 1);
            assert(spec_collision_counter(d1, Some(content)) == Some(disk.len() + 1int));
            assert(d1[disk.len() as int] == content);
        },
        PlaceOutcome::DuplicateOf(k) => {
            if let Some(kk) = spec_collision_counter(disk, Some(content)) {
                lemma_walk_hit(disk, content, 1, kk);
            }
        },
        PlaceOutcome::TooManyCollisions => {},
    }
}

// ---------------------------------------------------------------------------
// The duplicate-deletion prompt
// ---------------------------------------------------------------------------
/// ASCII whitespace, as read on a prompt line.
pub open spec fn is_prompt_ws(c: char) -> bool {
    c == ' ' || c == '\t' || c == '\n' || c == '\r'
}

/// `s` without its leading ASCII whitespace.
pub open spec fn trim_front(s: Seq<char>) -> Seq<char>
    decreases s.len(),
{
    if s.len() > 0 && is_prompt_ws(s[0]) {
        trim_front(s.drop_first())
    } else {
        s
    }
}

/// `s` without its trailing ASCII whitespace.
pub open spec fn trim_back(s: Seq<char>) -> Seq<char>
    decreases s.len(),
{
    if s.len() > 0 && is_prompt_ws(s.last()) {
        trim_back(s.drop_last())
    } else {
        s
    }
}

/// The trimmed line reads `y` or `yes`, in any letter case.
pub open spec fn spec_is_yes(t: Seq<char>) -> bool {
    ||| t.len() == 1 && (t[0] == 'y' || t[0] == 'Y')
    ||| t.len() == 3 && (t[0] == 'y' || t[0] == 'Y') && (t[1] == 'e' || t[1] == 'E') && (t[2]
        == 's' || t[2] == 'S')
}

/// Whether an answer line confirms the deletion prompt.
pub open spec fn spec_confirms_deletion(s: Seq<char>) -> bool {
    spec_is_yes(trim_back(trim_front(s)))
}

/// Whether position `i` of the line holds ASCII whitespace.
fn prompt_ws_at(line: &str, i: usize) -> (r: bool)
    requires
        i < line@.len(),
    ensures
        r == is_prompt_ws(line@[i as int]),
{
    let c = line.get_char(i);
    c == ' ' || c == '\t' || c == '\n' || c == '\r'
}

/// Decides the deletion prompt: the line, stripped of surrounding ASCII
/// whitespace, must read `y` or `yes` in any letter case.
pub fn confirms_deletion(line: &str) -> (r: bool)
    ensures
        r == spec_confirms_deletion(line@),
{
    let n = line.unicode_len();
    let mut lo: usize = 0;
    proof {
        assert(line@.skip(0) =~= line@);
    }
    while lo < n && prompt_ws_at(line, lo)
        invariant
            0 <= lo <= n,
            n == line@.len(),
            trim_front(line@) == trim_front(line@.skip(lo as int)),
        decreases n - lo,
    {
        proof {
            assert(line@.skip(lo as int).drop_first() =~= line@.skip(lo + 1));
        }
        lo = lo + 1;
    }
    let ghost t = line@.skip(lo as int);
    proof {
        if lo < n {
            assert(t[0] == line@[lo as int]);
        }
        assert(trim_front(line@) == t);
    }
    let mut hi: usize = n;
    proof {
        assert(t.take(n - lo) =~= t);
    }
    while hi > lo && prompt_ws_at(line, hi - 1)
        invariant
            lo <= hi <= n,
            n == line@.len(),
            t == line@.skip(lo as int),
            trim_back(t) == trim_back(t.take(hi - lo)),
        decreases hi,
    {
        proof {
            assert(t.take(hi - lo).last() == line@[hi - 1]);
            assert(t.take(hi - lo).drop_last() =~= t.take(hi - 1 - lo));
        }
        hi = hi - 1;
    }
    let ghost trimmed = t.take(hi - lo);
    proof {
        if hi > lo {
            assert(trimmed.last() == line@[hi - 1]);
        }
        assert(trim_back(t) == trimmed);
        assert(forall|j: int| 0 <= j < trimmed.len() ==> trimmed[j] == line@[lo + j]);
    }
    let len = hi - lo;
    if len == 1 {
        let c0 = line.get_char(lo);
        c0 == 'y' || c0 == 'Y'
    } else if len == 3 {
        let c0 = line.get_char(lo);
        let c1 = line.get_char(lo + 1);
        let c2 = line.get_char(lo + 2);
        (c0 == 'y' || c0 == 'Y') && (c1 == 'e' || c1 == 'E') && (c2 == 's' || c2 == 'S')
    } else {
        false
    }
}

// ---------------------------------------------------------------------------
// Scan eligibility
// ---------------------------------------------------------------------------
/// The three characters spell `aae` in any letter case.
pub open spec fn spec_is_aae(e: Seq<char>) -> bool {
    e.len() == 3 && (e[0] == 'a' || e[0] == 'A') && (e[1] == 'a' || e[1] == 'A') && (e[2] == 'e'
        || e[2] == 'E')
}

/// A file the scan hands to the pipeline: not an AppleDouble `._` file, not
/// a `.DS_Store` file, and not an `.aae` sidecar.
pub open spec fn spec_eligible(name: Seq<char>) -> bool {
    &&& !(name.len() >= 2 && name[0] == '.' && name[1] == '_')
    &&& name != ".DS_Store"@
    &&& !(spec_get_extension(name) matches Some(e) && spec_is_aae(e))
}

/// Whether a scanned file name is taken up by the pipeline.
pub fn is_eligible_media_name(name: &str) -> (r: bool)
    ensures
        r == spec_eligible(name@),
{
    let n = name.unicode_len();
    if n >= 2 {
        if name.get_char(0) == '.' && name.get_char(1) == '_' {
            return false;
        }
    }
    if crate::text::str_eq(name, ".DS_Store") {
        return false;
    }
    match crate::filename::get_extension(name) {
        Some(e) => {
            let el = e.unicode_len();
            if el == 3 {
                let s = e.as_str();
                let c0 = s.get_char(0);
                let c1 = s.get_char(1);
                let c2 = s.get_char(2);
                if (c0 == 'a' || c0 == 'A') && (c1 == 'a' || c1 == 'A') && (c2 == 'e' || c2
                    == 'E') {
                    return false;
                }
            }
            true
        },
        None => true,
    }
}

} // verus!
