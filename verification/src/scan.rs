//! The scan of a library as a state machine. The machine decides; whoever
//! drives it talks to the completion service and to the catalogs, and hands
//! each answer back as an event.

use vstd::prelude::*;
use crate::cache::{cache_key, CachedEntryView, MetadataCache};
use crate::changes::{audio_file_of, diff_file, keep_file, untouched_file_of};
use crate::grouping::{
    detect_group_type, file_group_views, group_files, group_type_of, is_grouping, FileGroup,
    FileGroupView,
};
use crate::identity::{
    identity_of_reply, quick_identity, quick_identity_of, resolve_identity, tag_identity,
    tag_identity_of, BookIdentity, BookIdentityView,
};
use crate::merge::{
    build_fallback, decide_retry, fallback_metadata, finish_merge, merge_outcome, quality_score,
    retry_decision, validate_metadata_quality, RetryDecision,
};
use crate::model::{
    audio_file_views, file_views, group_views, metadata_view, opt_view, AudioFile, AudioFileView,
    BookGroup, BookGroupView, BookMetadata, BookMetadataView, FieldChangeView, RawFileData,
};
use crate::processed::{
    already_processed, is_already_processed, metadata_from_tags, tagged_metadata,
};
use crate::prompt::{build_identity_prompt, build_merge_prompt, identity_prompt, merge_prompt};
use crate::sources::{
    audible_view, google_view, AudibleMetadata, AudibleMetadataView, GoogleMetadata,
    GoogleMetadataView,
};
use crate::text::{decimal, decimal_string};

verus! {

/// What a scan may make use of.
#[derive(Debug, Clone, Copy, PartialEq, Eq, Structural)]
pub struct ScanConfig {
    /// Whether a completion service is configured.
    pub use_completion: bool,
    /// Whether the Audible catalog is switched on and can be reached.
    pub use_audible: bool,
    /// Most merge attempts for one book.
    pub max_attempts: u32,
}

impl ScanConfig {
    /// The configuration that the user's settings stand for: the completion
    /// service is in use where an API key is set and not empty, the Audible
    /// catalog where it is switched on and the path of its command line tool
    /// is set; a book gets `MAX_ATTEMPTS` merge attempts.
    pub fn from_settings(
        api_key: &Option<String>,
        audible_enabled: bool,
        audible_cli_path: &str,
    ) -> (r: ScanConfig)
        ensures
            r.use_completion == match opt_view(*api_key) {
                Some(key) => key.len() > 0,
                None => false,
            },
            r.use_audible == (audible_enabled && audible_cli_path@.len() > 0),
            r.max_attempts == crate::merge::MAX_ATTEMPTS,
    {
        ScanConfig {
            use_completion: match api_key {
                Some(key) => !key.as_str().is_empty(),
                None => false,
            },
            use_audible: audible_enabled && !audible_cli_path.is_empty(),
            max_attempts: crate::merge::MAX_ATTEMPTS,
        }
    }
}

/// What the scan waits for.
#[derive(Debug)]
pub enum Phase {
    /// The start of the next book.
    Idle,
    /// The reply to the identity prompt.
    AwaitIdentity,
    /// The Audible record.
    AwaitAudible { identity: BookIdentity },
    /// The Google Books record.
    AwaitGoogle { identity: BookIdentity, audible: Option<AudibleMetadata> },
    /// The outcome of merge attempt number `attempt`.
    AwaitMerge {
        identity: BookIdentity,
        google: Option<GoogleMetadata>,
        audible: Option<AudibleMetadata>,
        attempt: u32,
    },
    /// Nothing: the scan has ended.
    Finished,
}

/// The mathematical view of `Phase`.
pub enum PhaseView {
    Idle,
    AwaitIdentity,
    AwaitAudible { identity: BookIdentityView },
    AwaitGoogle { identity: BookIdentityView, audible: Option<AudibleMetadataView> },
    AwaitMerge {
        identity: BookIdentityView,
        google: Option<GoogleMetadataView>,
        audible: Option<AudibleMetadataView>,
        attempt: nat,
    },
    Finished,
}

impl View for Phase {
    type V = PhaseView;

    open spec fn view(&self) -> PhaseView {
        match *self {
            Phase::Idle => PhaseView::Idle,
            Phase::AwaitIdentity => PhaseView::AwaitIdentity,
            Phase::AwaitAudible { identity } => PhaseView::AwaitAudible { identity: identity@ },
            Phase::AwaitGoogle { identity, audible } => PhaseView::AwaitGoogle {
                identity: identity@,
                audible: audible_view(audible),
            },
            Phase::AwaitMerge { identity, google, audible, attempt } => PhaseView::AwaitMerge {
                identity: identity@,
                google: google_view(google),
                audible: audible_view(audible),
                attempt: attempt as nat,
            },
            Phase::Finished => PhaseView::Finished,
        }
    }
}

/// What the driver reports to the scan.
#[derive(Debug)]
pub enum ScanEvent {
    /// The driver is ready for the next book; `cancelled` says whether the
    /// user has asked the scan to stop.
    Next { cancelled: bool },
    /// The completion that the identity prompt got, or `None` where the
    /// service failed.
    Identity { reply: Option<String> },
    /// What the Audible catalog returned, `None` on no match or failure.
    Audible { found: Option<AudibleMetadata> },
    /// What Google Books returned, `None` on no match or failure.
    Google { candidate: Option<GoogleMetadata> },
    /// The record read from the completion that the merge prompt got, or
    /// `None` where the service failed or its completion could not be read.
    Merged { reconciled: Option<BookMetadata> },
}

/// The mathematical view of `ScanEvent`.
pub enum ScanEventView {
    Next { cancelled: bool },
    Identity { reply: Option<Seq<char>> },
    Audible { found: Option<AudibleMetadataView> },
    Google { candidate: Option<GoogleMetadataView> },
    Merged { reconciled: Option<BookMetadataView> },
}

impl View for ScanEvent {
    type V = ScanEventView;

    open spec fn view(&self) -> ScanEventView {
        match *self {
            ScanEvent::Next { cancelled } => ScanEventView::Next { cancelled },
            ScanEvent::Identity { reply } => ScanEventView::Identity { reply: opt_view(reply) },
            ScanEvent::Audible { found } => ScanEventView::Audible { found: audible_view(found) },
            ScanEvent::Google { candidate } => ScanEventView::Google {
                candidate: google_view(candidate),
            },
            ScanEvent::Merged { reconciled } => ScanEventView::Merged {
                reconciled: metadata_view(reconciled),
            },
        }
    }
}

/// What the scan asks of the driver.
#[derive(Debug, PartialEq, Eq)]
pub enum ScanAction {
    /// Send the prompt to the completion service; answer with `Identity`.
    AskIdentity { prompt: String },
    /// Look the book up in the Audible catalog; answer with `Audible`.
    AskAudible { title: String, author: String },
    /// Look the book up in Google Books; answer with `Google`.
    AskGoogle { title: String, author: String },
    /// Send the prompt to the completion service and read a metadata record
    /// from its completion; answer with `Merged`.
    AskMerge { prompt: String },
    /// Book number `current` of `total` is done; answer with `Next`.
    Report { current: usize, total: usize, group_name: String, cached: bool },
    /// The scan has ended.
    Finished,
    /// The event does not answer what the scan had asked; nothing changed.
    Unexpected,
}

/// The mathematical view of `ScanAction`.
pub enum ScanActionView {
    AskIdentity { prompt: Seq<char> },
    AskAudible { title: Seq<char>, author: Seq<char> },
    AskGoogle { title: Seq<char>, author: Seq<char> },
    AskMerge { prompt: Seq<char> },
    Report { current: nat, total: nat, group_name: Seq<char>, cached: bool },
    Finished,
    Unexpected,
}

impl View for ScanAction {
    type V = ScanActionView;

    open spec fn view(&self) -> ScanActionView {
        match *self {
            ScanAction::AskIdentity { prompt } => ScanActionView::AskIdentity { prompt: prompt@ },
            ScanAction::AskAudible { title, author } => ScanActionView::AskAudible {
                title: title@,
                author: author@,
            },
            ScanAction::AskGoogle { title, author } => ScanActionView::AskGoogle {
                title: title@,
                author: author@,
            },
            ScanAction::AskMerge { prompt } => ScanActionView::AskMerge { prompt: prompt@ },
            ScanAction::Report { current, total, group_name, cached } => ScanActionView::Report {
                current: current as nat,
                total: total as nat,
                group_name: group_name@,
                cached,
            },
            ScanAction::Finished => ScanActionView::Finished,
            ScanAction::Unexpected => ScanActionView::Unexpected,
        }
    }
}

/// Whether an action sends the driver to the completion service or to a
/// catalog.
pub open spec fn is_outside_call(action: ScanActionView) -> bool {
    action is AskIdentity || action is AskAudible || action is AskGoogle || action is AskMerge
}

/// The state of a scan.
pub struct ScanView {
    /// The books of the scan in the order of their keys.
    pub groups: Seq<FileGroupView>,
    /// How many books are done.
    pub current: nat,
    pub phase: PhaseView,
    pub cache: Map<Seq<char>, CachedEntryView>,
    pub config: ScanConfig,
    /// The books that are done, in the order of their keys.
    pub results: Seq<BookGroupView>,
    /// How many of them came from the cache.
    pub cache_hits: nat,
}

/// Number of files for which a change is proposed.
pub open spec fn changed_count(files: Seq<AudioFileView>) -> nat
    decreases files.len(),
{
    if files.len() == 0 {
        0
    } else {
        changed_count(files.drop_last()) + if files.last().changes == Map::<
            Seq<char>,
            FieldChangeView,
        >::empty() {
            0nat
        } else {
            1nat
        }
    }
}

/// The report of a book whose canonical metadata is `meta`: every file with
/// the changes that `meta` asks of it.
pub open spec fn resolved_group(
    id: nat,
    group: FileGroupView,
    meta: BookMetadataView,
) -> BookGroupView {
    let files = Seq::new(group.files.len(), |i: int| audio_file_of(group.files[i], meta));
    BookGroupView {
        id: decimal(id),
        group_name: group.key,
        group_type: group_type_of(group.files),
        files,
        metadata: meta,
        total_changes: changed_count(files),
    }
}

/// The report of a book whose tags are already normalized: the metadata read
/// back from the tags of its first file, and every file unchanged.
pub open spec fn reused_group(id: nat, group: FileGroupView) -> BookGroupView {
    BookGroupView {
        id: decimal(id),
        group_name: group.key,
        group_type: group_type_of(group.files),
        files: Seq::new(group.files.len(), |i: int| untouched_file_of(group.files[i])),
        metadata: tagged_metadata(group.files[0].tags, group.key),
        total_changes: 0,
    }
}

/// The state after the current book is done with `report`, and the action
/// that tells the driver so.
pub open spec fn complete(s: ScanView, report: BookGroupView, cached: bool) -> (
    ScanView,
    ScanActionView,
) {
    (
        ScanView {
            current: s.current + 1,
            phase: PhaseView::Idle,
            results: s.results.push(report),
            cache_hits: if cached {
                s.cache_hits + 1
            } else {
                s.cache_hits
            },
            ..s
        },
        ScanActionView::Report {
            current: s.current + 1,
            total: s.groups.len(),
            group_name: s.groups[s.current as int].key,
            cached,
        },
    )
}

/// The book is done with metadata that was resolved just now: the metadata
/// goes into the cache under the book's identity, with the time `now`.
pub open spec fn resolve(
    s: ScanView,
    identity: BookIdentityView,
    meta: BookMetadataView,
    now: u64,
) -> (ScanView, ScanActionView) {
    complete(
        ScanView {
            cache: s.cache.insert(
                cache_key(identity.title, identity.author),
                CachedEntryView { metadata: meta, timestamp: now },
            ),
            ..s
        },
        resolved_group(s.current, s.groups[s.current as int], meta),
        false,
    )
}

/// The step once the identity of the current book is known: done from the
/// cache where it holds the identity, else on to the catalogs, Audible first
/// where it is in use.
pub open spec fn after_identity(s: ScanView, identity: BookIdentityView) -> (
    ScanView,
    ScanActionView,
) {
    let key = cache_key(identity.title, identity.author);
    if s.cache.contains_key(key) {
        complete(
            s,
            resolved_group(s.current, s.groups[s.current as int], s.cache[key].metadata),
            true,
        )
    } else if s.config.use_audible {
        (
            ScanView { phase: PhaseView::AwaitAudible { identity }, ..s },
            ScanActionView::AskAudible { title: identity.title, author: identity.author },
        )
    } else {
        (
            ScanView { phase: PhaseView::AwaitGoogle { identity, audible: None }, ..s },
            ScanActionView::AskGoogle { title: identity.title, author: identity.author },
        )
    }
}

/// The step once both catalogs have answered: on to the first merge attempt
/// where a completion service is in use, else done with the fallback record.
pub open spec fn after_sources(
    s: ScanView,
    identity: BookIdentityView,
    google: Option<GoogleMetadataView>,
    audible: Option<AudibleMetadataView>,
    now: u64,
) -> (ScanView, ScanActionView) {
    let group = s.groups[s.current as int];
    if s.config.use_completion {
        (
            ScanView {
                phase: PhaseView::AwaitMerge { identity, google, audible, attempt: 1 },
                ..s
            },
            ScanActionView::AskMerge {
                prompt: merge_prompt(
                    group.files,
                    group.key,
                    identity.title,
                    identity.author,
                    google,
                    audible,
                ),
            },
        )
    } else {
        resolve(
            s,
            identity,
            fallback_metadata(identity.title, identity.author, google, audible),
            now,
        )
    }
}

/// The step that starts the current book. A book whose first file is already
/// normalized is done at once from its tags. A book that the cache holds
/// under the identity read straight from the tags is done at once from the
/// cache. Any other book needs its identity: from the completion service
/// where one is in use, else from the tags.
pub open spec fn begin_group(s: ScanView) -> (ScanView, ScanActionView) {
    let group = s.groups[s.current as int];
    let sample = group.files[0];
    let quick = quick_identity(sample.tags, group.key);
    let key = cache_key(quick.title, quick.author);
    if already_processed(sample.tags) {
        complete(s, reused_group(s.current, group), false)
    } else if s.cache.contains_key(key) {
        complete(s, resolved_group(s.current, group, s.cache[key].metadata), true)
    } else if s.config.use_completion {
        (
            ScanView { phase: PhaseView::AwaitIdentity, ..s },
            ScanActionView::AskIdentity { prompt: identity_prompt(sample, group.key) },
        )
    } else {
        after_identity(s, tag_identity(sample.tags, group.key))
    }
}

/// The step that a merge outcome leads to: the attempt is scored, and the
/// scan accepts its result, merges again with the same prompt, or gives up
/// and keeps the result of this last attempt.
pub open spec fn after_merge(
    s: ScanView,
    identity: BookIdentityView,
    google: Option<GoogleMetadataView>,
    audible: Option<AudibleMetadataView>,
    attempt: nat,
    reconciled: Option<BookMetadataView>,
    now: u64,
) -> (ScanView, ScanActionView) {
    let group = s.groups[s.current as int];
    let meta = merge_outcome(reconciled, identity.title, identity.author, google, audible);
    let score = quality_score(meta, identity.title, audible);
    if retry_decision(attempt, s.config.max_attempts as nat, score) == RetryDecision::Retry {
        (
            ScanView {
                phase: PhaseView::AwaitMerge { identity, google, audible, attempt: attempt + 1 },
                ..s
            },
            ScanActionView::AskMerge {
                prompt: merge_prompt(
                    group.files,
                    group.key,
                    identity.title,
                    identity.author,
                    google,
                    audible,
                ),
            },
        )
    } else {
        resolve(s, identity, meta, now)
    }
}

/// One step of a scan: the state and the action that follow from a state and
/// an event at the time `now`, in seconds since the Unix epoch. An event that
/// does not answer what the scan waits for changes nothing.
pub open spec fn scan_step(s: ScanView, event: ScanEventView, now: u64) -> (
    ScanView,
    ScanActionView,
) {
    match (s.phase, event) {
        (PhaseView::Finished, _) => (s, ScanActionView::Finished),
        (PhaseView::Idle, ScanEventView::Next { cancelled }) => {
            if cancelled || s.current >= s.groups.len() {
                (ScanView { phase: PhaseView::Finished, ..s }, ScanActionView::Finished)
            } else {
                begin_group(s)
            }
        },
        (PhaseView::AwaitIdentity, ScanEventView::Identity { reply }) => {
            let group = s.groups[s.current as int];
            after_identity(s, identity_of_reply(reply, group.files[0].tags, group.key))
        },
        (PhaseView::AwaitAudible { identity }, ScanEventView::Audible { found }) => (
            ScanView { phase: PhaseView::AwaitGoogle { identity, audible: found }, ..s },
            ScanActionView::AskGoogle { title: identity.title, author: identity.author },
        ),
        (PhaseView::AwaitGoogle { identity, audible }, ScanEventView::Google { candidate }) => {
            after_sources(s, identity, candidate, audible, now)
        },
        (
            PhaseView::AwaitMerge { identity, google, audible, attempt },
            ScanEventView::Merged { reconciled },
        ) => after_merge(s, identity, google, audible, attempt, reconciled, now),
        _ => (s, ScanActionView::Unexpected),
    }
}

/// The name of the book that a `Next` without cancellation starts in this
/// state, if it starts one.
pub open spec fn upcoming_book(s: ScanView) -> Option<Seq<char>> {
    if s.phase is Idle && s.current < s.groups.len() {
        Some(s.groups[s.current as int].key)
    } else {
        None
    }
}

/// Whether `report` reports the book `group`, which is number `index` of its
/// scan: it has the key of the book as its name, the number as its id and
/// the kind of the book; it holds a file for each file of the book, in the
/// same order and with the same id, path and file name; and it counts the
/// files for which it proposes a change.
pub open spec fn reports_book(report: BookGroupView, group: FileGroupView, index: nat) -> bool {
    &&& report.group_name == group.key
    &&& report.id == decimal(index)
    &&& report.group_type == group_type_of(group.files)
    &&& report.files.len() == group.files.len()
    &&& forall|k: int|
        0 <= k < group.files.len() ==> (#[trigger] report.files[k]).id == group.files[k].id
            && report.files[k].path == group.files[k].path && report.files[k].filename
            == group.files[k].filename
    &&& report.total_changes == changed_count(report.files)
}

proof fn lemma_untouched_count(files: Seq<AudioFileView>)
    requires
        forall|k: int|
            0 <= k < files.len() ==> (#[trigger] files[k]).changes == Map::<
                Seq<char>,
                FieldChangeView,
            >::empty(),
    ensures
        changed_count(files) == 0,
    decreases files.len(),
{
    if files.len() > 0 {
        let front = files.drop_last();
        assert forall|k: int| 0 <= k < front.len() implies (#[trigger] front[k]).changes == Map::<
            Seq<char>,
            FieldChangeView,
        >::empty() by {
            assert(front[k] == files[k]);
        }
        lemma_untouched_count(front);
        assert(files.last() == files[files.len() - 1]);
    }
}

/// What the scan builds for a book is a report of that book, whatever the
/// metadata.
pub proof fn lemma_built_reports(group: FileGroupView, index: nat)
    ensures
        reports_book(reused_group(index, group), group, index),
        forall|meta: BookMetadataView|
            reports_book(#[trigger] resolved_group(index, group, meta), group, index),
{
    lemma_untouched_count(reused_group(index, group).files);
}

/// Whether a state is one that a scan can be in.
pub open spec fn scan_is_sound(s: ScanView) -> bool {
    &&& forall|g: int| 0 <= g < s.groups.len() ==> (#[trigger] s.groups[g]).files.len() > 0
    &&& s.current <= s.groups.len()
    &&& s.results.len() == s.current
    &&& forall|i: int|
        0 <= i < s.results.len() ==> reports_book(#[trigger] s.results[i], s.groups[i], i as nat)
    &&& s.cache_hits <= s.current
    &&& !(s.phase is Idle || s.phase is Finished) ==> s.current < s.groups.len()
    &&& s.phase matches PhaseView::AwaitMerge { attempt, .. } ==> 1 <= attempt
    &&& (s.phase is AwaitIdentity || s.phase is AwaitMerge) ==> s.config.use_completion
}

/// A step keeps a sound state sound.
pub proof fn law_step_keeps_soundness(s: ScanView, event: ScanEventView, now: u64)
    requires
        scan_is_sound(s),
    ensures
        scan_is_sound(scan_step(s, event, now).0),
{
    if s.current < s.groups.len() {
        lemma_built_reports(s.groups[s.current as int], s.current);
    }
}

/// A step never touches the books of the scan, and it never takes back a
/// report: the reports before the step are the first reports after it.
pub proof fn law_step_keeps_books_and_reports(s: ScanView, event: ScanEventView, now: u64)
    requires
        scan_is_sound(s),
    ensures
        scan_step(s, event, now).0.groups == s.groups,
        scan_step(s, event, now).0.config == s.config,
        s.results.is_prefix_of(scan_step(s, event, now).0.results),
{
}

/// The reports of a scan stand in the strict order of their names, which
/// are the keys of their books.
pub proof fn law_reports_are_ordered(s: ScanView, files: Seq<crate::model::RawFileDataView>)
    requires
        scan_is_sound(s),
        is_grouping(s.groups, files),
    ensures
        forall|a: int, b: int|
            0 <= a < b < s.results.len() ==> crate::grouping::key_before(
                (#[trigger] s.results[a]).group_name,
                (#[trigger] s.results[b]).group_name,
            ),
{
    assert forall|a: int, b: int| 0 <= a < b < s.results.len() implies crate::grouping::key_before(
        (#[trigger] s.results[a]).group_name,
        (#[trigger] s.results[b]).group_name,
    ) by {
        assert(crate::grouping::key_before(s.groups[a].key, s.groups[b].key));
    }
}

/// Each report holds the files of its book: for the book of its name, the
/// files of the scan that belong to it, in the order of their file names,
/// each with the id, path and file name it came with.
pub proof fn law_reports_hold_the_files(
    s: ScanView,
    files: Seq<crate::model::RawFileDataView>,
    i: int,
)
    requires
        scan_is_sound(s),
        is_grouping(s.groups, files),
        0 <= i < s.results.len(),
    ensures
        reports_book(s.results[i], s.groups[i], i as nat),
        s.groups[i].files == crate::grouping::sort_by_name(
            crate::grouping::members(files, s.results[i].group_name),
        ),
        s.results[i].files.len() > 0,
{
}

/// A book that the cache holds under the identity read straight from its
/// tags is done in one step, without any call to the completion service or
/// to a catalog, and its report carries the cached metadata.
pub proof fn law_cache_hit_asks_nothing(s: ScanView, now: u64)
    requires
        scan_is_sound(s),
        s.phase is Idle,
        s.current < s.groups.len(),
        !already_processed(s.groups[s.current as int].files[0].tags),
        s.cache.contains_key(
            cache_key(
                quick_identity(
                    s.groups[s.current as int].files[0].tags,
                    s.groups[s.current as int].key,
                ).title,
                quick_identity(
                    s.groups[s.current as int].files[0].tags,
                    s.groups[s.current as int].key,
                ).author,
            ),
        ),
    ensures
        !is_outside_call(scan_step(s, ScanEventView::Next { cancelled: false }, now).1),
        scan_step(s, ScanEventView::Next { cancelled: false }, now).0.phase is Idle,
        scan_step(s, ScanEventView::Next { cancelled: false }, now).0.cache == s.cache,
        scan_step(s, ScanEventView::Next { cancelled: false }, now).0.results.last().metadata
            == s.cache[cache_key(
            quick_identity(
                s.groups[s.current as int].files[0].tags,
                s.groups[s.current as int].key,
            ).title,
            quick_identity(
                s.groups[s.current as int].files[0].tags,
                s.groups[s.current as int].key,
            ).author,
        )].metadata,
{
}

/// A book that the cache holds under the identity that the completion
/// service gave is done on that reply, without any call to a catalog or any
/// merge attempt.
pub proof fn law_cache_hit_after_identity(s: ScanView, reply: Option<Seq<char>>, now: u64)
    requires
        scan_is_sound(s),
        s.phase is AwaitIdentity,
        s.cache.contains_key(
            cache_key(
                identity_of_reply(
                    reply,
                    s.groups[s.current as int].files[0].tags,
                    s.groups[s.current as int].key,
                ).title,
                identity_of_reply(
                    reply,
                    s.groups[s.current as int].files[0].tags,
                    s.groups[s.current as int].key,
                ).author,
            ),
        ),
    ensures
        !is_outside_call(scan_step(s, ScanEventView::Identity { reply }, now).1),
        scan_step(s, ScanEventView::Identity { reply }, now).0.phase is Idle,
        scan_step(s, ScanEventView::Identity { reply }, now).0.cache == s.cache,
        scan_step(s, ScanEventView::Identity { reply }, now).0.cache_hits == s.cache_hits + 1,
{
}

/// A book whose first file is already normalized is done in one step without
/// any outside call, and none of its files is changed.
pub proof fn law_normalized_book_asks_nothing(s: ScanView, now: u64)
    requires
        scan_is_sound(s),
        s.phase is Idle,
        s.current < s.groups.len(),
        already_processed(s.groups[s.current as int].files[0].tags),
    ensures
        !is_outside_call(scan_step(s, ScanEventView::Next { cancelled: false }, now).1),
        scan_step(s, ScanEventView::Next { cancelled: false }, now).0.results.last().total_changes
            == 0,
        scan_step(s, ScanEventView::Next { cancelled: false }, now).0.cache == s.cache,
{
}

/// A cancelled scan starts no further book: it ends with the reports it has.
pub proof fn law_cancelled_scan_ends(s: ScanView, now: u64)
    requires
        s.phase is Idle,
    ensures
        scan_step(s, ScanEventView::Next { cancelled: true }, now).1 is Finished,
        scan_step(s, ScanEventView::Next { cancelled: true }, now).0.phase is Finished,
        scan_step(s, ScanEventView::Next { cancelled: true }, now).0.results == s.results,
{
}

/// The identity of the book that the scan waits on a catalog or a merge for.
pub open spec fn book_identity(s: ScanView) -> BookIdentityView
    recommends
        s.phase is AwaitAudible || s.phase is AwaitGoogle || s.phase is AwaitMerge,
{
    match s.phase {
        PhaseView::AwaitAudible { identity } => identity,
        PhaseView::AwaitGoogle { identity, .. } => identity,
        PhaseView::AwaitMerge { identity, .. } => identity,
        _ => BookIdentityView { title: Seq::empty(), author: Seq::empty() },
    }
}

/// The outcome that the step after a merge attempt works with.
pub open spec fn attempt_outcome(
    s: ScanView,
    reconciled: Option<BookMetadataView>,
) -> BookMetadataView
    recommends
        s.phase is AwaitMerge,
{
    merge_outcome(
        reconciled,
        s.phase->AwaitMerge_identity.title,
        s.phase->AwaitMerge_identity.author,
        s.phase->AwaitMerge_google,
        s.phase->AwaitMerge_audible,
    )
}

/// The score of the outcome of a merge attempt.
pub open spec fn attempt_score(s: ScanView, reconciled: Option<BookMetadataView>) -> nat
    recommends
        s.phase is AwaitMerge,
{
    quality_score(
        attempt_outcome(s, reconciled),
        s.phase->AwaitMerge_identity.title,
        s.phase->AwaitMerge_audible,
    )
}

/// An attempt that falls short of the accepting score, and is not the last
/// one allowed, is followed by another attempt with the same sources.
pub proof fn law_poor_attempt_is_repeated(
    s: ScanView,
    reconciled: Option<BookMetadataView>,
    now: u64,
)
    requires
        scan_is_sound(s),
        s.phase matches PhaseView::AwaitMerge { attempt, .. } && attempt < s.config.max_attempts,
        attempt_score(s, reconciled) < crate::merge::ACCEPT_SCORE,
    ensures
        scan_step(s, ScanEventView::Merged { reconciled }, now).1 is AskMerge,
        scan_step(s, ScanEventView::Merged { reconciled }, now).0.phase == (PhaseView::AwaitMerge {
            identity: s.phase->AwaitMerge_identity,
            google: s.phase->AwaitMerge_google,
            audible: s.phase->AwaitMerge_audible,
            attempt: s.phase->AwaitMerge_attempt + 1,
        }),
        scan_step(s, ScanEventView::Merged { reconciled }, now).0.results == s.results,
        scan_step(s, ScanEventView::Merged { reconciled }, now).0.cache == s.cache,
{
}

/// An attempt that reaches the accepting score ends the book with its
/// outcome, whichever attempt it is.
pub proof fn law_good_attempt_ends_book(s: ScanView, reconciled: Option<BookMetadataView>, now: u64)
    requires
        scan_is_sound(s),
        s.phase is AwaitMerge,
        attempt_score(s, reconciled) >= crate::merge::ACCEPT_SCORE,
    ensures
        scan_step(s, ScanEventView::Merged { reconciled }, now).1 is Report,
        scan_step(s, ScanEventView::Merged { reconciled }, now).0.results.last().metadata
            == attempt_outcome(s, reconciled),
{
}

/// The state after the driver has answered the first `count` merge prompts
/// of a book, attempt number `k` with the record `replies(k)`.
pub open spec fn after_merges(
    s: ScanView,
    replies: spec_fn(nat) -> Option<BookMetadataView>,
    count: nat,
    now: u64,
) -> ScanView
    decreases count,
{
    if count == 0 {
        s
    } else {
        scan_step(
            after_merges(s, replies, (count - 1) as nat, now),
            ScanEventView::Merged { reconciled: replies(count) },
            now,
        ).0
    }
}

proof fn lemma_poor_attempts(
    s: ScanView,
    replies: spec_fn(nat) -> Option<BookMetadataView>,
    count: nat,
    now: u64,
)
    requires
        scan_is_sound(s),
        s.phase matches PhaseView::AwaitMerge { attempt, .. } && attempt == 1,
        count < s.config.max_attempts,
        forall|k: nat|
            1 <= k <= s.config.max_attempts ==> attempt_score(s, #[trigger] replies(k))
                < crate::merge::ACCEPT_SCORE,
    ensures
        scan_is_sound(after_merges(s, replies, count, now)),
        after_merges(s, replies, count, now) == (ScanView {
            phase: PhaseView::AwaitMerge {
                identity: s.phase->AwaitMerge_identity,
                google: s.phase->AwaitMerge_google,
                audible: s.phase->AwaitMerge_audible,
                attempt: count + 1,
            },
            ..s
        }),
    decreases count,
{
    if count > 0 {
        let before = after_merges(s, replies, (count - 1) as nat, now);
        lemma_poor_attempts(s, replies, (count - 1) as nat, now);
        assert(attempt_score(before, replies(count)) == attempt_score(s, replies(count)));
        law_poor_attempt_is_repeated(before, replies(count), now);
        law_step_keeps_soundness(before, ScanEventView::Merged { reconciled: replies(count) }, now);
    }
}

/// Where no merge attempt of a book reaches the accepting score, the scan
/// asks for exactly `max_attempts` attempts: after fewer replies it waits
/// for the next attempt with nothing reported, and the reply to attempt
/// number `max_attempts` ends the book with the outcome of that last attempt.
pub proof fn law_exhausted_book_keeps_last_attempt(
    s: ScanView,
    replies: spec_fn(nat) -> Option<BookMetadataView>,
    now: u64,
)
    requires
        scan_is_sound(s),
        s.phase matches PhaseView::AwaitMerge { attempt, .. } && attempt == 1,
        s.config.max_attempts >= 1,
        forall|k: nat|
            1 <= k <= s.config.max_attempts ==> attempt_score(s, #[trigger] replies(k))
                < crate::merge::ACCEPT_SCORE,
    ensures
        forall|k: nat|
            k < s.config.max_attempts ==> (#[trigger] after_merges(s, replies, k, now)).phase
                is AwaitMerge && after_merges(s, replies, k, now).phase->AwaitMerge_attempt == k + 1
                && after_merges(s, replies, k, now).results == s.results,
        after_merges(s, replies, s.config.max_attempts as nat, now).phase is Idle,
        after_merges(s, replies, s.config.max_attempts as nat, now).results.len()
            == s.results.len() + 1,
        after_merges(s, replies, s.config.max_attempts as nat, now).results.last().metadata
            == attempt_outcome(s, replies(s.config.max_attempts as nat)),
{
    let max = s.config.max_attempts as nat;
    assert forall|k: nat| k < max implies (#[trigger] after_merges(s, replies, k, now)).phase
        is AwaitMerge && after_merges(s, replies, k, now).phase->AwaitMerge_attempt == k + 1
        && after_merges(s, replies, k, now).results == s.results by {
        lemma_poor_attempts(s, replies, k, now);
    }
    let before = after_merges(s, replies, (max - 1) as nat, now);
    lemma_poor_attempts(s, replies, (max - 1) as nat, now);
    assert(attempt_outcome(before, replies(max)) == attempt_outcome(s, replies(max)));
    law_last_attempt_ends_book(before, replies(max), now);
}

/// Without a completion service the scan asks for no completion, neither for
/// the identity of a book nor for a merge.
pub proof fn law_no_service_no_prompt(s: ScanView, event: ScanEventView, now: u64)
    requires
        scan_is_sound(s),
        !s.config.use_completion,
    ensures
        !(scan_step(s, event, now).1 is AskIdentity),
        !(scan_step(s, event, now).1 is AskMerge),
{
}

/// Without a completion service a book is done once Google Books has
/// answered, with the fallback record: the identity, description, publisher
/// and ISBN of Google Books, narrator, series and sequence of Audible, and
/// the reliable year. This holds with both catalogs silent too.
pub proof fn law_no_service_gives_fallback(
    s: ScanView,
    candidate: Option<GoogleMetadataView>,
    now: u64,
)
    requires
        scan_is_sound(s),
        !s.config.use_completion,
        s.phase is AwaitGoogle,
    ensures
        scan_step(s, ScanEventView::Google { candidate }, now).1 is Report,
        scan_step(s, ScanEventView::Google { candidate }, now).0.results.last().metadata
            == fallback_metadata(
            book_identity(s).title,
            book_identity(s).author,
            candidate,
            s.phase->AwaitGoogle_audible,
        ),
{
}

/// A book that is done on the answer of a catalog or of the reconciliation
/// service is reported, and goes into the cache, with at most three genres,
/// each a label of the approved vocabulary.
pub proof fn law_merged_book_has_approved_genres(s: ScanView, event: ScanEventView, now: u64)
    requires
        scan_is_sound(s),
        s.phase is AwaitGoogle || s.phase is AwaitMerge,
        scan_step(s, event, now).1 is Report,
    ensures
        crate::genres::is_normal(scan_step(s, event, now).0.results.last().metadata.genres),
        scan_step(s, event, now).0.cache.dom() == s.cache.dom().insert(
            cache_key(book_identity(s).title, book_identity(s).author),
        ),
        crate::genres::is_normal(
            scan_step(s, event, now).0.cache[cache_key(
                book_identity(s).title,
                book_identity(s).author,
            )].metadata.genres,
        ),
{
    let identity = book_identity(s);
    match (s.phase, event) {
        (PhaseView::AwaitGoogle { audible, .. }, ScanEventView::Google { candidate }) => {
            crate::merge::law_outcome_has_approved_genres(
                None,
                identity.title,
                identity.author,
                candidate,
                audible,
            );
        },
        (PhaseView::AwaitMerge { google, audible, .. }, ScanEventView::Merged { reconciled }) => {
            crate::merge::law_outcome_has_approved_genres(
                reconciled,
                identity.title,
                identity.author,
                google,
                audible,
            );
        },
        _ => {},
    }
}

/// A merge attempt past the last one allowed is never asked for: whatever
/// the outcome of attempt number `max_attempts`, the book is done with that
/// outcome, which also goes into the cache under the identity of the book.
pub proof fn law_last_attempt_ends_book(
    s: ScanView,
    reconciled: Option<BookMetadataView>,
    now: u64,
)
    requires
        scan_is_sound(s),
        s.phase matches PhaseView::AwaitMerge { attempt, .. } && attempt >= s.config.max_attempts,
    ensures
        scan_step(s, ScanEventView::Merged { reconciled }, now).1 is Report,
        scan_step(s, ScanEventView::Merged { reconciled }, now).0.phase is Idle,
        scan_step(s, ScanEventView::Merged { reconciled }, now).0.results.len() == s.results.len()
            + 1,
        scan_step(s, ScanEventView::Merged { reconciled }, now).0.results.last().metadata
            == attempt_outcome(s, reconciled),
        scan_step(s, ScanEventView::Merged { reconciled }, now).0.cache == s.cache.insert(
            cache_key(s.phase->AwaitMerge_identity.title, s.phase->AwaitMerge_identity.author),
            CachedEntryView { metadata: attempt_outcome(s, reconciled), timestamp: now },
        ),
{
}


/// Counts the files for which a change is proposed.
pub fn count_changed(files: &Vec<AudioFile>) -> (r: usize)
    ensures
        r == changed_count(audio_file_views(files@)),
        r <= files.len(),
{
    let mut n: usize = 0;
    let mut i: usize = 0;
    let ghost all = audio_file_views(files@);
    assert(changed_count(all.take(0)) == 0);
    while i < files.len()
        invariant
            i <= files.len(),
            n <= i,
            all == audio_file_views(files@),
            n == changed_count(all.take(i as int)),
        decreases files.len() - i,
    {
        proof {
            let now = all.take(i + 1);
            assert(now.drop_last() == all.take(i as int));
            assert(now.last() == files@[i as int]@);
            let changes = files@[i as int].changes;
            if changes@ == Map::<Seq<char>, crate::model::FieldChange>::empty() {
                assert(crate::model::change_views(changes) =~= Map::<
                    Seq<char>,
                    FieldChangeView,
                >::empty());
            } else {
                let k = choose|k: Seq<char>| changes@.contains_key(k);
                if !changes@.contains_key(k) {
                    assert(changes@ =~= Map::<Seq<char>, crate::model::FieldChange>::empty());
                }
                assert(crate::model::change_views(changes).contains_key(k));
            }
        }
        if !files[i].changes.is_empty() {
            n += 1;
        }
        i += 1;
    }
    assert(all.take(files.len() as int) == all);
    n
}

/// Reports a book whose canonical metadata is `metadata`.
pub fn build_resolved_group(id: usize, group: &FileGroup, metadata: BookMetadata) -> (r: BookGroup)
    ensures
        r@ == resolved_group(id as nat, group@, metadata@),
{
    let mut files: Vec<AudioFile> = Vec::new();
    let mut i: usize = 0;
    let ghost want = Seq::new(
        group@.files.len(),
        |i: int| audio_file_of(group@.files[i], metadata@),
    );
    while i < group.files.len()
        invariant
            i <= group.files.len(),
            want == Seq::new(
                group@.files.len(),
                |i: int| audio_file_of(group@.files[i], metadata@),
            ),
            audio_file_views(files@) == want.take(i as int),
        decreases group.files.len() - i,
    {
        let ghost before = files@;
        let file = diff_file(&group.files[i], &metadata);
        assert(group@.files[i as int] == group.files@[i as int]@);
        files.push(file);
        assert(audio_file_views(files@) == audio_file_views(before).push(file@));
        i += 1;
    }
    assert(want.take(group.files.len() as int) == want);
    let total_changes = count_changed(&files);
    BookGroup {
        id: decimal_string(id),
        group_name: group.key.clone(),
        group_type: detect_group_type(group.files.as_slice()),
        files,
        metadata,
        total_changes,
    }
}

/// Reports a book whose tags are already normalized.
pub fn build_reused_group(id: usize, group: &FileGroup) -> (r: BookGroup)
    requires
        group.files.len() > 0,
    ensures
        r@ == reused_group(id as nat, group@),
{
    let mut files: Vec<AudioFile> = Vec::new();
    let mut i: usize = 0;
    let ghost want = Seq::new(group@.files.len(), |i: int| untouched_file_of(group@.files[i]));
    while i < group.files.len()
        invariant
            i <= group.files.len(),
            want == Seq::new(group@.files.len(), |i: int| untouched_file_of(group@.files[i])),
            audio_file_views(files@) == want.take(i as int),
        decreases group.files.len() - i,
    {
        let ghost before = files@;
        let file = keep_file(&group.files[i]);
        assert(group@.files[i as int] == group.files@[i as int]@);
        files.push(file);
        assert(audio_file_views(files@) == audio_file_views(before).push(file@));
        i += 1;
    }
    assert(want.take(group.files.len() as int) == want);
    assert(group@.files[0] == group.files@[0]@);
    BookGroup {
        id: decimal_string(id),
        group_name: group.key.clone(),
        group_type: detect_group_type(group.files.as_slice()),
        files,
        metadata: metadata_from_tags(&group.files[0].tags, group.key.as_str()),
        total_changes: 0,
    }
}

/// A scan in progress.
#[derive(Debug)]
pub struct Scan {
    groups: Vec<FileGroup>,
    current: usize,
    phase: Phase,
    cache: MetadataCache,
    config: ScanConfig,
    results: Vec<BookGroup>,
    cache_hits: usize,
}

impl View for Scan {
    type V = ScanView;

    closed spec fn view(&self) -> ScanView {
        ScanView {
            groups: file_group_views(self.groups@),
            current: self.current as nat,
            phase: self.phase@,
            cache: self.cache@,
            config: self.config,
            results: group_views(self.results@),
            cache_hits: self.cache_hits as nat,
        }
    }
}

struct Parts {
    groups: Vec<FileGroup>,
    current: usize,
    cache: MetadataCache,
    config: ScanConfig,
    results: Vec<BookGroup>,
    cache_hits: usize,
}

impl Parts {
    spec fn with_phase(self, phase: PhaseView) -> ScanView {
        ScanView {
            groups: file_group_views(self.groups@),
            current: self.current as nat,
            phase,
            cache: self.cache@,
            config: self.config,
            results: group_views(self.results@),
            cache_hits: self.cache_hits as nat,
        }
    }

    spec fn in_book(self) -> bool {
        &&& scan_is_sound(self.with_phase(PhaseView::Idle))
        &&& self.current < self.groups.len()
    }

    fn into_scan(self, phase: Phase) -> (r: Scan)
        requires
            scan_is_sound(self.with_phase(phase@)),
        ensures
            r@ == self.with_phase(phase@),
    {
        Scan {
            groups: self.groups,
            current: self.current,
            phase,
            cache: self.cache,
            config: self.config,
            results: self.results,
            cache_hits: self.cache_hits,
        }
    }

    fn complete(self, report: BookGroup, cached: bool) -> (r: (Scan, ScanAction))
        requires
            self.in_book(),
            reports_book(report@, self.groups@[self.current as int]@, self.current as nat),
        ensures
            (r.0@, r.1@) == complete(self.with_phase(PhaseView::Idle), report@, cached),
    {
        let ghost before = group_views(self.results@);
        let Parts { groups, current, cache, config, results, cache_hits } = self;
        let mut results = results;
        assert(file_group_views(groups@).len() == groups.len());
        let action = ScanAction::Report {
            current: current + 1,
            total: groups.len(),
            group_name: groups[current].key.clone(),
            cached,
        };
        assert(file_group_views(groups@)[current as int].key == groups@[current as int].key@);
        results.push(report);
        assert(group_views(results@) == before.push(report@));
        let next = Parts {
            groups,
            current: current + 1,
            cache,
            config,
            results,
            cache_hits: if cached {
                cache_hits + 1
            } else {
                cache_hits
            },
        };
        (next.into_scan(Phase::Idle), action)
    }

    fn resolve(self, identity: BookIdentity, metadata: BookMetadata, now: u64) -> (r: (
        Scan,
        ScanAction,
    ))
        requires
            self.in_book(),
        ensures
            (r.0@, r.1@) == resolve(self.with_phase(PhaseView::Idle), identity@, metadata@, now),
    {
        let Parts { groups, current, cache, config, results, cache_hits } = self;
        let mut cache = cache;
        cache.store(identity.title.as_str(), identity.author.as_str(), metadata.clone(), now);
        assert(file_group_views(groups@)[current as int] == groups@[current as int]@);
        let report = build_resolved_group(current, &groups[current], metadata);
        let next = Parts { groups, current, cache, config, results, cache_hits };
        next.complete(report, false)
    }

    fn after_identity(self, identity: BookIdentity) -> (r: (Scan, ScanAction))
        requires
            self.in_book(),
        ensures
            (r.0@, r.1@) == after_identity(self.with_phase(PhaseView::Idle), identity@),
    {
        assert(file_group_views(self.groups@)[self.current as int]
            == self.groups@[self.current as int]@);
        match self.cache.lookup(identity.title.as_str(), identity.author.as_str()) {
            Some(metadata) => {
                let report = build_resolved_group(
                    self.current,
                    &self.groups[self.current],
                    metadata,
                );
                self.complete(report, true)
            },
            None => {
                let title = identity.title.clone();
                let author = identity.author.clone();
                if self.config.use_audible {
                    (
                        self.into_scan(Phase::AwaitAudible { identity }),
                        ScanAction::AskAudible { title, author },
                    )
                } else {
                    (
                        self.into_scan(Phase::AwaitGoogle { identity, audible: None }),
                        ScanAction::AskGoogle { title, author },
                    )
                }
            },
        }
    }

    fn after_sources(
        self,
        identity: BookIdentity,
        google: Option<GoogleMetadata>,
        audible: Option<AudibleMetadata>,
        now: u64,
    ) -> (r: (Scan, ScanAction))
        requires
            self.in_book(),
        ensures
            (r.0@, r.1@) == after_sources(
                self.with_phase(PhaseView::Idle),
                identity@,
                google_view(google),
                audible_view(audible),
                now,
            ),
    {
        assert(file_group_views(self.groups@)[self.current as int]
            == self.groups@[self.current as int]@);
        if self.config.use_completion {
            let group = &self.groups[self.current];
            let prompt = build_merge_prompt(
                &group.files,
                group.key.as_str(),
                identity.title.as_str(),
                identity.author.as_str(),
                &google,
                &audible,
            );
            (
                self.into_scan(Phase::AwaitMerge { identity, google, audible, attempt: 1 }),
                ScanAction::AskMerge { prompt },
            )
        } else {
            let metadata = build_fallback(
                identity.title.as_str(),
                identity.author.as_str(),
                &google,
                &audible,
            );
            self.resolve(identity, metadata, now)
        }
    }

    fn begin_group(self) -> (r: (Scan, ScanAction))
        requires
            self.in_book(),
        ensures
            (r.0@, r.1@) == begin_group(self.with_phase(PhaseView::Idle)),
    {
        assert(file_group_views(self.groups@)[self.current as int]
            == self.groups@[self.current as int]@);
        let group = &self.groups[self.current];
        assert(group@.files[0] == group.files@[0]@);
        let sample = &group.files[0];
        if is_already_processed(&sample.tags) {
            let report = build_reused_group(self.current, group);
            proof {
                lemma_built_reports(group@, self.current as nat);
            }
            return self.complete(report, false);
        }
        let quick = quick_identity_of(&sample.tags, group.key.as_str());
        match self.cache.lookup(quick.title.as_str(), quick.author.as_str()) {
            Some(metadata) => {
                let report = build_resolved_group(self.current, group, metadata);
                self.complete(report, true)
            },
            None => {
                if self.config.use_completion {
                    let prompt = build_identity_prompt(sample, group.key.as_str());
                    (self.into_scan(Phase::AwaitIdentity), ScanAction::AskIdentity { prompt })
                } else {
                    let identity = tag_identity_of(&sample.tags, group.key.as_str());
                    self.after_identity(identity)
                }
            },
        }
    }

    fn after_merge(
        self,
        identity: BookIdentity,
        google: Option<GoogleMetadata>,
        audible: Option<AudibleMetadata>,
        attempt: u32,
        reconciled: Option<BookMetadata>,
        now: u64,
    ) -> (r: (Scan, ScanAction))
        requires
            self.in_book(),
            1 <= attempt,
            self.config.use_completion,
        ensures
            (r.0@, r.1@) == after_merge(
                self.with_phase(PhaseView::Idle),
                identity@,
                google_view(google),
                audible_view(audible),
                attempt as nat,
                metadata_view(reconciled),
                now,
            ),
    {
        assert(file_group_views(self.groups@)[self.current as int]
            == self.groups@[self.current as int]@);
        let metadata = finish_merge(
            reconciled,
            identity.title.as_str(),
            identity.author.as_str(),
            &google,
            &audible,
        );
        let score = validate_metadata_quality(&metadata, identity.title.as_str(), &audible);
        match decide_retry(attempt, self.config.max_attempts, score) {
            RetryDecision::Retry => {
                let group = &self.groups[self.current];
                let prompt = build_merge_prompt(
                    &group.files,
                    group.key.as_str(),
                    identity.title.as_str(),
                    identity.author.as_str(),
                    &google,
                    &audible,
                );
                (
                    self.into_scan(
                        Phase::AwaitMerge { identity, google, audible, attempt: attempt + 1 },
                    ),
                    ScanAction::AskMerge { prompt },
                )
            },
            _ => self.resolve(identity, metadata, now),
        }
    }
}

impl Scan {
    #[verifier::type_invariant]
    spec fn sound(self) -> bool {
        scan_is_sound(self@)
    }

    /// Starts a scan of `files`: sorts them into books and waits for the
    /// first `Next`.
    pub fn new(files: &Vec<RawFileData>, cache: MetadataCache, config: ScanConfig) -> (r: Scan)
        ensures
            is_grouping(r@.groups, file_views(files@)),
            r@.current == 0,
            r@.phase is Idle,
            r@.cache == cache@,
            r@.config == config,
            r@.results == Seq::<BookGroupView>::empty(),
            r@.cache_hits == 0,
            scan_is_sound(r@),
    {
        let groups = group_files(files);
        let results: Vec<BookGroup> = Vec::new();
        assert(group_views(results@) == Seq::<BookGroupView>::empty());
        Scan { groups, current: 0, phase: Phase::Idle, cache, config, results, cache_hits: 0 }
    }

    /// Takes one step: the state and the action that follow from `event` at
    /// the time `now`, in seconds since the Unix epoch.
    pub fn advance(self, event: ScanEvent, now: u64) -> (r: (Scan, ScanAction))
        ensures
            (r.0@, r.1@) == scan_step(self@, event@, now),
            scan_is_sound(self@),
            scan_is_sound(r.0@),
    {
        proof {
            use_type_invariant(&self);
            law_step_keeps_soundness(self@, event@, now);
        }
        let Scan { groups, current, phase, cache, config, results, cache_hits } = self;
        let parts = Parts { groups, current, cache, config, results, cache_hits };
        match (phase, event) {
            (Phase::Finished, _) => (parts.into_scan(Phase::Finished), ScanAction::Finished),
            (Phase::Idle, ScanEvent::Next { cancelled }) => {
                if cancelled || parts.current >= parts.groups.len() {
                    (parts.into_scan(Phase::Finished), ScanAction::Finished)
                } else {
                    parts.begin_group()
                }
            },
            (Phase::AwaitIdentity, ScanEvent::Identity { reply }) => {
                assert(file_group_views(parts.groups@)[parts.current as int]
                    == parts.groups@[parts.current as int]@);
                let group = &parts.groups[parts.current];
                assert(group@.files[0] == group.files@[0]@);
                let identity = resolve_identity(&reply, &group.files[0].tags, group.key.as_str());
                parts.after_identity(identity)
            },
            (Phase::AwaitAudible { identity }, ScanEvent::Audible { found }) => {
                let title = identity.title.clone();
                let author = identity.author.clone();
                (
                    parts.into_scan(Phase::AwaitGoogle { identity, audible: found }),
                    ScanAction::AskGoogle { title, author },
                )
            },
            (Phase::AwaitGoogle { identity, audible }, ScanEvent::Google { candidate }) => {
                parts.after_sources(identity, candidate, audible, now)
            },
            (
                Phase::AwaitMerge { identity, google, audible, attempt },
                ScanEvent::Merged { reconciled },
            ) => parts.after_merge(identity, google, audible, attempt, reconciled, now),
            (phase, _) => (parts.into_scan(phase), ScanAction::Unexpected),
        }
    }

    /// Whether the scan has ended.
    pub fn is_finished(&self) -> (r: bool)
        ensures
            r == self@.phase is Finished,
    {
        match self.phase {
            Phase::Finished => true,
            _ => false,
        }
    }

    /// Number of books in the scan.
    pub fn total(&self) -> (r: usize)
        ensures
            r == self@.groups.len(),
    {
        self.groups.len()
    }

    /// Number of books that are done.
    pub fn done(&self) -> (r: usize)
        ensures
            r == self@.current,
    {
        self.current
    }

    /// Number of books that came from the cache.
    pub fn cache_hits(&self) -> (r: usize)
        ensures
            r == self@.cache_hits,
    {
        self.cache_hits
    }

    /// The cache as it stands, with what the scan has added to it so far.
    pub fn cache(&self) -> (r: &MetadataCache)
        ensures
            r@ == self@.cache,
    {
        &self.cache
    }

    /// The name of the book that the next `Next` starts, if it starts one:
    /// the scan is between two books and a book is left.
    pub fn next_book(&self) -> (r: Option<String>)
        ensures
            opt_view(r) == upcoming_book(self@),
    {
        proof {
            use_type_invariant(self);
        }
        match self.phase {
            Phase::Idle => {
                if self.current < self.groups.len() {
                    assert(file_group_views(self.groups@)[self.current as int]
                        == self.groups@[self.current as int]@);
                    Some(self.groups[self.current].key.clone())
                } else {
                    None
                }
            },
            _ => None,
        }
    }

    /// Ends the scan: the reports of the books that are done, in the order
    /// of their keys, and the cache with what the scan has added to it.
    pub fn into_results(self) -> (r: (Vec<BookGroup>, MetadataCache))
        ensures
            group_views(r.0@) == self@.results,
            r.1@ == self@.cache,
            scan_is_sound(self@),
    {
        proof {
            use_type_invariant(&self);
        }
        (self.results, self.cache)
    }
}

} // verus!
