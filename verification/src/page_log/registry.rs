//! Which pages are active: what the files that tell of them say, and what is to
//! be done about each.
use crate::facet::tally;
use crate::model::SourceConfig;
use crate::page_log::files::{self, is_generation_log_file_name, legacy_log_file_name};
use crate::page_log::{self, LogPageId};
use crate::sort::{self, sort, Ordered};
use crate::text::number;
use crate::text::order::{self, str_before};
use crate::text::{self, concat, copy_str, copy_strings, opt_same, same};
use std::collections::VecDeque;
use vstd::prelude::*;

verus! {

broadcast use text::lemma_views_push;

/// The version of a lease whose owner holds the lock of its page.
pub const ACTIVE_LOG_PAGE_LEASE_VERSION: u32 = 1;

/// An active page.
#[derive(Debug, PartialEq, Eq)]
pub struct ActiveLogPage {
    pub id: String,
    pub pid: u32,
    pub started_unix_seconds: u64,
    pub command: String,
}

/// What an active page is.
pub struct PageView {
    pub id: Seq<char>,
    pub pid: u32,
    pub started: u64,
    pub command: Seq<char>,
}

impl View for ActiveLogPage {
    type V = PageView;

    open spec fn view(&self) -> PageView {
        PageView {
            id: self.id@,
            pid: self.pid,
            started: self.started_unix_seconds,
            command: self.command@,
        }
    }
}

/// What the file of an active page says.
#[derive(Debug, PartialEq, Eq)]
pub struct ActiveLogPageMetadata {
    pub lease_version: Option<u32>,
    pub id: String,
    pub pid: u32,
    pub started_unix_seconds: u64,
    pub command: String,
    pub source_fields: Vec<String>,
    pub log_file: Option<String>,
    pub ready: bool,
}

/// What the file of an active page is.
pub struct MetadataView {
    pub lease_version: Option<u32>,
    pub page: PageView,
    pub source_fields: Seq<Seq<char>>,
    pub log_file: Option<Seq<char>>,
    pub ready: bool,
}

impl View for ActiveLogPageMetadata {
    type V = MetadataView;

    open spec fn view(&self) -> MetadataView {
        MetadataView {
            lease_version: self.lease_version,
            page: PageView {
                id: self.id@,
                pid: self.pid,
                started: self.started_unix_seconds,
                command: self.command@,
            },
            source_fields: text::views(self.source_fields@),
            log_file: text::opt_view(self.log_file),
            ready: self.ready,
        }
    }
}

impl MetadataView {
    /// Whether the owner holds the lock of its page for as long as it lives.
    pub open spec fn stable(self, locking: bool) -> bool {
        locking && self.lease_version == Some(ACTIVE_LOG_PAGE_LEASE_VERSION)
    }

    /// The log of the page, where the name of it can be one.
    pub open spec fn log_name(self, id: Seq<char>) -> Option<Seq<char>> {
        match self.log_file {
            Some(name) => if files::is_generation(id, name) {
                Some(name)
            } else {
                None
            },
            None => Some(id + ".log"@),
        }
    }

    /// The log that goes when the page is found to be stale. A page without
    /// generations has one once it is ready.
    pub open spec fn stale_log(self) -> Option<Seq<char>> {
        if !page_log::is_id(text::trim(self.page.id)) || (self.log_file is None && !self.ready) {
            None
        } else {
            self.log_name(text::trim(self.page.id))
        }
    }

    /// Whether a page is one that lives without a lock.
    pub open spec fn lives_unlocked(self, process_active: bool, locking: bool) -> bool {
        !self.stable(locking) && process_active
    }
}

impl ActiveLogPageMetadata {
    /// What a page says of itself before its log can be read.
    pub fn pending(
        id: &LogPageId,
        pid: u32,
        started_unix_seconds: u64,
        command: &str,
        source_config: &SourceConfig,
        log_file: String,
    ) -> (result: Self)
        ensures
            result@ == (MetadataView {
                lease_version: Some(ACTIVE_LOG_PAGE_LEASE_VERSION),
                page: PageView {
                    id: id@,
                    pid,
                    started: started_unix_seconds,
                    command: command@,
                },
                source_fields: source_config@.configured,
                log_file: Some(log_file@),
                ready: false,
            }),
    {
        ActiveLogPageMetadata {
            lease_version: Some(ACTIVE_LOG_PAGE_LEASE_VERSION),
            id: copy_str(id.as_str()),
            pid,
            started_unix_seconds,
            command: copy_str(command),
            source_fields: copy_strings(source_config.configured_fields()),
            log_file: Some(log_file),
            ready: false,
        }
    }

    /// The page, as it is listed.
    pub fn public_page(&self) -> (result: ActiveLogPage)
        ensures
            result@ == self@.page,
    {
        ActiveLogPage {
            id: self.id.clone(),
            pid: self.pid,
            started_unix_seconds: self.started_unix_seconds,
            command: self.command.clone(),
        }
    }

    /// Whether the owner holds the lock of its page for as long as it lives,
    /// where files can be locked.
    pub fn uses_stable_lock(&self, locking: bool) -> (result: bool)
        ensures
            result == self@.stable(locking),
    {
        match self.lease_version {
            Some(version) => locking && version == ACTIVE_LOG_PAGE_LEASE_VERSION,
            None => false,
        }
    }

    /// Whether two files say the same.
    pub fn same_as(&self, other: &Self) -> (result: bool)
        ensures
            result == (self@ == other@),
    {
        let same_lease = match (self.lease_version, other.lease_version) {
            (Some(left), Some(right)) => left == right,
            (None, None) => true,
            _ => false,
        };
        same_lease && same(self.id.as_str(), other.id.as_str()) && self.pid == other.pid
            && self.started_unix_seconds == other.started_unix_seconds && same(
            self.command.as_str(),
            other.command.as_str(),
        ) && same_strings(&self.source_fields, &other.source_fields) && opt_same(
            &self.log_file,
            &other.log_file,
        ) && self.ready == other.ready
    }

    fn log_file_name(&self, id: &LogPageId) -> (result: Option<String>)
        ensures
            text::opt_view(result) == self@.log_name(id@),
    {
        match &self.log_file {
            Some(name) => if is_generation_log_file_name(id, name.as_str()) {
                Some(name.clone())
            } else {
                None
            },
            None => Some(legacy_log_file_name(id)),
        }
    }

    /// The log that goes when the page is found to be stale.
    pub fn stale_log_file(&self) -> (result: Option<String>)
        ensures
            text::opt_view(result) == self@.stale_log(),
    {
        match LogPageId::parse(self.id.as_str()) {
            Ok(id) => if self.log_file.is_none() && !self.ready {
                None
            } else {
                self.log_file_name(&id)
            },
            Err(_) => None,
        }
    }
}

fn same_strings(left: &Vec<String>, right: &Vec<String>) -> (result: bool)
    ensures
        result == (text::views(left@) == text::views(right@)),
{
    let ghost a = text::views(left@);
    let ghost b = text::views(right@);
    assert(a.len() == left@.len() && b.len() == right@.len());
    if left.len() != right.len() {
        return false;
    }
    let mut i: usize = 0;
    while i < left.len()
        invariant
            i <= left@.len(),
            left@.len() == right@.len(),
            a == text::views(left@),
            b == text::views(right@),
            forall|j: int| 0 <= j < i ==> #[trigger] a[j] == b[j],
        decreases left@.len() - i,
    {
        if !same(left[i].as_str(), right[i].as_str()) {
            assert(a[i as int] != b[i as int]);
            return false;
        }
        assert(a[i as int] == b[i as int]);
        i += 1;
    }
    assert(a =~= b);
    true
}

// ---------------------------------------------------------------------------
// Finding a page
// ---------------------------------------------------------------------------

/// What tells whether a page lives.
#[derive(Debug, Clone, Copy, PartialEq, Eq, Structural)]
pub enum PageProbe {
    /// Nothing: there is no such page.
    Missing,
    /// Whether its lock is held.
    Lock,
    /// Whether its process runs.
    Process,
}

/// What was found of whether a page lives.
#[derive(Debug, PartialEq, Eq)]
pub enum PageLiveness {
    /// Its lock could be taken.
    LockFree,
    /// Its lock is held, and then its file says this.
    LockHeld(Option<ActiveLogPageMetadata>),
    /// Its process runs.
    Running,
    /// Its process is gone.
    Gone,
}

/// What tells whether a page lives, where its file says something.
pub open spec fn probe_of(id: Seq<char>, metadata: Option<MetadataView>, locking: bool) -> PageProbe {
    match metadata {
        None => PageProbe::Missing,
        Some(metadata) => if !metadata.ready || metadata.page.id != id {
            PageProbe::Missing
        } else if metadata.stable(locking) {
            PageProbe::Lock
        } else {
            PageProbe::Process
        },
    }
}

/// Whether a page lives, by what was found of it. The file of a page that holds
/// its lock must not have changed.
pub open spec fn lives(metadata: MetadataView, liveness: PageLiveness, locking: bool) -> bool {
    if metadata.stable(locking) {
        match liveness {
            PageLiveness::LockHeld(Some(current)) => current@ == metadata,
            _ => false,
        }
    } else {
        liveness is Running
    }
}

/// What tells whether a page lives.
pub fn page_probe(id: &LogPageId, metadata: &Option<ActiveLogPageMetadata>, locking: bool) -> (result:
    PageProbe)
    ensures
        result == probe_of(id@, text::opt_view(*metadata), locking),
{
    match metadata {
        None => PageProbe::Missing,
        Some(metadata) => if !metadata.ready || !same(metadata.id.as_str(), id.as_str()) {
            PageProbe::Missing
        } else if metadata.uses_stable_lock(locking) {
            PageProbe::Lock
        } else {
            PageProbe::Process
        },
    }
}

/// The log of an active page; none where there is no such page.
pub fn resolve_active_log_page(
    id: &LogPageId,
    metadata: &Option<ActiveLogPageMetadata>,
    liveness: &PageLiveness,
    locking: bool,
) -> (result: Option<String>)
    ensures
        text::opt_view(result) == match text::opt_view(*metadata) {
            Some(metadata) => if !(probe_of(id@, Some(metadata), locking) is Missing) && lives(
                metadata,
                *liveness,
                locking,
            ) {
                metadata.log_name(id@)
            } else {
                None
            },
            None => None,
        },
{
    let metadata = match metadata {
        Some(metadata) => metadata,
        None => {
            return None;
        },
    };
    if !metadata.ready || !same(metadata.id.as_str(), id.as_str()) {
        return None;
    }
    let alive = match liveness {
        PageLiveness::LockHeld(Some(current)) => metadata.uses_stable_lock(locking)
            && current.same_as(metadata),
        PageLiveness::Running => !metadata.uses_stable_lock(locking),
        _ => false,
    };
    if alive {
        metadata.log_file_name(id)
    } else {
        None
    }
}

// ---------------------------------------------------------------------------
// Listing pages
// ---------------------------------------------------------------------------

/// What is to be done about a file that tells of a page.
#[derive(Debug, PartialEq, Eq)]
pub enum ScanStep {
    Skip,
    List(ActiveLogPage),
    TryLock(LogPageId),
    RemoveInvalid,
    RemoveMismatched,
    Reap(Option<String>),
}

/// What a step is.
pub enum ScanView {
    Skip,
    List(PageView),
    TryLock(Seq<char>),
    RemoveInvalid,
    RemoveMismatched,
    Reap(Option<Seq<char>>),
}

impl View for ScanStep {
    type V = ScanView;

    open spec fn view(&self) -> ScanView {
        match self {
            ScanStep::Skip => ScanView::Skip,
            ScanStep::List(page) => ScanView::List(page@),
            ScanStep::TryLock(id) => ScanView::TryLock(id@),
            ScanStep::RemoveInvalid => ScanView::RemoveInvalid,
            ScanStep::RemoveMismatched => ScanView::RemoveMismatched,
            ScanStep::Reap(log) => ScanView::Reap(text::opt_view(*log)),
        }
    }
}

/// A page is listed once it is ready.
pub open spec fn listed(metadata: MetadataView) -> ScanView {
    if metadata.ready {
        ScanView::List(metadata.page)
    } else {
        ScanView::Skip
    }
}

/// What is to be done about a file with a name, by what it says. A file whose
/// name is not that of its page is left alone.
pub open spec fn scanned(
    file_name: Seq<char>,
    metadata: Option<MetadataView>,
    process_active: bool,
    locking: bool,
) -> ScanView {
    match metadata {
        None => ScanView::Skip,
        Some(metadata) => {
            let id = text::trim(metadata.page.id);
            if !page_log::is_id(id) || id + ".json"@ != file_name {
                ScanView::Skip
            } else if metadata.lives_unlocked(process_active, locking) {
                listed(metadata)
            } else {
                ScanView::TryLock(id)
            }
        },
    }
}

/// What is to be done about the file of a page whose lock is held here, by what
/// it says now.
pub open spec fn scanned_under_lock(
    id: Seq<char>,
    current: Option<MetadataView>,
    process_active: bool,
    locking: bool,
) -> ScanView {
    match current {
        None => ScanView::RemoveInvalid,
        Some(current) => if current.page.id != id {
            ScanView::RemoveMismatched
        } else if current.lives_unlocked(process_active, locking) {
            listed(current)
        } else {
            ScanView::Reap(current.stale_log())
        },
    }
}

fn list_if_ready(metadata: &ActiveLogPageMetadata) -> (result: ScanStep)
    ensures
        result@ == listed(metadata@),
{
    if metadata.ready {
        ScanStep::List(metadata.public_page())
    } else {
        ScanStep::Skip
    }
}

/// What is to be done about a file that tells of a page.
pub fn scan_entry(
    file_name: &str,
    metadata: &Option<ActiveLogPageMetadata>,
    process_active: bool,
    locking: bool,
) -> (result: ScanStep)
    ensures
        result@ == scanned(file_name@, text::opt_view(*metadata), process_active, locking),
{
    let metadata = match metadata {
        Some(metadata) => metadata,
        None => {
            return ScanStep::Skip;
        },
    };
    let id = match LogPageId::parse(metadata.id.as_str()) {
        Ok(id) => id,
        Err(_) => {
            return ScanStep::Skip;
        },
    };
    if !same(concat(id.as_str(), ".json").as_str(), file_name) {
        return ScanStep::Skip;
    }
    if !metadata.uses_stable_lock(locking) && process_active {
        return list_if_ready(metadata);
    }
    ScanStep::TryLock(id)
}

/// Whether the file of a page whose lock is held elsewhere is read once more: by
/// the lock a page that is ready shows that it lives.
pub fn lives_by_lock(metadata: &ActiveLogPageMetadata, locking: bool) -> (result: bool)
    ensures
        result == (metadata@.stable(locking) && metadata@.ready),
{
    metadata.uses_stable_lock(locking) && metadata.ready
}

/// Whether a page whose lock is held elsewhere is listed: where its file says
/// the same as before.
pub fn scan_locked_elsewhere(
    metadata: &ActiveLogPageMetadata,
    current: &Option<ActiveLogPageMetadata>,
    locking: bool,
) -> (result: ScanStep)
    ensures
        result@ == if metadata@.stable(locking) && metadata@.ready && text::opt_view(*current)
            == Some(metadata@) {
            ScanView::List(metadata@.page)
        } else {
            ScanView::Skip
        },
{
    let unchanged = match current {
        Some(current) => current.same_as(metadata),
        None => false,
    };
    if lives_by_lock(metadata, locking) && unchanged {
        ScanStep::List(metadata.public_page())
    } else {
        ScanStep::Skip
    }
}

/// What is to be done about the file of a page whose lock is held here.
pub fn scan_under_lock(
    id: &LogPageId,
    current: &Option<ActiveLogPageMetadata>,
    process_active: bool,
    locking: bool,
) -> (result: ScanStep)
    ensures
        result@ == scanned_under_lock(id@, text::opt_view(*current), process_active, locking),
{
    match current {
        None => ScanStep::RemoveInvalid,
        Some(current) => if !same(current.id.as_str(), id.as_str()) {
            ScanStep::RemoveMismatched
        } else if !current.uses_stable_lock(locking) && process_active {
            list_if_ready(current)
        } else {
            ScanStep::Reap(current.stale_log_file())
        },
    }
}

impl Ordered for ActiveLogPage {
    open spec fn le(a: PageView, b: PageView) -> bool {
        tally::text_le(a.id, b.id)
    }

    proof fn lemma_total(a: PageView, b: PageView) {
        tally::lemma_text_le(a.id, b.id, b.id);
    }

    proof fn lemma_transitive(a: PageView, b: PageView, c: PageView) {
        tally::lemma_text_le(a.id, b.id, c.id);
    }

    fn at_most(&self, other: &Self) -> (result: bool) {
        proof {
            order::lemma_before_total(self.id@, other.id@);
        }
        !str_before(other.id.as_str(), self.id.as_str())
    }
}

/// Active pages in the order of their ids.
pub fn active_log_pages(pages: VecDeque<ActiveLogPage>) -> (result: VecDeque<ActiveLogPage>)
    ensures
        sort::sorted::<ActiveLogPage>(text::views(result@)),
        sort::same_items(text::views(result@), text::views(pages@)),
        sort::stable::<ActiveLogPage>(text::views(result@), text::views(pages@)),
        result@.len() == pages@.len(),
{
    sort(pages)
}

// ---------------------------------------------------------------------------
// Claiming a page
// ---------------------------------------------------------------------------

/// What is to be done before a page whose lock is held here is claimed.
#[derive(Debug, PartialEq, Eq)]
pub enum ClaimStep {
    InUse,
    RemoveInvalid,
    RemoveMismatched,
    Reap(Option<String>),
}

/// What a step of claiming is.
pub enum ClaimView {
    InUse,
    RemoveInvalid,
    RemoveMismatched,
    Reap(Option<Seq<char>>),
}

impl View for ClaimStep {
    type V = ClaimView;

    open spec fn view(&self) -> ClaimView {
        match self {
            ClaimStep::InUse => ClaimView::InUse,
            ClaimStep::RemoveInvalid => ClaimView::RemoveInvalid,
            ClaimStep::RemoveMismatched => ClaimView::RemoveMismatched,
            ClaimStep::Reap(log) => ClaimView::Reap(text::opt_view(*log)),
        }
    }
}

/// What is to be done about a file that is in the way of a claim. To hold the
/// lock shows that an owner that holds it while it lives is gone; of any other
/// its process tells.
pub open spec fn claiming(
    id: Seq<char>,
    existing: Option<MetadataView>,
    process_active: bool,
    locking: bool,
) -> ClaimView {
    match existing {
        None => ClaimView::RemoveInvalid,
        Some(existing) => if existing.page.id != id {
            ClaimView::RemoveMismatched
        } else if existing.lives_unlocked(process_active, locking) {
            ClaimView::InUse
        } else {
            ClaimView::Reap(existing.stale_log())
        },
    }
}

/// What is to be done about a file that is in the way of a claim.
pub fn claim_step(
    id: &LogPageId,
    existing: &Option<ActiveLogPageMetadata>,
    process_active: bool,
    locking: bool,
) -> (result: ClaimStep)
    ensures
        result@ == claiming(id@, text::opt_view(*existing), process_active, locking),
{
    match existing {
        None => ClaimStep::RemoveInvalid,
        Some(existing) => if !same(existing.id.as_str(), id.as_str()) {
            ClaimStep::RemoveMismatched
        } else if !existing.uses_stable_lock(locking) && process_active {
            ClaimStep::InUse
        } else {
            ClaimStep::Reap(existing.stale_log_file())
        },
    }
}

/// Whether the id that a number is belongs to an active page.
pub open spec fn number_is_active(pages: Seq<PageView>, number: u64) -> bool {
    exists|i: int| 0 <= i < pages.len() && (#[trigger] pages[i]).id == number::decimal(number as nat)
}

/// The least number above another whose id belongs to no active page.
pub fn next_page_number(active: &VecDeque<ActiveLogPage>, after: u64) -> (result: Option<u64>)
    ensures
        match result {
            Some(number) => {
                &&& after < number
                &&& !number_is_active(text::views(active@), number)
                &&& forall|other: u64|
                    after < other < number ==> #[trigger] number_is_active(
                        text::views(active@),
                        other,
                    )
            },
            None => forall|other: u64|
                after < other ==> #[trigger] number_is_active(text::views(active@), other),
        },
{
    let mut last: u64 = after;
    while last < u64::MAX
        invariant
            after <= last,
            forall|other: u64|
                after < other <= last ==> #[trigger] number_is_active(text::views(active@), other),
        decreases u64::MAX - last,
    {
        let candidate = last + 1;
        let id = LogPageId::numbered(candidate);
        if !lists_id(active, id.as_str()) {
            return Some(candidate);
        }
        last = candidate;
    }
    None
}

fn lists_id(pages: &VecDeque<ActiveLogPage>, id: &str) -> (result: bool)
    ensures
        result == exists|i: int|
            0 <= i < text::views(pages@).len() && (#[trigger] text::views(pages@)[i]).id == id@,
{
    let ghost all = text::views(pages@);
    let mut i: usize = 0;
    while i < pages.len()
        invariant
            i <= pages@.len(),
            all == text::views(pages@),
            forall|j: int| 0 <= j < i ==> (#[trigger] all[j]).id != id@,
        decreases pages@.len() - i,
    {
        if same(pages[i].id.as_str(), id) {
            assert(all[i as int].id == id@);
            return true;
        }
        assert(all[i as int].id != id@);
        i += 1;
    }
    false
}

// ---------------------------------------------------------------------------
// The size of a page
// ---------------------------------------------------------------------------

/// How many lines a page keeps, and how many its log holds.
#[derive(Debug, Clone, Copy, PartialEq, Eq, Structural)]
pub struct PageLogWindow {
    pub max_lines: usize,
    pub lines_written: usize,
}

impl PageLogWindow {
    /// The window of an empty log.
    pub fn new(max_lines: usize) -> (result: Self)
        ensures
            result == (PageLogWindow { max_lines, lines_written: 0 }),
    {
        PageLogWindow { max_lines, lines_written: 0 }
    }

    /// Whether the log holds so many lines that it is written anew.
    pub open spec fn is_full(self) -> bool {
        self.max_lines > 0 && (self.lines_written >= 2 * self.max_lines || self.lines_written
            == usize::MAX)
    }

    /// Counts a line, and tells whether the log is to be written anew.
    pub fn record_line(&mut self) -> (result: bool)
        requires
            old(self).lines_written < usize::MAX,
        ensures
            *final(self) == (PageLogWindow {
                lines_written: (old(self).lines_written + 1) as usize,
                ..*old(self)
            }),
            result == final(self).is_full(),
    {
        self.lines_written += 1;
        self.max_lines > 0 && self.lines_written >= self.max_lines.saturating_add(self.max_lines)
    }

    /// Counts the lines of a log that was written anew.
    pub fn compact(&mut self, retained: usize)
        ensures
            *final(self) == (PageLogWindow { lines_written: retained, ..*old(self) }),
    {
        self.lines_written = retained;
    }
}

// ---------------------------------------------------------------------------
// Laws
// ---------------------------------------------------------------------------

/// A log that goes with a stale page is one of that page, and is in the
/// directory of logs.
pub proof fn law_stale_log_belongs_to_its_page(metadata: MetadataView)
    ensures
        match metadata.stale_log() {
            Some(name) => {
                let id = text::trim(metadata.page.id);
                page_log::is_id(id) && (name == id + ".log"@ || files::is_generation(id, name))
                    && text::all_name_chars(name)
            },
            None => true,
        },
{
    match metadata.stale_log() {
        Some(name) => {
            let id = text::trim(metadata.page.id);
            if metadata.log_file is None {
                reveal_strlit(".log");
                assert forall|i: int| 0 <= i < name.len() implies text::is_name_char(
                    #[trigger] name[i],
                ) by {
                    if i < id.len() {
                        assert(name[i] == id[i]);
                    } else {
                        assert(name[i] == ".log"@[i - id.len()]);
                    }
                }
            }
        },
        None => {},
    }
}

/// A page that lives is never taken over: a claim finds it in use, and a scan
/// does not reap it.
pub proof fn law_living_page_is_kept(
    id: Seq<char>,
    metadata: MetadataView,
    locking: bool,
)
    requires
        metadata.page.id == id,
        metadata.lives_unlocked(true, locking),
    ensures
        claiming(id, Some(metadata), true, locking) is InUse,
        scanned_under_lock(id, Some(metadata), true, locking) == listed(metadata),
{
}

/// A page that is pending is neither found nor listed.
pub proof fn law_pending_page_is_hidden(
    id: Seq<char>,
    file_name: Seq<char>,
    metadata: MetadataView,
    process_active: bool,
    locking: bool,
)
    requires
        !metadata.ready,
    ensures
        probe_of(id, Some(metadata), locking) is Missing,
        !(scanned(file_name, Some(metadata), process_active, locking) is List),
        !(scanned_under_lock(id, Some(metadata), process_active, locking) is List),
{
}

/// A log that is written anew whenever it is full never holds more than twice
/// the lines that are kept.
pub proof fn law_log_is_bounded(window: PageLogWindow)
    requires
        window.max_lines > 0,
        !window.is_full(),
    ensures
        window.lines_written + 1 <= 2 * window.max_lines,
{
}

} // verus!
