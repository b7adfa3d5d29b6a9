//! Log pages: the lines of a running session, kept where other sessions can
//! query them.
pub mod files;
pub mod laws;
pub mod query;
pub mod record;
pub mod registry;
pub mod replay;

use crate::facet::{MAX_FACET_RECORD_LIMIT, MIN_FACET_RECORD_LIMIT};
use crate::filter::{self, FilterView, LogFilter, PropertyFilterUpdate};
use crate::model::{Level, SourceConfig, SourceConfigView};
use crate::text::bytes::{self, str_len};
use crate::text::number::{self, decimal_string};
use crate::text::{
    self, chars_all_name_chars, chars_of, chars_trim, concat, concat3, copy_opt, copy_str,
    copy_strings, same, string_of,
};
use vstd::prelude::*;

verus! {

broadcast use text::lemma_views_push;

/// How many bytes the id of a page has at most.
pub const MAX_ID_LEN: usize = 128;

/// The id of a page.
#[derive(Debug, PartialEq, Eq)]
pub struct LogPageId {
    text: String,
}

impl View for LogPageId {
    type V = Seq<char>;

    closed spec fn view(&self) -> Seq<char> {
        self.text@
    }
}

impl Clone for LogPageId {
    fn clone(&self) -> (result: Self)
        ensures
            result@ == self@,
    {
        LogPageId { text: self.text.clone() }
    }
}

/// Whether a text is the id of a page: one that can stand in a file's name.
pub open spec fn is_id(text: Seq<char>) -> bool {
    &&& 0 < text.len()
    &&& bytes::byte_len(text) <= MAX_ID_LEN
    &&& text != "."@
    &&& text != ".."@
    &&& text::all_name_chars(text)
}

/// What is wrong with the id of a page.
pub open spec fn id_error(text: Seq<char>) -> Seq<char> {
    if text.len() == 0 {
        "log page id must not be empty"@
    } else if bytes::byte_len(text) > MAX_ID_LEN {
        "log page id must be at most 128 characters"@
    } else if text == "."@ || text == ".."@ {
        "log page id must not be . or .."@
    } else {
        "log page id may only contain letters, numbers, '.', '_' and '-'"@
    }
}

/// Why a text is not the id of a page.
#[derive(Debug, PartialEq, Eq)]
pub struct LogPageIdError {
    pub message: String,
}

impl View for LogPageIdError {
    type V = Seq<char>;

    open spec fn view(&self) -> Seq<char> {
        self.message@
    }
}

impl LogPageIdError {
    fn new(message: &str) -> (result: Self)
        ensures
            result@ == message@,
    {
        LogPageIdError { message: copy_str(message) }
    }

    /// The error in words.
    pub fn message(&self) -> (result: &str)
        ensures
            result@ == self@,
    {
        self.message.as_str()
    }
}

impl LogPageId {
    /// Reads an id, without the space around it.
    pub fn parse(input: &str) -> (result: Result<Self, LogPageIdError>)
        ensures
            match result {
                Ok(id) => is_id(text::trim(input@)) && id@ == text::trim(input@),
                Err(error) => !is_id(text::trim(input@)) && error@ == id_error(text::trim(input@)),
            },
    {
        let all = chars_of(input);
        let chars = chars_trim(all.as_slice());
        let trimmed = string_of(chars);
        if trimmed.as_str().is_empty() {
            return Err(LogPageIdError::new("log page id must not be empty"));
        }
        if str_len(trimmed.as_str()) > MAX_ID_LEN {
            return Err(LogPageIdError::new("log page id must be at most 128 characters"));
        }
        if same(trimmed.as_str(), ".") || same(trimmed.as_str(), "..") {
            return Err(LogPageIdError::new("log page id must not be . or .."));
        }
        if !chars_all_name_chars(chars) {
            return Err(
                LogPageIdError::new(
                    "log page id may only contain letters, numbers, '.', '_' and '-'",
                ),
            );
        }
        Ok(LogPageId { text: trimmed })
    }

    /// The id that a number is.
    pub fn numbered(number: u64) -> (result: Self)
        ensures
            result@ == number::decimal(number as nat),
    {
        LogPageId { text: decimal_string(number as u128) }
    }

    /// The id as text.
    pub fn as_str(&self) -> (result: &str)
        ensures
            result@ == self@,
    {
        self.text.as_str()
    }
}

/// What can go wrong with pages.
#[derive(Debug, PartialEq, Eq)]
pub enum LogPageError {
    MissingPage { id: LogPageId, path: String },
    ActivePageIdInUse(LogPageId),
    InvalidPropertyFilter(String),
    Io { action: &'static str, path: String, reason: String },
    Output(String),
}

/// What an error is.
pub enum PageErrorView {
    MissingPage { id: Seq<char>, path: Seq<char> },
    ActivePageIdInUse(Seq<char>),
    InvalidPropertyFilter(Seq<char>),
    Io { action: Seq<char>, path: Seq<char>, reason: Seq<char> },
    Output(Seq<char>),
}

impl View for LogPageError {
    type V = PageErrorView;

    open spec fn view(&self) -> PageErrorView {
        match self {
            LogPageError::MissingPage { id, path } => PageErrorView::MissingPage {
                id: id@,
                path: path@,
            },
            LogPageError::ActivePageIdInUse(id) => PageErrorView::ActivePageIdInUse(id@),
            LogPageError::InvalidPropertyFilter(value) => PageErrorView::InvalidPropertyFilter(
                value@,
            ),
            LogPageError::Io { action, path, reason } => PageErrorView::Io {
                action: action@,
                path: path@,
                reason: reason@,
            },
            LogPageError::Output(reason) => PageErrorView::Output(reason@),
        }
    }
}

impl PageErrorView {
    /// The error in words.
    pub open spec fn message(self) -> Seq<char> {
        match self {
            PageErrorView::MissingPage { id, path } => "no log page found for id '"@ + id
                + "' at "@ + path,
            PageErrorView::ActivePageIdInUse(id) => "log page id '"@ + id
                + "' is already active"@,
            PageErrorView::InvalidPropertyFilter(value) => "invalid property filter '"@ + value
                + "'"@,
            PageErrorView::Io { action, path, reason } => "failed to "@ + action + " "@ + path
                + ": "@ + reason,
            PageErrorView::Output(reason) => "failed to write log output: "@ + reason,
        }
    }
}

impl LogPageError {
    /// The error in words.
    pub fn message(&self) -> (result: String)
        ensures
            result@ == self@.message(),
    {
        match self {
            LogPageError::MissingPage { id, path } => {
                let head = concat3("no log page found for id '", id.as_str(), "' at ");
                concat(head.as_str(), path.as_str())
            },
            LogPageError::ActivePageIdInUse(id) => concat3(
                "log page id '",
                id.as_str(),
                "' is already active",
            ),
            LogPageError::InvalidPropertyFilter(value) => concat3(
                "invalid property filter '",
                value.as_str(),
                "'",
            ),
            LogPageError::Io { action, path, reason } => {
                let head = concat3("failed to ", action, " ");
                let middle = concat3(head.as_str(), path.as_str(), ": ");
                concat(middle.as_str(), reason.as_str())
            },
            LogPageError::Output(reason) => concat(
                "failed to write log output: ",
                reason.as_str(),
            ),
        }
    }
}

/// What can go wrong when a page is divided into facets.
#[non_exhaustive]
#[derive(Debug, PartialEq, Eq)]
pub enum FacetQueryError {
    InvalidRecordWindow { value: usize },
    Page(LogPageError),
}

impl FacetQueryError {
    /// The error in words.
    pub fn message(&self) -> (result: String)
        ensures
            result@ == match self {
                FacetQueryError::InvalidRecordWindow { value } => "facet record window "@
                    + number::decimal(*value as nat) + " is outside "@ + number::decimal(
                    MIN_FACET_RECORD_LIMIT as nat,
                ) + "..="@ + number::decimal(MAX_FACET_RECORD_LIMIT as nat),
                FacetQueryError::Page(error) => error@.message(),
            },
    {
        match self {
            FacetQueryError::InvalidRecordWindow { value } => {
                let least = decimal_string(MIN_FACET_RECORD_LIMIT as u128);
                let most = decimal_string(MAX_FACET_RECORD_LIMIT as u128);
                let shown = decimal_string(*value as u128);
                let head = concat3("facet record window ", shown.as_str(), " is outside ");
                let middle = concat3(head.as_str(), least.as_str(), "..=");
                concat(middle.as_str(), most.as_str())
            },
            FacetQueryError::Page(error) => error.message(),
        }
    }
}

/// What is asked of the end of a page.
#[derive(Debug, PartialEq, Eq)]
pub struct LogPageTailOptions {
    pub line_count: usize,
    pub source: Option<String>,
    pub text: Option<String>,
    pub property_filters: Vec<String>,
    pub source_config: SourceConfig,
}

/// What is asked of a page.
#[non_exhaustive]
#[derive(Debug, PartialEq, Eq)]
pub struct LogPageQueryOptions {
    pub line_count: usize,
    pub source: Option<String>,
    pub text: Option<String>,
    pub level: Option<Level>,
    pub property_filters: Vec<String>,
    pub source_config: SourceConfig,
}

/// What a question is.
pub struct QueryView {
    pub line_count: int,
    pub source: Option<Seq<char>>,
    pub text: Option<Seq<char>>,
    pub level: Option<Level>,
    pub property_filters: Seq<Seq<char>>,
    pub source_config: SourceConfigView,
}

impl View for LogPageTailOptions {
    type V = QueryView;

    open spec fn view(&self) -> QueryView {
        QueryView {
            line_count: self.line_count as int,
            source: text::opt_view(self.source),
            text: text::opt_view(self.text),
            level: None,
            property_filters: text::views(self.property_filters@),
            source_config: self.source_config@,
        }
    }
}

impl View for LogPageQueryOptions {
    type V = QueryView;

    open spec fn view(&self) -> QueryView {
        QueryView {
            line_count: self.line_count as int,
            source: text::opt_view(self.source),
            text: text::opt_view(self.text),
            level: self.level,
            property_filters: text::views(self.property_filters@),
            source_config: self.source_config@,
        }
    }
}

/// The question for a number of records and nothing else.
pub open spec fn plain_query(line_count: int) -> QueryView {
    QueryView {
        line_count,
        source: None,
        text: None,
        level: None,
        property_filters: Seq::empty(),
        source_config: crate::model::source_config(Seq::empty()),
    }
}

impl LogPageTailOptions {
    /// Asks for a number of lines.
    pub fn new(line_count: usize) -> (result: Self)
        ensures
            result@ == plain_query(line_count as int),
    {
        let result = LogPageTailOptions {
            line_count,
            source: None,
            text: None,
            property_filters: Vec::new(),
            source_config: SourceConfig::default(),
        };
        assert(result@.property_filters =~= Seq::<Seq<char>>::empty());
        result
    }
}

impl Clone for LogPageQueryOptions {
    fn clone(&self) -> (result: Self)
        ensures
            result@ == self@,
    {
        LogPageQueryOptions {
            line_count: self.line_count,
            source: copy_opt(&self.source),
            text: copy_opt(&self.text),
            level: self.level,
            property_filters: copy_strings(&self.property_filters),
            source_config: self.source_config.clone(),
        }
    }
}

impl LogPageQueryOptions {
    /// Asks for a number of records.
    pub fn new(line_count: usize) -> (result: Self)
        ensures
            result@ == plain_query(line_count as int),
    {
        let result = LogPageQueryOptions {
            line_count,
            source: None,
            text: None,
            level: None,
            property_filters: Vec::new(),
            source_config: SourceConfig::default(),
        };
        assert(result@.property_filters =~= Seq::<Seq<char>>::empty());
        result
    }

    /// What is asked of the end of a page, of records of any level.
    pub fn from_tail(options: &LogPageTailOptions) -> (result: Self)
        ensures
            result@ == options@,
    {
        LogPageQueryOptions {
            line_count: options.line_count,
            source: copy_opt(&options.source),
            text: copy_opt(&options.text),
            level: None,
            property_filters: copy_strings(&options.property_filters),
            source_config: options.source_config.clone(),
        }
    }

    /// What is asked, with the source fields of the page after those asked for.
    pub fn for_page(&self, source_fields: &[String]) -> (result: Self)
        ensures
            result@ == self@.for_page(text::views(source_fields@)),
    {
        let mut options = self.clone();
        options.source_config = self.source_config.merged_with_configured_fields(source_fields);
        options
    }
}

/// A typed condition, or none where nothing is typed.
pub open spec fn typed(value: Option<Seq<char>>) -> Option<Seq<char>> {
    match value {
        Some(value) => if text::trim(value).len() == 0 {
            None
        } else {
            Some(text::trim(value))
        },
        None => None,
    }
}

/// The first of some conditions that cannot be read, or their number.
pub open spec fn bad_filter(filters: Seq<Seq<char>>) -> int
    decreases filters.len(),
{
    if filters.len() == 0 || filter::typed_update(filters[0], false) is None {
        0
    } else {
        1 + bad_filter(filters.drop_first())
    }
}

/// A filter with typed conditions added.
pub open spec fn with_filters(base: FilterView, filters: Seq<Seq<char>>) -> FilterView
    decreases filters.len(),
{
    if filters.len() == 0 {
        base
    } else {
        match filter::typed_update(filters.last(), false) {
            Some(update) => with_filters(base, filters.drop_last()).added(update),
            None => with_filters(base, filters.drop_last()),
        }
    }
}

impl QueryView {
    /// What is asked, with the source fields of the page after those asked for.
    pub open spec fn for_page(self, source_fields: Seq<Seq<char>>) -> QueryView {
        QueryView {
            source_config: crate::model::source_config(
                crate::model::add_fields(self.source_config.configured, source_fields),
            ),
            ..self
        }
    }

    /// The filter that is asked for.
    pub open spec fn filter(self) -> FilterView {
        with_filters(
            FilterView {
                source: typed(self.source),
                text: typed(self.text),
                level: self.level,
                ..filter::no_filter()
            },
            self.property_filters,
        )
    }

    /// The first condition that cannot be read.
    pub open spec fn error(self) -> Option<PageErrorView> {
        let bad = bad_filter(self.property_filters);
        if bad < self.property_filters.len() {
            Some(PageErrorView::InvalidPropertyFilter(self.property_filters[bad]))
        } else {
            None
        }
    }
}

/// Trims what is typed, where it is more than space.
fn typed_value(value: &Option<String>) -> (result: Option<String>)
    ensures
        text::opt_view(result) == typed(text::opt_view(*value)),
{
    match value {
        Some(value) => {
            let all = chars_of(value.as_str());
            let trimmed = string_of(chars_trim(all.as_slice()));
            if trimmed.as_str().is_empty() {
                None
            } else {
                Some(trimmed)
            }
        },
        None => None,
    }
}

/// The filter that is asked for.
pub fn log_filter_for_options(options: &LogPageQueryOptions) -> (result: Result<
    LogFilter,
    LogPageError,
>)
    ensures
        match result {
            Ok(filter) => options@.error() is None && filter@ == options@.filter(),
            Err(error) => options@.error() == Some(error@),
        },
{
    let mut filter = LogFilter::default();
    filter.source = typed_value(&options.source);
    filter.text = typed_value(&options.text);
    filter.level = options.level;
    let ghost base = filter@;
    let ghost all = options@.property_filters;
    let mut i: usize = 0;
    assert(all.skip(0) =~= all);
    assert(all.take(0) =~= Seq::<Seq<char>>::empty());
    while i < options.property_filters.len()
        invariant
            i <= options.property_filters@.len(),
            all == text::views(options.property_filters@),
            bad_filter(all) == i + bad_filter(all.skip(i as int)),
            filter@ == with_filters(base, all.take(i as int)),
            options@.property_filters == all,
        decreases options.property_filters@.len() - i,
    {
        match PropertyFilterUpdate::parse(options.property_filters[i].as_str(), false) {
            Some(update) => {
                filter.add_property_filter(update);
            },
            None => {
                return Err(
                    LogPageError::InvalidPropertyFilter(options.property_filters[i].clone()),
                );
            },
        }
        assert(all.skip(i as int).drop_first() =~= all.skip(i + 1));
        assert(all.take(i + 1).drop_last() =~= all.take(i as int));
        i += 1;
    }
    assert(all.take(i as int) =~= all);
    Ok(filter)
}

} // verus!
