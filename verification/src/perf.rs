//! A load on the viewer, to be measured.
use crate::app::state::{self, AppView};
use crate::app::{App, PromptKind};
use crate::model::{self, SourceConfig};
use crate::text::number::{self, decimal_chars};
use crate::text::{self, chars_of, push_chars, push_str, same, string_of};
use vstd::prelude::*;

verus! {

/// What the load is filtered by.
#[derive(Debug, Clone, Copy, PartialEq, Eq, Structural)]
pub enum BenchFilter {
    Unfiltered,
    Text,
    Source,
    Level,
    Property,
}

/// The name of a filter.
pub open spec fn filter_name(filter: BenchFilter) -> Seq<char> {
    match filter {
        BenchFilter::Unfiltered => "none"@,
        BenchFilter::Text => "text"@,
        BenchFilter::Source => "source"@,
        BenchFilter::Level => "level"@,
        BenchFilter::Property => "property"@,
    }
}

impl BenchFilter {
    /// The filter with a name.
    pub fn parse(value: &str) -> (result: Option<Self>)
        ensures
            match result {
                Some(filter) => value@ == filter_name(filter),
                None => forall|filter: BenchFilter| value@ != #[trigger] filter_name(filter),
            },
    {
        if same(value, "none") {
            Some(BenchFilter::Unfiltered)
        } else if same(value, "text") {
            Some(BenchFilter::Text)
        } else if same(value, "source") {
            Some(BenchFilter::Source)
        } else if same(value, "level") {
            Some(BenchFilter::Level)
        } else if same(value, "property") {
            Some(BenchFilter::Property)
        } else {
            None
        }
    }

    /// The name of the filter.
    pub fn as_str(self) -> (result: &'static str)
        ensures
            result@ == filter_name(self),
    {
        match self {
            BenchFilter::Unfiltered => "none",
            BenchFilter::Text => "text",
            BenchFilter::Source => "source",
            BenchFilter::Level => "level",
            BenchFilter::Property => "property",
        }
    }
}

/// How much load there is.
#[derive(Debug, Clone, Copy, PartialEq, Eq, Structural)]
pub struct BenchConfig {
    pub lines: usize,
    pub filter: BenchFilter,
    pub iterations: usize,
    pub viewport_width: u16,
    pub viewport_height: u16,
}

impl Default for BenchConfig {
    fn default() -> (result: Self)
        ensures
            result == (BenchConfig {
                lines: 100_000,
                filter: BenchFilter::Unfiltered,
                iterations: 20,
                viewport_width: 120,
                viewport_height: 40,
            }),
    {
        BenchConfig {
            lines: 100_000,
            filter: BenchFilter::Unfiltered,
            iterations: 20,
            viewport_width: 120,
            viewport_height: 40,
        }
    }
}

/// What was measured. Times are in nanoseconds.
#[derive(Debug, Clone, Copy, PartialEq, Eq, Structural)]
pub struct BenchReport {
    pub lines: usize,
    pub filter: BenchFilter,
    pub iterations: usize,
    pub retained: usize,
    pub visible: usize,
    pub ingest: u128,
    pub filter_apply: u128,
    pub visible_count: u128,
    pub viewport_iteration: u128,
    pub draw: u128,
}

/// What is typed for a filter, and where.
pub open spec fn typed_filter(filter: BenchFilter) -> Option<(PromptKind, Seq<char>)> {
    match filter {
        BenchFilter::Unfiltered => None,
        BenchFilter::Text => Some((PromptKind::Text, "request completed"@)),
        BenchFilter::Source => Some((PromptKind::Source, "api"@)),
        BenchFilter::Level => Some((PromptKind::Level, "error"@)),
        BenchFilter::Property => Some((PromptKind::IncludeProperty, "tenantId=tenant-4"@)),
    }
}

/// The viewer after something was typed into a prompt and applied.
pub open spec fn prompted(app: AppView, kind: PromptKind, value: Seq<char>) -> AppView {
    (AppView { prompt: value, ..app.prompting(kind) }).prompt_applied()
}

fn apply_prompt(app: &mut App, kind: PromptKind, value: &str)
    requires
        old(app).wf(),
    ensures
        final(app)@ == prompted(old(app)@, kind, value@),
        final(app).wf(),
{
    app.start_prompt(kind);
    let ghost opened = app@;
    while !app.prompt().is_empty()
        invariant
            app.wf(),
            app@ == (AppView { prompt: app@.prompt, ..opened }),
        decreases app@.prompt.len(),
    {
        app.pop_prompt_char();
    }
    let chars = chars_of(value);
    let mut i: usize = 0;
    assert(app@.prompt =~= value@.take(0));
    while i < chars.len()
        invariant
            i <= chars@.len(),
            chars@ == value@,
            app.wf(),
            app@ == (AppView { prompt: value@.take(i as int), ..opened }),
        decreases chars@.len() - i,
    {
        app.push_prompt_char(chars[i]);
        assert(value@.take(i + 1) =~= value@.take(i as int).push(value@[i as int]));
        i += 1;
    }
    assert(value@.take(i as int) =~= value@);
    app.apply_prompt();
}

/// Filters the load.
pub fn apply_filter(app: &mut App, filter: BenchFilter)
    requires
        old(app).wf(),
    ensures
        final(app)@ == match typed_filter(filter) {
            Some((kind, value)) => prompted(old(app)@, kind, value),
            None => old(app)@,
        },
        final(app).wf(),
{
    match filter {
        BenchFilter::Unfiltered => {},
        BenchFilter::Text => apply_prompt(app, PromptKind::Text, "request completed"),
        BenchFilter::Source => apply_prompt(app, PromptKind::Source, "api"),
        BenchFilter::Level => apply_prompt(app, PromptKind::Level, "error"),
        BenchFilter::Property => apply_prompt(
            app,
            PromptKind::IncludeProperty,
            "tenantId=tenant-4",
        ),
    }
}

/// A text with zeros before it, up to some length.
pub open spec fn zero_padded(digits: Seq<char>, width: int) -> Seq<char> {
    if digits.len() >= width {
        digits
    } else {
        Seq::new((width - digits.len()) as nat, |i: int| '0') + digits
    }
}

/// The source of a line of the load.
pub open spec fn line_source(index: int) -> Seq<char> {
    if index % 4 == 0 {
        "api"@
    } else if index % 4 == 1 {
        "worker"@
    } else if index % 4 == 2 {
        "web"@
    } else {
        "db"@
    }
}

/// The level of a line of the load.
pub open spec fn line_level(index: int) -> Seq<char> {
    if index % 8 == 0 {
        "ERROR"@
    } else if index % 8 == 1 || index % 8 == 2 {
        "WARN"@
    } else {
        "INFO"@
    }
}

/// A line of the load.
pub open spec fn load_line(index: int) -> Seq<char> {
    line_source(index) + " | "@ + line_level(index) + " request completed tenantId=tenant-"@
        + number::decimal((index % 10) as nat) + " requestId=req-"@ + zero_padded(
        number::decimal(index as nat),
        8,
    ) + " durationMs="@ + number::decimal((15 + index % 200) as nat)
}

/// A line of the load.
pub fn synthetic_line(index: usize) -> (result: String)
    ensures
        result@ == load_line(index as int),
{
    let source = match index % 4 {
        0 => "api",
        1 => "worker",
        2 => "web",
        _ => "db",
    };
    let level = match index % 8 {
        0 => "ERROR",
        1 | 2 => "WARN",
        _ => "INFO",
    };
    let mut out: Vec<char> = Vec::new();
    push_str(&mut out, source);
    assert(out@ =~= line_source(index as int));
    push_str(&mut out, " | ");
    push_str(&mut out, level);
    push_str(&mut out, " request completed tenantId=tenant-");
    push_chars(&mut out, decimal_chars((index % 10) as u128).as_slice());
    push_str(&mut out, " requestId=req-");
    let digits = decimal_chars(index as u128);
    let ghost before = out@;
    let mut zeros: usize = 0;
    assert(before + Seq::new(0, |i: int| '0') =~= before);
    while zeros + digits.len() < 8
        invariant
            zeros + digits@.len() <= 8 || zeros == 0,
            out@ == before + Seq::new(zeros as nat, |i: int| '0'),
        decreases 8 - zeros,
    {
        out.push('0');
        assert(before + Seq::new((zeros + 1) as nat, |i: int| '0') =~= (before + Seq::new(
            zeros as nat,
            |i: int| '0',
        )).push('0'));
        zeros += 1;
    }
    push_chars(&mut out, digits.as_slice());
    assert(out@ =~= before + zero_padded(digits@, 8));
    push_str(&mut out, " durationMs=");
    push_chars(&mut out, decimal_chars(15 + (index % 200) as u128).as_slice());
    string_of(out.as_slice())
}

/// The viewer after so many lines of the load.
pub open spec fn loaded(start: AppView, count: int) -> AppView
    decreases count,
{
    if count <= 0 {
        start
    } else {
        loaded(start, count - 1).received(load_line(count - 1))
    }
}

/// The viewer with the load in it.
pub fn load_app(lines: usize) -> (result: App)
    ensures
        result.wf(),
        result@ == loaded(
            state::start(
                if lines == 0 {
                    1
                } else {
                    lines as int
                },
                model::source_config(Seq::empty()).fields,
            ),
            lines as int,
        ),
{
    let mut app = App::with_source_config(
        if lines == 0 {
            1
        } else {
            lines
        },
        SourceConfig::default(),
    );
    let ghost start = app@;
    let mut index: usize = 0;
    while index < lines
        invariant
            index <= lines,
            app.wf(),
            app@.buffer.next <= index,
            app@ == loaded(start, index as int),
        decreases lines - index,
    {
        app.push_line(synthetic_line(index));
        index += 1;
    }
    app
}

// ---------------------------------------------------------------------------
// Laws
// ---------------------------------------------------------------------------

/// The load is what is left of its lines, received one after the other.
pub proof fn law_load_is_its_lines(start: AppView, count: nat)
    ensures
        loaded(start, count as int) == Seq::new(count, |i: int| load_line(i)).fold_left(
            start,
            |app: AppView, line: Seq<char>| app.received(line),
        ),
    decreases count,
{
    let lines = Seq::new(count, |i: int| load_line(i));
    reveal(Seq::fold_left);
    if count > 0 {
        let front = Seq::new((count - 1) as nat, |i: int| load_line(i));
        law_load_is_its_lines(start, (count - 1) as nat);
        assert(lines.drop_last() =~= front);
    }
}

/// The lines of the load come from four sources in turn; of eight lines the first is
/// an error and the next two are warnings.
pub proof fn law_load_goes_round(round: int)
    ensures
        line_source(4 * round) == "api"@,
        line_source(4 * round + 1) == "worker"@,
        line_source(4 * round + 2) == "web"@,
        line_source(4 * round + 3) == "db"@,
        line_level(8 * round) == "ERROR"@,
        line_level(8 * round + 1) == "WARN"@,
        line_level(8 * round + 2) == "WARN"@,
        forall|i: int| 3 <= i < 8 ==> #[trigger] line_level(8 * round + i) == "INFO"@,
{
}

/// A text is padded with zeros in front of it, and kept whole.
pub proof fn law_zeros_stand_in_front(digits: Seq<char>, width: int, i: int)
    ensures
        digits.len() >= width ==> zero_padded(digits, width) == digits,
        digits.len() < width ==> zero_padded(digits, width).len() == width,
        digits.len() < width && 0 <= i < width - digits.len() ==> zero_padded(digits, width)[i]
            == '0',
        digits.len() < width && 0 <= i < digits.len() ==> zero_padded(digits, width)[width
            - digits.len() + i] == digits[i],
{
}

/// A line of the load begins with its source and its level.
pub proof fn law_load_lines_begin_with_their_source(index: int)
    ensures
        (line_source(index) + " | "@ + line_level(index) + " request completed tenantId="@)
            .is_prefix_of(load_line(index)),
{
    reveal_strlit(" request completed tenantId=tenant-");
    reveal_strlit(" request completed tenantId=");
    let head = line_source(index) + " | "@ + line_level(index);
    let tail = " request completed tenantId=tenant-"@;
    let first = " request completed tenantId="@;
    assert(first =~= tail.take(first.len() as int));
    assert((head + first) =~= load_line(index).take((head + first).len() as int));
}

} // verus!
