//! Reading the pricing tables out of the documentation's Markdown.
//!
//! Each level-three heading names a provider; each body row of a table that
//! follows it becomes an entry of that provider, its cells found by the
//! normalized titles of the table's columns.
use vstd::prelude::*;

use pulldown_cmark::Event::{
    Code as CmCode, DisplayMath as CmDisplayMath, End as CmEnd, FootnoteReference as CmFootnoteReference,
    HardBreak as CmHardBreak, Html as CmHtml, InlineHtml as CmInlineHtml, InlineMath as CmInlineMath,
    Rule as CmRule, SoftBreak as CmSoftBreak, Start as CmStart, TaskListMarker as CmTaskListMarker,
    Text as CmText,
};
use pulldown_cmark::{Options, Parser};

use crate::data::{
    entry_data, entry_rendered_by, price_outcome, release_status_named, tier_named, EntryData,
    LlmCostEntry, Price, PricingData, ReleaseStatus, Tier,
};
use crate::error::{ErrorView, GhLlmCostError};
use crate::text::{
    chars_of, concat, is_white_space, is_whitespace, lowercase, remove_char, replace,
    replace_char, str_eq, to_lowercase, trim, trimmed, views, without_char,
};

use self::MarkdownEvent::{
    Code, DisplayMath, End, FootnoteReference, HardBreak, Html, InlineHtml, InlineMath, Rule,
    SoftBreak, Start, TaskListMarker, Text,
};

verus! {

broadcast use vstd::string::group_string_axioms;

/// An event of pulldown-cmark's parser, with its values as plain strings.
#[derive(Debug, Clone, PartialEq)]
pub enum MarkdownEvent {
    /// The start of an element, named as pulldown-cmark's `TagEnd` shows it
    /// under `Debug` (such as `Table` or `Heading(H3)`).
    Start(String),
    /// The end of an element, named the same way.
    End(String),
    Text(String),
    /// Inline code.
    Code(String),
    SoftBreak,
    HardBreak,
    InlineMath(String),
    DisplayMath(String),
    Html(String),
    InlineHtml(String),
    FootnoteReference(String),
    /// A horizontal rule.
    Rule,
    /// A task list marker, checked or not.
    TaskListMarker(bool),
}

/// A Markdown event with its strings as character sequences.
pub enum MarkdownEventView {
    Start(Seq<char>),
    End(Seq<char>),
    Text(Seq<char>),
    Code(Seq<char>),
    SoftBreak,
    HardBreak,
    InlineMath(Seq<char>),
    DisplayMath(Seq<char>),
    Html(Seq<char>),
    InlineHtml(Seq<char>),
    FootnoteReference(Seq<char>),
    Rule,
    TaskListMarker(bool),
}

impl View for MarkdownEvent {
    type V = MarkdownEventView;

    open spec fn view(&self) -> MarkdownEventView {
        match self {
            MarkdownEvent::Start(n) => MarkdownEventView::Start(n@),
            MarkdownEvent::End(n) => MarkdownEventView::End(n@),
            MarkdownEvent::Text(t) => MarkdownEventView::Text(t@),
            MarkdownEvent::Code(t) => MarkdownEventView::Code(t@),
            MarkdownEvent::SoftBreak => MarkdownEventView::SoftBreak,
            MarkdownEvent::HardBreak => MarkdownEventView::HardBreak,
            MarkdownEvent::InlineMath(t) => MarkdownEventView::InlineMath(t@),
            MarkdownEvent::DisplayMath(t) => MarkdownEventView::DisplayMath(t@),
            MarkdownEvent::Html(t) => MarkdownEventView::Html(t@),
            MarkdownEvent::InlineHtml(t) => MarkdownEventView::InlineHtml(t@),
            MarkdownEvent::FootnoteReference(t) => MarkdownEventView::FootnoteReference(t@),
            MarkdownEvent::Rule => MarkdownEventView::Rule,
            MarkdownEvent::TaskListMarker(b) => MarkdownEventView::TaskListMarker(*b),
        }
    }
}

/// The views of a sequence of events.
pub open spec fn event_views(events: Seq<MarkdownEvent>) -> Seq<MarkdownEventView> {
    events.map_values(|e: MarkdownEvent| e@)
}

/// The Markdown extensions that the documentation needs: pulldown-cmark's
/// `ENABLE_TABLES` and `ENABLE_STRIKETHROUGH` flags.
pub const MARKDOWN_OPTIONS: u32 = (1 << 1) | (1 << 3);

/// The events that pulldown-cmark's parser yields for `text` with the option
/// flags `options`.
pub uninterp spec fn markdown_events_of(text: Seq<char>, options: u32) -> Seq<MarkdownEventView>;

/// `pulldown_cmark::Parser::new_ext`, run to the end: the events it yields for
/// `markdown` with the option flags `options`, each as a [`MarkdownEvent`]; an
/// element is given as the `Debug` text of its `TagEnd` (`Tag::to_end` for a
/// start). What the events are is named, not stated: it is CommonMark
/// parsing, a function of the text and the options alone.
#[verifier::external_body]
fn markdown_events(markdown: &str, options: u32) -> (events: Vec<MarkdownEvent>)
    ensures
        event_views(events@) == markdown_events_of(markdown@, options),
{
    Parser::new_ext(markdown, Options::from_bits_truncate(options)).map(|event| match event {
        CmStart(tag) => Start(format!("{:?}", tag.to_end())),
        CmEnd(tag) => End(format!("{:?}", tag)),
        CmText(text) => Text(text.to_string()),
        CmCode(text) => Code(text.to_string()),
        CmSoftBreak => SoftBreak,
        CmHardBreak => HardBreak,
        CmInlineMath(text) => InlineMath(text.to_string()),
        CmDisplayMath(text) => DisplayMath(text.to_string()),
        CmHtml(text) => Html(text.to_string()),
        CmInlineHtml(text) => InlineHtml(text.to_string()),
        CmFootnoteReference(label) => FootnoteReference(label.to_string()),
        CmRule => Rule,
        CmTaskListMarker(checked) => TaskListMarker(checked),
    }).collect()
}

/// The elements that the reader acts on.
pub enum Element {
    /// A level-three heading: it names the provider of the tables below it.
    ProviderHeading,
    Table,
    TableHead,
    TableRow,
    TableCell,
    /// Any other element.
    Ignored,
}

/// What the reader makes of the element named `name`.
pub open spec fn element_named(name: Seq<char>) -> Element {
    if name == "Heading(H3)"@ {
        Element::ProviderHeading
    } else if name == "Table"@ {
        Element::Table
    } else if name == "TableHead"@ {
        Element::TableHead
    } else if name == "TableRow"@ {
        Element::TableRow
    } else if name == "TableCell"@ {
        Element::TableCell
    } else {
        Element::Ignored
    }
}

/// What the reader does on an event.
pub enum ReaderAction {
    HeadingStart,
    HeadingEnd,
    /// The start or the end of a table.
    TableBoundary,
    TableHeadStart,
    TableHeadEnd,
    TableRowStart,
    TableRowEnd,
    TableCellStart,
    TableCellEnd,
    /// Text or inline code.
    Text(String),
    /// A soft or hard line break.
    LineBreak,
    Other,
}

/// What the reader does on an event, with text as a character sequence.
pub enum ReaderActionView {
    HeadingStart,
    HeadingEnd,
    TableBoundary,
    TableHeadStart,
    TableHeadEnd,
    TableRowStart,
    TableRowEnd,
    TableCellStart,
    TableCellEnd,
    Text(Seq<char>),
    LineBreak,
    Other,
}

impl View for ReaderAction {
    type V = ReaderActionView;

    open spec fn view(&self) -> ReaderActionView {
        match self {
            ReaderAction::HeadingStart => ReaderActionView::HeadingStart,
            ReaderAction::HeadingEnd => ReaderActionView::HeadingEnd,
            ReaderAction::TableBoundary => ReaderActionView::TableBoundary,
            ReaderAction::TableHeadStart => ReaderActionView::TableHeadStart,
            ReaderAction::TableHeadEnd => ReaderActionView::TableHeadEnd,
            ReaderAction::TableRowStart => ReaderActionView::TableRowStart,
            ReaderAction::TableRowEnd => ReaderActionView::TableRowEnd,
            ReaderAction::TableCellStart => ReaderActionView::TableCellStart,
            ReaderAction::TableCellEnd => ReaderActionView::TableCellEnd,
            ReaderAction::Text(t) => ReaderActionView::Text(t@),
            ReaderAction::LineBreak => ReaderActionView::LineBreak,
            ReaderAction::Other => ReaderActionView::Other,
        }
    }
}

/// What the reader does on an event: level-three headings, tables and their
/// parts, text and inline code alike, line breaks alike; everything else is
/// passed over.
pub open spec fn reader_action(e: MarkdownEventView) -> ReaderActionView {
    match e {
        MarkdownEventView::Start(n) => match element_named(n) {
            Element::ProviderHeading => ReaderActionView::HeadingStart,
            Element::Table => ReaderActionView::TableBoundary,
            Element::TableHead => ReaderActionView::TableHeadStart,
            Element::TableRow => ReaderActionView::TableRowStart,
            Element::TableCell => ReaderActionView::TableCellStart,
            Element::Ignored => ReaderActionView::Other,
        },
        MarkdownEventView::End(n) => match element_named(n) {
            Element::ProviderHeading => ReaderActionView::HeadingEnd,
            Element::Table => ReaderActionView::TableBoundary,
            Element::TableHead => ReaderActionView::TableHeadEnd,
            Element::TableRow => ReaderActionView::TableRowEnd,
            Element::TableCell => ReaderActionView::TableCellEnd,
            Element::Ignored => ReaderActionView::Other,
        },
        MarkdownEventView::Text(t) => ReaderActionView::Text(t),
        MarkdownEventView::Code(t) => ReaderActionView::Text(t),
        MarkdownEventView::SoftBreak => ReaderActionView::LineBreak,
        MarkdownEventView::HardBreak => ReaderActionView::LineBreak,
        _ => ReaderActionView::Other,
    }
}

/// What the reader makes of the element named `name`.
fn element_of(name: &str) -> (e: Element)
    ensures
        e == element_named(name@),
{
    if str_eq(name, "Heading(H3)") {
        Element::ProviderHeading
    } else if str_eq(name, "Table") {
        Element::Table
    } else if str_eq(name, "TableHead") {
        Element::TableHead
    } else if str_eq(name, "TableRow") {
        Element::TableRow
    } else if str_eq(name, "TableCell") {
        Element::TableCell
    } else {
        Element::Ignored
    }
}

/// What the reader does on `event`.
fn action_of(event: &MarkdownEvent) -> (a: ReaderAction)
    ensures
        a@ == reader_action(event@),
{
    match event {
        MarkdownEvent::Start(n) => match element_of(n.as_str()) {
            Element::ProviderHeading => ReaderAction::HeadingStart,
            Element::Table => ReaderAction::TableBoundary,
            Element::TableHead => ReaderAction::TableHeadStart,
            Element::TableRow => ReaderAction::TableRowStart,
            Element::TableCell => ReaderAction::TableCellStart,
            Element::Ignored => ReaderAction::Other,
        },
        MarkdownEvent::End(n) => match element_of(n.as_str()) {
            Element::ProviderHeading => ReaderAction::HeadingEnd,
            Element::Table => ReaderAction::TableBoundary,
            Element::TableHead => ReaderAction::TableHeadEnd,
            Element::TableRow => ReaderAction::TableRowEnd,
            Element::TableCell => ReaderAction::TableCellEnd,
            Element::Ignored => ReaderAction::Other,
        },
        MarkdownEvent::Text(t) => ReaderAction::Text(t.clone()),
        MarkdownEvent::Code(t) => ReaderAction::Text(t.clone()),
        MarkdownEvent::SoftBreak => ReaderAction::LineBreak,
        MarkdownEvent::HardBreak => ReaderAction::LineBreak,
        _ => ReaderAction::Other,
    }
}

/// A column title as the reader looks it up: trimmed, lowercase, spaces
/// turned to underscores, parentheses removed.
pub open spec fn normalized_header(header: Seq<char>) -> Seq<char> {
    without_char(
        without_char(replace_char(lowercase(trimmed(header)), ' ', '_'), '('),
        ')',
    )
}

/// Normalizes a column title: `"Threshold (input tokens)"` becomes
/// `"threshold_input_tokens"`.
pub fn normalize_header(header: &str) -> (r: String)
    ensures
        r@ == normalized_header(header@),
{
    let t = trim(header);
    let lower = to_lowercase(t.as_str());
    let underscored = replace(lower.as_str(), ' ', '_');
    let open_removed = remove_char(underscored.as_str(), '(');
    remove_char(open_removed.as_str(), ')')
}

/// The column-title index of a table: each normalized title with its column,
/// in the order in which they were recorded.
pub open spec fn column_views(columns: Seq<(String, usize)>) -> Seq<(Seq<char>, usize)> {
    columns.map_values(|c: (String, usize)| (c.0@, c.1))
}

/// The column that `name` was last recorded for, if any.
pub open spec fn column_of(columns: Seq<(Seq<char>, usize)>, name: Seq<char>) -> Option<usize>
    decreases columns.len(),
{
    if columns.len() == 0 {
        None
    } else if columns.last().0 == name {
        Some(columns.last().1)
    } else {
        column_of(columns.drop_last(), name)
    }
}

/// The trimmed cell of the column titled `name`, or why there is none.
pub open spec fn cell_outcome(
    row: Seq<Seq<char>>,
    columns: Seq<(Seq<char>, usize)>,
    name: Seq<char>,
) -> Result<Seq<char>, Seq<char>> {
    match column_of(columns, name) {
        None => Err("Missing column: "@ + name),
        Some(i) => if i < row.len() {
            Ok(trimmed(row[i as int]))
        } else {
            Err("Row too short, missing "@ + name)
        },
    }
}

/// The price in the column titled `name`.
pub open spec fn price_cell(
    row: Seq<Seq<char>>,
    columns: Seq<(Seq<char>, usize)>,
    name: Seq<char>,
) -> Result<Option<Seq<char>>, Seq<char>> {
    match cell_outcome(row, columns, name) {
        Err(m) => Err(m),
        Ok(c) => price_outcome(c),
    }
}

/// The tier in the column titled `tier`, or not applicable without one.
pub open spec fn tier_cell(row: Seq<Seq<char>>, columns: Seq<(Seq<char>, usize)>) -> Result<
    Tier,
    Seq<char>,
> {
    if column_of(columns, "tier"@) is Some {
        match cell_outcome(row, columns, "tier"@) {
            Err(m) => Err(m),
            Ok(c) => match tier_named(trimmed(c)) {
                Some(t) => Ok(t),
                None => Err("Unknown tier: "@ + trimmed(c)),
            },
        }
    } else {
        Ok(Tier::NotApplicable)
    }
}

/// The release status in the column titled `release_status`.
pub open spec fn release_status_cell(
    row: Seq<Seq<char>>,
    columns: Seq<(Seq<char>, usize)>,
) -> Result<ReleaseStatus, Seq<char>> {
    match cell_outcome(row, columns, "release_status"@) {
        Err(m) => Err(m),
        Ok(c) => match release_status_named(trimmed(c)) {
            Some(s) => Ok(s),
            None => Err("Unknown release status: "@ + trimmed(c)),
        },
    }
}

/// A character of a separator row: `-`, `|` or whitespace.
pub open spec fn is_separator_char(c: char) -> bool {
    c == '-' || c == '|' || is_white_space(c)
}

/// Every cell of the row is made of separator characters only.
pub open spec fn is_separator_row(row: Seq<Seq<char>>) -> bool {
    forall|i: int, j: int|
        0 <= i < row.len() && 0 <= j < row[i].len() ==> is_separator_char(#[trigger] row[i][j])
}

/// What a table row gives: no entry (a separator row), an entry, or an error
/// message. Optional columns default as the documentation leaves them out:
/// no cache write price, a not-applicable tier, an `N/A` threshold.
pub open spec fn entry_outcome(
    provider: Seq<char>,
    row: Seq<Seq<char>>,
    columns: Seq<(Seq<char>, usize)>,
) -> Result<Option<EntryData>, Seq<char>> {
    if is_separator_row(row) {
        Ok(None)
    } else if trimmed(provider).len() == 0 {
        Err("Pricing entry found without a provider heading"@)
    } else {
        let cache_write = if column_of(columns, "cache_write"@) is Some {
            price_cell(row, columns, "cache_write"@)
        } else {
            Ok(None)
        };
        let tier = tier_cell(row, columns);
        let threshold = if column_of(columns, "threshold_input_tokens"@) is Some {
            cell_outcome(row, columns, "threshold_input_tokens"@)
        } else {
            Ok("N/A"@)
        };
        let model = cell_outcome(row, columns, "model"@);
        let status = release_status_cell(row, columns);
        let category = cell_outcome(row, columns, "category"@);
        let input = price_cell(row, columns, "input"@);
        let cached_input = price_cell(row, columns, "cached_input"@);
        let output = price_cell(row, columns, "output"@);
        if cache_write is Err {
            Err(cache_write->Err_0)
        } else if tier is Err {
            Err(tier->Err_0)
        } else if threshold is Err {
            Err(threshold->Err_0)
        } else if model is Err {
            Err(model->Err_0)
        } else if status is Err {
            Err(status->Err_0)
        } else if category is Err {
            Err(category->Err_0)
        } else if input is Err {
            Err(input->Err_0)
        } else if cached_input is Err {
            Err(cached_input->Err_0)
        } else if output is Err {
            Err(output->Err_0)
        } else {
            Ok(
                Some(
                    EntryData {
                        provider: trimmed(provider),
                        model: model->Ok_0,
                        release_status: status->Ok_0,
                        category: category->Ok_0,
                        tier: tier->Ok_0,
                        threshold: threshold->Ok_0,
                        input: input->Ok_0,
                        cached_input: cached_input->Ok_0,
                        cache_write: cache_write->Ok_0,
                        output: output->Ok_0,
                    },
                ),
            )
        }
    }
}

/// The column that `name` was last recorded for, if any.
fn find_column(columns: &Vec<(String, usize)>, name: &str) -> (r: Option<usize>)
    ensures
        r == column_of(column_views(columns@), name@),
{
    let ghost cv = column_views(columns@);
    let mut i = columns.len();
    assert(cv.take(i as int) =~= cv);
    while i > 0
        invariant
            i <= columns@.len(),
            cv == column_views(columns@),
            column_of(cv, name@) == column_of(cv.take(i as int), name@),
        decreases i,
    {
        let ghost prefix = cv.take(i as int);
        assert(prefix.last() == (columns@[i - 1].0@, columns@[i - 1].1));
        assert(prefix.drop_last() =~= cv.take(i - 1));
        if str_eq(columns[i - 1].0.as_str(), name) {
            return Some(columns[i - 1].1);
        }
        i -= 1;
    }
    None
}

/// The trimmed cell of the column titled `name`.
fn column_cell(row: &Vec<String>, columns: &Vec<(String, usize)>, name: &str) -> (r: Result<
    String,
    GhLlmCostError,
>)
    ensures
        match cell_outcome(views(row@), column_views(columns@), name@) {
            Ok(c) => r matches Ok(s) && s@ == c,
            Err(m) => r matches Err(e) && e@ == ErrorView::Parse(m),
        },
{
    match find_column(columns, name) {
        None => Err(GhLlmCostError::Parse(concat("Missing column: ", name))),
        Some(i) => {
            if i < row.len() {
                Ok(trim(row[i].as_str()))
            } else {
                Err(GhLlmCostError::Parse(concat("Row too short, missing ", name)))
            }
        },
    }
}

fn is_separator_cell(cell: &str) -> (r: bool)
    ensures
        r == forall|j: int| 0 <= j < cell@.len() ==> is_separator_char(#[trigger] cell@[j]),
{
    let chars = chars_of(cell);
    let mut j: usize = 0;
    while j < chars.len()
        invariant
            chars@ == cell@,
            j <= chars@.len(),
            forall|k: int| 0 <= k < j ==> is_separator_char(#[trigger] cell@[k]),
        decreases chars.len() - j,
    {
        let c = chars[j];
        if !(c == '-' || c == '|' || is_whitespace(c)) {
            return false;
        }
        j += 1;
    }
    true
}

fn separator_row(row: &Vec<String>) -> (r: bool)
    ensures
        r == is_separator_row(views(row@)),
{
    let ghost cells = views(row@);
    let mut i: usize = 0;
    while i < row.len()
        invariant
            i <= row@.len(),
            cells == views(row@),
            forall|k: int, j: int|
                0 <= k < i && 0 <= j < cells[k].len() ==> is_separator_char(#[trigger] cells[k][j]),
        decreases row.len() - i,
    {
        if !is_separator_cell(row[i].as_str()) {
            assert(!is_separator_row(cells)) by {
                let j = choose|j: int|
                    0 <= j < row@[i as int]@.len() && !is_separator_char(row@[i as int]@[j]);
                assert(cells[i as int][j] == row@[i as int]@[j]);
            }
            return false;
        }
        i += 1;
    }
    true
}

/// Reads a price from a cell, as the row's entry needs it.
fn price_from_cell<F: Fn(&str) -> (String, u64)>(
    row: &Vec<String>,
    columns: &Vec<(String, usize)>,
    name: &str,
    render: &F,
) -> (r: Result<Price, GhLlmCostError>)
    requires
        forall|a: &str| render.requires((a,)),
    ensures
        match price_cell(views(row@), column_views(columns@), name@) {
            Ok(a) => r matches Ok(p) && crate::data::amount_of(p@) == a
                && crate::data::rendered_by(*render, p@),
            Err(m) => r matches Err(e) && e@ == ErrorView::Parse(m),
        },
{
    match column_cell(row, columns, name) {
        Err(e) => Err(e),
        Ok(c) => Price::parse(c.as_str(), render),
    }
}

/// Builds the entry of a table row, or none for a separator row.
///
/// # Errors
///
/// The row has no provider heading above it, misses a column, or holds a
/// tier, release status or price that cannot be read.
pub fn build_entry<F: Fn(&str) -> (String, u64)>(
    provider: &str,
    row: &Vec<String>,
    columns: &Vec<(String, usize)>,
    render: &F,
) -> (r: Result<Option<LlmCostEntry>, GhLlmCostError>)
    requires
        forall|a: &str| render.requires((a,)),
    ensures
        match entry_outcome(provider@, views(row@), column_views(columns@)) {
            Ok(None) => r matches Ok(None),
            Ok(Some(d)) => r matches Ok(Some(e)) && entry_data(e@) == d && entry_rendered_by(
                *render,
                e@,
            ),
            Err(m) => r matches Err(e) && e@ == ErrorView::Parse(m),
        },
{
    if separator_row(row) {
        return Ok(None);
    }
    let provider = trim(provider);
    if chars_of(provider.as_str()).len() == 0 {
        return Err(
            GhLlmCostError::Parse("Pricing entry found without a provider heading".to_owned()),
        );
    }
    let cache_write = if find_column(columns, "cache_write").is_some() {
        match price_from_cell(row, columns, "cache_write", render) {
            Err(e) => return Err(e),
            Ok(p) => p,
        }
    } else {
        Price::not_applicable()
    };
    let tier = if find_column(columns, "tier").is_some() {
        match column_cell(row, columns, "tier") {
            Err(e) => return Err(e),
            Ok(c) => match Tier::from_label(c.as_str()) {
                Err(e) => return Err(e),
                Ok(t) => t,
            },
        }
    } else {
        Tier::NotApplicable
    };
    let threshold = if find_column(columns, "threshold_input_tokens").is_some() {
        match column_cell(row, columns, "threshold_input_tokens") {
            Err(e) => return Err(e),
            Ok(c) => c,
        }
    } else {
        "N/A".to_owned()
    };
    let model = match column_cell(row, columns, "model") {
        Err(e) => return Err(e),
        Ok(c) => c,
    };
    let release_status = match column_cell(row, columns, "release_status") {
        Err(e) => return Err(e),
        Ok(c) => match ReleaseStatus::from_label(c.as_str()) {
            Err(e) => return Err(e),
            Ok(s) => s,
        },
    };
    let category = match column_cell(row, columns, "category") {
        Err(e) => return Err(e),
        Ok(c) => c,
    };
    let input = match price_from_cell(row, columns, "input", render) {
        Err(e) => return Err(e),
        Ok(p) => p,
    };
    let cached_input = match price_from_cell(row, columns, "cached_input", render) {
        Err(e) => return Err(e),
        Ok(p) => p,
    };
    let output = match price_from_cell(row, columns, "output", render) {
        Err(e) => return Err(e),
        Ok(p) => p,
    };
    Ok(
        Some(
            LlmCostEntry {
                provider,
                model,
                release_status,
                category,
                tier,
                threshold,
                input,
                cached_input,
                cache_write,
                output,
            },
        ),
    )
}

/// Where the reader stands in the event stream.
pub struct ReaderState {
    /// The entries read so far.
    pub entries: Seq<EntryData>,
    /// The text of the last level-three heading: the provider.
    pub provider: Seq<char>,
    pub in_heading: bool,
    pub in_head: bool,
    pub in_row: bool,
    pub in_cell: bool,
    /// The column-title index of the current table.
    pub columns: Seq<(Seq<char>, usize)>,
    /// The titles of the current table head.
    pub headers: Seq<Seq<char>>,
    /// The cells of the current row.
    pub row: Seq<Seq<char>>,
    /// The text of the current cell.
    pub cell: Seq<char>,
}

/// The reader before the first event.
pub open spec fn initial_reader() -> ReaderState {
    ReaderState {
        entries: Seq::empty(),
        provider: Seq::empty(),
        in_heading: false,
        in_head: false,
        in_row: false,
        in_cell: false,
        columns: Seq::empty(),
        headers: Seq::empty(),
        row: Seq::empty(),
        cell: Seq::empty(),
    }
}

/// The index entries recorded at the end of a table head: each normalized
/// title with its column.
pub open spec fn header_columns(headers: Seq<Seq<char>>) -> Seq<(Seq<char>, usize)> {
    Seq::new(headers.len(), |i: int| (normalized_header(headers[i]), i as usize))
}

/// What one event does to the reader, or the error it raises.
pub open spec fn reader_step(s: ReaderState, e: ReaderActionView) -> Result<ReaderState, Seq<char>> {
    match e {
        ReaderActionView::HeadingStart => Ok(
            ReaderState { in_heading: true, provider: Seq::empty(), ..s },
        ),
        ReaderActionView::HeadingEnd => Ok(ReaderState { in_heading: false, ..s }),
        ReaderActionView::TableBoundary => Ok(
            ReaderState {
                columns: Seq::empty(),
                headers: Seq::empty(),
                row: Seq::empty(),
                cell: Seq::empty(),
                ..s
            },
        ),
        ReaderActionView::TableHeadStart => Ok(
            ReaderState { in_head: true, headers: Seq::empty(), ..s },
        ),
        ReaderActionView::TableHeadEnd => Ok(
            ReaderState { in_head: false, columns: s.columns + header_columns(s.headers), ..s },
        ),
        ReaderActionView::TableRowStart => Ok(
            ReaderState { in_row: true, row: Seq::empty(), cell: Seq::empty(), ..s },
        ),
        ReaderActionView::TableRowEnd => {
            let done = ReaderState { in_row: false, row: Seq::empty(), cell: Seq::empty(), ..s };
            if s.row.len() > 0 {
                match entry_outcome(s.provider, s.row, s.columns) {
                    Err(m) => Err(m),
                    Ok(None) => Ok(done),
                    Ok(Some(d)) => Ok(ReaderState { entries: s.entries.push(d), ..done }),
                }
            } else {
                Ok(done)
            }
        },
        ReaderActionView::TableCellStart => Ok(
            ReaderState { in_cell: true, cell: Seq::empty(), ..s },
        ),
        ReaderActionView::TableCellEnd => {
            let v = trimmed(s.cell);
            let kept = if s.in_head {
                ReaderState { headers: s.headers.push(v), ..s }
            } else if s.in_row {
                ReaderState { row: s.row.push(v), ..s }
            } else {
                s
            };
            Ok(ReaderState { in_cell: false, cell: Seq::empty(), ..kept })
        },
        ReaderActionView::Text(t) => if s.in_heading {
            Ok(ReaderState { provider: s.provider + t, ..s })
        } else if s.in_cell {
            Ok(ReaderState { cell: s.cell + t, ..s })
        } else {
            Ok(s)
        },
        ReaderActionView::LineBreak => if s.in_cell {
            Ok(ReaderState { cell: s.cell.push(' '), ..s })
        } else {
            Ok(s)
        },
        ReaderActionView::Other => Ok(s),
    }
}

/// The reader after the events, or the first error raised.
pub open spec fn read_events(events: Seq<MarkdownEventView>) -> Result<ReaderState, Seq<char>>
    decreases events.len(),
{
    if events.len() == 0 {
        Ok(initial_reader())
    } else {
        match read_events(events.drop_last()) {
            Err(m) => Err(m),
            Ok(s) => reader_step(s, reader_action(events.last())),
        }
    }
}

/// What reading the events gives: the entries, at least one, or an error.
pub open spec fn documentation_outcome(events: Seq<MarkdownEventView>) -> Result<
    Seq<EntryData>,
    ErrorView,
> {
    match read_events(events) {
        Err(m) => Err(ErrorView::Parse(m)),
        Ok(s) => if s.entries.len() == 0 {
            Err(ErrorView::NoData)
        } else {
            Ok(s.entries)
        },
    }
}

/// The data of each entry.
pub open spec fn entries_data(entries: Seq<LlmCostEntry>) -> Seq<EntryData> {
    entries.map_values(|e: LlmCostEntry| entry_data(e@))
}

/// Every price of every entry is shown as `render` gives it.
pub open spec fn all_rendered_by<F: Fn(&str) -> (String, u64)>(
    render: F,
    entries: Seq<LlmCostEntry>,
) -> bool {
    forall|i: int| 0 <= i < entries.len() ==> entry_rendered_by(render, (#[trigger] entries[i])@)
}

/// The reader's state while it goes through the events.
struct TableReader {
    entries: Vec<LlmCostEntry>,
    provider: String,
    in_heading: bool,
    in_head: bool,
    in_row: bool,
    in_cell: bool,
    columns: Vec<(String, usize)>,
    headers: Vec<String>,
    row: Vec<String>,
    cell: String,
}

impl View for TableReader {
    type V = ReaderState;

    closed spec fn view(&self) -> ReaderState {
        ReaderState {
            entries: entries_data(self.entries@),
            provider: self.provider@,
            in_heading: self.in_heading,
            in_head: self.in_head,
            in_row: self.in_row,
            in_cell: self.in_cell,
            columns: column_views(self.columns@),
            headers: views(self.headers@),
            row: views(self.row@),
            cell: self.cell@,
        }
    }
}

impl TableReader {
    fn new() -> (r: TableReader)
        ensures
            r@ == initial_reader(),
            r.entries@.len() == 0,
    {
        let r = TableReader {
            entries: Vec::new(),
            provider: String::new(),
            in_heading: false,
            in_head: false,
            in_row: false,
            in_cell: false,
            columns: Vec::new(),
            headers: Vec::new(),
            row: Vec::new(),
            cell: String::new(),
        };
        assert(r@.entries =~= Seq::<EntryData>::empty());
        assert(r@.columns =~= Seq::<(Seq<char>, usize)>::empty());
        assert(r@.headers =~= Seq::<Seq<char>>::empty());
        assert(r@.row =~= Seq::<Seq<char>>::empty());
        r
    }

    /// Records the titles of the table head in the column index.
    fn end_table_head(&mut self)
        ensures
            final(self)@ == (ReaderState {
                in_head: false,
                columns: old(self)@.columns + header_columns(old(self)@.headers),
                ..old(self)@
            }),
            final(self).entries == old(self).entries,
    {
        self.in_head = false;
        record_header_columns(&mut self.columns, &self.headers);
    }

    /// Ends a table row: builds its entry, if the row has cells.
    fn end_table_row<F: Fn(&str) -> (String, u64)>(&mut self, render: &F) -> (r: Result<
        (),
        GhLlmCostError,
    >)
        requires
            forall|a: &str| render.requires((a,)),
            all_rendered_by(*render, old(self).entries@),
        ensures
            match reader_step(old(self)@, ReaderActionView::TableRowEnd) {
                Ok(s) => r is Ok && final(self)@ == s && all_rendered_by(*render, final(self).entries@),
                Err(m) => r matches Err(e) && e@ == ErrorView::Parse(m),
            },
    {
        let ghost before = self@;
        self.in_row = false;
        if self.row.len() > 0 {
            match build_entry(self.provider.as_str(), &self.row, &self.columns, render) {
                Err(e) => return Err(e),
                Ok(Some(entry)) => {
                    let ghost old_entries = self.entries@;
                    self.entries.push(entry);
                    assert(entries_data(self.entries@) =~= entries_data(old_entries).push(
                        entry_data(entry@),
                    ));
                },
                Ok(None) => {},
            }
        }
        self.row = Vec::new();
        self.cell = String::new();
        assert(views(self.row@) =~= Seq::<Seq<char>>::empty());
        Ok(())
    }

    /// Ends a table cell: keeps its trimmed text as a title or as a cell.
    fn end_table_cell(&mut self)
        ensures
            reader_step(old(self)@, ReaderActionView::TableCellEnd) == Ok::<
                ReaderState,
                Seq<char>,
            >(final(self)@),
            final(self).entries == old(self).entries,
    {
        self.in_cell = false;
        let value = trim(self.cell.as_str());
        if self.in_head {
            let ghost old_headers = self.headers@;
            self.headers.push(value);
            assert(views(self.headers@) =~= views(old_headers).push(value@));
        } else if self.in_row {
            let ghost old_row = self.row@;
            self.row.push(value);
            assert(views(self.row@) =~= views(old_row).push(value@));
        }
        self.cell = String::new();
    }

    /// Takes in one event.
    fn step<F: Fn(&str) -> (String, u64)>(&mut self, event: &ReaderAction, render: &F) -> (r: Result<
        (),
        GhLlmCostError,
    >)
        requires
            forall|a: &str| render.requires((a,)),
            all_rendered_by(*render, old(self).entries@),
        ensures
            match reader_step(old(self)@, event@) {
                Ok(s) => r is Ok && final(self)@ == s && all_rendered_by(*render, final(self).entries@),
                Err(m) => r matches Err(e) && e@ == ErrorView::Parse(m),
            },
    {
        match event {
            ReaderAction::HeadingStart => {
                self.in_heading = true;
                self.provider = String::new();
            },
            ReaderAction::HeadingEnd => {
                self.in_heading = false;
            },
            ReaderAction::TableBoundary => {
                self.columns = Vec::new();
                self.headers = Vec::new();
                self.row = Vec::new();
                self.cell = String::new();
                assert(column_views(self.columns@) =~= Seq::<(Seq<char>, usize)>::empty());
                assert(views(self.headers@) =~= Seq::<Seq<char>>::empty());
                assert(views(self.row@) =~= Seq::<Seq<char>>::empty());
            },
            ReaderAction::TableHeadStart => {
                self.in_head = true;
                self.headers = Vec::new();
                assert(views(self.headers@) =~= Seq::<Seq<char>>::empty());
            },
            ReaderAction::TableHeadEnd => {
                self.end_table_head();
            },
            ReaderAction::TableRowStart => {
                self.in_row = true;
                self.row = Vec::new();
                self.cell = String::new();
                assert(views(self.row@) =~= Seq::<Seq<char>>::empty());
            },
            ReaderAction::TableRowEnd => {
                return self.end_table_row(render);
            },
            ReaderAction::TableCellStart => {
                self.in_cell = true;
                self.cell = String::new();
            },
            ReaderAction::TableCellEnd => {
                self.end_table_cell();
            },
            ReaderAction::Text(t) => {
                if self.in_heading {
                    self.provider.append(t.as_str());
                } else if self.in_cell {
                    self.cell.append(t.as_str());
                }
            },
            ReaderAction::LineBreak => {
                if self.in_cell {
                    crate::text::push_char(&mut self.cell, ' ');
                }
            },
            ReaderAction::Other => {},
        }
        Ok(())
    }
}

/// Once reading raises an error, later events change nothing: the first row
/// that cannot be read decides the outcome.
pub proof fn lemma_error_is_final(events: Seq<MarkdownEventView>, i: int)
    requires
        0 <= i <= events.len(),
        read_events(events.take(i)) is Err,
    ensures
        read_events(events) == read_events(events.take(i)),
    decreases events.len() - i,
{
    if i < events.len() {
        assert(events.take(i + 1).drop_last() =~= events.take(i));
        lemma_error_is_final(events, i + 1);
    } else {
        assert(events.take(i) =~= events);
    }
}

/// Reads the entries out of the documentation's Markdown events.
///
/// `render` gives the two-decimal form in which each amount is shown and the
/// bit pattern of the number it reads as.
///
/// # Errors
///
/// A table row cannot be read (see [`build_entry`]), or no entry was found.
pub fn parse_events<F: Fn(&str) -> (String, u64)>(events: &Vec<MarkdownEvent>, render: &F) -> (r: Result<
    PricingData,
    GhLlmCostError,
>)
    requires
        forall|a: &str| render.requires((a,)),
    ensures
        match documentation_outcome(event_views(events@)) {
            Ok(d) => r matches Ok(p) && entries_data(p.entries@) == d && all_rendered_by(
                *render,
                p.entries@,
            ),
            Err(e) => r matches Err(x) && x@ == e,
        },
{
    let ghost all = event_views(events@);
    let mut reader = TableReader::new();
    assert(all.take(0) =~= Seq::<MarkdownEventView>::empty());
    let mut i: usize = 0;
    while i < events.len()
        invariant
            i <= events@.len(),
            all == event_views(events@),
            read_events(all.take(i as int)) == Ok::<ReaderState, Seq<char>>(reader@),
            all_rendered_by(*render, reader.entries@),
            forall|a: &str| render.requires((a,)),
        decreases events.len() - i,
    {
        assert(all.take(i + 1).drop_last() =~= all.take(i as int));
        assert(all.take(i + 1).last() == events@[i as int]@);
        let action = action_of(&events[i]);
        match reader.step(&action, render) {
            Err(e) => {
                proof {
                    lemma_error_is_final(all, i + 1);
                }
                return Err(e);
            },
            Ok(()) => {},
        }
        i += 1;
    }
    assert(all.take(i as int) =~= all);
    if reader.entries.len() == 0 {
        return Err(GhLlmCostError::NoData);
    }
    Ok(PricingData { entries: reader.entries })
}

/// Parses the documentation's Markdown and reads the pricing tables out of it.
///
/// `render` gives the two-decimal form in which each amount is shown and the
/// bit pattern of the number it reads as.
///
/// # Errors
///
/// A table row cannot be read, or no entry was found.
pub fn parse_documentation<F: Fn(&str) -> (String, u64)>(markdown: &str, render: &F) -> (r: Result<
    PricingData,
    GhLlmCostError,
>)
    requires
        forall|a: &str| render.requires((a,)),
    ensures
        match documentation_outcome(markdown_events_of(markdown@, MARKDOWN_OPTIONS)) {
            Ok(d) => r matches Ok(p) && entries_data(p.entries@) == d && all_rendered_by(
                *render,
                p.entries@,
            ),
            Err(e) => r matches Err(x) && x@ == e,
        },
{
    let events = markdown_events(markdown, MARKDOWN_OPTIONS);
    parse_events(&events, render)
}

/// Appends to the column index each normalized title of `headers` with its
/// column.
fn record_header_columns(columns: &mut Vec<(String, usize)>, headers: &Vec<String>)
    ensures
        column_views(final(columns)@) == column_views(old(columns)@) + header_columns(
            views(headers@),
        ),
{
    let ghost start = column_views(columns@);
    let ghost added = header_columns(views(headers@));
    let mut i: usize = 0;
    while i < headers.len()
        invariant
            i <= headers@.len(),
            added == header_columns(views(headers@)),
            column_views(columns@) == start + added.take(i as int),
        decreases headers.len() - i,
    {
        let name = normalize_header(headers[i].as_str());
        let ghost before = columns@;
        columns.push((name, i));
        assert(views(headers@)[i as int] == headers@[i as int]@);
        assert(added[i as int] == (name@, i));
        assert(columns@ == before.push((name, i)));
        assert(column_views(columns@) =~= column_views(before).push((name@, i)));
        assert(added.take(i + 1) =~= added.take(i as int).push(added[i as int]));
        i += 1;
    }
    assert(added.take(i as int) =~= added);
}

/// A normalized title holds no space and no parenthesis.
pub proof fn lemma_normalized_header_plain(header: Seq<char>)
    ensures
        !normalized_header(header).contains(' '),
        !normalized_header(header).contains('('),
        !normalized_header(header).contains(')'),
{
    let r = replace_char(lowercase(trimmed(header)), ' ', '_');
    assert(!r.contains(' ')) by {
        if r.contains(' ') {
            let k = choose|k: int| 0 <= k < r.len() && r[k] == ' ';
            assert(r[k] != ' ');
        }
    }
    let o = without_char(r, '(');
    crate::text::lemma_without_char_keeps_out(r, '(', ' ');
    crate::text::lemma_without_char_avoids(r, '(');
    crate::text::lemma_without_char_keeps_out(o, ')', ' ');
    crate::text::lemma_without_char_keeps_out(o, ')', '(');
    crate::text::lemma_without_char_avoids(o, ')');
}

/// Every entry read belongs to a provider: the text of the level-three
/// heading above its table, never empty.
pub proof fn lemma_entries_have_providers(events: Seq<MarkdownEventView>)
    ensures
        read_events(events) matches Ok(s) ==> forall|i: int|
            0 <= i < s.entries.len() ==> (#[trigger] s.entries[i]).provider.len() > 0,
    decreases events.len(),
{
    if events.len() > 0 {
        lemma_entries_have_providers(events.drop_last());
        if let Ok(s) = read_events(events.drop_last()) {
            if let Ok(t) = reader_step(s, reader_action(events.last())) {
                assert forall|i: int| 0 <= i < t.entries.len() implies (
                #[trigger] t.entries[i]).provider.len() > 0 by {
                    if i < s.entries.len() {
                        assert(t.entries[i] == s.entries[i]);
                    }
                }
            }
        }
    }
}

/// A character of a column title written in ASCII with spaces as its only
/// whitespace.
pub open spec fn is_title_char(c: char) -> bool {
    (c as u32) < 0x80 && (c == ' ' || !is_white_space(c))
}

/// A character of a lookup key: ASCII, no whitespace, no capital letter, no
/// parenthesis.
pub open spec fn is_key_char(c: char) -> bool {
    &&& (c as u32) < 0x80
    &&& !is_white_space(c)
    &&& !(0x41 <= (c as u32) <= 0x5a)
    &&& c != '('
    &&& c != ')'
}

/// A title written in ASCII with spaces as its only whitespace normalizes to
/// a lookup key (no whitespace, capital letter or parenthesis), and a key
/// normalizes to itself: the names that entries are looked up by, such as
/// `cache_write` or `threshold_input_tokens`, are fixed points.
pub proof fn lemma_normalized_title_is_key(header: Seq<char>)
    requires
        forall|i: int| 0 <= i < header.len() ==> is_title_char(#[trigger] header[i]),
    ensures
        forall|i: int|
            0 <= i < normalized_header(header).len() ==> is_key_char(
                #[trigger] normalized_header(header)[i],
            ),
        normalized_header(normalized_header(header)) == normalized_header(header),
{
    let tq = |c: char| is_title_char(c);
    crate::text::lemma_trimmed_keeps(header, tq);
    let t = trimmed(header);
    assert(crate::text::is_ascii_text(t)) by {
        assert forall|i: int| 0 <= i < t.len() implies (#[trigger] t[i] as u32) < 0x80 by {
            assert(tq(t[i]));
        }
    }
    let l = lowercase(t);
    let lq = |c: char| (c as u32) < 0x80 && (c == ' ' || !is_white_space(c)) && !(0x41 <= (c as u32)
        <= 0x5a);
    assert forall|i: int| 0 <= i < l.len() implies lq(#[trigger] l[i]) by {
        assert(tq(t[i]));
        assert(l[i] == crate::text::ascii_lowercase(t[i]));
    }
    let u = replace_char(l, ' ', '_');
    let uq = |c: char| (c as u32) < 0x80 && !is_white_space(c) && !(0x41 <= (c as u32) <= 0x5a);
    assert forall|i: int| 0 <= i < u.len() implies uq(#[trigger] u[i]) by {
        assert(lq(l[i]));
    }
    assert(crate::text::all_chars(u, uq));
    crate::text::lemma_without_char_keeps(u, '(', uq);
    let o = without_char(u, '(');
    crate::text::lemma_without_char_keeps(o, ')', uq);
    let r = without_char(o, ')');
    lemma_normalized_header_plain(header);
    assert forall|i: int| 0 <= i < r.len() implies is_key_char(#[trigger] r[i]) by {
        assert(uq(r[i]));
        assert(r.contains(r[i]));
    }
    // The key normalizes to itself.
    crate::text::lemma_trimmed_without_whitespace(r);
    assert(crate::text::is_ascii_text(r));
    let rl = lowercase(r);
    assert(rl =~= r) by {
        assert forall|i: int| 0 <= i < r.len() implies rl[i] == r[i] by {
            assert(is_key_char(r[i]));
        }
    }
    assert(!r.contains(' ')) by {
        if r.contains(' ') {
            let k = choose|k: int| 0 <= k < r.len() && r[k] == ' ';
            assert(is_key_char(r[k]));
        }
    }
    assert(replace_char(r, ' ', '_') =~= r);
    crate::text::lemma_without_absent_char(r, '(');
    crate::text::lemma_without_absent_char(r, ')');
}

/// A row's cache write price is the price in its `cache_write` column `k`,
/// when the table has one: an entry holds exactly the price that cell reads as, and
/// a cell that reads as no price makes the row an error. Without such a
/// column, the entry has no cache write price.
pub proof fn lemma_cache_write_is_read(
    provider: Seq<char>,
    row: Seq<Seq<char>>,
    columns: Seq<(Seq<char>, usize)>,
    k: usize,
)
    requires
        !is_separator_row(row),
    ensures
        column_of(columns, "cache_write"@) == Some(k) && k < row.len() ==> {
            &&& entry_outcome(provider, row, columns) matches Ok(Some(d)) ==> price_outcome(
                trimmed(row[k as int]),
            ) == Ok::<Option<Seq<char>>, Seq<char>>(d.cache_write)
            &&& price_outcome(trimmed(row[k as int])) is Err ==> entry_outcome(
                provider,
                row,
                columns,
            ) is Err
        },
        column_of(columns, "cache_write"@) is None ==> (entry_outcome(provider, row, columns) matches Ok(
            Some(d),
        ) ==> d.cache_write is None),
{
}

/// A row's threshold is the trimmed cell of its `threshold_input_tokens`
/// column `k`, when the table has one, and `N/A` without such a column.
pub proof fn lemma_threshold_is_read(
    provider: Seq<char>,
    row: Seq<Seq<char>>,
    columns: Seq<(Seq<char>, usize)>,
    k: usize,
)
    ensures
        column_of(columns, "threshold_input_tokens"@) == Some(k) && k < row.len() ==> (
        entry_outcome(provider, row, columns) matches Ok(Some(d)) ==> d.threshold == trimmed(
            row[k as int],
        )),
        column_of(columns, "threshold_input_tokens"@) is None ==> (entry_outcome(
            provider,
            row,
            columns,
        ) matches Ok(Some(d)) ==> d.threshold == "N/A"@),
{
}

/// An entry holds what its row's cells say: the trimmed provider heading, the
/// trimmed cells of the `model` and `category` columns, the release status
/// named in the `release_status` column, and the prices that the cells of the
/// `input`, `cached_input` and `output` columns read as; a tier column, where
/// there is one, names the tier, and without one the tier is not applicable.
pub proof fn lemma_entry_reads_its_cells(
    provider: Seq<char>,
    row: Seq<Seq<char>>,
    columns: Seq<(Seq<char>, usize)>,
)
    ensures
        entry_outcome(provider, row, columns) matches Ok(Some(d)) ==> d.provider == trimmed(
            provider,
        ),
        entry_outcome(provider, row, columns) matches Ok(Some(d)) ==> (column_of(
            columns,
            "model"@,
        ) matches Some(k) && k < row.len() && d.model == trimmed(row[k as int])),
        entry_outcome(provider, row, columns) matches Ok(Some(d)) ==> (column_of(
            columns,
            "category"@,
        ) matches Some(k) && k < row.len() && d.category == trimmed(row[k as int])),
        entry_outcome(provider, row, columns) matches Ok(Some(d)) ==> (column_of(
            columns,
            "release_status"@,
        ) matches Some(k) && k < row.len() && release_status_named(trimmed(row[k as int]))
            == Some(d.release_status)),
        entry_outcome(provider, row, columns) matches Ok(Some(d)) ==> (column_of(
            columns,
            "input"@,
        ) matches Some(k) && k < row.len() && price_outcome(trimmed(row[k as int])) == Ok::<
            Option<Seq<char>>,
            Seq<char>,
        >(d.input)),
        entry_outcome(provider, row, columns) matches Ok(Some(d)) ==> (column_of(
            columns,
            "cached_input"@,
        ) matches Some(k) && k < row.len() && price_outcome(trimmed(row[k as int])) == Ok::<
            Option<Seq<char>>,
            Seq<char>,
        >(d.cached_input)),
        entry_outcome(provider, row, columns) matches Ok(Some(d)) ==> (column_of(
            columns,
            "output"@,
        ) matches Some(k) && k < row.len() && price_outcome(trimmed(row[k as int])) == Ok::<
            Option<Seq<char>>,
            Seq<char>,
        >(d.output)),
        entry_outcome(provider, row, columns) matches Ok(Some(d)) ==> (column_of(
            columns,
            "tier"@,
        ) matches Some(k) ==> k < row.len() && tier_named(trimmed(row[k as int])) == Some(
            d.tier,
        )),
        entry_outcome(provider, row, columns) matches Ok(Some(d)) ==> (column_of(
            columns,
            "tier"@,
        ) is None ==> d.tier == Tier::NotApplicable),
{
    if entry_outcome(provider, row, columns) is Ok {
        if let Some(k) = column_of(columns, "release_status"@) {
            if k < row.len() {
                crate::text::lemma_trimmed_idempotent(row[k as int]);
            }
        }
        if let Some(k) = column_of(columns, "tier"@) {
            if k < row.len() {
                crate::text::lemma_trimmed_idempotent(row[k as int]);
            }
        }
    }
}

} // verus!
