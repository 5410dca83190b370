//! The table as tab-separated values, ready for a spreadsheet.
use vstd::prelude::*;

use crate::data::{header_labels, price_display, row_cells, EntryView, LlmCostEntry, PriceView};
use crate::text::{chars_of, push_char, string_of_range, trim, trimmed, views};

verus! {

broadcast use vstd::string::group_string_axioms;

/// `parts` with `sep` between each two of them.
pub open spec fn join(parts: Seq<Seq<char>>, sep: char) -> Seq<char>
    decreases parts.len(),
{
    if parts.len() == 0 {
        Seq::empty()
    } else if parts.len() == 1 {
        parts[0]
    } else {
        join(parts.drop_last(), sep).push(sep) + parts.last()
    }
}

/// A cell that starts with `$`: without its trailing whitespace and without
/// that `$`. Any other cell is left unchanged.
pub open spec fn dollar_stripped(value: Seq<char>) -> Seq<char> {
    if value.len() > 0 && value[0] == '$' {
        trimmed(value).drop_first()
    } else {
        value
    }
}

/// A cell with each tab and line feed replaced by a space.
pub open spec fn cleaned(value: Seq<char>) -> Seq<char> {
    Seq::new(
        value.len(),
        |i: int|
            if value[i] == '\t' || value[i] == '\n' {
                ' '
            } else {
                value[i]
            },
    )
}

/// The cells of the title line.
pub open spec fn header_line_cells() -> Seq<Seq<char>> {
    header_labels().map_values(|c: Seq<char>| cleaned(c))
}

/// The cells of an entry's line.
pub open spec fn entry_line_cells(e: EntryView) -> Seq<Seq<char>> {
    row_cells(e).map_values(|c: Seq<char>| cleaned(dollar_stripped(c)))
}

/// The lines of the table: the titles, then one line per entry.
pub open spec fn tsv_lines(entries: Seq<EntryView>) -> Seq<Seq<char>> {
    seq![join(header_line_cells(), '\t')] + entries.map_values(
        |e: EntryView| join(entry_line_cells(e), '\t'),
    )
}

/// The whole table as tab-separated values.
pub open spec fn tsv_text(entries: Seq<EntryView>) -> Seq<char> {
    join(tsv_lines(entries), '\n')
}

/// The views of a slice of entries.
pub open spec fn entry_views(entries: Seq<LlmCostEntry>) -> Seq<EntryView> {
    entries.map_values(|e: LlmCostEntry| e@)
}

/// Joins `parts` with `sep` between each two of them (`[String]::join`).
pub fn join_strings(parts: &Vec<String>, sep: char) -> (r: String)
    ensures
        r@ == join(views(parts@), sep),
{
    let mut r = String::new();
    let mut i: usize = 0;
    while i < parts.len()
        invariant
            i <= parts@.len(),
            r@ == join(views(parts@.take(i as int)), sep),
        decreases parts.len() - i,
    {
        let ghost before = views(parts@.take(i as int));
        if i > 0 {
            push_char(&mut r, sep);
        }
        r.append(parts[i].as_str());
        i += 1;
        proof {
            let now = views(parts@.take(i as int));
            assert(now.drop_last() =~= before);
            assert(now.last() == parts@[i - 1]@);
            if i == 1 {
                assert(before.len() == 0);
                assert(r@ =~= now[0]);
            }
        }
    }
    assert(parts@.take(parts@.len() as int) =~= parts@);
    r
}

/// Removes the leading `$` of a cell, and the whitespace after the amount,
/// so that prices stay numeric in a spreadsheet. Cells without a leading `$`,
/// such as `N/A`, are left unchanged.
pub fn strip_dollar(value: &str) -> (r: String)
    ensures
        r@ == dollar_stripped(value@),
{
    let chars = chars_of(value);
    if chars.len() > 0 && chars[0] == '$' {
        let t = trim(value);
        proof {
            lemma_trim_keeps_first(value@);
        }
        let tc = chars_of(t.as_str());
        let r = string_of_range(&tc, 1, tc.len());
        assert(r@ =~= t@.drop_first());
        r
    } else {
        value.to_owned()
    }
}

/// Trimming a text that starts with a non-whitespace character keeps that
/// character first.
proof fn lemma_trim_keeps_first(s: Seq<char>)
    requires
        s.len() > 0,
        !crate::text::is_white_space(s[0]),
    ensures
        trimmed(s).len() > 0,
        trimmed(s)[0] == s[0],
{
    assert(crate::text::trim_start(s) == s);
    lemma_trim_end_keeps_first(s);
}

proof fn lemma_trim_end_keeps_first(s: Seq<char>)
    requires
        s.len() > 0,
        !crate::text::is_white_space(s[0]),
    ensures
        crate::text::trim_end(s).len() > 0,
        crate::text::trim_end(s)[0] == s[0],
    decreases s.len(),
{
    if s.len() > 1 && crate::text::is_white_space(s.last()) {
        lemma_trim_end_keeps_first(s.drop_last());
    }
}

/// Replaces each tab and line feed of a cell by a space, so that embedded
/// tabs or newlines do not break the layout.
pub fn cleanup_cell(value: &str) -> (r: String)
    ensures
        r@ == cleaned(value@),
{
    let chars = chars_of(value);
    let mut r = String::new();
    let mut i: usize = 0;
    while i < chars.len()
        invariant
            i <= chars@.len(),
            chars@ == value@,
            r@ == cleaned(chars@.take(i as int)),
        decreases chars.len() - i,
    {
        let c = chars[i];
        if c == '\t' || c == '\n' {
            push_char(&mut r, ' ');
        } else {
            push_char(&mut r, c);
        }
        i += 1;
        assert(r@ =~= cleaned(chars@.take(i as int)));
    }
    assert(chars@.take(chars@.len() as int) =~= chars@);
    r
}

/// The cells of the title line.
fn header_cells() -> (cells: Vec<String>)
    ensures
        views(cells@) == header_line_cells(),
{
    let headers = LlmCostEntry::headers();
    let mut cells: Vec<String> = Vec::new();
    let mut i: usize = 0;
    while i < headers.len()
        invariant
            i <= headers@.len() == header_labels().len(),
            forall|j: int| 0 <= j < headers@.len() ==> (#[trigger] headers@[j])@ == header_labels()[j],
            cells@.len() == i,
            views(cells@) == header_line_cells().take(i as int),
        decreases headers.len() - i,
    {
        let ghost before = cells@;
        cells.push(cleanup_cell(headers[i]));
        i += 1;
        assert forall|j: int| 0 <= j < i implies views(cells@)[j] == header_line_cells()[j] by {
            if j < i - 1 {
                assert(cells@[j] == before[j]);
                assert(views(before)[j] == header_line_cells().take(i - 1)[j]);
            }
        }
        assert(views(cells@) =~= header_line_cells().take(i as int));
    }
    assert(header_line_cells().take(i as int) =~= header_line_cells());
    cells
}

/// The cells of an entry's line.
fn entry_cells(entry: &LlmCostEntry) -> (cells: Vec<String>)
    ensures
        views(cells@) == entry_line_cells(entry@),
{
    let row = entry.row();
    let mut cells: Vec<String> = Vec::new();
    let mut i: usize = 0;
    while i < row.len()
        invariant
            i <= row@.len() == row_cells(entry@).len(),
            forall|j: int| 0 <= j < row@.len() ==> (#[trigger] row@[j])@ == row_cells(entry@)[j],
            cells@.len() == i,
            views(cells@) == entry_line_cells(entry@).take(i as int),
        decreases row.len() - i,
    {
        let stripped = strip_dollar(row[i].as_str());
        let ghost before = cells@;
        cells.push(cleanup_cell(stripped.as_str()));
        i += 1;
        assert forall|j: int| 0 <= j < i implies views(cells@)[j] == entry_line_cells(entry@)[j] by {
            if j < i - 1 {
                assert(cells@[j] == before[j]);
                assert(views(before)[j] == entry_line_cells(entry@).take(i - 1)[j]);
            }
        }
        assert(views(cells@) =~= entry_line_cells(entry@).take(i as int));
    }
    assert(entry_line_cells(entry@).take(i as int) =~= entry_line_cells(entry@));
    cells
}

/// The full pricing table as tab-separated values: a line of column titles,
/// then one line per entry, lines separated by line feeds. Prices come
/// without their `$` so that spreadsheets read them as numbers.
pub fn build_tsv(entries: &[LlmCostEntry]) -> (tsv: String)
    ensures
        tsv@ == tsv_text(entry_views(entries@)),
{
    let ghost all = entry_views(entries@);
    let mut lines: Vec<String> = Vec::new();
    let header = header_cells();
    lines.push(join_strings(&header, '\t'));
    let mut i: usize = 0;
    while i < entries.len()
        invariant
            i <= entries@.len(),
            all == entry_views(entries@),
            lines@.len() == i + 1,
            views(lines@) == tsv_lines(all).take(i + 1),
        decreases entries.len() - i,
    {
        let cells = entry_cells(&entries[i]);
        let ghost before = lines@;
        lines.push(join_strings(&cells, '\t'));
        i += 1;
        assert forall|j: int| 0 <= j < i + 1 implies views(lines@)[j] == tsv_lines(all)[j] by {
            if j < i {
                assert(lines@[j] == before[j]);
                assert(views(before)[j] == tsv_lines(all).take(i as int)[j]);
            } else {
                assert(all[i - 1] == entries@[i - 1]@);
            }
        }
        assert(views(lines@) =~= tsv_lines(all).take(i + 1));
    }
    assert(tsv_lines(all).take(i + 1) =~= tsv_lines(all));
    join_strings(&lines, '\n')
}

/// The pieces of `s` between occurrences of `sep` (as `str::split` gives them).
pub open spec fn split(s: Seq<char>, sep: char) -> Seq<Seq<char>>
    decreases s.len(),
{
    if s.len() == 0 {
        seq![Seq::empty()]
    } else {
        let r = split(s.drop_last(), sep);
        if s.last() == sep {
            r.push(Seq::empty())
        } else {
            r.update(r.len() - 1, r.last().push(s.last()))
        }
    }
}

proof fn lemma_split_nonempty(s: Seq<char>, sep: char)
    ensures
        split(s, sep).len() >= 1,
    decreases s.len(),
{
    if s.len() > 0 {
        lemma_split_nonempty(s.drop_last(), sep);
    }
}

proof fn lemma_split_without_sep(p: Seq<char>, sep: char)
    requires
        !p.contains(sep),
    ensures
        split(p, sep) == seq![p],
    decreases p.len(),
{
    if p.len() == 0 {
        assert(p =~= Seq::<char>::empty());
        assert(split(p, sep) =~= seq![p]);
    } else {
        let q = p.drop_last();
        assert(!q.contains(sep)) by {
            if q.contains(sep) {
                let k = choose|k: int| 0 <= k < q.len() && q[k] == sep;
                assert(p[k] == sep);
            }
        }
        lemma_split_without_sep(q, sep);
        assert(p.last() != sep) by {
            assert(p[p.len() - 1] == p.last());
        }
        assert(q.push(p.last()) =~= p);
        assert(split(p, sep) =~= seq![p]);
    }
}

proof fn lemma_split_after_sep(x: Seq<char>, y: Seq<char>, sep: char)
    requires
        !y.contains(sep),
    ensures
        split(x.push(sep) + y, sep) == split(x, sep).push(y),
    decreases y.len(),
{
    lemma_split_nonempty(x, sep);
    if y.len() == 0 {
        assert(x.push(sep) + y =~= x.push(sep));
        assert(x.push(sep).drop_last() =~= x);
        assert(y =~= Seq::<char>::empty());
        assert(x.push(sep).last() == sep);
        assert(split(x.push(sep), sep) == split(x, sep).push(Seq::empty()));
        assert(split(x.push(sep) + y, sep) =~= split(x, sep).push(y));
    } else {
        let y1 = y.drop_last();
        assert(!y1.contains(sep)) by {
            if y1.contains(sep) {
                let k = choose|k: int| 0 <= k < y1.len() && y1[k] == sep;
                assert(y[k] == sep);
            }
        }
        lemma_split_after_sep(x, y1, sep);
        let s = x.push(sep) + y;
        assert(s.drop_last() =~= x.push(sep) + y1);
        assert(s.last() == y[y.len() - 1]);
        assert(y1.push(y.last()) =~= y);
        assert(split(s, sep) =~= split(x, sep).push(y));
    }
}

proof fn lemma_join_avoids(parts: Seq<Seq<char>>, sep: char, c: char)
    requires
        sep != c,
        forall|k: int| 0 <= k < parts.len() ==> !(#[trigger] parts[k]).contains(c),
    ensures
        !join(parts, sep).contains(c),
    decreases parts.len(),
{
    if parts.len() > 1 {
        let front = parts.drop_last();
        assert forall|k: int| 0 <= k < front.len() implies !(#[trigger] front[k]).contains(c) by {
            assert(front[k] == parts[k]);
        }
        lemma_join_avoids(front, sep, c);
        let j = join(parts, sep);
        let head = join(front, sep).push(sep);
        assert(!parts[parts.len() - 1].contains(c));
        if j.contains(c) {
            let k = choose|k: int| 0 <= k < j.len() && j[k] == c;
            if k < head.len() {
                if k < head.len() - 1 {
                    assert(join(front, sep)[k] == c);
                }
            } else {
                assert(parts.last()[k - head.len()] == c);
            }
        }
    } else if parts.len() == 1 {
        assert(!parts[0].contains(c));
    }
}

proof fn lemma_split_join(parts: Seq<Seq<char>>, sep: char)
    requires
        parts.len() >= 1,
        forall|k: int| 0 <= k < parts.len() ==> !(#[trigger] parts[k]).contains(sep),
    ensures
        split(join(parts, sep), sep) == parts,
    decreases parts.len(),
{
    if parts.len() == 1 {
        assert(!parts[0].contains(sep));
        lemma_split_without_sep(parts[0], sep);
        assert(seq![parts[0]] =~= parts);
    } else {
        let front = parts.drop_last();
        assert forall|k: int| 0 <= k < front.len() implies !(#[trigger] front[k]).contains(sep) by {
            assert(front[k] == parts[k]);
        }
        lemma_split_join(front, sep);
        assert(!parts[parts.len() - 1].contains(sep));
        lemma_split_after_sep(join(front, sep), parts.last(), sep);
        assert(front.push(parts.last()) =~= parts);
    }
}

proof fn lemma_cleaned_avoids(value: Seq<char>)
    ensures
        !cleaned(value).contains('\t'),
        !cleaned(value).contains('\n'),
{
    let c = cleaned(value);
    if c.contains('\t') {
        let k = choose|k: int| 0 <= k < c.len() && c[k] == '\t';
        assert(c[k] != '\t');
    }
    if c.contains('\n') {
        let k = choose|k: int| 0 <= k < c.len() && c[k] == '\n';
        assert(c[k] != '\n');
    }
}

/// The layout of the table cannot be broken by what its cells hold: split at
/// line feeds, the text gives one line of titles and one line per entry; split
/// at tabs, each line gives back exactly its cleaned cells, as many as there
/// are columns.
pub proof fn lemma_tsv_layout(entries: Seq<EntryView>)
    ensures
        split(tsv_text(entries), '\n').len() == entries.len() + 1,
        split(split(tsv_text(entries), '\n')[0], '\t') == header_line_cells(),
        forall|i: int|
            0 <= i < entries.len() ==> split(
                #[trigger] split(tsv_text(entries), '\n')[i + 1],
                '\t',
            ) == entry_line_cells(entries[i]),
        header_line_cells().len() == header_labels().len(),
        forall|i: int|
            0 <= i < entries.len() ==> (#[trigger] entry_line_cells(entries[i])).len()
                == header_labels().len(),
{
    let lines = tsv_lines(entries);
    let h = header_line_cells();
    assert forall|k: int| 0 <= k < h.len() implies !(#[trigger] h[k]).contains('\t') && !h[k].contains(
        '\n',
    ) by {
        lemma_cleaned_avoids(header_labels()[k]);
    }
    lemma_split_join(h, '\t');
    lemma_join_avoids(h, '\t', '\n');
    assert forall|i: int| 0 <= i < entries.len() implies {
        let cells = #[trigger] entry_line_cells(entries[i]);
        &&& split(join(cells, '\t'), '\t') == cells
        &&& !join(cells, '\t').contains('\n')
        &&& cells.len() == header_labels().len()
    } by {
        let cells = entry_line_cells(entries[i]);
        assert forall|k: int| 0 <= k < cells.len() implies !(#[trigger] cells[k]).contains('\t')
            && !cells[k].contains('\n') by {
            lemma_cleaned_avoids(dollar_stripped(row_cells(entries[i])[k]));
        }
        lemma_split_join(cells, '\t');
        lemma_join_avoids(cells, '\t', '\n');
    }
    assert forall|k: int| 0 <= k < lines.len() implies !(#[trigger] lines[k]).contains('\n') by {
        if k > 0 {
            assert(lines[k] == join(entry_line_cells(entries[k - 1]), '\t'));
        }
    }
    lemma_split_join(lines, '\n');
    assert forall|i: int| 0 <= i < entries.len() implies split(
        #[trigger] split(tsv_text(entries), '\n')[i + 1],
        '\t',
    ) == entry_line_cells(entries[i]) by {
        assert(lines[i + 1] == join(entry_line_cells(entries[i]), '\t'));
    }
}

/// Cleaning a cell twice is cleaning it once.
pub proof fn lemma_cleaned_idempotent(value: Seq<char>)
    ensures
        cleaned(cleaned(value)) == cleaned(value),
{
    assert(cleaned(cleaned(value)) =~= cleaned(value));
}

/// A price reaches the table as its two-decimal form alone, without its `$`,
/// when that form has no surrounding whitespace.
pub proof fn lemma_price_cell_without_dollar(shown: Seq<char>)
    requires
        shown.len() > 0,
        !crate::text::is_white_space(shown[0]),
        !crate::text::is_white_space(shown.last()),
    ensures
        dollar_stripped("$"@ + shown) == shown,
{
    reveal_strlit("$");
    let full = "$"@ + shown;
    assert(full.last() == shown.last());
    crate::data::lemma_trimmed_plain(full);
    assert(full.drop_first() =~= shown);
}

/// A cell that needs no cleaning or trimming: not empty, without whitespace
/// at either end, without tab or line feed.
pub open spec fn is_plain_cell(s: Seq<char>) -> bool {
    &&& s.len() > 0
    &&& !crate::text::is_white_space(s[0])
    &&& !crate::text::is_white_space(s.last())
    &&& !s.contains('\t')
    &&& !s.contains('\n')
}

/// A price with no amount, or one whose shown form is a plain cell.
pub open spec fn has_plain_form(p: PriceView) -> bool {
    match p {
        None => true,
        Some((_, shown, _)) => is_plain_cell(shown),
    }
}

/// What a spreadsheet should read for a price: its two-decimal form, or
/// `N/A`.
pub open spec fn price_cell_text(p: PriceView) -> Seq<char> {
    match p {
        None => "N/A"@,
        Some((_, shown, _)) => shown,
    }
}

proof fn lemma_price_cell(p: PriceView)
    requires
        has_plain_form(p),
    ensures
        cleaned(dollar_stripped(price_display(p))) == price_cell_text(p),
{
    match p {
        None => {
            reveal_strlit("N/A");
            assert(cleaned("N/A"@) =~= "N/A"@);
        },
        Some((_, shown, _)) => {
            lemma_price_cell_without_dollar(shown);
            assert forall|i: int| 0 <= i < shown.len() implies shown[i] != '\t' && shown[i]
                != '\n' by {
                if shown[i] == '\t' {
                    assert(shown.contains('\t'));
                }
                if shown[i] == '\n' {
                    assert(shown.contains('\n'));
                }
            }
            assert(cleaned(shown) =~= shown);
        },
    }
}

/// Every cell of an entry's line is the cell of the same column of its row,
/// without its leading `$` and cleaned, all columns alike; so each of the
/// four price columns reads as the price's two-decimal form without `$`, or
/// as `N/A`.
pub proof fn lemma_entry_line_cells(e: EntryView)
    ensures
        entry_line_cells(e).len() == row_cells(e).len(),
        forall|k: int|
            0 <= k < row_cells(e).len() ==> #[trigger] entry_line_cells(e)[k] == cleaned(
                dollar_stripped(row_cells(e)[k]),
            ),
        has_plain_form(e.input) ==> entry_line_cells(e)[6] == price_cell_text(e.input),
        has_plain_form(e.cached_input) ==> entry_line_cells(e)[7] == price_cell_text(
            e.cached_input,
        ),
        has_plain_form(e.cache_write) ==> entry_line_cells(e)[8] == price_cell_text(
            e.cache_write,
        ),
        has_plain_form(e.output) ==> entry_line_cells(e)[9] == price_cell_text(e.output),
{
    if has_plain_form(e.input) {
        lemma_price_cell(e.input);
    }
    if has_plain_form(e.cached_input) {
        lemma_price_cell(e.cached_input);
    }
    if has_plain_form(e.cache_write) {
        lemma_price_cell(e.cache_write);
    }
    if has_plain_form(e.output) {
        lemma_price_cell(e.output);
    }
}

} // verus!
