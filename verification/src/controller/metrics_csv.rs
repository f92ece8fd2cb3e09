//! Files of samples, as comma-separated values.

use vstd::prelude::*;

use crate::controller::metrics_buffer::{MetricRowRecord, SourceKind};
use crate::text::{chars, i64_text, trim};

verus! {

/// Whether a character makes quotes necessary.
pub open spec fn is_special(c: char) -> bool {
    c == ',' || c == '"' || c == '\n' || c == '\r'
}

/// Whether a cell has to be quoted.
pub open spec fn needs_quotes(s: Seq<char>) -> bool {
    exists|i: int| 0 <= i < s.len() && is_special(#[trigger] s[i])
}

/// A text with every quote doubled.
pub open spec fn doubled(s: Seq<char>) -> Seq<char>
    decreases s.len(),
{
    if s.len() == 0 {
        Seq::empty()
    } else if s.last() == '"' {
        doubled(s.drop_last()).push('"').push('"')
    } else {
        doubled(s.drop_last()).push(s.last())
    }
}

/// A cell.
pub open spec fn cell(s: Seq<char>) -> Seq<char> {
    if needs_quotes(s) {
        seq!['"'] + doubled(s) + seq!['"']
    } else {
        s
    }
}

/// A text with every doubled quote written once.
pub open spec fn undoubled(s: Seq<char>) -> Seq<char>
    decreases s.len(),
{
    if s.len() == 0 {
        Seq::empty()
    } else if s.len() >= 2 && s.last() == '"' && s[s.len() - 2] == '"' {
        undoubled(s.take(s.len() - 2)).push('"')
    } else {
        undoubled(s.drop_last()).push(s.last())
    }
}

/// What a cell says.
pub open spec fn cell_text(c: Seq<char>) -> Seq<char> {
    if c.len() >= 2 && c[0] == '"' {
        undoubled(c.subrange(1, c.len() - 1))
    } else {
        c
    }
}

proof fn undoubling(s: Seq<char>)
    ensures
        undoubled(doubled(s)) == s,
    decreases s.len(),
{
    if s.len() == 0 {
        assert(s =~= Seq::<char>::empty());
    } else {
        let front = doubled(s.drop_last());
        undoubling(s.drop_last());
        let now = doubled(s);
        if s.last() == '"' {
            assert(now.take(now.len() - 2) =~= front);
        } else {
            assert(now.drop_last() =~= front);
        }
        assert(s.drop_last().push(s.last()) =~= s);
    }
}

/// Every text can be read back from its cell.
pub proof fn cells_are_read_back(s: Seq<char>)
    ensures
        cell_text(cell(s)) == s,
{
    if needs_quotes(s) {
        let c = cell(s);
        assert(c.subrange(1, c.len() - 1) =~= doubled(s));
        undoubling(s);
    } else {
        if s.len() >= 2 && s[0] == '"' {
            assert(is_special(s[0]));
        }
    }
}

/// The cell of a text.
pub fn write_csv_cell(value: &str) -> (r: String)
    ensures
        r@ == cell(value@),
{
    let x = chars(value);
    let mut special = false;
    let mut out = String::new();
    let mut i: usize = 0;
    while i < x.len()
        invariant
            i <= x.len(),
            x@ == value@,
            out@ == doubled(value@.take(i as int)),
            special == exists|j: int| 0 <= j < i && is_special(#[trigger] value@[j]),
        decreases x.len() - i,
    {
        assert(value@.take(i + 1).drop_last() =~= value@.take(i as int));
        assert(value@.take(i + 1).last() == value@[i as int]);
        let c = x[i];
        if c == ',' || c == '"' || c == '\n' || c == '\r' {
            assert(is_special(value@[i as int]));
            special = true;
        }
        if c == '"' {
            out.push('"');
            out.push('"');
        } else {
            out.push(c);
        }
        i += 1;
    }
    assert(value@.take(i as int) =~= value@);
    if !special {
        return value.to_owned();
    }
    let mut quoted = String::new();
    quoted.push('"');
    quoted.append(out.as_str());
    quoted.push('"');
    assert(quoted@ =~= seq!['"'] + doubled(value@) + seq!['"']);
    quoted
}

/// Cells, each after a comma.
pub open spec fn further_cells(names: Seq<Seq<char>>) -> Seq<char>
    decreases names.len(),
{
    if names.len() == 0 {
        Seq::empty()
    } else {
        further_cells(names.drop_last()) + ","@ + cell(names.last())
    }
}

/// The first line of a file.
pub open spec fn header(names: Seq<Seq<char>>) -> Seq<char> {
    cell("timestamp"@) + ","@ + cell("source_kind"@) + further_cells(names) + "\n"@
}

/// A row as it is written: numbers are given as text.
#[derive(Debug)]
pub struct CsvRow {
    pub timestamp_ms: i64,
    pub source_kind: SourceKind,
    pub values: Vec<String>,
}

/// Values, each after a comma.
pub open spec fn further_values(values: Seq<Seq<char>>) -> Seq<char>
    decreases values.len(),
{
    if values.len() == 0 {
        Seq::empty()
    } else {
        further_values(values.drop_last()) + ","@ + values.last()
    }
}

/// A line of a file.
pub open spec fn row_line(row: CsvRow) -> Seq<char> {
    crate::text::dec_int(row.timestamp_ms as int) + ","@ + cell(
        crate::controller::metrics_buffer::source_name(row.source_kind),
    ) + further_values(crate::text::texts(row.values@)) + "\n"@
}

/// Lines of a file.
pub open spec fn row_lines(rows: Seq<CsvRow>) -> Seq<char>
    decreases rows.len(),
{
    if rows.len() == 0 {
        Seq::empty()
    } else {
        row_lines(rows.drop_last()) + row_line(rows.last())
    }
}

/// Missing values, each after a comma.
pub open spec fn missing_values(count: nat) -> Seq<char>
    decreases count,
{
    if count == 0 {
        Seq::empty()
    } else {
        missing_values((count - 1) as nat) + ",NaN"@
    }
}

/// The lines of a file after its first one, with missing values added. Blank lines are dropped.
pub open spec fn widened(lines: Seq<Seq<char>>, added: nat) -> Seq<char>
    decreases lines.len(),
{
    if lines.len() <= 1 {
        Seq::empty()
    } else {
        let before = widened(lines.drop_last(), added);
        if crate::text::trimmed(lines.last()).len() == 0 {
            before
        } else {
            before + lines.last() + missing_values(added) + "\n"@
        }
    }
}

/// The first line of a file.
pub fn write_csv_header(metric_names: &Vec<String>) -> (r: String)
    ensures
        r@ == header(crate::text::texts(metric_names@)),
{
    let ghost all = crate::text::texts(metric_names@);
    let mut out = write_csv_cell("timestamp").concat(",").concat(
        write_csv_cell("source_kind").as_str(),
    );
    let ghost first = out@;
    let mut i: usize = 0;
    assert(all.take(0) =~= Seq::<Seq<char>>::empty());
    assert(first + Seq::<char>::empty() =~= first);
    while i < metric_names.len()
        invariant
            i <= metric_names.len(),
            all == crate::text::texts(metric_names@),
            out@ == first + further_cells(all.take(i as int)),
        decreases metric_names.len() - i,
    {
        assert(all.take(i + 1).drop_last() =~= all.take(i as int));
        assert(all.take(i + 1).last() == metric_names@[i as int]@);
        let ghost before = further_cells(all.take(i as int));
        let added = write_csv_cell(metric_names[i].as_str());
        out.append(",");
        out.append(added.as_str());
        assert(out@ =~= first + (before + ","@ + added@));
        i += 1;
    }
    assert(all.take(i as int) =~= all);
    out.append("\n");
    out
}

fn write_row(row: &CsvRow) -> (r: String)
    ensures
        r@ == row_line(*row),
{
    let ghost all = crate::text::texts(row.values@);
    let mut out = i64_text(row.timestamp_ms).concat(",").concat(
        write_csv_cell(row.source_kind.name()).as_str(),
    );
    let ghost first = out@;
    let mut i: usize = 0;
    assert(all.take(0) =~= Seq::<Seq<char>>::empty());
    assert(first + Seq::<char>::empty() =~= first);
    while i < row.values.len()
        invariant
            i <= row.values.len(),
            all == crate::text::texts(row.values@),
            out@ == first + further_values(all.take(i as int)),
        decreases row.values.len() - i,
    {
        assert(all.take(i + 1).drop_last() =~= all.take(i as int));
        assert(all.take(i + 1).last() == row.values@[i as int]@);
        let ghost before = further_values(all.take(i as int));
        out.append(",");
        out.append(row.values[i].as_str());
        assert(out@ =~= first + (before + ","@ + row.values@[i as int]@));
        i += 1;
    }
    assert(all.take(i as int) =~= all);
    out.append("\n");
    out
}

/// Lines of a file.
pub fn write_metric_rows(rows: &Vec<CsvRow>) -> (r: String)
    ensures
        r@ == row_lines(rows@),
{
    let mut out = String::new();
    let mut i: usize = 0;
    assert(rows@.take(0) =~= Seq::<CsvRow>::empty());
    while i < rows.len()
        invariant
            i <= rows.len(),
            out@ == row_lines(rows@.take(i as int)),
        decreases rows.len() - i,
    {
        assert(rows@.take(i + 1).drop_last() =~= rows@.take(i as int));
        out.append(write_row(&rows[i]).as_str());
        i += 1;
    }
    assert(rows@.take(i as int) =~= rows@);
    out
}

fn widen(lines: &Vec<String>, added: usize) -> (r: String)
    ensures
        r@ == widened(crate::text::texts(lines@), added as nat),
{
    let mut padding = String::new();
    let mut k: usize = 0;
    while k < added
        invariant
            k <= added,
            padding@ == missing_values(k as nat),
        decreases added - k,
    {
        padding.append(",NaN");
        k += 1;
    }
    let ghost all = crate::text::texts(lines@);
    let mut out = String::new();
    if lines.len() == 0 {
        return out;
    }
    let mut i: usize = 1;
    while i < lines.len()
        invariant
            1 <= i <= lines.len(),
            all == crate::text::texts(lines@),
            padding@ == missing_values(added as nat),
            out@ == widened(all.take(i as int), added as nat),
        decreases lines.len() - i,
    {
        assert(all.take(i + 1).drop_last() =~= all.take(i as int));
        assert(all.take(i + 1).last() == lines@[i as int]@);
        if !trim(lines[i].as_str()).is_empty() {
            out.append(lines[i].as_str());
            out.append(padding.as_str());
            out.append("\n");
        }
        i += 1;
    }
    assert(all.take(i as int) =~= all);
    out
}

/// What is to be done with a file.
#[derive(Debug)]
pub enum CsvAction {
    /// Nothing.
    Leave,
    /// Make the file anew, with these contents.
    Create(String),
    /// Put a file with these contents in its place.
    Replace(String),
    /// Add this at its end, making the file if it is not there.
    Append(String),
}

/// The contents of a file whose columns have become more.
pub open spec fn rewritten(
    names: Seq<Seq<char>>,
    previous: Seq<Seq<char>>,
    rows: Seq<CsvRow>,
    existing: Option<Seq<Seq<char>>>,
) -> Seq<char> {
    header(names) + (match existing {
        Some(lines) => widened(
            lines,
            if names.len() > previous.len() {
                (names.len() - previous.len()) as nat
            } else {
                0
            },
        ),
        None => Seq::empty(),
    }) + row_lines(rows)
}

/// The lines of a file, where it is there.
pub open spec fn lines_of(existing: Option<&Vec<String>>) -> Option<Seq<Seq<char>>> {
    match existing {
        Some(lines) => Some(crate::text::texts(lines@)),
        None => None,
    }
}

/// The contents of a file whose columns have become more: the old rows get missing values, the
/// new rows follow.
pub fn rewrite_metric_csv_with_expanded_schema(
    metric_names: &Vec<String>,
    previous_metric_names: &Vec<String>,
    rows: &Vec<CsvRow>,
    existing: Option<&Vec<String>>,
) -> (r: String)
    ensures
        r@ == rewritten(
            crate::text::texts(metric_names@),
            crate::text::texts(previous_metric_names@),
            rows@,
            lines_of(existing),
        ),
{
    let added: usize = metric_names.len().saturating_sub(previous_metric_names.len());
    let kept = match existing {
        Some(lines) => widen(lines, added),
        None => String::new(),
    };
    assert(crate::text::texts(metric_names@).len() == metric_names@.len());
    assert(crate::text::texts(previous_metric_names@).len() == previous_metric_names@.len());
    write_csv_header(metric_names).concat(kept.as_str()).concat(write_metric_rows(rows).as_str())
}

/// What is to be done with a file to add rows to it; `existing` are its lines, where it is there.
pub fn write_metric_rows_csv(
    metric_names: &Vec<String>,
    previous_metric_names: &Vec<String>,
    rows: &Vec<CsvRow>,
    rewrite_existing: bool,
    existing: Option<&Vec<String>>,
) -> (r: CsvAction)
    ensures
        ({
            let names = crate::text::texts(metric_names@);
            if rows@.len() == 0 {
                r is Leave
            } else if previous_metric_names@.len() == 0 {
                r matches CsvAction::Create(c) && c@ == header(names) + row_lines(rows@)
            } else if rewrite_existing {
                r matches CsvAction::Replace(c) && c@ == rewritten(
                    names,
                    crate::text::texts(previous_metric_names@),
                    rows@,
                    lines_of(existing),
                )
            } else {
                r matches CsvAction::Append(c) && c@ == (if existing is Some {
                    Seq::empty()
                } else {
                    header(names)
                }) + row_lines(rows@)
            }
        }),
{
    if rows.len() == 0 {
        return CsvAction::Leave;
    }
    if previous_metric_names.len() == 0 {
        return CsvAction::Create(
            write_csv_header(metric_names).concat(write_metric_rows(rows).as_str()),
        );
    }
    if rewrite_existing {
        return CsvAction::Replace(
            rewrite_metric_csv_with_expanded_schema(
                metric_names,
                previous_metric_names,
                rows,
                existing,
            ),
        );
    }
    let first = match existing {
        Some(_) => String::new(),
        None => write_csv_header(metric_names),
    };
    CsvAction::Append(first.concat(write_metric_rows(rows).as_str()))
}

/// The values of a row in the order of columns. A column without a value gets the given one.
pub fn values_in_order<V: Copy>(
    row: &MetricRowRecord<V>,
    metric_names: &Vec<String>,
    missing: V,
) -> (r: Vec<V>)
    ensures
        r@ == Seq::new(
            metric_names@.len(),
            |i: int|
                crate::controller::metrics_buffer::value_in(row@, metric_names@[i]@, missing),
        ),
{
    let mut out: Vec<V> = Vec::new();
    let mut i: usize = 0;
    while i < metric_names.len()
        invariant
            i <= metric_names.len(),
            out@.len() == i,
            forall|j: int|
                0 <= j < i ==> #[trigger] out@[j] == crate::controller::metrics_buffer::value_in(
                    row@,
                    metric_names@[j]@,
                    missing,
                ),
        decreases metric_names.len() - i,
    {
        let value = match row.values.get(metric_names[i].as_str()) {
            Some(v) => *v,
            None => missing,
        };
        out.push(value);
        i += 1;
    }
    assert(out@ =~= Seq::new(
        metric_names@.len(),
        |i: int| crate::controller::metrics_buffer::value_in(row@, metric_names@[i]@, missing),
    ));
    out
}

/// The name of the file of an instance.
pub open spec fn file_name(identity: Seq<char>) -> Seq<char> {
    "metrics_"@ + Seq::new(
        identity.len(),
        |i: int|
            if identity[i] == ':' {
                '_'
            } else {
                identity[i]
            },
    ) + ".csv"@
}

/// The name of the file of an instance.
pub fn csv_file_name(identity: &str) -> (r: String)
    ensures
        r@ == file_name(identity@),
{
    let ghost wanted = Seq::new(
        identity@.len(),
        |i: int|
            if identity@[i] == ':' {
                '_'
            } else {
                identity@[i]
            },
    );
    let x = chars(identity);
    let mut out = String::new();
    let mut i: usize = 0;
    while i < x.len()
        invariant
            i <= x.len(),
            x@ == identity@,
            wanted.len() == x@.len(),
            forall|j: int|
                0 <= j < wanted.len() ==> #[trigger] wanted[j] == if identity@[j] == ':' {
                    '_'
                } else {
                    identity@[j]
                },
            out@ == wanted.take(i as int),
        decreases x.len() - i,
    {
        let c = if x[i] == ':' {
            '_'
        } else {
            x[i]
        };
        out.push(c);
        assert(wanted.take(i + 1) =~= wanted.take(i as int).push(c));
        i += 1;
    }
    assert(wanted.take(i as int) =~= wanted);
    "metrics_".to_owned().concat(out.as_str()).concat(".csv")
}

proof fn cells_are_further_cells(names: Seq<Seq<char>>, i: int)
    requires
        0 <= i < names.len(),
    ensures
        crate::text::holds(further_cells(names), ","@ + cell(names[i])),
    decreases names.len(),
{
    let front = names.drop_last();
    let t = ","@ + cell(names[i]);
    let last = ","@ + cell(names.last());
    crate::text::grouped_together(further_cells(front), ","@, cell(names.last()));
    if i < front.len() {
        assert(front[i] == names[i]);
        cells_are_further_cells(front, i);
        crate::text::holds_in_a_part(further_cells(front), last, t);
    } else {
        crate::text::holds_its_end(further_cells(front), last);
    }
}

/// The header begins with the time and the kind of source, and names every metric.
pub proof fn headers_name_every_metric(names: Seq<Seq<char>>, i: int)
    requires
        0 <= i < names.len(),
    ensures
        crate::text::begins(header(names), cell("timestamp"@) + ","@ + cell("source_kind"@)),
        crate::text::holds(header(names), ","@ + cell(names[i])),
        header(names).last() == '\n',
{
    let head = cell("timestamp"@) + ","@ + cell("source_kind"@);
    let t = ","@ + cell(names[i]);
    cells_are_further_cells(names, i);
    crate::text::holds_in_a_part(head, further_cells(names), t);
    crate::text::holds_in_a_part(head + further_cells(names), "\n"@, t);
    assert(header(names).subrange(0, head.len() as int) =~= head);
    reveal_strlit("\n");
}

proof fn values_are_further_values(values: Seq<Seq<char>>, i: int)
    requires
        0 <= i < values.len(),
    ensures
        crate::text::holds(further_values(values), ","@ + values[i]),
    decreases values.len(),
{
    let front = values.drop_last();
    let t = ","@ + values[i];
    let last = ","@ + values.last();
    crate::text::grouped_together(further_values(front), ","@, values.last());
    if i < front.len() {
        assert(front[i] == values[i]);
        values_are_further_values(front, i);
        crate::text::holds_in_a_part(further_values(front), last, t);
    } else {
        crate::text::holds_its_end(further_values(front), last);
    }
}

/// A row begins with its time and its kind of source, and holds every value.
pub proof fn rows_hold_every_value(row: CsvRow, i: int)
    requires
        0 <= i < row.values@.len(),
    ensures
        crate::text::begins(
            row_line(row),
            crate::text::dec_int(row.timestamp_ms as int) + ","@ + cell(
                crate::controller::metrics_buffer::source_name(row.source_kind),
            ),
        ),
        crate::text::holds(row_line(row), ","@ + row.values@[i]@),
        row_line(row).last() == '\n',
{
    let head = crate::text::dec_int(row.timestamp_ms as int) + ","@ + cell(
        crate::controller::metrics_buffer::source_name(row.source_kind),
    );
    let values = crate::text::texts(row.values@);
    let t = ","@ + values[i];
    values_are_further_values(values, i);
    crate::text::holds_in_a_part(head, further_values(values), t);
    crate::text::holds_in_a_part(head + further_values(values), "\n"@, t);
    assert(row_line(row).subrange(0, head.len() as int) =~= head);
    reveal_strlit("\n");
}

/// Every row is written.
pub proof fn every_row_is_written(rows: Seq<CsvRow>, i: int)
    requires
        0 <= i < rows.len(),
    ensures
        crate::text::holds(row_lines(rows), row_line(rows[i])),
    decreases rows.len(),
{
    let front = rows.drop_last();
    if i < front.len() {
        assert(front[i] == rows[i]);
        every_row_is_written(front, i);
        crate::text::holds_in_a_part(row_lines(front), row_line(rows.last()), row_line(rows[i]));
    } else {
        crate::text::holds_its_end(row_lines(front), row_line(rows.last()));
    }
}

/// Rows stand in the order in which they are given.
pub proof fn rows_are_written_one_after_the_other(rows: Seq<CsvRow>, more: CsvRow)
    ensures
        row_lines(rows.push(more)) == row_lines(rows) + row_line(more),
{
    assert(rows.push(more).drop_last() =~= rows);
}

/// A line of the file that is not blank is kept when metrics are added, with a mark that there is
/// no value for each of those; its old header is not.
pub proof fn old_lines_are_kept(lines: Seq<Seq<char>>, added: nat, i: int)
    requires
        1 <= i < lines.len(),
        crate::text::trimmed(lines[i]).len() > 0,
    ensures
        crate::text::holds(widened(lines, added), lines[i] + missing_values(added) + "\n"@),
        missing_values(added).len() == 4 * added,
    decreases lines.len(),
{
    marks_are_as_many_as_added(added);
    let front = lines.drop_last();
    let before = widened(front, added);
    let t = lines[i] + missing_values(added) + "\n"@;
    let last = lines.last() + missing_values(added) + "\n"@;
    if i < front.len() {
        assert(front[i] == lines[i]);
        old_lines_are_kept(front, added, i);
        crate::text::holds_in_a_part(before, last, t);
    } else {
        crate::text::holds_its_end(before, last);
    }
    crate::text::grouped_together(before, lines.last(), missing_values(added));
    crate::text::grouped_together(before, lines.last() + missing_values(added), "\n"@);
}

proof fn marks_are_as_many_as_added(added: nat)
    ensures
        missing_values(added).len() == 4 * added,
    decreases added,
{
    reveal_strlit(",NaN");
    if added > 0 {
        marks_are_as_many_as_added((added - 1) as nat);
    }
}

/// A file that is made anew for more metrics has the new header, every old line and every new row.
pub proof fn rewritten_files_keep_everything(
    names: Seq<Seq<char>>,
    previous: Seq<Seq<char>>,
    rows: Seq<CsvRow>,
    lines: Seq<Seq<char>>,
)
    requires
        names.len() >= previous.len(),
    ensures
        crate::text::begins(rewritten(names, previous, rows, Some(lines)), header(names)),
        crate::text::holds(
            rewritten(names, previous, rows, Some(lines)),
            widened(lines, (names.len() - previous.len()) as nat),
        ),
        crate::text::ends(rewritten(names, previous, rows, Some(lines)), row_lines(rows)),
{
    let whole = rewritten(names, previous, rows, Some(lines));
    let middle = widened(lines, (names.len() - previous.len()) as nat);
    assert(whole == header(names) + middle + row_lines(rows));
    crate::text::holds_its_middle(header(names), middle, row_lines(rows));
    assert(whole.subrange(0, header(names).len() as int) =~= header(names));
    assert(whole.subrange(whole.len() - row_lines(rows).len(), whole.len() as int) =~= row_lines(
        rows,
    ));
}

/// A value is quoted where it holds a comma, a quote or the end of a line, and is left alone
/// otherwise.
pub proof fn only_special_values_are_quoted(s: Seq<char>)
    ensures
        !crate::text::has_char(s, ',') && !crate::text::has_char(s, '"') && !crate::text::has_char(
            s,
            '\n',
        ) && !crate::text::has_char(s, '\r') ==> cell(s) == s,
        crate::text::has_char(s, ',') || crate::text::has_char(s, '"') || crate::text::has_char(
            s,
            '\n',
        ) || crate::text::has_char(s, '\r') ==> cell(s).len() >= 2 && cell(s)[0] == '"'
            && cell(s).last() == '"',
{
    if needs_quotes(s) {
        let i = choose|i: int| 0 <= i < s.len() && is_special(#[trigger] s[i]);
        assert(s[i] == s[i]);
    }
    if crate::text::has_char(s, ',') {
        let i = choose|i: int| 0 <= i < s.len() && #[trigger] s[i] == ',';
        assert(is_special(s[i]));
    }
    if crate::text::has_char(s, '"') {
        let i = choose|i: int| 0 <= i < s.len() && #[trigger] s[i] == '"';
        assert(is_special(s[i]));
    }
    if crate::text::has_char(s, '\n') {
        let i = choose|i: int| 0 <= i < s.len() && #[trigger] s[i] == '\n';
        assert(is_special(s[i]));
    }
    if crate::text::has_char(s, '\r') {
        let i = choose|i: int| 0 <= i < s.len() && #[trigger] s[i] == '\r';
        assert(is_special(s[i]));
    }
}

/// The name of a file has no colon, and is otherwise that of the identity.
pub proof fn files_are_named_by_identity(identity: Seq<char>, i: int)
    requires
        0 <= i < identity.len(),
    ensures
        file_name(identity).len() == identity.len() + 12,
        identity[i] != ':' ==> file_name(identity)[8 + i] == identity[i],
        identity[i] == ':' ==> file_name(identity)[8 + i] == '_',
        crate::text::begins(file_name(identity), "metrics_"@),
        crate::text::ends(file_name(identity), ".csv"@),
{
    reveal_strlit("metrics_");
    reveal_strlit(".csv");
    let f = file_name(identity);
    assert(f.subrange(0, 8) =~= "metrics_"@);
    assert(f.subrange(f.len() - 4, f.len() as int) =~= ".csv"@);
}

} // verus!
