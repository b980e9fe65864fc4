//! Projects as fixed-width tables.
//!
//! A table of width `W` has a three-character index column, a name column
//! and a description column, each followed by one blank but the last. Of
//! the `W - 4` characters that the index column and its blank leave, the
//! name column and its blank take two fifths, rounded down, and the
//! description column three fifths, rounded up. Name and description wrap
//! independently inside their columns. Widths count characters, not the
//! cells that a terminal gives to each.
//!
//! A project is laid out at the table's width. The lines of a single task
//! are asked for at the width that the index column leaves, three less.

use crate::style::{
    highlight_sequence, highlighted, lemma_no_escape_no_reset, reset_sequence, styled_as,
    underline_sequence, underlined,
};
use crate::task::{line_break, Project, ProjectView, Task, TaskView};
use crate::text::{
    decimal, decimal_text, fit, lemma_decimal_len, occurs_in, pad_right, push_fitted, push_padded,
    push_spaces, spaces,
};
use crate::ToTableLikeString;
use vstd::prelude::*;
use vstd::string::*;

verus! {

/// The least width a table can have: an index column of three, its blank,
/// a name column of one, its blank, and a description column of three.
pub const MIN_WIDTH: usize = 9;

/// The width of the index column.
pub const INDEX_WIDTH: usize = 3;

/// The least width that the lines of a task can have after the index
/// column: what a table of `MIN_WIDTH` leaves of itself there.
pub const MIN_ROW_WIDTH: usize = 6;

/// Why a table cannot be laid out.
#[derive(Debug, Clone, Copy, PartialEq, Eq, Structural)]
pub enum LayoutError {
    /// The width is below the least that the layout takes: `MIN_WIDTH`
    /// for a table, `MIN_ROW_WIDTH` for the lines of a task.
    TooNarrow,
}

/// The width of the name column in a table of `width`.
pub open spec fn name_column(width: nat) -> nat {
    if width < MIN_WIDTH {
        0
    } else {
        ((2 * (width - 4)) / 5 - 1) as nat
    }
}

/// The width of the description column in a table of `width`.
pub open spec fn description_column(width: nat) -> nat {
    if width < MIN_WIDTH {
        0
    } else {
        ((3 * (width - 4) + 4) / 5) as nat
    }
}

/// How many lines `s` takes in a column of `col`: one for each full column
/// of characters, and one for what is left, be it nothing.
pub open spec fn wraps(s: Seq<char>, col: nat) -> nat {
    if col == 0 {
        1
    } else {
        s.len() / col + 1
    }
}

/// Where line `k` starts in a text of `len` characters wrapped at `col`:
/// after `k` full columns, or at the end of the text.
pub open spec fn line_start(len: nat, col: nat, k: nat) -> nat {
    if k * col < len {
        k * col
    } else {
        len
    }
}

/// The part of `s` that stands on line `k` of a column of `col`.
pub open spec fn slice_at(s: Seq<char>, col: nat, k: nat) -> Seq<char> {
    s.subrange(line_start(s.len(), col, k) as int, line_start(s.len(), col, k + 1) as int)
}

/// Line `k` of `s` in a column of `col`, padded to the column.
pub open spec fn cell(s: Seq<char>, col: nat, k: nat) -> Seq<char> {
    pad_right(slice_at(s, col, k), col)
}

/// The index column on line `k` of a task: the index on the first line,
/// unless it is zero, and blanks elsewhere.
pub open spec fn index_cell(index: nat, k: nat) -> Seq<char> {
    if k == 0 && index > 0 {
        pad_right(decimal(index), INDEX_WIDTH as nat)
    } else {
        spaces(INDEX_WIDTH as nat)
    }
}

/// Line `k` of a task in a table of `width`.
pub open spec fn task_line(t: TaskView, index: nat, width: nat, k: nat) -> Seq<char> {
    index_cell(index, k) + seq![' '] + cell(t.name, name_column(width), k) + seq![' '] + cell(
        t.description,
        description_column(width),
        k,
    )
}

/// How many lines a task takes: as many as the longer of its two fields.
pub open spec fn task_line_count(t: TaskView, width: nat) -> nat {
    let n = wraps(t.name, name_column(width));
    let d = wraps(t.description, description_column(width));
    if n >= d {
        n
    } else {
        d
    }
}

/// The lines of a task.
pub open spec fn task_rows(t: TaskView, index: nat, width: nat) -> Seq<Seq<char>> {
    Seq::new(task_line_count(t, width), |k: int| task_line(t, index, width, k as nat))
}

/// The lines of `tasks`, numbered from one.
pub open spec fn all_rows(tasks: Seq<TaskView>, width: nat) -> Seq<Seq<char>>
    decreases tasks.len(),
{
    if tasks.len() == 0 {
        Seq::empty()
    } else {
        all_rows(tasks.drop_last(), width) + task_rows(tasks.last(), tasks.len(), width)
    }
}

/// `lines` as one text, a line break after each.
pub open spec fn lines_text(lines: Seq<Seq<char>>) -> Seq<char>
    decreases lines.len(),
{
    if lines.len() == 0 {
        Seq::empty()
    } else {
        lines_text(lines.drop_last()) + lines.last() + line_break()
    }
}

/// The four texts of a table's heading, as they are after styling.
pub struct Heading {
    pub title: Seq<char>,
    pub id: Seq<char>,
    pub name: Seq<char>,
    pub description: Seq<char>,
}

/// The blanks before a title of `len` characters.
pub open spec fn left_margin(len: nat, width: nat) -> nat {
    if width / 2 >= len / 2 {
        (width / 2 - len / 2) as nat
    } else {
        0
    }
}

/// The blanks after a title of `len` characters.
pub open spec fn right_margin(len: nat, width: nat) -> nat {
    if left_margin(len, width) + len <= width {
        (width - left_margin(len, width) - len) as nat
    } else {
        0
    }
}

/// The first line: the styled title between the margins of the plain one.
pub open spec fn title_line(len: nat, width: nat, title: Seq<char>) -> Seq<char> {
    spaces(left_margin(len, width)) + title + spaces(right_margin(len, width))
}

/// The second line: the three column labels.
pub open spec fn label_line(h: Heading) -> Seq<char> {
    h.id + seq![' '] + h.name + seq![' '] + h.description
}

/// The label of the index column.
pub open spec fn id_label() -> Seq<char> {
    seq!['I', 'D']
}

/// The label of the name column.
pub open spec fn name_label() -> Seq<char> {
    seq!['N', 'a', 'm', 'e']
}

/// The label of the description column.
pub open spec fn description_label() -> Seq<char> {
    seq!['D', 'e', 's', 'c', 'r', 'i', 'p', 't', 'i', 'o', 'n']
}

/// The heading before styling: the project's name, and each label cut or
/// padded to its column.
pub open spec fn plain_heading(p: ProjectView, width: nat) -> Heading {
    Heading {
        title: p.name,
        id: fit(id_label(), INDEX_WIDTH as nat),
        name: fit(name_label(), name_column(width)),
        description: fit(description_label(), description_column(width)),
    }
}

/// What styling can have made of the heading `plain`: the title is the
/// project's name highlighted, as long as the name holds no reset
/// sequence, and each label is the plain label underlined.
pub open spec fn styled_from(h: Heading, plain: Heading) -> bool {
    &&& !occurs_in(plain.title, reset_sequence()) ==> styled_as(
        h.title,
        plain.title,
        highlight_sequence(),
    )
    &&& styled_as(h.id, plain.id, underline_sequence())
    &&& styled_as(h.name, plain.name, underline_sequence())
    &&& styled_as(h.description, plain.description, underline_sequence())
}

/// The lines of a table: title, labels, and the lines of the tasks.
pub open spec fn table_lines(p: ProjectView, width: nat, h: Heading) -> Seq<Seq<char>> {
    seq![title_line(p.name.len(), width, h.title), label_line(h)] + all_rows(p.tasks, width)
}

/// A table as one text.
pub open spec fn table_text(p: ProjectView, width: nat, h: Heading) -> Seq<char> {
    lines_text(table_lines(p, width, h))
}

/// The name column and the description column that share `rest`, the
/// width that the index column and its blank leave.
fn split_columns(rest: usize) -> (columns: (usize, usize))
    requires
        rest + 4 >= MIN_WIDTH,
    ensures
        columns.0 == name_column((rest + 4) as nat),
        columns.1 == description_column((rest + 4) as nat),
        columns.0 >= 1,
        columns.1 >= 3,
        columns.0 + columns.1 + 1 == rest,
{
    let two_fifths: usize = (rest / 5) * 2 + ((rest % 5) * 2) / 5;
    (two_fifths - 1, rest - two_fifths)
}

/// The widths of the name column and of the description column in a table
/// of `width`.
pub fn column_widths(width: usize) -> (columns: Result<(usize, usize), LayoutError>)
    ensures
        width < MIN_WIDTH <==> columns is Err,
        columns matches Ok((name, description)) ==> name == name_column(width as nat)
            && description == description_column(width as nat) && name >= 1 && description >= 3
            && name + description + 5 == width,
{
    if width < MIN_WIDTH {
        return Err(LayoutError::TooNarrow);
    }
    Ok(split_columns(width - 4))
}

/// The three column labels, each cut or padded to its column.
fn plain_labels(name_col: usize, description_col: usize) -> (labels: (String, String, String))
    ensures
        labels.0@ == fit(id_label(), INDEX_WIDTH as nat),
        labels.1@ == fit(name_label(), name_col as nat),
        labels.2@ == fit(description_label(), description_col as nat),
{
    proof {
        reveal_strlit("ID");
        reveal_strlit("Name");
        reveal_strlit("Description");
        assert("ID"@ =~= id_label());
        assert("Name"@ =~= name_label());
        assert("Description"@ =~= description_label());
    }
    let mut id: String = String::new();
    push_fitted(&mut id, "ID", INDEX_WIDTH);
    let mut name: String = String::new();
    push_fitted(&mut name, "Name", name_col);
    let mut description: String = String::new();
    push_fitted(&mut description, "Description", description_col);
    proof {
        assert(id@ =~= fit(id_label(), INDEX_WIDTH as nat));
        assert(name@ =~= fit(name_label(), name_col as nat));
        assert(description@ =~= fit(description_label(), description_col as nat));
    }
    (id, name, description)
}

proof fn lemma_wrap_step(len: nat, col: nat, k: nat)
    requires
        col > 0,
    ensures
        (k + 1) * col == k * col + col,
        k <= len / col <==> k * col <= len,
        (k * col <= len && len - k * col < col) ==> k == len / col,
{
    assert((k + 1) * col == k * col + col) by (nonlinear_arith);
    vstd::arithmetic::div_mod::lemma_fundamental_div_mod(len as int, col as int);
    vstd::arithmetic::div_mod::lemma_mod_bound(len as int, col as int);
    let q = len as int / col as int;
    let r = len as int % col as int;
    assert(len == col * q + r);
    if k <= q {
        assert(k * col <= q * col) by (nonlinear_arith)
            requires
                k <= q,
                col > 0,
        ;
        assert(q * col == col * q) by (nonlinear_arith);
    } else {
        assert(k * col >= (q + 1) * col) by (nonlinear_arith)
            requires
                k >= q + 1,
                col > 0,
        ;
        assert((q + 1) * col == col * q + col) by (nonlinear_arith);
    }
    if k * col <= len && len - k * col < col {
        if k < q {
            assert((k + 1) * col <= q * col) by (nonlinear_arith)
                requires
                    k + 1 <= q,
                    col > 0,
            ;
            assert(q * col == col * q) by (nonlinear_arith);
        }
    }
}

/// Appends line `k` of `s` in a column of `col`; `pos` is where that line
/// starts and `open` whether `s` has a line `k`. Returns both for the next line.
fn push_cell(out: &mut String, s: &str, col: usize, pos: usize, open: bool, Ghost(k): Ghost<nat>) -> (next: (usize, bool))
    requires
        col > 0,
        pos <= s@.len(),
        pos == line_start(s@.len(), col as nat, k),
        open <==> k < wraps(s@, col as nat),
    ensures
        final(out)@ == old(out)@ + cell(s@, col as nat, k),
        next.0 <= s@.len(),
        next.0 == line_start(s@.len(), col as nat, k + 1),
        next.1 <==> k + 1 < wraps(s@, col as nat),
{
    let len: usize = s.unicode_len();
    proof {
        lemma_wrap_step(len as nat, col as nat, k);
        lemma_wrap_step(len as nat, col as nat, k + 1);
    }
    if !open {
        push_spaces(out, col);
        proof {
            assert(slice_at(s@, col as nat, k) =~= Seq::<char>::empty());
            assert(cell(s@, col as nat, k) =~= spaces(col as nat));
        }
        (pos, false)
    } else if len - pos < col {
        push_padded(out, s, pos, len, col);
        (len, false)
    } else {
        push_padded(out, s, pos, pos + col, col);
        (pos + col, true)
    }
}

/// The text of a sequence of lines is the text of its first part followed
/// by the text of the rest.
pub proof fn lemma_lines_text_concat(a: Seq<Seq<char>>, b: Seq<Seq<char>>)
    ensures
        lines_text(a + b) == lines_text(a) + lines_text(b),
    decreases b.len(),
{
    if b.len() == 0 {
        assert(a + b =~= a);
        assert(lines_text(a) + lines_text(b) =~= lines_text(a));
    } else {
        lemma_lines_text_concat(a, b.drop_last());
        assert((a + b).drop_last() =~= a + b.drop_last());
        assert((a + b).last() == b.last());
        assert(lines_text(a + b) =~= lines_text(a) + lines_text(b));
    }
}

impl Task {
    /// The lines of a task, a line break after each, where `width` is
    /// what the table has left after its index column: the lines are those
    /// of a table of `width + 3`, with `id` in the index column of the
    /// first line (blank where `id` is zero).
    pub fn to_table_string(&self, id: usize, width: usize) -> (rows: Result<String, LayoutError>)
        ensures
            width < MIN_ROW_WIDTH <==> rows is Err,
            rows matches Ok(text) ==> text@ == lines_text(
                task_rows(self@, id as nat, (width + 3) as nat),
            ),
    {
        if width < MIN_ROW_WIDTH {
            return Err(LayoutError::TooNarrow);
        }
        let (name_col, description_col) = split_columns(width - 1);
        let name: &str = self.name();
        let description: &str = self.description();
        let mut out: String = String::new();
        let mut name_pos: usize = 0;
        let mut description_pos: usize = 0;
        let mut name_open: bool = true;
        let mut description_open: bool = true;
        let mut first: bool = true;
        let ghost mut k: nat = 0;
        let ghost line = |j: int| task_line(self@, id as nat, (width + 3) as nat, j as nat);
        proof {
            assert(0 * name_col == 0 && 0 * description_col == 0) by (nonlinear_arith);
            assert(out@ =~= lines_text(Seq::new(0, line)));
        }
        while name_open || description_open
            invariant
                width >= MIN_ROW_WIDTH,
                name_col >= 1,
                description_col >= 1,
                name_col == name_column((width + 3) as nat),
                description_col == description_column((width + 3) as nat),
                name@ == self@.name,
                description@ == self@.description,
                line == |j: int| task_line(self@, id as nat, (width + 3) as nat, j as nat),
                first <==> k == 0,
                name_pos <= name@.len(),
                description_pos <= description@.len(),
                name_pos == line_start(name@.len(), name_col as nat, k),
                description_pos == line_start(description@.len(), description_col as nat, k),
                name_open <==> k < wraps(name@, name_col as nat),
                description_open <==> k < wraps(description@, description_col as nat),
                k <= task_line_count(self@, (width + 3) as nat),
                out@ == lines_text(Seq::new(k, line)),
            decreases task_line_count(self@, (width + 3) as nat) - k,
        {
            let ghost before = out@;
            if first && id > 0 {
                let number: String = decimal_text(id);
                let digits: usize = number.as_str().unicode_len();
                push_padded(&mut out, number.as_str(), 0, digits, INDEX_WIDTH);
                proof {
                    assert(number@.subrange(0, digits as int) =~= number@);
                }
            } else {
                push_spaces(&mut out, INDEX_WIDTH);
            }
            proof {
                reveal_strlit(" ");
                reveal_strlit("\n");
                assert(" "@ =~= seq![' ']);
                assert("\n"@ =~= line_break());
            }
            out.append(" ");
            let name_next = push_cell(&mut out, name, name_col, name_pos, name_open, Ghost(k));
            out.append(" ");
            let description_next = push_cell(
                &mut out,
                description,
                description_col,
                description_pos,
                description_open,
                Ghost(k),
            );
            out.append("\n");
            proof {
                let done = Seq::new(k + 1, line);
                assert(done.drop_last() =~= Seq::new(k, line));
                assert(done.last() == task_line(self@, id as nat, (width + 3) as nat, k));
                assert(out@ =~= before + task_line(self@, id as nat, (width + 3) as nat, k)
                    + line_break());
                k = k + 1;
            }
            name_pos = name_next.0;
            name_open = name_next.1;
            description_pos = description_next.0;
            description_open = description_next.1;
            first = false;
        }
        proof {
            assert(Seq::new(k, line) =~= task_rows(self@, id as nat, (width + 3) as nat));
        }
        Ok(out)
    }
}

impl Project {
    /// The table of this project in `width` columns, with the heading's
    /// four texts as given: the styled name, and the styled labels of the
    /// index, name and description columns.
    pub fn assemble_table(
        &self,
        width: usize,
        title: &str,
        id: &str,
        name: &str,
        description: &str,
    ) -> (table: Result<String, LayoutError>)
        ensures
            width < MIN_WIDTH <==> table is Err,
            table matches Ok(text) ==> text@ == table_text(
                self@,
                width as nat,
                (Heading { title: title@, id: id@, name: name@, description: description@ }),
            ),
    {
        if width < MIN_WIDTH {
            return Err(LayoutError::TooNarrow);
        }
        let ghost h = Heading { title: title@, id: id@, name: name@, description: description@ };
        let ghost head = seq![title_line(self@.name.len(), width as nat, title@), label_line(h)];
        let len: usize = self.name().unicode_len();
        let left: usize = if width / 2 >= len / 2 {
            width / 2 - len / 2
        } else {
            0
        };
        let right: usize = if len <= width && left <= width - len {
            width - len - left
        } else {
            0
        };
        proof {
            reveal_strlit(" ");
            reveal_strlit("\n");
            assert(" "@ =~= seq![' ']);
            assert("\n"@ =~= line_break());
        }
        let mut out: String = String::new();
        push_spaces(&mut out, left);
        out.append(title);
        push_spaces(&mut out, right);
        out.append("\n");
        let ghost first_text = out@;
        out.append(id);
        out.append(" ");
        out.append(name);
        out.append(" ");
        out.append(description);
        out.append("\n");
        let tasks: &Vec<Task> = self.tasks();
        let n: usize = tasks.len();
        let mut i: usize = 0;
        proof {
            assert(head.drop_last() =~= seq![head[0]]);
            assert(head.drop_last().drop_last() =~= Seq::<Seq<char>>::empty());
            assert(left == left_margin(self@.name.len(), width as nat));
            assert(right == right_margin(self@.name.len(), width as nat));
            assert(lines_text(head.drop_last().drop_last()) =~= Seq::<char>::empty());
            assert(head.drop_last().last() == head[0]);
            assert(first_text =~= head[0] + line_break());
            assert(lines_text(head.drop_last()) =~= head[0] + line_break());
            assert(head.last() == label_line(h));
            assert(out@ =~= first_text + label_line(h) + line_break());
            assert(self@.tasks.take(0) =~= Seq::<TaskView>::empty());
            assert(head + all_rows(self@.tasks.take(0), width as nat) =~= head);
        }
        while i < n
            invariant
                i <= n,
                width >= MIN_WIDTH,
                n == tasks@.len(),
                n == self@.tasks.len(),
                forall|j: int| 0 <= j < n ==> (#[trigger] tasks@[j])@ == self@.tasks[j],
                out@ == lines_text(head + all_rows(self@.tasks.take(i as int), width as nat)),
            decreases n - i,
        {
            match tasks[i].to_table_string(i + 1, width - INDEX_WIDTH) {
                Err(e) => {
                    return Err(e);
                },
                Ok(rows) => {
                    proof {
                        let upto = self@.tasks.take(i + 1);
                        assert(upto.drop_last() =~= self@.tasks.take(i as int));
                        assert(upto.last() == tasks@[i as int]@);
                        lemma_lines_text_concat(
                            head,
                            all_rows(self@.tasks.take(i as int), width as nat),
                        );
                        lemma_lines_text_concat(
                            all_rows(self@.tasks.take(i as int), width as nat),
                            task_rows(upto.last(), (i + 1) as nat, width as nat),
                        );
                        lemma_lines_text_concat(head, all_rows(upto, width as nat));
                    }
                    out.append(rows.as_str());
                    proof {
                        assert(out@ =~= lines_text(
                            head + all_rows(self@.tasks.take(i + 1), width as nat),
                        ));
                    }
                },
            }
            i += 1;
        }
        proof {
            assert(self@.tasks.take(n as int) =~= self@.tasks);
        }
        Ok(out)
    }

    /// The table of this project in `width` columns: the name centred and
    /// highlighted, the underlined column labels, and the lines of the
    /// tasks. The heading is styled for the terminal at hand, so of its
    /// four texts only what every styling keeps is fixed; the rest of the
    /// table is fixed whole.
    pub fn to_table_string(&self, width: usize) -> (table: Result<String, LayoutError>)
        ensures
            width < MIN_WIDTH <==> table is Err,
            table matches Ok(text) ==> exists|h: Heading|
                styled_from(h, plain_heading(self@, width as nat)) && text@ == #[trigger] table_text(
                    self@,
                    width as nat,
                    h,
                ),
    {
        let (name_col, description_col) = match column_widths(width) {
            Err(e) => {
                return Err(e);
            },
            Ok(columns) => columns,
        };
        let (id_text, name_text, description_text) = plain_labels(name_col, description_col);
        proof {
            lemma_no_escape_no_reset(id_text@);
            lemma_no_escape_no_reset(name_text@);
            lemma_no_escape_no_reset(description_text@);
        }
        let title: String = highlighted(self.name());
        let id: String = underlined(id_text.as_str());
        let name: String = underlined(name_text.as_str());
        let description: String = underlined(description_text.as_str());
        proof {
            let h = Heading { title: title@, id: id@, name: name@, description: description@ };
            assert(styled_from(h, plain_heading(self@, width as nat)));
        }
        self.assemble_table(
            width,
            title.as_str(),
            id.as_str(),
            name.as_str(),
            description.as_str(),
        )
    }

    /// The table of this project in `width` columns with no styling.
    pub fn to_plain_table_string(&self, width: usize) -> (table: Result<String, LayoutError>)
        ensures
            width < MIN_WIDTH <==> table is Err,
            table matches Ok(text) ==> text@ == table_text(
                self@,
                width as nat,
                plain_heading(self@, width as nat),
            ),
    {
        let (name_col, description_col) = match column_widths(width) {
            Err(e) => {
                return Err(e);
            },
            Ok(columns) => columns,
        };
        let (id, name, description) = plain_labels(name_col, description_col);
        self.assemble_table(width, self.name(), id.as_str(), name.as_str(), description.as_str())
    }
}

impl ToTableLikeString for Project {
    fn to_table_string(&self, width: usize) -> (table: Result<String, LayoutError>)
        ensures
            width < MIN_WIDTH <==> table is Err,
            table matches Ok(text) ==> exists|h: Heading|
                styled_from(h, plain_heading(self@, width as nat)) && text@ == #[trigger] table_text(
                    self@,
                    width as nat,
                    h,
                ),
    {
        Project::to_table_string(self, width)
    }
}

/// Every cell is as wide as its column.
pub proof fn lemma_cell_width(s: Seq<char>, col: nat, k: nat)
    ensures
        cell(s, col, k).len() == col,
{
    assert((k + 1) * col == k * col + col) by (nonlinear_arith);
}

/// A field that has been written out leaves blank cells on the lines that
/// the other field still takes: past its last line a cell is all blanks.
pub proof fn lemma_finished_field_is_blank(s: Seq<char>, col: nat, k: nat)
    requires
        col > 0,
        k >= wraps(s, col),
    ensures
        cell(s, col, k) == spaces(col),
{
    lemma_wrap_step(s.len(), col, k);
    lemma_wrap_step(s.len(), col, k + 1);
    assert(slice_at(s, col, k) =~= Seq::<char>::empty());
    assert(cell(s, col, k) =~= spaces(col));
}

/// Every line of a task is exactly as wide as the table, as long as the
/// task's index has at most three digits.
pub proof fn lemma_task_line_width(t: TaskView, index: nat, width: nat, k: nat)
    requires
        width >= MIN_WIDTH,
        index < 1000,
    ensures
        task_line(t, index, width, k).len() == width,
{
    lemma_decimal_len(index);
    lemma_cell_width(t.name, name_column(width), k);
    lemma_cell_width(t.description, description_column(width), k);
}

/// Every line of the tasks of a table is exactly as wide as the table, in
/// a project of fewer than a thousand tasks.
pub proof fn lemma_all_rows_width(tasks: Seq<TaskView>, width: nat, i: int)
    requires
        width >= MIN_WIDTH,
        tasks.len() < 1000,
        0 <= i < all_rows(tasks, width).len(),
    ensures
        all_rows(tasks, width)[i].len() == width,
    decreases tasks.len(),
{
    let before = all_rows(tasks.drop_last(), width);
    if i < before.len() {
        lemma_all_rows_width(tasks.drop_last(), width, i);
    } else {
        lemma_task_line_width(tasks.last(), tasks.len(), width, (i - before.len()) as nat);
    }
}

/// Whatever the styling made of the heading, every line after the two of
/// the heading is exactly as wide as the table, in a project of fewer than
/// a thousand tasks.
pub proof fn lemma_table_rows_width(p: ProjectView, width: nat, h: Heading, i: int)
    requires
        width >= MIN_WIDTH,
        p.tasks.len() < 1000,
        2 <= i < table_lines(p, width, h).len(),
    ensures
        table_lines(p, width, h)[i].len() == width,
{
    lemma_all_rows_width(p.tasks, width, i - 2);
}

/// Every line of an unstyled table is exactly as wide as the table, in a
/// project of fewer than a thousand tasks whose name is no longer than the
/// table is wide.
pub proof fn lemma_plain_table_width(p: ProjectView, width: nat, i: int)
    requires
        width >= MIN_WIDTH,
        p.tasks.len() < 1000,
        p.name.len() <= width,
        0 <= i < table_lines(p, width, plain_heading(p, width)).len(),
    ensures
        table_lines(p, width, plain_heading(p, width))[i].len() == width,
{
    if i >= 2 {
        lemma_table_rows_width(p, width, plain_heading(p, width), i);
    }
}

/// A project without tasks is shown as its heading alone.
pub proof fn lemma_empty_table(p: ProjectView, width: nat, h: Heading)
    requires
        p.tasks.len() == 0,
    ensures
        table_lines(p, width, h) == seq![title_line(p.name.len(), width, h.title), label_line(h)],
{
    assert(table_lines(p, width, h) =~= seq![
        title_line(p.name.len(), width, h.title),
        label_line(h),
    ]);
}

} // verus!
