//! Drawing the task list as a bordered table of three columns: ID, Task
//! and Status. A drawing is a sequence of lines, each a sequence of pieces
//! of text with the shade they are shown in; the terminal side prints them.
use vstd::prelude::*;
use vstd::string::StringExecFns;

use crate::status::{label_of, Status};
use crate::task::{ListOptions, Mode, Task, TaskModel, TodoError};
use crate::todo::{text_len, Todo, MIN_WIDTH};

verus! {

/// How a piece of a table is shown.
#[derive(Clone, Copy, Debug, PartialEq, Eq, Structural)]
pub enum Shade {
    /// Borders: no styling.
    Plain,
    /// A cell of a row that is not selected, while navigating.
    Bold,
    /// A cell of a row that is not selected, while typing.
    BoldOnInsert,
    /// A cell of the selected row, while navigating.
    Cursor,
    /// A cell of the selected row, while typing.
    CursorOnInsert,
}

/// A piece of text of a drawn line, with its shade.
#[derive(Debug)]
pub struct Piece {
    pub text: String,
    pub shade: Shade,
}

pub type PieceModel = (Seq<char>, Shade);

impl View for Piece {
    type V = PieceModel;

    open spec fn view(&self) -> PieceModel {
        (self.text@, self.shade)
    }
}

/// The models of the drawn lines.
pub open spec fn frame_model(f: Seq<Vec<Piece>>) -> Seq<Seq<PieceModel>> {
    f.map_values(|l: Vec<Piece>| l@.map_values(|p: Piece| p@))
}

/// `n` copies of a character.
pub open spec fn repeat(c: char, n: nat) -> Seq<char> {
    Seq::new(n, |_i: int| c)
}

/// The decimal digits of a number, without leading zeros.
pub open spec fn decimal(n: nat) -> Seq<char>
    decreases n,
{
    if n < 10 {
        seq!["0123456789"@[n as int]]
    } else {
        decimal(n / 10).push("0123456789"@[(n % 10) as int])
    }
}

/// The width of the task column for a cached width.
pub open spec fn col_width(w: nat) -> nat {
    if w < MIN_WIDTH {
        MIN_WIDTH as nat
    } else {
        w
    }
}

/// `a - b`, or 0 where `b` is larger.
pub open spec fn minus(a: nat, b: nat) -> nat {
    if a > b {
        (a - b) as nat
    } else {
        0
    }
}

/// The shade of the cells of a row.
pub open spec fn shade_of(selected: bool, mode: Mode) -> Shade {
    match (selected, mode) {
        (true, Mode::Insert) => Shade::CursorOnInsert,
        (true, Mode::Normal) => Shade::Cursor,
        (false, Mode::Insert) => Shade::BoldOnInsert,
        (false, Mode::Normal) => Shade::Bold,
    }
}

pub open spec fn top_line(cw: nat) -> Seq<PieceModel> {
    seq![("┏━━━━━┳━"@ + repeat('━', cw) + "━┳━━━━━━━━━━━┓ "@, Shade::Plain)]
}

pub open spec fn header_line(cw: nat) -> Seq<PieceModel> {
    seq![("┃ IDs ┃ Tasks"@ + repeat(' ', minus(cw, 5)) + " ┃ Status    ┃ "@, Shade::Plain)]
}

pub open spec fn rule_line(cw: nat) -> Seq<PieceModel> {
    seq![("┣━━━━━╋━"@ + repeat('━', cw) + "━╋━━━━━━━━━━━┫ "@, Shade::Plain)]
}

pub open spec fn bottom_line(cw: nat) -> Seq<PieceModel> {
    seq![("┗━━━━━┻━"@ + repeat('━', cw) + "━┻━━━━━━━━━━━┛ "@, Shade::Plain)]
}

/// The ID cell: the index right-aligned in two places.
pub open spec fn id_cell(i: nat) -> Seq<char> {
    seq![' '] + repeat(' ', minus(2, decimal(i).len())) + decimal(i) + "  "@
}

/// The task cell: the text padded to the column width.
pub open spec fn task_cell(t: TaskModel, cw: nat) -> Seq<char> {
    seq![' '] + t.0 + repeat(' ', minus(cw, text_len(t))) + seq![' ']
}

/// The status cell: the label padded to nine places.
pub open spec fn status_cell(s: Status) -> Seq<char> {
    seq![' '] + label_of(s) + repeat(' ', minus(9, label_of(s).len())) + seq![' ']
}

/// The line of the task at index `i`.
pub open spec fn row_line(i: nat, t: TaskModel, cw: nat, shade: Shade) -> Seq<PieceModel> {
    seq![
        ("┃"@, Shade::Plain),
        (id_cell(i), shade),
        ("┃"@, Shade::Plain),
        (task_cell(t, cw), shade),
        ("┃"@, Shade::Plain),
        (status_cell(t.1), shade),
        ("┃ "@, Shade::Plain),
    ]
}

/// The lines of the tasks, the selected one shaded as such.
pub open spec fn row_lines(ts: Seq<TaskModel>, cw: nat, mode: Mode, cur: Option<usize>) -> Seq<
    Seq<PieceModel>,
> {
    Seq::new(
        ts.len(),
        |i: int| row_line(i as nat, ts[i], cw, shade_of(cur == Some(i as usize), mode)),
    )
}

/// The whole table for some tasks, a cached width and drawing options.
pub open spec fn table_of(ts: Seq<TaskModel>, w: nat, mode: Mode, cur: Option<usize>) -> Seq<
    Seq<PieceModel>,
> {
    let cw = col_width(w);
    seq![top_line(cw), header_line(cw), rule_line(cw)] + row_lines(ts, cw, mode, cur) + seq![
        bottom_line(cw),
    ]
}

/// Relies on the `Display` of `usize`: it writes the decimal digits of the
/// number, with no sign, padding or leading zeros.
#[verifier::external_body]
fn decimal_string(n: usize) -> (r: String)
    ensures
        r@ == decimal(n as nat),
{
    n.to_string()
}

proof fn lemma_decimal_len(n: nat)
    ensures
        decimal(n).len() >= 1,
        decimal(n).len() == 1 <==> n < 10,
    decreases n,
{
    if n >= 10 {
        lemma_decimal_len(n / 10);
    }
}

/// `n` copies of a one-character text.
fn repeat_str(c: &str, n: usize) -> (r: String)
    requires
        c@.len() == 1,
    ensures
        r@ == repeat(c@[0], n as nat),
{
    let mut s = String::new();
    let mut i: usize = 0;
    while i < n
        invariant
            i <= n,
            c@.len() == 1,
            s@ == repeat(c@[0], i as nat),
        decreases n - i,
    {
        s.append(c);
        i = i + 1;
        assert(s@ =~= repeat(c@[0], i as nat));
    }
    s
}

fn plain_line(text: String) -> (r: Vec<Piece>)
    ensures
        r@.map_values(|p: Piece| p@) == seq![(text@, Shade::Plain)],
{
    let mut v: Vec<Piece> = Vec::new();
    v.push(Piece { text, shade: Shade::Plain });
    assert(v@.map_values(|p: Piece| p@) =~= seq![(text@, Shade::Plain)]);
    v
}

fn border(left: &str, cw: usize, right: &str) -> (r: String)
    requires
        cw >= 1,
    ensures
        r@ == left@ + repeat('━', cw as nat) + right@,
{
    proof {
        reveal_strlit("━");
    }
    let mut s = String::from_str(left);
    let fill = repeat_str("━", cw);
    s.append(fill.as_str());
    s.append(right);
    s
}

fn status_text(s: Status) -> (r: String)
    ensures
        r@ == status_cell(s),
{
    let label = s.get_string();
    let pad: usize = match s {
        Status::Completed => 0,
        Status::Pending => 2,
        Status::OnHold => 3,
        Status::Create => 3,
        Status::Invalid => 2,
    };
    proof {
        reveal_strlit("Completed");
        reveal_strlit("Pending");
        reveal_strlit("OnHold");
        reveal_strlit("Create");
        reveal_strlit("Invalid");
        reveal_strlit(" ");
    }
    let mut r = String::from_str(" ");
    r.append(label);
    let spaces = repeat_str(" ", pad);
    r.append(spaces.as_str());
    r.append(" ");
    assert(r@ =~= status_cell(s));
    r
}

fn id_text(i: usize) -> (r: String)
    ensures
        r@ == id_cell(i as nat),
{
    proof {
        reveal_strlit(" ");
        reveal_strlit("  ");
        lemma_decimal_len(i as nat);
    }
    let digits = decimal_string(i);
    let mut r = String::from_str(" ");
    if i < 10 {
        r.append(" ");
    }
    r.append(digits.as_str());
    r.append("  ");
    assert(r@ =~= id_cell(i as nat));
    r
}

fn task_text(text: &String, cw: usize) -> (r: String)
    ensures
        r@ == task_cell((text@, Status::Invalid), cw as nat),
{
    proof {
        reveal_strlit(" ");
    }
    let l = text.as_str().as_bytes().len();
    let pad = if l < cw {
        cw - l
    } else {
        0
    };
    let mut r = String::from_str(" ");
    r.append(text.as_str());
    let spaces = repeat_str(" ", pad);
    r.append(spaces.as_str());
    r.append(" ");
    assert(r@ =~= task_cell((text@, Status::Invalid), cw as nat));
    r
}

fn shade_for(selected: bool, mode: Mode) -> (r: Shade)
    ensures
        r == shade_of(selected, mode),
{
    match (selected, mode) {
        (true, Mode::Insert) => Shade::CursorOnInsert,
        (true, Mode::Normal) => Shade::Cursor,
        (false, Mode::Insert) => Shade::BoldOnInsert,
        (false, Mode::Normal) => Shade::Bold,
    }
}

fn row(i: usize, t: &Task, cw: usize, shade: Shade) -> (r: Vec<Piece>)
    ensures
        r@.map_values(|p: Piece| p@) == row_line(i as nat, t@, cw as nat, shade),
{
    proof {
        reveal_strlit("┃");
        reveal_strlit("┃ ");
    }
    let mut v: Vec<Piece> = Vec::new();
    v.push(Piece { text: String::from_str("┃"), shade: Shade::Plain });
    v.push(Piece { text: id_text(i), shade });
    v.push(Piece { text: String::from_str("┃"), shade: Shade::Plain });
    v.push(Piece { text: task_text(&t.task, cw), shade });
    v.push(Piece { text: String::from_str("┃"), shade: Shade::Plain });
    v.push(Piece { text: status_text(t.status), shade });
    v.push(Piece { text: String::from_str("┃ "), shade: Shade::Plain });
    assert(v@.map_values(|p: Piece| p@) =~= row_line(i as nat, t@, cw as nat, shade));
    v
}

impl Todo {
    /// Draws the tasks as a table sized to the cached width, the row at
    /// `options.cur` shaded as selected in `options.mode`. Fails with
    /// `EmptyError`, drawing nothing, when there is no task or the cached
    /// width is zero.
    pub fn list(&self, options: &ListOptions) -> (r: Result<Vec<Vec<Piece>>, TodoError>)
        ensures
            r.is_err() <==> self.tasks@.len() == 0 || self.tasks_cell_width == 0,
            r.is_err() ==> r == Err::<Vec<Vec<Piece>>, TodoError>(TodoError::EmptyError),
            r.is_ok() ==> frame_model(r.unwrap()@) == table_of(
                self.model(),
                self.tasks_cell_width as nat,
                options.mode,
                options.cur,
            ),
    {
        if self.tasks_cell_width == 0 || self.tasks.len() == 0 {
            return Err(TodoError::EmptyError);
        }
        let w = self.tasks_cell_width;
        let cw: usize = if w < MIN_WIDTH {
            MIN_WIDTH
        } else {
            w
        };
        let ghost ts = self.model();
        let ghost rows = row_lines(ts, cw as nat, options.mode, options.cur);
        let ghost head = seq![top_line(cw as nat), header_line(cw as nat), rule_line(cw as nat)];
        proof {
            reveal_strlit(" ");
        }
        let mut frame: Vec<Vec<Piece>> = Vec::new();
        frame.push(plain_line(border("┏━━━━━┳━", cw, "━┳━━━━━━━━━━━┓ ")));
        let mut header = String::from_str("┃ IDs ┃ Tasks");
        let spaces = repeat_str(" ", cw - 5);
        header.append(spaces.as_str());
        header.append(" ┃ Status    ┃ ");
        frame.push(plain_line(header));
        frame.push(plain_line(border("┣━━━━━╋━", cw, "━╋━━━━━━━━━━━┫ ")));
        assert(frame_model(frame@) =~= head);
        let n = self.tasks.len();
        let mut i: usize = 0;
        while i < n
            invariant
                n == self.tasks@.len(),
                ts == self.model(),
                i <= n,
                rows == row_lines(ts, cw as nat, options.mode, options.cur),
                frame_model(frame@) == head + rows.subrange(0, i as int),
            decreases n - i,
        {
            let selected = match options.cur {
                Some(c) => c == i,
                None => false,
            };
            let line = row(i, &self.tasks[i], cw, shade_for(selected, options.mode));
            let ghost before = frame@;
            frame.push(line);
            proof {
                assert(ts[i as int] == self.tasks@[i as int]@);
                assert(frame_model(frame@) =~= head + rows.subrange(0, i + 1)) by {
                    assert(frame_model(frame@) =~= frame_model(before).push(
                        line@.map_values(|p: Piece| p@),
                    ));
                }
            }
            i = i + 1;
        }
        frame.push(plain_line(border("┗━━━━━┻━", cw, "━┻━━━━━━━━━━━┛ ")));
        proof {
            assert(rows.subrange(0, n as int) =~= rows);
            assert(frame_model(frame@) =~= table_of(ts, w as nat, options.mode, options.cur));
        }
        Ok(frame)
    }
}

} // verus!
