//! What the terminal front end shows: prompt style, progress lines, tables
//! and the line history.
use vstd::prelude::*;
use crate::config::Config;
use crate::parser::trim;
use crate::text::{byte_len, chars_of, push_char, string_of, utf8_len};

verus! {

/// Colours the prompt can take.
#[derive(Debug, Clone, Copy, PartialEq, Eq, Structural)]
pub enum PromptColor {
    Green,
    Blue,
    Red,
    Yellow,
    Cyan,
    Magenta,
    White,
}

/// The colour named `name`; an unknown name gives green.
pub open spec fn color_named(name: Seq<char>) -> PromptColor {
    if name == "blue"@ {
        PromptColor::Blue
    } else if name == "red"@ {
        PromptColor::Red
    } else if name == "yellow"@ {
        PromptColor::Yellow
    } else if name == "cyan"@ {
        PromptColor::Cyan
    } else if name == "magenta"@ {
        PromptColor::Magenta
    } else if name == "white"@ {
        PromptColor::White
    } else {
        PromptColor::Green
    }
}

/// The text of the prompt.
pub const PROMPT: &'static str = "shell-t> ";

/// Terminal front end: decides how things are shown.
pub struct UiManager {
    config: Config,
}

fn same_text(a: &String, b: &str) -> (r: bool)
    ensures
        r == (a@ == b@),
{
    *a == b.to_owned()
}

impl UiManager {
    pub closed spec fn cfg(&self) -> Config {
        self.config
    }

    /// A front end that follows `config`.
    pub fn new(config: Config) -> (r: UiManager)
        ensures
            r.cfg() == config,
    {
        UiManager { config }
    }

    /// The colour of the prompt, or `None` for a plain prompt when colours
    /// are off.
    pub fn prompt_style(&self) -> (r: Option<PromptColor>)
        ensures
            r == (if self.cfg().ui.enable_colors {
                Some(color_named(self.cfg().ui.prompt_color@))
            } else {
                None
            }),
    {
        if !self.config.ui.enable_colors {
            return None;
        }
        let name = &self.config.ui.prompt_color;
        let c = if same_text(name, "blue") {
            PromptColor::Blue
        } else if same_text(name, "red") {
            PromptColor::Red
        } else if same_text(name, "yellow") {
            PromptColor::Yellow
        } else if same_text(name, "cyan") {
            PromptColor::Cyan
        } else if same_text(name, "magenta") {
            PromptColor::Magenta
        } else if same_text(name, "white") {
            PromptColor::White
        } else {
            PromptColor::Green
        };
        Some(c)
    }

    /// Whether messages carry colours.
    pub fn colors_enabled(&self) -> (r: bool)
        ensures
            r == self.cfg().ui.enable_colors,
    {
        self.config.ui.enable_colors
    }

    /// Whether messages carry a time stamp.
    pub fn timestamps_enabled(&self) -> (r: bool)
        ensures
            r == self.cfg().ui.show_timestamps,
    {
        self.config.ui.show_timestamps
    }
}

/// Progress report of a long operation.
pub struct ProgressIndicator {
    message: String,
    ui: UiManager,
}

impl ProgressIndicator {
    pub closed spec fn message(&self) -> Seq<char> {
        self.message@
    }

    /// A report on the operation `message`, shown through `ui`.
    pub fn new(message: String, ui: UiManager) -> (r: ProgressIndicator)
        ensures
            r.message() == message@,
    {
        ProgressIndicator { message, ui }
    }

    /// The line shown when the operation starts.
    pub fn start(&self) -> (r: String)
        ensures
            r@ == "Starting: "@ + self.message(),
    {
        let mut r = "Starting: ".to_owned();
        r.append(self.message.as_str());
        r
    }

    /// The front end the report is shown through.
    pub fn ui(&self) -> &UiManager {
        &self.ui
    }

    /// The operation's name.
    pub fn label(&self) -> (r: &str)
        ensures
            r@ == self.message(),
    {
        self.message.as_str()
    }
}

/// `s` padded with spaces on the right to `w` characters.
pub open spec fn padded(s: Seq<char>, w: nat) -> Seq<char> {
    if s.len() < w {
        s + Seq::new((w - s.len()) as nat, |i: int| ' ')
    } else {
        s
    }
}

/// `parts` with `sep` between each two.
pub open spec fn joined_with(parts: Seq<Seq<char>>, sep: Seq<char>) -> Seq<char>
    decreases parts.len(),
{
    if parts.len() == 0 {
        Seq::empty()
    } else if parts.len() == 1 {
        parts[0]
    } else {
        joined_with(parts.drop_last(), sep) + sep + parts.last()
    }
}

/// The width of column `i`, starting from `w0`, widened by the cells of
/// `rows` that reach that column.
pub open spec fn width_over(rows: Seq<Seq<Seq<char>>>, i: int, w0: usize) -> usize
    decreases rows.len(),
{
    if rows.len() == 0 {
        w0
    } else {
        let w = width_over(rows.drop_last(), i, w0);
        if i < rows.last().len() && utf8_len(rows.last()[i]) > w {
            utf8_len(rows.last()[i])
        } else {
            w
        }
    }
}

/// The width of column `i`: the longest of its header and cells, in bytes.
pub open spec fn column_width(headers: Seq<Seq<char>>, rows: Seq<Seq<Seq<char>>>, i: int) -> usize {
    width_over(rows, i, utf8_len(headers[i]))
}

pub open spec fn column_widths(headers: Seq<Seq<char>>, rows: Seq<Seq<Seq<char>>>) -> Seq<usize> {
    Seq::new(headers.len(), |i: int| column_width(headers, rows, i))
}

/// One line of cells, each padded to its column's width (10 past the last
/// column), separated by ` | `.
pub open spec fn cells_line(cells: Seq<Seq<char>>, widths: Seq<usize>) -> Seq<char> {
    joined_with(
        Seq::new(
            cells.len(),
            |i: int| padded(cells[i], if i < widths.len() { widths[i] as nat } else { 10 }),
        ),
        " | "@,
    )
}

/// The rule under the header: dashes as wide as each column, joined by `-+-`.
pub open spec fn rule_line(widths: Seq<usize>) -> Seq<char> {
    joined_with(Seq::new(widths.len(), |i: int| Seq::new(widths[i] as nat, |k: int| '-')), "-+-"@)
}

/// The lines of a table: nothing when it has neither header nor row; else
/// the header and its rule (when there is a header), then one line per row.
pub open spec fn table_lines(headers: Seq<Seq<char>>, rows: Seq<Seq<Seq<char>>>) -> Seq<Seq<char>> {
    let widths = column_widths(headers, rows);
    let body = Seq::new(rows.len(), |r: int| cells_line(rows[r], widths));
    if headers.len() == 0 && rows.len() == 0 {
        Seq::empty()
    } else if headers.len() == 0 {
        body
    } else {
        seq![cells_line(headers, widths), rule_line(widths)] + body
    }
}

pub open spec fn rows_view(rows: Seq<Vec<String>>) -> Seq<Seq<Seq<char>>> {
    rows.map_values(|r: Vec<String>| r.deep_view())
}

/// `s` padded with spaces on the right to `w` characters.
fn pad(s: &str, w: usize) -> (r: String)
    ensures
        r@ == padded(s@, w as nat),
{
    let mut r = s.to_owned();
    let n = s.unicode_len();
    if n < w {
        let mut k: usize = n;
        while k < w
            invariant
                n <= k <= w,
                n == s@.len(),
                r@ == s@ + Seq::new((k - n) as nat, |i: int| ' '),
            decreases w - k,
        {
            push_char(&mut r, ' ');
            k += 1;
            assert(r@ =~= s@ + Seq::new((k - n) as nat, |i: int| ' '));
        }
    } else {
        assert(s@ =~= padded(s@, w as nat));
    }
    r
}

/// `parts` with `sep` between each two.
fn join_parts(parts: &Vec<String>, sep: &str) -> (r: String)
    ensures
        r@ == joined_with(parts.deep_view(), sep@),
{
    let mut r = String::new();
    let mut i: usize = 0;
    while i < parts.len()
        invariant
            i <= parts@.len(),
            r@ == joined_with(parts.deep_view().take(i as int), sep@),
        decreases parts@.len() - i,
    {
        let ghost before = parts.deep_view().take(i as int);
        assert(parts.deep_view().take(i + 1).drop_last() =~= before);
        if i > 0 {
            r.append(sep);
        } else {
            assert(before =~= Seq::<Seq<char>>::empty());
        }
        r.append(parts[i].as_str());
        i += 1;
    }
    assert(parts.deep_view().take(parts@.len() as int) =~= parts.deep_view());
    r
}

/// A table of text, laid out in aligned columns.
pub struct TableFormatter {
    headers: Vec<String>,
    rows: Vec<Vec<String>>,
    ui: UiManager,
}

impl TableFormatter {
    pub closed spec fn header_texts(&self) -> Seq<Seq<char>> {
        self.headers.deep_view()
    }

    pub closed spec fn row_texts(&self) -> Seq<Seq<Seq<char>>> {
        rows_view(self.rows@)
    }

    /// A table with these column headers and no row yet.
    pub fn new(headers: Vec<String>, ui: UiManager) -> (r: TableFormatter)
        ensures
            r.header_texts() == headers.deep_view(),
            r.row_texts() == Seq::<Seq<Seq<char>>>::empty(),
    {
        let r = TableFormatter { headers, rows: Vec::new(), ui };
        assert(r.row_texts() =~= Seq::<Seq<Seq<char>>>::empty());
        r
    }

    /// Adds a row at the bottom.
    pub fn add_row(&mut self, row: Vec<String>)
        ensures
            final(self).header_texts() == old(self).header_texts(),
            final(self).row_texts() == old(self).row_texts().push(row.deep_view()),
    {
        let ghost before = self.row_texts();
        self.rows.push(row);
        assert(self.row_texts() =~= before.push(row.deep_view()));
    }

    /// The front end the table is shown through.
    pub fn ui(&self) -> &UiManager {
        &self.ui
    }

    /// Width of each header's column.
    fn widths(&self) -> (r: Vec<usize>)
        ensures
            r@ == column_widths(self.header_texts(), self.row_texts()),
    {
        let ghost hs = self.header_texts();
        let ghost rs = self.row_texts();
        let mut w: Vec<usize> = Vec::new();
        let mut i: usize = 0;
        while i < self.headers.len()
            invariant
                i <= self.headers@.len(),
                hs == self.header_texts(),
                w@.len() == i,
                forall|k: int| 0 <= k < i ==> w@[k] == width_over(rs.take(0), k, utf8_len(#[trigger] hs[k])),
            decreases self.headers@.len() - i,
        {
            w.push(byte_len(&self.headers[i]));
            i += 1;
        }
        let mut r: usize = 0;
        while r < self.rows.len()
            invariant
                r <= self.rows@.len(),
                hs == self.header_texts(),
                rs == self.row_texts(),
                rs.len() == self.rows@.len(),
                w@.len() == hs.len(),
                forall|k: int| 0 <= k < w@.len() ==> w@[k] == width_over(rs.take(r as int), k, utf8_len(#[trigger] hs[k])),
            decreases self.rows@.len() - r,
        {
            let row = &self.rows[r];
            assert(rs[r as int] == row.deep_view());
            assert(rs.take(r + 1).drop_last() =~= rs.take(r as int));
            let ghost w0 = w@;
            let mut c: usize = 0;
            while c < w.len()
                invariant
                    c <= w@.len(),
                    w@.len() == w0.len(),
                    w0.len() == hs.len(),
                    r < rs.len(),
                    rs[r as int] == row.deep_view(),
                    rs.take(r + 1).drop_last() == rs.take(r as int),
                    rs.take(r + 1).last() == rs[r as int],
                    forall|k: int| 0 <= k < w0.len() ==> w0[k] == width_over(rs.take(r as int), k, utf8_len(#[trigger] hs[k])),
                    forall|k: int| c <= k < w@.len() ==> #[trigger] w@[k] == w0[k],
                    forall|k: int| 0 <= k < c ==> #[trigger] w@[k] == width_over(rs.take(r + 1), k, utf8_len(hs[k])),
                decreases w@.len() - c,
            {
                let ghost h = utf8_len(hs[c as int]);
                assert(width_over(rs.take(r + 1), c as int, h) == (if (c as int) < rs[r as int].len()
                    && utf8_len(rs[r as int][c as int]) > w0[c as int] {
                    utf8_len(rs[r as int][c as int])
                } else {
                    w0[c as int]
                }));
                if c < row.len() {
                    let b = byte_len(&row[c]);
                    assert(row.deep_view()[c as int] == row@[c as int]@);
                    if b > w[c] {
                        w.set(c, b);
                    }
                }
                c += 1;
            }
            r += 1;
        }
        assert(rs.take(rs.len() as int) =~= rs);
        assert(w@ =~= column_widths(hs, rs));
        w
    }

    /// One line of `cells` laid out on `widths`.
    fn line_of(cells: &Vec<String>, widths: &Vec<usize>) -> (r: String)
        ensures
            r@ == cells_line(cells.deep_view(), widths@),
    {
        let mut parts: Vec<String> = Vec::new();
        let mut i: usize = 0;
        while i < cells.len()
            invariant
                i <= cells@.len(),
                parts@.len() == i,
                forall|k: int| 0 <= k < i ==> #[trigger] parts@[k]@ == padded(cells@[k]@, if k < widths@.len() { widths@[k] as nat } else { 10 }),
            decreases cells@.len() - i,
        {
            let w = if i < widths.len() { widths[i] } else { 10 };
            parts.push(pad(cells[i].as_str(), w));
            i += 1;
        }
        let r = join_parts(&parts, " | ");
        assert(parts.deep_view() =~= Seq::new(
            cells.deep_view().len(),
            |k: int| padded(cells.deep_view()[k], if k < widths@.len() { widths@[k] as nat } else { 10 }),
        ));
        r
    }

    /// The lines that show the table (see [`table_lines`]).
    pub fn render(&self) -> (r: Vec<String>)
        ensures
            r.deep_view() == table_lines(self.header_texts(), self.row_texts()),
    {
        let mut out: Vec<String> = Vec::new();
        if self.headers.len() == 0 && self.rows.len() == 0 {
            assert(out.deep_view() =~= Seq::<Seq<char>>::empty());
            return out;
        }
        let widths = self.widths();
        let ghost ws = widths@;
        let ghost start: Seq<Seq<char>> = Seq::empty();
        if self.headers.len() > 0 {
            out.push(TableFormatter::line_of(&self.headers, &widths));
            let mut dashes: Vec<String> = Vec::new();
            let mut i: usize = 0;
            while i < widths.len()
                invariant
                    i <= widths@.len(),
                    dashes@.len() == i,
                    forall|k: int| 0 <= k < i ==> #[trigger] dashes@[k]@ == Seq::new(widths@[k] as nat, |j: int| '-'),
                decreases widths@.len() - i,
            {
                let mut d = String::new();
                let mut k: usize = 0;
                while k < widths[i]
                    invariant
                        k <= widths@[i as int],
                        i < widths@.len(),
                        d@ == Seq::new(k as nat, |j: int| '-'),
                    decreases widths@[i as int] - k,
                {
                    push_char(&mut d, '-');
                    k += 1;
                    assert(d@ =~= Seq::new(k as nat, |j: int| '-'));
                }
                dashes.push(d);
                i += 1;
            }
            assert(dashes.deep_view() =~= Seq::new(ws.len(), |k: int| Seq::new(ws[k] as nat, |j: int| '-')));
            out.push(join_parts(&dashes, "-+-"));
            proof {
                start = seq![cells_line(self.header_texts(), ws), rule_line(ws)];
            }
            assert(out.deep_view() =~= start);
        } else {
            assert(out.deep_view() =~= start);
        }
        let mut r: usize = 0;
        while r < self.rows.len()
            invariant
                r <= self.rows@.len(),
                ws == widths@,
                ws == column_widths(self.header_texts(), self.row_texts()),
                self.row_texts().len() == self.rows@.len(),
                out.deep_view() == start + Seq::new(r as nat, |k: int| cells_line(self.row_texts()[k], ws)),
            decreases self.rows@.len() - r,
        {
            let ghost before = out.deep_view();
            assert(self.row_texts()[r as int] == self.rows@[r as int].deep_view());
            let line = TableFormatter::line_of(&self.rows[r], &widths);
            out.push(line);
            assert(out.deep_view() =~= before.push(line@));
            r += 1;
            assert(out.deep_view() =~= start + Seq::new(r as nat, |k: int| cells_line(self.row_texts()[k], ws)));
        }
        assert(out.deep_view() =~= table_lines(self.header_texts(), self.row_texts()));
        out
    }
}

/// Line history with a cursor for moving back and forth through it.
pub struct InputReader {
    history: Vec<String>,
    history_index: usize,
    ui: UiManager,
}

impl InputReader {
    pub closed spec fn lines(&self) -> Seq<Seq<char>> {
        self.history.deep_view()
    }

    pub closed spec fn cursor(&self) -> int {
        self.history_index as int
    }

    pub closed spec fn wf(&self) -> bool {
        self.history_index <= self.history@.len()
    }

    /// A reader with an empty history.
    pub fn new(ui: UiManager) -> (r: InputReader)
        ensures
            r.wf(),
            r.lines() == Seq::<Seq<char>>::empty(),
            r.cursor() == 0,
    {
        InputReader { history: Vec::new(), history_index: 0, ui }
    }

    /// The front end the reader prompts through.
    pub fn ui(&self) -> &UiManager {
        &self.ui
    }

    /// Takes a line that was read: it comes back trimmed, and joins the
    /// history (moving the cursor past its end) unless it is empty or equal
    /// to the last line of the history.
    pub fn record_line(&mut self, line: &str) -> (r: String)
        requires
            old(self).wf(),
        ensures
            final(self).wf(),
            r@ == trim(line@),
            if r@.len() > 0 && (old(self).lines().len() == 0 || old(self).lines().last() != r@) {
                &&& final(self).lines() == old(self).lines().push(r@)
                &&& final(self).cursor() == final(self).lines().len()
            } else {
                &&& final(self).lines() == old(self).lines()
                &&& final(self).cursor() == old(self).cursor()
            },
    {
        let cs = chars_of(line);
        let (a, b) = crate::parser::trim_range(&cs);
        let t = string_of(&cs, a, b);
        let n = self.history.len();
        if t.as_str().is_empty() {
            return t;
        }
        if n > 0 && self.history[n - 1] == t {
            assert(self.lines().last() == t@);
            return t;
        }
        let ghost before = self.lines();
        self.history.push(t.clone());
        assert(self.lines() =~= before.push(t@));
        self.history_index = self.history.len();
        t
    }

    /// Moves the cursor one line back and gives that line; `None` at the start.
    pub fn previous_command(&mut self) -> (r: Option<&String>)
        requires
            old(self).wf(),
        ensures
            final(self).wf(),
            final(self).lines() == old(self).lines(),
            old(self).cursor() > 0 ==> final(self).cursor() == old(self).cursor() - 1 && (r matches Some(s)
                && s@ == old(self).lines()[old(self).cursor() - 1]),
            old(self).cursor() == 0 ==> final(self).cursor() == 0 && r is None,
    {
        if self.history_index > 0 {
            self.history_index = self.history_index - 1;
            Some(&self.history[self.history_index])
        } else {
            None
        }
    }

    /// Moves the cursor one line forward and gives that line; `None` when it
    /// is on the last line or past it.
    pub fn next_command(&mut self) -> (r: Option<&String>)
        requires
            old(self).wf(),
        ensures
            final(self).wf(),
            final(self).lines() == old(self).lines(),
            old(self).cursor() + 1 < old(self).lines().len() ==> final(self).cursor() == old(self).cursor()
                + 1 && (r matches Some(s) && s@ == old(self).lines()[old(self).cursor() + 1]),
            old(self).cursor() + 1 >= old(self).lines().len() ==> final(self).cursor() == old(self).cursor()
                && r is None,
    {
        if self.history_index < self.history.len() && self.history_index + 1 < self.history.len() {
            self.history_index = self.history_index + 1;
            Some(&self.history[self.history_index])
        } else {
            None
        }
    }

    /// The lines of the history, oldest first.
    pub fn history(&self) -> (r: &Vec<String>)
        ensures
            r.deep_view() == self.lines(),
    {
        &self.history
    }
}

} // verus!
