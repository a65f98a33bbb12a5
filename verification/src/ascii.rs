//! Text for a terminal: one line of coloured words, and a tree drawn with
//! box characters.

use crate::text::texts;
use vstd::prelude::*;
use vstd::string::*;

verus! {

/// Builds one line of words, separated by blanks.
pub struct Printer {
    color: bool,
    buf: String,
}

/// What a printer holds: whether it colours, and the line so far.
pub struct PrinterView {
    pub color: bool,
    pub buf: Seq<char>,
}

/// Makes printers that colour their words, or that do not.
#[derive(Clone, Copy)]
pub struct PrinterFactory(pub bool);

/// A node of a tree: a heading, and the nodes below it.
pub struct TreeNode {
    pub head: String,
    pub children: Vec<TreeNode>,
}

/// How a word is painted.
#[derive(Clone, Copy, Debug, PartialEq, Eq, Structural)]
pub enum Paint {
    Plain,
    Red,
    Blue,
    Green,
}

/// The escape sequence that switches a paint on, in bold.
pub open spec fn paint_on(paint: Paint) -> Seq<char> {
    match paint {
        Paint::Plain => Seq::empty(),
        Paint::Red => "\x1b[31m\x1b[1m"@,
        Paint::Blue => "\x1b[34m\x1b[1m"@,
        Paint::Green => "\x1b[32m\x1b[1m"@,
    }
}

/// `text` as a printer writes it: between the escape sequences of the
/// paint where the printer colours, bare where it does not.
pub open spec fn painted(text: Seq<char>, paint: Paint, color: bool) -> Seq<char> {
    if color && paint != Paint::Plain {
        paint_on(paint) + text + "\x1b[0m\x1b[22m"@
    } else {
        text
    }
}

impl PrinterView {
    /// The line with one more word: behind a blank, unless it is the first.
    pub open spec fn with(self, text: Seq<char>, paint: Paint) -> PrinterView {
        PrinterView {
            color: self.color,
            buf: self.buf + (if self.buf.len() > 0 {
                seq![' ']
            } else {
                Seq::empty()
            }) + painted(text, paint, self.color),
        }
    }
}

impl View for Printer {
    type V = PrinterView;

    closed spec fn view(&self) -> PrinterView {
        PrinterView { color: self.color, buf: self.buf@ }
    }
}

impl PrinterFactory {
    /// A printer with an empty line.
    pub fn new(&self) -> (p: Printer)
        ensures
            p@ == (PrinterView { color: self.0, buf: Seq::empty() }),
    {
        Printer { color: self.0, buf: String::new() }
    }
}

impl Printer {
    /// A factory of printers that colour their words.
    pub fn color_factory() -> (f: PrinterFactory)
        ensures
            f.0,
    {
        PrinterFactory(true)
    }

    /// A factory of printers that do not.
    pub fn plain_factory() -> (f: PrinterFactory)
        ensures
            !f.0,
    {
        PrinterFactory(false)
    }

    fn write(self, text: &str, paint: Paint) -> (r: Printer)
        ensures
            r@ == self@.with(text@, paint),
    {
        let mut p = self;
        proof {
            reveal_strlit(" ");
        }
        if !p.buf.as_str().is_empty() {
            p.buf.append(" ");
        }
        let ghost start = p.buf@;
        if p.color {
            match paint {
                Paint::Plain => {},
                Paint::Red => p.buf.append("\x1b[31m\x1b[1m"),
                Paint::Blue => p.buf.append("\x1b[34m\x1b[1m"),
                Paint::Green => p.buf.append("\x1b[32m\x1b[1m"),
            }
        }
        p.buf.append(text);
        if p.color {
            match paint {
                Paint::Plain => {},
                _ => p.buf.append("\x1b[0m\x1b[22m"),
            }
        }
        assert(p.buf@ =~= start + painted(text@, paint, p.color));
        assert(p@.buf =~= self@.with(text@, paint).buf);
        p
    }

    /// Adds `val` as it displays.
    pub fn norm<T: core::fmt::Display>(self, val: T) -> (r: Printer)
        ensures
            exists|text: String|
                to_string_from_display_ensures::<T>(&val, text) && r@ == self@.with(
                    text@,
                    Paint::Plain,
                ),
    {
        let text = val.to_string();
        self.write(text.as_str(), Paint::Plain)
    }

    /// Adds `val` in bold red, where the printer colours.
    pub fn red<T: core::fmt::Display>(self, val: T) -> (r: Printer)
        ensures
            exists|text: String|
                to_string_from_display_ensures::<T>(&val, text) && r@ == self@.with(
                    text@,
                    Paint::Red,
                ),
    {
        let text = val.to_string();
        self.write(text.as_str(), Paint::Red)
    }

    /// Adds `val` in bold blue, where the printer colours.
    pub fn blue<T: core::fmt::Display>(self, val: T) -> (r: Printer)
        ensures
            exists|text: String|
                to_string_from_display_ensures::<T>(&val, text) && r@ == self@.with(
                    text@,
                    Paint::Blue,
                ),
    {
        let text = val.to_string();
        self.write(text.as_str(), Paint::Blue)
    }

    /// Adds `val` in bold green, where the printer colours.
    pub fn green<T: core::fmt::Display>(self, val: T) -> (r: Printer)
        ensures
            exists|text: String|
                to_string_from_display_ensures::<T>(&val, text) && r@ == self@.with(
                    text@,
                    Paint::Green,
                ),
    {
        let text = val.to_string();
        self.write(text.as_str(), Paint::Green)
    }

    /// Hands the printer to `fun` and gives back what `fun` makes of it.
    pub fn map<F>(self, fun: F) -> (r: Printer) where F: FnOnce(Printer) -> Printer
        requires
            call_requires(fun, (self,)),
        ensures
            call_ensures(fun, (self,), r),
    {
        fun(self)
    }

    /// The line.
    pub fn unwrap(self) -> (s: String)
        ensures
            s@ == self@.buf,
    {
        self.buf
    }
}

/// The lines of the first `n` nodes of `children` and of all that is below
/// them. Each node is drawn behind `indent` with a branch, the last of
/// `children` with a corner; what is below a node is indented by four more
/// columns, with a bar in the first of them unless the node is the last.
pub open spec fn children_text(children: Seq<TreeNode>, indent: Seq<char>, n: int) -> Seq<char>
    decreases children, n,
{
    if n <= 0 || n > children.len() {
        Seq::empty()
    } else {
        let child = children[n - 1];
        let last = n == children.len();
        children_text(children, indent, n - 1) + indent + (if last {
            "└─"@
        } else {
            "├─"@
        }) + child.head@ + seq!['\n'] + children_text(
            child.children@,
            indent + (if last {
                "    "@
            } else {
                "│   "@
            }),
            child.children.len() as int,
        )
    }
}

impl TreeNode {
    /// The heading on a line of its own, and the tree below it.
    pub open spec fn text(&self) -> Seq<char> {
        self.head@ + seq!['\n'] + children_text(
            self.children@,
            "  "@,
            self.children.len() as int,
        )
    }

    /// Writes the tree behind what `writer` holds.
    pub fn print(&self, writer: &mut String)
        ensures
            final(writer)@ == old(writer)@ + self.text(),
    {
        proof {
            reveal_strlit("\n");
        }
        writer.append(self.head.as_str());
        writer.append("\n");
        self._print_children(writer, "  ");
        assert(writer@ =~= old(writer)@ + self.text());
    }

    /// Writes what is below the node, behind `indent`.
    pub fn _print_children(&self, writer: &mut String, indent: &str)
        ensures
            final(writer)@ == old(writer)@ + children_text(
                self.children@,
                indent@,
                self.children.len() as int,
            ),
        decreases self,
    {
        let n: usize = self.children.len();
        let mut i: usize = 0;
        proof {
            reveal_strlit("\n");
            assert(old(writer)@ + children_text(self.children@, indent@, 0) =~= old(writer)@);
        }
        while i < n
            invariant
                i <= n == self.children.len(),
                "\n"@ == seq!['\n'],
                writer@ == old(writer)@ + children_text(self.children@, indent@, i as int),
            decreases n - i,
        {
            let child = &self.children[i];
            let last = i + 1 == n;
            let mut below = String::from_str(indent);
            writer.append(indent);
            if last {
                writer.append("└─");
                below.append("    ");
            } else {
                writer.append("├─");
                below.append("│   ");
            }
            writer.append(child.head.as_str());
            writer.append("\n");
            child._print_children(writer, below.as_str());
            proof {
                assert(writer@ =~= old(writer)@ + children_text(
                    self.children@,
                    indent@,
                    i + 1,
                ));
            }
            i += 1;
        }
    }
}

/// `n` blanks.
pub open spec fn blanks(n: int) -> Seq<char> {
    Seq::new(
        if n > 0 {
            n as nat
        } else {
            0
        },
        |i: int| ' ',
    )
}

/// `text` with blanks behind it up to `width` characters.
pub open spec fn padded_right(text: Seq<char>, width: int) -> Seq<char> {
    text + blanks(width - text.len())
}

/// `text` with blanks before it up to `width` characters.
pub open spec fn padded_left(text: Seq<char>, width: int) -> Seq<char> {
    blanks(width - text.len()) + text
}

fn spaces(n: usize) -> (r: String)
    ensures
        r@ == blanks(n as int),
{
    proof {
        reveal_strlit(" ");
    }
    let mut r = String::new();
    let mut i: usize = 0;
    assert(r@ =~= blanks(0));
    while i < n
        invariant
            i <= n,
            " "@ == seq![' '],
            r@ == blanks(i as int),
        decreases n - i,
    {
        r.append(" ");
        assert(r@ =~= blanks(i + 1));
        i += 1;
    }
    r
}

/// `text` with blanks behind it up to `width` characters.
pub fn pad_right(text: &str, width: usize) -> (r: String)
    ensures
        r@ == padded_right(text@, width as int),
{
    let len = text.unicode_len();
    let mut r = String::from_str(text);
    if len < width {
        let fill = spaces(width - len);
        r.append(fill.as_str());
    } else {
        assert(blanks(width - len) =~= Seq::empty());
    }
    assert(r@ =~= padded_right(text@, width as int));
    r
}

/// `text` with blanks before it up to `width` characters.
pub fn pad_left(text: &str, width: usize) -> (r: String)
    ensures
        r@ == padded_left(text@, width as int),
{
    let len = text.unicode_len();
    let mut r = if len < width {
        spaces(width - len)
    } else {
        assert(blanks(width - len) =~= Seq::empty());
        String::new()
    };
    r.append(text);
    assert(r@ =~= padded_left(text@, width as int));
    r
}

/// The longest of the first `n` texts, and `least` at least.
pub open spec fn widest(items: Seq<Seq<char>>, least: int, n: int) -> int
    decreases n,
{
    if n <= 0 {
        least
    } else {
        let w = widest(items, least, n - 1);
        if items[n - 1].len() > w {
            items[n - 1].len() as int
        } else {
            w
        }
    }
}

/// The width of a column: that of its widest cell, and three at least.
pub fn column_width(items: &Vec<String>) -> (w: usize)
    ensures
        w == widest(texts(items@), 3, items.len() as int),
{
    let mut w: usize = 3;
    let mut i: usize = 0;
    while i < items.len()
        invariant
            i <= items.len(),
            w == widest(texts(items@), 3, i as int),
        decreases items.len() - i,
    {
        let len = items[i].as_str().unicode_len();
        assert(texts(items@)[i as int] == items[i as int]@);
        if len > w {
            w = len;
        }
        i += 1;
    }
    w
}

/// A column of texts: the title, then the cells, all as wide as the
/// column, with the blanks behind.
pub fn text_column(title: &str, items: &Vec<String>) -> (r: Vec<String>)
    ensures
        r.len() == items.len() + 1,
        r[0]@ == padded_right(title@, widest(texts(items@), 3, items.len() as int)),
        forall|i: int|
            0 <= i < items.len() ==> (#[trigger] r[i + 1])@ == padded_right(
                items[i]@,
                widest(texts(items@), 3, items.len() as int),
            ),
{
    let w = column_width(items);
    let mut r: Vec<String> = Vec::new();
    r.push(pad_right(title, w));
    let mut i: usize = 0;
    while i < items.len()
        invariant
            i <= items.len(),
            r.len() == i + 1,
            r[0]@ == padded_right(title@, w as int),
            forall|k: int|
                0 <= k < i ==> (#[trigger] r[k + 1])@ == padded_right(items[k]@, w as int),
        decreases items.len() - i,
    {
        r.push(pad_right(items[i].as_str(), w));
        i += 1;
    }
    r
}

/// A column of texts that stand at the right: the title, then the cells,
/// all as wide as the column, with the blanks before.
pub fn right_column(title: &str, items: &Vec<String>) -> (r: Vec<String>)
    ensures
        r.len() == items.len() + 1,
        r[0]@ == padded_left(title@, widest(texts(items@), 3, items.len() as int)),
        forall|i: int|
            0 <= i < items.len() ==> (#[trigger] r[i + 1])@ == padded_left(
                items[i]@,
                widest(texts(items@), 3, items.len() as int),
            ),
{
    let w = column_width(items);
    let mut r: Vec<String> = Vec::new();
    r.push(pad_left(title, w));
    let mut i: usize = 0;
    while i < items.len()
        invariant
            i <= items.len(),
            r.len() == i + 1,
            r[0]@ == padded_left(title@, w as int),
            forall|k: int|
                0 <= k < i ==> (#[trigger] r[k + 1])@ == padded_left(items[k]@, w as int),
        decreases items.len() - i,
    {
        r.push(pad_left(items[i].as_str(), w));
        i += 1;
    }
    r
}

/// The unit in which a column of sizes is shown.
#[derive(Clone, Copy, Debug, PartialEq, Eq, Structural)]
pub enum ByteUnit {
    B,
    KiB,
    MiB,
    GiB,
}

/// The unit for a column whose largest size is `max`: the sizes are
/// shown in the largest unit of which `max` is more than ten thousand or
/// so, and a column of zeros in the largest of all.
pub open spec fn unit_for(max: u64) -> ByteUnit {
    if 1 <= max <= 10240 {
        ByteUnit::B
    } else if 10241 <= max <= 10485760 {
        ByteUnit::KiB
    } else if 10485761 <= max <= 10737418240 {
        ByteUnit::MiB
    } else {
        ByteUnit::GiB
    }
}

/// The largest of the first `n` sizes, and `least` at least.
pub open spec fn largest(items: Seq<u64>, least: u64, n: int) -> u64
    decreases n,
{
    if n <= 0 {
        least
    } else {
        let m = largest(items, least, n - 1);
        if items[n - 1] > m {
            items[n - 1]
        } else {
            m
        }
    }
}

/// The unit for a column of sizes; an empty column counts as one of ones.
pub fn byte_unit(items: &Vec<u64>) -> (u: ByteUnit)
    ensures
        u == unit_for(
            if items.len() == 0 {
                1
            } else {
                largest(items@, 0, items.len() as int)
            },
        ),
{
    let mut max: u64 = 0;
    let mut i: usize = 0;
    while i < items.len()
        invariant
            i <= items.len(),
            max == largest(items@, 0, i as int),
        decreases items.len() - i,
    {
        if items[i] > max {
            max = items[i];
        }
        i += 1;
    }
    if items.len() == 0 {
        max = 1;
    }
    if 1 <= max && max <= 10240 {
        ByteUnit::B
    } else if 10241 <= max && max <= 10485760 {
        ByteUnit::KiB
    } else if 10485761 <= max && max <= 10737418240 {
        ByteUnit::MiB
    } else {
        ByteUnit::GiB
    }
}

impl ByteUnit {
    /// How many bytes one unit is.
    pub fn divisor(self) -> (d: u64)
        ensures
            d == (match self {
                ByteUnit::B => 1u64,
                ByteUnit::KiB => 1024u64,
                ByteUnit::MiB => 1048576u64,
                ByteUnit::GiB => 1073741824u64,
            }),
    {
        match self {
            ByteUnit::B => 1,
            ByteUnit::KiB => 1024,
            ByteUnit::MiB => 1048576,
            ByteUnit::GiB => 1073741824,
        }
    }

    /// How the unit is written.
    pub fn label(self) -> (s: &'static str)
        ensures
            s@ == (match self {
                ByteUnit::B => "B"@,
                ByteUnit::KiB => "kiB"@,
                ByteUnit::MiB => "MiB"@,
                ByteUnit::GiB => "GiB"@,
            }),
    {
        match self {
            ByteUnit::B => "B",
            ByteUnit::KiB => "kiB",
            ByteUnit::MiB => "MiB",
            ByteUnit::GiB => "GiB",
        }
    }
}

/// The first `n` cells of row `row`, each with a blank behind it.
pub open spec fn row_text(columns: Seq<Vec<String>>, row: int, n: int) -> Seq<char>
    decreases n,
{
    if n <= 0 {
        Seq::empty()
    } else {
        row_text(columns, row, n - 1) + columns[n - 1][row]@ + seq![' ']
    }
}

/// How many of the first `n` columns, from the first on, have a cell in
/// row `row`.
pub open spec fn cells_in_row(columns: Seq<Vec<String>>, row: int, from: int) -> int
    decreases columns.len() - from,
{
    if 0 <= from < columns.len() && row < columns[from].len() {
        cells_in_row(columns, row, from + 1)
    } else {
        from
    }
}

/// The table from row `row` on: row after row, each on a line of its own,
/// up to the first row in which a column has no cell. Of that row the
/// cells before the missing one are still written, and no end of line.
pub open spec fn table_from(columns: Seq<Vec<String>>, row: int, rows: int) -> Seq<char>
    decreases rows - row,
{
    let k = cells_in_row(columns, row, 0);
    if row < rows && k >= columns.len() {
        row_text(columns, row, columns.len() as int) + seq!['\n'] + table_from(
            columns,
            row + 1,
            rows,
        )
    } else {
        row_text(columns, row, k)
    }
}

/// The length of the longest column.
pub open spec fn longest(columns: Seq<Vec<String>>, n: int) -> int
    decreases n,
{
    if n <= 0 {
        0
    } else {
        let m = longest(columns, n - 1);
        if columns[n - 1].len() > m {
            columns[n - 1].len() as int
        } else {
            m
        }
    }
}

/// Every column before `cells_in_row` has a cell in the row, and the
/// column at `cells_in_row`, if there is one, has none.
pub proof fn lemma_cells_in_row(columns: Seq<Vec<String>>, row: int, from: int)
    requires
        0 <= from <= columns.len(),
    ensures
        from <= cells_in_row(columns, row, from) <= columns.len(),
        forall|k: int|
            from <= k < cells_in_row(columns, row, from) ==> row < (#[trigger] columns[k]).len(),
        cells_in_row(columns, row, from) < columns.len() ==> row >= columns[cells_in_row(
            columns,
            row,
            from,
        )].len(),
    decreases columns.len() - from,
{
    if from < columns.len() && row < columns[from].len() {
        lemma_cells_in_row(columns, row, from + 1);
    }
}

/// No column has a cell in a row beyond the longest.
pub proof fn lemma_longest(columns: Seq<Vec<String>>, n: int, k: int)
    requires
        0 <= k < n <= columns.len(),
    ensures
        columns[k].len() <= longest(columns, n),
    decreases n,
{
    if k < n - 1 {
        lemma_longest(columns, n - 1, k);
    }
}

/// The text of a table of one or more columns, each a title and its
/// cells.
pub fn table_text(columns: &Vec<Vec<String>>) -> (r: String)
    requires
        columns.len() > 0,
    ensures
        r@ == table_from(columns@, 0, longest(columns@, columns.len() as int)),
{
    proof {
        reveal_strlit(" ");
        reveal_strlit("\n");
    }
    let n: usize = columns.len();
    let mut rows: usize = 0;
    let mut c: usize = 0;
    while c < n
        invariant
            c <= n == columns.len(),
            rows == longest(columns@, c as int),
        decreases n - c,
    {
        if columns[c].len() > rows {
            rows = columns[c].len();
        }
        c += 1;
    }
    let mut r = String::new();
    let mut row: usize = 0;
    let mut open: bool = true;
    while open
        invariant
            n == columns.len(),
            n > 0,
            " "@ == seq![' '],
            "\n"@ == seq!['\n'],
            row <= rows,
            rows == longest(columns@, n as int),
            open ==> table_from(columns@, 0, rows as int) == r@ + table_from(
                columns@,
                row as int,
                rows as int,
            ),
            !open ==> table_from(columns@, 0, rows as int) == r@,
        decreases rows - row, (if open { 1int } else { 0int }),
    {
        let ghost start = r@;
        let mut k: usize = 0;
        assert(r@ =~= start + row_text(columns@, row as int, 0));
        while k < n && row < columns[k].len()
            invariant
                k <= n == columns.len(),
                " "@ == seq![' '],
                cells_in_row(columns@, row as int, 0) == cells_in_row(
                    columns@,
                    row as int,
                    k as int,
                ),
                r@ == start + row_text(columns@, row as int, k as int),
            decreases n - k,
        {
            r.append(columns[k][row].as_str());
            r.append(" ");
            assert(r@ =~= start + row_text(columns@, row as int, k + 1));
            k += 1;
        }
        proof {
            lemma_cells_in_row(columns@, row as int, 0);
        }
        if k < n {
            open = false;
        } else {
            proof {
                lemma_longest(columns@, n as int, 0);
            }
            r.append("\n");
            assert(r@ =~= start + (row_text(columns@, row as int, n as int) + seq!['\n']));
            row += 1;
        }
    }
    r
}

} // verus!
