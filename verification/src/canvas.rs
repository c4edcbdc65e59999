//! A rectangular grid of characters that the renderers draw on.
use crate::text::{from_chars, is_space, is_whitespace, slice, to_chars};
use vstd::prelude::*;

verus! {

/// A grid of cells, indexed `[row][column]`.
pub type Cells = Seq<Seq<char>>;

/// The cell `(x, y)` of `g`, or a space outside the grid.
pub open spec fn cell_of(g: Cells, x: int, y: int) -> char {
    if 0 <= y < g.len() && 0 <= x < g[y].len() {
        g[y][x]
    } else {
        ' '
    }
}

/// `g` with cell `(x, y)` set to `c`; cells outside the grid are ignored.
pub open spec fn put_cell(g: Cells, x: int, y: int, c: char) -> Cells {
    if 0 <= y < g.len() && 0 <= x < g[y].len() {
        g.update(y, g[y].update(x, c))
    } else {
        g
    }
}

/// `g` with the text `t` written on row `y` from column `x`; the part of the
/// text outside the grid is dropped.
pub open spec fn put_text(g: Cells, x: int, y: int, t: Seq<char>) -> Cells {
    if 0 <= y < g.len() {
        g.update(y, Seq::new(g[y].len(), |j: int| if x <= j < x + t.len() { t[j - x] } else { g[y][j] }))
    } else {
        g
    }
}

/// `g` with `n` cells of row `y` from column `x` set to `c`.
pub open spec fn put_run(g: Cells, x: int, y: int, n: int, c: char) -> Cells {
    put_text(g, x, y, Seq::new(n as nat, |i: int| c))
}

/// The column at which text of `n` characters starts when centred on `cx`.
pub open spec fn centred_start(cx: int, n: int) -> int {
    if cx >= n / 2 {
        cx - n / 2
    } else {
        0
    }
}

/// Number of trailing spaces of a row.
pub open spec fn trailing_blanks(r: Seq<char>) -> nat
    decreases r.len(),
{
    if r.len() > 0 && r.last() == ' ' {
        1 + trailing_blanks(r.drop_last())
    } else {
        0
    }
}

/// A row without its trailing spaces.
pub open spec fn strip_row(r: Seq<char>) -> Seq<char> {
    r.take(r.len() - trailing_blanks(r))
}

/// Number of rows to print: trailing rows that are blank are left out.
pub open spec fn printed_rows(g: Cells) -> nat
    decreases g.len(),
{
    if g.len() > 0 && strip_row(g.last()).len() == 0 {
        printed_rows(g.drop_last())
    } else {
        g.len()
    }
}

/// Rows joined with newlines.
pub open spec fn join_lines(rows: Seq<Seq<char>>) -> Seq<char>
    decreases rows.len(),
{
    if rows.len() == 0 {
        Seq::empty()
    } else if rows.len() == 1 {
        rows[0]
    } else {
        join_lines(rows.drop_last()) + seq!['\n'] + rows.last()
    }
}

/// The text of a grid: rows without trailing spaces, without trailing blank
/// rows, joined by newlines.
pub open spec fn grid_text(g: Cells) -> Seq<char> {
    join_lines(g.take(printed_rows(g) as int).map_values(|r: Seq<char>| strip_row(r)))
}

/// A grid of `h` rows of `w` spaces.
pub open spec fn blank(w: int, h: int) -> Cells {
    Seq::new(h as nat, |y: int| Seq::new(w as nat, |x: int| ' '))
}

/// `a` saturating-minus `b`.
pub open spec fn sat_sub(a: int, b: int) -> int {
    if a >= b {
        a - b
    } else {
        0
    }
}

/// Canvas for text-mode drawing.
pub struct AsciiCanvas {
    pub grid: Vec<Vec<char>>,
    pub width: usize,
    pub height: usize,
}

impl AsciiCanvas {
    /// The cells of the canvas.
    pub open spec fn cells(&self) -> Cells {
        self.grid@.map_values(|r: Vec<char>| r@)
    }

    /// The canvas is `width` cells wide and `height` cells tall.
    pub open spec fn wf(&self) -> bool {
        &&& self.grid@.len() == self.height
        &&& forall|y: int| 0 <= y < self.height ==> #[trigger] self.grid@[y]@.len() == self.width
    }

    /// A blank canvas.
    pub fn new(width: usize, height: usize) -> (r: Self)
        ensures
            r.wf(),
            r.width == width,
            r.height == height,
            forall|x: int, y: int|
                0 <= x < width && 0 <= y < height ==> #[trigger] r.cells()[y][x] == ' ',
            r.cells() == blank(width as int, height as int),
    {
        let mut grid: Vec<Vec<char>> = Vec::new();
        let mut y: usize = 0;
        while y < height
            invariant
                y <= height,
                grid@.len() == y,
                forall|j: int| 0 <= j < y ==> #[trigger] grid@[j]@.len() == width,
                forall|j: int, x: int| 0 <= j < y && 0 <= x < width ==> #[trigger] grid@[j]@[x] == ' ',
            decreases height - y,
        {
            let mut row: Vec<char> = Vec::new();
            let mut x: usize = 0;
            while x < width
                invariant
                    x <= width,
                    row@.len() == x,
                    forall|i: int| 0 <= i < x ==> #[trigger] row@[i] == ' ',
                decreases width - x,
            {
                row.push(' ');
                x += 1;
            }
            grid.push(row);
            y += 1;
        }
        let r = AsciiCanvas { grid, width, height };
        assert forall|j: int| 0 <= j < height implies r.cells()[j] =~= blank(width as int, height as int)[j] by {}
        assert(r.cells() =~= blank(width as int, height as int));
        r
    }

    /// The character at `(x, y)`, or a space outside the canvas.
    pub fn get_char(&self, x: usize, y: usize) -> (c: char)
        requires
            self.wf(),
        ensures
            c == cell_of(self.cells(), x as int, y as int),
    {
        if y < self.height && x < self.width {
            self.grid[y][x]
        } else {
            ' '
        }
    }

    /// Set the character at `(x, y)`; outside the canvas nothing changes.
    pub fn set_char(&mut self, x: usize, y: usize, c: char)
        requires
            old(self).wf(),
        ensures
            final(self).wf(),
            final(self).width == old(self).width,
            final(self).height == old(self).height,
            final(self).cells() == put_cell(old(self).cells(), x as int, y as int, c),
    {
        if y < self.height && x < self.width {
            let ghost g = self.cells();
            let mut row = self.grid[y].clone();
            row.set(x, c);
            self.grid.set(y, row);
            assert(self.cells() =~= put_cell(g, x as int, y as int, c));
        }
    }

    /// Write `text` on row `y` from column `x`, clipped to the canvas.
    pub fn draw_chars(&mut self, x: usize, y: usize, text: &Vec<char>)
        requires
            old(self).wf(),
        ensures
            final(self).wf(),
            final(self).width == old(self).width,
            final(self).height == old(self).height,
            final(self).cells() == put_text(old(self).cells(), x as int, y as int, text@),
    {
        let ghost g = self.cells();
        if y >= self.height {
            return;
        }
        let mut row = self.grid[y].clone();
        let mut i: usize = 0;
        while i < text.len() && x < self.width && i < self.width - x
            invariant
                self.wf(),
                self.cells() == g,
                y < self.height,
                i <= text.len(),
                row@.len() == self.width,
                forall|j: int|
                    0 <= j < self.width ==> #[trigger] row@[j] == (if x <= j < x + i {
                        text@[j - x]
                    } else {
                        g[y as int][j]
                    }),
            decreases text.len() - i,
        {
            row.set(x + i, text[i]);
            i += 1;
        }
        let ghost target = put_text(g, x as int, y as int, text@);
        assert forall|j: int| 0 <= j < self.width implies #[trigger] row@[j] == target[y as int][j] by {
            if x <= j < x + text@.len() {
                assert(j - x < i);
            }
        }
        assert(row@ =~= target[y as int]);
        self.grid.set(y, row);
        assert(self.cells() =~= target);
    }

    /// Write a string slice on row `y` from column `x`, clipped to the canvas.
    pub fn draw_text(&mut self, x: usize, y: usize, text: &str)
        requires
            old(self).wf(),
        ensures
            final(self).wf(),
            final(self).width == old(self).width,
            final(self).height == old(self).height,
            final(self).cells() == put_text(old(self).cells(), x as int, y as int, text@),
    {
        let t = to_chars(text);
        self.draw_chars(x, y, &t);
    }

    /// Write `text` on row `y` centred on column `center_x`.
    pub fn draw_centered_chars(&mut self, center_x: usize, y: usize, text: &Vec<char>)
        requires
            old(self).wf(),
        ensures
            final(self).wf(),
            final(self).width == old(self).width,
            final(self).height == old(self).height,
            final(self).cells() == put_text(
                old(self).cells(),
                centred_start(center_x as int, text@.len() as int),
                y as int,
                text@,
            ),
    {
        let half = text.len() / 2;
        let start = if center_x >= half {
            center_x - half
        } else {
            0
        };
        self.draw_chars(start, y, text);
    }

    /// Write a string slice on row `y` centred on column `center_x`.
    pub fn draw_text_centered(&mut self, center_x: usize, y: usize, text: &str)
        requires
            old(self).wf(),
        ensures
            final(self).wf(),
            final(self).width == old(self).width,
            final(self).height == old(self).height,
            final(self).cells() == put_text(
                old(self).cells(),
                centred_start(center_x as int, text@.len() as int),
                y as int,
                text@,
            ),
    {
        let t = to_chars(text);
        self.draw_centered_chars(center_x, y, &t);
    }

    /// Set `len` cells of row `y` from column `x` to `c`.
    pub fn draw_horizontal_line(&mut self, x: usize, y: usize, len: usize, c: char)
        requires
            old(self).wf(),
        ensures
            final(self).wf(),
            final(self).width == old(self).width,
            final(self).height == old(self).height,
            final(self).cells() == put_run(old(self).cells(), x as int, y as int, len as int, c),
    {
        let n = if len <= self.width {
            len
        } else {
            self.width
        };
        let mut run: Vec<char> = Vec::new();
        let mut i: usize = 0;
        while i < n
            invariant
                i <= n,
                run@.len() == i,
                forall|j: int| 0 <= j < i ==> #[trigger] run@[j] == c,
            decreases n - i,
        {
            run.push(c);
            i += 1;
        }
        let ghost g = self.cells();
        self.draw_chars(x, y, &run);
        if y < self.height {
            assert(put_text(g, x as int, y as int, run@)[y as int] =~= put_run(g, x as int, y as int, len as int, c)[y as int]);
        }
        assert(put_text(g, x as int, y as int, run@) =~= put_run(g, x as int, y as int, len as int, c));
    }

    /// The picture as text: rows without trailing spaces, trailing blank rows
    /// left out, joined by newlines.
    pub fn to_text(&self) -> (r: String)
        requires
            self.wf(),
        ensures
            r@ == grid_text(self.cells()),
    {
        let v = self.text_chars();
        from_chars(&v)
    }

    fn text_chars(&self) -> (r: Vec<char>)
        requires
            self.wf(),
        ensures
            r@ == grid_text(self.cells()),
    {
        let ghost g = self.cells();
        let n = self.printed_row_count();
        let ghost rows = g.take(n as int).map_values(|r: Seq<char>| strip_row(r));
        let mut out: Vec<char> = Vec::new();
        let mut y: usize = 0;
        while y < n
            invariant
                self.wf(),
                g == self.cells(),
                n <= self.height,
                rows == g.take(n as int).map_values(|r: Seq<char>| strip_row(r)),
                y <= n,
                out@ == join_lines(rows.take(y as int)),
            decreases n - y,
        {
            let row = &self.grid[y];
            let end = stripped_len(row);
            let part = slice(row, 0, end);
            assert(part@ == rows[y as int]);
            if y > 0 {
                out.push('\n');
            }
            let mut i: usize = 0;
            let ghost before = out@;
            while i < part.len()
                invariant
                    i <= part.len(),
                    out@ == before + part@.take(i as int),
                decreases part.len() - i,
            {
                out.push(part[i]);
                i += 1;
                assert(part@.take(i as int) == part@.take(i - 1).push(part@[i - 1]));
            }
            assert(part@.take(part.len() as int) == part@);
            assert(rows.take(y + 1).drop_last() == rows.take(y as int));
            assert(rows.take(y + 1).last() == rows[y as int]);
            y += 1;
        }
        assert(rows.take(n as int) == rows);
        out
    }

    /// Number of rows that `to_text` prints.
    fn printed_row_count(&self) -> (n: usize)
        requires
            self.wf(),
        ensures
            n <= self.height,
            n == printed_rows(self.cells()),
    {
        let ghost g = self.cells();
        let mut n = self.height;
        assert(g.take(n as int) == g);
        while n > 0 && stripped_len(&self.grid[n - 1]) == 0
            invariant
                self.wf(),
                g == self.cells(),
                n <= self.height,
                printed_rows(g) == printed_rows(g.take(n as int)),
            decreases n,
        {
            assert(g.take(n as int).last() == g[n - 1]);
            assert(g.take(n as int).drop_last() == g.take(n - 1));
            n -= 1;
        }
        if n > 0 {
            assert(g.take(n as int).last() == g[n - 1]);
        }
        assert(g.take(self.height as int) == g);
        n
    }
}

/// Length of a row without its trailing spaces.
fn stripped_len(row: &Vec<char>) -> (n: usize)
    ensures
        n <= row.len(),
        n == strip_row(row@).len(),
        strip_row(row@) == row@.take(n as int),
{
    let mut n = row.len();
    assert(row@.take(n as int) == row@);
    while n > 0 && row[n - 1] == ' '
        invariant
            n <= row.len(),
            trailing_blanks(row@) == (row.len() - n) + trailing_blanks(row@.take(n as int)),
        decreases n,
    {
        assert(row@.take(n as int).last() == row@[n - 1]);
        assert(row@.take(n as int).drop_last() == row@.take(n - 1));
        n -= 1;
    }
    if n > 0 {
        assert(row@.take(n as int).last() == row@[n - 1]);
    }
    assert(row@.take(row.len() as int) == row@);
    n
}

/// Split `label` into lines of at most `max_width` characters, breaking at
/// whitespace; a word longer than `max_width` stands on a line of its own.
pub open spec fn wrap_words(words: Seq<Seq<char>>, max_width: int) -> Seq<Seq<char>>
    decreases words.len(),
{
    if words.len() == 0 {
        Seq::empty()
    } else {
        let rest = wrap_words(words.drop_last(), max_width);
        let w = words.last();
        if rest.len() > 0 && rest.last().len() + 1 + w.len() <= max_width {
            rest.drop_last().push(rest.last() + seq![' '] + w)
        } else {
            rest.push(w)
        }
    }
}

/// Wrapping keeps every line within the width, except a line that is a
/// single word longer than the width.
pub proof fn lemma_wrap_width(words: Seq<Seq<char>>, max_width: int)
    ensures
        forall|k: int|
            0 <= k < wrap_words(words, max_width).len() ==> (#[trigger] wrap_words(words, max_width)[k]).len()
                <= max_width || exists|j: int| 0 <= j < words.len() && wrap_words(words, max_width)[k] == words[j],
    decreases words.len(),
{
    if words.len() > 0 {
        let prev = words.drop_last();
        lemma_wrap_width(prev, max_width);
        let rest = wrap_words(prev, max_width);
        let out = wrap_words(words, max_width);
        assert forall|k: int| 0 <= k < out.len() implies (#[trigger] out[k]).len() <= max_width || exists|j: int|
            0 <= j < words.len() && out[k] == words[j] by {
            if k < rest.len() && !(rest.len() > 0 && rest.last().len() + 1 + words.last().len() <= max_width
                && k == rest.len() - 1) {
                assert(out[k] == rest[k]);
                if rest[k].len() > max_width {
                    let j = choose|j: int| 0 <= j < prev.len() && rest[k] == prev[j];
                    assert(out[k] == words[j]);
                }
            } else if k == rest.len() {
                assert(out[k] == words[words.len() - 1]);
            }
        }
    }
}

/// Length of the run of non-whitespace characters at the start of `s`.
pub open spec fn word_len(s: Seq<char>) -> nat
    decreases s.len(),
{
    if s.len() > 0 && !is_space(s[0]) {
        1 + word_len(s.drop_first())
    } else {
        0
    }
}

/// The whitespace-separated words of `s` (`str::split_whitespace`).
pub open spec fn words_of(s: Seq<char>) -> Seq<Seq<char>>
    decreases s.len(), 1nat,
{
    if s.len() == 0 {
        Seq::empty()
    } else if is_space(s[0]) {
        words_of(s.drop_first())
    } else {
        words_from_word(s)
    }
}

pub open spec fn words_from_word(s: Seq<char>) -> Seq<Seq<char>>
    decreases s.len(), 0nat,
{
    if s.len() > 0 && !is_space(s[0]) {
        proof {
            lemma_word_len(s);
        }
        seq![s.take(word_len(s) as int)] + words_of(s.skip(word_len(s) as int))
    } else {
        Seq::empty()
    }
}

pub proof fn lemma_word_len(s: Seq<char>)
    ensures
        word_len(s) <= s.len(),
        s.len() > 0 && !is_space(s[0]) ==> word_len(s) > 0,
        forall|j: int| 0 <= j < word_len(s) ==> !is_space(#[trigger] s[j]),
        word_len(s) < s.len() ==> is_space(s[word_len(s) as int]),
    decreases s.len(),
{
    if s.len() > 0 && !is_space(s[0]) {
        lemma_word_len(s.drop_first());
        assert forall|j: int| 0 <= j < word_len(s) implies !is_space(#[trigger] s[j]) by {
            if j > 0 {
                assert(s[j] == s.drop_first()[j - 1]);
            }
        }
    }
}

/// There are no more words than characters.
pub proof fn lemma_words_count(s: Seq<char>)
    ensures
        words_of(s).len() <= s.len(),
    decreases s.len(),
{
    if s.len() > 0 {
        if is_space(s[0]) {
            lemma_words_count(s.drop_first());
        } else {
            lemma_word_len(s);
            lemma_words_count(s.skip(word_len(s) as int));
            assert(words_of(s) == words_from_word(s));
        }
    }
}

/// Wrapping gives no more lines than words.
pub proof fn lemma_wrap_count(words: Seq<Seq<char>>, max_width: int)
    ensures
        wrap_words(words, max_width).len() <= words.len(),
    decreases words.len(),
{
    if words.len() > 0 {
        lemma_wrap_count(words.drop_last(), max_width);
    }
}

pub proof fn lemma_word_len_is(s: Seq<char>, k: int)
    requires
        0 <= k <= s.len(),
        forall|j: int| 0 <= j < k ==> !is_space(#[trigger] s[j]),
        k < s.len() ==> is_space(s[k]),
    ensures
        word_len(s) == k,
    decreases s.len(),
{
    if k > 0 {
        assert(!is_space(s[0]));
        assert forall|j: int| 0 <= j < k - 1 implies !is_space(#[trigger] s.drop_first()[j]) by {
            assert(s.drop_first()[j] == s[j + 1]);
        }
        if k - 1 < s.drop_first().len() {
            assert(s.drop_first()[k - 1] == s[k]);
        }
        lemma_word_len_is(s.drop_first(), k - 1);
    }
}

/// Split `s` into its whitespace-separated words.
pub fn split_words(s: &Vec<char>) -> (r: Vec<Vec<char>>)
    ensures
        r@.map_values(|w: Vec<char>| w@) == words_of(s@),
{
    let mut out: Vec<Vec<char>> = Vec::new();
    let mut i: usize = 0;
    assert(s@.skip(0) == s@);
    assert(out@.map_values(|w: Vec<char>| w@) + words_of(s@) =~= words_of(s@));
    while i < s.len()
        invariant
            i <= s.len(),
            words_of(s@) == out@.map_values(|w: Vec<char>| w@) + words_of(s@.skip(i as int)),
        decreases s.len() - i,
    {
        let ghost rest = s@.skip(i as int);
        if is_whitespace(s[i]) {
            assert(rest.drop_first() == s@.skip(i + 1));
            i += 1;
        } else {
            let mut k = i;
            while k < s.len() && !is_whitespace(s[k])
                invariant
                    i <= k <= s.len(),
                    forall|j: int| i <= j < k ==> !is_space(#[trigger] s@[j]),
                decreases s.len() - k,
            {
                k += 1;
            }
            proof {
                assert forall|j: int| 0 <= j < k - i implies !is_space(#[trigger] rest[j]) by {
                    assert(rest[j] == s@[i + j]);
                }
                if k < s.len() {
                    assert(rest[k - i] == s@[k as int]);
                }
                lemma_word_len_is(rest, k - i);
                assert(rest.skip(k - i) == s@.skip(k as int));
                assert(rest.take(k - i) == s@.subrange(i as int, k as int));
            }
            let w = slice(s, i, k);
            let ghost before = out@.map_values(|w: Vec<char>| w@);
            out.push(w);
            assert(out@.map_values(|w: Vec<char>| w@) == before.push(w@));
            assert(words_of(rest) == words_from_word(rest));
            assert(words_of(rest) == seq![w@] + words_of(s@.skip(k as int)));
            assert(before + words_of(rest) =~= before.push(w@) + words_of(s@.skip(k as int)));
            i = k;
        }
    }
    assert(s@.skip(i as int).len() == 0);
    out
}

/// Greedily wrap `label` into lines of at most `max_width` characters,
/// breaking only at whitespace.
pub fn wrap_label(label: &Vec<char>, max_width: usize) -> (r: Vec<Vec<char>>)
    ensures
        r@.map_values(|l: Vec<char>| l@) == wrap_words(words_of(label@), max_width as int),
{
    let words = split_words(label);
    let ghost ws = words@.map_values(|w: Vec<char>| w@);
    let mut lines: Vec<Vec<char>> = Vec::new();
    let mut i: usize = 0;
    while i < words.len()
        invariant
            i <= words.len(),
            ws == words@.map_values(|w: Vec<char>| w@),
            lines@.map_values(|l: Vec<char>| l@) == wrap_words(ws.take(i as int), max_width as int),
        decreases words.len() - i,
    {
        let ghost prev = lines@.map_values(|l: Vec<char>| l@);
        assert(ws.take(i + 1).drop_last() == ws.take(i as int));
        assert(ws.take(i + 1).last() == words@[i as int]@);
        let n = lines.len();
        let w = &words[i];
        if n > 0 && lines[n - 1].len() < max_width && w.len() <= max_width - 1 - lines[n - 1].len() {
            assert(prev.last() == lines@[n - 1]@);
            let mut last = lines.pop().unwrap();
            assert(lines@.map_values(|l: Vec<char>| l@) =~= prev.drop_last());
            assert(last@ == prev.last());
            last.push(' ');
            let mut j: usize = 0;
            let ghost base = last@;
            while j < w.len()
                invariant
                    j <= w.len(),
                    last@ == base + w@.take(j as int),
                decreases w.len() - j,
            {
                last.push(w[j]);
                j += 1;
                assert(w@.take(j as int) == w@.take(j - 1).push(w@[j - 1]));
            }
            assert(w@.take(w.len() as int) == w@);
            assert(last@ =~= prev.last() + seq![' '] + w@);
            let ghost mid = lines@;
            lines.push(last);
            assert(lines@ == mid.push(last));
            assert(lines@.map_values(|l: Vec<char>| l@) =~= mid.map_values(|l: Vec<char>| l@).push(last@));
            assert(lines@.map_values(|l: Vec<char>| l@) =~= prev.drop_last().push(prev.last() + seq![' '] + w@));
        } else {
            let copy = slice(w, 0, w.len());
            assert(w@.subrange(0, w@.len() as int) == w@);
            lines.push(copy);
            assert(lines@.map_values(|l: Vec<char>| l@) =~= prev.push(w@));
        }
        i += 1;
    }
    assert(ws.take(words.len() as int) == ws);
    lines
}

/// Widest line of a wrapped label (zero when there are no lines).
pub open spec fn widest(lines: Seq<Seq<char>>) -> nat
    decreases lines.len(),
{
    if lines.len() == 0 {
        0
    } else {
        let w = widest(lines.drop_last());
        if lines.last().len() > w {
            lines.last().len()
        } else {
            w
        }
    }
}

/// Width of the widest line.
pub fn widest_line(lines: &Vec<Vec<char>>) -> (r: usize)
    ensures
        r == widest(lines@.map_values(|l: Vec<char>| l@)),
{
    let ghost ls = lines@.map_values(|l: Vec<char>| l@);
    let mut best: usize = 0;
    let mut i: usize = 0;
    while i < lines.len()
        invariant
            i <= lines.len(),
            ls == lines@.map_values(|l: Vec<char>| l@),
            best == widest(ls.take(i as int)),
        decreases lines.len() - i,
    {
        assert(ls.take(i + 1).drop_last() == ls.take(i as int));
        assert(ls.take(i + 1).last() == lines@[i as int]@);
        if lines[i].len() > best {
            best = lines[i].len();
        }
        i += 1;
    }
    assert(ls.take(lines.len() as int) == ls);
    best
}

} // verus!
