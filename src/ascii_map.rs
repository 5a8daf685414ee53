//! The character canvas: a grid of glyphs, widened, framed and printed.
use vstd::prelude::*;
use crate::text::{decimal, decimal_text};

verus! {

/// A grid of glyphs; row 0 is the southernmost one.
pub struct AsciiMap {
    pub data: Vec<Vec<String>>,
    pub height: u32,
    pub width: u32,
    pub is_decorated: bool,
    pub legend: String,
}

/// The text of each cell of a grid.
pub open spec fn grid_view(d: Seq<Vec<String>>) -> Seq<Seq<Seq<char>>> {
    d.map_values(|row: Vec<String>| row@.map_values(|s: String| s@))
}

/// A grid of `h` rows of `w` cells.
pub open spec fn rectangular(g: Seq<Seq<Seq<char>>>, h: int, w: int) -> bool {
    &&& g.len() == h
    &&& forall|x: int| 0 <= x < h ==> (#[trigger] g[x]).len() == w
}

impl AsciiMap {
    /// The cells of the map.
    pub open spec fn cells(&self) -> Seq<Seq<Seq<char>>> {
        grid_view(self.data@)
    }

    /// Height and width that match the data, every row as wide as the first.
    pub open spec fn wf(&self) -> bool {
        rectangular(self.cells(), self.height as int, self.width as int)
    }

    /// Return a new AsciiMap holding `data`: as high as it has rows, as wide
    /// as its first row.
    pub fn from(data: Vec<Vec<String>>) -> (r: AsciiMap)
        requires
            data@.len() <= u32::MAX,
            data@.len() > 0 ==> data@[0]@.len() <= u32::MAX,
        ensures
            r.cells() == grid_view(data@),
            r.height == data@.len(),
            r.width == (if data@.len() > 0 { data@[0]@.len() } else { 0 }),
            !r.is_decorated,
            r.legend@ == Seq::<char>::empty(),
    {
        let height = data.len() as u32;
        let width = if data.len() > 0 {
            data[0].len() as u32
        } else {
            0
        };
        AsciiMap { data, height, width, is_decorated: false, legend: String::new() }
    }

    /// Double each cell of the map, side by side: the width doubles. It makes
    /// the map look square in a terminal, whose cells are taller than wide.
    pub fn double(&mut self)
        requires
            old(self).wf(),
            2 * old(self).width <= u32::MAX,
        ensures
            final(self).wf(),
            final(self).height == old(self).height,
            final(self).width == 2 * old(self).width,
            final(self).is_decorated == old(self).is_decorated,
            final(self).legend@ == old(self).legend@,
            forall|x: int, y: int|
                0 <= x < old(self).height && 0 <= y < 2 * old(self).width
                    ==> #[trigger] final(self).cells()[x][y] == old(self).cells()[x][y / 2],
    {
        let ghost g = self.cells();
        let h = self.height as usize;
        let w = self.width as usize;
        let mut new_data: Vec<Vec<String>> = Vec::new();
        let mut x: usize = 0;
        while x < h
            invariant
                x <= h,
                h == self.height,
                w == self.width,
                g == self.cells(),
                rectangular(g, h as int, w as int),
                new_data@.len() == x,
                forall|i: int| 0 <= i < x ==> (#[trigger] new_data@[i])@.len() == 2 * w,
                forall|i: int, j: int|
                    0 <= i < x && 0 <= j < 2 * w ==> #[trigger] new_data@[i]@[j]@ == g[i][j / 2],
            decreases h - x,
        {
            let mut line: Vec<String> = Vec::new();
            let mut y: usize = 0;
            assert(g[x as int].len() == w);
            while y < w
                invariant
                    y <= w,
                    x < h,
                    h == self.height,
                    w == self.width,
                    g == self.cells(),
                    rectangular(g, h as int, w as int),
                    line@.len() == 2 * y,
                    forall|j: int| 0 <= j < 2 * y ==> (#[trigger] line@[j])@ == g[x as int][j / 2],
                decreases w - y,
            {
                assert(self.data@[x as int]@[y as int]@ == g[x as int][y as int]);
                line.push(self.data[x][y].clone());
                line.push(self.data[x][y].clone());
                y = y + 1;
            }
            let ghost before = new_data@;
            new_data.push(line);
            assert forall|i: int, j: int|
                0 <= i < x + 1 && 0 <= j < 2 * w implies #[trigger] new_data@[i]@[j]@ == g[i][j
                / 2] by {
                if i < x {
                    assert(new_data@[i] == before[i]);
                }
            }
            x = x + 1;
        }
        let ghost nd = new_data@;
        self.data = new_data;
        self.width = self.width * 2;
        assert(self.cells().len() == h);
        assert forall|i: int| 0 <= i < h implies (#[trigger] self.cells()[i]).len() == self.width by {
            assert(nd[i]@.len() == 2 * w);
        }
    }

    /// Return a copy of this map wrapped in a border, with a north arrow near
    /// its east edge (two cells, in the third and fourth rows of the framed
    /// map), and the scale legend of a map whose side is `side_mm` millimetres
    /// long.
    pub fn with_decoration(&self, side_mm: i64) -> (r: AsciiMap)
        requires
            self.wf(),
            self.height >= 2,
            self.width >= 3,
            self.width + 2 <= u32::MAX,
            self.height + 2 <= u32::MAX,
            0 <= side_mm <= 1_000_000_000_000_000,
        ensures
            r.wf(),
            r.is_decorated,
            r.legend@ == legend_text(side_mm as int, self.width as int),
            r.height == self.height + 2,
            r.width == self.width + 2,
            r.cells() == decorated_grid(self.cells(), self.height as int, self.width as int),
    {
        let ghost g = self.cells();
        let h = self.height as usize;
        let w = self.width as usize;
        let mut new_data: Vec<Vec<String>> = Vec::new();
        new_data.push(border_row(w, "╚", "╝"));
        let mut x: usize = 0;
        while x < h
            invariant
                x <= h,
                h == self.height,
                w == self.width,
                h >= 2,
                w >= 3,
                g == self.cells(),
                rectangular(g, h as int, w as int),
                new_data@.len() == x + 1,
                forall|i: int| 0 <= i < x + 1 ==> (#[trigger] new_data@[i])@.len() == w + 2,
                forall|i: int, j: int|
                    0 <= i < x + 1 && 0 <= j < w + 2 ==> #[trigger] new_data@[i]@[j]@ == framed_cell(
                        g,
                        h as int,
                        w as int,
                        i,
                        j,
                    ),
            decreases h - x,
        {
            let mut line: Vec<String> = Vec::new();
            line.push(String::from_str("║"));
            let mut y: usize = 0;
            assert(g[x as int].len() == w);
            while y < w
                invariant
                    y <= w,
                    x < h,
                    h == self.height,
                    w == self.width,
                    g == self.cells(),
                    rectangular(g, h as int, w as int),
                    line@.len() == y + 1,
                    line@[0]@ == "║"@,
                    forall|j: int| 1 <= j < y + 1 ==> (#[trigger] line@[j])@ == g[x as int][j - 1],
                decreases w - y,
            {
                assert(self.data@[x as int]@[y as int]@ == g[x as int][y as int]);
                line.push(self.data[x][y].clone());
                y = y + 1;
            }
            line.push(String::from_str("║"));
            let ghost before = new_data@;
            new_data.push(line);
            assert forall|i: int, j: int|
                0 <= i < x + 2 && 0 <= j < w + 2 implies #[trigger] new_data@[i]@[j]@
                == framed_cell(g, h as int, w as int, i, j) by {
                if i < x + 1 {
                    assert(new_data@[i] == before[i]);
                }
            }
            x = x + 1;
        }
        new_data.push(border_row(w, "╔", "╗"));
        assert forall|i: int, j: int|
            0 <= i < h + 2 && 0 <= j < w + 2 implies #[trigger] new_data@[i]@[j]@ == framed_cell(
            g,
            h as int,
            w as int,
            i,
            j,
        ) by {}
        let ghost framed = new_data@;
        new_data[2][w - 3] = String::from_str("⇯");
        new_data[3][w - 3] = String::from_str("N");
        assert forall|i: int| 0 <= i < h + 2 implies (#[trigger] new_data@[i])@.len() == w + 2 by {
            assert(framed[i]@.len() == w + 2);
        }
        assert forall|i: int, j: int|
            0 <= i < h + 2 && 0 <= j < w + 2 implies #[trigger] new_data@[i]@[j]@ == decorated_cell(
            g,
            h as int,
            w as int,
            i,
            j,
        ) by {
            if !((i == 2 || i == 3) && j == w - 3) {
                assert(new_data@[i]@[j] == framed[i]@[j]);
            }
        }
        let ghost nd = new_data@;
        let mut res = AsciiMap::from(new_data);
        res.is_decorated = true;
        res.legend = scale_legend(side_mm, self.width);
        let ghost dg = decorated_grid(g, h as int, w as int);
        assert(res.cells().len() == h + 2);
        assert forall|i: int| 0 <= i < h + 2 implies #[trigger] res.cells()[i] == dg[i] by {
            assert(res.cells()[i] == grid_view(nd)[i]);
            assert(nd[i]@.len() == w + 2);
            assert forall|j: int| 0 <= j < w + 2 implies #[trigger] res.cells()[i][j] == dg[i][j] by {
                assert(nd[i]@[j]@ == decorated_cell(g, h as int, w as int, i, j));
            }
            assert(res.cells()[i] =~= dg[i]);
        }
        assert(res.cells() =~= dg);
        res
    }

    /// Return the text of the map, decorated or not (see `with_decoration`).
    pub fn render_to_text(&self, with_decoration: bool, side_mm: i64) -> (r: String)
        requires
            self.wf(),
            with_decoration ==> self.height >= 2 && self.width >= 3 && self.width + 2 <= u32::MAX
                && self.height + 2 <= u32::MAX && 0 <= side_mm <= 1_000_000_000_000_000,
        ensures
            r@ == (if with_decoration {
                rendered(
                    decorated_grid(self.cells(), self.height as int, self.width as int),
                    self.height + 2,
                ) + legend_text(side_mm as int, self.width as int) + "\n"@
            } else {
                map_text(*self)
            }),
    {
        if with_decoration {
            self.with_decoration(side_mm).render()
        } else {
            self.render()
        }
    }

    /// Return the text of the map, northernmost row first, each row ended by
    /// a line break; a decorated map ends with its legend and a line break.
    pub fn render(&self) -> (r: String)
        requires
            self.wf(),
        ensures
            r@ == map_text(*self),
    {
        let ghost g = self.cells();
        let h = self.height as usize;
        let mut out = String::new();
        let mut x: usize = 0;
        while x < h
            invariant
                x <= h,
                h == self.height,
                g == self.cells(),
                rectangular(g, h as int, self.width as int),
                out@ == rendered(g, x as int),
            decreases h - x,
        {
            let row = &self.data[h - 1 - x];
            let mut y: usize = 0;
            let ghost start = out@;
            while y < row.len()
                invariant
                    y <= row@.len(),
                    row@.len() == g[h - 1 - x].len(),
                    x < h,
                    h == g.len(),
                    forall|j: int| 0 <= j < row@.len() ==> (#[trigger] row@[j])@ == g[h - 1 - x][j],
                    out@ == start + joined(g[h - 1 - x], y as int),
                decreases row@.len() - y,
            {
                out.append(row[y].as_str());
                y = y + 1;
            }
            assert(g[h - 1 - x].len() == row@.len());
            out.append("\n");
            x = x + 1;
        }
        if self.is_decorated {
            out.append(self.legend.as_str());
            out.append("\n");
        }
        out
    }
}

/// The text of a map: its rows, then, when decorated, its legend line.
pub open spec fn map_text(m: AsciiMap) -> Seq<char> {
    if m.is_decorated {
        rendered(m.cells(), m.height as int) + m.legend@ + "\n"@
    } else {
        rendered(m.cells(), m.height as int)
    }
}

/// The cells of a row, written one after the other: the first `k` of them.
pub open spec fn joined(row: Seq<Seq<char>>, k: int) -> Seq<char>
    decreases k,
{
    if k <= 0 {
        Seq::empty()
    } else {
        joined(row, k - 1) + row[k - 1]
    }
}

/// The first `k` printed lines of a grid of `g.len()` rows: the last row of
/// the grid first, each line ended by a line break.
pub open spec fn rendered(g: Seq<Seq<Seq<char>>>, k: int) -> Seq<char>
    decreases k,
{
    if k <= 0 {
        Seq::empty()
    } else {
        rendered(g, k - 1) + joined(g[g.len() - k], g[g.len() - k].len() as int) + "\n"@
    }
}

/// Cell `(x, y)` of grid `g` (`h` rows of `w`) once framed: the border in row
/// 0 and row `h + 1`, and in the first and last columns; the grid inside.
pub open spec fn framed_cell(g: Seq<Seq<Seq<char>>>, h: int, w: int, x: int, y: int) -> Seq<char> {
    if x == 0 {
        if y == 0 {
            "╚"@
        } else if y == w + 1 {
            "╝"@
        } else {
            "═"@
        }
    } else if x == h + 1 {
        if y == 0 {
            "╔"@
        } else if y == w + 1 {
            "╗"@
        } else {
            "═"@
        }
    } else if y == 0 || y == w + 1 {
        "║"@
    } else {
        g[x - 1][y - 1]
    }
}

/// Cell `(x, y)` of grid `g` framed, with the north arrow at column `w - 3`
/// of rows 2 and 3.
pub open spec fn decorated_cell(g: Seq<Seq<Seq<char>>>, h: int, w: int, x: int, y: int) -> Seq<
    char,
> {
    if x == 2 && y == w - 3 {
        "⇯"@
    } else if x == 3 && y == w - 3 {
        "N"@
    } else {
        framed_cell(g, h, w, x, y)
    }
}

/// The framed grid with its north arrow.
pub open spec fn decorated_grid(g: Seq<Seq<Seq<char>>>, h: int, w: int) -> Seq<Seq<Seq<char>>> {
    Seq::new((h + 2) as nat, |x: int| Seq::new((w + 2) as nat, |y: int| decorated_cell(g, h, w, x, y)))
}

/// A border row: a corner, `w` horizontal bars, another corner.
fn border_row(w: usize, left: &str, right: &str) -> (r: Vec<String>)
    requires
        w + 2 <= usize::MAX,
    ensures
        r@.len() == w + 2,
        r@[0]@ == left@,
        r@[w + 1]@ == right@,
        forall|j: int| 1 <= j <= w ==> (#[trigger] r@[j])@ == "═"@,
{
    let mut line: Vec<String> = Vec::new();
    line.push(String::from_str(left));
    let mut j: usize = 0;
    while j < w
        invariant
            j <= w,
            line@.len() == j + 1,
            line@[0]@ == left@,
            forall|k: int| 1 <= k < j + 1 ==> (#[trigger] line@[k])@ == "═"@,
        decreases w - j,
    {
        line.push(String::from_str("═"));
        j = j + 1;
    }
    line.push(String::from_str(right));
    line
}

/// Length that the scale bar stands for, in millimetres: ten cells of a map
/// `width` cells wide whose side is `side_mm` long.
pub open spec fn scale_mm(side_mm: int, width: int) -> int {
    side_mm * 10 / width
}

/// Millimetres under which the scale is written in metres.
pub const METRE_SCALE_LIMIT: i64 = 10_000_000;

/// The scale legend: a bar ten cells long, then what it stands for, in metres
/// rounded to the nearest ten under ten kilometres, else in whole kilometres.
pub open spec fn legend_text(side_mm: int, width: int) -> Seq<char> {
    let s = scale_mm(side_mm, width);
    let bar = "├────────┤ "@;
    if s < METRE_SCALE_LIMIT {
        bar + decimal_text((((s + 5_000) / 10_000) * 10) as nat) + " m"@
    } else {
        bar + decimal_text((s / 1_000_000) as nat) + " km"@
    }
}

/// Return the scale legend of a map `width` cells wide whose side is
/// `side_mm` millimetres long.
pub fn scale_legend(side_mm: i64, width: u32) -> (r: String)
    requires
        0 <= side_mm <= 1_000_000_000_000_000,
        width > 0,
    ensures
        r@ == legend_text(side_mm as int, width as int),
{
    let s: i64 = side_mm * 10 / width as i64;
    proof {
        vstd::arithmetic::div_mod::lemma_div_pos_is_pos(side_mm * 10, width as int);
    }
    let mut out = String::from_str("├────────┤ ");
    if s < METRE_SCALE_LIMIT {
        let t = decimal((((s + 5_000) / 10_000) * 10) as u64);
        out.append(t.as_str());
        out.append(" m");
    } else {
        let t = decimal((s / 1_000_000) as u64);
        out.append(t.as_str());
        out.append(" km");
    }
    out
}

} // verus!
