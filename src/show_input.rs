use vstd::prelude::*;

use crate::path_reference::PathReference;

verus! {

/// Where a frame is placed on the screen.
#[derive(Clone, Copy, Debug, PartialEq, Eq, Structural)]
pub enum Alignment {
    Center,
    TopLeft,
}

impl Alignment {
    pub fn default() -> (r: Alignment)
        ensures
            r == Alignment::TopLeft,
    {
        Alignment::TopLeft
    }
}

/// The index of the first line feed of `s` from index `i` on; -1 where none.
pub open spec fn first_newline(s: Seq<char>, i: int) -> int
    decreases s.len() - i,
{
    if i >= s.len() || i < 0 {
        -1
    } else if s[i] == '\n' {
        i
    } else {
        first_newline(s, i + 1)
    }
}

/// A line without the carriage return that ended it.
pub open spec fn strip_cr(p: Seq<char>) -> Seq<char> {
    if p.len() > 0 && p.last() == '\r' {
        p.drop_last()
    } else {
        p
    }
}

/// The lines of a text, as `str::lines` gives them: split at each `\n`, a
/// `\r` just before it dropped, no line after a final `\n`.
pub open spec fn lines_of(s: Seq<char>) -> Seq<Seq<char>>
    decreases s.len(),
{
    if s.len() == 0 {
        Seq::empty()
    } else {
        let k = first_newline(s, 0);
        if k < 0 || k >= s.len() {
            seq![s]
        } else {
            seq![strip_cr(s.subrange(0, k))] + lines_of(s.subrange(k + 1, s.len() as int))
        }
    }
}

proof fn lemma_first_newline(s: Seq<char>, j: int, m: int)
    requires
        0 <= j <= m <= s.len(),
        forall|q: int| j <= q < m ==> s[q] != '\n',
        m == s.len() || s[m] == '\n',
    ensures
        first_newline(s, j) == if m == s.len() { -1 } else { m },
    decreases m - j,
{
    if j < m {
        lemma_first_newline(s, j + 1, m);
    }
}

/// The lines of a text, without their endings.
fn text_lines(s: &str) -> (r: Vec<String>)
    ensures
        r@.len() == lines_of(s@).len(),
        forall|i: int| 0 <= i < r@.len() ==> #[trigger] r@[i]@ == lines_of(s@)[i],
{
    let n = s.unicode_len();
    let mut out: Vec<String> = Vec::new();
    let mut cur = String::new();
    let mut start: usize = 0;
    let mut i: usize = 0;
    assert(s@.subrange(0, n as int) =~= s@);
    assert(out@.map_values(|l: String| l@) =~= Seq::<Seq<char>>::empty());
    while i < n
        invariant
            n == s@.len(),
            start <= i <= n,
            cur@ == s@.subrange(start as int, i as int),
            forall|q: int| start <= q < i ==> s@[q] != '\n',
            out@.map_values(|l: String| l@) + lines_of(s@.subrange(start as int, n as int)) == lines_of(s@),
        decreases n - i,
    {
        let c = s.get_char(i);
        if c == '\n' {
            let ghost rest = s@.subrange(start as int, n as int);
            proof {
                lemma_first_newline(rest, 0, i - start);
                assert forall|q: int| 0 <= q < i - start implies rest[q] != '\n' by {}
                assert(rest.subrange(0, i - start) =~= cur@);
                assert(rest.subrange(i - start + 1, rest.len() as int) =~= s@.subrange(i + 1, n as int));
            }
            let len = cur.unicode_len();
            let line = if len > 0 && cur.get_char(len - 1) == '\r' {
                String::from_str(cur.as_str().substring_char(0, len - 1))
            } else {
                cur
            };
            assert(line@ == strip_cr(s@.subrange(start as int, i as int)));
            let ghost before = out@;
            out.push(line);
            assert(out@.map_values(|l: String| l@) =~= before.map_values(|l: String| l@).push(line@));
            cur = String::new();
            start = i + 1;
            i = i + 1;
            assert(cur@ =~= s@.subrange(start as int, i as int));
        } else {
            push_char(&mut cur, c);
            i = i + 1;
            assert(cur@ =~= s@.subrange(start as int, i as int));
        }
    }
    let ghost rest = s@.subrange(start as int, n as int);
    assert(rest =~= cur@);
    if start < n {
        proof {
            lemma_first_newline(rest, 0, rest.len() as int);
        }
        let ghost before = out@;
        out.push(cur);
        assert(out@.map_values(|l: String| l@) =~= before.map_values(|l: String| l@).push(rest));
    } else {
        assert(lines_of(rest) == Seq::<Seq<char>>::empty());
    }
    let ghost views = out@.map_values(|l: String| l@);
    assert(views =~= lines_of(s@)) by {
        if start < n {
        } else {
            assert(views + Seq::<Seq<char>>::empty() =~= views);
        }
    }
    assert forall|i: int| 0 <= i < out@.len() implies #[trigger] out@[i]@ == lines_of(s@)[i] by {
        assert(views[i] == out@[i]@);
    }
    out
}

/// `n` copies of `c`.
pub open spec fn repeated(c: char, n: nat) -> Seq<char> {
    Seq::new(n, |i: int| c)
}

/// Each line preceded by `n` spaces and followed by a line break.
pub open spec fn indented(lines: Seq<Seq<char>>, n: nat) -> Seq<char>
    decreases lines.len(),
{
    if lines.len() == 0 {
        Seq::empty()
    } else {
        indented(lines.drop_last(), n) + repeated(' ', n) + lines.last() + seq!['\n']
    }
}

/// A frame moved down by `y` blank lines and, where `x` is given, right by
/// `x` columns; the frame unchanged where that leaves nothing.
pub open spec fn positioned(s: Seq<char>, x: Option<usize>, y: Option<usize>) -> Seq<char> {
    let head = match y {
        Some(n) => repeated('\n', n as nat),
        None => Seq::empty(),
    };
    let body = match x {
        Some(n) => indented(lines_of(s), n as nat),
        None => Seq::empty(),
    };
    if (head + body).len() == 0 {
        s
    } else {
        head + body
    }
}

/// Appends `n` copies of the one-character text `c` to `out`.
fn push_repeated(out: &mut String, c: &str, n: usize)
    requires
        c@.len() == 1,
    ensures
        final(out)@ == old(out)@ + repeated(c@[0], n as nat),
{
    let mut k: usize = 0;
    while k < n
        invariant
            c@.len() == 1,
            k <= n,
            out@ == old(out)@ + repeated(c@[0], k as nat),
        decreases n - k,
    {
        out.append(c);
        k = k + 1;
        assert(out@ =~= old(out)@ + repeated(c@[0], k as nat));
    }
}

/// The intensity of an RGBA pixel: the mean of its colour channels, zero
/// where it is transparent, reversed where `invert` is set.
pub open spec fn intensity(p: (u8, u8, u8, u8), invert: bool) -> u8 {
    if p.3 == 0 {
        0
    } else if invert {
        (255 - (p.0 / 3 + p.1 / 3 + p.2 / 3)) as u8
    } else {
        (p.0 / 3 + p.1 / 3 + p.2 / 3) as u8
    }
}

/// The character drawn for an intensity, from a palette of eight.
pub open spec fn shade(i: u8) -> char {
    let k = i / 32;
    if k == 0 {
        ' '
    } else if k == 1 {
        '.'
    } else if k == 2 {
        ','
    } else if k == 3 {
        '-'
    } else if k == 4 {
        '~'
    } else if k == 5 {
        '+'
    } else if k == 6 {
        '='
    } else {
        '@'
    }
}

/// The characters for the first `n` pixels of a row: one for each column
/// that is a multiple of `scale`.
pub open spec fn row_art(row: Seq<(u8, u8, u8, u8)>, n: nat, scale: nat, invert: bool) -> Seq<char>
    decreases n,
{
    if n == 0 {
        Seq::empty()
    } else {
        let rest = row_art(row, (n - 1) as nat, scale, invert);
        if (n - 1) as nat % scale == 0 {
            rest.push(shade(intensity(row[n - 1], invert)))
        } else {
            rest
        }
    }
}

/// The text art of the first `n` rows of an image: one line for each row that
/// is a multiple of twice `scale`.
pub open spec fn frame_art(rows: Seq<Seq<(u8, u8, u8, u8)>>, n: nat, scale: nat, invert: bool) -> Seq<char>
    decreases n,
{
    if n == 0 {
        Seq::empty()
    } else {
        let rest = frame_art(rows, (n - 1) as nat, scale, invert);
        if (n - 1) as nat % (2 * scale) == 0 {
            rest + row_art(rows[n - 1], rows[n - 1].len(), scale, invert) + seq!['\n']
        } else {
            rest
        }
    }
}

fn shade_of(p: (u8, u8, u8, u8), invert: bool) -> (r: char)
    ensures
        r == shade(intensity(p, invert)),
{
    let mean: u8 = p.0 / 3 + p.1 / 3 + p.2 / 3;
    let i: u8 = if p.3 == 0 {
        0
    } else if invert {
        255 - mean
    } else {
        mean
    };
    let k = i / 32;
    if k == 0 {
        ' '
    } else if k == 1 {
        '.'
    } else if k == 2 {
        ','
    } else if k == 3 {
        '-'
    } else if k == 4 {
        '~'
    } else if k == 5 {
        '+'
    } else if k == 6 {
        '='
    } else {
        '@'
    }
}

/// Relies on std's `String::push`: the character appended.
#[verifier::external_body]
fn push_char(s: &mut String, c: char)
    ensures
        final(s)@ == old(s)@.push(c),
{
    s.push(c);
}

/// Text art for an image given as rows of RGBA pixels, sampling every
/// `scale`-th column of every `2 * scale`-th row.
pub fn frame_from_pixels(rows: &Vec<Vec<(u8, u8, u8, u8)>>, scale: u32, invert: bool) -> (r: String)
    requires
        scale > 0,
    ensures
        r@ == frame_art(rows@.map_values(|row: Vec<(u8, u8, u8, u8)>| row@), rows@.len(), scale as nat, invert),
{
    let ghost rs = rows@.map_values(|row: Vec<(u8, u8, u8, u8)>| row@);
    let step_y: u64 = 2 * (scale as u64);
    let mut out = String::new();
    let mut y: usize = 0;
    while y < rows.len()
        invariant
            scale > 0,
            step_y == 2 * scale,
            y <= rows@.len(),
            rs == rows@.map_values(|row: Vec<(u8, u8, u8, u8)>| row@),
            out@ == frame_art(rs, y as nat, scale as nat, invert),
        decreases rows.len() - y,
    {
        if (y as u64) % step_y == 0 {
            let row = &rows[y];
            assert(rs[y as int] == row@);
            let mut x: usize = 0;
            let ghost before = out@;
            while x < row.len()
                invariant
                    scale > 0,
                    x <= row@.len(),
                    out@ == before + row_art(row@, x as nat, scale as nat, invert),
                decreases row.len() - x,
            {
                if (x as u64) % (scale as u64) == 0 {
                    push_char(&mut out, shade_of(row[x], invert));
                }
                x = x + 1;
                assert(out@ =~= before + row_art(row@, x as nat, scale as nat, invert));
            }
            push_char(&mut out, '\n');
        }
        y = y + 1;
        assert(out@ =~= frame_art(rs, y as nat, scale as nat, invert));
    }
    out
}

/// What a `show` displays: text art already made, or an image file to make it from.
pub enum ShowType {
    Dry(String),
    Path { file: PathReference, scale: u32, invert: bool },
}

impl ShowType {
    pub fn default_scale() -> (r: u32)
        ensures
            r == 2,
    {
        2
    }

    pub fn default_invert() -> (r: bool)
        ensures
            r == false,
    {
        false
    }

    pub open spec fn spec_frame(&self) -> Seq<char> {
        match self {
            ShowType::Dry(frame) => frame@,
            ShowType::Path { .. } => Seq::empty(),
        }
    }

    /// The text art; empty while it is still an image file.
    pub fn get_frame(&self) -> (r: String)
        ensures
            r@ == self.spec_frame(),
    {
        match self {
            ShowType::Dry(frame) => frame.clone(),
            ShowType::Path { .. } => String::new(),
        }
    }

    /// Moves the text art down by `y` lines and right by `x` columns.
    pub fn position(&mut self, x: Option<usize>, y: Option<usize>)
        ensures
            match *old(self) {
                ShowType::Dry(s) => *final(self) matches ShowType::Dry(t) && t@ == positioned(s@, x, y),
                ShowType::Path { .. } => *final(self) == *old(self),
            },
    {
        match self {
            ShowType::Dry(s) => {
                let mut r = String::new();
                if let Some(n) = y {
                    proof { reveal_strlit("\n"); }
                    push_repeated(&mut r, "\n", n);
                }
                let ghost head = r@;
                if let Some(n) = x {
                    let lines = text_lines(s.as_str());
                    let ghost ls = lines_of(s@);
                    let mut k: usize = 0;
                    while k < lines.len()
                        invariant
                            k <= lines@.len(),
                            lines@.len() == ls.len(),
                            forall|i: int| 0 <= i < lines@.len() ==> #[trigger] lines@[i]@ == ls[i],
                            r@ == head + indented(ls.subrange(0, k as int), n as nat),
                        decreases lines.len() - k,
                    {
                        proof { reveal_strlit(" "); reveal_strlit("\n"); }
                        push_repeated(&mut r, " ", n);
                        r.append(lines[k].as_str());
                        r.append("\n");
                        assert(ls.subrange(0, k + 1).drop_last() =~= ls.subrange(0, k as int));
                        k = k + 1;
                        assert(r@ =~= head + indented(ls.subrange(0, k as int), n as nat));
                    }
                    assert(ls.subrange(0, lines@.len() as int) =~= ls);
                }
                if r.unicode_len() == 0 {
                    assert(positioned(s@, x, y) == s@);
                } else {
                    *s = r;
                }
            },
            ShowType::Path { .. } => {},
        }
    }
}

/// An image or text art shown for a while.
pub struct ShowInput {
    pub frame: ShowType,
    pub duration: Option<u64>,
    pub x: Option<usize>,
    pub y: Option<usize>,
    pub alignment: Alignment,
}

} // verus!
