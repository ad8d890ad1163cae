//! The `.cube` 3D LUT format: the text is read line by line into a grid of
//! RGB entries, each component an IEEE-754 binary32 bit pattern.
//!
//! Reading a number needs a decimal-to-binary32 conversion, which this
//! crate leaves to its caller: `number_words` lists the words of every line,
//! and `CubeLut::parse_str` takes, for each of them, what `str::parse::<f32>`
//! gave (`None` for a parse error, else the bits of the value).

use vstd::prelude::*;
use crate::bits::{bits_finite, bits_le, bits_nan, is_finite_bits, le_bits, one_bits};
use crate::text::{
    decimal, is_digit, law_decimal_reads_back, line_ranges, lines, parse_usize, push_decimal,
    range_is, string_of, to_chars, usize_text, word_ranges, words,
};

verus! {

/// An RGB entry: three binary32 bit patterns.
pub type Rgb = (u32, u32, u32);

/// Why a `.cube` text was refused.
#[derive(Clone, Copy, PartialEq, Eq, Debug)]
pub enum CubeError {
    /// A `LUT_3D_SIZE` line without a value.
    MissingSizeValue { line: usize },
    /// A `LUT_3D_SIZE` value that is not an unsigned integer.
    InvalidSize { line: usize },
    /// A `LUT_3D_SIZE` outside `2..=256`.
    SizeOutOfRange { size: usize },
    /// A `LUT_1D_SIZE` line: 1D LUTs are not read.
    OneDimensional,
    /// A triplet with fewer than three numbers.
    MissingComponent { line: usize },
    /// A triplet component that is not a number.
    InvalidNumber { line: usize },
    /// A table entry with an infinite or NaN component.
    NonFiniteValue { line: usize },
    /// No `LUT_3D_SIZE` line.
    MissingSize,
    /// `size` cubed does not fit in a `usize`.
    SizeTooLarge,
    /// The table does not hold `size` cubed entries.
    EntryCount { expected: usize, found: usize },
    /// Some `DOMAIN_MAX` component is not greater than its `DOMAIN_MIN`.
    EmptyDomain,
}

/// The state of a reading after some lines.
pub struct CubeDraft {
    pub size: Option<usize>,
    pub domain_min: Rgb,
    pub domain_max: Rgb,
    pub values: Seq<Rgb>,
}

/// A complete LUT: its size, input domain and table, red fastest.
pub struct CubeModel {
    pub size: usize,
    pub domain_min: Rgb,
    pub domain_max: Rgb,
    pub values: Seq<Rgb>,
}

/// The state before the first line: no size, domain from 0.0 to 1.0.
pub open spec fn initial_draft() -> CubeDraft {
    CubeDraft {
        size: None,
        domain_min: (0, 0, 0),
        domain_max: (one_bits(), one_bits(), one_bits()),
        values: seq![],
    }
}

/// What the caller's number parse gave for word `w` of line `l` (`None`
/// where the table holds nothing).
pub open spec fn number_at(numbers: Seq<Vec<Option<u32>>>, l: int, w: int) -> Option<u32> {
    if 0 <= l < numbers.len() && 0 <= w < numbers[l]@.len() {
        numbers[l]@[w]
    } else {
        None
    }
}

/// Component `i` of a triplet on a line with `count` words.
pub open spec fn component(
    numbers: Seq<Vec<Option<u32>>>,
    l: int,
    count: nat,
    i: int,
    line: usize,
) -> Result<u32, CubeError> {
    if i >= count {
        Err(CubeError::MissingComponent { line })
    } else {
        match number_at(numbers, l, i) {
            Some(b) => Ok(b),
            None => Err(CubeError::InvalidNumber { line }),
        }
    }
}

/// The three numbers from word `first` on, read left to right.
pub open spec fn triplet(
    numbers: Seq<Vec<Option<u32>>>,
    l: int,
    count: nat,
    first: int,
    line: usize,
) -> Result<Rgb, CubeError> {
    match component(numbers, l, count, first, line) {
        Err(e) => Err(e),
        Ok(x) => match component(numbers, l, count, first + 1, line) {
            Err(e) => Err(e),
            Ok(y) => match component(numbers, l, count, first + 2, line) {
                Err(e) => Err(e),
                Ok(z) => Ok((x, y, z)),
            },
        },
    }
}

pub open spec fn rgb_finite(v: Rgb) -> bool {
    bits_finite(v.0) && bits_finite(v.1) && bits_finite(v.2)
}

/// Reading line `l` (0-based) of the text, whose words are `ws`.
pub open spec fn read_line(
    d: CubeDraft,
    ws: Seq<Seq<char>>,
    numbers: Seq<Vec<Option<u32>>>,
    l: int,
) -> Result<CubeDraft, CubeError> {
    let line = (l + 1) as usize;
    if ws.len() == 0 || ws[0][0] == '#' {
        Ok(d)
    } else if ws[0] == "TITLE"@ {
        Ok(d)
    } else if ws[0] == "LUT_3D_SIZE"@ {
        if ws.len() < 2 {
            Err(CubeError::MissingSizeValue { line })
        } else {
            match usize_text(ws[1]) {
                None => Err(CubeError::InvalidSize { line }),
                Some(n) => if 2 <= n <= 256 {
                    Ok(CubeDraft { size: Some(n), ..d })
                } else {
                    Err(CubeError::SizeOutOfRange { size: n })
                },
            }
        }
    } else if ws[0] == "LUT_1D_SIZE"@ {
        Err(CubeError::OneDimensional)
    } else if ws[0] == "DOMAIN_MIN"@ {
        match triplet(numbers, l, ws.len(), 1, line) {
            Err(e) => Err(e),
            Ok(t) => Ok(CubeDraft { domain_min: t, ..d }),
        }
    } else if ws[0] == "DOMAIN_MAX"@ {
        match triplet(numbers, l, ws.len(), 1, line) {
            Err(e) => Err(e),
            Ok(t) => Ok(CubeDraft { domain_max: t, ..d }),
        }
    } else if number_at(numbers, l, 0) is None {
        Ok(d)
    } else {
        match triplet(numbers, l, ws.len(), 0, line) {
            Err(e) => Err(e),
            Ok(t) => if rgb_finite(t) {
                Ok(CubeDraft { values: d.values.push(t), ..d })
            } else {
                Err(CubeError::NonFiniteValue { line })
            },
        }
    }
}

/// Reading the first `n` of the lines `ls`, stopping at the first refusal.
pub open spec fn read_lines(
    ls: Seq<Seq<char>>,
    numbers: Seq<Vec<Option<u32>>>,
    n: nat,
) -> Result<CubeDraft, CubeError>
    decreases n,
{
    if n == 0 {
        Ok(initial_draft())
    } else {
        match read_lines(ls, numbers, (n - 1) as nat) {
            Err(e) => Err(e),
            Ok(d) => read_line(d, words(ls[n - 1]), numbers, n - 1),
        }
    }
}

/// The checks made once every line is read.
pub open spec fn finish(d: CubeDraft) -> Result<CubeModel, CubeError> {
    match d.size {
        None => Err(CubeError::MissingSize),
        Some(n) => if n * n * n > usize::MAX {
            Err(CubeError::SizeTooLarge)
        } else if d.values.len() != n * n * n {
            Err(
                CubeError::EntryCount {
                    expected: (n * n * n) as usize,
                    found: d.values.len() as usize,
                },
            )
        } else if bits_le(d.domain_max.0, d.domain_min.0) || bits_le(
            d.domain_max.1,
            d.domain_min.1,
        ) || bits_le(d.domain_max.2, d.domain_min.2) {
            Err(CubeError::EmptyDomain)
        } else {
            Ok(
                CubeModel {
                    size: n,
                    domain_min: d.domain_min,
                    domain_max: d.domain_max,
                    values: d.values,
                },
            )
        },
    }
}

/// What reading the `.cube` text `text` gives, with `numbers` as the number
/// parses of its words.
pub open spec fn parse_cube(text: Seq<char>, numbers: Seq<Vec<Option<u32>>>) -> Result<
    CubeModel,
    CubeError,
> {
    match read_lines(lines(text), numbers, lines(text).len()) {
        Err(e) => Err(e),
        Ok(d) => finish(d),
    }
}

/// The words of every line of a `.cube` text; `parse_str` expects the
/// number parse of word `w` of line `l` at `numbers[l][w]`.
pub fn number_words(text: &str) -> (r: Vec<Vec<String>>)
    ensures
        r@.len() == lines(text@).len(),
        forall|l: int|
            0 <= l < r@.len() ==> {
                &&& (#[trigger] r@[l])@.len() == words(lines(text@)[l]).len()
                &&& forall|w: int|
                    0 <= w < r@[l]@.len() ==> (#[trigger] r@[l]@[w])@ == words(lines(text@)[l])[w]
            },
{
    let chars = to_chars(text);
    let ls = line_ranges(&chars);
    let mut out: Vec<Vec<String>> = Vec::new();
    let mut k: usize = 0;
    while k < ls.len()
        invariant
            chars@ == text@,
            ls@.len() == lines(chars@).len(),
            forall|j: int|
                0 <= j < ls@.len() ==> {
                    &&& (#[trigger] ls@[j]).0 <= ls@[j].1 <= chars.len()
                    &&& chars@.subrange(ls@[j].0 as int, ls@[j].1 as int) == lines(chars@)[j]
                },
            k <= ls@.len(),
            out@.len() == k,
            forall|l: int|
                0 <= l < k ==> {
                    &&& (#[trigger] out@[l])@.len() == words(lines(chars@)[l]).len()
                    &&& forall|w: int|
                        0 <= w < out@[l]@.len() ==> (#[trigger] out@[l]@[w])@ == words(
                            lines(chars@)[l],
                        )[w]
                },
        decreases ls.len() - k,
    {
        let (a, b) = ls[k];
        assert(ls@[k as int] == (a, b));
        let ws = word_ranges(&chars, a, b);
        let mut row: Vec<String> = Vec::new();
        let mut w: usize = 0;
        while w < ws.len()
            invariant
                a <= b <= chars.len(),
                ws@.len() == words(chars@.subrange(a as int, b as int)).len(),
                forall|m: int|
                    0 <= m < ws@.len() ==> {
                        &&& a <= (#[trigger] ws@[m]).0 < ws@[m].1 <= b
                        &&& chars@.subrange(ws@[m].0 as int, ws@[m].1 as int) == words(
                            chars@.subrange(a as int, b as int),
                        )[m]
                    },
                w <= ws@.len(),
                row@.len() == w,
                forall|m: int|
                    0 <= m < w ==> (#[trigger] row@[m])@ == words(
                        chars@.subrange(a as int, b as int),
                    )[m],
            decreases ws.len() - w,
        {
            let (x, y) = ws[w];
            assert(ws@[w as int] == (x, y));
            row.push(string_of(&chars, x, y));
            w = w + 1;
        }
        out.push(row);
        k = k + 1;
    }
    out
}


/// A LUT read from a `.cube` text: `size` entries per axis (2 to 256), the
/// input domain, and `size` cubed RGB entries with red changing fastest.
pub struct CubeLut {
    size: usize,
    domain_min: Rgb,
    domain_max: Rgb,
    values: Vec<Rgb>,
}

/// Where the entry for grid point (`red`, `green`, `blue`) sits in the table.
pub open spec fn cell_index(size: int, red: int, green: int, blue: int) -> int {
    red + green * size + blue * size * size
}

/// The next grid index above `i`, held at the last one.
pub open spec fn upper_index(i: int, size: int) -> int {
    if i + 1 < size - 1 {
        i + 1
    } else {
        size - 1
    }
}

impl View for CubeLut {
    type V = CubeModel;

    closed spec fn view(&self) -> CubeModel {
        CubeModel {
            size: self.size,
            domain_min: self.domain_min,
            domain_max: self.domain_max,
            values: self.values@,
        }
    }
}

proof fn lemma_cell_in_table(n: int, r: int, g: int, b: int)
    requires
        0 <= r < n,
        0 <= g < n,
        0 <= b < n,
    ensures
        0 <= cell_index(n, r, g, b) < n * n * n,
{
    assert(0 <= g * n <= (n - 1) * n) by (nonlinear_arith)
        requires
            0 <= g < n,
    ;
    assert(0 <= b * n * n <= (n - 1) * n * n) by (nonlinear_arith)
        requires
            0 <= b < n,
    ;
    assert((n - 1) + (n - 1) * n + (n - 1) * n * n == n * n * n - 1) by (nonlinear_arith);
}

proof fn lemma_cube_bound(n: int)
    requires
        0 <= n <= 256,
    ensures
        n * n * n <= 256 * 256 * 256,
        n * n <= 256 * 256,
{
    assert(n * n <= 256 * 256) by (nonlinear_arith)
        requires
            0 <= n <= 256,
    ;
    assert(n * n * n <= 256 * 256 * 256) by (nonlinear_arith)
        requires
            0 <= n <= 256,
            n * n <= 256 * 256,
    ;
}

impl CubeLut {
    #[verifier::type_invariant]
    spec fn well_formed(self) -> bool {
        &&& 2 <= self.size <= 256
        &&& self.values@.len() == self.size * self.size * self.size
    }

    /// Entries per axis.
    pub fn size(&self) -> (r: usize)
        ensures
            r == self@.size,
            2 <= r <= 256,
            self@.values.len() == r * r * r,
    {
        proof {
            use_type_invariant(self);
        }
        self.size
    }

    /// The lower end of the input domain.
    pub fn domain_min(&self) -> (r: Rgb)
        ensures
            r == self@.domain_min,
    {
        self.domain_min
    }

    /// The upper end of the input domain.
    pub fn domain_max(&self) -> (r: Rgb)
        ensures
            r == self@.domain_max,
    {
        self.domain_max
    }

    /// The entry at grid point (`red`, `green`, `blue`).
    pub fn at(&self, red: usize, green: usize, blue: usize) -> (r: Rgb)
        requires
            red < self@.size,
            green < self@.size,
            blue < self@.size,
        ensures
            r == self@.values[cell_index(self@.size as int, red as int, green as int, blue as int)],
    {
        proof {
            use_type_invariant(self);
            lemma_cell_in_table(self.size as int, red as int, green as int, blue as int);
            lemma_cube_bound(self.size as int);
            assert(green * self.size <= 256 * 256) by (nonlinear_arith)
                requires
                    green < self.size <= 256,
            ;
            assert(blue * self.size <= 256 * 256) by (nonlinear_arith)
                requires
                    blue < self.size <= 256,
            ;
            assert(blue * self.size * self.size <= 256 * 256 * 256) by (nonlinear_arith)
                requires
                    blue < self.size <= 256,
            ;
        }
        let n = self.size;
        self.values[red + green * n + blue * n * n]
    }

    /// The eight entries around a sample point whose grid cell starts at
    /// `lower`: each axis takes `lower` or the next index (held at the last),
    /// in the order (0,0,0), (1,0,0), (0,1,0), (1,1,0), (0,0,1), (1,0,1),
    /// (0,1,1), (1,1,1), red first.
    pub fn corners(&self, lower: (usize, usize, usize)) -> (r: [Rgb; 8])
        requires
            lower.0 < self@.size,
            lower.1 < self@.size,
            lower.2 < self@.size,
        ensures
            ({
                let n = self@.size as int;
                let (r0, g0, b0) = (lower.0 as int, lower.1 as int, lower.2 as int);
                let (r1, g1, b1) = (upper_index(r0, n), upper_index(g0, n), upper_index(b0, n));
                let t = self@.values;
                &&& r@[0] == t[cell_index(n, r0, g0, b0)]
                &&& r@[1] == t[cell_index(n, r1, g0, b0)]
                &&& r@[2] == t[cell_index(n, r0, g1, b0)]
                &&& r@[3] == t[cell_index(n, r1, g1, b0)]
                &&& r@[4] == t[cell_index(n, r0, g0, b1)]
                &&& r@[5] == t[cell_index(n, r1, g0, b1)]
                &&& r@[6] == t[cell_index(n, r0, g1, b1)]
                &&& r@[7] == t[cell_index(n, r1, g1, b1)]
            }),
    {
        let last = self.size() - 1;
        let up = |i: usize| -> (u: usize)
            requires
                i <= last,
            ensures
                u == upper_index(i as int, last + 1),
            {
                if i + 1 < last {
                    i + 1
                } else {
                    last
                }
            };
        let (r0, g0, b0) = lower;
        let r1 = up(r0);
        let g1 = up(g0);
        let b1 = up(b0);
        [
            self.at(r0, g0, b0),
            self.at(r1, g0, b0),
            self.at(r0, g1, b0),
            self.at(r1, g1, b0),
            self.at(r0, g0, b1),
            self.at(r1, g0, b1),
            self.at(r0, g1, b1),
            self.at(r1, g1, b1),
        ]
    }
}


/// The executable state of a reading.
struct Reading {
    size: Option<usize>,
    domain_min: Rgb,
    domain_max: Rgb,
    values: Vec<Rgb>,
}

impl Reading {
    spec fn draft(&self) -> CubeDraft {
        CubeDraft {
            size: self.size,
            domain_min: self.domain_min,
            domain_max: self.domain_max,
            values: self.values@,
        }
    }

    spec fn size_ok(&self) -> bool {
        self.size matches Some(n) ==> 2 <= n <= 256
    }
}

fn number_in(numbers: &Vec<Vec<Option<u32>>>, l: usize, w: usize) -> (r: Option<u32>)
    ensures
        r == number_at(numbers@, l as int, w as int),
{
    if l < numbers.len() && w < numbers[l].len() {
        numbers[l][w]
    } else {
        None
    }
}

fn read_component(
    numbers: &Vec<Vec<Option<u32>>>,
    l: usize,
    count: usize,
    i: usize,
    line: usize,
) -> (r: Result<u32, CubeError>)
    ensures
        r == component(numbers@, l as int, count as nat, i as int, line),
{
    if i >= count {
        Err(CubeError::MissingComponent { line })
    } else {
        match number_in(numbers, l, i) {
            Some(b) => Ok(b),
            None => Err(CubeError::InvalidNumber { line }),
        }
    }
}

fn read_triplet(
    numbers: &Vec<Vec<Option<u32>>>,
    l: usize,
    count: usize,
    first: usize,
    line: usize,
) -> (r: Result<Rgb, CubeError>)
    requires
        first <= 1,
    ensures
        r == triplet(numbers@, l as int, count as nat, first as int, line),
{
    let x = match read_component(numbers, l, count, first, line) {
        Ok(x) => x,
        Err(e) => return Err(e),
    };
    let y = match read_component(numbers, l, count, first + 1, line) {
        Ok(y) => y,
        Err(e) => return Err(e),
    };
    let z = match read_component(numbers, l, count, first + 2, line) {
        Ok(z) => z,
        Err(e) => return Err(e),
    };
    Ok((x, y, z))
}

/// Reads line `l`, whose text is `chars[a..b]`, into `reading`.
fn read_one_line(
    reading: &mut Reading,
    chars: &Vec<char>,
    a: usize,
    b: usize,
    numbers: &Vec<Vec<Option<u32>>>,
    l: usize,
) -> (r: Result<(), CubeError>)
    requires
        a <= b <= chars.len(),
        l < usize::MAX,
        old(reading).size_ok(),
    ensures
        final(reading).size_ok(),
        match r {
            Ok(()) => read_line(
                old(reading).draft(),
                words(chars@.subrange(a as int, b as int)),
                numbers@,
                l as int,
            ) == Ok::<CubeDraft, CubeError>(final(reading).draft()),
            Err(e) => read_line(
                old(reading).draft(),
                words(chars@.subrange(a as int, b as int)),
                numbers@,
                l as int,
            ) == Err::<CubeDraft, CubeError>(e),
        },
{
    let ghost ws = words(chars@.subrange(a as int, b as int));
    let line = l + 1;
    let rs = word_ranges(chars, a, b);
    if rs.len() == 0 {
        return Ok(());
    }
    let (x, y) = rs[0];
    assert(rs@[0] == (x, y));
    assert(ws[0] == chars@.subrange(x as int, y as int));
    assert(ws[0][0] == chars@[x as int]);
    if chars[x] == '#' {
        return Ok(());
    }
    if range_is(chars, x, y, "TITLE") {
        return Ok(());
    }
    if range_is(chars, x, y, "LUT_3D_SIZE") {
        if rs.len() < 2 {
            return Err(CubeError::MissingSizeValue { line });
        }
        let (x1, y1) = rs[1];
        assert(rs@[1] == (x1, y1));
        match parse_usize(chars, x1, y1) {
            None => {
                return Err(CubeError::InvalidSize { line });
            },
            Some(n) => {
                if 2 <= n && n <= 256 {
                    reading.size = Some(n);
                    return Ok(());
                } else {
                    return Err(CubeError::SizeOutOfRange { size: n });
                }
            },
        }
    }
    if range_is(chars, x, y, "LUT_1D_SIZE") {
        return Err(CubeError::OneDimensional);
    }
    if range_is(chars, x, y, "DOMAIN_MIN") {
        match read_triplet(numbers, l, rs.len(), 1, line) {
            Ok(t) => {
                reading.domain_min = t;
                return Ok(());
            },
            Err(e) => {
                return Err(e);
            },
        }
    }
    if range_is(chars, x, y, "DOMAIN_MAX") {
        match read_triplet(numbers, l, rs.len(), 1, line) {
            Ok(t) => {
                reading.domain_max = t;
                return Ok(());
            },
            Err(e) => {
                return Err(e);
            },
        }
    }
    if number_in(numbers, l, 0).is_none() {
        return Ok(());
    }
    match read_triplet(numbers, l, rs.len(), 0, line) {
        Ok(t) => {
            if is_finite_bits(t.0) && is_finite_bits(t.1) && is_finite_bits(t.2) {
                reading.values.push(t);
                Ok(())
            } else {
                Err(CubeError::NonFiniteValue { line })
            }
        },
        Err(e) => Err(e),
    }
}

/// Reading stops at the first refused line: once the first `n` lines give
/// a refusal, reading more lines gives that same refusal.
pub proof fn law_first_refusal_wins(
    ls: Seq<Seq<char>>,
    numbers: Seq<Vec<Option<u32>>>,
    n: nat,
    m: nat,
    e: CubeError,
)
    requires
        n <= m,
        read_lines(ls, numbers, n) == Err::<CubeDraft, CubeError>(e),
    ensures
        read_lines(ls, numbers, m) == Err::<CubeDraft, CubeError>(e),
    decreases m,
{
    if m > n {
        law_first_refusal_wins(ls, numbers, n, (m - 1) as nat, e);
    }
}

proof fn lemma_cube_overflow(n: int)
    requires
        n >= 0,
        n * n > usize::MAX,
    ensures
        n * n * n > usize::MAX,
{
    assert(n * n * n >= n * n) by (nonlinear_arith)
        requires
            n >= 1,
    ;
}

impl CubeLut {
    /// Reads a `.cube` text. `numbers[l][w]` is what `str::parse::<f32>`
    /// gave for word `w` of line `l` (the words `number_words` lists), as
    /// the bits of the value, or `None` for a parse error.
    pub fn parse_str(text: &str, numbers: &Vec<Vec<Option<u32>>>) -> (r: Result<CubeLut, CubeError>)
        ensures
            match r {
                Ok(lut) => parse_cube(text@, numbers@) == Ok::<CubeModel, CubeError>(lut@),
                Err(e) => parse_cube(text@, numbers@) == Err::<CubeModel, CubeError>(e),
            },
    {
        let chars = to_chars(text);
        let ls = line_ranges(&chars);
        let ghost all = lines(chars@);
        let mut reading = Reading {
            size: None,
            domain_min: (0, 0, 0),
            domain_max: (0x3F80_0000, 0x3F80_0000, 0x3F80_0000),
            values: Vec::new(),
        };
        let mut k: usize = 0;
        while k < ls.len()
            invariant
                chars@ == text@,
                all == lines(chars@),
                ls@.len() == all.len(),
                forall|j: int|
                    0 <= j < ls@.len() ==> {
                        &&& (#[trigger] ls@[j]).0 <= ls@[j].1 <= chars.len()
                        &&& chars@.subrange(ls@[j].0 as int, ls@[j].1 as int) == all[j]
                    },
                k <= ls@.len(),
                reading.size_ok(),
                read_lines(all, numbers@, k as nat) == Ok::<CubeDraft, CubeError>(reading.draft()),
            decreases ls.len() - k,
        {
            let (a, b) = ls[k];
            assert(ls@[k as int] == (a, b));
            match read_one_line(&mut reading, &chars, a, b, numbers, k) {
                Ok(()) => {},
                Err(e) => {
                    proof {
                        law_first_refusal_wins(all, numbers@, (k + 1) as nat, all.len(), e);
                    }
                    return Err(e);
                },
            }
            k = k + 1;
        }
        let n = match reading.size {
            Some(n) => n,
            None => {
                return Err(CubeError::MissingSize);
            },
        };
        proof {
            lemma_cube_bound(n as int);
        }
        let expected = match n.checked_mul(n) {
            Some(sq) => match sq.checked_mul(n) {
                Some(c) => c,
                None => {
                    return Err(CubeError::SizeTooLarge);
                },
            },
            None => {
                proof {
                    lemma_cube_overflow(n as int);
                }
                return Err(CubeError::SizeTooLarge);
            },
        };
        if reading.values.len() != expected {
            return Err(CubeError::EntryCount { expected, found: reading.values.len() });
        }
        let lo = reading.domain_min;
        let hi = reading.domain_max;
        if le_bits(hi.0, lo.0) || le_bits(hi.1, lo.1) || le_bits(hi.2, lo.2) {
            return Err(CubeError::EmptyDomain);
        }
        Ok(CubeLut { size: n, domain_min: lo, domain_max: hi, values: reading.values })
    }
}


/// The text that tells a user why a `.cube` text was refused.
pub open spec fn cube_error_text(e: CubeError) -> Seq<char> {
    match e {
        CubeError::MissingSizeValue { line } => "Missing LUT_3D_SIZE value on line "@ + decimal(
            line as nat,
        ),
        CubeError::InvalidSize { line } => "Invalid LUT_3D_SIZE on line "@ + decimal(line as nat),
        CubeError::SizeOutOfRange { size } => "LUT_3D_SIZE must be between 2 and 256, got "@
            + decimal(size as nat),
        CubeError::OneDimensional => "1D .cube LUTs are not supported yet"@,
        CubeError::MissingComponent { line } => "Missing numeric component on line "@ + decimal(
            line as nat,
        ),
        CubeError::InvalidNumber { line } => "Invalid number on line "@ + decimal(line as nat),
        CubeError::NonFiniteValue { line } => "Non-finite LUT value on line "@ + decimal(
            line as nat,
        ),
        CubeError::MissingSize => "Missing LUT_3D_SIZE"@,
        CubeError::SizeTooLarge => "LUT size is too large"@,
        CubeError::EntryCount { expected, found } => "Expected "@ + decimal(expected as nat)
            + " LUT entries, found "@ + decimal(found as nat),
        CubeError::EmptyDomain => "Each DOMAIN_MAX component must be greater than DOMAIN_MIN"@,
    }
}

/// `text` followed by the decimal rendering of `n`.
pub fn text_and_number(text: &str, n: usize) -> (r: String)
    ensures
        r@ == text@ + decimal(n as nat),
{
    let mut s = text.to_owned();
    push_decimal(&mut s, n as u64);
    s
}

impl CubeError {
    /// The text that tells a user why the LUT was refused.
    pub fn message(&self) -> (r: String)
        ensures
            r@ == cube_error_text(*self),
    {
        match *self {
            CubeError::MissingSizeValue { line } => text_and_number(
                "Missing LUT_3D_SIZE value on line ",
                line,
            ),
            CubeError::InvalidSize { line } => text_and_number("Invalid LUT_3D_SIZE on line ", line),
            CubeError::SizeOutOfRange { size } => text_and_number(
                "LUT_3D_SIZE must be between 2 and 256, got ",
                size,
            ),
            CubeError::OneDimensional => "1D .cube LUTs are not supported yet".to_owned(),
            CubeError::MissingComponent { line } => text_and_number(
                "Missing numeric component on line ",
                line,
            ),
            CubeError::InvalidNumber { line } => text_and_number("Invalid number on line ", line),
            CubeError::NonFiniteValue { line } => text_and_number(
                "Non-finite LUT value on line ",
                line,
            ),
            CubeError::MissingSize => "Missing LUT_3D_SIZE".to_owned(),
            CubeError::SizeTooLarge => "LUT size is too large".to_owned(),
            CubeError::EntryCount { expected, found } => {
                let mut s = text_and_number("Expected ", expected);
                s.append(" LUT entries, found ");
                push_decimal(&mut s, found as u64);
                s
            },
            CubeError::EmptyDomain => "Each DOMAIN_MAX component must be greater than DOMAIN_MIN".to_owned(),
        }
    }
}


proof fn lemma_draft_sound(ls: Seq<Seq<char>>, numbers: Seq<Vec<Option<u32>>>, n: nat)
    ensures
        read_lines(ls, numbers, n) matches Ok(d) ==> {
            &&& forall|i: int| 0 <= i < d.values.len() ==> rgb_finite(#[trigger] d.values[i])
            &&& d.size matches Some(s) ==> 2 <= s <= 256
        },
    decreases n,
{
    if n > 0 {
        lemma_draft_sound(ls, numbers, (n - 1) as nat);
        if let Ok(d) = read_lines(ls, numbers, (n - 1) as nat) {
            let ws = words(ls[n - 1]);
            if let Ok(d2) = read_line(d, ws, numbers, n - 1) {
                assert forall|i: int| 0 <= i < d2.values.len() implies rgb_finite(
                    #[trigger] d2.values[i],
                ) by {
                    if i < d.values.len() {
                        assert(d2.values[i] == d.values[i]);
                    }
                }
            }
        }
    }
}

/// A LUT that reading accepts has 2 to 256 entries per axis, exactly `size`
/// cubed table entries, only finite components in its table, and a domain
/// whose upper end lies above its lower end on every channel.
pub proof fn law_accepted_lut_is_sound(text: Seq<char>, numbers: Seq<Vec<Option<u32>>>)
    ensures
        parse_cube(text, numbers) matches Ok(m) ==> {
            &&& 2 <= m.size <= 256
            &&& m.values.len() == m.size * m.size * m.size
            &&& forall|i: int| 0 <= i < m.values.len() ==> rgb_finite(#[trigger] m.values[i])
            &&& !bits_le(m.domain_max.0, m.domain_min.0)
            &&& !bits_le(m.domain_max.1, m.domain_min.1)
            &&& !bits_le(m.domain_max.2, m.domain_min.2)
        },
{
    lemma_draft_sound(lines(text), numbers, lines(text).len());
}


/// A line that reading passes over, whatever came before it: no words, a
/// comment, a title, or a first word that is no keyword and whose number
/// parse failed.
pub open spec fn ignorable_line(ws: Seq<Seq<char>>, numbers: Seq<Vec<Option<u32>>>, l: int) -> bool {
    ||| ws.len() == 0
    ||| ws[0][0] == '#'
    ||| ws[0] == "TITLE"@
    ||| {
        &&& ws[0] != "LUT_3D_SIZE"@
        &&& ws[0] != "LUT_1D_SIZE"@
        &&& ws[0] != "DOMAIN_MIN"@
        &&& ws[0] != "DOMAIN_MAX"@
        &&& number_at(numbers, l, 0) is None
    }
}

/// `ls2` is `ls` with ignorable lines put in between: `at[j]` counts the
/// lines of `ls` that come before line `j` of `ls2`. Each line of `ls2` is
/// either ignorable (and `at` stays), or has the words and number parses of
/// the next line of `ls` (and `at` moves on).
pub open spec fn inserts_ignorable_lines(
    ls: Seq<Seq<char>>,
    numbers: Seq<Vec<Option<u32>>>,
    ls2: Seq<Seq<char>>,
    numbers2: Seq<Vec<Option<u32>>>,
    at: Seq<int>,
) -> bool {
    &&& at.len() == ls2.len() + 1
    &&& at[0] == 0
    &&& at[ls2.len() as int] == ls.len()
    &&& forall|j: int|
        #![trigger ls2[j]]
        0 <= j < ls2.len() ==> {
            ||| at[j + 1] == at[j] && ignorable_line(words(ls2[j]), numbers2, j)
            ||| {
                &&& at[j + 1] == at[j] + 1
                &&& 0 <= at[j] < ls.len()
                &&& words(ls2[j]) == words(ls[at[j]])
                &&& forall|w: int|
                    #[trigger] number_at(numbers2, j, w) == number_at(numbers, at[j], w)
            }
        }
}

proof fn lemma_ignorable_line_keeps_draft(
    d: CubeDraft,
    ws: Seq<Seq<char>>,
    numbers: Seq<Vec<Option<u32>>>,
    l: int,
)
    requires
        ignorable_line(ws, numbers, l),
    ensures
        read_line(d, ws, numbers, l) == Ok::<CubeDraft, CubeError>(d),
{
}

proof fn lemma_same_line_reads_alike(
    d: CubeDraft,
    ws: Seq<Seq<char>>,
    numbers: Seq<Vec<Option<u32>>>,
    l: int,
    numbers2: Seq<Vec<Option<u32>>>,
    l2: int,
)
    requires
        forall|w: int| #[trigger] number_at(numbers2, l2, w) == number_at(numbers, l, w),
    ensures
        (read_line(d, ws, numbers, l) is Ok) == (read_line(d, ws, numbers2, l2) is Ok),
        read_line(d, ws, numbers, l) matches Ok(x) ==> read_line(d, ws, numbers2, l2)
            == Ok::<CubeDraft, CubeError>(x),
{
    assert(number_at(numbers2, l2, 0) == number_at(numbers, l, 0));
    assert(number_at(numbers2, l2, 1) == number_at(numbers, l, 1));
    assert(number_at(numbers2, l2, 2) == number_at(numbers, l, 2));
    assert(number_at(numbers2, l2, 3) == number_at(numbers, l, 3));
}

proof fn lemma_inserted_lines_read_alike(
    ls: Seq<Seq<char>>,
    numbers: Seq<Vec<Option<u32>>>,
    ls2: Seq<Seq<char>>,
    numbers2: Seq<Vec<Option<u32>>>,
    at: Seq<int>,
    n: nat,
)
    requires
        inserts_ignorable_lines(ls, numbers, ls2, numbers2, at),
        n <= ls2.len(),
    ensures
        0 <= at[n as int],
        (read_lines(ls2, numbers2, n) is Ok) == (read_lines(ls, numbers, at[n as int] as nat) is Ok),
        read_lines(ls, numbers, at[n as int] as nat) matches Ok(d) ==> read_lines(ls2, numbers2, n)
            == Ok::<CubeDraft, CubeError>(d),
    decreases n,
{
    if n > 0 {
        let j = n - 1;
        lemma_inserted_lines_read_alike(ls, numbers, ls2, numbers2, at, j as nat);
        assert(0 <= j < ls2.len());
        let _ = ls2[j];
        let k = at[j];
        if at[j + 1] == at[j] && ignorable_line(words(ls2[j]), numbers2, j) {
            if let Ok(d) = read_lines(ls2, numbers2, j as nat) {
                lemma_ignorable_line_keeps_draft(d, words(ls2[j]), numbers2, j);
            }
        } else {
            assert(at[j + 1] == k + 1 && 0 <= k < ls.len());
            assert(read_lines(ls, numbers, (k + 1) as nat) == match read_lines(ls, numbers, k as nat) {
                Err(e) => Err(e),
                Ok(d) => read_line(d, words(ls[k]), numbers, k),
            });
            if let Ok(d) = read_lines(ls, numbers, k as nat) {
                lemma_same_line_reads_alike(d, words(ls[k]), numbers, k, numbers2, j);
            }
        }
    }
}

/// Putting lines that reading passes over into a `.cube` text (blank lines,
/// comments, titles, lines whose first word is neither a keyword nor a
/// number), and padding lines with white space (which leaves their words,
/// see `law_words_ignore_outer_space`), changes neither whether the text is
/// accepted nor the LUT it gives. `at` places the lines of `text` among
/// those of `text2`.
pub proof fn law_ignorable_lines_change_nothing(
    text: Seq<char>,
    numbers: Seq<Vec<Option<u32>>>,
    text2: Seq<char>,
    numbers2: Seq<Vec<Option<u32>>>,
    at: Seq<int>,
)
    requires
        inserts_ignorable_lines(lines(text), numbers, lines(text2), numbers2, at),
    ensures
        (parse_cube(text2, numbers2) is Ok) == (parse_cube(text, numbers) is Ok),
        parse_cube(text, numbers) matches Ok(m) ==> parse_cube(text2, numbers2) == Ok::<
            CubeModel,
            CubeError,
        >(m),
{
    lemma_inserted_lines_read_alike(
        lines(text),
        numbers,
        lines(text2),
        numbers2,
        at,
        lines(text2).len(),
    );
}


/// A character that can stand in the text of a number.
pub open spec fn number_char(c: char) -> bool {
    is_digit(c) || c == '.' || c == '-' || c == '+' || c == 'e' || c == 'E'
}

/// A word made only of number characters.
pub open spec fn number_word(w: Seq<char>) -> bool {
    w.len() > 0 && forall|i: int| 0 <= i < w.len() ==> number_char(#[trigger] w[i])
}

proof fn lemma_number_word_is_no_keyword(w: Seq<char>)
    requires
        number_word(w),
    ensures
        w[0] != '#',
        w != "TITLE"@,
        w != "LUT_3D_SIZE"@,
        w != "LUT_1D_SIZE"@,
        w != "DOMAIN_MIN"@,
        w != "DOMAIN_MAX"@,
{
    reveal_strlit("TITLE");
    reveal_strlit("LUT_3D_SIZE");
    reveal_strlit("LUT_1D_SIZE");
    reveal_strlit("DOMAIN_MIN");
    reveal_strlit("DOMAIN_MAX");
    assert(number_char(w[0]));
    assert("TITLE"@[0] == 'T');
    assert("LUT_3D_SIZE"@[0] == 'L');
    assert("LUT_1D_SIZE"@[0] == 'L');
    assert("DOMAIN_MIN"@[0] == 'D');
    assert("DOMAIN_MAX"@[0] == 'D');
}

/// The lines of a text that declare `LUT_3D_SIZE n` on its first line and
/// then give the `n` cubed `entries`, one line of three number words each.
pub open spec fn sized_table_text(
    ls: Seq<Seq<char>>,
    numbers: Seq<Vec<Option<u32>>>,
    n: nat,
    entries: Seq<Rgb>,
) -> bool {
    &&& ls.len() == n * n * n + 1
    &&& entries.len() == n * n * n
    &&& words(ls[0]) == seq!["LUT_3D_SIZE"@, decimal(n)]
    &&& forall|j: int|
        #![trigger entries[j]]
        0 <= j < n * n * n ==> {
            &&& words(ls[j + 1]).len() == 3
            &&& number_word(words(ls[j + 1])[0])
            &&& number_at(numbers, j + 1, 0) == Some(entries[j].0)
            &&& number_at(numbers, j + 1, 1) == Some(entries[j].1)
            &&& number_at(numbers, j + 1, 2) == Some(entries[j].2)
        }
}

proof fn lemma_sized_table_reads(
    ls: Seq<Seq<char>>,
    numbers: Seq<Vec<Option<u32>>>,
    n: usize,
    entries: Seq<Rgb>,
    k: nat,
)
    requires
        2 <= n <= 256,
        sized_table_text(ls, numbers, n as nat, entries),
        forall|j: int| 0 <= j < entries.len() ==> rgb_finite(#[trigger] entries[j]),
        k <= n * n * n,
    ensures
        read_lines(ls, numbers, k + 1) == Ok::<CubeDraft, CubeError>(
            CubeDraft {
                size: Some(n),
                domain_min: (0, 0, 0),
                domain_max: (one_bits(), one_bits(), one_bits()),
                values: entries.take(k as int),
            },
        ),
    decreases k,
{
    if k == 0 {
        reveal_strlit("TITLE");
        reveal_strlit("LUT_3D_SIZE");
        law_decimal_reads_back(n);
        let ws = words(ls[0]);
        assert(ws[0] == "LUT_3D_SIZE"@);
        assert(ws[1] == decimal(n as nat));
        assert(ws[0][0] == 'L');
        assert(ws[0].len() != "TITLE"@.len());
        assert(read_lines(ls, numbers, 0) == Ok::<CubeDraft, CubeError>(initial_draft()));
        assert(entries.take(0) =~= Seq::<Rgb>::empty());
    } else {
        lemma_sized_table_reads(ls, numbers, n, entries, (k - 1) as nat);
        let j = k - 1;
        let e = entries[j as int];
        let ws = words(ls[k as int]);
        lemma_number_word_is_no_keyword(ws[0]);
        assert(entries.take(j as int).push(e) =~= entries.take(k as int));
    }
}

/// Every size from 2 to 256 is read: a text whose first line is
/// `LUT_3D_SIZE n` (in decimal) and whose next `n` cubed lines each hold
/// three finite numbers gives the LUT of size `n` with those entries, in
/// order, over the domain 0 to 1.
pub proof fn law_every_size_is_read(
    text: Seq<char>,
    numbers: Seq<Vec<Option<u32>>>,
    n: usize,
    entries: Seq<Rgb>,
)
    requires
        2 <= n <= 256,
        sized_table_text(lines(text), numbers, n as nat, entries),
        forall|j: int| 0 <= j < entries.len() ==> rgb_finite(#[trigger] entries[j]),
    ensures
        parse_cube(text, numbers) == Ok::<CubeModel, CubeError>(
            CubeModel {
                size: n,
                domain_min: (0, 0, 0),
                domain_max: (one_bits(), one_bits(), one_bits()),
                values: entries,
            },
        ),
{
    let ls = lines(text);
    lemma_cube_bound(n as int);
    lemma_sized_table_reads(ls, numbers, n, entries, (n * n * n) as nat);
    assert(entries.take((n * n * n) as int) =~= entries);
    assert(!bits_nan(one_bits()));
    assert(!bits_nan(0));
    assert(!bits_le(one_bits(), 0));
}

/// The upper corner of a grid cell is the next grid point, held at the last:
/// `min(i + 1, n - 1)`, never more than one step above the lower corner.
pub proof fn law_upper_corner_is_adjacent(i: int, n: int)
    requires
        0 <= i < n,
    ensures
        upper_index(i, n) == (if i + 1 <= n - 1 { i + 1 } else { n - 1 }),
        i <= upper_index(i, n) <= i + 1,
        upper_index(i, n) < n,
{
}

} // verus!
