//! Unix path texts: their components, file names, stems and extensions,
//! joining, and prefix tests, as `std::path::Path` reads them.

use vstd::prelude::*;
use crate::text::{push_char, string_of, to_chars};

verus! {

/// Number of characters before the first `'/'` of `s` (all of them if none).
pub open spec fn seg_len(s: Seq<char>) -> nat
    decreases s.len(),
{
    if s.len() == 0 || s[0] == '/' {
        0
    } else {
        1 + seg_len(s.drop_first())
    }
}

pub proof fn lemma_seg_len_bound(s: Seq<char>)
    ensures
        seg_len(s) <= s.len(),
    decreases s.len(),
{
    if s.len() > 0 && s[0] != '/' {
        lemma_seg_len_bound(s.drop_first());
    }
}

/// The text `"."`.
pub open spec fn dot() -> Seq<char> {
    seq!['.']
}

/// The text `".."`.
pub open spec fn dot_dot() -> Seq<char> {
    seq!['.', '.']
}

/// The named parts of a path: the pieces between `'/'` separators, with
/// empty pieces (repeated or trailing separators) and `"."` pieces left out,
/// as `Path::components` normalizes them.
pub open spec fn parts(s: Seq<char>) -> Seq<Seq<char>>
    decreases s.len(),
{
    if s.len() == 0 {
        seq![]
    } else {
        let k = seg_len(s) as int;
        proof {
            lemma_seg_len_bound(s);
        }
        let p = s.take(k);
        let rest = if k >= s.len() {
            seq![]
        } else {
            parts(s.skip(k + 1))
        };
        if p.len() == 0 || p == dot() {
            rest
        } else {
            seq![p] + rest
        }
    }
}

/// The component that opens a path before its named parts.
pub enum Lead {
    /// A relative path that does not start with `"."`.
    Nothing,
    /// An absolute path (`RootDir`).
    Root,
    /// A relative path whose first piece is `"."` (`CurDir`).
    Here,
}

pub open spec fn lead(s: Seq<char>) -> Lead {
    if s.len() > 0 && s[0] == '/' {
        Lead::Root
    } else if s.len() > 0 && s[0] == '.' && (s.len() == 1 || s[1] == '/') {
        Lead::Here
    } else {
        Lead::Nothing
    }
}

/// `Path::file_name`: the last named part, unless it is `".."` or there is none.
pub open spec fn file_name(s: Seq<char>) -> Option<Seq<char>> {
    let ps = parts(s);
    if ps.len() == 0 || ps.last() == dot_dot() {
        None
    } else {
        Some(ps.last())
    }
}

/// Index of the last `'.'` of `f`, or -1.
pub open spec fn last_dot(f: Seq<char>) -> int
    decreases f.len(),
{
    if f.len() == 0 {
        -1
    } else if f.last() == '.' {
        f.len() - 1
    } else {
        last_dot(f.drop_last())
    }
}

/// The stem of a file name (`Path::file_stem`): the name before its last
/// `'.'`, or the whole name when it has no `'.'` but a leading one.
pub open spec fn stem_of(f: Seq<char>) -> Seq<char> {
    if f == dot_dot() || last_dot(f) <= 0 {
        f
    } else {
        f.take(last_dot(f))
    }
}

/// The extension of a file name (`Path::extension`): the text after its
/// last `'.'`, when that dot is not its first character.
pub open spec fn ext_of(f: Seq<char>) -> Option<Seq<char>> {
    if f == dot_dot() || last_dot(f) <= 0 {
        None
    } else {
        Some(f.skip(last_dot(f) + 1))
    }
}

pub open spec fn path_stem(s: Seq<char>) -> Option<Seq<char>> {
    match file_name(s) {
        Some(f) => Some(stem_of(f)),
        None => None,
    }
}

pub open spec fn path_extension(s: Seq<char>) -> Option<Seq<char>> {
    match file_name(s) {
        Some(f) => ext_of(f),
        None => None,
    }
}

/// `Path::starts_with`: the components of `base` are the first components of `s`.
pub open spec fn path_starts_with(s: Seq<char>, base: Seq<char>) -> bool {
    if lead(base) == Lead::Nothing && parts(base).len() == 0 {
        true
    } else {
        &&& lead(base) == lead(s)
        &&& parts(base).len() <= parts(s).len()
        &&& parts(s).take(parts(base).len() as int) == parts(base)
    }
}

/// `PathBuf::join` of a directory and a name without separators: a `'/'`
/// goes between them unless the directory is empty or already ends in one.
pub open spec fn join(dir: Seq<char>, name: Seq<char>) -> Seq<char> {
    if dir.len() > 0 && dir.last() != '/' {
        dir + seq!['/'] + name
    } else {
        dir + name
    }
}

pub open spec fn ascii_lower(c: char) -> u32 {
    if 65 <= c as u32 <= 90 {
        (c as u32 + 32) as u32
    } else {
        c as u32
    }
}

/// `eq_ignore_ascii_case`: equal after mapping ASCII capitals to small letters.
pub open spec fn eq_ignore_ascii_case(a: Seq<char>, b: Seq<char>) -> bool {
    a.len() == b.len() && forall|i: int| 0 <= i < a.len() ==> ascii_lower(#[trigger] a[i]) == ascii_lower(b[i])
}

/// Whether a path names a `.cube` file: its extension is `cube`, in any ASCII case.
pub open spec fn is_cube_path(s: Seq<char>) -> bool {
    match path_extension(s) {
        Some(e) => eq_ignore_ascii_case(e, seq!['c', 'u', 'b', 'e']),
        None => false,
    }
}

proof fn lemma_seg_step(s: Seq<char>, a: int, b: int)
    requires
        0 <= a < b <= s.len(),
        s[a] != '/',
    ensures
        seg_len(s.subrange(a, b)) == 1 + seg_len(s.subrange(a + 1, b)),
{
    assert(s.subrange(a, b).drop_first() =~= s.subrange(a + 1, b));
}

/// The bounds, inside `chars`, of each named part of the path `chars`.
pub fn part_ranges(chars: &Vec<char>) -> (r: Vec<(usize, usize)>)
    ensures
        r@.len() == parts(chars@).len(),
        forall|k: int|
            0 <= k < r@.len() ==> {
                &&& (#[trigger] r@[k]).0 <= r@[k].1 <= chars.len()
                &&& chars@.subrange(r@[k].0 as int, r@[k].1 as int) == parts(chars@)[k]
            },
{
    let n = chars.len();
    let ghost mut acc: Seq<Seq<char>> = seq![];
    let mut out: Vec<(usize, usize)> = Vec::new();
    let mut pos: usize = 0;
    assert(chars@.subrange(0, n as int) =~= chars@);
    while pos < n
        invariant
            pos <= n == chars.len(),
            parts(chars@) == acc + parts(chars@.subrange(pos as int, n as int)),
            acc.len() == out@.len(),
            forall|k: int|
                0 <= k < out@.len() ==> {
                    &&& (#[trigger] out@[k]).0 <= out@[k].1 <= n
                    &&& chars@.subrange(out@[k].0 as int, out@[k].1 as int) == acc[k]
                },
        decreases n - pos,
    {
        let mut j = pos;
        while j < n && chars[j] != '/'
            invariant
                pos <= j <= n == chars.len(),
                seg_len(chars@.subrange(pos as int, n as int)) == (j - pos) + seg_len(
                    chars@.subrange(j as int, n as int),
                ),
            decreases n - j,
        {
            proof {
                lemma_seg_step(chars@, j as int, n as int);
            }
            j = j + 1;
        }
        let ghost t = chars@.subrange(pos as int, n as int);
        let ghost p = chars@.subrange(pos as int, j as int);
        assert(seg_len(chars@.subrange(j as int, n as int)) == 0);
        assert(t.take(j - pos) =~= p);
        let next = if j < n {
            j + 1
        } else {
            j
        };
        proof {
            assert(chars@.subrange(n as int, n as int) =~= Seq::<char>::empty());
            if j < n {
                assert(t.skip(j - pos + 1) =~= chars@.subrange(j + 1, n as int));
            }
            assert(parts(chars@.subrange(next as int, n as int)) == (if j >= n {
                seq![]
            } else {
                parts(t.skip(j - pos + 1))
            }));
        }
        let is_dot = j == pos + 1 && chars[pos] == '.';
        proof {
            if is_dot {
                assert(p =~= dot());
            } else if j > pos {
                assert(p.len() != 1 || p[0] != '.');
                assert(p != dot());
            }
        }
        if j > pos && !is_dot {
            proof {
                acc = acc.push(p);
                assert(parts(chars@) == acc + parts(chars@.subrange(next as int, n as int)));
            }
            out.push((pos, j));
        }
        pos = next;
    }
    proof {
        assert(acc + parts(chars@.subrange(n as int, n as int)) =~= acc);
    }
    out
}


/// The bounds, inside `chars`, of the file name of the path `chars`.
pub fn file_name_range(chars: &Vec<char>) -> (r: Option<(usize, usize)>)
    ensures
        match r {
            Some((a, b)) => a <= b <= chars.len() && file_name(chars@) == Some(
                chars@.subrange(a as int, b as int),
            ),
            None => file_name(chars@) is None,
        },
{
    let ranges = part_ranges(chars);
    if ranges.len() == 0 {
        return None;
    }
    let (a, b) = ranges[ranges.len() - 1];
    assert(parts(chars@).last() == chars@.subrange(a as int, b as int));
    if is_dot_dot(chars, a, b) {
        None
    } else {
        Some((a, b))
    }
}

/// Position of the last `'.'` in `chars[a..b]`.
pub fn last_dot_in(chars: &Vec<char>, a: usize, b: usize) -> (r: Option<usize>)
    requires
        a <= b <= chars.len(),
    ensures
        match r {
            Some(k) => a <= k < b && last_dot(chars@.subrange(a as int, b as int)) == k - a,
            None => last_dot(chars@.subrange(a as int, b as int)) == -1,
        },
{
    let mut i = b;
    while i > a
        invariant
            a <= i <= b <= chars.len(),
            last_dot(chars@.subrange(a as int, b as int)) == last_dot(
                chars@.subrange(a as int, i as int),
            ),
        decreases i - a,
    {
        assert(chars@.subrange(a as int, i as int).last() == chars@[i - 1]);
        assert(chars@.subrange(a as int, i as int).drop_last() =~= chars@.subrange(
            a as int,
            i - 1,
        ));
        if chars[i - 1] == '.' {
            return Some(i - 1);
        }
        i = i - 1;
    }
    None
}

/// Whether `chars[a..b]` is `".."`.
fn is_dot_dot(chars: &Vec<char>, a: usize, b: usize) -> (r: bool)
    requires
        a <= b <= chars.len(),
    ensures
        r == (chars@.subrange(a as int, b as int) == dot_dot()),
{
    if b - a == 2 && chars[a] == '.' && chars[a + 1] == '.' {
        assert(chars@.subrange(a as int, b as int) =~= dot_dot());
        true
    } else {
        let ghost t = chars@.subrange(a as int, b as int);
        assert(t != dot_dot()) by {
            if t == dot_dot() {
                assert(t.len() == 2);
                assert(t[0] == chars@[a as int]);
                assert(t[1] == chars@[a + 1]);
                assert(dot_dot()[0] == '.');
                assert(dot_dot()[1] == '.');
            }
        }
        false
    }
}

/// The bounds of the stem of the file name `chars[a..b]`.
pub fn stem_range(chars: &Vec<char>, a: usize, b: usize) -> (r: (usize, usize))
    requires
        a <= b <= chars.len(),
    ensures
        a <= r.0 <= r.1 <= b,
        chars@.subrange(r.0 as int, r.1 as int) == stem_of(chars@.subrange(a as int, b as int)),
{
    if is_dot_dot(chars, a, b) {
        return (a, b);
    }
    match last_dot_in(chars, a, b) {
        Some(k) => {
            if k == a {
                (a, b)
            } else {
                assert(chars@.subrange(a as int, b as int).take(k - a) =~= chars@.subrange(
                    a as int,
                    k as int,
                ));
                (a, k)
            }
        },
        None => (a, b),
    }
}

/// The bounds of the extension of the file name `chars[a..b]`, if it has one.
pub fn ext_range(chars: &Vec<char>, a: usize, b: usize) -> (r: Option<(usize, usize)>)
    requires
        a <= b <= chars.len(),
    ensures
        match r {
            Some((x, y)) => a <= x <= y <= b && ext_of(chars@.subrange(a as int, b as int)) == Some(
                chars@.subrange(x as int, y as int),
            ),
            None => ext_of(chars@.subrange(a as int, b as int)) is None,
        },
{
    if is_dot_dot(chars, a, b) {
        return None;
    }
    match last_dot_in(chars, a, b) {
        Some(k) => {
            if k == a {
                None
            } else {
                assert(chars@.subrange(a as int, b as int).skip(k - a + 1) =~= chars@.subrange(
                    k + 1,
                    b as int,
                ));
                Some((k + 1, b))
            }
        },
        None => None,
    }
}

fn lower_code(c: char) -> (r: u32)
    ensures
        r == ascii_lower(c),
{
    let u = c as u32;
    if 65 <= u && u <= 90 {
        u + 32
    } else {
        u
    }
}

/// Whether `chars[a..b]` equals `word` ignoring ASCII case.
pub fn range_eq_ignore_ascii_case(chars: &Vec<char>, a: usize, b: usize, word: &Vec<char>) -> (r: bool)
    requires
        a <= b <= chars.len(),
    ensures
        r == eq_ignore_ascii_case(chars@.subrange(a as int, b as int), word@),
{
    let ghost s = chars@.subrange(a as int, b as int);
    if b - a != word.len() {
        return false;
    }
    let mut i: usize = 0;
    while i < word.len()
        invariant
            a <= b <= chars.len(),
            b - a == word.len(),
            s == chars@.subrange(a as int, b as int),
            i <= word.len(),
            forall|m: int| 0 <= m < i ==> ascii_lower(#[trigger] s[m]) == ascii_lower(word@[m]),
        decreases word.len() - i,
    {
        assert(s[i as int] == chars@[a + i]);
        if lower_code(chars[a + i]) != lower_code(word[i]) {
            return false;
        }
        i = i + 1;
    }
    true
}

/// Whether the path names a `.cube` file (its extension is `cube` in any
/// ASCII case), as the catalog and the LUT location check decide it.
pub fn has_cube_extension(path: &str) -> (r: bool)
    ensures
        r == is_cube_path(path@),
{
    let chars = to_chars(path);
    let mut cube: Vec<char> = Vec::new();
    cube.push('c');
    cube.push('u');
    cube.push('b');
    cube.push('e');
    assert(cube@ =~= seq!['c', 'u', 'b', 'e']);
    match file_name_range(&chars) {
        Some((a, b)) => match ext_range(&chars, a, b) {
            Some((x, y)) => range_eq_ignore_ascii_case(&chars, x, y, &cube),
            None => false,
        },
        None => false,
    }
}

/// `Path::starts_with` on path texts: whether the components of `base` are
/// the first components of `path`.
pub fn starts_with_path(path: &str, base: &str) -> (r: bool)
    ensures
        r == path_starts_with(path@, base@),
{
    let p = to_chars(path);
    let q = to_chars(base);
    let pl = lead_of(&p);
    let ql = lead_of(&q);
    let pr = part_ranges(&p);
    let qr = part_ranges(&q);
    if matches!(ql, Lead::Nothing) && qr.len() == 0 {
        return true;
    }
    if !same_lead(pl, ql) {
        assert(lead(q@) != lead(p@));
        return false;
    }
    if qr.len() > pr.len() {
        assert(parts(q@).len() > parts(p@).len());
        return false;
    }
    let ghost ps = parts(p@);
    let ghost qs = parts(q@);
    let mut i: usize = 0;
    while i < qr.len()
        invariant
            qr@.len() <= pr@.len(),
            p@ == path@,
            q@ == base@,
            !(lead(q@) == Lead::Nothing && qs.len() == 0),
            lead(q@) == lead(p@),
            pr@.len() == ps.len(),
            qr@.len() == qs.len(),
            ps == parts(p@),
            qs == parts(q@),
            i <= qr@.len(),
            forall|k: int| 0 <= k < pr@.len() ==> {
                &&& (#[trigger] pr@[k]).0 <= pr@[k].1 <= p.len()
                &&& p@.subrange(pr@[k].0 as int, pr@[k].1 as int) == ps[k]
            },
            forall|k: int| 0 <= k < qr@.len() ==> {
                &&& (#[trigger] qr@[k]).0 <= qr@[k].1 <= q.len()
                &&& q@.subrange(qr@[k].0 as int, qr@[k].1 as int) == qs[k]
            },
            forall|k: int| 0 <= k < i ==> ps[k] == qs[k],
        decreases qr.len() - i,
    {
        let (a, b) = pr[i];
        let (c, d) = qr[i];
        let ghost x = ps[i as int];
        let ghost y = qs[i as int];
        assert(pr@[i as int] == (a, b));
        assert(qr@[i as int] == (c, d));
        if !ranges_equal(&p, a, b, &q, c, d) {
            assert(x != y);
            assert(ps.take(qs.len() as int)[i as int] == x);
            assert(ps.take(qs.len() as int) != qs);
            return false;
        }
        i = i + 1;
    }
    assert(ps.take(qs.len() as int) =~= qs);
    true
}

fn ranges_equal(p: &Vec<char>, a: usize, b: usize, q: &Vec<char>, c: usize, d: usize) -> (r: bool)
    requires
        a <= b <= p.len(),
        c <= d <= q.len(),
    ensures
        r == (p@.subrange(a as int, b as int) == q@.subrange(c as int, d as int)),
{
    if b - a != d - c {
        assert(p@.subrange(a as int, b as int).len() != q@.subrange(c as int, d as int).len());
        return false;
    }
    let mut i: usize = 0;
    while i < b - a
        invariant
            a <= b <= p.len(),
            c <= d <= q.len(),
            b - a == d - c,
            i <= b - a,
            forall|m: int| 0 <= m < i ==> #[trigger] p@.subrange(a as int, b as int)[m] == q@.subrange(c as int, d as int)[m],
        decreases b - a - i,
    {
        if p[a + i] != q[c + i] {
            assert(p@.subrange(a as int, b as int)[i as int] != q@.subrange(c as int, d as int)[i as int]);
            return false;
        }
        i = i + 1;
    }
    assert(p@.subrange(a as int, b as int) =~= q@.subrange(c as int, d as int));
    true
}

fn lead_of(chars: &Vec<char>) -> (r: Lead)
    ensures
        r == lead(chars@),
{
    let n = chars.len();
    if n > 0 && chars[0] == '/' {
        Lead::Root
    } else if n > 0 && chars[0] == '.' && (n == 1 || chars[1] == '/') {
        Lead::Here
    } else {
        Lead::Nothing
    }
}

fn same_lead(x: Lead, y: Lead) -> (r: bool)
    ensures
        r == (x == y),
{
    match (x, y) {
        (Lead::Nothing, Lead::Nothing) => true,
        (Lead::Root, Lead::Root) => true,
        (Lead::Here, Lead::Here) => true,
        _ => false,
    }
}

/// What a path compares by: its leading component and its named parts.
pub type PathKey = (Lead, Seq<Seq<char>>);

pub open spec fn path_key(s: Seq<char>) -> PathKey {
    (lead(s), parts(s))
}

/// Path equality (`Path == Path`): the same components.
pub open spec fn same_path(a: Seq<char>, b: Seq<char>) -> bool {
    path_key(a) == path_key(b)
}

/// Whether two path texts name the same path component by component.
pub fn paths_equal(a: &str, b: &str) -> (r: bool)
    ensures
        r == same_path(a@, b@),
{
    let r = starts_with_path(a, b) && starts_with_path(b, a);
    proof {
        let (pa, pb) = (parts(a@), parts(b@));
        if r {
            if lead(b@) == Lead::Nothing && pb.len() == 0 {
                if !(lead(a@) == Lead::Nothing && pa.len() == 0) {
                    assert(lead(a@) == lead(b@) && pa.len() <= pb.len());
                }
            } else {
                assert(pa.len() == pb.len());
                assert(pa.take(pb.len() as int) =~= pa);
            }
            assert(pa =~= pb);
        } else if same_path(a@, b@) {
            assert(pa.take(pb.len() as int) =~= pa);
        }
    }
    r
}

/// Appends `name` to the directory `dir` as `PathBuf::join` does for a name
/// without separators.
pub fn join_name(dir: &str, name: &Vec<char>, a: usize, b: usize) -> (r: String)
    requires
        a <= b <= name.len(),
    ensures
        r@ == join(dir@, name@.subrange(a as int, b as int)),
{
    let d = to_chars(dir);
    let mut out = string_of(&d, 0, d.len());
    assert(d@.subrange(0, d@.len() as int) =~= d@);
    if d.len() > 0 && d[d.len() - 1] != '/' {
        push_char(&mut out, '/');
    }
    let mut i = a;
    let ghost base = out@;
    while i < b
        invariant
            a <= i <= b <= name.len(),
            out@ == base + name@.subrange(a as int, i as int),
        decreases b - i,
    {
        push_char(&mut out, name[i]);
        assert(name@.subrange(a as int, i + 1) =~= name@.subrange(a as int, i as int).push(name@[i as int]));
        i = i + 1;
    }
    assert(dir@ + seq!['/'] + name@.subrange(a as int, b as int) =~= dir@.push('/') + name@.subrange(a as int, b as int));
    out
}


/// Why a LUT path may not be used.
#[derive(Clone, Copy, PartialEq, Eq, Debug)]
pub enum LutLocationError {
    /// The LUT lies outside the configured LUT directory.
    OutsideDirectory,
    /// The file is not a `.cube` file.
    NotCube,
}

impl LutLocationError {
    /// The text that tells a user why.
    pub fn message(&self) -> (r: String)
        ensures
            r@ == (match *self {
                LutLocationError::OutsideDirectory => "The selected LUT is outside the configured LUT directory"@,
                LutLocationError::NotCube => "Only .cube LUT files are supported"@,
            }),
    {
        match *self {
            LutLocationError::OutsideDirectory => "The selected LUT is outside the configured LUT directory".to_owned(),
            LutLocationError::NotCube => "Only .cube LUT files are supported".to_owned(),
        }
    }
}

/// Accepts a (canonical) LUT path only inside the (canonical) LUT directory
/// `root`, and only for a `.cube` file.
pub fn check_lut_location(root: &str, path: &str) -> (r: Result<(), LutLocationError>)
    ensures
        !path_starts_with(path@, root@) ==> r == Err::<(), LutLocationError>(
            LutLocationError::OutsideDirectory,
        ),
        path_starts_with(path@, root@) && !is_cube_path(path@) ==> r == Err::<(), LutLocationError>(
            LutLocationError::NotCube,
        ),
        path_starts_with(path@, root@) && is_cube_path(path@) ==> r == Ok::<(), LutLocationError>(()),
{
    if !starts_with_path(path, root) {
        return Err(LutLocationError::OutsideDirectory);
    }
    if !has_cube_extension(path) {
        return Err(LutLocationError::NotCube);
    }
    Ok(())
}

} // verus!
