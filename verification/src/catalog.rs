//! The LUT catalog: what the first lines of a `.cube` file tell about it,
//! one descriptor per file, and the catalog order.

use vstd::prelude::*;
use crate::order::{keys_of, sort_by_keys, stably_sorted, text_lt};
use crate::paths::{file_name_range, path_stem, stem_range};
use crate::text::{
    decimal, is_ws, law_decimal_reads_back, lemma_decimal_value, parse_usize, push_decimal,
    push_char, range_starts_with, string_of, to_chars, trim, trim_end, trim_range, trim_start, usize_text,
    CharClass,
};

verus! {

/// How many lines at the start of a file are searched for the header.
pub const HEADER_LINES: usize = 128;

/// Why a file's header does not describe a usable LUT.
#[derive(Clone, Copy, PartialEq, Eq, Debug)]
pub enum HeaderIssue {
    /// The file could not be opened.
    Unreadable,
    /// Reading a header line failed.
    HeaderUnreadable,
    /// A `LUT_1D_SIZE` line: 1D LUTs are not read.
    OneDimensional,
    /// A `LUT_3D_SIZE` outside `2..=256`.
    SizeOutOfRange(usize),
    /// A `LUT_3D_SIZE` value that is not an unsigned integer.
    InvalidSize,
    /// No `LUT_3D_SIZE` line among the first lines.
    MissingSize,
}

/// What a file's header tells: its title, its size, or why it is unusable.
pub struct HeaderModel {
    pub title: Option<Seq<char>>,
    pub size: Option<usize>,
    pub issue: Option<HeaderIssue>,
}

/// `t` begins with `p`.
pub open spec fn starts_with(t: Seq<char>, p: Seq<char>) -> bool {
    p.len() <= t.len() && t.take(p.len() as int) == p
}

/// The value of a `TITLE` line whose text after the keyword is `rest`: trimmed,
/// then without double quotes at either end.
pub open spec fn title_value(rest: Seq<char>) -> Seq<char> {
    trim(trim(rest, CharClass::Whitespace), CharClass::DoubleQuote)
}

/// What the header lines from `i` on tell, `title` being the title seen so
/// far. Lines stop at `HEADER_LINES`; `failed` says that reading the line
/// after the given ones failed.
pub open spec fn scan_header(
    lines: Seq<Seq<char>>,
    failed: bool,
    i: nat,
    title: Option<Seq<char>>,
) -> HeaderModel
    decreases HEADER_LINES - i,
{
    if i >= HEADER_LINES {
        HeaderModel { title, size: None, issue: Some(HeaderIssue::MissingSize) }
    } else if i >= lines.len() {
        if failed {
            HeaderModel { title, size: None, issue: Some(HeaderIssue::HeaderUnreadable) }
        } else {
            HeaderModel { title, size: None, issue: Some(HeaderIssue::MissingSize) }
        }
    } else {
        let t = trim(lines[i as int], CharClass::Whitespace);
        if starts_with(t, "TITLE"@) {
            scan_header(lines, failed, i + 1, Some(title_value(t.skip("TITLE"@.len() as int))))
        } else if starts_with(t, "LUT_1D_SIZE"@) {
            HeaderModel { title, size: None, issue: Some(HeaderIssue::OneDimensional) }
        } else if starts_with(t, "LUT_3D_SIZE"@) {
            match usize_text(trim(t.skip("LUT_3D_SIZE"@.len() as int), CharClass::Whitespace)) {
                Some(n) => if 2 <= n <= 256 {
                    HeaderModel { title, size: Some(n), issue: None }
                } else {
                    HeaderModel { title, size: None, issue: Some(HeaderIssue::SizeOutOfRange(n)) }
                },
                None => HeaderModel { title, size: None, issue: Some(HeaderIssue::InvalidSize) },
            }
        } else {
            scan_header(lines, failed, i + 1, title)
        }
    }
}

/// The text that tells a user what is wrong with a header.
pub open spec fn issue_text(issue: HeaderIssue) -> Seq<char> {
    match issue {
        HeaderIssue::Unreadable => "Could not read LUT"@,
        HeaderIssue::HeaderUnreadable => "Could not read LUT header"@,
        HeaderIssue::OneDimensional => "1D .cube LUTs are not supported yet"@,
        HeaderIssue::SizeOutOfRange(n) => "LUT_3D_SIZE must be between 2 and 256, got "@ + decimal(
            n as nat,
        ),
        HeaderIssue::InvalidSize => "Invalid LUT_3D_SIZE"@,
        HeaderIssue::MissingSize => "Missing LUT_3D_SIZE near the start of the file"@,
    }
}

impl HeaderIssue {
    /// The text that tells a user what is wrong with the header.
    pub fn message(&self) -> (r: String)
        ensures
            r@ == issue_text(*self),
    {
        match *self {
            HeaderIssue::Unreadable => "Could not read LUT".to_owned(),
            HeaderIssue::HeaderUnreadable => "Could not read LUT header".to_owned(),
            HeaderIssue::OneDimensional => "1D .cube LUTs are not supported yet".to_owned(),
            HeaderIssue::SizeOutOfRange(n) => {
                let mut s = "LUT_3D_SIZE must be between 2 and 256, got ".to_owned();
                push_decimal(&mut s, n as u64);
                s
            },
            HeaderIssue::InvalidSize => "Invalid LUT_3D_SIZE".to_owned(),
            HeaderIssue::MissingSize => "Missing LUT_3D_SIZE near the start of the file".to_owned(),
        }
    }
}

/// What a file's header tells, as read from its first lines.
pub struct HeaderMetadata {
    pub title: Option<String>,
    pub size: Option<usize>,
    pub issue: Option<HeaderIssue>,
}

pub open spec fn opt_text(s: Option<String>) -> Option<Seq<char>> {
    match s {
        Some(t) => Some(t@),
        None => None,
    }
}

impl HeaderMetadata {
    pub open spec fn model(&self) -> HeaderModel {
        HeaderModel { title: opt_text(self.title), size: self.size, issue: self.issue }
    }

    /// The header of a file that could not be opened.
    pub fn unreadable() -> (r: HeaderMetadata)
        ensures
            r.model() == (HeaderModel { title: None, size: None, issue: Some(HeaderIssue::Unreadable) }),
    {
        HeaderMetadata { title: None, size: None, issue: Some(HeaderIssue::Unreadable) }
    }
}

pub open spec fn texts(lines: Seq<String>) -> Seq<Seq<char>> {
    lines.map_values(|s: String| s@)
}

/// Whether the text `chars[a..b]` begins with `prefix`.
fn text_starts_with(chars: &Vec<char>, a: usize, b: usize, prefix: &str) -> (r: bool)
    requires
        a <= b <= chars.len(),
    ensures
        r == starts_with(chars@.subrange(a as int, b as int), prefix@),
{
    let r = range_starts_with(chars, a, b, prefix);
    proof {
        if prefix@.len() <= b - a {
            assert(chars@.subrange(a as int, b as int).take(prefix@.len() as int) =~= chars@.subrange(
                a as int,
                a + prefix@.len(),
            ));
        }
    }
    r
}

/// Reads the header from the first lines of a file. `read_failed` says that
/// reading stopped with an error right after `lines`.
pub fn read_header(lines: &Vec<String>, read_failed: bool) -> (r: HeaderMetadata)
    ensures
        r.model() == scan_header(texts(lines@), read_failed, 0, None),
{
    let ghost ls = texts(lines@);
    let mut title: Option<String> = None;
    let mut i: usize = 0;
    while i < lines.len() && i < HEADER_LINES
        invariant
            ls == texts(lines@),
            i <= lines.len(),
            i <= HEADER_LINES,
            scan_header(ls, read_failed, 0, None) == scan_header(ls, read_failed, i as nat, opt_text(title)),
        decreases lines.len() - i,
    {
        let chars = to_chars(lines[i].as_str());
        assert(ls[i as int] == chars@);
        let (a, b) = trim_range(&chars, 0, chars.len(), CharClass::Whitespace);
        assert(chars@.subrange(0, chars@.len() as int) =~= chars@);
        let ghost t = chars@.subrange(a as int, b as int);
        if text_starts_with(&chars, a, b, "TITLE") {
            let k = a + to_chars("TITLE").len();
            assert(t.skip("TITLE"@.len() as int) =~= chars@.subrange(k as int, b as int));
            let (x, y) = trim_range(&chars, k, b, CharClass::Whitespace);
            let (u, v) = trim_range(&chars, x, y, CharClass::DoubleQuote);
            title = Some(string_of(&chars, u, v));
        } else if text_starts_with(&chars, a, b, "LUT_1D_SIZE") {
            return HeaderMetadata { title, size: None, issue: Some(HeaderIssue::OneDimensional) };
        } else if text_starts_with(&chars, a, b, "LUT_3D_SIZE") {
            let k = a + to_chars("LUT_3D_SIZE").len();
            assert(t.skip("LUT_3D_SIZE"@.len() as int) =~= chars@.subrange(k as int, b as int));
            let (x, y) = trim_range(&chars, k, b, CharClass::Whitespace);
            return match parse_usize(&chars, x, y) {
                Some(n) => if 2 <= n && n <= 256 {
                    HeaderMetadata { title, size: Some(n), issue: None }
                } else {
                    HeaderMetadata { title, size: None, issue: Some(HeaderIssue::SizeOutOfRange(n)) }
                },
                None => HeaderMetadata { title, size: None, issue: Some(HeaderIssue::InvalidSize) },
            };
        }
        i = i + 1;
    }
    if i >= HEADER_LINES || !read_failed {
        HeaderMetadata { title, size: None, issue: Some(HeaderIssue::MissingSize) }
    } else {
        HeaderMetadata { title, size: None, issue: Some(HeaderIssue::HeaderUnreadable) }
    }
}


/// One `.cube` file of the catalog.
pub struct LutDescriptor {
    pub path: String,
    pub name: String,
    pub title: Option<String>,
    pub size: Option<usize>,
    pub file_size: u64,
    pub modified_at_ms: Option<u128>,
    pub supported: bool,
    pub error: Option<String>,
}

/// The name shown for a LUT file: the stem of its file name, or nothing.
pub open spec fn display_name(path: Seq<char>) -> Seq<char> {
    match path_stem(path) {
        Some(s) => s,
        None => seq![],
    }
}

pub open spec fn issue_message(issue: Option<HeaderIssue>) -> Option<Seq<char>> {
    match issue {
        Some(i) => Some(issue_text(i)),
        None => None,
    }
}

/// Describes the `.cube` file at `path`, whose metadata gave `file_size` and
/// `modified_at_ms` (when it could be read) and whose first lines gave
/// `header`. A file whose header is unusable is still described, with the
/// reason, so that it never keeps the other files out of the catalog.
pub fn describe(
    path: String,
    file_size: Option<u64>,
    modified_at_ms: Option<u128>,
    header: HeaderMetadata,
) -> (r: LutDescriptor)
    ensures
        r.path@ == path@,
        r.name@ == display_name(path@),
        opt_text(r.title) == opt_text(header.title),
        r.size == header.size,
        r.file_size == (match file_size {
            Some(n) => n,
            None => 0,
        }),
        r.modified_at_ms == modified_at_ms,
        r.supported == header.issue.is_none(),
        opt_text(r.error) == issue_message(header.issue),
{
    let chars = to_chars(path.as_str());
    let name = match file_name_range(&chars) {
        Some((a, b)) => {
            let (x, y) = stem_range(&chars, a, b);
            string_of(&chars, x, y)
        },
        None => String::new(),
    };
    let error = match header.issue {
        Some(issue) => Some(issue.message()),
        None => None,
    };
    LutDescriptor {
        path,
        name,
        title: header.title,
        size: header.size,
        file_size: match file_size {
            Some(n) => n,
            None => 0,
        },
        modified_at_ms,
        supported: header.issue.is_none(),
        error,
    }
}

/// Every character of `s` is ASCII.
pub open spec fn is_ascii_text(s: Seq<char>) -> bool {
    forall|i: int| 0 <= i < s.len() ==> (#[trigger] s[i] as u32) < 128
}

/// An ASCII capital `'A'..='Z'` becomes its small letter, 32 code points
/// further on; every other character stays as it is.
pub open spec fn ascii_lower_char(c: char) -> char {
    if 65 <= (c as u32) <= 90 {
        (((c as u32) + 32) as u8) as char
    } else {
        c
    }
}

/// `s` with each ASCII capital replaced by its small letter.
pub open spec fn ascii_lowercase(s: Seq<char>) -> Seq<char> {
    s.map_values(|c: char| ascii_lower_char(c))
}

/// The ASCII lowercase keeps the length of a text and, position by position,
/// turns each capital `'A'..='Z'` into the letter 32 code points on
/// (`'a'..='z'`) and keeps every other character; the result of an ASCII
/// text is ASCII, and it holds no capital.
pub proof fn law_ascii_lowercase(s: Seq<char>)
    ensures
        ascii_lowercase(s).len() == s.len(),
        forall|i: int|
            0 <= i < s.len() && 65 <= (s[i] as u32) <= 90 ==> (#[trigger] ascii_lowercase(s)[i]
                as u32) == (s[i] as u32) + 32,
        forall|i: int|
            0 <= i < s.len() && !(65 <= (s[i] as u32) <= 90) ==> #[trigger] ascii_lowercase(s)[i]
                == s[i],
        is_ascii_text(s) ==> is_ascii_text(ascii_lowercase(s)),
        forall|i: int|
            0 <= i < s.len() ==> !(65 <= (#[trigger] ascii_lowercase(s)[i] as u32) <= 90),
{
    assert forall|i: int| 0 <= i < s.len() implies #[trigger] lowered_at(s, i) by {
        let c = s[i];
        let u = c as u32;
        if 65 <= u <= 90 {
            let b: u8 = (u + 32) as u8;
            assert(b as u32 == u + 32);
            assert((b as char) as u32 == b as u32);
        }
    }
}

/// What the ASCII lowercase does at position `i` of `s`.
spec fn lowered_at(s: Seq<char>, i: int) -> bool {
    let c = s[i];
    let l = ascii_lowercase(s)[i];
    &&& 65 <= (c as u32) <= 90 ==> (l as u32) == (c as u32) + 32
    &&& !(65 <= (c as u32) <= 90) ==> l == c
    &&& !(65 <= (l as u32) <= 90)
}

/// `s` in lowercase, as `str::to_lowercase` maps it (Unicode case tables).
pub uninterp spec fn lowercase_text(s: Seq<char>) -> Seq<char>;

/// Trusted: `str::to_lowercase`, a function of its argument alone; its
/// result is named `lowercase_text`. On an all-ASCII text std maps each
/// character by its ASCII lowercase (`'A'..='Z'` to `'a'..='z'`, the rest
/// unchanged), which is the second clause; beyond ASCII the Unicode tables
/// are not stated.
#[verifier::external_body]
fn to_lowercase(s: &str) -> (r: String)
    ensures
        r@ == lowercase_text(s@),
        is_ascii_text(s@) ==> r@ == ascii_lowercase(s@),
{
    s.to_lowercase()
}

/// The ASCII lowercase of `chars`, or `None` where a character is not ASCII.
pub fn ascii_lowercase_of(chars: &Vec<char>) -> (r: Option<String>)
    ensures
        r is Some <==> is_ascii_text(chars@),
        r matches Some(t) ==> t@ == ascii_lowercase(chars@),
{
    let mut out = String::new();
    let mut i: usize = 0;
    while i < chars.len()
        invariant
            i <= chars.len(),
            is_ascii_text(chars@.take(i as int)),
            out@ == ascii_lowercase(chars@.take(i as int)),
        decreases chars.len() - i,
    {
        let c = chars[i];
        let u = c as u32;
        if u >= 128 {
            return None;
        }
        let l: char = if 65 <= u && u <= 90 {
            ((u + 32) as u8) as char
        } else {
            c
        };
        push_char(&mut out, l);
        assert(chars@.take(i + 1) =~= chars@.take(i as int).push(c));
        assert(ascii_lowercase(chars@.take(i + 1)) =~= ascii_lowercase(chars@.take(i as int)).push(l));
        i = i + 1;
    }
    assert(chars@.take(i as int) =~= chars@);
    Some(out)
}

/// The catalog key of each descriptor: its name in lowercase.
pub open spec fn name_keys(ds: Seq<LutDescriptor>) -> Seq<Seq<char>> {
    ds.map_values(|d: LutDescriptor| lowercase_text(d.name@))
}

/// Puts the descriptors in catalog order: by lowercase name, and in their
/// given order where lowercase names are equal. Of two ASCII names, the one
/// whose ASCII lowercase comes first in text order comes first.
pub fn sort_catalog(descriptors: Vec<LutDescriptor>) -> (r: Vec<LutDescriptor>)
    ensures
        exists|p: Seq<int>|
            #[trigger] stably_sorted(p, name_keys(descriptors@)) && r@ == p.map_values(
                |j: int| descriptors@[j],
            ),
        forall|i: int, j: int|
            0 <= i < j < r@.len() && is_ascii_text(r@[i].name@) && is_ascii_text(r@[j].name@)
                ==> !text_lt(
                ascii_lowercase(#[trigger] r@[j].name@),
                ascii_lowercase(#[trigger] r@[i].name@),
            ),
{
    let ghost orig = descriptors@;
    let mut rest = descriptors;
    let mut keyed: Vec<(String, LutDescriptor)> = Vec::new();
    let n = rest.len();
    let mut i: usize = 0;
    while i < n
        invariant
            n == orig.len(),
            i <= n,
            rest@ == orig.skip(i as int),
            keyed@.len() == i,
            forall|k: int|
                0 <= k < i ==> (#[trigger] keyed@[k]).1 == orig[k] && keyed@[k].0@
                    == lowercase_text(orig[k].name@),
            forall|k: int|
                0 <= k < i && is_ascii_text(orig[k].name@) ==> lowercase_text(
                    #[trigger] orig[k].name@,
                ) == ascii_lowercase(orig[k].name@),
        decreases n - i,
    {
        assert(rest@[0] == orig[i as int]);
        let d = rest.remove(0);
        assert(rest@ =~= orig.skip(i + 1));
        let lowered = to_lowercase(d.name.as_str());
        // An ASCII name is keyed by its verified ASCII lowercase, which
        // `to_lowercase` gives on such a name too.
        let chars = to_chars(d.name.as_str());
        let key = match ascii_lowercase_of(&chars) {
            Some(t) => t,
            None => lowered,
        };
        keyed.push((key, d));
        i = i + 1;
    }
    let ghost keyed0 = keyed@;
    assert(keys_of(keyed0) =~= name_keys(orig));
    let sorted = sort_by_keys(keyed);
    let ghost p = choose|p: Seq<int>|
        #[trigger] stably_sorted(p, keys_of(keyed0)) && sorted@ == p.map_values(
            |j: int| keyed0[j],
        );
    let ghost sorted0 = sorted@;
    let mut rest2 = sorted;
    let mut out: Vec<LutDescriptor> = Vec::new();
    let m = rest2.len();
    let mut k: usize = 0;
    while k < m
        invariant
            m == sorted0.len(),
            k <= m,
            rest2@ == sorted0.skip(k as int),
            out@.len() == k,
            forall|j: int| 0 <= j < k ==> #[trigger] out@[j] == sorted0[j].1,
        decreases m - k,
    {
        assert(rest2@[0] == sorted0[k as int]);
        let (_, d) = rest2.remove(0);
        assert(rest2@ =~= sorted0.skip(k + 1));
        out.push(d);
        k = k + 1;
    }
    proof {
        assert(out@ =~= p.map_values(|j: int| orig[j]));
        assert forall|i: int, j: int|
            0 <= i < j < out@.len() && is_ascii_text(out@[i].name@) && is_ascii_text(
                out@[j].name@,
            ) implies !text_lt(
            ascii_lowercase(#[trigger] out@[j].name@),
            ascii_lowercase(#[trigger] out@[i].name@),
        ) by {
            assert(out@[i] == orig[p[i]]);
            assert(out@[j] == orig[p[j]]);
            assert(keys_of(keyed0)[p[i]] == lowercase_text(orig[p[i]].name@));
            assert(keys_of(keyed0)[p[j]] == lowercase_text(orig[p[j]].name@));
        }
    }
    out
}


proof fn lemma_size_line_reads(n: usize)
    requires
        2 <= n <= 256,
    ensures
        ({
            let t = "LUT_3D_SIZE "@ + decimal(n as nat);
            &&& !starts_with(t, "TITLE"@)
            &&& !starts_with(t, "LUT_1D_SIZE"@)
            &&& starts_with(t, "LUT_3D_SIZE"@)
            &&& usize_text(trim(t.skip("LUT_3D_SIZE"@.len() as int), CharClass::Whitespace)) == Some(n)
        }),
{
    reveal_strlit("LUT_3D_SIZE ");
    reveal_strlit("TITLE");
    reveal_strlit("LUT_1D_SIZE");
    reveal_strlit("LUT_3D_SIZE");
    let d = decimal(n as nat);
    let t = "LUT_3D_SIZE "@ + d;
    lemma_decimal_value(n as nat);
    law_decimal_reads_back(n);
    assert(t[0] == 'L');
    assert(t.take(5)[0] == 'L');
    assert(t[4] == '3');
    assert(t.take(11)[4] == '3');
    assert(t.take(11) =~= "LUT_3D_SIZE"@);
    let rest = t.skip(11);
    assert(rest =~= seq![' '] + d);
    assert(rest.drop_first() =~= d);
    assert(!is_ws(d[0]));
    assert(trim_start(rest, CharClass::Whitespace) == trim_start(d, CharClass::Whitespace));
    assert(trim_start(d, CharClass::Whitespace) == d);
    assert(!is_ws(d.last()));
    assert(trim_end(d, CharClass::Whitespace) == d);
}

proof fn lemma_size_line_found(
    lines: Seq<Seq<char>>,
    failed: bool,
    k: nat,
    n: usize,
    i: nat,
    title: Option<Seq<char>>,
)
    requires
        2 <= n <= 256,
        k < lines.len(),
        k < HEADER_LINES,
        i <= k,
        trim(lines[k as int], CharClass::Whitespace) == "LUT_3D_SIZE "@ + decimal(n as nat),
        forall|j: int|
            0 <= j < k ==> {
                &&& !starts_with(trim(#[trigger] lines[j], CharClass::Whitespace), "LUT_1D_SIZE"@)
                &&& !starts_with(trim(lines[j], CharClass::Whitespace), "LUT_3D_SIZE"@)
            },
    ensures
        scan_header(lines, failed, i, title).size == Some(n),
        scan_header(lines, failed, i, title).issue is None,
    decreases k - i,
{
    if i == k {
        lemma_size_line_reads(n);
    } else {
        let _ = lines[i as int];
        let t = trim(lines[i as int], CharClass::Whitespace);
        lemma_size_line_found(lines, failed, k, n, i + 1, None);
        if starts_with(t, "TITLE"@) {
            lemma_size_line_found(
                lines,
                failed,
                k,
                n,
                i + 1,
                Some(title_value(t.skip("TITLE"@.len() as int))),
            );
        } else {
            lemma_size_line_found(lines, failed, k, n, i + 1, title);
        }
    }
}

/// Every size from 2 to 256 is accepted by the header scan: when the first
/// line (among the first `HEADER_LINES`) that starts with a size keyword is
/// `LUT_3D_SIZE n` in decimal, with any white space around it, the header
/// gives the size `n` and no issue.
pub proof fn law_every_size_is_described(lines: Seq<Seq<char>>, failed: bool, k: nat, n: usize)
    requires
        2 <= n <= 256,
        k < lines.len(),
        k < HEADER_LINES,
        trim(lines[k as int], CharClass::Whitespace) == "LUT_3D_SIZE "@ + decimal(n as nat),
        forall|j: int|
            0 <= j < k ==> {
                &&& !starts_with(trim(#[trigger] lines[j], CharClass::Whitespace), "LUT_1D_SIZE"@)
                &&& !starts_with(trim(lines[j], CharClass::Whitespace), "LUT_3D_SIZE"@)
            },
    ensures
        scan_header(lines, failed, 0, None).size == Some(n),
        scan_header(lines, failed, 0, None).issue is None,
{
    lemma_size_line_found(lines, failed, k, n, 0, None);
}


} // verus!
