//! Choosing output file names: the suggested export name, and a free name
//! in the output directory for each requested one.

use vstd::prelude::*;
use crate::paths::{
    ext_range, file_name, file_name_range, join, join_name, path_extension, path_stem, stem_range,
};
use crate::text::{
    chars_equal, decimal, push_char, push_decimal, to_chars, trim, trim_range, CharClass,
};

verus! {

/// A suggested export name is used when it holds more than white space.
pub fn usable_suggested_name(name: Option<String>) -> (r: Option<String>)
    ensures
        match name {
            Some(n) => if trim(n@, CharClass::Whitespace).len() > 0 {
                r == Some(n)
            } else {
                r is None
            },
            None => r is None,
        },
{
    match name {
        Some(n) => {
            let chars = to_chars(n.as_str());
            let (a, b) = trim_range(&chars, 0, chars.len(), CharClass::Whitespace);
            assert(chars@.subrange(0, chars@.len() as int) =~= chars@);
            if a < b {
                Some(n)
            } else {
                None
            }
        },
        None => None,
    }
}

/// Why output names could not be chosen.
#[derive(Clone, Copy, PartialEq, Eq, Debug)]
pub enum NamingError {
    /// A requested name is not a plain file name.
    InvalidName,
}

impl NamingError {
    /// The text that tells a user why.
    pub fn message(&self) -> (r: String)
        ensures
            r@ == "An output filename contained an invalid path"@,
    {
        "An output filename contained an invalid path".to_owned()
    }
}

/// A requested name is usable when it is its own file name: not empty, no
/// `'/'`, not `"."` or `".."`.
pub open spec fn valid_output_name(name: Seq<char>) -> bool {
    file_name(name) == Some(name)
}

/// The stem used for numbered names: the name's stem, or `image`.
pub open spec fn output_stem(name: Seq<char>) -> Seq<char> {
    match path_stem(name) {
        Some(s) => if s.len() > 0 {
            s
        } else {
            "image"@
        },
        None => "image"@,
    }
}

/// The extension used for numbered names: the name's extension, or `png`.
pub open spec fn output_ext(name: Seq<char>) -> Seq<char> {
    match path_extension(name) {
        Some(e) => e,
        None => "png"@,
    }
}

/// `{stem}-{suffix}.{ext}`.
pub open spec fn numbered_name(stem: Seq<char>, suffix: u32, ext: Seq<char>) -> Seq<char> {
    stem + "-"@ + decimal(suffix as nat) + "."@ + ext
}

/// The name being placed: its numbering parts, the next number, and the
/// candidate name waiting for an answer.
pub struct Pending {
    pub stem: Seq<char>,
    pub ext: Seq<char>,
    pub suffix: u32,
    pub candidate: Seq<char>,
}

/// The state of a naming run.
pub struct NamerModel {
    pub directory: Seq<char>,
    pub chosen: Seq<Seq<char>>,
    pub pending: Option<Pending>,
}

/// What the caller does next.
pub enum NamerStep {
    /// Tell whether this path exists, with `answer`.
    Probe(String),
    /// This path is the output path for the requested name.
    Chosen(String),
}

struct PendingName {
    stem: Vec<char>,
    ext: Vec<char>,
    suffix: u32,
    candidate: Vec<char>,
}

/// Finds, for each requested file name in turn, a path in one directory that
/// neither exists nor was chosen before: the name itself, else
/// `{stem}-2.{ext}`, `{stem}-3.{ext}`, and so on. Whether a path exists is
/// asked of the caller.
pub struct OutputNamer {
    directory: String,
    chosen: Vec<Vec<char>>,
    pending: Option<PendingName>,
}

pub open spec fn distinct_texts(s: Seq<Seq<char>>) -> bool {
    forall|i: int, j: int| 0 <= i < j < s.len() ==> #[trigger] s[i] != #[trigger] s[j]
}

impl OutputNamer {
    pub closed spec fn model(&self) -> NamerModel {
        NamerModel {
            directory: self.directory@,
            chosen: self.chosen@.map_values(|c: Vec<char>| c@),
            pending: match self.pending {
                Some(p) => Some(
                    Pending {
                        stem: p.stem@,
                        ext: p.ext@,
                        suffix: p.suffix,
                        candidate: p.candidate@,
                    },
                ),
                None => None,
            },
        }
    }

    #[verifier::type_invariant]
    spec fn chosen_distinct(&self) -> bool {
        distinct_texts(self.chosen@.map_values(|c: Vec<char>| c@))
    }

    /// A run in `directory` with nothing chosen yet.
    pub fn new(directory: String) -> (r: OutputNamer)
        ensures
            r.model().directory == directory@,
            r.model().chosen == Seq::<Seq<char>>::empty(),
            r.model().pending is None,
    {
        let r = OutputNamer { directory, chosen: Vec::new(), pending: None };
        assert(r.model().chosen =~= Seq::<Seq<char>>::empty());
        r
    }

    /// The paths chosen so far are all different.
    pub fn chosen_are_distinct(&self)
        ensures
            distinct_texts(self.model().chosen),
    {
        proof {
            use_type_invariant(self);
        }
    }

    /// Starts placing `name`: refuses a name that is not a plain file name,
    /// else asks about the name itself first.
    pub fn begin(&mut self, name: &str) -> (r: Result<String, NamingError>)
        ensures
            valid_output_name(name@) ==> {
                &&& r matches Ok(p) && p@ == join(old(self).model().directory, name@)
                &&& final(self).model() == (NamerModel {
                    pending: Some(
                        Pending {
                            stem: output_stem(name@),
                            ext: output_ext(name@),
                            suffix: 2,
                            candidate: name@,
                        },
                    ),
                    ..old(self).model()
                })
            },
            !valid_output_name(name@) ==> {
                &&& r == Err::<String, NamingError>(NamingError::InvalidName)
                &&& final(self).model() == old(self).model()
            },
    {
        proof {
            use_type_invariant(&*self);
        }
        let chars = to_chars(name);
        let (a, b) = match file_name_range(&chars) {
            Some(range) => range,
            None => {
                return Err(NamingError::InvalidName);
            },
        };
        if !(a == 0 && b == chars.len()) {
            proof {
                if file_name(name@) == Some(name@) {
                    assert(chars@.subrange(a as int, b as int).len() == chars@.len());
                }
            }
            return Err(NamingError::InvalidName);
        }
        assert(chars@.subrange(0, chars@.len() as int) =~= chars@);
        let (x, y) = stem_range(&chars, a, b);
        let stem = if x < y {
            copy_range(&chars, x, y)
        } else {
            to_chars("image")
        };
        let ext = match ext_range(&chars, a, b) {
            Some((u, v)) => copy_range(&chars, u, v),
            None => to_chars("png"),
        };
        let path = join_name(self.directory.as_str(), &chars, 0, chars.len());
        self.pending = Some(PendingName { stem, ext, suffix: 2, candidate: chars });
        Ok(path)
    }

    /// Whether `answer` may be given `on_disk` now: a name is being placed,
    /// and its number can still go up if the candidate is taken.
    pub fn can_answer(&self, on_disk: bool) -> (r: bool)
        ensures
            r == answerable(self.model(), on_disk),
    {
        match &self.pending {
            Some(p) => {
                let taken = on_disk || self.is_chosen(&p.candidate);
                !taken || p.suffix < u32::MAX
            },
            None => false,
        }
    }

    fn is_chosen(&self, name: &Vec<char>) -> (r: bool)
        ensures
            r == self.model().chosen.contains(name@),
    {
        let mut i: usize = 0;
        while i < self.chosen.len()
            invariant
                i <= self.chosen@.len(),
                forall|j: int| 0 <= j < i ==> (#[trigger] self.chosen@[j])@ != name@,
            decreases self.chosen.len() - i,
        {
            if chars_equal(&self.chosen[i], name) {
                assert(self.model().chosen[i as int] == name@);
                return true;
            }
            i = i + 1;
        }
        assert(!self.model().chosen.contains(name@)) by {
            if self.model().chosen.contains(name@) {
                let j = choose|j: int| 0 <= j < self.model().chosen.len() && self.model().chosen[j] == name@;
                assert(self.chosen@[j]@ == name@);
            }
        }
        false
    }

    /// Takes the answer to the last probe: `on_disk` says whether that path
    /// exists. A candidate that exists or was chosen before gives way to the
    /// next numbered name; a free one is chosen.
    pub fn answer(&mut self, on_disk: bool) -> (r: NamerStep)
        requires
            answerable(old(self).model(), on_disk),
        ensures
            ({
                let m = old(self).model();
                let p = m.pending.unwrap();
                if on_disk || m.chosen.contains(p.candidate) {
                    let next = numbered_name(p.stem, p.suffix, p.ext);
                    &&& r matches NamerStep::Probe(path) && path@ == join(m.directory, next)
                    &&& final(self).model() == (NamerModel {
                        pending: Some(Pending { suffix: (p.suffix + 1) as u32, candidate: next, ..p }),
                        ..m
                    })
                } else {
                    &&& r matches NamerStep::Chosen(path) && path@ == join(m.directory, p.candidate)
                    &&& final(self).model() == (NamerModel {
                        chosen: m.chosen.push(p.candidate),
                        pending: None,
                        ..m
                    })
                }
            }),
    {
        proof {
            use_type_invariant(&*self);
        }
        let ghost m = self.model();
        let mut slot: Option<PendingName> = None;
        std::mem::swap(&mut slot, &mut self.pending);
        let p = slot.unwrap();
        let taken = on_disk || self.is_chosen(&p.candidate);
        if taken {
            let next = numbered(&p.stem, p.suffix, &p.ext);
            let path = join_name(self.directory.as_str(), &next, 0, next.len());
            assert(next@.subrange(0, next@.len() as int) =~= next@);
            self.pending = Some(
                PendingName { stem: p.stem, ext: p.ext, suffix: p.suffix + 1, candidate: next },
            );
            NamerStep::Probe(path)
        } else {
            let path = join_name(self.directory.as_str(), &p.candidate, 0, p.candidate.len());
            assert(p.candidate@.subrange(0, p.candidate@.len() as int) =~= p.candidate@);
            let mut chosen: Vec<Vec<char>> = Vec::new();
            std::mem::swap(&mut chosen, &mut self.chosen);
            let ghost before = chosen@.map_values(|c: Vec<char>| c@);
            chosen.push(p.candidate);
            proof {
                let after = chosen@.map_values(|c: Vec<char>| c@);
                assert(after =~= before.push(p.candidate@));
                assert(!before.contains(p.candidate@));
                assert forall|i: int, j: int| 0 <= i < j < after.len() implies #[trigger] after[i]
                    != #[trigger] after[j] by {
                    if j == after.len() - 1 {
                        assert(after[i] == before[i]);
                    } else {
                        assert(after[i] == before[i] && after[j] == before[j]);
                    }
                }
            }
            self.chosen = chosen;
            NamerStep::Chosen(path)
        }
    }
}

/// `answer` may take `on_disk`: a name is being placed, and its number has
/// room to go up should the candidate be taken.
pub open spec fn answerable(m: NamerModel, on_disk: bool) -> bool {
    match m.pending {
        Some(p) => (on_disk || m.chosen.contains(p.candidate)) ==> p.suffix < u32::MAX,
        None => false,
    }
}

fn copy_range(chars: &Vec<char>, a: usize, b: usize) -> (r: Vec<char>)
    requires
        a <= b <= chars.len(),
    ensures
        r@ == chars@.subrange(a as int, b as int),
{
    let mut out: Vec<char> = Vec::new();
    let mut i = a;
    while i < b
        invariant
            a <= i <= b <= chars.len(),
            out@ == chars@.subrange(a as int, i as int),
        decreases b - i,
    {
        out.push(chars[i]);
        assert(chars@.subrange(a as int, i + 1) =~= chars@.subrange(a as int, i as int).push(chars@[i as int]));
        i = i + 1;
    }
    out
}

fn numbered(stem: &Vec<char>, suffix: u32, ext: &Vec<char>) -> (r: Vec<char>)
    ensures
        r@ == numbered_name(stem@, suffix, ext@),
{
    let mut s = String::new();
    let mut i: usize = 0;
    while i < stem.len()
        invariant
            i <= stem@.len(),
            s@ == stem@.subrange(0, i as int),
        decreases stem.len() - i,
    {
        push_char(&mut s, stem[i]);
        assert(stem@.subrange(0, i + 1) =~= stem@.subrange(0, i as int).push(stem@[i as int]));
        i = i + 1;
    }
    assert(stem@.subrange(0, stem@.len() as int) =~= stem@);
    s.append("-");
    push_decimal(&mut s, suffix as u64);
    s.append(".");
    let mut j: usize = 0;
    let ghost base = s@;
    while j < ext.len()
        invariant
            j <= ext@.len(),
            s@ == base + ext@.subrange(0, j as int),
        decreases ext.len() - j,
    {
        push_char(&mut s, ext[j]);
        assert(ext@.subrange(0, j + 1) =~= ext@.subrange(0, j as int).push(ext@[j as int]));
        j = j + 1;
    }
    assert(ext@.subrange(0, ext@.len() as int) =~= ext@);
    to_chars(s.as_str())
}

} // verus!
