//! Path expressions such as `a.b[1].c`, read into their components.
//!
//! A path is a key or an index, followed by any number of `.key` and
//! `[index]`. A key is one or more bytes other than `.`, `[` and `]`; an
//! index is one or more decimal digits between brackets. Anything else is
//! an error: no text is taken for a key because it failed as an index.

use vstd::prelude::*;
use vstd::slice::{slice_subrange, slice_to_vec};
use vstd::string::StringSliceAdditionalSpecFns;

verus! {

/// The byte `.`, which stands before a key.
pub const DOT: u8 = 46;

/// The byte `[`, which opens an index.
pub const OPEN: u8 = 91;

/// The byte `]`, which closes an index.
pub const CLOSE: u8 = 93;

/// The digit `0`.
pub const ZERO: u8 = 48;

/// The digit `9`.
pub const NINE: u8 = 57;

/// One step of a path.
#[derive(Clone, Debug, PartialEq, Eq)]
pub enum PathComponent {
    /// In `a.b[0].c[2]` the keys are `a`, `b` and `c`.
    Key(Vec<u8>),
    /// In `a.b[0].c[2]` the indices are 0 and 2.
    Index(usize),
}

/// One step of a path, as a plain value.
pub ghost enum Segment {
    Key(Seq<u8>),
    Index(nat),
}

/// Why a text is no path.
#[derive(Clone, Copy, Debug, PartialEq, Eq, Structural)]
pub enum PathError {
    /// A key is expected and none is there.
    EmptyKey,
    /// A `]` ends a key.
    UnexpectedBracket,
    /// A `[` is not followed by digits and a `]`.
    BadIndex,
    /// An index does not fit the machine's word.
    IndexTooLarge,
    /// A `]` is followed by something other than `.` or `[`.
    MissingSeparator,
}

impl View for PathComponent {
    type V = Segment;

    /// The component as a plain value.
    open spec fn view(&self) -> Segment {
        match *self {
            PathComponent::Key(k) => Segment::Key(k@),
            PathComponent::Index(i) => Segment::Index(i as nat),
        }
    }
}

/// The components as plain values.
pub open spec fn path_model(p: Seq<PathComponent>) -> Seq<Segment> {
    p.map_values(|c: PathComponent| c@)
}

/// Whether a byte ends a key.
pub open spec fn is_delimiter(b: u8) -> bool {
    b == DOT || b == OPEN || b == CLOSE
}

/// Whether a byte is a decimal digit.
pub open spec fn is_digit(b: u8) -> bool {
    ZERO <= b <= NINE
}

/// Where the key that starts at `pos` ends.
pub open spec fn key_end(s: Seq<u8>, pos: int) -> int
    decreases s.len() - pos,
{
    if pos < 0 || pos >= s.len() || is_delimiter(s[pos]) {
        pos
    } else {
        key_end(s, pos + 1)
    }
}

/// Where the digits that start at `pos` end.
pub open spec fn digits_end(s: Seq<u8>, pos: int) -> int
    decreases s.len() - pos,
{
    if pos < 0 || pos >= s.len() || !is_digit(s[pos]) {
        pos
    } else {
        digits_end(s, pos + 1)
    }
}

/// The number that decimal digits stand for.
pub open spec fn decimal(d: Seq<u8>) -> nat
    decreases d.len(),
{
    if d.len() == 0 {
        0
    } else {
        (decimal(d.drop_last()) * 10 + (d.last() - ZERO)) as nat
    }
}

/// Puts one more component before those that follow, if they are a path.
pub open spec fn prepend(first: Segment, rest: Result<Seq<Segment>, PathError>) -> Result<
    Seq<Segment>,
    PathError,
> {
    match rest {
        Ok(p) => Ok(seq![first] + p),
        Err(e) => Err(e),
    }
}

/// The path that starts with a key at `pos`.
pub open spec fn lex_key(s: Seq<u8>, pos: int) -> Result<Seq<Segment>, PathError>
    decreases s.len() - pos, 0int,
{
    let end = key_end(s, pos);
    if pos < 0 || pos > s.len() || end <= pos || end > s.len() {
        Err(PathError::EmptyKey)
    } else {
        prepend(Segment::Key(s.subrange(pos, end)), lex_rest(s, end))
    }
}

/// The path that starts with the `[` of an index at `pos`.
pub open spec fn lex_index(s: Seq<u8>, pos: int) -> Result<Seq<Segment>, PathError>
    decreases s.len() - pos, 0int,
{
    let end = digits_end(s, pos + 1);
    if pos < 0 || end <= pos + 1 || end >= s.len() || s[end] != CLOSE {
        Err(PathError::BadIndex)
    } else if decimal(s.subrange(pos + 1, end)) > usize::MAX {
        Err(PathError::IndexTooLarge)
    } else {
        prepend(Segment::Index(decimal(s.subrange(pos + 1, end))), lex_rest(s, end + 1))
    }
}

/// What may follow a component that ends at `pos`.
pub open spec fn lex_rest(s: Seq<u8>, pos: int) -> Result<Seq<Segment>, PathError>
    decreases s.len() - pos, 1int,
{
    if pos < 0 || pos >= s.len() {
        Ok(Seq::empty())
    } else if s[pos] == DOT {
        lex_key(s, pos + 1)
    } else if s[pos] == OPEN {
        lex_index(s, pos)
    } else if s[pos] == CLOSE {
        Err(PathError::UnexpectedBracket)
    } else {
        Err(PathError::MissingSeparator)
    }
}

/// The components of a path expression, or why it is none.
pub open spec fn lex_path(s: Seq<u8>) -> Result<Seq<Segment>, PathError> {
    if s.len() == 0 {
        Ok(Seq::empty())
    } else if s[0] == OPEN {
        lex_index(s, 0)
    } else {
        lex_key(s, 0)
    }
}

/// Puts the components read so far before those that follow, if they are
/// a path.
pub open spec fn extend(read: Seq<Segment>, rest: Result<Seq<Segment>, PathError>) -> Result<
    Seq<Segment>,
    PathError,
> {
    match rest {
        Ok(p) => Ok(read + p),
        Err(e) => Err(e),
    }
}

/// Putting a component before what follows, and then what was read before
/// both, is putting what was read and the component before what follows.
proof fn lemma_extend_prepend(
    read: Seq<Segment>,
    next: Segment,
    rest: Result<Seq<Segment>, PathError>,
)
    ensures
        extend(read, prepend(next, rest)) == extend(read.push(next), rest),
{
    if let Ok(p) = rest {
        assert(read + (seq![next] + p) =~= read.push(next) + p);
    }
}

/// One more digit behind a number multiplies it by ten and adds the digit.
pub proof fn lemma_decimal_push(d: Seq<u8>, b: u8)
    requires
        is_digit(b),
    ensures
        decimal(d.push(b)) == decimal(d) * 10 + (b - ZERO),
{
    assert(d.push(b).drop_last() =~= d);
}

/// Reads a path expression into its components.
pub fn parse_path(path: &[u8]) -> (r: Result<Vec<PathComponent>, PathError>)
    ensures
        match r {
            Ok(p) => lex_path(path@) == Ok::<Seq<Segment>, PathError>(path_model(p@)),
            Err(e) => lex_path(path@) == Err::<Seq<Segment>, PathError>(e),
        },
{
    let n: usize = path.len();
    let mut out: Vec<PathComponent> = Vec::new();
    if n == 0 {
        assert(path_model(out@) =~= Seq::<Segment>::empty());
        return Ok(out);
    }
    let mut pos: usize = 0;
    let mut expect_key: bool = path[0] != OPEN;
    proof {
        let first = if expect_key {
            lex_key(path@, 0)
        } else {
            lex_index(path@, 0)
        };
        assert(path_model(out@) =~= Seq::<Segment>::empty());
        if let Ok(p) = first {
            assert(Seq::<Segment>::empty() + p =~= p);
        }
    }
    loop
        invariant
            n == path@.len(),
            pos <= n,
            !expect_key ==> pos < n && path@[pos as int] == OPEN,
            lex_path(path@) == extend(
                path_model(out@),
                if expect_key {
                    lex_key(path@, pos as int)
                } else {
                    lex_index(path@, pos as int)
                },
            ),
        decreases n - pos,
    {
        let ghost read = path_model(out@);
        if expect_key {
            let mut end: usize = pos;
            while end < n && !(path[end] == DOT || path[end] == OPEN || path[end] == CLOSE)
                invariant
                    n == path@.len(),
                    pos <= end <= n,
                    key_end(path@, pos as int) == key_end(path@, end as int),
                decreases n - end,
            {
                end += 1;
            }
            if end == pos {
                return Err(PathError::EmptyKey);
            }
            let key = slice_to_vec(slice_subrange(path, pos, end));
            let component = PathComponent::Key(key);
            proof {
                lemma_extend_prepend(read, component@, lex_rest(path@, end as int));
                assert(path_model(out@.push(component)) =~= read.push(component@));
            }
            out.push(component);
            pos = end;
        } else {
            let start: usize = pos + 1;
            let mut end: usize = start;
            let mut value: usize = 0;
            let mut fits: bool = true;
            assert(path@.subrange(start as int, end as int) =~= Seq::<u8>::empty());
            while end < n && ZERO <= path[end] && path[end] <= NINE
                invariant
                    n == path@.len(),
                    start <= end <= n,
                    digits_end(path@, start as int) == digits_end(path@, end as int),
                    fits ==> value == decimal(path@.subrange(start as int, end as int)),
                    !fits ==> decimal(path@.subrange(start as int, end as int)) > usize::MAX,
                decreases n - end,
            {
                let digit: usize = (path[end] - ZERO) as usize;
                proof {
                    lemma_decimal_push(path@.subrange(start as int, end as int), path@[end as int]);
                    assert(path@.subrange(start as int, end + 1) =~= path@.subrange(
                        start as int,
                        end as int,
                    ).push(path@[end as int]));
                }
                if fits {
                    match value.checked_mul(10) {
                        Some(tens) => match tens.checked_add(digit) {
                            Some(sum) => {
                                value = sum;
                            },
                            None => {
                                fits = false;
                            },
                        },
                        None => {
                            fits = false;
                        },
                    }
                }
                end += 1;
            }
            if end == start || end >= n || path[end] != CLOSE {
                return Err(PathError::BadIndex);
            }
            if !fits {
                return Err(PathError::IndexTooLarge);
            }
            let component = PathComponent::Index(value);
            proof {
                lemma_extend_prepend(read, component@, lex_rest(path@, end + 1));
                assert(path_model(out@.push(component)) =~= read.push(component@));
            }
            out.push(component);
            pos = end + 1;
        }
        if pos >= n {
            assert(path_model(out@) + Seq::<Segment>::empty() =~= path_model(out@));
            return Ok(out);
        }
        let b: u8 = path[pos];
        if b == DOT {
            pos += 1;
            expect_key = true;
        } else if b == OPEN {
            expect_key = false;
        } else if b == CLOSE {
            return Err(PathError::UnexpectedBracket);
        } else {
            return Err(PathError::MissingSeparator);
        }
    }
}

/// Reads the path expression that a text holds.
pub fn parse(path: &str) -> (r: Result<Vec<PathComponent>, PathError>)
    ensures
        match r {
            Ok(p) => lex_path(path.spec_bytes()) == Ok::<Seq<Segment>, PathError>(path_model(p@)),
            Err(e) => lex_path(path.spec_bytes()) == Err::<Seq<Segment>, PathError>(e),
        },
{
    parse_path(path.as_bytes())
}

} // verus!
