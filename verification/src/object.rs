//! Objects: named starting configurations of live cells that can be loaded
//! onto a grid at a chosen offset.
//!
//! The textual pattern format is whitespace-separated `(x,y)` pairs of
//! non-negative integers, for example `(0,2) (1,2) (2,2) (1,0) (2,1)`.
//! Parentheses are ignored wherever they occur, and so is whitespace around
//! the comma. The scanner below reads the text one character at a time;
//! [`parse_pattern`] is the whole parse, and [`Object::from_string`] is
//! proved to return exactly its result.

use vstd::prelude::*;

verus! {

/// A pattern of initially-live cells, as `(x, y)` coordinates relative to
/// the pattern's own origin. Load one onto a grid with
/// [`crate::grid::Grid::load_object`].
#[derive(Debug, Clone, PartialEq)]
pub struct Object {
    pub coordinates: Vec<(usize, usize)>,
}

/// The ways parsing a pattern text can fail.
#[derive(Debug, PartialEq, Eq, Structural, Clone, Copy)]
pub enum LoadObjectError {
    /// The input contained no coordinates at all.
    NoCoordinatesFound,
    /// The input contained the same coordinate twice.
    DuplicateCoordinate,
    /// The input was not whitespace-separated `(x,y)` pairs of non-negative
    /// integers that fit in `usize`.
    BadInput,
}

/// Whitespace accepted between coordinate pairs and around the comma.
pub open spec fn is_pattern_whitespace(c: char) -> bool {
    c == ' ' || c == '\n' || c == '\t' || c == '\r'
}

/// A decimal digit `'0'` to `'9'`.
pub open spec fn is_decimal_digit(c: char) -> bool {
    48 <= c as u32 && c as u32 <= 57
}

/// The numeric value of a decimal digit character.
pub open spec fn digit_value(c: char) -> int {
    c as u32 - 48
}

/// Where the scanner stands inside the pattern text.
#[derive(Debug, PartialEq, Eq, Structural, Clone, Copy)]
pub enum ParseState {
    /// Between coordinate pairs, before a pair's first digit.
    Between,
    /// Reading the digits of `x`; holds the value read so far.
    InX(usize),
    /// After the digits of `x`, before the comma.
    AfterX(usize),
    /// After the comma, before the first digit of `y`; holds `x`.
    AfterComma(usize),
    /// Reading the digits of `y`; holds `x` and the value of `y` so far.
    InY(usize, usize),
    /// The text does not match the pattern format.
    Failed,
}

/// One character of scanning: the state after reading `c` in state `st`,
/// and the coordinate pair completed by `c`, if any.
///
/// Parentheses are ignored in every state. A pair is complete when
/// whitespace follows the digits of `y`; a pair that ends with the text
/// instead is completed by [`scan`]. A number too large for `usize` fails
/// the scan.
pub open spec fn scan_step(st: ParseState, c: char) -> (ParseState, Option<(usize, usize)>) {
    if c == '(' || c == ')' {
        (st, None)
    } else {
        match st {
            ParseState::Between => {
                if is_pattern_whitespace(c) {
                    (ParseState::Between, None)
                } else if is_decimal_digit(c) {
                    (ParseState::InX(digit_value(c) as usize), None)
                } else {
                    (ParseState::Failed, None)
                }
            },
            ParseState::InX(v) => {
                if is_decimal_digit(c) {
                    if v * 10 + digit_value(c) > usize::MAX {
                        (ParseState::Failed, None)
                    } else {
                        (ParseState::InX((v * 10 + digit_value(c)) as usize), None)
                    }
                } else if is_pattern_whitespace(c) {
                    (ParseState::AfterX(v), None)
                } else if c == ',' {
                    (ParseState::AfterComma(v), None)
                } else {
                    (ParseState::Failed, None)
                }
            },
            ParseState::AfterX(v) => {
                if is_pattern_whitespace(c) {
                    (ParseState::AfterX(v), None)
                } else if c == ',' {
                    (ParseState::AfterComma(v), None)
                } else {
                    (ParseState::Failed, None)
                }
            },
            ParseState::AfterComma(x) => {
                if is_pattern_whitespace(c) {
                    (ParseState::AfterComma(x), None)
                } else if is_decimal_digit(c) {
                    (ParseState::InY(x, digit_value(c) as usize), None)
                } else {
                    (ParseState::Failed, None)
                }
            },
            ParseState::InY(x, y) => {
                if is_decimal_digit(c) {
                    if y * 10 + digit_value(c) > usize::MAX {
                        (ParseState::Failed, None)
                    } else {
                        (ParseState::InY(x, (y * 10 + digit_value(c)) as usize), None)
                    }
                } else if is_pattern_whitespace(c) {
                    (ParseState::Between, Some((x, y)))
                } else {
                    (ParseState::Failed, None)
                }
            },
            ParseState::Failed => (ParseState::Failed, None),
        }
    }
}

/// The rest of the scan: reading `s` from state `st` with the coordinates
/// `acc` already collected. A coordinate seen twice stops the scan with
/// [`LoadObjectError::DuplicateCoordinate`]; text that leaves the scanner
/// outside a completed pair is [`LoadObjectError::BadInput`]; a scan that
/// completes without one coordinate is
/// [`LoadObjectError::NoCoordinatesFound`].
pub open spec fn scan(s: Seq<char>, st: ParseState, acc: Seq<(usize, usize)>) -> Result<
    Seq<(usize, usize)>,
    LoadObjectError,
>
    decreases s.len(),
{
    if st == ParseState::Failed {
        Err(LoadObjectError::BadInput)
    } else if s.len() == 0 {
        match st {
            ParseState::Between => {
                if acc.len() == 0 {
                    Err(LoadObjectError::NoCoordinatesFound)
                } else {
                    Ok(acc)
                }
            },
            ParseState::InY(x, y) => {
                if acc.contains((x, y)) {
                    Err(LoadObjectError::DuplicateCoordinate)
                } else {
                    Ok(acc.push((x, y)))
                }
            },
            _ => Err(LoadObjectError::BadInput),
        }
    } else {
        let r = scan_step(st, s[0]);
        match r.1 {
            Some(p) => {
                if acc.contains(p) {
                    Err(LoadObjectError::DuplicateCoordinate)
                } else {
                    scan(s.drop_first(), r.0, acc.push(p))
                }
            },
            None => scan(s.drop_first(), r.0, acc),
        }
    }
}

/// The parse of a whole pattern text: the coordinate pairs in text order,
/// or the error the text deserves.
pub open spec fn parse_pattern(s: Seq<char>) -> Result<Seq<(usize, usize)>, LoadObjectError> {
    scan(s, ParseState::Between, Seq::empty())
}

/// One character of scanning, executably: exactly [`scan_step`].
fn step_char(st: ParseState, c: char) -> (r: (ParseState, Option<(usize, usize)>))
    ensures
        r == scan_step(st, c),
{
    if c == '(' || c == ')' {
        return (st, None);
    }
    let u = c as u32;
    let ws = c == ' ' || c == '\n' || c == '\t' || c == '\r';
    let digit = 48 <= u && u <= 57;
    match st {
        ParseState::Between => {
            if ws {
                (ParseState::Between, None)
            } else if digit {
                (ParseState::InX((u - 48) as usize), None)
            } else {
                (ParseState::Failed, None)
            }
        },
        ParseState::InX(v) => {
            if digit {
                let d = (u - 48) as usize;
                if v > (usize::MAX - d) / 10 {
                    (ParseState::Failed, None)
                } else {
                    (ParseState::InX(v * 10 + d), None)
                }
            } else if ws {
                (ParseState::AfterX(v), None)
            } else if c == ',' {
                (ParseState::AfterComma(v), None)
            } else {
                (ParseState::Failed, None)
            }
        },
        ParseState::AfterX(v) => {
            if ws {
                (ParseState::AfterX(v), None)
            } else if c == ',' {
                (ParseState::AfterComma(v), None)
            } else {
                (ParseState::Failed, None)
            }
        },
        ParseState::AfterComma(x) => {
            if ws {
                (ParseState::AfterComma(x), None)
            } else if digit {
                (ParseState::InY(x, (u - 48) as usize), None)
            } else {
                (ParseState::Failed, None)
            }
        },
        ParseState::InY(x, y) => {
            if digit {
                let d = (u - 48) as usize;
                if y > (usize::MAX - d) / 10 {
                    (ParseState::Failed, None)
                } else {
                    (ParseState::InY(x, y * 10 + d), None)
                }
            } else if ws {
                (ParseState::Between, Some((x, y)))
            } else {
                (ParseState::Failed, None)
            }
        },
        ParseState::Failed => (ParseState::Failed, None),
    }
}

/// Whether `v` holds the pair `p`.
fn vec_contains_pair(v: &Vec<(usize, usize)>, p: (usize, usize)) -> (b: bool)
    ensures
        b == v@.contains(p),
{
    let mut i: usize = 0;
    while i < v.len()
        invariant
            i <= v@.len(),
            forall|t: int| 0 <= t < i ==> v@[t] != p,
        decreases v@.len() - i,
    {
        let q = v[i];
        if q.0 == p.0 && q.1 == p.1 {
            assert(v@[i as int] == p);
            return true;
        }
        i = i + 1;
    }
    assert(!v@.contains(p));
    false
}

impl Object {
    /// Parse an object from its textual form: whitespace-separated `(x,y)`
    /// pairs. Returns exactly what [`parse_pattern`] says of the text: the
    /// coordinates in text order, or the first error the scan runs into.
    pub fn from_string(buffer: &str) -> (r: Result<Object, LoadObjectError>)
        ensures
            (match r {
                Ok(o) => parse_pattern(buffer@) == Ok::<Seq<(usize, usize)>, LoadObjectError>(
                    o.coordinates@,
                ),
                Err(e) => parse_pattern(buffer@) == Err::<Seq<(usize, usize)>, LoadObjectError>(e),
            }),
    {
        let n = buffer.unicode_len();
        let mut st = ParseState::Between;
        let mut acc: Vec<(usize, usize)> = Vec::new();
        let mut i: usize = 0;
        proof {
            assert(buffer@.skip(0) =~= buffer@);
        }
        while i < n
            invariant
                i <= n,
                n == buffer@.len(),
                st != ParseState::Failed,
                parse_pattern(buffer@) == scan(buffer@.skip(i as int), st, acc@),
            decreases n - i,
        {
            let c = buffer.get_char(i);
            proof {
                assert(buffer@.skip(i as int)[0] == buffer@[i as int]);
                assert(buffer@.skip(i as int).drop_first() =~= buffer@.skip(i as int + 1));
            }
            let (st2, emit) = step_char(st, c);
            match emit {
                Some(p) => {
                    if vec_contains_pair(&acc, p) {
                        return Err(LoadObjectError::DuplicateCoordinate);
                    }
                    acc.push(p);
                },
                None => {},
            }
            if st2 == ParseState::Failed {
                proof {
                    assert(parse_pattern(buffer@) == scan(buffer@.skip(i as int + 1), st2, acc@));
                    assert(scan(buffer@.skip(i as int + 1), st2, acc@) == Err::<
                        Seq<(usize, usize)>,
                        LoadObjectError,
                    >(LoadObjectError::BadInput));
                }
                return Err(LoadObjectError::BadInput);
            }
            st = st2;
            i = i + 1;
        }
        proof {
            assert(buffer@.skip(n as int) =~= Seq::<char>::empty());
        }
        match st {
            ParseState::Between => {
                if acc.len() == 0 {
                    Err(LoadObjectError::NoCoordinatesFound)
                } else {
                    Ok(Object { coordinates: acc })
                }
            },
            ParseState::InY(x, y) => {
                if vec_contains_pair(&acc, (x, y)) {
                    Err(LoadObjectError::DuplicateCoordinate)
                } else {
                    acc.push((x, y));
                    Ok(Object { coordinates: acc })
                }
            },
            _ => Err(LoadObjectError::BadInput),
        }
    }
}

} // verus!
