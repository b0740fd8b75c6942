//! The syntax of version ranges and constraints.
//!
//! A range is written with caret syntax (`^1.4`, or just `1.4`), tilde syntax (`~1.4`), as
//! `any`, or as an optional lower bound (`>`, `>=`, `>!`, `>=!`) followed by an optional upper
//! bound (`<`, `<=`, `<!`, `<=!`). A version in a range may omit its minor and patch numbers.
//! Whitespace may separate the tokens of a range. A constraint is a comma-separated list of
//! ranges. Text left over after the ranges is refused.

use vstd::prelude::*;
use crate::constraint::{dedup, unify, Constraint};
use crate::interval::{any_range, range_new_ok, Interval, IntervalV, Range, RangeV};
use crate::text::{digits_value, is_digit, str_chars, string_of_chars, value_of_digit};
use crate::version::{digits_and_dots, dotted_triple, is_pre, Version, VersionV};

verus! {

pub open spec fn is_ws(c: char) -> bool {
    c == ' ' || c == '\t' || c == '\r' || c == '\n'
}

pub open spec fn is_version_char(c: char) -> bool {
    c == '.' || is_digit(c)
}

/// The first position at or after `i` that is not whitespace.
pub open spec fn skip_ws(s: Seq<char>, i: int) -> int
    decreases s.len() - i,
{
    if 0 <= i < s.len() && is_ws(s[i]) {
        skip_ws(s, i + 1)
    } else {
        i
    }
}

/// The first position at or after `i` that is not a digit.
pub open spec fn digits_end(s: Seq<char>, i: int) -> int
    decreases s.len() - i,
{
    if 0 <= i < s.len() && is_digit(s[i]) {
        digits_end(s, i + 1)
    } else {
        i
    }
}

/// The first position at or after `i` that is neither a digit nor a dot.
pub open spec fn version_chars_end(s: Seq<char>, i: int) -> int
    decreases s.len() - i,
{
    if 0 <= i < s.len() && is_version_char(s[i]) {
        version_chars_end(s, i + 1)
    } else {
        i
    }
}

/// A decimal number at `i` that fits a `u64`, and the position after it.
pub open spec fn number_at(s: Seq<char>, i: int) -> Option<(int, u64)> {
    let j = digits_end(s, i);
    if j > i && digits_value(s.subrange(i, j)) <= u64::MAX {
        Some((j, digits_value(s.subrange(i, j)) as u64))
    } else {
        None
    }
}

pub open spec fn plain_version(major: u64, minor: u64, patch: u64) -> VersionV {
    VersionV { major, minor, patch, pre: Seq::empty(), build: Seq::empty() }
}

/// A version in a range: a full `A.B.C` version as `semver` reads it, else `A.B`, else `A`;
/// with whether the minor and the patch number were written.
pub open spec fn bare_version_at(s: Seq<char>, i: int) -> Option<(int, (VersionV, bool, bool))> {
    let j = version_chars_end(s, i);
    if j > i && dotted_triple(s.subrange(i, j)) is Some {
        Some((j, (dotted_triple(s.subrange(i, j))->Some_0, true, true)))
    } else {
        match number_at(s, i) {
            None => None,
            Some((j1, major)) => if j1 < s.len() && s[j1] == '.' && number_at(s, j1 + 1) is Some {
                let (j2, minor) = number_at(s, j1 + 1)->Some_0;
                Some((j2, (plain_version(major, minor, 0), true, false)))
            } else {
                Some((j1, (plain_version(major, 0, 0), false, false)))
            },
        }
    }
}

/// The upper end of a caret range: the next major version, or the next minor or patch
/// version for versions below 1.0.0 written with them. `None` where the number overflows.
pub open spec fn caret_upper(v: VersionV, minor_specified: bool, patch_specified: bool) -> Option<
    VersionV,
> {
    if v.major > 0 || (!minor_specified && !patch_specified) {
        if v.major < u64::MAX {
            Some(plain_version((v.major + 1) as u64, 0, 0))
        } else {
            None
        }
    } else if v.minor > 0 {
        if v.minor < u64::MAX {
            Some(plain_version(v.major, (v.minor + 1) as u64, 0))
        } else {
            None
        }
    } else if v.patch < u64::MAX {
        Some(plain_version(v.major, v.minor, (v.patch + 1) as u64))
    } else {
        None
    }
}

/// The upper end of a tilde range: the next major version where only the major number was
/// written, else the next minor version.
pub open spec fn tilde_upper(v: VersionV, minor_specified: bool, patch_specified: bool) -> Option<
    VersionV,
> {
    if !minor_specified && !patch_specified {
        if v.major < u64::MAX {
            Some(plain_version((v.major + 1) as u64, 0, 0))
        } else {
            None
        }
    } else if v.minor < u64::MAX {
        Some(plain_version(v.major, (v.minor + 1) as u64, 0))
    } else {
        None
    }
}

/// `[v, u)` as a range, where `Range::new` accepts it.
pub open spec fn half_open(v: VersionV, u: Option<VersionV>) -> Option<RangeV> {
    match u {
        Some(u) => {
            let lower = IntervalV::Closed(v, false);
            let upper = IntervalV::Open(u, false);
            if range_new_ok(lower, upper) {
                Some(RangeV { lower, upper })
            } else {
                None
            }
        },
        None => None,
    }
}

/// What a range parser reads at `i`: `None` where it does not apply, else the position after
/// it (trailing whitespace included) and the range, which is `None` where the range makes no
/// sense.
pub open spec fn caret_at(s: Seq<char>, i: int) -> Option<(int, Option<RangeV>)> {
    let i1 = skip_ws(s, i);
    let i2 = if i1 < s.len() && s[i1] == '^' {
        i1 + 1
    } else {
        i1
    };
    match bare_version_at(s, skip_ws(s, i2)) {
        Some((j, (v, ms, ps))) => Some((skip_ws(s, j), half_open(v, caret_upper(v, ms, ps)))),
        None => None,
    }
}

pub open spec fn tilde_at(s: Seq<char>, i: int) -> Option<(int, Option<RangeV>)> {
    let i1 = skip_ws(s, i);
    if i1 < s.len() && s[i1] == '~' {
        match bare_version_at(s, skip_ws(s, i1 + 1)) {
            Some((j, (v, ms, ps))) => Some((skip_ws(s, j), half_open(v, tilde_upper(v, ms, ps)))),
            None => None,
        }
    } else {
        None
    }
}

pub open spec fn any_at(s: Seq<char>, i: int) -> Option<(int, Option<RangeV>)> {
    if 0 <= i && i + 3 <= s.len() && s[i] == 'a' && s[i + 1] == 'n' && s[i + 2] == 'y' {
        Some((i + 3, Some(any_range())))
    } else {
        None
    }
}

/// One bound of an interval range at `i`, introduced by `sigil` (`>` or `<`): whether it is
/// inclusive (`=`), the version, and whether pre-releases are accepted (`!`, for a version that
/// is not itself a pre-release).
pub open spec fn bound_at(s: Seq<char>, i: int, sigil: char) -> Option<(int, (bool, VersionV, bool))> {
    let j0 = skip_ws(s, i);
    if j0 < s.len() && s[j0] == sigil {
        let j1 = skip_ws(s, j0 + 1);
        let eq = j1 < s.len() && s[j1] == '=';
        let j2 = if eq {
            j1 + 1
        } else {
            j1
        };
        let j3 = skip_ws(s, j2);
        let bang = j3 < s.len() && s[j3] == '!';
        let j4 = if bang {
            j3 + 1
        } else {
            j3
        };
        match bare_version_at(s, skip_ws(s, j4)) {
            Some((k, (v, _, _))) => Some((skip_ws(s, k), (eq, v, bang && !is_pre(v)))),
            None => None,
        }
    } else {
        None
    }
}

pub open spec fn bound_interval(b: Option<(int, (bool, VersionV, bool))>) -> IntervalV {
    match b {
        Some((_, (closed, v, p))) => if closed {
            IntervalV::Closed(v, p)
        } else {
            IntervalV::Open(v, p)
        },
        None => IntervalV::Unbounded,
    }
}

/// The range of two optional bounds; `None` where both are absent or the range makes no
/// sense.
pub open spec fn build_range(lower: IntervalV, upper: IntervalV) -> Option<RangeV> {
    if lower is Unbounded && upper is Unbounded {
        None
    } else if range_new_ok(lower, upper) {
        Some(RangeV { lower, upper })
    } else {
        None
    }
}

/// An interval range always applies, though it may read nothing.
pub open spec fn interval_at(s: Seq<char>, i: int) -> (int, Option<RangeV>) {
    let i1 = skip_ws(s, i);
    let lo = bound_at(s, i1, '>');
    let p = match lo {
        Some((k, _)) => k,
        None => i1,
    };
    let up = bound_at(s, skip_ws(s, p), '<');
    let q = match up {
        Some((k, _)) => k,
        None => skip_ws(s, p),
    };
    (skip_ws(s, q), build_range(bound_interval(lo), bound_interval(up)))
}

/// A range at `i`: caret syntax, else tilde syntax, else `any`, else an interval range.
pub open spec fn range_at(s: Seq<char>, i: int) -> (int, Option<RangeV>) {
    if caret_at(s, i) is Some {
        caret_at(s, i)->Some_0
    } else if tilde_at(s, i) is Some {
        tilde_at(s, i)->Some_0
    } else if any_at(s, i) is Some {
        any_at(s, i)->Some_0
    } else {
        interval_at(s, i)
    }
}

/// The ranges after a first one that ended at `pos`: each follows a comma and must read at
/// least one character.
pub open spec fn more_ranges(s: Seq<char>, pos: int) -> Seq<Option<RangeV>>
    decreases s.len() - pos,
{
    if 0 <= pos < s.len() && s[pos] == ',' {
        let (e, r) = range_at(s, pos + 1);
        if e > pos + 1 && e <= s.len() {
            seq![r] + more_ranges(s, e)
        } else {
            Seq::empty()
        }
    } else {
        Seq::empty()
    }
}

/// The comma-separated list of ranges at the start of `s`; `None` where the first range reads
/// nothing.
pub open spec fn range_list(s: Seq<char>) -> Option<Seq<Option<RangeV>>> {
    let (e, r) = range_at(s, 0);
    if e > 0 {
        Some(seq![r] + more_ranges(s, e))
    } else {
        None
    }
}

/// Where the ranges after a first one that ended at `pos` end.
pub open spec fn more_ranges_end(s: Seq<char>, pos: int) -> int
    decreases s.len() - pos,
{
    if 0 <= pos < s.len() && s[pos] == ',' {
        let (e, r) = range_at(s, pos + 1);
        if e > pos + 1 && e <= s.len() {
            more_ranges_end(s, e)
        } else {
            pos
        }
    } else {
        pos
    }
}

/// Where the comma-separated list of ranges at the start of `s` ends.
pub open spec fn range_list_end(s: Seq<char>) -> int {
    more_ranges_end(s, range_at(s, 0).0)
}

pub open spec fn all_some(l: Seq<Option<RangeV>>) -> bool {
    forall|i: int| 0 <= i < l.len() ==> (#[trigger] l[i]) is Some
}

pub open spec fn unwrap_all(l: Seq<Option<RangeV>>) -> Seq<RangeV> {
    l.map_values(|o: Option<RangeV>| o->Some_0)
}

/// Why a range or constraint string was refused.
#[derive(Debug, PartialEq, Eq, Structural, Copy, Clone)]
pub enum ConstraintError {
    /// The text is not a list of ranges.
    Syntax,
    /// A range is nonsensical: no version can satisfy it.
    Invalid,
}

// ---------------------------------------------------------------------------------------
// The parser.

fn is_ws_exec(c: char) -> (r: bool)
    ensures
        r == is_ws(c),
{
    c == ' ' || c == '\t' || c == '\r' || c == '\n'
}

fn skip_ws_exec(cs: &Vec<char>, i: usize) -> (r: usize)
    requires
        i <= cs.len(),
    ensures
        r == skip_ws(cs@, i as int),
        i <= r <= cs.len(),
{
    let mut k = i;
    while k < cs.len() && is_ws_exec(cs[k])
        invariant
            i <= k <= cs.len(),
            skip_ws(cs@, i as int) == skip_ws(cs@, k as int),
        decreases cs.len() - k,
    {
        k = k + 1;
    }
    k
}

/// A character that may appear in a bare version: a digit or a dot.
pub fn version_char(c: char) -> (r: bool)
    ensures
        r == is_version_char(c),
{
    c == '.' || value_of_digit(c).is_some()
}

fn version_chars_end_exec(cs: &Vec<char>, i: usize) -> (r: usize)
    requires
        i <= cs.len(),
    ensures
        r == version_chars_end(cs@, i as int),
        i <= r <= cs.len(),
        forall|k: int| i <= k < r ==> is_version_char(#[trigger] cs@[k]),
{
    let mut k = i;
    while k < cs.len() && version_char(cs[k])
        invariant
            i <= k <= cs.len(),
            version_chars_end(cs@, i as int) == version_chars_end(cs@, k as int),
            forall|m: int| i <= m < k ==> is_version_char(#[trigger] cs@[m]),
        decreases cs.len() - k,
    {
        k = k + 1;
    }
    k
}

proof fn lemma_digits_value_step(s: Seq<char>, i: int, k: int)
    requires
        0 <= i <= k < s.len(),
        is_digit(s[k]),
    ensures
        digits_value(s.subrange(i, k + 1)) == digits_value(s.subrange(i, k)) * 10
            + crate::text::digit_value(s[k]),
{
    assert(s.subrange(i, k + 1).drop_last() =~= s.subrange(i, k));
    assert(s.subrange(i, k + 1).last() == s[k]);
}

fn number_at_exec(cs: &Vec<char>, i: usize) -> (r: Option<(usize, u64)>)
    requires
        i <= cs.len(),
    ensures
        match r {
            Some((j, n)) => number_at(cs@, i as int) == Some((j as int, n)) && i < j <= cs.len(),
            None => number_at(cs@, i as int) is None,
        },
{
    let mut k = i;
    let mut acc: u64 = 0;
    let mut overflow = false;
    assert(cs@.subrange(i as int, i as int) =~= Seq::<char>::empty());
    loop
        invariant
            i <= k <= cs.len(),
            digits_end(cs@, i as int) == digits_end(cs@, k as int),
            overflow ==> digits_value(cs@.subrange(i as int, k as int)) > u64::MAX,
            !overflow ==> acc == digits_value(cs@.subrange(i as int, k as int)),
        ensures
            i <= k <= cs.len(),
            digits_end(cs@, k as int) == k,
            digits_end(cs@, i as int) == k,
            overflow ==> digits_value(cs@.subrange(i as int, k as int)) > u64::MAX,
            !overflow ==> acc == digits_value(cs@.subrange(i as int, k as int)),
        decreases cs.len() - k,
    {
        if k >= cs.len() {
            break;
        }
        match value_of_digit(cs[k]) {
            None => {
                break;
            },
            Some(d) => {
                proof {
                    lemma_digits_value_step(cs@, i as int, k as int);
                }
                if !overflow {
                    if acc > (u64::MAX - d) / 10 {
                        overflow = true;
                    } else {
                        acc = acc * 10 + d;
                    }
                }
                k = k + 1;
            },
        }
    }
    if k == i || overflow {
        None
    } else {
        Some((k, acc))
    }
}

fn bare_version_exec(cs: &Vec<char>, i: usize) -> (r: Option<(usize, Version, bool, bool)>)
    requires
        i <= cs.len(),
    ensures
        match r {
            Some((j, v, ms, ps)) => bare_version_at(cs@, i as int) == Some((j as int, (v@, ms, ps)))
                && i < j <= cs.len(),
            None => bare_version_at(cs@, i as int) is None,
        },
{
    let j = version_chars_end_exec(cs, i);
    if j > i {
        let t = string_of_chars(cs, i, j);
        assert(digits_and_dots(t@));
        match Version::parse(t.as_str()) {
            Ok(v) => {
                return Some((j, v, true, true));
            },
            Err(_) => {},
        }
    }
    match number_at_exec(cs, i) {
        None => None,
        Some((j1, major)) => {
            if j1 < cs.len() && cs[j1] == '.' {
                match number_at_exec(cs, j1 + 1) {
                    Some((j2, minor)) => {
                        return Some((j2, Version::new(major, minor, 0), true, false));
                    },
                    None => {},
                }
            }
            Some((j1, Version::new(major, 0, 0), false, false))
        },
    }
}

fn caret_upper_exec(v: &Version, ms: bool, ps: bool) -> (r: Option<Version>)
    ensures
        match r {
            Some(u) => caret_upper(v@, ms, ps) == Some(u@),
            None => caret_upper(v@, ms, ps) is None,
        },
{
    if v.major > 0 || (!ms && !ps) {
        if v.major < u64::MAX {
            Some(Version::new(v.major + 1, 0, 0))
        } else {
            None
        }
    } else if v.minor > 0 {
        if v.minor < u64::MAX {
            Some(Version::new(v.major, v.minor + 1, 0))
        } else {
            None
        }
    } else if v.patch < u64::MAX {
        Some(Version::new(v.major, v.minor, v.patch + 1))
    } else {
        None
    }
}

fn tilde_upper_exec(v: &Version, ms: bool, ps: bool) -> (r: Option<Version>)
    ensures
        match r {
            Some(u) => tilde_upper(v@, ms, ps) == Some(u@),
            None => tilde_upper(v@, ms, ps) is None,
        },
{
    if !ms && !ps {
        if v.major < u64::MAX {
            Some(Version::new(v.major + 1, 0, 0))
        } else {
            None
        }
    } else if v.minor < u64::MAX {
        Some(Version::new(v.major, v.minor + 1, 0))
    } else {
        None
    }
}

pub open spec fn opt_range_view(r: Option<Range>) -> Option<RangeV> {
    match r {
        Some(x) => Some(x@),
        None => None,
    }
}

fn half_open_exec(v: Version, u: Option<Version>) -> (r: Option<Range>)
    ensures
        opt_range_view(r) == half_open(v@, opt_version(u)),
{
    match u {
        Some(u) => Range::new(Interval::Closed(v, false), Interval::Open(u, false)),
        None => None,
    }
}

pub open spec fn opt_version(u: Option<Version>) -> Option<VersionV> {
    match u {
        Some(x) => Some(x@),
        None => None,
    }
}

fn caret_at_exec(cs: &Vec<char>, i: usize) -> (r: Option<(usize, Option<Range>)>)
    requires
        i <= cs.len(),
    ensures
        match r {
            Some((j, x)) => caret_at(cs@, i as int) == Some((j as int, opt_range_view(x)))
                && j <= cs.len(),
            None => caret_at(cs@, i as int) is None,
        },
{
    let i1 = skip_ws_exec(cs, i);
    let i2 = if i1 < cs.len() && cs[i1] == '^' {
        i1 + 1
    } else {
        i1
    };
    let i3 = skip_ws_exec(cs, i2);
    match bare_version_exec(cs, i3) {
        Some((j, v, ms, ps)) => {
            let u = caret_upper_exec(&v, ms, ps);
            let k = skip_ws_exec(cs, j);
            Some((k, half_open_exec(v, u)))
        },
        None => None,
    }
}

fn tilde_at_exec(cs: &Vec<char>, i: usize) -> (r: Option<(usize, Option<Range>)>)
    requires
        i <= cs.len(),
    ensures
        match r {
            Some((j, x)) => tilde_at(cs@, i as int) == Some((j as int, opt_range_view(x)))
                && j <= cs.len(),
            None => tilde_at(cs@, i as int) is None,
        },
{
    let i1 = skip_ws_exec(cs, i);
    if i1 < cs.len() && cs[i1] == '~' {
        let i3 = skip_ws_exec(cs, i1 + 1);
        match bare_version_exec(cs, i3) {
            Some((j, v, ms, ps)) => {
                let u = tilde_upper_exec(&v, ms, ps);
                let k = skip_ws_exec(cs, j);
                Some((k, half_open_exec(v, u)))
            },
            None => None,
        }
    } else {
        None
    }
}

fn bound_at_exec(cs: &Vec<char>, i: usize, sigil: char) -> (r: Option<(usize, bool, Version, bool)>)
    requires
        i <= cs.len(),
    ensures
        match r {
            Some((k, eq, v, p)) => bound_at(cs@, i as int, sigil) == Some((k as int, (eq, v@, p)))
                && i <= k <= cs.len(),
            None => bound_at(cs@, i as int, sigil) is None,
        },
{
    let j0 = skip_ws_exec(cs, i);
    if j0 < cs.len() && cs[j0] == sigil {
        let j1 = skip_ws_exec(cs, j0 + 1);
        let eq = j1 < cs.len() && cs[j1] == '=';
        let j2 = if eq {
            j1 + 1
        } else {
            j1
        };
        let j3 = skip_ws_exec(cs, j2);
        let bang = j3 < cs.len() && cs[j3] == '!';
        let j4 = if bang {
            j3 + 1
        } else {
            j3
        };
        let j5 = skip_ws_exec(cs, j4);
        match bare_version_exec(cs, j5) {
            Some((k, v, _, _)) => {
                let k2 = skip_ws_exec(cs, k);
                let p = bang && !v.is_prerelease();
                Some((k2, eq, v, p))
            },
            None => None,
        }
    } else {
        None
    }
}

fn interval_of(b: Option<(usize, bool, Version, bool)>) -> (r: Interval)
    ensures
        r@ == bound_interval(match b {
            Some((k, eq, v, p)) => Some((k as int, (eq, v@, p))),
            None => None,
        }),
{
    match b {
        Some((_, closed, v, p)) => if closed {
            Interval::Closed(v, p)
        } else {
            Interval::Open(v, p)
        },
        None => Interval::Unbounded,
    }
}

fn interval_at_exec(cs: &Vec<char>, i: usize) -> (r: (usize, Option<Range>))
    requires
        i <= cs.len(),
    ensures
        interval_at(cs@, i as int) == (r.0 as int, opt_range_view(r.1)),
        i <= r.0 <= cs.len(),
{
    let i1 = skip_ws_exec(cs, i);
    let lo = bound_at_exec(cs, i1, '>');
    let p = match &lo {
        Some((k, _, _, _)) => *k,
        None => i1,
    };
    let p2 = skip_ws_exec(cs, p);
    let up = bound_at_exec(cs, p2, '<');
    let q = match &up {
        Some((k, _, _, _)) => *k,
        None => p2,
    };
    let e = skip_ws_exec(cs, q);
    let lower = interval_of(lo);
    let upper = interval_of(up);
    let range = if lower.is_unbounded() && upper.is_unbounded() {
        None
    } else {
        Range::new(lower, upper)
    };
    (e, range)
}

fn range_at_exec(cs: &Vec<char>, i: usize) -> (r: (usize, Option<Range>))
    requires
        i <= cs.len(),
    ensures
        range_at(cs@, i as int) == (r.0 as int, opt_range_view(r.1)),
        r.0 <= cs.len(),
{
    match caret_at_exec(cs, i) {
        Some(x) => {
            return x;
        },
        None => {},
    }
    match tilde_at_exec(cs, i) {
        Some(x) => {
            return x;
        },
        None => {},
    }
    if i < cs.len() && cs.len() - i >= 3 && cs[i] == 'a' && cs[i + 1] == 'n' && cs[i + 2] == 'y' {
        return (i + 3, Some(Range::any()));
    }
    interval_at_exec(cs, i)
}

pub open spec fn opt_ranges_view(l: Seq<Option<Range>>) -> Seq<Option<RangeV>> {
    l.map_values(|o: Option<Range>| opt_range_view(o))
}

fn range_list_exec(cs: &Vec<char>) -> (r: Option<(usize, Vec<Option<Range>>)>)
    ensures
        match r {
            Some((e, l)) => range_list(cs@) == Some(opt_ranges_view(l@)) && e == range_list_end(
                cs@,
            ),
            None => range_list(cs@) is None,
        },
{
    let (e, first) = range_at_exec(cs, 0);
    if e == 0 {
        return None;
    }
    let mut out: Vec<Option<Range>> = Vec::new();
    out.push(first);
    let mut pos = e;
    assert(opt_ranges_view(out@) =~= seq![range_at(cs@, 0).1]);
    loop
        invariant
            0 < pos <= cs.len(),
            range_list(cs@) == Some(opt_ranges_view(out@) + more_ranges(cs@, pos as int)),
            range_list_end(cs@) == more_ranges_end(cs@, pos as int),
        ensures
            range_list(cs@) == Some(opt_ranges_view(out@)),
            range_list_end(cs@) == pos,
        decreases cs.len() - pos,
    {
        if pos < cs.len() && cs[pos] == ',' {
            let (e2, x) = range_at_exec(cs, pos + 1);
            if e2 > pos + 1 {
                let ghost o0 = out@;
                let ghost xv = opt_range_view(x);
                out.push(x);
                assert(opt_ranges_view(out@) =~= opt_ranges_view(o0).push(xv));
                assert(more_ranges(cs@, pos as int) == seq![xv] + more_ranges(cs@, e2 as int));
                assert(opt_ranges_view(o0) + (seq![xv] + more_ranges(cs@, e2 as int))
                    =~= opt_ranges_view(out@) + more_ranges(cs@, e2 as int));
                pos = e2;
            } else {
                assert(more_ranges(cs@, pos as int) =~= Seq::<Option<RangeV>>::empty());
                assert(opt_ranges_view(out@) + Seq::<Option<RangeV>>::empty() =~= opt_ranges_view(out@));
                break;
            }
        } else {
            assert(more_ranges(cs@, pos as int) =~= Seq::<Option<RangeV>>::empty());
            assert(opt_ranges_view(out@) + Seq::<Option<RangeV>>::empty() =~= opt_ranges_view(out@));
            break;
        }
    }
    Some((pos, out))
}

/// Reads a version as ranges write it: `A.B.C` as `semver` reads it, else `A.B`, else `A`;
/// with whether the minor and the patch numbers were written. Text after it is ignored.
pub fn bare_version(s: &str) -> (r: Option<(Version, bool, bool)>)
    ensures
        match r {
            Some((v, ms, ps)) => bare_version_at(s@, 0) matches Some((_, x)) && x == (v@, ms, ps),
            None => bare_version_at(s@, 0) is None,
        },
{
    let cs = str_chars(s);
    match bare_version_exec(&cs, 0) {
        Some((_, v, ms, ps)) => Some((v, ms, ps)),
        None => None,
    }
}

impl Range {
    /// Parses a range, which must take the whole text (whitespace around it aside): text
    /// left over after it, as in `< 1 > 2`, is a syntax error.
    pub fn from_str(s: &str) -> (r: Result<Range, ConstraintError>)
        ensures
            match r {
                Ok(x) => range_at(s@, 0).0 == s@.len() && range_at(s@, 0).1 == Some(x@),
                Err(ConstraintError::Syntax) => range_at(s@, 0).0 != s@.len(),
                Err(ConstraintError::Invalid) => range_at(s@, 0).0 == s@.len() && range_at(
                    s@,
                    0,
                ).1 is None,
            },
    {
        let cs = str_chars(s);
        let (e, x) = range_at_exec(&cs, 0);
        if e != cs.len() {
            return Err(ConstraintError::Syntax);
        }
        match x {
            Some(x) => Ok(x),
            None => Err(ConstraintError::Invalid),
        }
    }
}

impl Constraint {
    /// Parses a constraint: a comma-separated list of ranges, which are then unified. The list
    /// must take the whole text: text left over after the last range is a syntax error.
    pub fn from_str(s: &str) -> (r: Result<Constraint, ConstraintError>)
        ensures
            match r {
                Ok(c) => range_list(s@) matches Some(l) && range_list_end(s@) == s@.len()
                    && all_some(l) && c@ == unify(dedup(unwrap_all(l))),
                Err(ConstraintError::Syntax) => range_list(s@) is None || range_list_end(s@)
                    != s@.len(),
                Err(ConstraintError::Invalid) => range_list(s@) matches Some(l) && range_list_end(
                    s@,
                ) == s@.len() && !all_some(l),
            },
    {
        let cs = str_chars(s);
        match range_list_exec(&cs) {
            None => Err(ConstraintError::Syntax),
            Some((end, l)) => {
                if end != cs.len() {
                    return Err(ConstraintError::Syntax);
                }
                let ghost lv = opt_ranges_view(l@);
                let mut ranges: Vec<Range> = Vec::new();
                let mut l = l;
                let n = l.len();
                // The ranges are taken out of the list back to front, then put in order.
                let mut rev: Vec<Range> = Vec::new();
                while l.len() > 0
                    invariant
                        l.len() + rev.len() == n,
                        lv.len() == n,
                        range_list(s@) == Some(lv),
                        range_list_end(s@) == s@.len(),
                        opt_ranges_view(l@) == lv.take(l.len() as int),
                        forall|k: int| 0 <= k < rev.len() ==> lv[n - 1 - k] == Some(#[trigger] rev@[k]@),
                    decreases l.len(),
                {
                    let ghost l0 = l@;
                    match l.pop() {
                        Some(Some(x)) => {
                            assert(lv[l.len() as int] == Some(x@)) by {
                                assert(opt_ranges_view(l0)[l.len() as int] == Some(x@));
                            }
                            rev.push(x);
                            assert(opt_ranges_view(l@) =~= lv.take(l.len() as int));
                        },
                        Some(None) => {
                            proof {
                                assert(opt_ranges_view(l0)[l.len() as int] == lv[l.len() as int]);
                                assert(lv[l.len() as int] is None);
                                assert(!all_some(lv));
                            }
                            return Err(ConstraintError::Invalid);
                        },
                        None => {
                            return Err(ConstraintError::Invalid);
                        },
                    }
                }
                while rev.len() > 0
                    invariant
                        ranges.len() + rev.len() == n,
                        lv.len() == n,
                        forall|k: int| 0 <= k < rev.len() ==> lv[n - 1 - k] == Some(#[trigger] rev@[k]@),
                        forall|k: int| 0 <= k < ranges.len() ==> lv[k] == Some(#[trigger] ranges@[k]@),
                    decreases rev.len(),
                {
                    let x = rev.pop().unwrap();
                    assert(lv[ranges.len() as int] == Some(x@));
                    ranges.push(x);
                }
                proof {
                    assert forall|k: int| 0 <= k < lv.len() implies (#[trigger] lv[k]) is Some by {
                        assert(lv[k] == Some(ranges@[k]@));
                    }
                    assert(all_some(lv));
                    assert(crate::constraint::ranges_view(ranges@) =~= unwrap_all(lv));
                }
                Ok(Constraint::new(ranges))
            },
        }
    }
}

// ---------------------------------------------------------------------------------------
// Laws of the syntax.

proof fn lemma_skip_ws_stays(s: Seq<char>, j: int)
    requires
        0 <= j < s.len(),
        !is_ws(s[j]),
    ensures
        skip_ws(s, j) == j,
{
}

/// A bare version starts with a digit or a dot.
proof fn lemma_bare_version_starts(s: Seq<char>, i: int)
    requires
        0 <= i,
        bare_version_at(s, i) is Some,
    ensures
        i < s.len(),
        is_version_char(s[i]),
{
    let j = version_chars_end(s, i);
    if !(j > i && dotted_triple(s.subrange(i, j)) is Some) {
        assert(digits_end(s, i) > i);
    }
}

/// Caret syntax with and without its sigil agree: where a `^` opens a range (after any
/// whitespace) and a version follows it, the range read there is the one read from just after
/// the `^`, and reading ends at the same place.
pub proof fn law_caret_sigil(s: Seq<char>, i: int)
    requires
        0 <= i,
        skip_ws(s, i) < s.len(),
        s[skip_ws(s, i)] == '^',
        bare_version_at(s, skip_ws(s, skip_ws(s, i) + 1)) is Some,
    ensures
        range_at(s, i) == range_at(s, skip_ws(s, i) + 1),
{
    let k = skip_ws(s, i);
    let j = skip_ws(s, k + 1);
    lemma_skip_ws_ge(s, k + 1);
    lemma_bare_version_starts(s, j);
    lemma_skip_ws_stays(s, j);
    assert(caret_at(s, i) is Some);
    assert(caret_at(s, k + 1) is Some);
    assert(caret_at(s, i) == caret_at(s, k + 1));
}

proof fn lemma_skip_ws_ge(s: Seq<char>, i: int)
    ensures
        skip_ws(s, i) >= i,
    decreases s.len() - i,
{
    if 0 <= i < s.len() && is_ws(s[i]) {
        lemma_skip_ws_ge(s, i + 1);
    }
}

} // verus!
